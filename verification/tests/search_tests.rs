use std::collections::HashSet;

use propagators_chirho::search_chirho::{FirstFailChirho, RestartSearchChirho, SearchStatsChirho, VariableOrderingChirho};

#[test]
fn test_first_fail_selects_smallest_domain_chirho() {
    let heuristic_chirho = FirstFailChirho::new_chirho();

    let domain_sizes_chirho = vec![3, 1, 5, 2];
    let assigned_chirho = vec![false, false, false, false];

    // Should select index 1 (smallest domain = 1)
    let selected_chirho =
        heuristic_chirho.select_variable_chirho(&domain_sizes_chirho, &assigned_chirho);
    assert_eq!(selected_chirho, Some(1));
}

#[test]
fn test_first_fail_skips_assigned_chirho() {
    let heuristic_chirho = FirstFailChirho::new_chirho();

    let domain_sizes_chirho = vec![3, 1, 5, 2];
    let assigned_chirho = vec![false, true, false, false]; // Index 1 is assigned

    // Should select index 3 (next smallest = 2)
    let selected_chirho =
        heuristic_chirho.select_variable_chirho(&domain_sizes_chirho, &assigned_chirho);
    assert_eq!(selected_chirho, Some(3));
}

#[test]
fn test_first_fail_all_assigned_chirho() {
    let heuristic_chirho = FirstFailChirho::new_chirho();

    let domain_sizes_chirho = vec![3, 1, 5];
    let assigned_chirho = vec![true, true, true];

    let selected_chirho =
        heuristic_chirho.select_variable_chirho(&domain_sizes_chirho, &assigned_chirho);
    assert_eq!(selected_chirho, None);
}

#[test]
fn test_restart_search_luby_sequence_chirho() {
    let mut restart_chirho = RestartSearchChirho::new_chirho(10);

    // First cutoff is 10 * 1 = 10
    assert_eq!(restart_chirho.current_cutoff_chirho(), 10);

    restart_chirho.restart_chirho();
    // Second: 10 * 1 = 10
    assert_eq!(restart_chirho.current_cutoff_chirho(), 10);

    restart_chirho.restart_chirho();
    // Third: 10 * 2 = 20
    assert_eq!(restart_chirho.current_cutoff_chirho(), 20);

    restart_chirho.restart_chirho();
    // Fourth: 10 * 1 = 10
    assert_eq!(restart_chirho.current_cutoff_chirho(), 10);
}

#[test]
fn test_restart_search_nogood_recording_chirho() {
    let mut restart_chirho = RestartSearchChirho::new_chirho(100);

    let mut nogood_chirho = HashSet::new();
    nogood_chirho.insert("x".to_string());
    nogood_chirho.insert("y".to_string());

    restart_chirho.add_nogood_chirho(nogood_chirho);

    assert_eq!(restart_chirho.nogoods_chirho().len(), 1);
}

#[test]
fn test_restart_search_reset_chirho() {
    let mut restart_chirho = RestartSearchChirho::new_chirho(10);

    restart_chirho.restart_chirho();
    restart_chirho.restart_chirho();

    let mut nogood_chirho = HashSet::new();
    nogood_chirho.insert("x".to_string());
    restart_chirho.add_nogood_chirho(nogood_chirho);

    assert_eq!(restart_chirho.restart_count_chirho(), 2);
    assert_eq!(restart_chirho.nogoods_chirho().len(), 1);

    restart_chirho.reset_chirho();

    assert_eq!(restart_chirho.restart_count_chirho(), 0);
    assert!(restart_chirho.nogoods_chirho().is_empty());
    assert_eq!(restart_chirho.current_cutoff_chirho(), 10);
}

#[test]
fn test_search_stats_chirho() {
    let mut stats_chirho = SearchStatsChirho::new_chirho();

    stats_chirho.nodes_chirho = 100;
    stats_chirho.backtracks_chirho = 20;
    stats_chirho.restarts_chirho = 3;

    assert_eq!(stats_chirho.nodes_chirho, 100);
    assert_eq!(stats_chirho.backtracks_chirho, 20);

    stats_chirho.reset_chirho();

    assert_eq!(stats_chirho.nodes_chirho, 0);
    assert_eq!(stats_chirho.backtracks_chirho, 0);
}
