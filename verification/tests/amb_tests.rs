use propagators_chirho::name_set_chirho::NameSetChirho;
use propagators_chirho::search_chirho::{
    AmbChirho, BacktrackingSearchChirho, DependencyDirectedSearchChirho, DomWdegChirho, SearchResultChirho,
    VariableOrderingChirho,
};

fn blame_chirho(names_chirho: &[&str]) -> NameSetChirho {
    let mut conflict_chirho = NameSetChirho::new_chirho();
    for name_chirho in names_chirho {
        conflict_chirho.insert_chirho(name_chirho.to_string());
    }
    conflict_chirho
}

#[test]
fn amb_chirho_test_amb_creation_chirho() {
    let amb_chirho = AmbChirho::new_chirho(vec![1.0f64, 2.0, 3.0]);
    assert_eq!(amb_chirho.choice_count_chirho(), 3);
}

#[test]
fn amb_chirho_test_amb_range_chirho() {
    let amb_chirho = AmbChirho::range_chirho(1, 5);
    assert_eq!(amb_chirho.choice_count_chirho(), 5);
}

#[test]
fn amb_chirho_test_amb_iteration_chirho() {
    let mut amb_chirho = AmbChirho::range_chirho(1, 3);

    let first_chirho = amb_chirho.current_chirho().unwrap();
    assert_eq!(first_chirho, 1);

    assert!(amb_chirho.next_chirho());
    let second_chirho = amb_chirho.current_chirho().unwrap();
    assert_eq!(second_chirho, 2);

    assert!(amb_chirho.next_chirho());
    assert!(!amb_chirho.next_chirho()); // Exhausted
}

#[test]
fn amb_chirho_test_simple_search_chirho() {
    let mut search_chirho = BacktrackingSearchChirho::new_chirho();

    // Find x, y where x + y = 5 and x, y in {1, 2, 3, 4}
    let ambs_chirho = vec![AmbChirho::range_chirho(1, 4), AmbChirho::range_chirho(1, 4)];

    let result_chirho = search_chirho.search_simple_chirho(&ambs_chirho, |values_chirho: &[i32]| {
        if values_chirho.len() < 2 {
            true
        } else {
            values_chirho[0] + values_chirho[1] == 5
        }
    });

    match result_chirho {
        SearchResultChirho::SolutionChirho(solution_chirho) => {
            assert_eq!(solution_chirho[0] + solution_chirho[1], 5);
        }
        _ => panic!("Expected solution"),
    }
}

#[test]
fn amb_chirho_test_no_solution_chirho() {
    let mut search_chirho = BacktrackingSearchChirho::new_chirho();

    // Find x where x > 10 and x in {1, 2, 3}
    let ambs_chirho = vec![AmbChirho::range_chirho(1, 3)];

    let result_chirho = search_chirho.search_simple_chirho(&ambs_chirho, |values_chirho: &[i32]| {
        if values_chirho.is_empty() {
            true
        } else {
            values_chirho[0] > 10
        }
    });

    assert!(matches!(result_chirho, SearchResultChirho::NoSolutionChirho));
}

#[test]
fn amb_chirho_test_dd_search_basic_chirho() {
    let mut search_chirho = DependencyDirectedSearchChirho::new_chirho();

    let ambs_chirho = vec![
        ("x".to_string(), AmbChirho::range_chirho(1, 4)),
        ("y".to_string(), AmbChirho::range_chirho(1, 4)),
    ];

    let result_chirho = search_chirho.search_chirho(&ambs_chirho, |values_chirho: &[(String, i32)]| {
        if values_chirho.len() < 2 {
            Ok(())
        } else if values_chirho[0].1 + values_chirho[1].1 == 5 {
            Ok(())
        } else {
            Err(blame_chirho(&["x", "y"]))
        }
    });

    match result_chirho {
        SearchResultChirho::SolutionChirho(solution_chirho) => {
            assert_eq!(solution_chirho[0] + solution_chirho[1], 5);
        }
        _ => panic!("Expected solution"),
    }
}

#[test]
fn amb_chirho_test_dd_search_with_irrelevant_variable_chirho() {
    let mut search_chirho = DependencyDirectedSearchChirho::new_chirho();

    // z is irrelevant to the constraint x + y = 4
    let ambs_chirho = vec![
        ("x".to_string(), AmbChirho::range_chirho(1, 3)),
        ("y".to_string(), AmbChirho::range_chirho(1, 3)),
        ("z".to_string(), AmbChirho::range_chirho(1, 100)),
    ];

    let result_chirho = search_chirho.search_chirho(&ambs_chirho, |values_chirho: &[(String, i32)]| {
        if values_chirho.len() < 2 {
            Ok(())
        } else if values_chirho[0].1 + values_chirho[1].1 == 4 {
            Ok(())
        } else {
            Err(blame_chirho(&["x", "y"]))
        }
    });

    match result_chirho {
        SearchResultChirho::SolutionChirho(_) => {
            println!("Jumps: {}", search_chirho.jump_count_chirho());
            println!("Backtracks: {}", search_chirho.backtrack_count_chirho());
        }
        _ => panic!("Expected solution"),
    }
}

#[test]
fn amb_chirho_test_dd_search_no_solution_chirho() {
    let mut search_chirho = DependencyDirectedSearchChirho::new_chirho();

    // No solution: x + y = 100 with x, y in {1, 2, 3}
    let ambs_chirho = vec![
        ("x".to_string(), AmbChirho::range_chirho(1, 3)),
        ("y".to_string(), AmbChirho::range_chirho(1, 3)),
    ];

    let result_chirho = search_chirho.search_chirho(&ambs_chirho, |values_chirho: &[(String, i32)]| {
        if values_chirho.len() < 2 {
            Ok(())
        } else if values_chirho[0].1 + values_chirho[1].1 == 100 {
            Ok(())
        } else {
            Err(blame_chirho(&["x", "y"]))
        }
    });

    assert!(matches!(result_chirho, SearchResultChirho::NoSolutionChirho));

    // Should have learned some nogoods
    assert!(!search_chirho.nogoods_chirho().is_empty());
}

#[test]
fn check_amb_cursor_and_exhaustion_chirho() {
    let mut amb_chirho = AmbChirho::new_chirho(vec![7u8, 9]);
    assert!(!amb_chirho.is_exhausted_chirho());
    assert_eq!(amb_chirho.choices_chirho(), &[7, 9]);
    assert!(amb_chirho.next_chirho());
    assert_eq!(amb_chirho.current_chirho(), Some(9));
    assert!(!amb_chirho.next_chirho());
    amb_chirho.reset_chirho();
    assert_eq!(amb_chirho.current_chirho(), Some(7));
    let empty_chirho: AmbChirho<u8> = AmbChirho::new_chirho(Vec::new());
    assert!(empty_chirho.is_exhausted_chirho());
    assert_eq!(empty_chirho.current_chirho(), None);
    assert_eq!(AmbChirho::range_chirho(3, 2).choice_count_chirho(), 0);
    assert_eq!(AmbChirho::range_chirho(-2, 1).choices_chirho(), &[-2, -1, 0, 1]);
}

#[test]
fn check_search_counts_backtracks_chirho() {
    // x in {1, 2, 3}, y in {1, 2}: the first solution with x + y == 5 is (3, 2).
    let mut search_chirho = BacktrackingSearchChirho::new_chirho();
    let ambs_chirho = vec![AmbChirho::range_chirho(1, 3), AmbChirho::range_chirho(1, 2)];
    let result_chirho = search_chirho.search_simple_chirho(&ambs_chirho, |v: &[i32]| v.len() < 2 || v[0] + v[1] == 5);
    match result_chirho {
        SearchResultChirho::SolutionChirho(solution_chirho) => assert_eq!(solution_chirho, vec![3, 2]),
        _ => panic!("Expected solution"),
    }
    // (1,1) (1,2) fail, then x=1 fails; (2,1) (2,2) fail, then x=2 fails; (3,1) fails.
    assert_eq!(search_chirho.backtrack_count_chirho(), 7);
}

#[test]
fn check_search_abandons_at_limit_chirho() {
    let mut search_chirho = BacktrackingSearchChirho::with_limit_chirho(2);
    let ambs_chirho = vec![AmbChirho::range_chirho(1, 3), AmbChirho::range_chirho(1, 3)];
    let result_chirho = search_chirho.search_simple_chirho(&ambs_chirho, |v: &[i32]| v.len() < 2);
    assert!(matches!(result_chirho, SearchResultChirho::AbandonedChirho));
    assert!(search_chirho.backtrack_count_chirho() >= 2);
    let mut none_chirho = BacktrackingSearchChirho::new_chirho();
    let no_ambs_chirho: Vec<AmbChirho<i32>> = Vec::new();
    match none_chirho.search_simple_chirho(&no_ambs_chirho, |_v: &[i32]| true) {
        SearchResultChirho::SolutionChirho(solution_chirho) => assert!(solution_chirho.is_empty()),
        _ => panic!("Expected the empty solution"),
    }
}

#[test]
fn check_dd_search_jumps_over_irrelevant_choice_chirho() {
    // With x = 1 every z fails, blaming x and z: y is not blamed, so the
    // search jumps back past y and tries x = 2.
    let mut search_chirho = DependencyDirectedSearchChirho::new_chirho();
    let ambs_chirho = vec![
        ("x".to_string(), AmbChirho::range_chirho(1, 2)),
        ("y".to_string(), AmbChirho::range_chirho(1, 2)),
        ("z".to_string(), AmbChirho::range_chirho(1, 2)),
    ];
    let result_chirho = search_chirho.search_chirho(&ambs_chirho, |v: &[(String, i32)]| {
        if v.len() == 3 && v[0].1 == 1 {
            Err(blame_chirho(&["x", "z"]))
        } else {
            Ok(())
        }
    });
    match result_chirho {
        SearchResultChirho::SolutionChirho(solution_chirho) => assert_eq!(solution_chirho, vec![2, 1, 1]),
        _ => panic!("Expected solution"),
    }
    assert_eq!(search_chirho.jump_count_chirho(), 1);
    assert_eq!(search_chirho.backtrack_count_chirho(), 3);
    // The nogood learned at z is the choice x = 1 (amb 0, choice 0).
    let learned_chirho = search_chirho.nogoods_chirho();
    assert_eq!(learned_chirho, vec![vec![(0usize, 0usize)]]);
}

#[test]
fn check_dd_search_nogood_keeps_values_chirho() {
    // Every full assignment with x = 1 fails blaming only x. The nogood
    // learned is the choice x = 1, so x = 2 is still tried and y = 1 works.
    let mut search_chirho = DependencyDirectedSearchChirho::new_chirho();
    let ambs_chirho = vec![
        ("x".to_string(), AmbChirho::range_chirho(1, 2)),
        ("y".to_string(), AmbChirho::range_chirho(1, 2)),
    ];
    let result_chirho = search_chirho.search_chirho(&ambs_chirho, |v: &[(String, i32)]| {
        if v.len() == 2 && v[0].1 == 1 {
            Err(blame_chirho(&["x"]))
        } else {
            Ok(())
        }
    });
    match result_chirho {
        SearchResultChirho::SolutionChirho(solution_chirho) => assert_eq!(solution_chirho, vec![2, 1]),
        _ => panic!("Expected solution"),
    }
    assert_eq!(search_chirho.backtrack_count_chirho(), 3);
    assert_eq!(search_chirho.jump_count_chirho(), 0);
    assert_eq!(search_chirho.nogoods_chirho(), vec![vec![(0usize, 0usize)]]);
}

#[test]
fn check_dd_search_no_solution_learns_chirho() {
    // Nothing works: every full assignment is rejected, blaming both.
    let mut search_chirho = DependencyDirectedSearchChirho::new_chirho();
    let ambs_chirho = vec![
        ("x".to_string(), AmbChirho::range_chirho(1, 2)),
        ("y".to_string(), AmbChirho::range_chirho(1, 2)),
    ];
    let result_chirho = search_chirho.search_chirho(&ambs_chirho, |v: &[(String, i32)]| {
        if v.len() < 2 {
            Ok(())
        } else {
            Err(blame_chirho(&["x", "y"]))
        }
    });
    assert!(matches!(result_chirho, SearchResultChirho::NoSolutionChirho));
    // x = 1 fails, then x = 2 fails; the whole search fails blaming x.
    assert_eq!(
        search_chirho.nogoods_chirho(),
        vec![vec![(0usize, 0usize)], vec![(0usize, 1usize)], vec![]]
    );
    assert_eq!(search_chirho.backtrack_count_chirho(), 6);
}

#[test]
fn check_premise_set_operations_chirho() {
    let mut a_chirho = blame_chirho(&["x", "y"]);
    assert!(!a_chirho.insert_chirho("x".to_string()));
    assert!(a_chirho.contains_chirho(&"y".to_string()));
    assert!(!a_chirho.contains_chirho(&"z".to_string()));
    let b_chirho = blame_chirho(&["y", "z", "x"]);
    assert!(a_chirho.is_subset_chirho(&b_chirho));
    assert!(!b_chirho.is_subset_chirho(&a_chirho));
    a_chirho.extend_chirho(&b_chirho);
    assert_eq!(a_chirho.len_chirho(), 3);
    assert_eq!(a_chirho.names_chirho(), vec!["x".to_string(), "y".to_string(), "z".to_string()]);
    assert!(NameSetChirho::new_chirho().is_empty_chirho());
    assert!(!a_chirho.copy_chirho().is_empty_chirho());
}

#[test]
fn test_dom_wdeg_creation_chirho() {
    // 3 variables, 2 constraints
    let constraint_vars_chirho = vec![vec![0, 1], vec![1, 2]];

    let heuristic_chirho = DomWdegChirho::new_chirho(3, constraint_vars_chirho);

    // Variable 1 has wdeg = 2 (involved in both constraints)
    assert!((heuristic_chirho.weighted_degree_chirho(1) as f64 - 2.0).abs() < 1e-10);
    // Variable 0 has wdeg = 1
    assert!((heuristic_chirho.weighted_degree_chirho(0) as f64 - 1.0).abs() < 1e-10);
}

#[test]
fn test_dom_wdeg_failure_recording_chirho() {
    let constraint_vars_chirho = vec![vec![0, 1], vec![1, 2]];
    let mut heuristic_chirho = DomWdegChirho::new_chirho(3, constraint_vars_chirho);

    // Record failure on constraint 0
    heuristic_chirho.record_failure_chirho(0);

    // Weight should increase
    assert!((heuristic_chirho.weighted_degree_chirho(0) as f64 - 2.0).abs() < 1e-10);
    assert!((heuristic_chirho.weighted_degree_chirho(1) as f64 - 3.0).abs() < 1e-10);
}

#[test]
fn test_dom_wdeg_selection_chirho() {
    let constraint_vars_chirho = vec![vec![0, 1], vec![1, 2], vec![0, 1, 2]];
    let heuristic_chirho = DomWdegChirho::new_chirho(3, constraint_vars_chirho);

    // All domains same size
    let domain_sizes_chirho = vec![3, 3, 3];
    let assigned_chirho = vec![false, false, false];

    // Should select var with highest wdeg (var 1 with wdeg=3)
    let selected_chirho = heuristic_chirho.select_variable_chirho(&domain_sizes_chirho, &assigned_chirho);
    assert_eq!(selected_chirho, Some(1));
}

#[test]
fn check_dom_wdeg_ratios_and_reset_chirho() {
    let mut heuristic_chirho = DomWdegChirho::new_chirho(4, vec![vec![0], vec![1], vec![0, 1]]);
    // Variable 3 is in no constraint: its weighted degree 0 counts as 1.
    assert_eq!(heuristic_chirho.weighted_degree_chirho(3), 0);
    // sizes 4, 3, _, 1: ratios 4/2, 3/2, -, 1/1 -> variable 3.
    assert_eq!(heuristic_chirho.select_variable_chirho(&[4, 3, 5, 1], &[false, false, true, false]), Some(3));
    // Without variable 3, variable 1 (3/2 < 4/2).
    assert_eq!(heuristic_chirho.select_variable_chirho(&[4, 3, 5, 1], &[false, false, true, true]), Some(1));
    // Failures on constraint 0 make variable 0 heavier: 4/4 < 3/2.
    heuristic_chirho.record_failure_chirho(0);
    heuristic_chirho.record_failure_chirho(0);
    heuristic_chirho.record_failure_chirho(9);
    assert_eq!(heuristic_chirho.weighted_degree_chirho(0), 4);
    assert_eq!(heuristic_chirho.select_variable_chirho(&[4, 3, 5, 1], &[false, false, true, true]), Some(0));
    // Equal ratios: the first wins.
    assert_eq!(heuristic_chirho.select_variable_chirho(&[4, 2, 5, 1], &[false, false, true, true]), Some(0));
    heuristic_chirho.reset_weights_chirho();
    assert_eq!(heuristic_chirho.weighted_degree_chirho(0), 2);
    // Slices shorter than the variables: the missing ones are not picked.
    assert_eq!(heuristic_chirho.select_variable_chirho(&[0], &[false]), None);
}

#[test]
fn check_simple_search_first_solution_chirho() {
    let mut search_chirho = BacktrackingSearchChirho::new_chirho();
    let ambs_chirho = vec![AmbChirho::range_chirho(1, 4), AmbChirho::range_chirho(1, 4)];
    let result_chirho = search_chirho.search_simple_chirho(&ambs_chirho, |v: &[i32]| v.len() < 2 || v[0] + v[1] == 5);
    match result_chirho {
        SearchResultChirho::SolutionChirho(sol_chirho) => assert_eq!(sol_chirho, vec![1, 4]),
        _ => panic!("expected a solution"),
    }
    assert_eq!(search_chirho.backtrack_count_chirho(), 3);
}
