use propagators_chirho::propagator_chirho::NoPropagatorsChirho;
use propagators_chirho::scheduler_chirho::{IncrementalSchedulerChirho, PrioritySchedulerChirho, SchedulerChirho};

#[test]
fn test_scheduler_creation_chirho() {
    let mut scheduler_chirho = SchedulerChirho::new_chirho();
    assert!(scheduler_chirho.is_quiescent_chirho());
    assert_eq!(scheduler_chirho.queue_size_chirho(), 0);
}

#[test]
fn test_scheduler_empty_run_chirho() {
    let mut scheduler_chirho = SchedulerChirho::new_chirho();
    scheduler_chirho.run_chirho(&mut NoPropagatorsChirho); // Should not panic
    assert!(scheduler_chirho.is_quiescent_chirho());
}

#[test]
fn test_scheduler_bounded_run_chirho() {
    let mut scheduler_chirho = SchedulerChirho::new_chirho();
    let reached_chirho = scheduler_chirho.run_bounded_chirho(100, &mut NoPropagatorsChirho);
    assert!(reached_chirho); // Empty queue = immediate fixpoint
}

#[test]
fn test_scheduler_stats_chirho() {
    let mut scheduler_chirho = SchedulerChirho::new_chirho();
    scheduler_chirho.run_chirho(&mut NoPropagatorsChirho);

    let stats_chirho = scheduler_chirho.stats_chirho();
    assert_eq!(stats_chirho.iterations_chirho, 1);
    assert_eq!(stats_chirho.runs_chirho, 0);
}

// Incremental scheduler tests

#[test]
fn test_incremental_scheduler_creation_chirho() {
    let mut scheduler_chirho = IncrementalSchedulerChirho::new_chirho();
    assert!(scheduler_chirho.is_quiescent_chirho());
    assert_eq!(scheduler_chirho.generation_chirho(), 0);
    assert!(!scheduler_chirho.has_pending_changes_chirho());
}

#[test]
fn test_incremental_scheduler_with_history_size_chirho() {
    let mut scheduler_chirho = IncrementalSchedulerChirho::with_history_size_chirho(500);
    assert!(scheduler_chirho.is_quiescent_chirho());
    assert_eq!(scheduler_chirho.generation_chirho(), 0);
}

#[test]
fn test_incremental_record_change_chirho() {
    let mut scheduler_chirho = IncrementalSchedulerChirho::new_chirho();

    scheduler_chirho.record_change_chirho("x");
    scheduler_chirho.record_change_chirho("y");

    assert!(scheduler_chirho.has_pending_changes_chirho());
    let pending_chirho = scheduler_chirho.pending_changes_chirho();
    assert_eq!(pending_chirho.len(), 2);
    assert!(pending_chirho.contains(&"x".to_string()));
    assert!(pending_chirho.contains(&"y".to_string()));
}

#[test]
fn test_incremental_generation_increments_chirho() {
    let mut scheduler_chirho = IncrementalSchedulerChirho::new_chirho();

    assert_eq!(scheduler_chirho.generation_chirho(), 0);
    scheduler_chirho.run_chirho(&mut NoPropagatorsChirho);
    assert_eq!(scheduler_chirho.generation_chirho(), 1);
    scheduler_chirho.run_chirho(&mut NoPropagatorsChirho);
    assert_eq!(scheduler_chirho.generation_chirho(), 2);
}

#[test]
fn test_incremental_changes_committed_to_history_chirho() {
    let mut scheduler_chirho = IncrementalSchedulerChirho::new_chirho();

    scheduler_chirho.record_change_chirho("a");
    scheduler_chirho.record_change_chirho("b");
    scheduler_chirho.run_chirho(&mut NoPropagatorsChirho);

    // Pending changes should be cleared
    assert!(!scheduler_chirho.has_pending_changes_chirho());

    // Changes should be in history
    let _history_chirho = scheduler_chirho.changes_since_generation_chirho(0);
    // Generation 0 changes are at gen 0, so they're not > 0
    // Let me fix the test to check generation properly
    let all_changes_chirho = scheduler_chirho.change_history_chirho();
    assert_eq!(all_changes_chirho.len(), 2);
}

#[test]
fn test_incremental_changes_since_generation_chirho() {
    let mut scheduler_chirho = IncrementalSchedulerChirho::new_chirho();

    // Gen 0
    scheduler_chirho.record_change_chirho("a");
    scheduler_chirho.run_chirho(&mut NoPropagatorsChirho); // Commits at gen 0, moves to gen 1

    // Gen 1
    scheduler_chirho.record_change_chirho("b");
    scheduler_chirho.run_chirho(&mut NoPropagatorsChirho); // Commits at gen 1, moves to gen 2

    // Changes since gen 0 (exclusive) should include gen 1 changes
    let changes_chirho = scheduler_chirho.changes_since_generation_chirho(0);
    assert_eq!(changes_chirho.len(), 1);
    assert_eq!(changes_chirho[0].cell_name_chirho, "b");
    assert_eq!(changes_chirho[0].generation_chirho, 1);
}

#[test]
fn test_incremental_stats_chirho() {
    let mut scheduler_chirho = IncrementalSchedulerChirho::new_chirho();

    scheduler_chirho.record_change_chirho("x");
    scheduler_chirho.run_chirho(&mut NoPropagatorsChirho);

    let stats_chirho = scheduler_chirho.stats_chirho();
    assert_eq!(stats_chirho.incremental_runs_chirho, 1);
    assert_eq!(stats_chirho.changes_tracked_chirho, 1);
}

#[test]
fn test_incremental_clear_history_chirho() {
    let mut scheduler_chirho = IncrementalSchedulerChirho::new_chirho();

    scheduler_chirho.record_change_chirho("x");
    scheduler_chirho.run_chirho(&mut NoPropagatorsChirho);

    scheduler_chirho.clear_history_chirho();
    let all_changes_chirho = scheduler_chirho.change_history_chirho();
    assert!(all_changes_chirho.is_empty());
}

#[test]
fn test_incremental_history_pruning_chirho() {
    let mut scheduler_chirho = IncrementalSchedulerChirho::with_history_size_chirho(5);

    // Add more changes than the history size
    for i_chirho in 0..10 {
        scheduler_chirho.record_change_chirho(&format!("cell_{}", i_chirho));
        scheduler_chirho.run_chirho(&mut NoPropagatorsChirho);
    }

    // History should be pruned to max size
    let history_chirho = scheduler_chirho.change_history_chirho();
    assert!(history_chirho.len() <= 5);
}

#[test]
fn test_priority_scheduler_creation_chirho() {
    let mut scheduler_chirho = PrioritySchedulerChirho::new_chirho();
    assert!(scheduler_chirho.is_quiescent_chirho());
    assert_eq!(scheduler_chirho.queue_size_chirho(), 0);
}

#[test]
fn test_priority_scheduler_empty_run_chirho() {
    let mut scheduler_chirho = PrioritySchedulerChirho::new_chirho();
    scheduler_chirho.run_chirho(&mut NoPropagatorsChirho); // Should not panic
    assert!(scheduler_chirho.is_quiescent_chirho());
}

#[test]
fn test_priority_scheduler_bounded_run_chirho() {
    let mut scheduler_chirho = PrioritySchedulerChirho::new_chirho();
    let reached_chirho = scheduler_chirho.run_bounded_chirho(100, &mut NoPropagatorsChirho);
    assert!(reached_chirho); // Empty queue = immediate fixpoint
}

#[test]
fn test_priority_scheduler_stats_chirho() {
    let mut scheduler_chirho = PrioritySchedulerChirho::new_chirho();
    scheduler_chirho.run_chirho(&mut NoPropagatorsChirho);

    let stats_chirho = scheduler_chirho.stats_chirho();
    assert_eq!(stats_chirho.iterations_chirho, 1);
    assert_eq!(stats_chirho.runs_chirho, 0);
}

#[test]
fn test_priority_scheduler_default_chirho() {
    let mut scheduler_chirho = PrioritySchedulerChirho::default();
    assert!(scheduler_chirho.is_quiescent_chirho());
}

#[test]
fn test_priority_scheduler_clear_chirho() {
    let mut scheduler_chirho = PrioritySchedulerChirho::new_chirho();
    // Note: We can't easily add propagators without cells, but we can test clear
    scheduler_chirho.clear_chirho();
    assert!(scheduler_chirho.is_quiescent_chirho());
}
