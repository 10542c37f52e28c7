use propagators_chirho::visualization_chirho::{
    escape_json_chirho, CellHistoryChirho, NetworkSnapshotChirho, PropagationTraceChirho,
};

#[test]
fn test_trace_creation_chirho() {
    let trace_chirho = PropagationTraceChirho::new_chirho();
    assert_eq!(trace_chirho.event_count_chirho(), 0);
}

#[test]
fn test_trace_record_events_chirho() {
    let mut trace_chirho = PropagationTraceChirho::new_chirho();

    trace_chirho.record_cell_update_chirho("x", "5.0", "adder_1");
    trace_chirho.record_propagator_run_chirho("adder_1", vec!["a", "b"], vec!["c"]);
    trace_chirho.record_contradiction_chirho("y", "Empty interval");
    trace_chirho.record_fixpoint_chirho(10);

    assert_eq!(trace_chirho.event_count_chirho(), 4);
}

#[test]
fn test_trace_to_json_chirho() {
    let mut trace_chirho = PropagationTraceChirho::new_chirho();
    trace_chirho.record_cell_update_chirho("x", "5.0", "");

    let json_chirho = trace_chirho.to_json_chirho();
    assert!(json_chirho.contains("\"events\""));
    assert!(json_chirho.contains("cell_update"));
    assert!(json_chirho.contains("\"x\""));
}

#[test]
fn test_trace_stats_chirho() {
    let mut trace_chirho = PropagationTraceChirho::new_chirho();
    trace_chirho.record_cell_update_chirho("x", "5.0", "p1");
    trace_chirho.record_cell_update_chirho("y", "3.0", "p2");
    trace_chirho.record_propagator_run_chirho("p1", vec!["a"], vec!["x"]);
    trace_chirho.record_contradiction_chirho("z", "error");

    let stats_chirho = trace_chirho.stats_chirho();
    assert_eq!(stats_chirho.cell_updates_chirho, 2);
    assert_eq!(stats_chirho.propagator_runs_chirho, 1);
    assert_eq!(stats_chirho.contradictions_chirho, 1);
    assert_eq!(stats_chirho.total_events_chirho, 4);
}

#[test]
fn test_trace_limit_chirho() {
    let mut trace_chirho = PropagationTraceChirho::with_limit_chirho(3);
    trace_chirho.record_cell_update_chirho("a", "1", "");
    trace_chirho.record_cell_update_chirho("b", "2", "");
    trace_chirho.record_cell_update_chirho("c", "3", "");
    trace_chirho.record_cell_update_chirho("d", "4", ""); // Should be ignored

    assert_eq!(trace_chirho.event_count_chirho(), 3);
}

#[test]
fn test_cell_history_chirho() {
    let mut history_chirho = CellHistoryChirho::new_chirho("x");

    history_chirho.record_value_chirho("[0, 100]");
    history_chirho.record_value_chirho("[10, 50]");
    history_chirho.record_value_chirho("[25, 30]");

    assert_eq!(history_chirho.change_count_chirho(), 3);
    assert_eq!(history_chirho.current_value_chirho(), Some("[25, 30]"));
}

#[test]
fn test_cell_history_to_json_chirho() {
    let mut history_chirho = CellHistoryChirho::new_chirho("temp");
    history_chirho.record_value_chirho("100");

    let json_chirho = history_chirho.to_json_chirho();
    assert!(json_chirho.contains("\"temp\""));
    assert!(json_chirho.contains("\"100\""));
}

#[test]
fn test_network_snapshot_chirho() {
    let mut snapshot_chirho = NetworkSnapshotChirho::new_chirho();
    snapshot_chirho
        .cells_chirho
        .insert("x".to_string(), "5".to_string());
    snapshot_chirho
        .cells_chirho
        .insert("y".to_string(), "3".to_string());
    snapshot_chirho
        .constraints_chirho
        .insert("c1".to_string(), "x + y = z".to_string());
    snapshot_chirho
        .edges_chirho
        .push(("x".to_string(), "z".to_string(), "c1".to_string()));

    let json_chirho = snapshot_chirho.to_json_chirho();
    assert!(json_chirho.contains("\"cells\""));
    assert!(json_chirho.contains("\"edges\""));
}

#[test]
fn test_network_snapshot_to_dot_chirho() {
    let mut snapshot_chirho = NetworkSnapshotChirho::new_chirho();
    snapshot_chirho
        .cells_chirho
        .insert("a".to_string(), "1".to_string());
    snapshot_chirho
        .cells_chirho
        .insert("b".to_string(), "2".to_string());
    snapshot_chirho
        .edges_chirho
        .push(("a".to_string(), "b".to_string(), "eq".to_string()));

    let dot_chirho = snapshot_chirho.to_dot_chirho();
    assert!(dot_chirho.contains("digraph"));
    assert!(dot_chirho.contains("\"a\""));
    assert!(dot_chirho.contains("\"b\""));
    assert!(dot_chirho.contains("->"));
}

#[test]
fn test_escape_json_chirho() {
    assert_eq!(escape_json_chirho("hello"), "hello");
    assert_eq!(escape_json_chirho("he\"llo"), "he\\\"llo");
    assert_eq!(escape_json_chirho("line\nbreak"), "line\\nbreak");
}

#[test]
fn check_event_source_escaped_chirho() {
    let mut trace_chirho = PropagationTraceChirho::new_chirho();
    trace_chirho.record_cell_update_chirho("x", "5", "p\"1");
    let json_chirho = trace_chirho.to_json_chirho();
    assert!(json_chirho.contains(r#""source": "p\"1""#));
}
