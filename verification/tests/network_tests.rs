use propagators_chirho::cell_chirho::MergeableChirho;
use propagators_chirho::distributed_chirho::{CellIdChirho, DurableCellStateChirho};
use propagators_chirho::network_chirho::{
    CellUpdateChirho, DistributedCellChirho, NetworkMessageChirho, NetworkNodeChirho,
};

/// Integer intervals narrowed by intersection.
#[derive(Clone, Copy, Debug, PartialEq)]
enum SpanChirho {
    NothingChirho,
    IntervalChirho(i64, i64),
    ContradictionChirho,
}

impl Default for SpanChirho {
    fn default() -> Self {
        SpanChirho::NothingChirho
    }
}

impl MergeableChirho for SpanChirho {
    fn merge_chirho(&self, other_chirho: &Self) -> Self {
        match (*self, *other_chirho) {
            (SpanChirho::NothingChirho, x) | (x, SpanChirho::NothingChirho) => x,
            (SpanChirho::ContradictionChirho, _) | (_, SpanChirho::ContradictionChirho) => SpanChirho::ContradictionChirho,
            (SpanChirho::IntervalChirho(a, b), SpanChirho::IntervalChirho(c, d)) => {
                let lo = a.max(c);
                let hi = b.min(d);
                if lo > hi {
                    SpanChirho::ContradictionChirho
                } else {
                    SpanChirho::IntervalChirho(lo, hi)
                }
            }
        }
    }

    fn is_nothing_chirho(&self) -> bool {
        *self == SpanChirho::NothingChirho
    }

    fn is_contradiction_chirho(&self) -> bool {
        *self == SpanChirho::ContradictionChirho
    }

    fn spec_merge_chirho(a: Self, b: Self) -> Self {
        a.merge_chirho(&b)
    }

    fn spec_is_nothing_chirho(a: Self) -> bool {
        a.is_nothing_chirho()
    }

    fn spec_is_contradiction_chirho(a: Self) -> bool {
        a.is_contradiction_chirho()
    }
}

fn update_chirho(name: &str, info: SpanChirho, timestamp: u64, origin: &str) -> CellUpdateChirho<SpanChirho> {
    CellUpdateChirho {
        cell_id_chirho: CellIdChirho::new_chirho(name),
        info_chirho: info,
        timestamp_chirho: timestamp,
        origin_chirho: origin.to_string(),
    }
}

#[test]
fn test_distributed_cell_merge_chirho() {
    let mut cell_chirho: DistributedCellChirho<SpanChirho> = DistributedCellChirho::new_chirho("test");

    assert!(cell_chirho.content_chirho().is_nothing_chirho());

    // First merge
    let changed_chirho = cell_chirho.merge_chirho(SpanChirho::IntervalChirho(0, 100), 1);
    assert!(changed_chirho);

    // Narrowing merge
    let changed_chirho = cell_chirho.merge_chirho(SpanChirho::IntervalChirho(20, 80), 2);
    assert!(changed_chirho);

    assert_eq!(cell_chirho.content_chirho(), SpanChirho::IntervalChirho(20, 80));
}

#[test]
fn test_distributed_network_sync_chirho() {
    let mut network_a_chirho: NetworkNodeChirho<SpanChirho> = NetworkNodeChirho::new_chirho("node-a");

    // Create a cell on A
    let temp_chirho = network_a_chirho.make_shared_cell_chirho("temperature");
    network_a_chirho.add_info_chirho(&temp_chirho, SpanChirho::IntervalChirho(25, 25));

    // Verify A has the value
    let content_chirho = network_a_chirho.get_content_chirho(&temp_chirho).unwrap();
    assert_eq!(content_chirho, SpanChirho::IntervalChirho(25, 25));
}

#[test]
fn test_concurrent_updates_merge_chirho() {
    let mut cell_chirho: DistributedCellChirho<SpanChirho> = DistributedCellChirho::new_chirho("test");

    // Node A says [0, 100]
    cell_chirho.merge_chirho(SpanChirho::IntervalChirho(0, 100), 1);

    // Node B says [50, 150] (overlapping)
    cell_chirho.merge_chirho(SpanChirho::IntervalChirho(50, 150), 2);

    // Result should be intersection: [50, 100]
    assert_eq!(cell_chirho.content_chirho(), SpanChirho::IntervalChirho(50, 100));
}

#[test]
fn test_network_message_types_chirho() {
    let update_chirho = update_chirho("test", SpanChirho::IntervalChirho(42, 42), 1, "node-1");
    let msg_chirho = NetworkMessageChirho::UpdateChirho(update_chirho);
    assert!(matches!(msg_chirho, NetworkMessageChirho::UpdateChirho(_)));
}

#[test]
fn test_durable_cell_state_merge_chirho() {
    let mut state_a_chirho = DurableCellStateChirho::new_chirho(SpanChirho::IntervalChirho(0, 100), 1);
    let state_b_chirho = DurableCellStateChirho::new_chirho(SpanChirho::IntervalChirho(25, 75), 2);

    let changed_chirho = state_a_chirho.merge_chirho(&state_b_chirho);
    assert!(changed_chirho);

    assert_eq!(state_a_chirho.content_chirho, SpanChirho::IntervalChirho(25, 75));
    assert_eq!(state_a_chirho.timestamp_chirho, 2);
    assert!(!state_a_chirho.merge_chirho(&state_b_chirho));
}

#[test]
fn check_cell_timestamp_and_subscribers_chirho() {
    let mut cell_chirho: DistributedCellChirho<SpanChirho> = DistributedCellChirho::new_chirho("c");
    assert!(cell_chirho.merge_chirho(SpanChirho::IntervalChirho(0, 9), 5));
    assert_eq!(cell_chirho.timestamp_chirho(), 5);
    // No change: the timestamp stays.
    assert!(!cell_chirho.merge_chirho(SpanChirho::IntervalChirho(0, 9), 7));
    assert_eq!(cell_chirho.timestamp_chirho(), 5);
    // A change at an earlier time keeps the later timestamp.
    assert!(cell_chirho.merge_chirho(SpanChirho::IntervalChirho(1, 9), 3));
    assert_eq!(cell_chirho.timestamp_chirho(), 5);
    cell_chirho.add_subscriber_chirho("n1".to_string());
    cell_chirho.add_subscriber_chirho("n2".to_string());
    cell_chirho.add_subscriber_chirho("n1".to_string());
    assert_eq!(cell_chirho.subscribers_chirho(), vec!["n1".to_string(), "n2".to_string()]);
}

#[test]
fn check_node_updates_and_flush_chirho() {
    let mut node_chirho: NetworkNodeChirho<SpanChirho> = NetworkNodeChirho::new_chirho("a");
    let x_chirho = node_chirho.make_shared_cell_chirho("x");
    assert_eq!(node_chirho.cell_count_chirho(), 1);
    node_chirho.add_info_chirho(&x_chirho, SpanChirho::IntervalChirho(0, 10));
    node_chirho.add_info_chirho(&x_chirho, SpanChirho::IntervalChirho(0, 10));
    node_chirho.add_info_chirho(&x_chirho, SpanChirho::IntervalChirho(2, 10));
    // A cell that does not exist: only the clock ticks.
    node_chirho.add_info_chirho(&CellIdChirho::new_chirho("y"), SpanChirho::IntervalChirho(0, 1));
    assert_eq!(node_chirho.get_content_chirho(&CellIdChirho::new_chirho("y")), None);
    let sent_chirho = node_chirho.flush_updates_chirho();
    assert_eq!(sent_chirho.len(), 2);
    match &sent_chirho[1] {
        NetworkMessageChirho::UpdateChirho(u) => {
            assert_eq!(u.cell_id_chirho.name_chirho, "x");
            assert_eq!(u.info_chirho, SpanChirho::IntervalChirho(2, 10));
            assert_eq!(u.timestamp_chirho, 3);
            assert_eq!(u.origin_chirho, "a");
        }
        _ => panic!("expected an update"),
    }
    assert!(node_chirho.flush_updates_chirho().is_empty());
    // Remaking a cell starts it afresh.
    node_chirho.make_shared_cell_chirho("x");
    assert_eq!(node_chirho.cell_count_chirho(), 1);
    assert_eq!(node_chirho.get_content_chirho(&x_chirho), Some(SpanChirho::NothingChirho));
    assert_eq!(node_chirho.node_id_chirho(), "a");
}

#[test]
fn check_node_sync_exchange_chirho() {
    let mut a_chirho: NetworkNodeChirho<SpanChirho> = NetworkNodeChirho::new_chirho("a");
    let mut b_chirho: NetworkNodeChirho<SpanChirho> = NetworkNodeChirho::new_chirho("b");
    let x_chirho = a_chirho.make_shared_cell_chirho("x");
    let y_chirho = a_chirho.make_shared_cell_chirho("y");
    a_chirho.add_info_chirho(&x_chirho, SpanChirho::IntervalChirho(1, 5));
    a_chirho.add_info_chirho(&y_chirho, SpanChirho::IntervalChirho(7, 7));
    b_chirho.make_shared_cell_chirho("x");

    // b asks; a answers with both cells, newer than b knows them.
    let request_chirho = b_chirho.request_sync_chirho();
    let replies_chirho = a_chirho.handle_message_chirho("b", request_chirho);
    assert_eq!(replies_chirho.len(), 1);
    assert_eq!(replies_chirho[0].0, "b");
    let (_, response_chirho) = replies_chirho.into_iter().next().unwrap();
    match &response_chirho {
        NetworkMessageChirho::SyncResponseChirho { from_chirho, updates_chirho } => {
            assert_eq!(from_chirho, "a");
            assert_eq!(updates_chirho.len(), 2);
            assert_eq!(updates_chirho[0].timestamp_chirho, 1);
            assert_eq!(updates_chirho[1].timestamp_chirho, 2);
        }
        _ => panic!("expected a sync response"),
    }
    assert!(b_chirho.handle_message_chirho("a", response_chirho).is_empty());
    assert_eq!(b_chirho.cell_count_chirho(), 2);
    assert_eq!(b_chirho.get_content_chirho(&x_chirho), Some(SpanChirho::IntervalChirho(1, 5)));
    assert_eq!(b_chirho.get_content_chirho(&y_chirho), Some(SpanChirho::IntervalChirho(7, 7)));

    // Now b is as new as a: a second request gets nothing back.
    let again_chirho = b_chirho.request_sync_chirho();
    match a_chirho.handle_message_chirho("b", again_chirho).pop().unwrap().1 {
        NetworkMessageChirho::SyncResponseChirho { updates_chirho, .. } => assert!(updates_chirho.is_empty()),
        _ => panic!("expected a sync response"),
    }
}

#[test]
fn check_node_clock_heartbeat_and_subscribe_chirho() {
    let mut node_chirho: NetworkNodeChirho<SpanChirho> = NetworkNodeChirho::new_chirho("a");
    let x_chirho = node_chirho.make_shared_cell_chirho("x");
    // An update far in the future moves the clock past it.
    node_chirho.handle_message_chirho("b", NetworkMessageChirho::UpdateChirho(update_chirho("x", SpanChirho::IntervalChirho(0, 3), 10, "b")));
    node_chirho.add_info_chirho(&x_chirho, SpanChirho::IntervalChirho(1, 3));
    match &node_chirho.flush_updates_chirho()[0] {
        NetworkMessageChirho::UpdateChirho(u) => assert_eq!(u.timestamp_chirho, 12),
        _ => panic!("expected an update"),
    }
    node_chirho.handle_message_chirho(
        "c",
        NetworkMessageChirho::HeartbeatChirho { from_chirho: "c".to_string(), timestamp_chirho: 40 },
    );
    node_chirho.add_info_chirho(&x_chirho, SpanChirho::IntervalChirho(2, 3));
    match &node_chirho.flush_updates_chirho()[0] {
        NetworkMessageChirho::UpdateChirho(u) => assert_eq!(u.timestamp_chirho, 41),
        _ => panic!("expected an update"),
    }
    let replies_chirho = node_chirho.handle_message_chirho(
        "c",
        NetworkMessageChirho::SubscribeChirho {
            from_chirho: "c".to_string(),
            cells_chirho: vec![CellIdChirho::new_chirho("x"), CellIdChirho::new_chirho("missing")],
        },
    );
    assert!(replies_chirho.is_empty());
    assert_eq!(node_chirho.cell_count_chirho(), 1);
}

#[test]
fn check_node_get_cell_chirho() {
    let mut node_chirho: NetworkNodeChirho<SpanChirho> = NetworkNodeChirho::new_chirho("a");
    let x_chirho = node_chirho.make_shared_cell_chirho("x");
    node_chirho.add_info_chirho(&x_chirho, SpanChirho::IntervalChirho(2, 4));
    let cell_chirho = node_chirho.get_cell_chirho(&x_chirho).expect("the cell x");
    assert!(cell_chirho.content_chirho() == SpanChirho::IntervalChirho(2, 4));
    assert_eq!(cell_chirho.timestamp_chirho(), 1);
    assert!(node_chirho.get_cell_chirho(&CellIdChirho::new_chirho("y")).is_none());
}
