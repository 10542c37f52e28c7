use std::cell::RefCell;
use std::collections::{HashMap, HashSet};
use std::rc::Rc;

use propagators_chirho::cardinality_chirho::{cardinality_in_order_chirho, CardinalityChirho};
use propagators_chirho::cell_chirho::{CellChirho, MergeableChirho};
use propagators_chirho::distributed_chirho::{
    CellIdChirho, ConstraintIdChirho, HibernationHintsChirho, MultiDoConfigChirho, ShardingStrategyChirho,
    TransportErrorChirho,
};
use propagators_chirho::fd_propagators_chirho::{AllDifferentChirho, CumulativeChirho, LessThanChirho, NotEqualsChirho};
use propagators_chirho::generic_cell_chirho::{GenericCellChirho, GenericNetworkChirho};
use propagators_chirho::ledger_chirho::{validate_tx_chirho, BlockChirho, TransactionChirho, TxValidationResultChirho};
use propagators_chirho::propagator_chirho::{NoPropagatorsChirho, PriorityRunnerChirho, PropagatorChirho, PropagatorRunnerChirho};
use propagators_chirho::scheduler_chirho::{IncrementalSchedulerChirho, PrioritySchedulerChirho, SchedulerChirho};
use propagators_chirho::search_chirho::{
    BacktrackingSearchChirho, DependencyDirectedSearchChirho, FirstFailChirho, RestartSearchChirho,
};
use propagators_chirho::visualization_chirho::{escape_json_chirho, CellHistoryChirho, NetworkSnapshotChirho, StringMapChirho};
use propagators_chirho::{BoundedLatticeChirho, FiniteDomainChirho, LatticeChirho, PropagatorFnChirho};

#[test]
fn check_luby_sequence_values_chirho() {
    let expected = [1usize, 1, 1, 2, 1, 1, 2, 4, 1, 1, 2, 1, 1, 2, 4, 8, 1];
    for (i, e) in expected.iter().enumerate() {
        assert_eq!(RestartSearchChirho::luby_chirho(i), *e, "index {}", i);
    }
    assert_eq!(RestartSearchChirho::luby_chirho(31), 16);
    assert_eq!(RestartSearchChirho::luby_chirho(63), 32);
}

#[test]
fn check_restart_cutoff_follows_luby_chirho() {
    let mut restart = RestartSearchChirho::new_chirho(3);
    let mut cutoffs = Vec::new();
    for _ in 0..7 {
        cutoffs.push(restart.current_cutoff_chirho());
        restart.restart_chirho();
    }
    assert_eq!(cutoffs, vec![3, 3, 6, 3, 3, 6, 12]);
    assert_eq!(restart.restart_count_chirho(), 7);
    let d = RestartSearchChirho::default();
    assert_eq!(d.current_cutoff_chirho(), 100);
}

#[test]
fn check_first_fail_edges_chirho() {
    let ff = FirstFailChirho::new_chirho();
    assert_eq!(FirstFailChirho::first_fail_chirho(&[2, 2, 3], &[false, false, false]), Some(0));
    assert_eq!(FirstFailChirho::first_fail_chirho(&[0, 4, 1], &[false, false, false]), Some(2));
    assert_eq!(FirstFailChirho::first_fail_chirho(&[usize::MAX], &[false]), None);
    assert_eq!(FirstFailChirho::first_fail_chirho(&[5, 1], &[false]), Some(0));
    assert_eq!(FirstFailChirho::first_fail_chirho(&[], &[]), None);
    let _ = ff;
    let _ = FirstFailChirho::with_random_tiebreak_chirho();
}

#[test]
fn check_search_counters_chirho() {
    let mut b = BacktrackingSearchChirho::with_limit_chirho(5);
    assert_eq!(b.backtrack_count_chirho(), 0);
    b.reset_chirho();
    assert_eq!(b.backtrack_count_chirho(), 0);
    let mut d = DependencyDirectedSearchChirho::new_chirho();
    assert_eq!(d.jump_count_chirho(), 0);
    assert!(d.nogoods_chirho().is_empty());
    d.reset_chirho();
    assert_eq!(d.backtrack_count_chirho(), 0);
    let mut r = RestartSearchChirho::new_chirho(1);
    let mut ng = HashSet::new();
    ng.insert("a".to_string());
    r.add_nogood_chirho(ng.clone());
    r.add_nogood_chirho(HashSet::new());
    let got = r.nogoods_chirho();
    assert_eq!(got.len(), 2);
    assert_eq!(got[0], ng);
}

#[test]
fn check_cardinality_in_order_chirho() {
    let cells = vec![
        FiniteDomainChirho::singleton_chirho(4),
        FiniteDomainChirho::range_chirho(3, 5),
        FiniteDomainChirho::range_chirho(4, 6),
    ];
    // 4 may appear at most once: taken out of the other cells.
    let r = cardinality_in_order_chirho(&cells, &[(4, (0, 1))]);
    assert!(r[0].is_bottom_chirho());
    assert!(!r[1].contains_chirho(4));
    assert_eq!(r[1].size_chirho(), 2);
    assert!(!r[2].contains_chirho(4));
    // 6 must appear once and only cell 2 can take it.
    let r = cardinality_in_order_chirho(&cells, &[(6, (1, 1))]);
    assert_eq!(r[2].get_singleton_chirho(), Some(6));
    assert!(r[1].is_bottom_chirho());
    let mut bounds = HashMap::new();
    bounds.insert(6i64, (1usize, 1usize));
    let p = CardinalityChirho::new_chirho(3, bounds);
    let r = p.propagate_chirho(&cells);
    assert_eq!(r[2].get_singleton_chirho(), Some(6));
}

#[test]
fn check_cumulative_removes_overlapping_starts_chirho() {
    let p = CumulativeChirho::new_chirho(2);
    let cells = vec![
        FiniteDomainChirho::singleton_chirho(0),
        FiniteDomainChirho::range_chirho(0, 3),
        FiniteDomainChirho::singleton_chirho(2),
        FiniteDomainChirho::singleton_chirho(2),
        FiniteDomainChirho::singleton_chirho(2),
        FiniteDomainChirho::singleton_chirho(2),
        FiniteDomainChirho::singleton_chirho(3),
    ];
    let r = p.propagate_chirho(&cells);
    assert!(!r[1].contains_chirho(0));
    assert!(!r[1].contains_chirho(1));
    assert!(r[1].contains_chirho(2));
    assert!(r[1].contains_chirho(3));
    assert!(r[0].is_bottom_chirho());
}

#[test]
fn check_lattice_laws_on_values_chirho() {
    let a = FiniteDomainChirho::range_chirho(1, 5);
    let b = FiniteDomainChirho::range_chirho(3, 9);
    let c = FiniteDomainChirho::all_except_chirho(4, 0, 6);
    assert!(a.join_chirho(&b).same_chirho(&b.join_chirho(&a)));
    assert!(a.join_chirho(&b).join_chirho(&c).same_chirho(&a.join_chirho(&b.join_chirho(&c))));
    assert!(a.join_chirho(&a).same_chirho(&a));
    assert!(FiniteDomainChirho::bottom_chirho().join_chirho(&a).same_chirho(&a));
    assert!(a.join_chirho(&FiniteDomainChirho::top_chirho()).is_top_chirho());
    assert_eq!(a.join_chirho(&b).iter_chirho(), vec![3, 4, 5]);
    assert_eq!(a.join_chirho(&b).min_value_chirho(), Some(3));
}

struct CountingPropagatorChirho {
    id: usize,
}

impl PropagatorChirho for CountingPropagatorChirho {
    fn spec_id_chirho(&self) -> usize {
        self.id
    }

    fn id_chirho(&self) -> usize {
        self.id
    }

    fn priority_chirho(&self) -> i32 {
        (self.id as i32) * 40 - 60
    }

    fn run_chirho(&self, _scheduler_chirho: &mut SchedulerChirho) {}
}

struct RecordingRunnerChirho {
    ran: Rc<RefCell<Vec<usize>>>,
    realert_once: Option<usize>,
}

impl PropagatorRunnerChirho for RecordingRunnerChirho {
    fn run_propagator_chirho(&mut self, id_chirho: usize, scheduler_chirho: &mut SchedulerChirho) {
        self.ran.borrow_mut().push(id_chirho);
        if let Some(x) = self.realert_once.take() {
            scheduler_chirho.alert_id_chirho(x);
        }
    }
}

impl PriorityRunnerChirho for RecordingRunnerChirho {
    fn run_prioritized_chirho(&mut self, id_chirho: usize, scheduler_chirho: &mut PrioritySchedulerChirho) {
        self.ran.borrow_mut().push(id_chirho);
        if let Some(x) = self.realert_once.take() {
            scheduler_chirho.alert_entry_chirho(x, 0);
        }
    }
}

#[test]
fn check_scheduler_dedup_and_run_chirho() {
    let mut s = SchedulerChirho::new_chirho();
    s.alert_id_chirho(3);
    s.alert_id_chirho(1);
    s.alert_id_chirho(3);
    s.alert_propagator_chirho(&CountingPropagatorChirho { id: 7 });
    assert_eq!(s.queue_size_chirho(), 3);
    assert_eq!(s.stats_chirho().max_queue_size_chirho, 3);
    let ran = Rc::new(RefCell::new(Vec::new()));
    let mut runner = RecordingRunnerChirho { ran: ran.clone(), realert_once: Some(3) };
    s.run_chirho(&mut runner);
    assert_eq!(*ran.borrow(), vec![3, 1, 7, 3]);
    assert!(s.is_quiescent_chirho());
    assert_eq!(s.stats_chirho().runs_chirho, 4);
    assert_eq!(s.stats_chirho().iterations_chirho, 1);
    s.alert_id_chirho(9);
    assert!(!s.run_bounded_chirho(0, &mut NoPropagatorsChirho));
    assert_eq!(s.queue_size_chirho(), 1);
    assert!(s.run_bounded_chirho(2, &mut NoPropagatorsChirho));
    s.alert_id_chirho(1);
    s.clear_chirho();
    assert!(s.is_quiescent_chirho());
    s.reset_stats_chirho();
    assert_eq!(s.stats_chirho().runs_chirho, 0);
}

#[test]
fn check_priority_scheduler_order_chirho() {
    let mut s = PrioritySchedulerChirho::new_chirho();
    s.alert_entry_chirho(1, 0);
    s.alert_entry_chirho(2, 100);
    s.alert_entry_chirho(3, -70);
    s.alert_entry_chirho(4, 100);
    s.alert_entry_chirho(2, 5);
    s.alert_propagator_chirho(&CountingPropagatorChirho { id: 5 });
    assert_eq!(s.queue_size_chirho(), 5);
    let ran = Rc::new(RefCell::new(Vec::new()));
    let mut runner = RecordingRunnerChirho { ran: ran.clone(), realert_once: None };
    assert!(!s.run_bounded_chirho(2, &mut runner));
    assert_eq!(*ran.borrow(), vec![5, 2]);
    s.run_chirho(&mut runner);
    assert_eq!(*ran.borrow(), vec![5, 2, 4, 1, 3]);
    let st = s.stats_chirho();
    assert_eq!(st.runs_chirho, 5);
    assert_eq!(st.high_priority_runs_chirho, 3);
    assert_eq!(st.normal_priority_runs_chirho, 1);
    assert_eq!(st.low_priority_runs_chirho, 1);
    assert_eq!(st.iterations_chirho, 2);
    assert_eq!(st.max_queue_size_chirho, 5);
}

#[test]
fn check_incremental_history_keeps_newest_chirho() {
    let mut s = IncrementalSchedulerChirho::with_history_size_chirho(3);
    for i in 0..5u64 {
        s.record_change_chirho(&format!("c{}", i));
        s.record_change_chirho(&format!("c{}", i));
        s.run_chirho(&mut NoPropagatorsChirho);
    }
    let h = s.change_history_chirho();
    assert_eq!(h.len(), 3);
    assert_eq!(h[0].cell_name_chirho, "c2");
    assert_eq!(h[2].cell_name_chirho, "c4");
    assert_eq!(h[2].generation_chirho, 4);
    assert!(h[2].caused_propagation_chirho);
    assert_eq!(s.stats_chirho().changes_tracked_chirho, 10);
    assert_eq!(s.stats_chirho().incremental_runs_chirho, 5);
    assert_eq!(s.changes_since_generation_chirho(3).len(), 1);
    assert!(s.base_scheduler_chirho().is_quiescent_chirho());
    s.record_change_chirho("z");
    s.clear_chirho();
    assert!(!s.has_pending_changes_chirho());
    s.reset_stats_chirho();
    assert_eq!(s.stats_chirho().changes_tracked_chirho, 0);
}

#[test]
fn check_generic_network_fixpoint_chirho() {
    let mut n: GenericNetworkChirho<FiniteDomainChirho> = GenericNetworkChirho::new_chirho();
    let a = n.make_named_cell_chirho("a");
    let b = n.make_cell_chirho();
    let c = n.make_cell_chirho();
    n.set_cell_chirho(a, FiniteDomainChirho::range_chirho(1, 3));
    n.set_cell_chirho(b, FiniteDomainChirho::range_chirho(1, 3));
    n.set_cell_chirho(c, FiniteDomainChirho::range_chirho(1, 3));
    n.add_propagator_chirho(AllDifferentChirho::new_chirho(3), vec![a, b, c]);
    n.add_propagator_chirho(LessThanChirho, vec![a, b]);
    n.add_propagator_chirho(LessThanChirho, vec![b, c]);
    n.propagate_chirho();
    assert_eq!(n.get_cell_chirho(a).unwrap().get_chirho().get_singleton_chirho(), Some(1));
    assert_eq!(n.get_cell_chirho(b).unwrap().get_chirho().get_singleton_chirho(), Some(2));
    assert_eq!(n.get_cell_chirho(c).unwrap().get_chirho().get_singleton_chirho(), Some(3));
    assert_eq!(n.get_cell_chirho(a).unwrap().name_chirho(), "a");
    assert!(n.get_cell_chirho(5).is_none());
    assert!(!n.has_contradiction_chirho());
    assert_eq!(n.cell_count_chirho(), 3);
    assert_eq!(n.propagator_count_chirho(), 3);
    assert!(n.propagation_count_chirho() >= 3);
    n.set_cell_chirho(a, FiniteDomainChirho::singleton_chirho(2));
    assert!(n.has_contradiction_chirho());
    n.add_closure_propagator_chirho(|cells: &[FiniteDomainChirho]| vec![cells[0].copy_chirho()], vec![b]);
    n.propagate_chirho();
    assert_eq!(n.propagator_count_chirho(), 4);
}

#[test]
fn check_generic_cell_watchers_chirho() {
    let mut cell = GenericCellChirho::with_name_chirho("w", FiniteDomainChirho::range_chirho(1, 9));
    let seen = Rc::new(RefCell::new(0usize));
    let counter = std::sync::Arc::new(std::sync::atomic::AtomicUsize::new(0));
    let c2 = counter.clone();
    cell.watch_chirho(move |_v: &FiniteDomainChirho| {
        c2.fetch_add(1, std::sync::atomic::Ordering::SeqCst);
    });
    assert_eq!(cell.watcher_count_chirho(), 1);
    assert!(cell.add_info_chirho(FiniteDomainChirho::range_chirho(2, 9)));
    assert!(!cell.add_info_chirho(FiniteDomainChirho::range_chirho(1, 9)));
    cell.set_chirho(FiniteDomainChirho::singleton_chirho(4));
    assert_eq!(counter.load(std::sync::atomic::Ordering::SeqCst), 2);
    assert_eq!(cell.name_chirho(), "w");
    let other: GenericCellChirho<FiniteDomainChirho> = GenericCellChirho::bottom_chirho();
    assert!(other.is_bottom_chirho());
    assert_eq!(other.name_chirho(), format!("cell_{}", other.id_chirho()));
    let empty = GenericCellChirho::bottom_with_name_chirho("e");
    let mut empty: GenericCellChirho<FiniteDomainChirho> = empty;
    empty.set_chirho(FiniteDomainChirho::empty_chirho());
    assert!(empty.is_top_chirho());
    *seen.borrow_mut() += 1;
}

#[derive(Clone, Default, PartialEq, Debug)]
struct MaxInfoChirho(Option<u32>);

impl MergeableChirho for MaxInfoChirho {
    fn merge_chirho(&self, other_chirho: &Self) -> Self {
        match (self.0, other_chirho.0) {
            (Some(a), Some(b)) => MaxInfoChirho(Some(a.max(b))),
            (Some(a), None) | (None, Some(a)) => MaxInfoChirho(Some(a)),
            (None, None) => MaxInfoChirho(None),
        }
    }

    fn is_nothing_chirho(&self) -> bool {
        self.0.is_none()
    }

    fn is_contradiction_chirho(&self) -> bool {
        self.0 == Some(u32::MAX)
    }

    fn spec_merge_chirho(a: Self, b: Self) -> Self {
        a.merge_chirho(&b)
    }

    fn spec_is_nothing_chirho(a: Self) -> bool {
        a.is_nothing_chirho()
    }

    fn spec_is_contradiction_chirho(a: Self) -> bool {
        a.is_contradiction_chirho()
    }
}

#[test]
fn check_cell_alerts_neighbors_chirho() {
    let mut cell: CellChirho<MaxInfoChirho> = CellChirho::new_chirho("m");
    assert!(cell.is_nothing_chirho());
    let p1: Rc<Box<dyn PropagatorChirho>> = Rc::new(Box::new(CountingPropagatorChirho { id: 1 }));
    let p2: Rc<Box<dyn PropagatorChirho>> = Rc::new(Box::new(CountingPropagatorChirho { id: 2 }));
    cell.add_neighbor_chirho(p1.clone());
    cell.add_neighbor_chirho(p2);
    cell.add_neighbor_chirho(p1);
    assert_eq!(cell.neighbor_count_chirho(), 3);
    let mut s = SchedulerChirho::new_chirho();
    assert!(cell.add_content_chirho(MaxInfoChirho(Some(4)), &mut s));
    assert_eq!(s.queue_size_chirho(), 2);
    assert!(!cell.add_content_chirho(MaxInfoChirho(Some(3)), &mut s));
    assert_eq!(cell.content_chirho(), MaxInfoChirho(Some(4)));
    assert!(cell.remove_neighbor_chirho(1));
    assert!(!cell.remove_neighbor_chirho(1));
    assert_eq!(cell.neighbor_count_chirho(), 1);
    let mut ids = HashSet::new();
    ids.insert(2usize);
    assert_eq!(cell.remove_neighbors_chirho(&ids), 1);
    assert_eq!(cell.name_chirho(), "m");
    let full = CellChirho::with_content_chirho("f", MaxInfoChirho(Some(u32::MAX)));
    assert!(full.is_contradiction_chirho());
}

#[test]
fn check_trace_and_snapshot_text_chirho() {
    assert_eq!(escape_json_chirho("a\\b\r\t\"c"), "a\\\\b\\r\\t\\\"c");
    let mut snap = NetworkSnapshotChirho::new_chirho();
    snap.cells_chirho.insert("x".to_string(), "1".to_string());
    snap.cells_chirho.insert("y\"".to_string(), "2".to_string());
    assert_eq!(snap.cells_chirho.insert("x".to_string(), "3".to_string()), Some("1".to_string()));
    snap.constraints_chirho.insert("c".to_string(), "x<y".to_string());
    snap.edges_chirho.push(("x".to_string(), "y".to_string(), "c".to_string()));
    snap.timestamp_chirho = 42;
    assert_eq!(
        snap.to_json_chirho(),
        "{\n  \"cells\": [{\"name\": \"x\", \"value\": \"3\"}, {\"name\": \"y\\\"\", \"value\": \"2\"}],\n  \"constraints\": [{\"id\": \"c\", \"description\": \"x<y\"}],\n  \"edges\": [{\"from\": \"x\", \"to\": \"y\", \"constraint\": \"c\"}],\n  \"timestamp_us\": 42\n}"
    );
    assert_eq!(
        snap.to_dot_chirho(),
        "digraph PropagatorNetwork {\n  rankdir=LR;\n  node [shape=ellipse];\n\n  \"x\" [label=\"x\\n3\"];\n  \"y\"\" [label=\"y\"\\n2\"];\n\n  \"x\" -> \"y\" [label=\"c\"];\n}\n"
    );
    let mut m = StringMapChirho::new_chirho();
    assert_eq!(m.insert("k".to_string(), "v".to_string()), None);
    assert_eq!(m.len(), 1);
    let mut h = CellHistoryChirho::new_chirho("h\n");
    for i in 0..1005 {
        h.record_value_chirho(&i.to_string());
    }
    assert_eq!(h.change_count_chirho(), 1000);
    assert_eq!(h.current_value_chirho(), Some("1004"));
    assert_eq!(h.history_chirho()[0].1, "5");
    assert!(h.to_json_chirho().starts_with("{\"cell\": \"h\\n\", \"history\": [{\"time_us\": "));
    assert_eq!(h.cell_name_chirho(), "h\n");
}

#[test]
fn check_ledger_hashes_chirho() {
    let mut tx = TransactionChirho::new_chirho("ab".to_string(), "xyz".to_string(), 10, 1);
    let expect = format!("tx_{:x}", 2u64 ^ 3u64 ^ 10u64 ^ 1u64 ^ tx.timestamp_chirho);
    assert_eq!(tx.hash_chirho, expect);
    assert!(tx.verify_signature_chirho());
    tx.sign_chirho("sig".to_string());
    assert!(tx.verify_signature_chirho());
    let tx2 = TransactionChirho::new_chirho("é".to_string(), "".to_string(), 0, 0);
    assert_eq!(tx2.hash_chirho, format!("tx_{:x}", 2u64 ^ tx2.timestamp_chirho));
    let b = BlockChirho::new_chirho(3, "abcd".to_string(), vec![tx, tx2], "v".to_string());
    assert_eq!(b.hash_chirho, format!("block_{:x}", 3u64 ^ 4u64 ^ 2u64 ^ b.timestamp_chirho));
    let g = BlockChirho::genesis_chirho(vec![("alice".to_string(), 5), ("bob".to_string(), 7)]);
    assert_eq!(g.prev_hash_chirho, "0".repeat(64));
    assert_eq!(g.hash_chirho, "genesis_block_hash");
    assert_eq!(g.transactions_chirho.len(), 2);
    assert_eq!(g.transactions_chirho[1].to_chirho, "bob");
    assert_eq!(g.transactions_chirho[1].from_chirho, "genesis");
    assert_eq!(g.transactions_chirho[1].amount_chirho, 7);
    assert!(TxValidationResultChirho::ValidChirho != TxValidationResultChirho::ZeroAmountChirho);
}

#[test]
fn check_distributed_names_chirho() {
    assert_eq!(
        TransportErrorChirho::ConnectionFailedChirho("x".to_string()).message_chirho(),
        "Connection failed: x"
    );
    assert_eq!(TransportErrorChirho::SendFailedChirho("y".to_string()).message_chirho(), "Send failed: y");
    assert_eq!(TransportErrorChirho::PeerNotFoundChirho("p".to_string()).message_chirho(), "Peer not found: p");
    assert_eq!(
        TransportErrorChirho::SerializationErrorChirho("s".to_string()).message_chirho(),
        "Serialization error: s"
    );
    assert_eq!(ConstraintIdChirho::new_chirho(17).to_string_chirho(), "constraint_17");
    assert_eq!(ConstraintIdChirho::new_chirho(17).id_chirho(), 17);
    assert!(CellIdChirho::new_chirho("a") == CellIdChirho::new_chirho("a"));
    assert!(CellIdChirho::new_chirho("a") != CellIdChirho::new_chirho("b"));
    let h = HibernationHintsChirho::default();
    assert!(h.hot_cells_chirho.is_empty());
    let c = MultiDoConfigChirho::default();
    assert!(matches!(c.sharding_chirho, ShardingStrategyChirho::SingleDoChirho));
    assert_eq!(c.sync_interval_ms_chirho, 1000);
    assert_eq!(c.max_cells_per_do_chirho, 10000);
}

#[test]
fn check_not_equals_on_singletons_chirho() {
    let r = NotEqualsChirho.propagate_chirho(&[FiniteDomainChirho::range_chirho(1, 3), FiniteDomainChirho::singleton_chirho(3)]);
    assert_eq!(r[0].iter_chirho(), vec![1, 2]);
    assert!(r[1].is_bottom_chirho());
}

#[test]
fn check_transaction_validation_order_chirho() {
    let mut tx_chirho = TransactionChirho::new_chirho("alice".to_string(), "bob".to_string(), 50, 1);
    assert_eq!(validate_tx_chirho(&tx_chirho, Some((0, 100))), TxValidationResultChirho::ValidChirho);
    tx_chirho.sign_chirho("sig".to_string());
    assert_eq!(validate_tx_chirho(&tx_chirho, Some((0, 100))), TxValidationResultChirho::ValidChirho);
    assert_eq!(validate_tx_chirho(&tx_chirho, None), TxValidationResultChirho::SenderNotFoundChirho);
    assert_eq!(validate_tx_chirho(&tx_chirho, Some((1, 100))), TxValidationResultChirho::InvalidNonceChirho);
    assert_eq!(validate_tx_chirho(&tx_chirho, Some((0, 49))), TxValidationResultChirho::InsufficientBalanceChirho);
    assert_eq!(validate_tx_chirho(&tx_chirho, Some((0, 50))), TxValidationResultChirho::ValidChirho);
    let mut to_self_chirho = TransactionChirho::new_chirho("alice".to_string(), "alice".to_string(), 5, 1);
    to_self_chirho.sign_chirho("sig".to_string());
    assert_eq!(validate_tx_chirho(&to_self_chirho, Some((0, 100))), TxValidationResultChirho::SelfTransferChirho);
    let mut zero_chirho = TransactionChirho::new_chirho("alice".to_string(), "bob".to_string(), 0, 1);
    zero_chirho.sign_chirho("sig".to_string());
    assert_eq!(validate_tx_chirho(&zero_chirho, None), TxValidationResultChirho::ZeroAmountChirho);
}

#[test]
fn check_scheduler_texts_chirho() {
    let mut s = SchedulerChirho::new_chirho();
    s.alert_propagator_chirho(&CountingPropagatorChirho { id: 4 });
    assert_eq!(
        s.to_text_chirho(),
        "Scheduler { queue_size: 1, stats: SchedulerStatsChirho { runs_chirho: 0, iterations_chirho: 0, max_queue_size_chirho: 1 } }"
    );

    let mut p = PrioritySchedulerChirho::new_chirho();
    p.alert_propagator_chirho(&CountingPropagatorChirho { id: 2 });
    p.alert_propagator_chirho(&CountingPropagatorChirho { id: 3 });
    assert_eq!(
        p.to_text_chirho(),
        "PriorityScheduler { queue_size: 2, stats: PrioritySchedulerStatsChirho { runs_chirho: 0, high_priority_runs_chirho: 0, normal_priority_runs_chirho: 0, low_priority_runs_chirho: 0, iterations_chirho: 0, max_queue_size_chirho: 2 } }"
    );

    let mut i = IncrementalSchedulerChirho::new_chirho();
    i.record_change_chirho("x");
    i.record_change_chirho("y");
    assert_eq!(
        i.to_text_chirho(),
        "IncrementalScheduler { generation: 0, queue_size: 0, pending_changes: 2, history_size: 0 }"
    );
    i.run_chirho(&mut NoPropagatorsChirho);
    assert_eq!(
        i.to_text_chirho(),
        "IncrementalScheduler { generation: 1, queue_size: 0, pending_changes: 0, history_size: 2 }"
    );
}

#[test]
fn check_priority_run_reaches_fixpoint_chirho() {
    let mut s = PrioritySchedulerChirho::new_chirho();
    s.alert_entry_chirho(1, 10);
    s.alert_entry_chirho(2, 0);
    let ran = Rc::new(RefCell::new(Vec::new()));
    let mut runner = RecordingRunnerChirho { ran: ran.clone(), realert_once: Some(9) };
    s.run_chirho(&mut runner);
    assert_eq!(*ran.borrow(), vec![1, 2, 9]);
    assert!(s.is_quiescent_chirho());
    assert_eq!(s.stats_chirho().runs_chirho, 3);
    assert_eq!(s.stats_chirho().iterations_chirho, 1);
}

#[test]
fn check_bounded_run_true_at_fixpoint_chirho() {
    let mut s = SchedulerChirho::new_chirho();
    assert!(s.run_bounded_chirho(0, &mut NoPropagatorsChirho));
    s.alert_id_chirho(1);
    s.alert_id_chirho(2);
    assert!(s.run_bounded_chirho(2, &mut NoPropagatorsChirho));
    let mut p = PrioritySchedulerChirho::new_chirho();
    p.alert_entry_chirho(1, 0);
    assert!(p.run_bounded_chirho(1, &mut NoPropagatorsChirho));
}

#[test]
fn check_all_different_chains_removals_chirho() {
    let p = AllDifferentChirho::new_chirho(3);
    let cells = vec![
        FiniteDomainChirho::singleton_chirho(1),
        FiniteDomainChirho::singleton_chirho(2),
        FiniteDomainChirho::range_chirho(1, 3),
    ];
    let r = p.propagate_chirho(&cells);
    assert_eq!(r[2].iter_chirho(), vec![3]);
    assert!(r[0].is_bottom_chirho());
    assert!(r[1].is_bottom_chirho());
}

#[test]
fn check_bottom_and_disjoint_join_chirho() {
    let d = FiniteDomainChirho::bottom_chirho();
    assert!(d.contains_chirho(5));
    assert!(d.contains_chirho(i64::MIN));
    let a = FiniteDomainChirho::singleton_chirho(i64::MIN);
    let b = FiniteDomainChirho::singleton_chirho(i64::MAX);
    let j = a.join_chirho(&b);
    assert!(!j.is_bottom_chirho());
    assert!(j.is_top_chirho());
}
