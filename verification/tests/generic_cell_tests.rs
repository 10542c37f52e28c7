use std::sync::{Arc, Mutex};
use propagators_chirho::fd_propagators_chirho::NotEqualsChirho;
use propagators_chirho::generic_cell_chirho::{GenericCellChirho, GenericNetworkChirho};
use propagators_chirho::FiniteDomainChirho;

#[test]
fn test_generic_cell_finite_domain_chirho() {
    let mut cell_chirho =
        GenericCellChirho::new_chirho(FiniteDomainChirho::range_chirho(1, 9));

    cell_chirho.add_info_chirho(FiniteDomainChirho::all_except_chirho(5, 1, 9));

    let value_chirho = cell_chirho.get_chirho();
    assert!(!value_chirho.contains_chirho(5));
    assert!(value_chirho.contains_chirho(1));
}

#[test]
fn test_generic_network_finite_domain_chirho() {
    let mut network_chirho: GenericNetworkChirho<FiniteDomainChirho> =
        GenericNetworkChirho::new_chirho();

    // Three cells that must all be different
    let cell_a_chirho = network_chirho.make_cell_chirho();
    let cell_b_chirho = network_chirho.make_cell_chirho();
    let cell_c_chirho = network_chirho.make_cell_chirho();

    // Initialize with domain {1, 2, 3}
    network_chirho.set_cell_chirho(cell_a_chirho, FiniteDomainChirho::range_chirho(1, 3));
    network_chirho.set_cell_chirho(cell_b_chirho, FiniteDomainChirho::range_chirho(1, 3));
    network_chirho.set_cell_chirho(cell_c_chirho, FiniteDomainChirho::range_chirho(1, 3));

    // Add not-equals constraints
    network_chirho.add_propagator_chirho(
        NotEqualsChirho,
        vec![cell_a_chirho, cell_b_chirho],
    );
    network_chirho.add_propagator_chirho(
        NotEqualsChirho,
        vec![cell_b_chirho, cell_c_chirho],
    );
    network_chirho.add_propagator_chirho(
        NotEqualsChirho,
        vec![cell_a_chirho, cell_c_chirho],
    );

    // Fix cell_a to 1
    network_chirho.set_cell_chirho(cell_a_chirho, FiniteDomainChirho::singleton_chirho(1));

    network_chirho.propagate_chirho();

    // cell_b and cell_c should not contain 1
    if let Some(cell_chirho) = network_chirho.get_cell_chirho(cell_b_chirho) {
        assert!(!cell_chirho.get_chirho().contains_chirho(1));
    }
    if let Some(cell_chirho) = network_chirho.get_cell_chirho(cell_c_chirho) {
        assert!(!cell_chirho.get_chirho().contains_chirho(1));
    }
}

#[test]
fn check_cell_watchers_told_in_order_chirho() {
    let seen_chirho: Arc<Mutex<Vec<(u8, Vec<i64>)>>> = Arc::new(Mutex::new(Vec::new()));
    let mut cell_chirho = GenericCellChirho::new_chirho(FiniteDomainChirho::range_chirho(1, 5));
    let first_chirho = seen_chirho.clone();
    cell_chirho.watch_chirho(move |v: &FiniteDomainChirho| first_chirho.lock().unwrap().push((1, v.iter_chirho())));
    let second_chirho = seen_chirho.clone();
    cell_chirho.watch_chirho(move |v: &FiniteDomainChirho| second_chirho.lock().unwrap().push((2, v.iter_chirho())));
    // A change tells both watchers, in order, of the new content.
    assert!(cell_chirho.add_info_chirho(FiniteDomainChirho::range_chirho(2, 4)));
    assert_eq!(*seen_chirho.lock().unwrap(), vec![(1, vec![2, 3, 4]), (2, vec![2, 3, 4])]);
    // Nothing new: no watcher is told.
    assert!(!cell_chirho.add_info_chirho(FiniteDomainChirho::range_chirho(1, 5)));
    assert_eq!(seen_chirho.lock().unwrap().len(), 2);
}
