use std::collections::HashMap;

use propagators_chirho::cardinality_chirho::CardinalityChirho;
use propagators_chirho::fd_propagators_chirho::{
    AllDifferentChirho, CircuitChirho, CumulativeChirho, ElementChirho, EqualsChirho, LessThanChirho,
    NotEqualsChirho, TableChirho,
};
use propagators_chirho::{BoundedLatticeChirho, FiniteDomainChirho, LatticeChirho, PropagatorFnChirho};

#[test]
fn test_finite_domain_creation_chirho() {
    let fd_chirho = FiniteDomainChirho::range_chirho(1, 9);
    assert_eq!(fd_chirho.size_chirho(), 9);
    assert!(fd_chirho.contains_chirho(5));
    assert!(!fd_chirho.contains_chirho(0));
}

#[test]
fn test_finite_domain_singleton_chirho() {
    let fd_chirho = FiniteDomainChirho::singleton_chirho(42);
    assert!(fd_chirho.is_singleton_chirho());
    assert_eq!(fd_chirho.get_singleton_chirho(), Some(42));
}

#[test]
fn test_finite_domain_join_chirho() {
    let a_chirho = FiniteDomainChirho::range_chirho(1, 5);
    let b_chirho = FiniteDomainChirho::range_chirho(3, 7);
    let joined_chirho = a_chirho.join_chirho(&b_chirho);

    assert_eq!(joined_chirho.size_chirho(), 3); // {3, 4, 5}
    assert!(joined_chirho.contains_chirho(3));
    assert!(joined_chirho.contains_chirho(4));
    assert!(joined_chirho.contains_chirho(5));
    assert!(!joined_chirho.contains_chirho(1));
    assert!(!joined_chirho.contains_chirho(7));
}

#[test]
fn test_finite_domain_bottom_identity_chirho() {
    // bottom is the identity element for join: x ⊔ ⊥ = x
    let a_chirho = FiniteDomainChirho::range_chirho(1, 5);
    let bottom_chirho = FiniteDomainChirho::bottom_chirho();

    let result1_chirho = a_chirho.join_chirho(&bottom_chirho);
    let result2_chirho = bottom_chirho.join_chirho(&a_chirho);

    // Both should equal a
    assert_eq!(result1_chirho.size_chirho(), a_chirho.size_chirho());
    assert_eq!(result2_chirho.size_chirho(), a_chirho.size_chirho());
    for v_chirho in a_chirho.iter_chirho() {
        assert!(result1_chirho.contains_chirho(v_chirho));
        assert!(result2_chirho.contains_chirho(v_chirho));
    }
}

#[test]
fn test_finite_domain_top_absorbs_chirho() {
    // top absorbs everything: x ⊔ ⊤ = ⊤
    let a_chirho = FiniteDomainChirho::range_chirho(1, 5);
    let top_chirho = FiniteDomainChirho::top_chirho();

    let result_chirho = a_chirho.join_chirho(&top_chirho);

    // Result should be top (empty/contradiction)
    assert!(result_chirho.is_top_chirho());
}

#[test]
fn test_finite_domain_join_idempotent_chirho() {
    // x ⊔ x = x
    let a_chirho = FiniteDomainChirho::range_chirho(1, 5);
    let result_chirho = a_chirho.join_chirho(&a_chirho);

    assert_eq!(result_chirho.size_chirho(), a_chirho.size_chirho());
    for v_chirho in a_chirho.iter_chirho() {
        assert!(result_chirho.contains_chirho(v_chirho));
    }
}

#[test]
fn test_all_different_chirho() {
    let prop_chirho = AllDifferentChirho::new_chirho(3);

    let cells_chirho = vec![
        FiniteDomainChirho::singleton_chirho(1), // Fixed to 1
        FiniteDomainChirho::range_chirho(1, 3),  // Could be 1, 2, or 3
        FiniteDomainChirho::range_chirho(1, 3),  // Could be 1, 2, or 3
    ];

    let results_chirho = prop_chirho.propagate_chirho(&cells_chirho);

    // Cell 1 and 2 should have 1 removed
    assert!(!results_chirho[1].contains_chirho(1));
    assert!(!results_chirho[2].contains_chirho(1));
}

#[test]
fn test_less_than_chirho() {
    let prop_chirho = LessThanChirho;

    let cells_chirho = vec![
        FiniteDomainChirho::range_chirho(1, 5), // a
        FiniteDomainChirho::range_chirho(3, 7), // b
    ];

    let _results_chirho = prop_chirho.propagate_chirho(&cells_chirho);

    // a < b means a can't be >= 7, and b can't be <= 1
    // a: initially {1,2,3,4,5}, filtered to {1,2,3,4,5,6} (all < 7) - no change
    // b: initially {3,4,5,6,7}, filtered to {2,3,4,5,6,7} (all > 1) - removes nothing actually

    // Let's test with tighter bounds
    let cells2_chirho = vec![
        FiniteDomainChirho::range_chirho(1, 5),
        FiniteDomainChirho::singleton_chirho(3), // b = 3
    ];

    let results2_chirho = prop_chirho.propagate_chirho(&cells2_chirho);
    // a < 3 means a ∈ {1, 2}
    assert_eq!(results2_chirho[0].size_chirho(), 2);
    assert!(results2_chirho[0].contains_chirho(1));
    assert!(results2_chirho[0].contains_chirho(2));
    assert!(!results2_chirho[0].contains_chirho(3));
}

#[test]
fn test_not_equals_chirho() {
    let prop_chirho = NotEqualsChirho;

    let cells_chirho = vec![
        FiniteDomainChirho::singleton_chirho(5), // a = 5
        FiniteDomainChirho::range_chirho(1, 9),  // b ∈ {1..9}
    ];

    let results_chirho = prop_chirho.propagate_chirho(&cells_chirho);

    // b should not contain 5
    assert!(!results_chirho[1].contains_chirho(5));
    assert_eq!(results_chirho[1].size_chirho(), 8);
}

// =========================================================================
// Tests for Global Constraints (GAP-006)
// =========================================================================

#[test]
fn test_element_constraint_fixed_index_chirho() {
    // Element constraint: result = array[index]
    // Variable order: [array[0], array[1], ..., array[n-1], index, result]
    // If index is fixed, result should be constrained to that array element
    let prop_chirho = ElementChirho::new_chirho(3);

    let cells_chirho = vec![
        FiniteDomainChirho::singleton_chirho(10), // array[0] = 10
        FiniteDomainChirho::singleton_chirho(20), // array[1] = 20
        FiniteDomainChirho::singleton_chirho(30), // array[2] = 30
        FiniteDomainChirho::singleton_chirho(1),  // index = 1
        FiniteDomainChirho::range_chirho(10, 30), // result: could be any
    ];

    let results_chirho = prop_chirho.propagate_chirho(&cells_chirho);

    // result should be constrained to {20} (array[1])
    assert!(results_chirho[4].is_singleton_chirho());
    assert_eq!(results_chirho[4].get_singleton_chirho(), Some(20));
}

#[test]
fn test_element_constraint_filters_index_chirho() {
    // If result is fixed, indices pointing to wrong values should be removed
    // Variable order: [array[0], array[1], ..., array[n-1], index, result]
    let prop_chirho = ElementChirho::new_chirho(3);

    let cells_chirho = vec![
        FiniteDomainChirho::singleton_chirho(10), // array[0] = 10
        FiniteDomainChirho::singleton_chirho(20), // array[1] = 20
        FiniteDomainChirho::singleton_chirho(30), // array[2] = 30
        FiniteDomainChirho::range_chirho(0, 2),   // index: 0, 1, or 2
        FiniteDomainChirho::singleton_chirho(20), // result = 20
    ];

    let results_chirho = prop_chirho.propagate_chirho(&cells_chirho);

    // index should be constrained to {1} (only index where array[i] = 20)
    assert!(results_chirho[3].is_singleton_chirho());
    assert_eq!(results_chirho[3].get_singleton_chirho(), Some(1));
}

#[test]
fn test_element_constraint_arity_chirho() {
    let prop_chirho = ElementChirho::new_chirho(5);
    assert_eq!(prop_chirho.arity_chirho(), 7); // 1 index + 5 array + 1 result
}

#[test]
fn test_table_constraint_filters_values_chirho() {
    // Table constraint: only allows tuples in the table
    let tuples_chirho = vec![
        vec![1, 2, 3],
        vec![1, 3, 2],
        vec![2, 1, 3],
    ];
    let prop_chirho = TableChirho::new_chirho(tuples_chirho);

    // First variable is fixed to 1, so only tuples starting with 1 are valid
    let cells_chirho = vec![
        FiniteDomainChirho::singleton_chirho(1), // x0 = 1
        FiniteDomainChirho::range_chirho(1, 3),  // x1 ∈ {1, 2, 3}
        FiniteDomainChirho::range_chirho(1, 3),  // x2 ∈ {1, 2, 3}
    ];

    let results_chirho = prop_chirho.propagate_chirho(&cells_chirho);

    // x1 can only be 2 or 3 (from tuples [1,2,3] and [1,3,2])
    assert!(!results_chirho[1].contains_chirho(1));
    assert!(results_chirho[1].contains_chirho(2));
    assert!(results_chirho[1].contains_chirho(3));

    // x2 can only be 2 or 3
    assert!(!results_chirho[2].contains_chirho(1));
    assert!(results_chirho[2].contains_chirho(2));
    assert!(results_chirho[2].contains_chirho(3));
}

#[test]
fn test_table_constraint_singleton_result_chirho() {
    // When all but one variable is fixed, propagation should determine the last
    let tuples_chirho = vec![
        vec![1, 2],
        vec![2, 3],
        vec![3, 1],
    ];
    let prop_chirho = TableChirho::new_chirho(tuples_chirho);

    let cells_chirho = vec![
        FiniteDomainChirho::singleton_chirho(1), // x0 = 1
        FiniteDomainChirho::range_chirho(1, 3),  // x1 ∈ {1, 2, 3}
    ];

    let results_chirho = prop_chirho.propagate_chirho(&cells_chirho);

    // x1 must be 2 (only tuple with x0=1 is [1,2])
    assert!(results_chirho[1].is_singleton_chirho());
    assert_eq!(results_chirho[1].get_singleton_chirho(), Some(2));
}

#[test]
fn test_table_constraint_arity_chirho() {
    let tuples_chirho = vec![vec![1, 2, 3, 4]];
    let prop_chirho = TableChirho::new_chirho(tuples_chirho);
    assert_eq!(prop_chirho.arity_chirho(), 4);
}

#[test]
fn test_circuit_constraint_basic_chirho() {
    // Circuit constraint: successor[i] = j means i -> j
    // Must form a Hamiltonian circuit
    let prop_chirho = CircuitChirho::new_chirho(3);

    // Start with all possibilities
    let cells_chirho = vec![
        FiniteDomainChirho::range_chirho(0, 2), // succ[0] ∈ {0, 1, 2}
        FiniteDomainChirho::range_chirho(0, 2), // succ[1] ∈ {0, 1, 2}
        FiniteDomainChirho::range_chirho(0, 2), // succ[2] ∈ {0, 1, 2}
    ];

    let results_chirho = prop_chirho.propagate_chirho(&cells_chirho);

    // No node can point to itself (self-loops not allowed in circuit)
    assert!(!results_chirho[0].contains_chirho(0));
    assert!(!results_chirho[1].contains_chirho(1));
    assert!(!results_chirho[2].contains_chirho(2));
}

#[test]
fn test_circuit_constraint_alldiff_chirho() {
    // Circuit implies all-different on successors
    let prop_chirho = CircuitChirho::new_chirho(3);

    let cells_chirho = vec![
        FiniteDomainChirho::singleton_chirho(1), // succ[0] = 1
        FiniteDomainChirho::range_chirho(0, 2),  // succ[1] ∈ {0, 1, 2}
        FiniteDomainChirho::range_chirho(0, 2),  // succ[2] ∈ {0, 1, 2}
    ];

    let results_chirho = prop_chirho.propagate_chirho(&cells_chirho);

    // succ[1] and succ[2] can't be 1 (used by succ[0])
    assert!(!results_chirho[1].contains_chirho(1));
    assert!(!results_chirho[2].contains_chirho(1));
    // They also can't be self-loops
    assert!(!results_chirho[1].contains_chirho(1));
    assert!(!results_chirho[2].contains_chirho(2));
}

#[test]
fn test_circuit_constraint_arity_chirho() {
    let prop_chirho = CircuitChirho::new_chirho(5);
    assert_eq!(prop_chirho.arity_chirho(), 5);
}

#[test]
fn test_cumulative_constraint_basic_chirho() {
    // Cumulative: tasks with start, duration, resource; total capacity
    // 2 tasks, capacity 3
    let prop_chirho = CumulativeChirho::new_chirho(2);

    // Task 0: start ∈ {0,1,2}, duration=2, resource=2
    // Task 1: start ∈ {0,1,2}, duration=2, resource=2
    // Capacity: 3
    // They can't overlap (2+2=4 > 3)
    let cells_chirho = vec![
        // starts
        FiniteDomainChirho::range_chirho(0, 2), // start_0
        FiniteDomainChirho::range_chirho(0, 2), // start_1
        // durations
        FiniteDomainChirho::singleton_chirho(2), // dur_0 = 2
        FiniteDomainChirho::singleton_chirho(2), // dur_1 = 2
        // resources
        FiniteDomainChirho::singleton_chirho(2), // res_0 = 2
        FiniteDomainChirho::singleton_chirho(2), // res_1 = 2
        // capacity
        FiniteDomainChirho::singleton_chirho(3),
    ];

    let _results_chirho = prop_chirho.propagate_chirho(&cells_chirho);

    // The cumulative should detect that these tasks can't overlap
    // and filter start times accordingly
    // This is a basic test; the actual filtering depends on the propagation logic
    assert_eq!(prop_chirho.arity_chirho(), 7); // 2*3 + 1
}

#[test]
fn test_cumulative_constraint_no_overlap_chirho() {
    // Two tasks that MUST NOT overlap
    let prop_chirho = CumulativeChirho::new_chirho(2);

    // Task 0: start=0 (fixed), duration=2, resource=2
    // Task 1: start ∈ {0,1,2}, duration=2, resource=2
    // Capacity: 3 (can't fit both at same time)
    let cells_chirho = vec![
        FiniteDomainChirho::singleton_chirho(0),  // start_0 = 0
        FiniteDomainChirho::range_chirho(0, 3),   // start_1 ∈ {0,1,2,3}
        FiniteDomainChirho::singleton_chirho(2),  // dur_0 = 2
        FiniteDomainChirho::singleton_chirho(2),  // dur_1 = 2
        FiniteDomainChirho::singleton_chirho(2),  // res_0 = 2
        FiniteDomainChirho::singleton_chirho(2),  // res_1 = 2
        FiniteDomainChirho::singleton_chirho(3),  // capacity = 3
    ];

    let results_chirho = prop_chirho.propagate_chirho(&cells_chirho);

    // Task 1 can't start at 0 or 1 (would overlap with task 0 at time 0,1)
    // Should be filtered to start at 2 or later
    if !results_chirho[1].is_bottom_chirho() {
        assert!(!results_chirho[1].contains_chirho(0));
        assert!(!results_chirho[1].contains_chirho(1));
    }
}

#[test]
fn test_cumulative_constraint_arity_chirho() {
    let prop_chirho = CumulativeChirho::new_chirho(4);
    assert_eq!(prop_chirho.arity_chirho(), 13); // 4*3 + 1
}

#[test]
fn test_cardinality_constraint_max_reached_chirho() {
    // Cardinality: bounds on how many vars can take each value

    let mut bounds_chirho = HashMap::new();
    bounds_chirho.insert(1, (0, 1)); // value 1 can appear 0-1 times
    bounds_chirho.insert(2, (0, 2)); // value 2 can appear 0-2 times

    let prop_chirho = CardinalityChirho::new_chirho(3, bounds_chirho);

    let cells_chirho = vec![
        FiniteDomainChirho::singleton_chirho(1), // x0 = 1 (value 1 is now used)
        FiniteDomainChirho::range_chirho(1, 3),  // x1 ∈ {1, 2, 3}
        FiniteDomainChirho::range_chirho(1, 3),  // x2 ∈ {1, 2, 3}
    ];

    let results_chirho = prop_chirho.propagate_chirho(&cells_chirho);

    // Value 1 has max_count=1, and it's already used by x0
    // So x1 and x2 should not contain 1
    assert!(!results_chirho[1].contains_chirho(1));
    assert!(!results_chirho[2].contains_chirho(1));
}

#[test]
fn test_cardinality_constraint_min_required_chirho() {
    // If we need a certain number of a value and only enough vars can provide it

    let mut bounds_chirho = HashMap::new();
    bounds_chirho.insert(5, (2, 3)); // value 5 must appear 2-3 times

    let prop_chirho = CardinalityChirho::new_chirho(3, bounds_chirho);

    // Only x1 and x2 can provide value 5, and we need at least 2
    let cells_chirho = vec![
        FiniteDomainChirho::singleton_chirho(1), // x0 = 1 (can't be 5)
        FiniteDomainChirho::range_chirho(5, 5),  // x1 = 5 (must be 5)
        FiniteDomainChirho::range_chirho(3, 7),  // x2 ∈ {3,4,5,6,7}
    ];

    let results_chirho = prop_chirho.propagate_chirho(&cells_chirho);

    // We need 2 instances of value 5, x0 can't provide it, x1 is already 5
    // So if only x2 can also provide it and we need one more, x2 must be 5
    // (current_count=1, can_provide=[x2], need min_count=2)
    // Actually, x1 provides 5 already. x2 can provide 5.
    // 1 + 1 = 2 = min_count, so x2 MUST be 5
    assert!(results_chirho[2].is_singleton_chirho());
    assert_eq!(results_chirho[2].get_singleton_chirho(), Some(5));
}

#[test]
fn test_cardinality_constraint_arity_chirho() {
    let bounds_chirho = HashMap::new();
    let prop_chirho = CardinalityChirho::new_chirho(5, bounds_chirho);
    assert_eq!(prop_chirho.arity_chirho(), 5);
}

#[test]
fn test_equals_constraint_chirho() {
    let prop_chirho = EqualsChirho;

    let cells_chirho = vec![
        FiniteDomainChirho::range_chirho(1, 5), // a ∈ {1,2,3,4,5}
        FiniteDomainChirho::range_chirho(3, 7), // b ∈ {3,4,5,6,7}
    ];

    let results_chirho = prop_chirho.propagate_chirho(&cells_chirho);

    // Intersection should be {3,4,5}
    assert_eq!(results_chirho[0].size_chirho(), 3);
    assert_eq!(results_chirho[1].size_chirho(), 3);
    assert!(results_chirho[0].contains_chirho(3));
    assert!(results_chirho[0].contains_chirho(4));
    assert!(results_chirho[0].contains_chirho(5));
}

#[test]
fn check_domain_text_chirho() {
    assert_eq!(FiniteDomainChirho::empty_chirho().to_text_chirho(), "∅");
    assert_eq!(FiniteDomainChirho::singleton_chirho(-7).to_text_chirho(), "{-7}");
    assert_eq!(FiniteDomainChirho::range_chirho(1, 5).to_text_chirho(), "{1, 2, 3, 4, 5}");
    assert_eq!(FiniteDomainChirho::range_chirho(-2, 9).to_text_chirho(), "{-2..9}");
    assert_eq!(FiniteDomainChirho::all_except_chirho(3, 1, 4).to_text_chirho(), "{1, 2, 4}");
    assert_eq!(
        FiniteDomainChirho::singleton_chirho(i64::MIN).to_text_chirho(),
        "{-9223372036854775808}"
    );
}
