use propagators_chirho::algebra_chirho::{
    BoundedJoinSemilatticeChirho, CommutativeSemigroupChirho, IdempotentSemigroupChirho,
    JoinSemilatticeChirho, MonoidChirho, SemigroupChirho,
};
use propagators_chirho::cell_chirho::{CellChirho, MergeableChirho};
use propagators_chirho::scheduler_chirho::SchedulerChirho;

/// A closed interval of reals.
#[derive(Clone, Copy, Debug, PartialEq)]
struct IntervalChirho {
    lo_chirho: f64,
    hi_chirho: f64,
}

/// Partial numeric information: nothing known, an interval, or a
/// contradiction; merging intersects.
#[derive(Clone, Copy, Debug, PartialEq)]
enum NumericInfoChirho {
    NothingChirho,
    IntervalChirho(IntervalChirho),
    ContradictionChirho,
}

impl NumericInfoChirho {
    fn exact_chirho(value_chirho: f64) -> Self {
        Self::interval_chirho(value_chirho, value_chirho)
    }

    fn interval_chirho(lo_chirho: f64, hi_chirho: f64) -> Self {
        NumericInfoChirho::IntervalChirho(IntervalChirho { lo_chirho, hi_chirho })
    }

    fn as_interval_chirho(&self) -> Option<IntervalChirho> {
        match self {
            NumericInfoChirho::IntervalChirho(iv_chirho) => Some(*iv_chirho),
            _ => None,
        }
    }

    fn join_chirho(&self, other_chirho: &Self) -> Self {
        match (*self, *other_chirho) {
            (NumericInfoChirho::NothingChirho, x_chirho) | (x_chirho, NumericInfoChirho::NothingChirho) => x_chirho,
            (NumericInfoChirho::ContradictionChirho, _) | (_, NumericInfoChirho::ContradictionChirho) => {
                NumericInfoChirho::ContradictionChirho
            }
            (NumericInfoChirho::IntervalChirho(a_chirho), NumericInfoChirho::IntervalChirho(b_chirho)) => {
                let lo_chirho = a_chirho.lo_chirho.max(b_chirho.lo_chirho);
                let hi_chirho = a_chirho.hi_chirho.min(b_chirho.hi_chirho);
                if lo_chirho > hi_chirho {
                    NumericInfoChirho::ContradictionChirho
                } else {
                    NumericInfoChirho::interval_chirho(lo_chirho, hi_chirho)
                }
            }
        }
    }
}

impl Default for NumericInfoChirho {
    fn default() -> Self {
        NumericInfoChirho::NothingChirho
    }
}

impl MergeableChirho for NumericInfoChirho {
    fn merge_chirho(&self, other_chirho: &Self) -> Self {
        self.join_chirho(other_chirho)
    }

    fn is_nothing_chirho(&self) -> bool {
        *self == NumericInfoChirho::NothingChirho
    }

    fn is_contradiction_chirho(&self) -> bool {
        *self == NumericInfoChirho::ContradictionChirho
    }

    fn spec_merge_chirho(a_chirho: Self, b_chirho: Self) -> Self {
        a_chirho.join_chirho(&b_chirho)
    }

    fn spec_is_nothing_chirho(a_chirho: Self) -> bool {
        a_chirho == NumericInfoChirho::NothingChirho
    }

    fn spec_is_contradiction_chirho(a_chirho: Self) -> bool {
        a_chirho == NumericInfoChirho::ContradictionChirho
    }
}

impl SemigroupChirho for NumericInfoChirho {
    fn combine_chirho(&self, other_chirho: &Self) -> Self {
        self.join_chirho(other_chirho)
    }

    fn spec_combine_chirho(a_chirho: Self, b_chirho: Self) -> Self {
        a_chirho.join_chirho(&b_chirho)
    }
}

impl MonoidChirho for NumericInfoChirho {
    fn empty_chirho() -> Self {
        NumericInfoChirho::NothingChirho
    }

    fn spec_empty_chirho() -> Self {
        NumericInfoChirho::NothingChirho
    }
}

impl CommutativeSemigroupChirho for NumericInfoChirho {}
impl IdempotentSemigroupChirho for NumericInfoChirho {}
impl JoinSemilatticeChirho for NumericInfoChirho {}

impl BoundedJoinSemilatticeChirho for NumericInfoChirho {
    fn lattice_top_chirho() -> Self {
        NumericInfoChirho::ContradictionChirho
    }

    fn spec_top_chirho() -> Self {
        NumericInfoChirho::ContradictionChirho
    }
}

#[test]
fn test_cell_creation_chirho() {
    let cell_chirho: CellChirho<NumericInfoChirho> = CellChirho::new_chirho("test");
    assert_eq!(cell_chirho.name_chirho(), "test");
    assert!(cell_chirho.is_nothing_chirho());
}

#[test]
fn test_cell_with_content_chirho() {
    let cell_chirho = CellChirho::with_content_chirho("pi", NumericInfoChirho::exact_chirho(3.14159));
    assert!(!cell_chirho.is_nothing_chirho());
}

#[test]
fn test_cell_add_content_chirho() {
    let mut scheduler_chirho = SchedulerChirho::new_chirho();
    let mut cell_chirho: CellChirho<NumericInfoChirho> = CellChirho::new_chirho("x");

    let changed_chirho = cell_chirho.add_content_chirho(NumericInfoChirho::interval_chirho(0.0, 100.0), &mut scheduler_chirho);
    assert!(changed_chirho);
    assert!(!cell_chirho.is_nothing_chirho());
}

#[test]
fn test_cell_merge_refines_chirho() {
    let mut scheduler_chirho = SchedulerChirho::new_chirho();
    let mut cell_chirho: CellChirho<NumericInfoChirho> = CellChirho::new_chirho("x");

    cell_chirho.add_content_chirho(NumericInfoChirho::interval_chirho(0.0, 100.0), &mut scheduler_chirho);
    cell_chirho.add_content_chirho(NumericInfoChirho::interval_chirho(40.0, 60.0), &mut scheduler_chirho);

    let content_chirho = cell_chirho.content_chirho();
    let interval_chirho = content_chirho.as_interval_chirho().unwrap();
    assert_eq!(interval_chirho.lo_chirho, 40.0);
    assert_eq!(interval_chirho.hi_chirho, 60.0);
}

#[test]
fn test_cell_contradiction_chirho() {
    let mut scheduler_chirho = SchedulerChirho::new_chirho();
    let mut cell_chirho: CellChirho<NumericInfoChirho> = CellChirho::new_chirho("x");

    cell_chirho.add_content_chirho(NumericInfoChirho::interval_chirho(0.0, 10.0), &mut scheduler_chirho);
    cell_chirho.add_content_chirho(NumericInfoChirho::interval_chirho(20.0, 30.0), &mut scheduler_chirho);

    assert!(cell_chirho.is_contradiction_chirho());
}

#[test]
fn test_cell_neighbor_count_chirho() {
    let cell_chirho: CellChirho<NumericInfoChirho> = CellChirho::new_chirho("x");
    assert_eq!(cell_chirho.neighbor_count_chirho(), 0);
}

#[test]
fn test_semigroup_associativity_chirho() {
    let a_chirho = NumericInfoChirho::interval_chirho(0.0, 10.0);
    let b_chirho = NumericInfoChirho::interval_chirho(5.0, 15.0);
    let c_chirho = NumericInfoChirho::interval_chirho(8.0, 12.0);

    // (a + b) + c = a + (b + c)
    let left_chirho = a_chirho.combine_chirho(&b_chirho).combine_chirho(&c_chirho);
    let right_chirho = a_chirho.combine_chirho(&b_chirho.combine_chirho(&c_chirho));
    assert_eq!(left_chirho, right_chirho);
}

#[test]
fn test_monoid_identity_chirho() {
    let a_chirho = NumericInfoChirho::interval_chirho(5.0, 10.0);
    let empty_chirho = NumericInfoChirho::empty_chirho();

    assert_eq!(empty_chirho.combine_chirho(&a_chirho), a_chirho);
    assert_eq!(a_chirho.combine_chirho(&empty_chirho), a_chirho);
}

#[test]
fn test_idempotence_chirho() {
    let a_chirho = NumericInfoChirho::interval_chirho(5.0, 10.0);
    assert_eq!(a_chirho.combine_chirho(&a_chirho), a_chirho);
}

#[test]
fn test_commutativity_chirho() {
    let a_chirho = NumericInfoChirho::interval_chirho(0.0, 10.0);
    let b_chirho = NumericInfoChirho::interval_chirho(5.0, 15.0);
    assert_eq!(a_chirho.combine_chirho(&b_chirho), b_chirho.combine_chirho(&a_chirho));
}

#[test]
fn test_top_absorption_chirho() {
    let a_chirho = NumericInfoChirho::interval_chirho(5.0, 10.0);
    let top_chirho = NumericInfoChirho::lattice_top_chirho();
    assert_eq!(a_chirho.join_lattice_chirho(&top_chirho), top_chirho);
}

#[test]
fn test_stimes_chirho() {
    let a_chirho = NumericInfoChirho::interval_chirho(5.0, 10.0);

    // Due to idempotence, stimes(n, a) = a for any n > 0
    assert_eq!(a_chirho.stimes_chirho(1), a_chirho);
    assert_eq!(a_chirho.stimes_chirho(5), a_chirho);
    assert_eq!(a_chirho.stimes_chirho(100), a_chirho);
}

#[test]
fn test_mconcat_chirho() {
    let items_chirho = vec![
        NumericInfoChirho::interval_chirho(0.0, 10.0),
        NumericInfoChirho::interval_chirho(5.0, 15.0),
        NumericInfoChirho::interval_chirho(8.0, 12.0),
    ];

    let result_chirho = NumericInfoChirho::mconcat_chirho(&items_chirho);

    // Should be intersection of all: [8, 10]
    if let NumericInfoChirho::IntervalChirho(iv_chirho) = result_chirho {
        assert_eq!(iv_chirho.lo_chirho, 8.0);
        assert_eq!(iv_chirho.hi_chirho, 10.0);
    } else {
        panic!("Expected interval");
    }
}

#[test]
fn test_lattice_leq_chirho() {
    let narrow_chirho = NumericInfoChirho::interval_chirho(5.0, 7.0);
    let wide_chirho = NumericInfoChirho::interval_chirho(0.0, 10.0);

    assert!(!narrow_chirho.lattice_leq_chirho(&wide_chirho));
    assert!(wide_chirho.lattice_leq_chirho(&narrow_chirho));

    // Bottom is below everything
    let bottom_chirho = NumericInfoChirho::lattice_bottom_chirho();
    assert!(bottom_chirho.lattice_leq_chirho(&narrow_chirho));
    assert!(bottom_chirho.lattice_leq_chirho(&wide_chirho));

    // Everything is below top
    let top_chirho = NumericInfoChirho::lattice_top_chirho();
    assert!(narrow_chirho.lattice_leq_chirho(&top_chirho));
    assert!(wide_chirho.lattice_leq_chirho(&top_chirho));
}
