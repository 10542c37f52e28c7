//! The cardinality constraint: bounds on how many cells take each value.

use std::collections::HashMap;
use vstd::prelude::*;
use vstd::std_specs::iter::IteratorSpec;

use crate::fd_propagators_chirho::{bottoms_chirho, bottoms_vec_chirho, model_remove_chirho, model_singleton_chirho, models_chirho};
use crate::finite_domain_chirho::{model_is_bottom_chirho, DomainModelChirho, FiniteDomainChirho};
use crate::lattice_chirho::{BoundedLatticeChirho, PropagatorFnChirho};

verus! {

broadcast use vstd::std_specs::hash::group_hash_axioms;

/// Cardinality constraint: for each value with bounds `(lo, hi)`, at least
/// `lo` and at most `hi` cells may take that value.
pub struct CardinalityChirho {
    /// Number of variables.
    num_vars_chirho: usize,
    /// Map from value to (lower bound, upper bound) on its count.
    bounds_chirho: HashMap<i64, (usize, usize)>,
}

/// Number of the first `k` cells fixed to `v`.
pub open spec fn card_fixed_count_chirho(cells: Seq<DomainModelChirho>, v: i64, k: nat) -> nat
    decreases k,
{
    if k == 0 {
        0
    } else {
        card_fixed_count_chirho(cells, v, (k - 1) as nat) + if model_singleton_chirho(cells[k - 1]) == Some(v) { 1nat } else { 0nat }
    }
}

/// Whether a cell is not yet fixed and could still take `v`.
pub open spec fn card_can_provide_chirho(m: DomainModelChirho, v: i64) -> bool {
    model_singleton_chirho(m) is None && m.values.contains(v)
}

/// Number of the first `k` cells that could still take `v`.
pub open spec fn card_provide_count_chirho(cells: Seq<DomainModelChirho>, v: i64, k: nat) -> nat
    decreases k,
{
    if k == 0 {
        0
    } else {
        card_provide_count_chirho(cells, v, (k - 1) as nat) + if card_can_provide_chirho(cells[k - 1], v) { 1nat } else { 0nat }
    }
}

/// `v` taken out of each of the first `k` cells that could still take it
/// (out of the result so far where there is one, else out of the cell).
pub open spec fn card_remove_upto_chirho(cells: Seq<DomainModelChirho>, res: Seq<DomainModelChirho>, v: i64, k: nat) -> Seq<DomainModelChirho>
    decreases k,
{
    if k == 0 {
        res
    } else {
        let p = card_remove_upto_chirho(cells, res, v, (k - 1) as nat);
        if card_can_provide_chirho(cells[k - 1], v) {
            p.update(k - 1, model_remove_chirho(if model_is_bottom_chirho(p[k - 1]) { cells[k - 1] } else { p[k - 1] }, v))
        } else {
            p
        }
    }
}

/// Each of the first `k` cells that could still take `v` is fixed to `v`.
pub open spec fn card_assign_upto_chirho(cells: Seq<DomainModelChirho>, res: Seq<DomainModelChirho>, v: i64, k: nat) -> Seq<DomainModelChirho>
    decreases k,
{
    if k == 0 {
        res
    } else {
        let p = card_assign_upto_chirho(cells, res, v, (k - 1) as nat);
        if card_can_provide_chirho(cells[k - 1], v) {
            p.update(k - 1, DomainModelChirho { values: set![v], min: v, max: v })
        } else {
            p
        }
    }
}

/// One bounded value `(v, (lo, hi))`: when `hi` cells are already fixed to
/// `v`, no other cell may take it; when exactly `lo` cells are fixed to it
/// or could take it, all those that could take it must.
pub open spec fn card_entry_chirho(cells: Seq<DomainModelChirho>, res: Seq<DomainModelChirho>, e: (i64, (usize, usize))) -> Seq<DomainModelChirho> {
    let n = cells.len();
    let cnt = card_fixed_count_chirho(cells, e.0, n);
    let r1 = if cnt >= e.1.1 { card_remove_upto_chirho(cells, res, e.0, n) } else { res };
    if cnt + card_provide_count_chirho(cells, e.0, n) == e.1.0 {
        card_assign_upto_chirho(cells, r1, e.0, n)
    } else {
        r1
    }
}

/// The first `k` bounded values of `order`, taken in turn.
pub open spec fn card_fold_chirho(cells: Seq<DomainModelChirho>, order: Seq<(i64, (usize, usize))>, k: nat) -> Seq<DomainModelChirho>
    decreases k,
{
    if k == 0 {
        bottoms_chirho(cells.len())
    } else {
        card_entry_chirho(cells, card_fold_chirho(cells, order, (k - 1) as nat), order[k - 1])
    }
}

/// Whether `order` lists each bound of `bounds` exactly once.
pub open spec fn card_is_order_chirho(bounds: Map<i64, (usize, usize)>, order: Seq<(i64, (usize, usize))>) -> bool {
    order.no_duplicates() && order.to_set() == bounds.kv_pairs()
}

/// Walks the bounds map, in the order the map hands them out.
fn bounds_entries_chirho(m: &HashMap<i64, (usize, usize)>) -> (r: Vec<(i64, (usize, usize))>)
    ensures
        card_is_order_chirho(m@, r@),
{
    let mut r: Vec<(i64, (usize, usize))> = Vec::new();
    let entries = m.iter();
    let ghost rem = entries.remaining();
    for kv in it: entries
        invariant
            it.seq() == rem,
            r@ == it.seq().take(it.index()).unref(),
    {
        let (k, v) = kv;
        r.push((*k, *v));
    }
    proof {
        assert(r@ =~= rem.unref());
        assert forall|i: int, j: int| 0 <= i < r@.len() && 0 <= j < r@.len() && i != j implies r@[i] != r@[j] by {
            assert(rem[i] != rem[j]);
        }
    }
    r
}

/// Counts the cells fixed to `v`.
fn fixed_count_exec_chirho(cells_chirho: &[FiniteDomainChirho], v: i64) -> (r: usize)
    ensures
        r == card_fixed_count_chirho(models_chirho(cells_chirho@), v, cells_chirho@.len() as nat),
{
    let ghost cm = models_chirho(cells_chirho@);
    let mut r: usize = 0;
    let mut i: usize = 0;
    while i < cells_chirho.len()
        invariant
            0 <= i <= cells_chirho@.len(),
            cm == models_chirho(cells_chirho@),
            r <= i,
            r == card_fixed_count_chirho(cm, v, i as nat),
        decreases cells_chirho@.len() - i,
    {
        assert(cm[i as int] == cells_chirho@[i as int]@);
        match cells_chirho[i].get_singleton_chirho() {
            Some(x) => {
                if x == v {
                    r = r + 1;
                }
            },
            None => {},
        }
        i = i + 1;
    }
    r
}

/// Whether a cell is not yet fixed and could still take `v`.
fn can_provide_exec_chirho(d: &FiniteDomainChirho, v: i64) -> (r: bool)
    ensures
        r == card_can_provide_chirho(d@, v),
{
    d.get_singleton_chirho().is_none() && d.has_value_chirho(v)
}

/// Counts the cells that could still take `v`.
fn provide_count_exec_chirho(cells_chirho: &[FiniteDomainChirho], v: i64) -> (r: usize)
    ensures
        r == card_provide_count_chirho(models_chirho(cells_chirho@), v, cells_chirho@.len() as nat),
{
    let ghost cm = models_chirho(cells_chirho@);
    let mut r: usize = 0;
    let mut i: usize = 0;
    while i < cells_chirho.len()
        invariant
            0 <= i <= cells_chirho@.len(),
            cm == models_chirho(cells_chirho@),
            r <= i,
            r == card_provide_count_chirho(cm, v, i as nat),
        decreases cells_chirho@.len() - i,
    {
        assert(cm[i as int] == cells_chirho@[i as int]@);
        if can_provide_exec_chirho(&cells_chirho[i], v) {
            r = r + 1;
        }
        i = i + 1;
    }
    r
}

/// Applies the bounded values in the given order: for each `(v, (lo, hi))`,
/// when `hi` cells are fixed to `v` it is taken out of every other cell
/// that could take it, and when the cells fixed to `v` and those that
/// could take it number exactly `lo`, the latter are fixed to `v`.
pub fn cardinality_in_order_chirho(cells_chirho: &[FiniteDomainChirho], order_chirho: &[(i64, (usize, usize))]) -> (r: Vec<FiniteDomainChirho>)
    ensures
        models_chirho(r@) == card_fold_chirho(models_chirho(cells_chirho@), order_chirho@, order_chirho@.len() as nat),
        r@.len() == cells_chirho@.len(),
{
    let n = cells_chirho.len();
    let ghost cm = models_chirho(cells_chirho@);
    let mut results_chirho = bottoms_vec_chirho(n);
    let mut j: usize = 0;
    while j < order_chirho.len()
        invariant
            0 <= j <= order_chirho@.len(),
            n == cells_chirho@.len(),
            cm == models_chirho(cells_chirho@),
            results_chirho@.len() == n,
            models_chirho(results_chirho@) == card_fold_chirho(cm, order_chirho@, j as nat),
        decreases order_chirho@.len() - j,
    {
        let (v, (lo, hi)) = order_chirho[j];
        let ghost start = models_chirho(results_chirho@);
        let cnt = fixed_count_exec_chirho(cells_chirho, v);
        if cnt >= hi {
            let mut i: usize = 0;
            while i < n
                invariant
                    0 <= i <= n,
                    n == cells_chirho@.len(),
                    cm == models_chirho(cells_chirho@),
                    results_chirho@.len() == n,
                    start.len() == n,
                    models_chirho(results_chirho@) == card_remove_upto_chirho(cm, start, v, i as nat),
                decreases n - i,
            {
                let ghost pre = models_chirho(results_chirho@);
                assert(cm[i as int] == cells_chirho@[i as int]@);
                if can_provide_exec_chirho(&cells_chirho[i], v) {
                    assert(pre[i as int] == results_chirho@[i as int]@);
                    let nd = if results_chirho[i].is_bottom_chirho() {
                        cells_chirho[i].remove_chirho(v)
                    } else {
                        results_chirho[i].remove_chirho(v)
                    };
                    results_chirho.set(i, nd);
                }
                proof {
                    assert(models_chirho(results_chirho@) =~= card_remove_upto_chirho(cm, start, v, (i + 1) as nat));
                }
                i = i + 1;
            }
        }
        let ghost mid = models_chirho(results_chirho@);
        let pc = provide_count_exec_chirho(cells_chirho, v);
        if pc <= lo && cnt == lo - pc {
            let mut i: usize = 0;
            while i < n
                invariant
                    0 <= i <= n,
                    n == cells_chirho@.len(),
                    cm == models_chirho(cells_chirho@),
                    results_chirho@.len() == n,
                    mid.len() == n,
                    models_chirho(results_chirho@) == card_assign_upto_chirho(cm, mid, v, i as nat),
                decreases n - i,
            {
                assert(cm[i as int] == cells_chirho@[i as int]@);
                if can_provide_exec_chirho(&cells_chirho[i], v) {
                    results_chirho.set(i, FiniteDomainChirho::singleton_chirho(v));
                }
                proof {
                    assert(models_chirho(results_chirho@) =~= card_assign_upto_chirho(cm, mid, v, (i + 1) as nat));
                }
                i = i + 1;
            }
        }
        j = j + 1;
    }
    results_chirho
}

impl CardinalityChirho {
    /// The number of variables.
    pub closed spec fn num_vars_spec_chirho(&self) -> int {
        self.num_vars_chirho as int
    }

    /// The bounds, by value.
    pub closed spec fn bounds_spec_chirho(&self) -> Map<i64, (usize, usize)> {
        self.bounds_chirho@
    }

    /// Creates a cardinality constraint over `num_vars` cells with the given
    /// `(min_count, max_count)` per value.
    pub fn new_chirho(num_vars_chirho: usize, bounds_chirho: HashMap<i64, (usize, usize)>) -> (r: Self)
        ensures
            r.num_vars_spec_chirho() == num_vars_chirho,
            r.bounds_spec_chirho() == bounds_chirho@,
    {
        CardinalityChirho { num_vars_chirho, bounds_chirho }
    }
}

impl PropagatorFnChirho<FiniteDomainChirho> for CardinalityChirho {
    open spec fn spec_arity_chirho(&self) -> int {
        self.num_vars_spec_chirho()
    }

    /// The bounded values are taken in the order the map hands them out,
    /// which is not fixed: the result is that of some order listing each
    /// bound once.
    open spec fn spec_outputs_chirho(&self, cells: Seq<DomainModelChirho>, out: Seq<DomainModelChirho>) -> bool {
        exists|order: Seq<(i64, (usize, usize))>|
            card_is_order_chirho(self.bounds_spec_chirho(), order)
                && out == #[trigger] card_fold_chirho(cells, order, order.len())
    }

    fn arity_chirho(&self) -> (r: usize) {
        self.num_vars_chirho
    }

    fn propagate_chirho(&self, cells_chirho: &[FiniteDomainChirho]) -> (r: Vec<FiniteDomainChirho>) {
        let order_chirho = bounds_entries_chirho(&self.bounds_chirho);
        let r = cardinality_in_order_chirho(cells_chirho, order_chirho.as_slice());
        assert(card_is_order_chirho(self.bounds_spec_chirho(), order_chirho@));
        r
    }
}

} // verus!
