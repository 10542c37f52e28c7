//! Propagators over finite domains.
//!
//! Each propagator reads a tuple of domains and hands back one domain per
//! cell it refines; a "no information" (bottom) entry means "no change".

use vstd::prelude::*;

use crate::finite_domain_chirho::{
    model_bottom_chirho, model_from_set_chirho, model_join_chirho, set_max_chirho,
    set_min_chirho, DomainModelChirho, FiniteDomainChirho,
};
use crate::lattice_chirho::{views_chirho, BoundedLatticeChirho, LatticeChirho, PropagatorFnChirho};
use crate::sorted_chirho::{elems_chirho, outside_chirho, sorted_insert_chirho, strictly_increasing_chirho};

verus! {

/// The models of a sequence of domains.
pub open spec fn models_chirho(s: Seq<FiniteDomainChirho>) -> Seq<DomainModelChirho> {
    views_chirho(s)
}

/// The value of a one-element domain.
pub open spec fn model_singleton_chirho(m: DomainModelChirho) -> Option<i64> {
    if m.values.len() == 1 { Some(set_min_chirho(m.values)) } else { None }
}

/// `m` with one value taken out, bounds kept.
pub open spec fn model_remove_chirho(m: DomainModelChirho, v: i64) -> DomainModelChirho {
    DomainModelChirho { values: m.values.remove(v), min: m.min, max: m.max }
}

/// `n` copies of the bottom model.
pub open spec fn bottoms_chirho(n: nat) -> Seq<DomainModelChirho> {
    Seq::new(n, |i: int| model_bottom_chirho())
}

/// Makes a vector of `n` bottom domains.
pub(crate) fn bottoms_vec_chirho(n: usize) -> (r: Vec<FiniteDomainChirho>)
    ensures
        models_chirho(r@) == bottoms_chirho(n as nat),
        r@.len() == n,
{
    let mut r: Vec<FiniteDomainChirho> = Vec::new();
    let mut i: usize = 0;
    while i < n
        invariant
            0 <= i <= n,
            r@.len() == i,
            forall|k: int| 0 <= k < i ==> (#[trigger] r@[k])@ == model_bottom_chirho(),
        decreases n - i,
    {
        r.push(FiniteDomainChirho::bottom_chirho());
        i = i + 1;
    }
    proof {
        assert(models_chirho(r@) =~= bottoms_chirho(n as nat));
    }
    r
}

// ---------------------------------------------------------------------------
// All-different
// ---------------------------------------------------------------------------

/// All-different constraint: when a cell becomes a singleton, its value is
/// removed from every other cell.
pub struct AllDifferentChirho {
    /// Number of cells this constraint covers.
    arity_chirho: usize,
}

/// One round of all-different for the singleton at `i`: every other cell
/// holding that value loses it, from what was already narrowed for that
/// cell (or from the cell itself when nothing was).
pub open spec fn all_different_step_chirho(cells: Seq<DomainModelChirho>, res: Seq<DomainModelChirho>, i: int) -> Seq<DomainModelChirho> {
    Seq::new(res.len(), |j: int|
        match model_singleton_chirho(cells[i]) {
            Some(v) => if i != j && cells[j].values.contains(v) {
                model_remove_chirho(if crate::finite_domain_chirho::model_is_bottom_chirho(res[j]) { cells[j] } else { res[j] }, v)
            } else {
                res[j]
            },
            None => res[j],
        })
}

/// All-different after the singletons among the first `k` cells have been handled.
pub open spec fn all_different_upto_chirho(cells: Seq<DomainModelChirho>, k: nat) -> Seq<DomainModelChirho>
    decreases k,
{
    if k == 0 {
        bottoms_chirho(cells.len())
    } else {
        all_different_step_chirho(cells, all_different_upto_chirho(cells, (k - 1) as nat), k - 1)
    }
}

impl AllDifferentChirho {
    /// Creates an all-different constraint over `arity` cells.
    pub fn new_chirho(arity_chirho: usize) -> (r: Self)
        ensures
            r.spec_arity_chirho() == arity_chirho,
    {
        AllDifferentChirho { arity_chirho }
    }
}

impl PropagatorFnChirho<FiniteDomainChirho> for AllDifferentChirho {
    closed spec fn spec_arity_chirho(&self) -> int {
        self.arity_chirho as int
    }

    open spec fn spec_outputs_chirho(&self, cells: Seq<DomainModelChirho>, out: Seq<DomainModelChirho>) -> bool {
        out == all_different_upto_chirho(cells, cells.len())
    }

    fn arity_chirho(&self) -> (r: usize) {
        self.arity_chirho
    }

    fn propagate_chirho(&self, cells_chirho: &[FiniteDomainChirho]) -> (r: Vec<FiniteDomainChirho>) {
        let ghost cm = models_chirho(cells_chirho@);
        let n = cells_chirho.len();
        let mut results_chirho = bottoms_vec_chirho(n);
        assert(models_chirho(results_chirho@).len() == n);
        let mut i: usize = 0;
        while i < n
            invariant
                0 <= i <= n,
                n == cells_chirho@.len(),
                cm == models_chirho(cells_chirho@),
                models_chirho(results_chirho@) == all_different_upto_chirho(cm, i as nat),
                results_chirho@.len() == n,
            decreases n - i,
        {
            let ghost before = models_chirho(results_chirho@);
            let single = cells_chirho[i].get_singleton_chirho();
            if let Some(value_chirho) = single {
                let mut j: usize = 0;
                while j < n
                    invariant
                        0 <= i < n,
                        0 <= j <= n,
                        n == cells_chirho@.len(),
                        cm == models_chirho(cells_chirho@),
                        model_singleton_chirho(cm[i as int]) == Some(value_chirho),
                        before.len() == n,
                        results_chirho@.len() == n,
                        forall|k: int| 0 <= k < j ==> (#[trigger] results_chirho@[k])@ == all_different_step_chirho(cm, before, i as int)[k],
                        forall|k: int| j <= k < n ==> (#[trigger] results_chirho@[k])@ == before[k],
                    decreases n - j,
                {
                    if i != j && cells_chirho[j].has_value_chirho(value_chirho) {
                        let d = if results_chirho[j].is_bottom_chirho() {
                            cells_chirho[j].remove_chirho(value_chirho)
                        } else {
                            results_chirho[j].remove_chirho(value_chirho)
                        };
                        results_chirho.set(j, d);
                    }
                    j = j + 1;
                }
            }
            proof {
                assert(models_chirho(results_chirho@) =~= all_different_step_chirho(cm, before, i as int));
            }
            i = i + 1;
        }
        results_chirho
    }
}

/// A subset of a finite set differs from it exactly when it is smaller.
pub proof fn lemma_subset_differs_chirho(f: Set<i64>, a: Set<i64>)
    requires
        f.subset_of(a),
        a.finite(),
    ensures
        f.finite(),
        f.len() <= a.len(),
        (f != a) == (f.len() < a.len()),
{
    vstd::set_lib::lemma_len_subset(f, a);
    if f.len() == a.len() {
        vstd::set_lib::lemma_subset_equality(f, a);
    }
}

// ---------------------------------------------------------------------------
// Less-than
// ---------------------------------------------------------------------------

/// Less-than constraint: `a < b`.
pub struct LessThanChirho;

/// What less-than hands back for `a` and `b`: the values of `a` below the
/// greatest value of `b`, and the values of `b` above the least value of
/// `a`, each only where something was removed.
pub open spec fn less_than_spec_chirho(a: DomainModelChirho, b: DomainModelChirho) -> Seq<DomainModelChirho> {
    let ra = if !b.values.is_empty() && a.values.filter(|v: i64| v < set_max_chirho(b.values)) != a.values {
        model_from_set_chirho(a.values.filter(|v: i64| v < set_max_chirho(b.values)))
    } else {
        model_bottom_chirho()
    };
    let rb = if !a.values.is_empty() && b.values.filter(|v: i64| v > set_min_chirho(a.values)) != b.values {
        model_from_set_chirho(b.values.filter(|v: i64| v > set_min_chirho(a.values)))
    } else {
        model_bottom_chirho()
    };
    seq![ra, rb]
}

impl PropagatorFnChirho<FiniteDomainChirho> for LessThanChirho {
    open spec fn spec_arity_chirho(&self) -> int {
        2
    }

    open spec fn spec_outputs_chirho(&self, cells: Seq<DomainModelChirho>, out: Seq<DomainModelChirho>) -> bool {
        out == less_than_spec_chirho(cells[0], cells[1])
    }

    fn arity_chirho(&self) -> (r: usize) {
        2
    }

    fn propagate_chirho(&self, cells_chirho: &[FiniteDomainChirho]) -> (r: Vec<FiniteDomainChirho>) {
        let a_chirho = &cells_chirho[0];
        let b_chirho = &cells_chirho[1];
        let ghost am = a_chirho@;
        let ghost bm = b_chirho@;
        let ghost spec = less_than_spec_chirho(am, bm);
        let a_size = a_chirho.size_chirho();
        let b_size = b_chirho.size_chirho();
        let mut ra = FiniteDomainChirho::bottom_chirho();
        if let Some(b_max_chirho) = b_chirho.max_value_chirho() {
            let filtered_a_chirho = a_chirho.keep_outside_chirho(b_max_chirho, i64::MAX);
            proof {
                assert(am.values.filter(|v: i64| outside_chirho(v, b_max_chirho, i64::MAX))
                    =~= am.values.filter(|v: i64| v < set_max_chirho(bm.values)));
                lemma_subset_differs_chirho(am.values.filter(|v: i64| v < set_max_chirho(bm.values)), am.values);
            }
            if filtered_a_chirho.size_chirho() < a_size {
                ra = filtered_a_chirho;
            }
        }
        assert(ra@ == spec[0]);
        let mut rb = FiniteDomainChirho::bottom_chirho();
        if let Some(a_min_chirho) = a_chirho.min_value_chirho() {
            let filtered_b_chirho = b_chirho.keep_outside_chirho(i64::MIN, a_min_chirho);
            proof {
                assert(bm.values.filter(|v: i64| outside_chirho(v, i64::MIN, a_min_chirho))
                    =~= bm.values.filter(|v: i64| v > set_min_chirho(am.values)));
                lemma_subset_differs_chirho(bm.values.filter(|v: i64| v > set_min_chirho(am.values)), bm.values);
            }
            if filtered_b_chirho.size_chirho() < b_size {
                rb = filtered_b_chirho;
            }
        }
        assert(rb@ == spec[1]);
        let mut results_chirho: Vec<FiniteDomainChirho> = Vec::new();
        results_chirho.push(ra);
        results_chirho.push(rb);
        proof {
            assert(models_chirho(results_chirho@) =~= spec);
        }
        results_chirho
    }
}

// ---------------------------------------------------------------------------
// Equals
// ---------------------------------------------------------------------------

/// Equals constraint: `a = b`; both cells get the join of the two.
pub struct EqualsChirho;

impl PropagatorFnChirho<FiniteDomainChirho> for EqualsChirho {
    open spec fn spec_arity_chirho(&self) -> int {
        2
    }

    open spec fn spec_outputs_chirho(&self, cells: Seq<DomainModelChirho>, out: Seq<DomainModelChirho>) -> bool {
        out == seq![model_join_chirho(cells[0], cells[1]), model_join_chirho(cells[0], cells[1])]
    }

    fn arity_chirho(&self) -> (r: usize) {
        2
    }

    fn propagate_chirho(&self, cells_chirho: &[FiniteDomainChirho]) -> (r: Vec<FiniteDomainChirho>) {
        let intersection_chirho = cells_chirho[0].join_chirho(&cells_chirho[1]);
        let mut r: Vec<FiniteDomainChirho> = Vec::new();
        r.push(intersection_chirho.clone());
        r.push(intersection_chirho);
        proof {
            assert(models_chirho(r@) =~= seq![model_join_chirho(cells_chirho@[0]@, cells_chirho@[1]@), model_join_chirho(cells_chirho@[0]@, cells_chirho@[1]@)]);
        }
        r
    }
}

// ---------------------------------------------------------------------------
// Not-equals
// ---------------------------------------------------------------------------

/// Not-equals constraint: `a ≠ b`; propagates only when one side is a singleton.
pub struct NotEqualsChirho;

/// What not-equals hands back: each side loses the value of the other side
/// when that side is a singleton whose value it holds.
pub open spec fn not_equals_spec_chirho(a: DomainModelChirho, b: DomainModelChirho) -> Seq<DomainModelChirho> {
    let rb = match model_singleton_chirho(a) {
        Some(av) => if b.values.contains(av) { model_remove_chirho(b, av) } else { model_bottom_chirho() },
        None => model_bottom_chirho(),
    };
    let ra = match model_singleton_chirho(b) {
        Some(bv) => if a.values.contains(bv) { model_remove_chirho(a, bv) } else { model_bottom_chirho() },
        None => model_bottom_chirho(),
    };
    seq![ra, rb]
}

impl PropagatorFnChirho<FiniteDomainChirho> for NotEqualsChirho {
    open spec fn spec_arity_chirho(&self) -> int {
        2
    }

    open spec fn spec_outputs_chirho(&self, cells: Seq<DomainModelChirho>, out: Seq<DomainModelChirho>) -> bool {
        out == not_equals_spec_chirho(cells[0], cells[1])
    }

    fn arity_chirho(&self) -> (r: usize) {
        2
    }

    fn propagate_chirho(&self, cells_chirho: &[FiniteDomainChirho]) -> (r: Vec<FiniteDomainChirho>) {
        let ghost spec = not_equals_spec_chirho(cells_chirho@[0]@, cells_chirho@[1]@);
        let mut rb = FiniteDomainChirho::bottom_chirho();
        if let Some(a_val_chirho) = cells_chirho[0].get_singleton_chirho() {
            if cells_chirho[1].has_value_chirho(a_val_chirho) {
                rb = cells_chirho[1].remove_chirho(a_val_chirho);
            }
        }
        assert(rb@ == spec[1]);
        let mut ra = FiniteDomainChirho::bottom_chirho();
        if let Some(b_val_chirho) = cells_chirho[1].get_singleton_chirho() {
            if cells_chirho[0].has_value_chirho(b_val_chirho) {
                ra = cells_chirho[0].remove_chirho(b_val_chirho);
            }
        }
        assert(ra@ == spec[0]);
        let mut results_chirho: Vec<FiniteDomainChirho> = Vec::new();
        results_chirho.push(ra);
        results_chirho.push(rb);
        proof {
            assert(models_chirho(results_chirho@) =~= spec);
        }
        results_chirho
    }
}

/// The position in an array of length `n` that the integer `idx` names, if any.
fn position_chirho(idx: i64, n: usize) -> (r: Option<usize>)
    ensures
        r == (if 0 <= idx < n { Some(idx as usize) } else { None::<usize> }),
{
    if idx < 0 {
        None
    } else if (idx as u64) < (n as u64) {
        Some(idx as u64 as usize)
    } else {
        None
    }
}

// ---------------------------------------------------------------------------
// Element
// ---------------------------------------------------------------------------

/// Element constraint: `result = array[index]`.
///
/// Cells are `[array[0], ..., array[n-1], index, result]`.
pub struct ElementChirho {
    /// Number of array elements.
    array_size_chirho: usize,
}

/// The values the result can take: those of the array elements that the index can name.
pub open spec fn element_possible_chirho(cells: Seq<DomainModelChirho>, n: int) -> Set<i64> {
    Set::new(|v: i64| exists|idx: i64| #![trigger cells[n].values.contains(idx)]
        cells[n].values.contains(idx) && 0 <= idx < n && cells[idx as int].values.contains(v))
}

/// The index values whose array element can still produce a value of the result.
pub open spec fn element_valid_indices_chirho(cells: Seq<DomainModelChirho>, n: int) -> Set<i64> {
    Set::new(|idx: i64| cells[n].values.contains(idx) && 0 <= idx < n
        && exists|v: i64| #![trigger cells[idx as int].values.contains(v)]
            cells[idx as int].values.contains(v) && cells[n + 1].values.contains(v))
}

/// What element hands back: the result narrowed to the possible values and
/// the index narrowed to the valid indices, each only when that changes something.
pub open spec fn element_spec_chirho(cells: Seq<DomainModelChirho>, n: int) -> Seq<DomainModelChirho> {
    let possible = element_possible_chirho(cells, n);
    let refined = model_join_chirho(cells[n + 1], model_from_set_chirho(possible));
    let r_result = if !possible.is_empty() && refined != cells[n + 1] { refined } else { model_bottom_chirho() };
    let valid = element_valid_indices_chirho(cells, n);
    let r_index = if !valid.is_empty() && valid.len() < cells[n].values.len() { model_from_set_chirho(valid) } else { model_bottom_chirho() };
    Seq::new(cells.len(), |k: int| if k == n + 1 { r_result } else if k == n { r_index } else { model_bottom_chirho() })
}

impl ElementChirho {
    #[verifier::type_invariant]
    spec fn inv_chirho(self) -> bool {
        self.array_size_chirho + 2 <= usize::MAX
    }

    /// Creates an element constraint for an array of the given size
    /// (arity = array size + 2).
    pub fn new_chirho(array_size_chirho: usize) -> (r: Self)
        requires
            array_size_chirho + 2 <= usize::MAX,
        ensures
            r.array_size_spec_chirho() == array_size_chirho,
    {
        ElementChirho { array_size_chirho }
    }

    /// The number of array elements.
    pub closed spec fn array_size_spec_chirho(&self) -> int {
        self.array_size_chirho as int
    }
}

impl PropagatorFnChirho<FiniteDomainChirho> for ElementChirho {
    open spec fn spec_arity_chirho(&self) -> int {
        self.array_size_spec_chirho() + 2
    }

    open spec fn spec_outputs_chirho(&self, cells: Seq<DomainModelChirho>, out: Seq<DomainModelChirho>) -> bool {
        out == element_spec_chirho(cells, self.array_size_spec_chirho())
    }

    fn arity_chirho(&self) -> (r: usize) {
        proof { use_type_invariant(self); }
        self.array_size_chirho + 2
    }

    fn propagate_chirho(&self, cells_chirho: &[FiniteDomainChirho]) -> (r: Vec<FiniteDomainChirho>) {
        proof { use_type_invariant(self); }
        let n = self.array_size_chirho;
        let ghost cm = models_chirho(cells_chirho@);
        let index_chirho = &cells_chirho[n];
        let result_chirho = &cells_chirho[n + 1];
        let idxs = index_chirho.iter_chirho();
        // The values the result can take.
        let mut possible: Vec<i64> = Vec::new();
        let mut p: usize = 0;
        while p < idxs.len()
            invariant
                0 <= p <= idxs@.len(),
                n + 2 <= cells_chirho@.len(),
                cm == models_chirho(cells_chirho@),
                strictly_increasing_chirho(idxs@),
                elems_chirho(idxs@) == cm[n as int].values,
                strictly_increasing_chirho(possible@),
                forall|v: i64| elems_chirho(possible@).contains(v) <==> exists|q: int| 0 <= q < p
                    && 0 <= #[trigger] idxs@[q] < n && cm[idxs@[q] as int].values.contains(v),
            decreases idxs@.len() - p,
        {
            if let Some(pos) = position_chirho(idxs[p], n) {
                let vals = cells_chirho[pos].iter_chirho();
                let ghost before = possible@;
                let mut q: usize = 0;
                while q < vals.len()
                    invariant
                        0 <= q <= vals@.len(),
                        strictly_increasing_chirho(possible@),
                        elems_chirho(possible@) == elems_chirho(before) + elems_chirho(vals@.take(q as int)),
                    decreases vals@.len() - q,
                {
                    let ghost pre = possible@;
                    sorted_insert_chirho(&mut possible, vals[q]);
                    proof {
                        assert(vals@.take(q + 1) =~= vals@.take(q as int).push(vals@[q as int]));
                        vals@.take(q as int).lemma_push_to_set_commute(vals@[q as int]);
                        assert(elems_chirho(vals@.take(q + 1)) =~= elems_chirho(vals@.take(q as int)).insert(vals@[q as int]));
                        assert(elems_chirho(possible@) =~= elems_chirho(before) + elems_chirho(vals@.take(q + 1)));
                    }
                    q = q + 1;
                }
                proof {
                    assert(vals@.take(vals@.len() as int) =~= vals@);
                    assert forall|v: i64| elems_chirho(possible@).contains(v) <==> exists|q: int| 0 <= q < p + 1
                        && 0 <= #[trigger] idxs@[q] < n && cm[idxs@[q] as int].values.contains(v) by {
                        if elems_chirho(before).contains(v) {
                            let q = choose|q: int| 0 <= q < p && 0 <= #[trigger] idxs@[q] < n && cm[idxs@[q] as int].values.contains(v);
                        }
                        if cm[pos as int].values.contains(v) {
                            assert(idxs@[p as int] == pos);
                        }
                    }
                }
            } else {
                proof {
                    assert forall|v: i64| elems_chirho(possible@).contains(v) <==> exists|q: int| 0 <= q < p + 1
                        && 0 <= #[trigger] idxs@[q] < n && cm[idxs@[q] as int].values.contains(v) by {
                        if exists|q: int| 0 <= q < p + 1 && 0 <= #[trigger] idxs@[q] < n && cm[idxs@[q] as int].values.contains(v) {
                            let q = choose|q: int| 0 <= q < p + 1 && 0 <= #[trigger] idxs@[q] < n && cm[idxs@[q] as int].values.contains(v);
                            assert(q != p);
                        }
                    }
                }
            }
            p = p + 1;
        }
        proof {
            assert(elems_chirho(possible@) =~= element_possible_chirho(cm, n as int)) by {
                assert forall|v: i64| elems_chirho(possible@).contains(v) <==> element_possible_chirho(cm, n as int).contains(v) by {
                    if element_possible_chirho(cm, n as int).contains(v) {
                        let idx = choose|idx: i64| #![trigger cm[n as int].values.contains(idx)]
                            cm[n as int].values.contains(idx) && 0 <= idx < n && cm[idx as int].values.contains(v);
                        assert(elems_chirho(idxs@).contains(idx));
                        let q = choose|q: int| 0 <= q < idxs@.len() && idxs@[q] == idx;
                        assert(0 <= idxs@[q] < n && cm[idxs@[q] as int].values.contains(v));
                    }
                    if elems_chirho(possible@).contains(v) {
                        let q = choose|q: int| 0 <= q < idxs@.len() && 0 <= #[trigger] idxs@[q] < n && cm[idxs@[q] as int].values.contains(v);
                        assert(elems_chirho(idxs@).contains(idxs@[q]));
                        assert(cm[n as int].values.contains(idxs@[q]));
                    }
                }
            }
        }
        proof {
            lemma_elems_empty_chirho(possible@);
        }
        let ghost spec = element_spec_chirho(cm, n as int);
        assert(result_chirho@ == cm[n + 1]);
        let possible_len = possible.len();
        let result_domain_chirho = FiniteDomainChirho::from_sorted_vec_chirho(possible);
        let mut r_result = FiniteDomainChirho::bottom_chirho();
        if possible_len > 0 {
            let refined_result_chirho = result_chirho.join_chirho(&result_domain_chirho);
            if !refined_result_chirho.eq(result_chirho) {
                r_result = refined_result_chirho;
            }
        }
        assert(r_result@ == spec[n + 1]);
        // The index values that can still produce a value of the result.
        let mut valid: Vec<i64> = Vec::new();
        let mut p: usize = 0;
        while p < idxs.len()
            invariant
                0 <= p <= idxs@.len(),
                n + 2 <= cells_chirho@.len(),
                cm == models_chirho(cells_chirho@),
                result_chirho@ == cm[n + 1],
                strictly_increasing_chirho(idxs@),
                elems_chirho(idxs@) == cm[n as int].values,
                strictly_increasing_chirho(valid@),
                forall|idx: i64| elems_chirho(valid@).contains(idx) <==> exists|q: int| 0 <= q < p && #[trigger] idxs@[q] == idx
                    && element_valid_indices_chirho(cm, n as int).contains(idx),
            decreases idxs@.len() - p,
        {
            let idx = idxs[p];
            let ghost before = valid@;
            if let Some(pos) = position_chirho(idx, n) {
                let vals = cells_chirho[pos].iter_chirho();
                let mut q: usize = 0;
                let mut found = false;
                while q < vals.len()
                    invariant_except_break
                        !found,
                    invariant
                        0 <= q <= vals@.len(),
                        result_chirho@ == cm[n + 1],
                        pos < n,
                        n + 2 <= cells_chirho@.len(),
                        cm == models_chirho(cells_chirho@),
                        elems_chirho(vals@) == cm[pos as int].values,
                        forall|k: int| 0 <= k < q ==> !cm[n + 1].values.contains(#[trigger] vals@[k]),
                    ensures
                        found ==> exists|v: i64| cm[pos as int].values.contains(v) && cm[n + 1].values.contains(v),
                        !found ==> forall|k: int| 0 <= k < vals@.len() ==> !cm[n + 1].values.contains(#[trigger] vals@[k]),
                    decreases vals@.len() - q,
                {
                    if result_chirho.has_value_chirho(vals[q]) {
                        found = true;
                        proof {
                            assert(elems_chirho(vals@).contains(vals@[q as int]));
                            assert(cm[pos as int].values.contains(vals@[q as int]) && cm[n + 1].values.contains(vals@[q as int]));
                        }
                        break;
                    }
                    q = q + 1;
                }
                if found {
                    sorted_insert_chirho(&mut valid, idx);
                }
                proof {
                    if !found {
                        assert(!element_valid_indices_chirho(cm, n as int).contains(idx)) by {
                            if element_valid_indices_chirho(cm, n as int).contains(idx) {
                                let v = choose|v: i64| cm[idx as int].values.contains(v) && cm[n + 1].values.contains(v);
                                assert(elems_chirho(vals@).contains(v));
                                let k = choose|k: int| 0 <= k < vals@.len() && vals@[k] == v;
                            }
                        }
                    } else {
                        assert(elems_chirho(idxs@).contains(idx));
                    }
                    assert forall|i2: i64| elems_chirho(valid@).contains(i2) <==> exists|q: int| 0 <= q < p + 1 && #[trigger] idxs@[q] == i2
                        && element_valid_indices_chirho(cm, n as int).contains(i2) by {
                        if exists|q: int| 0 <= q < p + 1 && #[trigger] idxs@[q] == i2 && element_valid_indices_chirho(cm, n as int).contains(i2) {
                            let q = choose|q: int| 0 <= q < p + 1 && #[trigger] idxs@[q] == i2 && element_valid_indices_chirho(cm, n as int).contains(i2);
                            if q < p {
                                assert(elems_chirho(before).contains(i2));
                            }
                        }
                        if elems_chirho(before).contains(i2) {
                            let q = choose|q: int| 0 <= q < p && #[trigger] idxs@[q] == i2 && element_valid_indices_chirho(cm, n as int).contains(i2);
                        }
                    }
                }
            } else {
                proof {
                    assert(!element_valid_indices_chirho(cm, n as int).contains(idx));
                    assert forall|i2: i64| elems_chirho(valid@).contains(i2) <==> exists|q: int| 0 <= q < p + 1 && #[trigger] idxs@[q] == i2
                        && element_valid_indices_chirho(cm, n as int).contains(i2) by {
                        if exists|q: int| 0 <= q < p + 1 && #[trigger] idxs@[q] == i2 && element_valid_indices_chirho(cm, n as int).contains(i2) {
                            let q = choose|q: int| 0 <= q < p + 1 && #[trigger] idxs@[q] == i2 && element_valid_indices_chirho(cm, n as int).contains(i2);
                            assert(q != p);
                        }
                    }
                }
            }
            p = p + 1;
        }
        proof {
            assert(elems_chirho(valid@) =~= element_valid_indices_chirho(cm, n as int)) by {
                assert forall|idx: i64| elems_chirho(valid@).contains(idx) <==> element_valid_indices_chirho(cm, n as int).contains(idx) by {
                    if element_valid_indices_chirho(cm, n as int).contains(idx) {
                        assert(elems_chirho(idxs@).contains(idx));
                        let q = choose|q: int| 0 <= q < idxs@.len() && idxs@[q] == idx;
                    }
                }
            }
            lemma_elems_empty_chirho(valid@);
            crate::finite_domain_chirho::lemma_sorted_len_chirho(valid@);
        }
        let valid_len = valid.len();
        let mut r_index = FiniteDomainChirho::bottom_chirho();
        if valid_len > 0 && valid_len < index_chirho.size_chirho() {
            r_index = FiniteDomainChirho::from_sorted_vec_chirho(valid);
        }
        assert(r_index@ == spec[n as int]);
        let mut results_chirho = bottoms_vec_chirho(cells_chirho.len());
        assert(models_chirho(results_chirho@).len() == cells_chirho@.len());
        let ghost b0 = results_chirho@;
        results_chirho.set(n + 1, r_result);
        results_chirho.set(n, r_index);
        proof {
            assert(spec.len() == results_chirho@.len());
            assert forall|k: int| 0 <= k < spec.len() implies models_chirho(results_chirho@)[k] == spec[k] by {
                if k != n && k != n + 1 {
                    assert(results_chirho@[k] == b0[k]);
                    assert(models_chirho(b0)[k] == b0[k]@);
                }
            }
            assert(models_chirho(results_chirho@) =~= spec);
        }
        results_chirho
    }
}

/// A sequence is empty exactly when its set of elements is.
pub proof fn lemma_elems_empty_chirho(s: Seq<i64>)
    ensures
        (s.len() == 0) == elems_chirho(s).is_empty(),
{
    if s.len() > 0 {
        assert(elems_chirho(s).contains(s[0]));
    } else {
        assert(elems_chirho(s) =~= Set::empty());
    }
}

// ---------------------------------------------------------------------------
// Table
// ---------------------------------------------------------------------------

/// Table constraint: the tuple of cells must be one of the allowed tuples.
pub struct TableChirho {
    /// The allowed tuples.
    tuples_chirho: Vec<Vec<i64>>,
    /// The arity (number of variables).
    arity_chirho: usize,
}

/// Whether a tuple is still possible given the domains.
pub open spec fn table_tuple_ok_chirho(cells: Seq<DomainModelChirho>, t: Seq<i64>) -> bool {
    forall|k: int| 0 <= k < t.len() && k < cells.len() ==> #[trigger] cells[k].values.contains(t[k])
}

/// The values of position `i` among the tuples that are still possible.
pub open spec fn table_column_chirho(cells: Seq<DomainModelChirho>, tuples: Seq<Seq<i64>>, i: int) -> Set<i64> {
    Set::new(|v: i64| exists|j: int| 0 <= j < tuples.len() && table_tuple_ok_chirho(cells, #[trigger] tuples[j]) && tuples[j][i] == v)
}

/// What the table constraint hands back: each of the first `arity` cells
/// narrowed to its column of possible tuples (only when that changes it), or
/// the empty domain when no tuple is possible.
pub open spec fn table_spec_chirho(cells: Seq<DomainModelChirho>, tuples: Seq<Seq<i64>>, arity: int) -> Seq<DomainModelChirho> {
    Seq::new(cells.len(), |i: int|
        if i < arity {
            let col = table_column_chirho(cells, tuples, i);
            let refined = model_join_chirho(cells[i], model_from_set_chirho(col));
            if col.is_empty() {
                crate::finite_domain_chirho::model_empty_chirho()
            } else if refined != cells[i] {
                refined
            } else {
                model_bottom_chirho()
            }
        } else {
            model_bottom_chirho()
        })
}

impl TableChirho {
    #[verifier::type_invariant]
    spec fn inv_chirho(self) -> bool {
        &&& forall|j: int| 0 <= j < self.tuples_chirho@.len() ==> (#[trigger] self.tuples_chirho@[j])@.len() == self.arity_chirho
        &&& self.tuples_chirho@.len() == 0 ==> self.arity_chirho == 0
    }

    /// The allowed tuples.
    pub closed spec fn tuples_spec_chirho(&self) -> Seq<Seq<i64>> {
        self.tuples_chirho@.map_values(|t: Vec<i64>| t@)
    }

    /// The arity.
    pub closed spec fn arity_spec_chirho(&self) -> int {
        self.arity_chirho as int
    }

    /// Creates a table constraint with the given allowed tuples; the arity
    /// is the length of the first tuple (0 when there is none), and all
    /// tuples must have that length.
    pub fn new_chirho(tuples_chirho: Vec<Vec<i64>>) -> (r: Self)
        requires
            forall|j: int| 0 <= j < tuples_chirho@.len() ==> (#[trigger] tuples_chirho@[j])@.len() == tuples_chirho@[0]@.len(),
        ensures
            r.tuples_spec_chirho() == tuples_chirho@.map_values(|t: Vec<i64>| t@),
            r.arity_spec_chirho() == if tuples_chirho@.len() == 0 { 0 } else { tuples_chirho@[0]@.len() as int },
    {
        let arity_chirho = if tuples_chirho.len() == 0 { 0 } else { tuples_chirho[0].len() };
        TableChirho { tuples_chirho, arity_chirho }
    }
}

impl PropagatorFnChirho<FiniteDomainChirho> for TableChirho {
    open spec fn spec_arity_chirho(&self) -> int {
        self.arity_spec_chirho()
    }

    open spec fn spec_outputs_chirho(&self, cells: Seq<DomainModelChirho>, out: Seq<DomainModelChirho>) -> bool {
        out == table_spec_chirho(cells, self.tuples_spec_chirho(), self.arity_spec_chirho())
    }

    fn arity_chirho(&self) -> (r: usize) {
        self.arity_chirho
    }

    fn propagate_chirho(&self, cells_chirho: &[FiniteDomainChirho]) -> (r: Vec<FiniteDomainChirho>) {
        proof { use_type_invariant(self); }
        let ghost cm = models_chirho(cells_chirho@);
        let ghost tv = self.tuples_spec_chirho();
        let ghost spec = table_spec_chirho(cm, tv, self.arity_chirho as int);
        let n = cells_chirho.len();
        let arity = self.arity_chirho;
        // The tuples that are still possible, by position.
        let mut valid: Vec<usize> = Vec::new();
        let mut j: usize = 0;
        while j < self.tuples_chirho.len()
            invariant
                0 <= j <= self.tuples_chirho@.len(),
                n == cells_chirho@.len(),
                tv == self.tuples_spec_chirho(),
                cm == models_chirho(cells_chirho@),
                forall|q: int| 0 <= q < valid@.len() ==> #[trigger] valid@[q] < j && table_tuple_ok_chirho(cm, tv[valid@[q] as int]),
                forall|q: int| 0 <= q < j && table_tuple_ok_chirho(cm, #[trigger] tv[q]) ==> exists|w: int| 0 <= w < valid@.len() && valid@[w] == q,
            decreases self.tuples_chirho@.len() - j,
        {
            let t = &self.tuples_chirho[j];
            assert(t@ == tv[j as int]);
            let mut k: usize = 0;
            let mut ok = true;
            while k < t.len() && k < n
                invariant
                    0 <= k <= t@.len(),
                    k <= n,
                    n == cells_chirho@.len(),
                    cm == models_chirho(cells_chirho@),
                    ok == forall|m: int| 0 <= m < k ==> #[trigger] cm[m].values.contains(t@[m]),
                decreases t@.len() - k,
            {
                assert(cm[k as int] == cells_chirho@[k as int]@);
                if !cells_chirho[k].has_value_chirho(t[k]) {
                    ok = false;
                }
                k = k + 1;
            }
            proof {
                assert(ok == table_tuple_ok_chirho(cm, tv[j as int]));
            }
            let ghost before = valid@;
            if ok {
                valid.push(j);
                proof {
                    assert forall|q: int| 0 <= q < j + 1 && table_tuple_ok_chirho(cm, #[trigger] tv[q]) implies exists|w: int| 0 <= w < valid@.len() && valid@[w] == q by {
                        if q < j {
                            let w = choose|w: int| 0 <= w < before.len() && before[w] == q;
                            assert(valid@[w] == q);
                        } else {
                            assert(valid@[valid@.len() - 1] == q);
                        }
                    }
                }
            }
            j = j + 1;
        }
        let mut results_chirho: Vec<FiniteDomainChirho> = Vec::new();
        let mut i: usize = 0;
        while i < n
            invariant
                0 <= i <= n,
                n == cells_chirho@.len(),
                arity == self.arity_chirho,
                tv == self.tuples_spec_chirho(),
                cm == models_chirho(cells_chirho@),
                spec == table_spec_chirho(cm, tv, arity as int),
                forall|j: int| 0 <= j < self.tuples_chirho@.len() ==> (#[trigger] self.tuples_chirho@[j])@.len() == arity,
                forall|q: int| 0 <= q < valid@.len() ==> #[trigger] valid@[q] < self.tuples_chirho@.len() && table_tuple_ok_chirho(cm, tv[valid@[q] as int]),
                forall|q: int| 0 <= q < self.tuples_chirho@.len() && table_tuple_ok_chirho(cm, #[trigger] tv[q]) ==> exists|w: int| 0 <= w < valid@.len() && valid@[w] == q,
                results_chirho@.len() == i,
                forall|m: int| 0 <= m < i ==> (#[trigger] results_chirho@[m])@ == spec[m],
            decreases n - i,
        {
            if i < arity {
                // The values of column `i` among the possible tuples.
                let mut col: Vec<i64> = Vec::new();
                let mut q: usize = 0;
                while q < valid.len()
                    invariant
                        0 <= q <= valid@.len(),
                        i < arity,
                        tv == self.tuples_spec_chirho(),
                        forall|j: int| 0 <= j < self.tuples_chirho@.len() ==> (#[trigger] self.tuples_chirho@[j])@.len() == arity,
                        forall|w: int| 0 <= w < valid@.len() ==> #[trigger] valid@[w] < self.tuples_chirho@.len(),
                        strictly_increasing_chirho(col@),
                        forall|v: i64| elems_chirho(col@).contains(v) <==> exists|w: int| 0 <= w < q && tv[#[trigger] valid@[w] as int][i as int] == v,
                    decreases valid@.len() - q,
                {
                    let t = &self.tuples_chirho[valid[q]];
                    assert(t@ == tv[valid@[q as int] as int]);
                    let ghost before = col@;
                    sorted_insert_chirho(&mut col, t[i]);
                    proof {
                        assert forall|v: i64| elems_chirho(col@).contains(v) <==> exists|w: int| 0 <= w < q + 1 && tv[#[trigger] valid@[w] as int][i as int] == v by {
                            if elems_chirho(before).contains(v) {
                                let w = choose|w: int| 0 <= w < q && tv[#[trigger] valid@[w] as int][i as int] == v;
                            }
                            if exists|w: int| 0 <= w < q + 1 && tv[#[trigger] valid@[w] as int][i as int] == v {
                                let w = choose|w: int| 0 <= w < q + 1 && tv[#[trigger] valid@[w] as int][i as int] == v;
                                if w < q {
                                    assert(elems_chirho(before).contains(v));
                                }
                            }
                        }
                    }
                    q = q + 1;
                }
                proof {
                    assert(elems_chirho(col@) =~= table_column_chirho(cm, tv, i as int)) by {
                        assert forall|v: i64| elems_chirho(col@).contains(v) <==> table_column_chirho(cm, tv, i as int).contains(v) by {
                            if elems_chirho(col@).contains(v) {
                                let w = choose|w: int| 0 <= w < valid@.len() && tv[#[trigger] valid@[w] as int][i as int] == v;
                                assert(table_tuple_ok_chirho(cm, tv[valid@[w] as int]));
                            }
                            if table_column_chirho(cm, tv, i as int).contains(v) {
                                let jj = choose|jj: int| 0 <= jj < tv.len() && table_tuple_ok_chirho(cm, #[trigger] tv[jj]) && tv[jj][i as int] == v;
                                let w = choose|w: int| 0 <= w < valid@.len() && valid@[w] == jj;
                                assert(tv[valid@[w] as int][i as int] == v);
                            }
                        }
                    }
                    lemma_elems_empty_chirho(col@);
                }
                let col_len = col.len();
                let domain_chirho = FiniteDomainChirho::from_sorted_vec_chirho(col);
                if col_len > 0 {
                    let refined_chirho = cells_chirho[i].join_chirho(&domain_chirho);
                    if !refined_chirho.eq(&cells_chirho[i]) {
                        results_chirho.push(refined_chirho);
                    } else {
                        results_chirho.push(FiniteDomainChirho::bottom_chirho());
                    }
                } else {
                    results_chirho.push(FiniteDomainChirho::top_chirho());
                }
            } else {
                results_chirho.push(FiniteDomainChirho::bottom_chirho());
            }
            i = i + 1;
        }
        proof {
            assert(models_chirho(results_chirho@) =~= spec);
        }
        results_chirho
    }
}

// ---------------------------------------------------------------------------
// Circuit
// ---------------------------------------------------------------------------

/// Circuit constraint: cell `i` is the successor of node `i`, and the
/// successors form a single cycle through all nodes.
///
/// Propagation removes self-loops and, as for all-different, removes a
/// fixed successor from every other node.
pub struct CircuitChirho {
    /// Number of nodes in the circuit.
    num_nodes_chirho: usize,
}

/// First round: no node is its own successor.
pub open spec fn circuit_first_chirho(cells: Seq<DomainModelChirho>, n: int) -> Seq<DomainModelChirho> {
    Seq::new(cells.len(), |i: int|
        if i < n && cells[i].values.contains(i as i64) { model_remove_chirho(cells[i], i as i64) } else { model_bottom_chirho() })
}

/// Second round, for node `i`: a fixed successor is removed from every other
/// node, on top of what was already proposed for it.
pub open spec fn circuit_step_chirho(cells: Seq<DomainModelChirho>, res: Seq<DomainModelChirho>, i: int, n: int) -> Seq<DomainModelChirho> {
    Seq::new(res.len(), |j: int|
        match model_singleton_chirho(cells[i]) {
            Some(succ) => if j < n && i != j && cells[j].values.contains(succ) {
                model_remove_chirho(if crate::finite_domain_chirho::model_is_bottom_chirho(res[j]) { cells[j] } else { res[j] }, succ)
            } else {
                res[j]
            },
            None => res[j],
        })
}

/// The circuit refinements after the fixed successors of the first `k` nodes have been handled.
pub open spec fn circuit_upto_chirho(cells: Seq<DomainModelChirho>, n: int, k: nat) -> Seq<DomainModelChirho>
    decreases k,
{
    if k == 0 {
        circuit_first_chirho(cells, n)
    } else {
        circuit_step_chirho(cells, circuit_upto_chirho(cells, n, (k - 1) as nat), k - 1, n)
    }
}

/// Whether following fixed successors from `current`, having visited the
/// nodes of `path`, comes back to a visited node before all `n` nodes are
/// visited. A successor outside the nodes, or a node whose successor is not
/// fixed, ends the walk without a cycle.
pub open spec fn closes_from_chirho(cells: Seq<DomainModelChirho>, n: int, path: Seq<int>, current: i64) -> bool
    decreases n - path.len(),
{
    if !(0 <= current < n) {
        false
    } else if path.contains(current as int) {
        path.len() < n
    } else if path.len() >= n {
        false
    } else {
        match model_singleton_chirho(cells[current as int]) {
            Some(next) => closes_from_chirho(cells, n, path.push(current as int), next),
            None => false,
        }
    }
}

/// Whether the walk from node `s` closes a cycle shorter than the circuit.
pub open spec fn starts_subcircuit_chirho(cells: Seq<DomainModelChirho>, n: int, s: int) -> bool {
    match model_singleton_chirho(cells[s]) {
        Some(first) => closes_from_chirho(cells, n, seq![s], first),
        None => false,
    }
}

/// How many of the first `k` nodes start a walk that closes a cycle shorter
/// than the circuit.
pub open spec fn subcircuit_count_chirho(cells: Seq<DomainModelChirho>, n: int, k: nat) -> nat
    decreases k,
{
    if k == 0 {
        0
    } else {
        subcircuit_count_chirho(cells, n, (k - 1) as nat) + if starts_subcircuit_chirho(cells, n, k - 1) { 1nat } else { 0nat }
    }
}

impl CircuitChirho {
    #[verifier::type_invariant]
    spec fn inv_chirho(self) -> bool {
        self.num_nodes_chirho <= i64::MAX
    }

    /// The number of nodes.
    pub closed spec fn num_nodes_spec_chirho(&self) -> int {
        self.num_nodes_chirho as int
    }

    /// Creates a circuit constraint over `n` nodes.
    pub fn new_chirho(num_nodes_chirho: usize) -> (r: Self)
        requires
            num_nodes_chirho <= i64::MAX,
        ensures
            r.num_nodes_spec_chirho() == num_nodes_chirho,
    {
        CircuitChirho { num_nodes_chirho }
    }

    /// Follows fixed successors from each node until a node repeats or a
    /// successor is not fixed; returns how many chains close a cycle
    /// shorter than the whole circuit.
    fn count_subcircuits_chirho(&self, cells_chirho: &[FiniteDomainChirho]) -> (r: usize)
        requires
            cells_chirho@.len() >= self.num_nodes_chirho,
        ensures
            r == subcircuit_count_chirho(models_chirho(cells_chirho@), self.num_nodes_chirho as int, self.num_nodes_chirho as nat),
    {
        let n = self.num_nodes_chirho;
        let ghost cm = models_chirho(cells_chirho@);
        let mut found: usize = 0;
        let mut start: usize = 0;
        while start < n
            invariant
                0 <= start <= n,
                n == self.num_nodes_chirho,
                n <= cells_chirho@.len(),
                cm == models_chirho(cells_chirho@),
                found <= start,
                found == subcircuit_count_chirho(cm, n as int, start as nat),
            decreases n - start,
        {
            let ghost closes = starts_subcircuit_chirho(cm, n as int, start as int);
            if let Some(first) = cells_chirho[start].get_singleton_chirho() {
                assert(model_singleton_chirho(cm[start as int]) == Some(first));
                let mut visited: Vec<bool> = Vec::new();
                let mut k: usize = 0;
                while k < n
                    invariant
                        0 <= k <= n,
                        visited@.len() == k,
                        forall|m: int| 0 <= m < k ==> !(#[trigger] visited@[m]),
                    decreases n - k,
                {
                    visited.push(false);
                    k = k + 1;
                }
                visited.set(start, true);
                let mut seen: usize = 1;
                let mut current = first;
                let mut closed = false;
                let ghost mut path: Seq<int> = seq![start as int];
                assert(closes == closes_from_chirho(cm, n as int, path, current));
                assert forall|m: int| 0 <= m < n implies (#[trigger] visited@[m] <==> path.contains(m)) by {
                    if m == start {
                        assert(path[0] == m);
                    }
                }
                loop
                    invariant_except_break
                        n <= cells_chirho@.len(),
                        cm == models_chirho(cells_chirho@),
                        visited@.len() == n,
                        1 <= seen <= n,
                        path.len() == seen,
                        forall|m: int| 0 <= m < path.len() ==> 0 <= #[trigger] path[m] < n,
                        forall|m: int| 0 <= m < n ==> (#[trigger] visited@[m] <==> path.contains(m)),
                        closes == closes_from_chirho(cm, n as int, path, current),
                        !closed,
                    ensures
                        closed == closes,
                    decreases n - seen,
                {
                    let pos = match position_chirho(current, n) {
                        Some(p) => p,
                        None => break,
                    };
                    if visited[pos] {
                        closed = seen < n;
                        break;
                    }
                    if seen >= n {
                        break;
                    }
                    visited.set(pos, true);
                    seen = seen + 1;
                    proof {
                        let old_path = path;
                        path = path.push(pos as int);
                        assert forall|m: int| 0 <= m < n implies (#[trigger] visited@[m] <==> path.contains(m)) by {
                            if m == pos {
                                assert(path[old_path.len() as int] == m);
                            } else if old_path.contains(m) {
                                let j = choose|j: int| 0 <= j < old_path.len() && old_path[j] == m;
                                assert(path[j] == m);
                            } else if path.contains(m) {
                                let j = choose|j: int| 0 <= j < path.len() && path[j] == m;
                                if j < old_path.len() {
                                    assert(old_path[j] == m);
                                }
                            }
                        }
                    }
                    match cells_chirho[pos].get_singleton_chirho() {
                        Some(next) => {
                            current = next;
                        },
                        None => {
                            break;
                        },
                    }
                }
                if closed {
                    found = found + 1;
                }
            }
            start = start + 1;
        }
        found
    }
}

impl PropagatorFnChirho<FiniteDomainChirho> for CircuitChirho {
    open spec fn spec_arity_chirho(&self) -> int {
        self.num_nodes_spec_chirho()
    }

    open spec fn spec_outputs_chirho(&self, cells: Seq<DomainModelChirho>, out: Seq<DomainModelChirho>) -> bool {
        let n = self.num_nodes_spec_chirho();
        out == circuit_upto_chirho(cells, n, n as nat)
    }

    fn arity_chirho(&self) -> (r: usize) {
        self.num_nodes_chirho
    }

    fn propagate_chirho(&self, cells_chirho: &[FiniteDomainChirho]) -> (r: Vec<FiniteDomainChirho>) {
        proof { use_type_invariant(self); }
        let n = self.num_nodes_chirho;
        let len = cells_chirho.len();
        let ghost cm = models_chirho(cells_chirho@);
        // No self-loops.
        let mut results_chirho: Vec<FiniteDomainChirho> = Vec::new();
        let mut i: usize = 0;
        while i < len
            invariant
                0 <= i <= len,
                len == cells_chirho@.len(),
                n <= len,
                n <= i64::MAX,
                cm == models_chirho(cells_chirho@),
                results_chirho@.len() == i,
                forall|m: int| 0 <= m < i ==> (#[trigger] results_chirho@[m])@ == circuit_first_chirho(cm, n as int)[m],
            decreases len - i,
        {
            if i < n && cells_chirho[i].has_value_chirho(i as i64) {
                results_chirho.push(cells_chirho[i].remove_chirho(i as i64));
            } else {
                results_chirho.push(FiniteDomainChirho::bottom_chirho());
            }
            i = i + 1;
        }
        proof {
            assert(models_chirho(results_chirho@) =~= circuit_upto_chirho(cm, n as int, 0));
        }
        // A fixed successor is taken from every other node.
        let mut i: usize = 0;
        while i < n
            invariant
                0 <= i <= n,
                len == cells_chirho@.len(),
                n <= len,
                cm == models_chirho(cells_chirho@),
                results_chirho@.len() == len,
                models_chirho(results_chirho@) == circuit_upto_chirho(cm, n as int, i as nat),
            decreases n - i,
        {
            let ghost before = models_chirho(results_chirho@);
            if let Some(succ_chirho) = cells_chirho[i].get_singleton_chirho() {
                let mut j: usize = 0;
                while j < len
                    invariant
                        0 <= i < n,
                        0 <= j <= len,
                        len == cells_chirho@.len(),
                        n <= len,
                        cm == models_chirho(cells_chirho@),
                        model_singleton_chirho(cm[i as int]) == Some(succ_chirho),
                        before.len() == len,
                        results_chirho@.len() == len,
                        forall|k: int| 0 <= k < j ==> (#[trigger] results_chirho@[k])@ == circuit_step_chirho(cm, before, i as int, n as int)[k],
                        forall|k: int| j <= k < len ==> (#[trigger] results_chirho@[k])@ == before[k],
                    decreases len - j,
                {
                    if j < n && i != j && cells_chirho[j].has_value_chirho(succ_chirho) {
                        let d = if results_chirho[j].is_bottom_chirho() {
                            cells_chirho[j].remove_chirho(succ_chirho)
                        } else {
                            results_chirho[j].remove_chirho(succ_chirho)
                        };
                        results_chirho.set(j, d);
                    }
                    j = j + 1;
                }
            }
            proof {
                assert(models_chirho(results_chirho@) =~= circuit_step_chirho(cm, before, i as int, n as int));
            }
            i = i + 1;
        }
        // Subcircuits are only detected here; the search backtracks on them.
        let _subcircuits = self.count_subcircuits_chirho(cells_chirho);
        results_chirho
    }
}

// ---------------------------------------------------------------------------
// Cumulative
// ---------------------------------------------------------------------------

/// Cumulative constraint for resource scheduling.
///
/// Cells are `[start_0..start_{n-1}, dur_0..dur_{n-1}, res_0..res_{n-1}, capacity]`.
/// Time-table filtering: at each time point, a task that may run there but
/// would exceed the capacity together with the tasks that must run there
/// loses the start times that would make it run at that point.
pub struct CumulativeChirho {
    /// Number of tasks.
    num_tasks_chirho: usize,
}

/// The least value of a domain, or `default` for an empty one.
pub open spec fn min_or_chirho(m: DomainModelChirho, default: int) -> int {
    if m.values.is_empty() { default } else { set_min_chirho(m.values) as int }
}

/// The greatest value of a domain, or `default` for an empty one.
pub open spec fn max_or_chirho(m: DomainModelChirho, default: int) -> int {
    if m.values.is_empty() { default } else { set_max_chirho(m.values) as int }
}

/// The earliest possible start among the first `k` tasks that have one.
pub open spec fn cumulative_min_start_chirho(cells: Seq<DomainModelChirho>, k: nat) -> Option<int>
    decreases k,
{
    if k == 0 {
        None
    } else {
        let prev = cumulative_min_start_chirho(cells, (k - 1) as nat);
        if cells[k - 1].values.is_empty() {
            prev
        } else {
            let m = set_min_chirho(cells[k - 1].values) as int;
            match prev {
                Some(p) => Some(if p <= m { p } else { m }),
                None => Some(m),
            }
        }
    }
}

/// The latest possible end (latest start plus longest duration) among the
/// first `k` tasks whose start and duration are both non-empty.
pub open spec fn cumulative_max_end_chirho(cells: Seq<DomainModelChirho>, n: int, k: nat) -> Option<int>
    decreases k,
{
    if k == 0 {
        None
    } else {
        let prev = cumulative_max_end_chirho(cells, n, (k - 1) as nat);
        let s = cells[k - 1];
        let d = cells[n + k - 1];
        if s.values.is_empty() || d.values.is_empty() {
            prev
        } else {
            let e = set_max_chirho(s.values) + set_max_chirho(d.values);
            match prev {
                Some(p) => Some(if p >= e { p } else { e }),
                None => Some(e),
            }
        }
    }
}

/// Whether task `i` must run at time `t`.
pub open spec fn cumulative_must_chirho(cells: Seq<DomainModelChirho>, n: int, i: int, t: int) -> bool {
    max_or_chirho(cells[i], 0) <= t && t < min_or_chirho(cells[i], 0) + min_or_chirho(cells[n + i], 0)
}

/// Whether task `i` may (but need not) run at time `t`.
pub open spec fn cumulative_may_chirho(cells: Seq<DomainModelChirho>, n: int, i: int, t: int) -> bool {
    !cumulative_must_chirho(cells, n, i, t)
        && min_or_chirho(cells[i], 0) <= t && t < max_or_chirho(cells[i], 0) + min_or_chirho(cells[n + i], 0)
}

/// The resources used at time `t` by those of the first `k` tasks that must run then.
pub open spec fn cumulative_usage_chirho(cells: Seq<DomainModelChirho>, n: int, t: int, k: nat) -> int
    decreases k,
{
    if k == 0 {
        0
    } else {
        cumulative_usage_chirho(cells, n, t, (k - 1) as nat)
            + if cumulative_must_chirho(cells, n, k - 1, t) { min_or_chirho(cells[2 * n + k - 1], 0) } else { 0 }
    }
}

/// Task `i` at time `t`: if it may run then but would overflow the
/// capacity, drop the starts that would make it run at `t`.
pub open spec fn cumulative_task_step_chirho(cells: Seq<DomainModelChirho>, n: int, res: Seq<DomainModelChirho>, t: int, i: int) -> Seq<DomainModelChirho> {
    let cap = min_or_chirho(cells[3 * n], i64::MAX as int);
    let r = min_or_chirho(cells[2 * n + i], 0);
    if cumulative_may_chirho(cells, n, i, t) && cumulative_usage_chirho(cells, n, t, n as nat) + r > cap {
        let d = min_or_chirho(cells[n + i], 1);
        let kept = cells[i].values.filter(|s: i64| s < t - d + 1 || s > t);
        if kept.len() < cells[i].values.len() {
            let nd = model_from_set_chirho(kept);
            res.update(i, if crate::finite_domain_chirho::model_is_bottom_chirho(res[i]) { nd } else { model_join_chirho(res[i], nd) })
        } else {
            res
        }
    } else {
        res
    }
}

/// Time `t` after the first `k` tasks have been looked at.
pub open spec fn cumulative_at_chirho(cells: Seq<DomainModelChirho>, n: int, res: Seq<DomainModelChirho>, t: int, k: nat) -> Seq<DomainModelChirho>
    decreases k,
{
    if k == 0 {
        res
    } else {
        cumulative_task_step_chirho(cells, n, cumulative_at_chirho(cells, n, res, t, (k - 1) as nat), t, k - 1)
    }
}

/// All time points from `t` up to (excluding) `end`.
pub open spec fn cumulative_from_chirho(cells: Seq<DomainModelChirho>, n: int, res: Seq<DomainModelChirho>, t: int, end: int) -> Seq<DomainModelChirho>
    decreases end - t,
{
    if t >= end {
        res
    } else {
        cumulative_from_chirho(cells, n, cumulative_at_chirho(cells, n, res, t, n as nat), t + 1, end)
    }
}

/// What the cumulative constraint hands back.
pub open spec fn cumulative_spec_chirho(cells: Seq<DomainModelChirho>, n: int) -> Seq<DomainModelChirho> {
    cumulative_from_chirho(cells, n, bottoms_chirho(cells.len()), cumulative_start_chirho(cells, n), cumulative_end_chirho(cells, n))
}

/// The first time point looked at: the earliest possible start, or 0.
pub open spec fn cumulative_start_chirho(cells: Seq<DomainModelChirho>, n: int) -> int {
    match cumulative_min_start_chirho(cells, n as nat) {
        Some(m) => m,
        None => 0,
    }
}

/// Where the time points looked at end: the latest possible end, or 100.
pub open spec fn cumulative_end_chirho(cells: Seq<DomainModelChirho>, n: int) -> int {
    match cumulative_max_end_chirho(cells, n, n as nat) {
        Some(m) => m,
        None => 100,
    }
}

/// Whether running task `i` at time `t` would overflow the capacity: it
/// may run then, and its demand on top of what must run then is more than
/// the capacity.
pub open spec fn cumulative_overflow_chirho(cells: Seq<DomainModelChirho>, n: int, i: int, t: int) -> bool {
    &&& cumulative_may_chirho(cells, n, i, t)
    &&& cumulative_usage_chirho(cells, n, t, n as nat) + min_or_chirho(cells[2 * n + i], 0) > min_or_chirho(
        cells[3 * n],
        i64::MAX as int,
    )
}

/// Whether start `s` of task `i` is ruled out by an overflow at some time
/// from `from` up to (excluding) `to` that the task would cover from `s`.
pub open spec fn cumulative_justified_chirho(cells: Seq<DomainModelChirho>, n: int, i: int, s: i64, from: int, to: int) -> bool {
    exists|u: int|
        from <= u < to && #[trigger] cumulative_overflow_chirho(cells, n, i, u) && u - min_or_chirho(cells[n + i], 1) + 1 <= s <= u
}

/// Whether `res` only narrows the starts of the tasks, each start it drops
/// being ruled out by an overflow from `from` up to `to`, and leaves every
/// other cell without new information.
pub open spec fn cumulative_narrows_chirho(cells: Seq<DomainModelChirho>, n: int, res: Seq<DomainModelChirho>, from: int, to: int) -> bool {
    &&& res.len() == cells.len()
    &&& forall|j: int| n <= j < res.len() ==> #[trigger] crate::finite_domain_chirho::model_is_bottom_chirho(res[j])
    &&& forall|i: int|
        0 <= i < n ==> #[trigger] crate::finite_domain_chirho::model_is_bottom_chirho(res[i]) || {
            &&& res[i].values.subset_of(cells[i].values)
            &&& forall|s: i64| cells[i].values.contains(s) && !res[i].values.contains(s) ==> #[trigger] cumulative_justified_chirho(
                cells,
                n,
                i,
                s,
                from,
                to,
            )
        }
}

/// Looking at more time keeps a narrowing justified.
proof fn lemma_cumulative_widen_chirho(cells: Seq<DomainModelChirho>, n: int, res: Seq<DomainModelChirho>, from: int, to: int, to2: int)
    requires
        cumulative_narrows_chirho(cells, n, res, from, to),
        to <= to2,
    ensures
        cumulative_narrows_chirho(cells, n, res, from, to2),
{
    assert forall|i: int| 0 <= i < n && !crate::finite_domain_chirho::model_is_bottom_chirho(#[trigger] res[i])
        implies forall|s: i64| cells[i].values.contains(s) && !res[i].values.contains(s) ==> #[trigger] cumulative_justified_chirho(
            cells, n, i, s, from, to2) by {
        assert forall|s: i64| cells[i].values.contains(s) && !res[i].values.contains(s) implies #[trigger] cumulative_justified_chirho(
            cells, n, i, s, from, to2) by {
            assert(cumulative_justified_chirho(cells, n, i, s, from, to));
            let u = choose|u: int|
                from <= u < to && #[trigger] cumulative_overflow_chirho(cells, n, i, u) && u - min_or_chirho(cells[n + i], 1) + 1 <= s <= u;
            assert(cumulative_overflow_chirho(cells, n, i, u));
        }
    }
}

/// One task looked at, at time `t`, keeps the narrowing justified up to `t + 1`.
proof fn lemma_cumulative_task_step_chirho(cells: Seq<DomainModelChirho>, n: int, res: Seq<DomainModelChirho>, from: int, t: int, i: int)
    requires
        cumulative_narrows_chirho(cells, n, res, from, t + 1),
        from <= t,
        0 <= i < n,
        cells.len() == 3 * n + 1,
    ensures
        cumulative_narrows_chirho(cells, n, cumulative_task_step_chirho(cells, n, res, t, i), from, t + 1),
{
    let cap = min_or_chirho(cells[3 * n], i64::MAX as int);
    let r = min_or_chirho(cells[2 * n + i], 0);
    if cumulative_may_chirho(cells, n, i, t) && cumulative_usage_chirho(cells, n, t, n as nat) + r > cap {
        let d = min_or_chirho(cells[n + i], 1);
        let kept = cells[i].values.filter(|s: i64| s < t - d + 1 || s > t);
        if kept.len() < cells[i].values.len() {
            let nd = model_from_set_chirho(kept);
            let res2 = cumulative_task_step_chirho(cells, n, res, t, i);
            assert(cumulative_overflow_chirho(cells, n, i, t));
            assert(kept.subset_of(cells[i].values));
            if !crate::finite_domain_chirho::model_is_bottom_chirho(res2[i]) {
                assert forall|s: i64| cells[i].values.contains(s) && !res2[i].values.contains(s) implies #[trigger] cumulative_justified_chirho(
                    cells, n, i, s, from, t + 1) by {
                    if !kept.contains(s) {
                        assert(t - d + 1 <= s <= t);
                        assert(cumulative_overflow_chirho(cells, n, i, t));
                    } else {
                        assert(!crate::finite_domain_chirho::model_is_bottom_chirho(res[i]));
                        assert(!res[i].values.contains(s));
                    }
                }
                assert(res2[i].values.subset_of(cells[i].values));
            }
            assert forall|j: int| 0 <= j < n && j != i && !crate::finite_domain_chirho::model_is_bottom_chirho(#[trigger] res2[j])
                implies forall|s: i64| cells[j].values.contains(s) && !res2[j].values.contains(s) ==> #[trigger] cumulative_justified_chirho(
                    cells, n, j, s, from, t + 1) by {
                assert(res2[j] == res[j]);
            }
        }
    }
}

/// All tasks looked at, at time `t`.
proof fn lemma_cumulative_at_chirho(cells: Seq<DomainModelChirho>, n: int, res: Seq<DomainModelChirho>, from: int, t: int, k: nat)
    requires
        cumulative_narrows_chirho(cells, n, res, from, t + 1),
        from <= t,
        k <= n,
        cells.len() == 3 * n + 1,
    ensures
        cumulative_narrows_chirho(cells, n, cumulative_at_chirho(cells, n, res, t, k), from, t + 1),
    decreases k,
{
    if k > 0 {
        lemma_cumulative_at_chirho(cells, n, res, from, t, (k - 1) as nat);
        lemma_cumulative_task_step_chirho(cells, n, cumulative_at_chirho(cells, n, res, t, (k - 1) as nat), from, t, k - 1);
    }
}

/// All time points from `t` to `end`.
proof fn lemma_cumulative_from_chirho(cells: Seq<DomainModelChirho>, n: int, res: Seq<DomainModelChirho>, from: int, t: int, end: int)
    requires
        cumulative_narrows_chirho(cells, n, res, from, t),
        from <= t,
        0 <= n,
        cells.len() == 3 * n + 1,
    ensures
        cumulative_narrows_chirho(cells, n, cumulative_from_chirho(cells, n, res, t, end), from, if t <= end { end } else { t }),
    decreases end - t,
{
    if t < end {
        lemma_cumulative_widen_chirho(cells, n, res, from, t, t + 1);
        lemma_cumulative_at_chirho(cells, n, res, from, t, n as nat);
        lemma_cumulative_from_chirho(cells, n, cumulative_at_chirho(cells, n, res, t, n as nat), from, t + 1, end);
    }
}

/// What the cumulative constraint hands back only narrows the starts of the
/// tasks: every start it drops for a task would make that task run at a
/// time where it may run and its demand, on top of what must run then,
/// overflows the capacity. It gives no new information on durations,
/// demands or capacity.
pub proof fn law_cumulative_narrows_chirho(cells: Seq<DomainModelChirho>, n: int)
    requires
        0 <= n,
        cells.len() == 3 * n + 1,
    ensures
        cumulative_narrows_chirho(
            cells,
            n,
            cumulative_spec_chirho(cells, n),
            cumulative_start_chirho(cells, n),
            if cumulative_start_chirho(cells, n) <= cumulative_end_chirho(cells, n) {
                cumulative_end_chirho(cells, n)
            } else {
                cumulative_start_chirho(cells, n)
            },
        ),
{
    let start = cumulative_start_chirho(cells, n);
    let b = bottoms_chirho(cells.len());
    assert(cumulative_narrows_chirho(cells, n, b, start, start));
    lemma_cumulative_from_chirho(cells, n, b, start, start, cumulative_end_chirho(cells, n));
}

/// The least value of a domain, or `default`.
fn min_or_exec_chirho(d: &FiniteDomainChirho, default: i64) -> (r: i64)
    ensures
        r == min_or_chirho(d@, default as int),
{
    match d.min_value_chirho() {
        Some(v) => v,
        None => default,
    }
}

/// The greatest value of a domain, or `default`.
fn max_or_exec_chirho(d: &FiniteDomainChirho, default: i64) -> (r: i64)
    ensures
        r == max_or_chirho(d@, default as int),
{
    match d.max_value_chirho() {
        Some(v) => v,
        None => default,
    }
}

impl CumulativeChirho {
    #[verifier::type_invariant]
    spec fn inv_chirho(self) -> bool {
        3 * self.num_tasks_chirho + 1 <= usize::MAX
    }

    /// The number of tasks.
    pub closed spec fn num_tasks_spec_chirho(&self) -> int {
        self.num_tasks_chirho as int
    }

    /// Creates a cumulative constraint for `n` tasks (arity `3n + 1`).
    pub fn new_chirho(num_tasks_chirho: usize) -> (r: Self)
        requires
            3 * num_tasks_chirho + 1 <= usize::MAX,
        ensures
            r.num_tasks_spec_chirho() == num_tasks_chirho,
    {
        CumulativeChirho { num_tasks_chirho }
    }
}

impl PropagatorFnChirho<FiniteDomainChirho> for CumulativeChirho {
    open spec fn spec_arity_chirho(&self) -> int {
        3 * self.num_tasks_spec_chirho() + 1
    }

    open spec fn spec_outputs_chirho(&self, cells: Seq<DomainModelChirho>, out: Seq<DomainModelChirho>) -> bool {
        out == cumulative_spec_chirho(cells, self.num_tasks_spec_chirho())
    }

    fn arity_chirho(&self) -> (r: usize) {
        proof { use_type_invariant(self); }
        3 * self.num_tasks_chirho + 1
    }

    #[verifier::rlimit(50)]
    fn propagate_chirho(&self, cells_chirho: &[FiniteDomainChirho]) -> (r: Vec<FiniteDomainChirho>) {
        proof { use_type_invariant(self); }
        let n = self.num_tasks_chirho;
        let len = cells_chirho.len();
        let ghost cm = models_chirho(cells_chirho@);
        let mut results_chirho = bottoms_vec_chirho(len);
        assert(models_chirho(results_chirho@).len() == len);
        let cap: i64 = min_or_exec_chirho(&cells_chirho[3 * n], i64::MAX);
        assert(cm[3 * n] == cells_chirho@[3 * n as int]@);
        // Earliest start and latest end.
        let mut min_start: Option<i64> = None;
        let mut max_end: Option<i128> = None;
        let mut i: usize = 0;
        while i < n
            invariant
                0 <= i <= n,
                3 * n + 1 <= len,
                len == cells_chirho@.len(),
                cm == models_chirho(cells_chirho@),
                min_start == match cumulative_min_start_chirho(cm, i as nat) { Some(m) => Some(m as i64), None => None::<i64> },
                match cumulative_min_start_chirho(cm, i as nat) { Some(m) => i64::MIN <= m <= i64::MAX, None => true },
                max_end == match cumulative_max_end_chirho(cm, n as int, i as nat) { Some(m) => Some(m as i128), None => None::<i128> },
                match cumulative_max_end_chirho(cm, n as int, i as nat) { Some(m) => 2 * i64::MIN <= m <= 2 * i64::MAX, None => true },
            decreases n - i,
        {
            assert(cm[i as int] == cells_chirho@[i as int]@);
            assert(cm[n + i] == cells_chirho@[n + i]@);
            let s_min = cells_chirho[i].min_value_chirho();
            if let Some(m) = s_min {
                min_start = match min_start {
                    Some(p) => Some(if p <= m { p } else { m }),
                    None => Some(m),
                };
            }
            let s_max = cells_chirho[i].max_value_chirho();
            let d_max = cells_chirho[n + i].max_value_chirho();
            if let (Some(a), Some(b)) = (s_max, d_max) {
                let e: i128 = (a as i128) + (b as i128);
                max_end = match max_end {
                    Some(p) => Some(if p >= e { p } else { e }),
                    None => Some(e),
                };
            }
            i = i + 1;
        }
        let start: i128 = match min_start { Some(m) => m as i128, None => 0 };
        let end: i128 = match max_end { Some(m) => m, None => 100 };
        let ghost spec_start = match cumulative_min_start_chirho(cm, n as nat) { Some(m) => m, None => 0 };
        let ghost spec_end = match cumulative_max_end_chirho(cm, n as nat as int, n as nat) { Some(m) => m, None => 100 };
        assert(start == spec_start);
        assert(end == spec_end);
        let mut t: i128 = start;
        while t < end
            invariant
                3 * n + 1 <= len,
                len == cells_chirho@.len(),
                cm == models_chirho(cells_chirho@),
                cap == min_or_chirho(cm[3 * n], i64::MAX as int),
                i64::MIN <= t,
                end <= 2 * i64::MAX,
                results_chirho@.len() == len,
                cumulative_from_chirho(cm, n as int, models_chirho(results_chirho@), t as int, end as int)
                    == cumulative_from_chirho(cm, n as int, bottoms_chirho(len as nat), spec_start, spec_end),
            decreases end - t,
        {
            // Resources used by the tasks that must run at t.
            let mut usage: i128 = 0;
            let mut k: usize = 0;
            while k < n
                invariant
                    0 <= k <= n,
                    3 * n + 1 <= len,
                    len == cells_chirho@.len(),
                    cm == models_chirho(cells_chirho@),
                    usage == cumulative_usage_chirho(cm, n as int, t as int, k as nat),
                    -(k as int) * 0x8000_0000_0000_0000 <= usage <= (k as int) * 0x8000_0000_0000_0000,
                decreases n - k,
            {
                assert(cm[k as int] == cells_chirho@[k as int]@);
                assert(cm[n + k] == cells_chirho@[n + k]@);
                assert(cm[2 * n + k] == cells_chirho@[2 * n + k]@);
                let s_min = min_or_exec_chirho(&cells_chirho[k], 0) as i128;
                let s_max = max_or_exec_chirho(&cells_chirho[k], 0) as i128;
                let d = min_or_exec_chirho(&cells_chirho[n + k], 0) as i128;
                let r = min_or_exec_chirho(&cells_chirho[2 * n + k], 0) as i128;
                proof {
                    assert((k as int) * 0x8000_0000_0000_0000 + 0x8000_0000_0000_0000 == ((k + 1) as int) * 0x8000_0000_0000_0000) by (nonlinear_arith);
                    assert((k as int) < 0x1_0000_0000_0000_0000);
                    assert((k as int) * 0x8000_0000_0000_0000 <= 0x1_0000_0000_0000_0000 * 0x8000_0000_0000_0000) by (nonlinear_arith)
                        requires (k as int) < 0x1_0000_0000_0000_0000;
                }
                if s_max <= t && t < s_min + d {
                    usage = usage + r;
                }
                k = k + 1;
            }
            let ghost before = models_chirho(results_chirho@);
            let mut i: usize = 0;
            while i < n
                invariant
                    0 <= i <= n,
                    3 * n + 1 <= len,
                    len == cells_chirho@.len(),
                    cm == models_chirho(cells_chirho@),
                    cap == min_or_chirho(cm[3 * n], i64::MAX as int),
                    usage == cumulative_usage_chirho(cm, n as int, t as int, n as nat),
                    -(n as int) * 0x8000_0000_0000_0000 <= usage <= (n as int) * 0x8000_0000_0000_0000,
                    results_chirho@.len() == len,
                    before.len() == len,
                    models_chirho(results_chirho@) == cumulative_at_chirho(cm, n as int, before, t as int, i as nat),
                decreases n - i,
            {
                let ghost pre = models_chirho(results_chirho@);
                assert(cm[i as int] == cells_chirho@[i as int]@);
                assert(cm[n + i] == cells_chirho@[n + i]@);
                assert(cm[2 * n + i] == cells_chirho@[2 * n + i]@);
                let s_min = min_or_exec_chirho(&cells_chirho[i], 0) as i128;
                let s_max = max_or_exec_chirho(&cells_chirho[i], 0) as i128;
                let d = min_or_exec_chirho(&cells_chirho[n + i], 0) as i128;
                let r = min_or_exec_chirho(&cells_chirho[2 * n + i], 0) as i128;
                proof {
                    assert((n as int) < 0x8000_0000_0000_0000);
                    assert((n as int) * 0x8000_0000_0000_0000 < 0x4000_0000_0000_0000_0000_0000_0000_0000) by (nonlinear_arith)
                        requires (n as int) < 0x8000_0000_0000_0000;
                }
                let must = s_max <= t && t < s_min + d;
                let may = !must && s_min <= t && t < s_max + d;
                if may && usage + r > cap as i128 {
                    let d1 = min_or_exec_chirho(&cells_chirho[n + i], 1) as i128;
                    let current = &cells_chirho[i];
                    let filtered = current.keep_outside_wide_chirho(t - d1 + 1, t);
                    let ghost kept = cm[i as int].values.filter(|s: i64| s < t - d1 + 1 || s > t);
                    let cur_size = current.size_chirho();
                    proof {
                        lemma_subset_differs_chirho(kept, cm[i as int].values);
                    }
                    if filtered.size_chirho() < cur_size {
                        let nd = if results_chirho[i].is_bottom_chirho() {
                            filtered
                        } else {
                            results_chirho[i].join_chirho(&filtered)
                        };
                        results_chirho.set(i, nd);
                    }
                }
                proof {
                    assert(models_chirho(results_chirho@) =~= cumulative_task_step_chirho(cm, n as int, pre, t as int, i as int));
                }
                i = i + 1;
            }
            t = t + 1;
        }
        proof {
            assert(cumulative_from_chirho(cm, n as int, models_chirho(results_chirho@), t as int, end as int) == models_chirho(results_chirho@));
            assert(bottoms_chirho(len as nat) == bottoms_chirho(cm.len()));
        }
        results_chirho
    }
}

} // verus!
