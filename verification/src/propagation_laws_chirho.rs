//! What the finite-domain propagators hand back, stated over their inputs.
//!
//! An output that is bottom leaves its cell as it is; any other output is
//! what the cell becomes. Each law says what the cell then holds.

use vstd::prelude::*;

use crate::fd_propagators_chirho::{
    cumulative_at_chirho, cumulative_from_chirho, cumulative_max_end_chirho, cumulative_min_start_chirho, cumulative_overflow_chirho,
    cumulative_spec_chirho, cumulative_task_step_chirho, element_possible_chirho, element_spec_chirho, element_valid_indices_chirho, less_than_spec_chirho,
    max_or_chirho, min_or_chirho, table_column_chirho, table_spec_chirho,
};
use crate::cardinality_chirho::{
    card_assign_upto_chirho, card_can_provide_chirho, card_entry_chirho, card_fixed_count_chirho, card_fold_chirho,
    card_provide_count_chirho, card_remove_upto_chirho,
};
use crate::fd_propagators_chirho::{
    all_different_step_chirho, all_different_upto_chirho, circuit_first_chirho, circuit_step_chirho, circuit_upto_chirho,
    model_remove_chirho, model_singleton_chirho, not_equals_spec_chirho,
};
use crate::finite_domain_chirho::{model_from_set_chirho, model_is_bottom_chirho, model_join_chirho, set_max_chirho, set_min_chirho, DomainModelChirho};

verus! {

/// The values a cell holds once the output `out` for it is taken in: the
/// cell's own values when the output is bottom, else the output's.
pub open spec fn taken_in_chirho(cell: DomainModelChirho, out: DomainModelChirho) -> Set<i64> {
    if model_is_bottom_chirho(out) { cell.values } else { out.values }
}

/// A finite non-empty set of integers has a least and a greatest element,
/// and `set_min_chirho` and `set_max_chirho` are they.
pub proof fn lemma_set_bounds_chirho(s: Set<i64>)
    requires
        s.finite(),
        !s.is_empty(),
    ensures
        s.contains(set_min_chirho(s)),
        s.contains(set_max_chirho(s)),
        forall|x: i64| s.contains(x) ==> set_min_chirho(s) <= x && x <= set_max_chirho(s),
{
    lemma_has_least_chirho(s);
    lemma_has_greatest_chirho(s);
    reveal(set_min_chirho);
    reveal(set_max_chirho);
}

proof fn lemma_has_least_chirho(s: Set<i64>)
    requires
        s.finite(),
        !s.is_empty(),
    ensures
        exists|m: i64| s.contains(m) && forall|x: i64| s.contains(x) ==> m <= x,
    decreases s.len(),
{
    let a = s.choose();
    assert(s.contains(a)) by {
        if !s.contains(a) {
            assert(s =~= Set::<i64>::empty());
        }
    }
    let t = s.remove(a);
    if t.is_empty() {
        assert forall|x: i64| s.contains(x) implies a <= x by {
            if x != a {
                assert(t.contains(x));
            }
        }
    } else {
        lemma_has_least_chirho(t);
        let m = choose|m: i64| t.contains(m) && forall|x: i64| t.contains(x) ==> m <= x;
        let best = if a < m { a } else { m };
        assert forall|x: i64| s.contains(x) implies best <= x by {
            if x != a {
                assert(t.contains(x));
            }
        }
        assert(s.contains(best));
    }
}

proof fn lemma_has_greatest_chirho(s: Set<i64>)
    requires
        s.finite(),
        !s.is_empty(),
    ensures
        exists|m: i64| s.contains(m) && forall|x: i64| s.contains(x) ==> x <= m,
    decreases s.len(),
{
    let a = s.choose();
    assert(s.contains(a)) by {
        if !s.contains(a) {
            assert(s =~= Set::<i64>::empty());
        }
    }
    let t = s.remove(a);
    if t.is_empty() {
        assert forall|x: i64| s.contains(x) implies x <= a by {
            if x != a {
                assert(t.contains(x));
            }
        }
    } else {
        lemma_has_greatest_chirho(t);
        let m = choose|m: i64| t.contains(m) && forall|x: i64| t.contains(x) ==> x <= m;
        let best = if a > m { a } else { m };
        assert forall|x: i64| s.contains(x) implies x <= best by {
            if x != a {
                assert(t.contains(x));
            }
        }
        assert(s.contains(best));
    }
}

/// Less-than, `a < b`: afterwards `a` holds exactly its values that are
/// below some value of `b`, and `b` exactly its values that are above some
/// value of `a`.
pub proof fn law_less_than_supports_chirho(a: DomainModelChirho, b: DomainModelChirho)
    requires
        a.values.finite(),
        b.values.finite(),
        !a.values.is_empty(),
        !b.values.is_empty(),
    ensures
        forall|v: i64| #[trigger] taken_in_chirho(a, less_than_spec_chirho(a, b)[0]).contains(v)
            <==> a.values.contains(v) && exists|y: i64| b.values.contains(y) && v < y,
        forall|v: i64| #[trigger] taken_in_chirho(b, less_than_spec_chirho(a, b)[1]).contains(v)
            <==> b.values.contains(v) && exists|x: i64| a.values.contains(x) && x < v,
{
    lemma_set_bounds_chirho(a.values);
    lemma_set_bounds_chirho(b.values);
    let r = less_than_spec_chirho(a, b);
    let fa = a.values.filter(|v: i64| v < set_max_chirho(b.values));
    let fb = b.values.filter(|v: i64| v > set_min_chirho(a.values));
    assert forall|v: i64| #[trigger] taken_in_chirho(a, r[0]).contains(v)
        <==> a.values.contains(v) && exists|y: i64| b.values.contains(y) && v < y by {
        if fa != a.values {
            if !fa.is_empty() {
                lemma_set_bounds_chirho(fa);
            }
            assert(taken_in_chirho(a, r[0]) == fa);
        } else {
            assert(taken_in_chirho(a, r[0]) == a.values);
            if a.values.contains(v) {
                assert(fa.contains(v));
            }
        }
        if a.values.contains(v) && v < set_max_chirho(b.values) {
            assert(b.values.contains(set_max_chirho(b.values)));
        }
    }
    assert forall|v: i64| #[trigger] taken_in_chirho(b, r[1]).contains(v)
        <==> b.values.contains(v) && exists|x: i64| a.values.contains(x) && x < v by {
        if fb != b.values {
            if !fb.is_empty() {
                lemma_set_bounds_chirho(fb);
            }
            assert(taken_in_chirho(b, r[1]) == fb);
        } else {
            assert(taken_in_chirho(b, r[1]) == b.values);
            if b.values.contains(v) {
                assert(fb.contains(v));
            }
        }
        if b.values.contains(v) && set_min_chirho(a.values) < v {
            assert(a.values.contains(set_min_chirho(a.values)));
        }
    }
}

/// The values of the first `k` cells together.
pub open spec fn values_upto_chirho(cells: Seq<DomainModelChirho>, k: nat) -> Set<i64>
    decreases k,
{
    if k == 0 {
        Set::empty()
    } else {
        values_upto_chirho(cells, (k - 1) as nat).union(cells[k - 1].values)
    }
}

proof fn lemma_values_upto_chirho(cells: Seq<DomainModelChirho>, k: nat)
    requires
        k <= cells.len(),
        forall|j: int| 0 <= j < k ==> (#[trigger] cells[j]).values.finite(),
    ensures
        values_upto_chirho(cells, k).finite(),
        forall|j: int, v: i64| 0 <= j < k && #[trigger] cells[j].values.contains(v) ==> values_upto_chirho(cells, k).contains(v),
    decreases k,
{
    if k > 0 {
        lemma_values_upto_chirho(cells, (k - 1) as nat);
        vstd::set::axiom_set_union_finite(values_upto_chirho(cells, (k - 1) as nat), cells[k - 1].values);
    }
}

/// Joining a domain that is not bottom with the domain of a finite set
/// without `i64::MIN` keeps the values they share.
proof fn lemma_join_from_set_chirho(c: DomainModelChirho, p: Set<i64>)
    requires
        !model_is_bottom_chirho(c),
        p.finite(),
        !p.is_empty(),
        !p.contains(i64::MIN),
    ensures
        model_join_chirho(c, model_from_set_chirho(p)).values == c.values.intersect(p),
        !model_is_bottom_chirho(model_join_chirho(c, model_from_set_chirho(p))),
{
    lemma_set_bounds_chirho(p);
}

/// Element, `result = array[index]`: afterwards the result holds exactly
/// its values that the array holds at some position the index may take,
/// whenever there is any such value at all, however many positions the
/// index may still take.
pub proof fn law_element_result_chirho(cells: Seq<DomainModelChirho>, n: int)
    requires
        0 <= n,
        cells.len() == n + 2,
        !model_is_bottom_chirho(cells[n + 1]),
        forall|k: int| 0 <= k < n ==> (#[trigger] cells[k]).values.finite() && !cells[k].values.contains(i64::MIN),
        exists|idx: i64, v: i64| cells[n].values.contains(idx) && 0 <= idx < n && #[trigger] cells[idx as int].values.contains(v),
    ensures
        forall|v: i64| #[trigger] taken_in_chirho(cells[n + 1], element_spec_chirho(cells, n)[n + 1]).contains(v)
            <==> cells[n + 1].values.contains(v) && exists|idx: i64|
                cells[n].values.contains(idx) && 0 <= idx < n && #[trigger] cells[idx as int].values.contains(v),
{
    let p = element_possible_chirho(cells, n);
    let u = values_upto_chirho(cells, n as nat);
    lemma_values_upto_chirho(cells, n as nat);
    let (idx0, v0) = choose|idx: i64, v: i64| cells[n].values.contains(idx) && 0 <= idx < n && #[trigger] cells[idx as int].values.contains(v);
    assert(p.contains(v0));
    assert(p.subset_of(u)) by {
        assert forall|v: i64| p.contains(v) implies u.contains(v) by {
            let idx = choose|idx: i64| #![trigger cells[n].values.contains(idx)]
                cells[n].values.contains(idx) && 0 <= idx < n && cells[idx as int].values.contains(v);
            assert(cells[idx as int].values.contains(v));
        }
    }
    vstd::set_lib::lemma_set_subset_finite(u, p);
    assert(!p.contains(i64::MIN)) by {
        if p.contains(i64::MIN) {
            let idx = choose|idx: i64| #![trigger cells[n].values.contains(idx)]
                cells[n].values.contains(idx) && 0 <= idx < n && cells[idx as int].values.contains(i64::MIN);
            assert(cells[idx as int].values.contains(i64::MIN));
        }
    }
    lemma_join_from_set_chirho(cells[n + 1], p);
    let r = element_spec_chirho(cells, n);
    assert forall|v: i64| #[trigger] taken_in_chirho(cells[n + 1], r[n + 1]).contains(v)
        <==> cells[n + 1].values.contains(v) && exists|idx: i64|
            cells[n].values.contains(idx) && 0 <= idx < n && #[trigger] cells[idx as int].values.contains(v) by {
        assert(p.contains(v) <==> exists|idx: i64|
            cells[n].values.contains(idx) && 0 <= idx < n && #[trigger] cells[idx as int].values.contains(v));
        let refined = model_join_chirho(cells[n + 1], model_from_set_chirho(p));
        if refined == cells[n + 1] {
            assert(cells[n + 1].values.contains(v) ==> refined.values.contains(v));
        }
    }
}

/// Tuple `t` fits the domains of the first `arity` cells.
pub open spec fn fits_chirho(cells: Seq<DomainModelChirho>, t: Seq<i64>, arity: int) -> bool {
    forall|k: int| 0 <= k < arity ==> #[trigger] cells[k].values.contains(t[k])
}

/// Table: when no allowed tuple fits the domains, every one of the first
/// `arity` cells is handed back the empty domain (a contradiction);
/// otherwise each of them holds afterwards exactly the values its column
/// takes among the tuples that fit.
pub proof fn law_table_columns_chirho(cells: Seq<DomainModelChirho>, tuples: Seq<Seq<i64>>, arity: int, i: int)
    requires
        0 <= i < arity <= cells.len(),
        forall|j: int| 0 <= j < tuples.len() ==> (#[trigger] tuples[j]).len() == arity,
        forall|k: int| 0 <= k < arity ==> !model_is_bottom_chirho(#[trigger] cells[k]),
        forall|j: int| 0 <= j < tuples.len() ==> (#[trigger] tuples[j])[i] != i64::MIN,
    ensures
        (forall|j: int| 0 <= j < tuples.len() ==> !fits_chirho(cells, #[trigger] tuples[j], arity)) ==> {
            &&& table_spec_chirho(cells, tuples, arity)[i].values.is_empty()
            &&& !model_is_bottom_chirho(table_spec_chirho(cells, tuples, arity)[i])
        },
        (exists|j: int| 0 <= j < tuples.len() && fits_chirho(cells, #[trigger] tuples[j], arity)) ==> forall|v: i64|
            #[trigger] taken_in_chirho(cells[i], table_spec_chirho(cells, tuples, arity)[i]).contains(v)
                <==> exists|j: int| 0 <= j < tuples.len() && fits_chirho(cells, #[trigger] tuples[j], arity) && tuples[j][i] == v,
{
    let col = table_column_chirho(cells, tuples, i);
    let r = table_spec_chirho(cells, tuples, arity);
    assert forall|j: int| 0 <= j < tuples.len() implies (fits_chirho(cells, #[trigger] tuples[j], arity)
        <==> crate::fd_propagators_chirho::table_tuple_ok_chirho(cells, tuples[j])) by {
        if fits_chirho(cells, tuples[j], arity) {
            assert forall|k: int| 0 <= k < tuples[j].len() && k < cells.len() implies #[trigger] cells[k].values.contains(tuples[j][k]) by {
                assert(cells[k].values.contains(tuples[j][k]));
            }
        }
        if crate::fd_propagators_chirho::table_tuple_ok_chirho(cells, tuples[j]) {
            assert forall|k: int| 0 <= k < arity implies #[trigger] cells[k].values.contains(tuples[j][k]) by {
                assert(k < tuples[j].len() && k < cells.len());
            }
        }
    }
    assert(col =~= Set::new(|v: i64| exists|j: int| 0 <= j < tuples.len() && fits_chirho(cells, #[trigger] tuples[j], arity) && tuples[j][i] == v)) by {
        assert forall|v: i64| col.contains(v) <==> exists|j: int| 0 <= j < tuples.len() && fits_chirho(cells, #[trigger] tuples[j], arity) && tuples[j][i] == v by {
            if col.contains(v) {
                let j = choose|j: int| 0 <= j < tuples.len() && crate::fd_propagators_chirho::table_tuple_ok_chirho(cells, #[trigger] tuples[j]) && tuples[j][i] == v;
                assert(fits_chirho(cells, tuples[j], arity));
            }
            if exists|j: int| 0 <= j < tuples.len() && fits_chirho(cells, #[trigger] tuples[j], arity) && tuples[j][i] == v {
                let j = choose|j: int| 0 <= j < tuples.len() && fits_chirho(cells, #[trigger] tuples[j], arity) && tuples[j][i] == v;
                assert(crate::fd_propagators_chirho::table_tuple_ok_chirho(cells, tuples[j]));
            }
        }
    }
    assert(r[i] == (if col.is_empty() {
        crate::finite_domain_chirho::model_empty_chirho()
    } else if model_join_chirho(cells[i], model_from_set_chirho(col)) != cells[i] {
        model_join_chirho(cells[i], model_from_set_chirho(col))
    } else {
        crate::finite_domain_chirho::model_bottom_chirho()
    }));
    if (forall|j: int| 0 <= j < tuples.len() ==> !fits_chirho(cells, #[trigger] tuples[j], arity)) {
        assert(col =~= Set::<i64>::empty());
    }
    if exists|j: int| 0 <= j < tuples.len() && fits_chirho(cells, #[trigger] tuples[j], arity) {
        let j0 = choose|j: int| 0 <= j < tuples.len() && fits_chirho(cells, #[trigger] tuples[j], arity);
        assert(col.contains(tuples[j0][i]));
        let all = tuples.map_values(|t: Seq<i64>| t[i]).to_set();
        vstd::seq_lib::seq_to_set_is_finite(tuples.map_values(|t: Seq<i64>| t[i]));
        assert(col.subset_of(all)) by {
            assert forall|v: i64| col.contains(v) implies all.contains(v) by {
                let j = choose|j: int| 0 <= j < tuples.len() && fits_chirho(cells, #[trigger] tuples[j], arity) && tuples[j][i] == v;
                assert(tuples.map_values(|t: Seq<i64>| t[i])[j] == v);
            }
        }
        vstd::set_lib::lemma_set_subset_finite(all, col);
        assert(!col.contains(i64::MIN)) by {
            if col.contains(i64::MIN) {
                let j = choose|j: int| 0 <= j < tuples.len() && fits_chirho(cells, #[trigger] tuples[j], arity) && tuples[j][i] == i64::MIN;
            }
        }
        lemma_join_from_set_chirho(cells[i], col);
        assert forall|v: i64| col.contains(v) implies cells[i].values.contains(v) by {
            let j = choose|j: int| 0 <= j < tuples.len() && fits_chirho(cells, #[trigger] tuples[j], arity) && tuples[j][i] == v;
            assert(cells[i].values.contains(tuples[j][i]));
        }
        assert forall|v: i64| #[trigger] taken_in_chirho(cells[i], r[i]).contains(v) <==> col.contains(v) by {
            let refined = model_join_chirho(cells[i], model_from_set_chirho(col));
            if refined == cells[i] {
                assert(cells[i].values.contains(v) ==> refined.values.contains(v));
            }
        }
    }
}

proof fn lemma_remove_upto_at_chirho(cells: Seq<DomainModelChirho>, res: Seq<DomainModelChirho>, v: i64, m: nat, i: int)
    requires
        m <= cells.len(),
        res.len() == cells.len(),
        0 <= i < cells.len(),
    ensures
        card_remove_upto_chirho(cells, res, v, m).len() == res.len(),
        card_remove_upto_chirho(cells, res, v, m)[i] == if i < m && card_can_provide_chirho(cells[i], v) {
            model_remove_chirho(if model_is_bottom_chirho(res[i]) { cells[i] } else { res[i] }, v)
        } else {
            res[i]
        },
    decreases m,
{
    if m > 0 {
        lemma_remove_upto_at_chirho(cells, res, v, (m - 1) as nat, i);
        lemma_remove_upto_at_chirho(cells, res, v, (m - 1) as nat, m - 1);
    }
}

proof fn lemma_assign_upto_at_chirho(cells: Seq<DomainModelChirho>, res: Seq<DomainModelChirho>, v: i64, m: nat, i: int)
    requires
        m <= cells.len(),
        res.len() == cells.len(),
        0 <= i < cells.len(),
    ensures
        card_assign_upto_chirho(cells, res, v, m).len() == res.len(),
        card_assign_upto_chirho(cells, res, v, m)[i] == if i < m && card_can_provide_chirho(cells[i], v) {
            DomainModelChirho { values: set![v], min: v, max: v }
        } else {
            res[i]
        },
    decreases m,
{
    if m > 0 {
        lemma_assign_upto_at_chirho(cells, res, v, (m - 1) as nat, i);
    }
}

proof fn lemma_provide_count_chirho(cells: Seq<DomainModelChirho>, v: i64, m: nat, i: int)
    requires
        0 <= i < m <= cells.len(),
        card_can_provide_chirho(cells[i], v),
    ensures
        card_provide_count_chirho(cells, v, m) >= 1,
    decreases m,
{
    if i < m - 1 {
        lemma_provide_count_chirho(cells, v, (m - 1) as nat, i);
    }
}

proof fn lemma_fold_len_chirho(cells: Seq<DomainModelChirho>, order: Seq<(i64, (usize, usize))>, m: nat)
    requires
        m <= order.len(),
    ensures
        card_fold_chirho(cells, order, m).len() == cells.len(),
    decreases m,
{
    if m > 0 {
        lemma_fold_len_chirho(cells, order, (m - 1) as nat);
        let prev = card_fold_chirho(cells, order, (m - 1) as nat);
        let e = order[m - 1];
        if cells.len() > 0 {
            lemma_remove_upto_at_chirho(cells, prev, e.0, cells.len(), 0);
            let r1 = if card_fixed_count_chirho(cells, e.0, cells.len()) >= e.1.1 {
                card_remove_upto_chirho(cells, prev, e.0, cells.len())
            } else {
                prev
            };
            lemma_assign_upto_at_chirho(cells, r1, e.0, cells.len(), 0);
        } else {
            assert(card_remove_upto_chirho(cells, prev, e.0, 0) == prev);
            assert(card_assign_upto_chirho(cells, prev, e.0, 0) == prev);
        }
    }
}

/// Cell `k` afterwards is a narrowing of the cell (or still bottom) that
/// leaves out `v`, from pick `m` on.
spec fn card_kept_out_chirho(cells: Seq<DomainModelChirho>, r: DomainModelChirho, k: int, v: i64) -> bool {
    !model_is_bottom_chirho(r) && r.values.subset_of(cells[k].values) && !r.values.contains(v)
}

/// Cell `k` afterwards is bottom or a narrowing of the cell.
spec fn card_narrow_chirho(cells: Seq<DomainModelChirho>, r: DomainModelChirho, k: int) -> bool {
    model_is_bottom_chirho(r) || (r.values.subset_of(cells[k].values))
}

proof fn lemma_fold_narrow_chirho(cells: Seq<DomainModelChirho>, order: Seq<(i64, (usize, usize))>, m: nat, k: int)
    requires
        m <= order.len(),
        0 <= k < cells.len(),
        !model_is_bottom_chirho(cells[k]),
    ensures
        card_narrow_chirho(cells, card_fold_chirho(cells, order, m)[k], k),
    decreases m,
{
    lemma_fold_len_chirho(cells, order, m);
    if m > 0 {
        lemma_fold_narrow_chirho(cells, order, (m - 1) as nat, k);
        lemma_fold_len_chirho(cells, order, (m - 1) as nat);
        let prev = card_fold_chirho(cells, order, (m - 1) as nat);
        let e = order[m - 1];
        let n = cells.len();
        lemma_remove_upto_at_chirho(cells, prev, e.0, n, k);
        let r1 = if card_fixed_count_chirho(cells, e.0, n) >= e.1.1 { card_remove_upto_chirho(cells, prev, e.0, n) } else { prev };
        lemma_assign_upto_at_chirho(cells, r1, e.0, n, k);
    }
}

/// Cardinality: once as many cells (those of `fixed`) are fixed to a
/// value as its maximum count allows, no other cell that could take the
/// value still holds it after the whole propagation, whatever values are
/// dealt with before or after it: a narrowed cell only narrows further.
pub proof fn law_cardinality_saturated_chirho(
    cells: Seq<DomainModelChirho>,
    order: Seq<(i64, (usize, usize))>,
    j: int,
    k: int,
    fixed: Set<int>,
)
    requires
        forall|i: int| 0 <= i < cells.len() ==> !model_is_bottom_chirho(#[trigger] cells[i]),
        forall|a: int, b: int| 0 <= a < order.len() && 0 <= b < order.len() && a != b ==> #[trigger] order[a].0 != #[trigger] order[b].0,
        0 <= j < order.len(),
        order[j].1.0 <= order[j].1.1,
        fixed.finite(),
        fixed.len() >= order[j].1.1,
        forall|i: int| #[trigger] fixed.contains(i) ==> 0 <= i < cells.len() && cells[i].values == set![order[j].0],
        0 <= k < cells.len(),
        cells[k].values.len() != 1,
        cells[k].values.contains(order[j].0),
    ensures
        !model_is_bottom_chirho(card_fold_chirho(cells, order, order.len())[k]),
        card_fold_chirho(cells, order, order.len())[k].values.subset_of(cells[k].values),
        !card_fold_chirho(cells, order, order.len())[k].values.contains(order[j].0),
{
    lemma_fixed_count_chirho(cells, order[j].0, fixed, cells.len());
    assert(fixed.filter(|i: int| i < cells.len()) =~= fixed);
    assert(model_singleton_chirho(cells[k]) is None);
    lemma_fold_after_chirho(cells, order, j, k, order.len());
}

/// Counting the cells fixed to `v` counts at least the cells of `fixed`.
proof fn lemma_fixed_count_chirho(cells: Seq<DomainModelChirho>, v: i64, fixed: Set<int>, m: nat)
    requires
        m <= cells.len(),
        fixed.finite(),
        forall|i: int| #[trigger] fixed.contains(i) ==> 0 <= i < cells.len() && cells[i].values == set![v],
    ensures
        fixed.filter(|i: int| i < m).finite(),
        card_fixed_count_chirho(cells, v, m) >= fixed.filter(|i: int| i < m).len(),
    decreases m,
{
    let fm = fixed.filter(|i: int| i < m);
    vstd::set_lib::lemma_set_subset_finite(fixed, fm);
    if m == 0 {
        assert(fm =~= Set::<int>::empty());
    } else {
        lemma_fixed_count_chirho(cells, v, fixed, (m - 1) as nat);
        let fp = fixed.filter(|i: int| i < m - 1);
        if fixed.contains(m - 1) {
            assert(fm =~= fp.insert(m - 1));
            lemma_set_bounds_chirho(set![v]);
            assert(set![v].len() == 1);
            assert(model_singleton_chirho(cells[m - 1]) == Some(v));
        } else {
            assert(fm =~= fp);
        }
    }
}

proof fn lemma_fold_after_chirho(cells: Seq<DomainModelChirho>, order: Seq<(i64, (usize, usize))>, j: int, k: int, m: nat)
    requires
        forall|i: int| 0 <= i < cells.len() ==> !model_is_bottom_chirho(#[trigger] cells[i]),
        forall|a: int, b: int| 0 <= a < order.len() && 0 <= b < order.len() && a != b ==> #[trigger] order[a].0 != #[trigger] order[b].0,
        0 <= j < m <= order.len(),
        order[j].1.0 <= order[j].1.1,
        card_fixed_count_chirho(cells, order[j].0, cells.len()) >= order[j].1.1,
        0 <= k < cells.len(),
        model_singleton_chirho(cells[k]) is None,
        cells[k].values.contains(order[j].0),
    ensures
        card_kept_out_chirho(cells, card_fold_chirho(cells, order, m)[k], k, order[j].0),
    decreases m,
{
    let v = order[j].0;
    let n = cells.len();
    let prev = card_fold_chirho(cells, order, (m - 1) as nat);
    let e = order[m - 1];
    lemma_fold_len_chirho(cells, order, (m - 1) as nat);
    lemma_remove_upto_at_chirho(cells, prev, e.0, n, k);
    let r1 = if card_fixed_count_chirho(cells, e.0, n) >= e.1.1 { card_remove_upto_chirho(cells, prev, e.0, n) } else { prev };
    lemma_assign_upto_at_chirho(cells, r1, e.0, n, k);
    assert(card_fold_chirho(cells, order, m) == card_entry_chirho(cells, prev, e));
    if m - 1 == j {
        lemma_fold_narrow_chirho(cells, order, (m - 1) as nat, k);
        assert(card_can_provide_chirho(cells[k], v));
        lemma_provide_count_chirho(cells, v, n, k);
        let src = if model_is_bottom_chirho(prev[k]) { cells[k] } else { prev[k] };
        assert(!model_is_bottom_chirho(src));
        assert(r1[k] == model_remove_chirho(src, v));
    } else {
        lemma_fold_after_chirho(cells, order, j, k, (m - 1) as nat);
        assert(e.0 != v);
        if card_can_provide_chirho(cells[k], e.0) {
            assert(set![e.0].subset_of(cells[k].values));
        }
    }
}

/// Start `s` of task `i` is out of `res`, which is not bottom there.
spec fn start_dropped_chirho(cells: Seq<DomainModelChirho>, res: Seq<DomainModelChirho>, i: int, s: i64) -> bool {
    &&& res.len() == cells.len()
    &&& !model_is_bottom_chirho(res[i])
    &&& !res[i].values.contains(s)
}

proof fn lemma_step_len_chirho(cells: Seq<DomainModelChirho>, n: int, res: Seq<DomainModelChirho>, t: int, j: int)
    requires
        0 <= j < n,
        res.len() == cells.len(),
        cells.len() == 3 * n + 1,
    ensures
        cumulative_task_step_chirho(cells, n, res, t, j).len() == res.len(),
        forall|x: int| 0 <= x < res.len() && x != j ==> #[trigger] cumulative_task_step_chirho(cells, n, res, t, j)[x] == res[x],
{
}

proof fn lemma_step_keeps_chirho(cells: Seq<DomainModelChirho>, n: int, res: Seq<DomainModelChirho>, t: int, j: int, i: int, s: i64)
    requires
        0 <= j < n,
        0 <= i < n,
        cells.len() == 3 * n + 1,
        start_dropped_chirho(cells, res, i, s),
    ensures
        start_dropped_chirho(cells, cumulative_task_step_chirho(cells, n, res, t, j), i, s),
{
    lemma_step_len_chirho(cells, n, res, t, j);
}

proof fn lemma_step_drops_chirho(cells: Seq<DomainModelChirho>, n: int, res: Seq<DomainModelChirho>, u: int, i: int, s: i64)
    requires
        0 <= i < n,
        cells.len() == 3 * n + 1,
        res.len() == cells.len(),
        cells[i].values.finite(),
        !cells[i].values.contains(i64::MIN),
        cells[i].values.contains(s),
        cumulative_overflow_chirho(cells, n, i, u),
        u - min_or_chirho(cells[n + i], 1) + 1 <= s <= u,
    ensures
        start_dropped_chirho(cells, cumulative_task_step_chirho(cells, n, res, u, i), i, s),
{
    lemma_step_len_chirho(cells, n, res, u, i);
    let d = min_or_chirho(cells[n + i], 1);
    let kept = cells[i].values.filter(|x: i64| x < u - d + 1 || x > u);
    assert(kept.subset_of(cells[i].values.remove(s)));
    vstd::set_lib::lemma_len_subset(kept, cells[i].values.remove(s));
    assert(kept.len() < cells[i].values.len());
    if !kept.is_empty() {
        vstd::set_lib::lemma_set_subset_finite(cells[i].values, kept);
        lemma_set_bounds_chirho(kept);
    }
}

proof fn lemma_at_keeps_chirho(cells: Seq<DomainModelChirho>, n: int, res: Seq<DomainModelChirho>, t: int, k: nat, i: int, s: i64)
    requires
        k <= n,
        0 <= i < n,
        cells.len() == 3 * n + 1,
        start_dropped_chirho(cells, res, i, s),
    ensures
        start_dropped_chirho(cells, cumulative_at_chirho(cells, n, res, t, k), i, s),
    decreases k,
{
    if k > 0 {
        lemma_at_keeps_chirho(cells, n, res, t, (k - 1) as nat, i, s);
        lemma_step_keeps_chirho(cells, n, cumulative_at_chirho(cells, n, res, t, (k - 1) as nat), t, k - 1, i, s);
    }
}

proof fn lemma_at_len_chirho(cells: Seq<DomainModelChirho>, n: int, res: Seq<DomainModelChirho>, t: int, k: nat)
    requires
        k <= n,
        cells.len() == 3 * n + 1,
        res.len() == cells.len(),
    ensures
        cumulative_at_chirho(cells, n, res, t, k).len() == res.len(),
    decreases k,
{
    if k > 0 {
        lemma_at_len_chirho(cells, n, res, t, (k - 1) as nat);
        lemma_step_len_chirho(cells, n, cumulative_at_chirho(cells, n, res, t, (k - 1) as nat), t, k - 1);
    }
}

proof fn lemma_at_drops_chirho(cells: Seq<DomainModelChirho>, n: int, res: Seq<DomainModelChirho>, u: int, k: nat, i: int, s: i64)
    requires
        i < k <= n,
        0 <= i,
        cells.len() == 3 * n + 1,
        res.len() == cells.len(),
        cells[i].values.finite(),
        !cells[i].values.contains(i64::MIN),
        cells[i].values.contains(s),
        cumulative_overflow_chirho(cells, n, i, u),
        u - min_or_chirho(cells[n + i], 1) + 1 <= s <= u,
    ensures
        start_dropped_chirho(cells, cumulative_at_chirho(cells, n, res, u, k), i, s),
    decreases k,
{
    lemma_at_len_chirho(cells, n, res, u, (k - 1) as nat);
    if k - 1 == i {
        lemma_step_drops_chirho(cells, n, cumulative_at_chirho(cells, n, res, u, (k - 1) as nat), u, i, s);
    } else {
        lemma_at_drops_chirho(cells, n, res, u, (k - 1) as nat, i, s);
        lemma_step_keeps_chirho(cells, n, cumulative_at_chirho(cells, n, res, u, (k - 1) as nat), u, k - 1, i, s);
    }
}

proof fn lemma_from_keeps_chirho(cells: Seq<DomainModelChirho>, n: int, res: Seq<DomainModelChirho>, t: int, end: int, i: int, s: i64)
    requires
        0 <= i < n,
        cells.len() == 3 * n + 1,
        start_dropped_chirho(cells, res, i, s),
    ensures
        start_dropped_chirho(cells, cumulative_from_chirho(cells, n, res, t, end), i, s),
    decreases end - t,
{
    if t < end {
        lemma_at_keeps_chirho(cells, n, res, t, n as nat, i, s);
        lemma_from_keeps_chirho(cells, n, cumulative_at_chirho(cells, n, res, t, n as nat), t + 1, end, i, s);
    }
}

proof fn lemma_from_drops_chirho(cells: Seq<DomainModelChirho>, n: int, res: Seq<DomainModelChirho>, t: int, end: int, u: int, i: int, s: i64)
    requires
        0 <= i < n,
        cells.len() == 3 * n + 1,
        res.len() == cells.len(),
        t <= u < end,
        cells[i].values.finite(),
        !cells[i].values.contains(i64::MIN),
        cells[i].values.contains(s),
        cumulative_overflow_chirho(cells, n, i, u),
        u - min_or_chirho(cells[n + i], 1) + 1 <= s <= u,
    ensures
        start_dropped_chirho(cells, cumulative_from_chirho(cells, n, res, t, end), i, s),
    decreases end - t,
{
    lemma_at_len_chirho(cells, n, res, t, n as nat);
    let next = cumulative_at_chirho(cells, n, res, t, n as nat);
    if t == u {
        lemma_at_drops_chirho(cells, n, res, u, n as nat, i, s);
        lemma_from_keeps_chirho(cells, n, next, t + 1, end, i, s);
    } else {
        lemma_from_drops_chirho(cells, n, next, t + 1, end, u, i, s);
    }
}

proof fn lemma_min_start_chirho(cells: Seq<DomainModelChirho>, k: nat, i: int)
    requires
        0 <= i < k <= cells.len(),
        !cells[i].values.is_empty(),
    ensures
        cumulative_min_start_chirho(cells, k) matches Some(m) && m <= set_min_chirho(cells[i].values),
    decreases k,
{
    if i < k - 1 {
        lemma_min_start_chirho(cells, (k - 1) as nat, i);
    }
}

proof fn lemma_max_end_chirho(cells: Seq<DomainModelChirho>, n: int, k: nat, i: int)
    requires
        0 <= i < k <= n,
        cells.len() == 3 * n + 1,
        !cells[i].values.is_empty(),
        !cells[n + i].values.is_empty(),
    ensures
        cumulative_max_end_chirho(cells, n, k) matches Some(m) && m >= set_max_chirho(cells[i].values) + set_max_chirho(cells[n + i].values),
    decreases k,
{
    if i < k - 1 {
        lemma_max_end_chirho(cells, n, (k - 1) as nat, i);
    }
}

/// Every task has starts, durations and demands it may take, each a
/// finite set, and the capacity has a value.
pub open spec fn tasks_given_chirho(cells: Seq<DomainModelChirho>, n: int) -> bool {
    &&& cells.len() == 3 * n + 1
    &&& forall|k: int| 0 <= k < 3 * n + 1 ==> (#[trigger] cells[k]).values.finite() && !cells[k].values.is_empty()
}

/// Task `k` surely runs at time `t`: from every start it may take, run
/// for any duration it may take, it covers `t`.
pub open spec fn surely_runs_chirho(cells: Seq<DomainModelChirho>, n: int, k: int, t: int) -> bool {
    &&& forall|s: i64| #[trigger] cells[k].values.contains(s) ==> s <= t
    &&& forall|s: i64, d: i64| #[trigger] cells[k].values.contains(s) && #[trigger] cells[n + k].values.contains(d) ==> t < s + d
}

/// Task `i` could run at time `t` without surely running then: some start
/// is no later than `t`, and from some start every duration reaches past `t`.
pub open spec fn could_run_chirho(cells: Seq<DomainModelChirho>, n: int, i: int, t: int) -> bool {
    &&& !surely_runs_chirho(cells, n, i, t)
    &&& exists|s: i64| #[trigger] cells[i].values.contains(s) && s <= t
    &&& exists|s: i64| #[trigger] cells[i].values.contains(s) && forall|d: i64| #[trigger] cells[n + i].values.contains(d) ==> t < s + d
}

/// What the first `k` tasks that surely run at `t` use at least.
pub open spec fn sure_load_chirho(cells: Seq<DomainModelChirho>, n: int, t: int, k: nat) -> int
    decreases k,
{
    if k == 0 {
        0
    } else {
        sure_load_chirho(cells, n, t, (k - 1) as nat) + if surely_runs_chirho(cells, n, k - 1, t) {
            set_min_chirho(cells[2 * n + k - 1].values) as int
        } else {
            0
        }
    }
}

proof fn lemma_sure_runs_chirho(cells: Seq<DomainModelChirho>, n: int, k: int, t: int)
    requires
        tasks_given_chirho(cells, n),
        0 <= k < n,
    ensures
        surely_runs_chirho(cells, n, k, t) == crate::fd_propagators_chirho::cumulative_must_chirho(cells, n, k, t),
        could_run_chirho(cells, n, k, t) == crate::fd_propagators_chirho::cumulative_may_chirho(cells, n, k, t),
{
    assert(cells[k].values.finite() && !cells[k].values.is_empty());
    assert(cells[n + k].values.finite() && !cells[n + k].values.is_empty());
    lemma_set_bounds_chirho(cells[k].values);
    lemma_set_bounds_chirho(cells[n + k].values);
    let lo = set_min_chirho(cells[k].values);
    let hi = set_max_chirho(cells[k].values);
    let dl = set_min_chirho(cells[n + k].values);
    if surely_runs_chirho(cells, n, k, t) {
        assert(t < lo + dl);
    }
    if exists|s: i64| #[trigger] cells[k].values.contains(s) && forall|d: i64| #[trigger] cells[n + k].values.contains(d) ==> t < s + d {
        let s = choose|s: i64| #[trigger] cells[k].values.contains(s) && forall|d: i64| #[trigger] cells[n + k].values.contains(d) ==> t < s + d;
        assert(t < s + dl);
    }
    if t < hi + dl {
        assert forall|d: i64| #[trigger] cells[n + k].values.contains(d) implies t < hi + d by {}
    }
    if lo <= t {
        assert(cells[k].values.contains(lo));
    }
}

proof fn lemma_sure_load_chirho(cells: Seq<DomainModelChirho>, n: int, t: int, k: nat)
    requires
        tasks_given_chirho(cells, n),
        k <= n,
    ensures
        sure_load_chirho(cells, n, t, k) == crate::fd_propagators_chirho::cumulative_usage_chirho(cells, n, t, k),
    decreases k,
{
    if k > 0 {
        lemma_sure_load_chirho(cells, n, t, (k - 1) as nat);
        lemma_sure_runs_chirho(cells, n, k - 1, t);
        assert(!cells[2 * n + k - 1].values.is_empty());
    }
}

/// Cumulative: every start of a task that would make it run (for its
/// shortest duration) at a time when it could run, but its least demand,
/// on top of the least demands of the tasks that surely run then, is more
/// than the least capacity, is taken out of the task's starts. (The starts
/// it takes out are all of this kind: `law_cumulative_narrows_chirho`.)
pub proof fn law_cumulative_complete_chirho(cells: Seq<DomainModelChirho>, n: int, i: int, s: i64, u: int)
    requires
        0 <= i < n,
        tasks_given_chirho(cells, n),
        !cells[i].values.contains(i64::MIN),
        cells[i].values.contains(s),
        could_run_chirho(cells, n, i, u),
        sure_load_chirho(cells, n, u, n as nat) + set_min_chirho(cells[2 * n + i].values) > set_min_chirho(cells[3 * n].values),
        s <= u < s + set_min_chirho(cells[n + i].values),
    ensures
        !model_is_bottom_chirho(cumulative_spec_chirho(cells, n)[i]),
        !cumulative_spec_chirho(cells, n)[i].values.contains(s),
{
    assert(cells[i].values.finite() && !cells[i].values.is_empty());
    assert(cells[n + i].values.finite() && !cells[n + i].values.is_empty());
    assert(!cells[2 * n + i].values.is_empty());
    assert(!cells[3 * n].values.is_empty());
    lemma_sure_runs_chirho(cells, n, i, u);
    lemma_sure_load_chirho(cells, n, u, n as nat);
    assert(cumulative_overflow_chirho(cells, n, i, u));
    lemma_set_bounds_chirho(cells[i].values);
    lemma_set_bounds_chirho(cells[n + i].values);
    lemma_min_start_chirho(cells, n as nat, i);
    lemma_max_end_chirho(cells, n, n as nat, i);
    assert(min_or_chirho(cells[i], 0) == set_min_chirho(cells[i].values) as int);
    assert(max_or_chirho(cells[i], 0) == set_max_chirho(cells[i].values) as int);
    let start = crate::fd_propagators_chirho::cumulative_start_chirho(cells, n);
    let end = crate::fd_propagators_chirho::cumulative_end_chirho(cells, n);
    assert(start <= u < end);
    lemma_from_drops_chirho(cells, n, crate::fd_propagators_chirho::bottoms_chirho(cells.len()), start, end, u, i, s);
}

/// Element, `result = array[index]`: afterwards the index holds exactly
/// the positions of the array it may take whose element shares a value
/// with the result, whenever there is any such position.
pub proof fn law_element_index_chirho(cells: Seq<DomainModelChirho>, n: int)
    requires
        0 <= n,
        cells.len() == n + 2,
        cells[n].values.finite(),
        exists|idx: i64, v: i64| cells[n].values.contains(idx) && 0 <= idx < n && #[trigger] cells[idx as int].values.contains(v)
            && cells[n + 1].values.contains(v),
    ensures
        forall|idx: i64| #[trigger] taken_in_chirho(cells[n], element_spec_chirho(cells, n)[n]).contains(idx)
            <==> cells[n].values.contains(idx) && 0 <= idx < n && exists|v: i64|
                #[trigger] cells[idx as int].values.contains(v) && cells[n + 1].values.contains(v),
{
    let valid = element_valid_indices_chirho(cells, n);
    let r = element_spec_chirho(cells, n);
    let (i0, v0) = choose|idx: i64, v: i64| cells[n].values.contains(idx) && 0 <= idx < n && #[trigger] cells[idx as int].values.contains(v)
        && cells[n + 1].values.contains(v);
    assert(valid.contains(i0));
    assert(valid.subset_of(cells[n].values));
    vstd::set_lib::lemma_set_subset_finite(cells[n].values, valid);
    lemma_set_bounds_chirho(valid);
    vstd::set_lib::lemma_len_subset(valid, cells[n].values);
    if valid.len() == cells[n].values.len() {
        assert(valid =~= cells[n].values) by {
            if !(valid =~= cells[n].values) {
                let x = choose|x: i64| cells[n].values.contains(x) && !valid.contains(x);
                assert(valid.subset_of(cells[n].values.remove(x)));
                vstd::set_lib::lemma_len_subset(valid, cells[n].values.remove(x));
            }
        }
    }
    assert forall|idx: i64| #[trigger] taken_in_chirho(cells[n], r[n]).contains(idx) <==> valid.contains(idx) by {}
}

/// Cardinality: when the cells fixed to a value (those of `fixed`) and the
/// other cells that could take it (those of `open`) number exactly its
/// minimum count, each of the latter ends fixed to the value, provided it
/// could take no other bounded value.
pub proof fn law_cardinality_forced_chirho(
    cells: Seq<DomainModelChirho>,
    order: Seq<(i64, (usize, usize))>,
    j: int,
    k: int,
    fixed: Set<int>,
    open: Set<int>,
)
    requires
        forall|a: int, b: int| 0 <= a < order.len() && 0 <= b < order.len() && a != b ==> #[trigger] order[a].0 != #[trigger] order[b].0,
        0 <= j < order.len(),
        forall|i: int| 0 <= i < cells.len() ==> (#[trigger] cells[i]).values.finite(),
        forall|i: int| #[trigger] fixed.contains(i) <==> 0 <= i < cells.len() && cells[i].values == set![order[j].0],
        forall|i: int| #[trigger] open.contains(i) <==> 0 <= i < cells.len() && cells[i].values.len() != 1 && cells[i].values.contains(
            order[j].0,
        ),
        fixed.len() + open.len() == order[j].1.0,
        open.contains(k),
        forall|b: int| 0 <= b < order.len() && b != j ==> !cells[k].values.contains(#[trigger] order[b].0),
    ensures
        card_fold_chirho(cells, order, order.len())[k] == (DomainModelChirho {
            values: set![order[j].0],
            min: order[j].0,
            max: order[j].0,
        }),
{
    let v = order[j].0;
    let n = cells.len();
    lemma_counts_exact_chirho(cells, v, fixed, open, n);
    assert(fixed.filter(|i: int| i < n) =~= fixed);
    assert(open.filter(|i: int| i < n) =~= open);
    lemma_fold_forced_chirho(cells, order, j, k, order.len());
}

/// The sets of indices below `m` of the cells fixed to `v` and of the other
/// cells holding `v` are what the counts count.
proof fn lemma_counts_exact_chirho(cells: Seq<DomainModelChirho>, v: i64, fixed: Set<int>, open: Set<int>, m: nat)
    requires
        m <= cells.len(),
        forall|i: int| 0 <= i < cells.len() ==> (#[trigger] cells[i]).values.finite(),
        forall|i: int| #[trigger] fixed.contains(i) <==> 0 <= i < cells.len() && cells[i].values == set![v],
        forall|i: int| #[trigger] open.contains(i) <==> 0 <= i < cells.len() && cells[i].values.len() != 1 && cells[i].values.contains(v),
    ensures
        fixed.filter(|i: int| i < m).finite(),
        open.filter(|i: int| i < m).finite(),
        card_fixed_count_chirho(cells, v, m) == fixed.filter(|i: int| i < m).len(),
        card_provide_count_chirho(cells, v, m) == open.filter(|i: int| i < m).len(),
    decreases m,
{
    let fm = fixed.filter(|i: int| i < m);
    let om = open.filter(|i: int| i < m);
    if m == 0 {
        assert(fm =~= Set::<int>::empty());
        assert(om =~= Set::<int>::empty());
    } else {
        lemma_counts_exact_chirho(cells, v, fixed, open, (m - 1) as nat);
        let fp = fixed.filter(|i: int| i < m - 1);
        let op = open.filter(|i: int| i < m - 1);
        let c = cells[m - 1];
        lemma_set_bounds_chirho(set![v]);
        assert(set![v].len() == 1);
        if c.values.len() == 1 {
            lemma_set_bounds_chirho(c.values);
            let x = set_min_chirho(c.values);
            assert(c.values.remove(x).len() == 0);
            assert(c.values.remove(x) =~= Set::<i64>::empty());
            assert(c.values =~= set![x]);
        }
        if fixed.contains(m - 1) {
            assert(fm =~= fp.insert(m - 1));
        } else {
            assert(fm =~= fp);
        }
        if open.contains(m - 1) {
            assert(om =~= op.insert(m - 1));
        } else {
            assert(om =~= op);
        }
    }
}

proof fn lemma_fold_forced_chirho(cells: Seq<DomainModelChirho>, order: Seq<(i64, (usize, usize))>, j: int, k: int, m: nat)
    requires
        forall|a: int, b: int| 0 <= a < order.len() && 0 <= b < order.len() && a != b ==> #[trigger] order[a].0 != #[trigger] order[b].0,
        0 <= j < m <= order.len(),
        card_fixed_count_chirho(cells, order[j].0, cells.len()) + card_provide_count_chirho(cells, order[j].0, cells.len())
            == order[j].1.0,
        0 <= k < cells.len(),
        card_can_provide_chirho(cells[k], order[j].0),
        forall|b: int| 0 <= b < order.len() && b != j ==> !cells[k].values.contains(#[trigger] order[b].0),
    ensures
        card_fold_chirho(cells, order, m)[k] == (DomainModelChirho { values: set![order[j].0], min: order[j].0, max: order[j].0 }),
    decreases m,
{
    let v = order[j].0;
    let n = cells.len();
    let prev = card_fold_chirho(cells, order, (m - 1) as nat);
    let e = order[m - 1];
    lemma_fold_len_chirho(cells, order, (m - 1) as nat);
    lemma_remove_upto_at_chirho(cells, prev, e.0, n, k);
    let r1 = if card_fixed_count_chirho(cells, e.0, n) >= e.1.1 { card_remove_upto_chirho(cells, prev, e.0, n) } else { prev };
    lemma_assign_upto_at_chirho(cells, r1, e.0, n, k);
    assert(card_fold_chirho(cells, order, m) == card_entry_chirho(cells, prev, e));
    if m - 1 != j {
        lemma_fold_forced_chirho(cells, order, j, k, (m - 1) as nat);
        assert(e.0 != v);
        assert(set![v].remove(e.0) =~= set![v]);
    }
}

/// Table and element leave alone the cells they do not narrow: the cells
/// past the table's arity, and the array cells of element.
pub proof fn law_untouched_cells_chirho(cells: Seq<DomainModelChirho>, tuples: Seq<Seq<i64>>, arity: int, n: int)
    ensures
        forall|i: int| 0 <= i && arity <= i < cells.len() ==> model_is_bottom_chirho(#[trigger] table_spec_chirho(cells, tuples, arity)[i]),
        forall|i: int| 0 <= i < n && cells.len() == n + 2 ==> model_is_bottom_chirho(#[trigger] element_spec_chirho(cells, n)[i]),
{
}

/// Cardinality only touches a cell that is not fixed and holds some
/// bounded value: every other cell is handed back bottom.
pub proof fn law_cardinality_touches_chirho(cells: Seq<DomainModelChirho>, order: Seq<(i64, (usize, usize))>, k: int)
    requires
        0 <= k < cells.len(),
        cells[k].values.len() == 1 || forall|b: int| 0 <= b < order.len() ==> !cells[k].values.contains(#[trigger] order[b].0),
    ensures
        model_is_bottom_chirho(card_fold_chirho(cells, order, order.len())[k]),
{
    lemma_fold_untouched_chirho(cells, order, k, order.len());
}

proof fn lemma_fold_untouched_chirho(cells: Seq<DomainModelChirho>, order: Seq<(i64, (usize, usize))>, k: int, m: nat)
    requires
        m <= order.len(),
        0 <= k < cells.len(),
        cells[k].values.len() == 1 || forall|b: int| 0 <= b < order.len() ==> !cells[k].values.contains(#[trigger] order[b].0),
    ensures
        model_is_bottom_chirho(card_fold_chirho(cells, order, m)[k]),
    decreases m,
{
    lemma_fold_len_chirho(cells, order, m);
    if m > 0 {
        lemma_fold_untouched_chirho(cells, order, k, (m - 1) as nat);
        lemma_fold_len_chirho(cells, order, (m - 1) as nat);
        let prev = card_fold_chirho(cells, order, (m - 1) as nat);
        let e = order[m - 1];
        let n = cells.len();
        assert(!card_can_provide_chirho(cells[k], e.0));
        lemma_remove_upto_at_chirho(cells, prev, e.0, n, k);
        let r1 = if card_fixed_count_chirho(cells, e.0, n) >= e.1.1 { card_remove_upto_chirho(cells, prev, e.0, n) } else { prev };
        lemma_assign_upto_at_chirho(cells, r1, e.0, n, k);
        assert(card_fold_chirho(cells, order, m) == card_entry_chirho(cells, prev, e));
    }
}

/// The value of a finite one-element domain is its only element.
proof fn lemma_singleton_chirho(m: DomainModelChirho)
    requires
        m.values.finite(),
    ensures
        model_singleton_chirho(m) matches Some(v) ==> m.values == set![v],
        forall|w: i64| m.values == set![w] ==> model_singleton_chirho(m) == Some(w),
{
    lemma_set_bounds_chirho(set![0i64]);
    if m.values.len() == 1 {
        lemma_set_bounds_chirho(m.values);
        let x = set_min_chirho(m.values);
        assert(m.values.remove(x).len() == 0);
        assert(m.values.remove(x) =~= Set::<i64>::empty());
        assert(m.values =~= set![x]);
    }
    assert forall|w: i64| m.values == set![w] implies model_singleton_chirho(m) == Some(w) by {
        lemma_set_bounds_chirho(set![w]);
        assert(set![w].len() == 1);
    }
}

/// Not-equals, `a != b`: afterwards each side holds its values other than
/// the value the other side is fixed to, and all of them when the other
/// side is not fixed.
pub proof fn law_not_equals_chirho(a: DomainModelChirho, b: DomainModelChirho)
    requires
        a.values.finite(),
        b.values.finite(),
        !model_is_bottom_chirho(a),
        !model_is_bottom_chirho(b),
    ensures
        forall|w: i64| b.values == set![w] ==> taken_in_chirho(a, not_equals_spec_chirho(a, b)[0]) == a.values.remove(w),
        b.values.len() != 1 ==> taken_in_chirho(a, not_equals_spec_chirho(a, b)[0]) == a.values,
        forall|w: i64| a.values == set![w] ==> taken_in_chirho(b, not_equals_spec_chirho(a, b)[1]) == b.values.remove(w),
        a.values.len() != 1 ==> taken_in_chirho(b, not_equals_spec_chirho(a, b)[1]) == b.values,
{
    lemma_singleton_chirho(a);
    lemma_singleton_chirho(b);
    assert forall|w: i64| b.values == set![w] implies taken_in_chirho(a, not_equals_spec_chirho(a, b)[0]) == a.values.remove(w) by {
        if !a.values.contains(w) {
            assert(a.values.remove(w) =~= a.values);
        }
    }
    assert forall|w: i64| a.values == set![w] implies taken_in_chirho(b, not_equals_spec_chirho(a, b)[1]) == b.values.remove(w) by {
        if !b.values.contains(w) {
            assert(b.values.remove(w) =~= b.values);
        }
    }
}

/// Equals, `a = b`: afterwards both sides hold exactly the values they share.
pub proof fn law_equals_chirho(a: DomainModelChirho, b: DomainModelChirho)
    requires
        !model_is_bottom_chirho(a),
        !model_is_bottom_chirho(b),
    ensures
        taken_in_chirho(a, model_join_chirho(a, b)) == a.values.intersect(b.values),
        taken_in_chirho(b, model_join_chirho(a, b)) == a.values.intersect(b.values),
{
}

/// Some cell of `cells` other than `j`, among the first `k`, is fixed to `x`.
pub open spec fn fixed_elsewhere_chirho(cells: Seq<DomainModelChirho>, j: int, x: i64, k: int) -> bool {
    exists|i: int| 0 <= i < k && i != j && #[trigger] cells[i].values == set![x]
}

/// The result for cell `j` is bottom with nothing to take out, or not
/// bottom and the cell without the values `gone` marks.
spec fn kept_but_chirho(cell: DomainModelChirho, r: DomainModelChirho, gone: spec_fn(i64) -> bool) -> bool {
    ||| model_is_bottom_chirho(r) && forall|x: i64| cell.values.contains(x) ==> !gone(x)
    ||| !model_is_bottom_chirho(r) && forall|x: i64| #[trigger] r.values.contains(x) <==> cell.values.contains(x) && !gone(x)
}

proof fn lemma_kept_but_taken_chirho(cell: DomainModelChirho, r: DomainModelChirho, gone: spec_fn(i64) -> bool)
    requires
        kept_but_chirho(cell, r, gone),
    ensures
        forall|x: i64| #[trigger] taken_in_chirho(cell, r).contains(x) <==> cell.values.contains(x) && !gone(x),
{
}

proof fn lemma_all_different_upto_chirho(cells: Seq<DomainModelChirho>, k: nat, j: int)
    requires
        k <= cells.len(),
        0 <= j < cells.len(),
        !model_is_bottom_chirho(cells[j]),
        forall|i: int| 0 <= i < cells.len() ==> (#[trigger] cells[i]).values.finite(),
    ensures
        all_different_upto_chirho(cells, k).len() == cells.len(),
        kept_but_chirho(cells[j], all_different_upto_chirho(cells, k)[j], |x: i64| fixed_elsewhere_chirho(cells, j, x, k as int)),
    decreases k,
{
    if k > 0 {
        lemma_all_different_upto_chirho(cells, (k - 1) as nat, j);
        let i = k - 1;
        let prev = all_different_upto_chirho(cells, (k - 1) as nat);
        lemma_singleton_chirho(cells[i]);
        let cur = all_different_upto_chirho(cells, k);
        assert(cur == all_different_step_chirho(cells, prev, i));
        assert forall|x: i64| fixed_elsewhere_chirho(cells, j, x, k as int)
            <==> fixed_elsewhere_chirho(cells, j, x, k - 1) || (i != j && cells[i].values == set![x]) by {
            if fixed_elsewhere_chirho(cells, j, x, k as int) {
                let w = choose|w: int| 0 <= w < k && w != j && #[trigger] cells[w].values == set![x];
                if w < k - 1 {
                    assert(fixed_elsewhere_chirho(cells, j, x, k - 1));
                }
            }
            if i != j && cells[i].values == set![x] {
                assert(cells[i].values == set![x]);
            }
        }
        match model_singleton_chirho(cells[i]) {
            Some(v) => {
                assert(forall|x: i64| cells[i].values == set![x] ==> x == v) by {
                    assert forall|x: i64| cells[i].values == set![x] implies x == v by {
                        assert(cells[i].values.contains(x));
                    }
                }
            },
            None => {
                assert(forall|x: i64| cells[i].values != set![x]);
            },
        }
    }
}

/// All-different: afterwards each cell holds exactly its values that no
/// other cell is fixed to.
pub proof fn law_all_different_chirho(cells: Seq<DomainModelChirho>, j: int)
    requires
        0 <= j < cells.len(),
        forall|i: int| 0 <= i < cells.len() ==> !model_is_bottom_chirho(#[trigger] cells[i]) && cells[i].values.finite(),
    ensures
        forall|x: i64| #[trigger] taken_in_chirho(cells[j], all_different_upto_chirho(cells, cells.len())[j]).contains(x)
            <==> cells[j].values.contains(x) && !exists|i: int| 0 <= i < cells.len() && i != j && #[trigger] cells[i].values == set![x],
{
    lemma_all_different_upto_chirho(cells, cells.len(), j);
    lemma_kept_but_taken_chirho(cells[j], all_different_upto_chirho(cells, cells.len())[j],
        |x: i64| fixed_elsewhere_chirho(cells, j, x, cells.len() as int));
}

proof fn lemma_circuit_upto_chirho(cells: Seq<DomainModelChirho>, n: int, k: nat, j: int)
    requires
        k <= n <= cells.len(),
        n <= i64::MAX,
        0 <= j < n,
        !model_is_bottom_chirho(cells[j]),
        forall|i: int| 0 <= i < cells.len() ==> (#[trigger] cells[i]).values.finite(),
    ensures
        circuit_upto_chirho(cells, n, k).len() == cells.len(),
        kept_but_chirho(
            cells[j],
            circuit_upto_chirho(cells, n, k)[j],
            |x: i64| x == j || fixed_elsewhere_chirho(cells, j, x, k as int),
        ),
    decreases k,
{
    if k == 0 {
        assert forall|x: i64| fixed_elsewhere_chirho(cells, j, x, 0) implies false by {
            let w = choose|w: int| 0 <= w < 0 && w != j && #[trigger] cells[w].values == set![x];
        }
        assert((j as i64) as int == j);
        assert(circuit_upto_chirho(cells, n, 0) == circuit_first_chirho(cells, n));
    } else {
        lemma_circuit_upto_chirho(cells, n, (k - 1) as nat, j);
        let i = k - 1;
        let prev = circuit_upto_chirho(cells, n, (k - 1) as nat);
        lemma_singleton_chirho(cells[i]);
        let cur = circuit_upto_chirho(cells, n, k);
        assert(cur == circuit_step_chirho(cells, prev, i, n));
        assert forall|x: i64| fixed_elsewhere_chirho(cells, j, x, k as int)
            <==> fixed_elsewhere_chirho(cells, j, x, k - 1) || (i != j && cells[i].values == set![x]) by {
            if fixed_elsewhere_chirho(cells, j, x, k as int) {
                let w = choose|w: int| 0 <= w < k && w != j && #[trigger] cells[w].values == set![x];
                if w < k - 1 {
                    assert(fixed_elsewhere_chirho(cells, j, x, k - 1));
                }
            }
            if i != j && cells[i].values == set![x] {
                assert(cells[i].values == set![x]);
            }
        }
        match model_singleton_chirho(cells[i]) {
            Some(v) => {
                assert(forall|x: i64| cells[i].values == set![x] ==> x == v) by {
                    assert forall|x: i64| cells[i].values == set![x] implies x == v by {
                        assert(cells[i].values.contains(x));
                    }
                }
            },
            None => {
                assert(forall|x: i64| cells[i].values != set![x]);
            },
        }
    }
}

/// Circuit over `n` nodes, each cell holding a node's possible successors:
/// afterwards each node holds exactly its successors other than itself and
/// other than the successor another node is fixed to; the cells past the
/// nodes are left alone.
pub proof fn law_circuit_chirho(cells: Seq<DomainModelChirho>, n: int, j: int)
    requires
        0 <= j < cells.len(),
        0 <= n <= cells.len(),
        n <= i64::MAX,
        forall|i: int| 0 <= i < cells.len() ==> !model_is_bottom_chirho(#[trigger] cells[i]) && cells[i].values.finite(),
    ensures
        j < n ==> forall|x: i64| #[trigger] taken_in_chirho(cells[j], circuit_upto_chirho(cells, n, n as nat)[j]).contains(x)
            <==> cells[j].values.contains(x) && x != j && !exists|i: int| 0 <= i < n && i != j && #[trigger] cells[i].values == set![x],
        j >= n ==> model_is_bottom_chirho(circuit_upto_chirho(cells, n, n as nat)[j]),
{
    if j < n {
        lemma_circuit_upto_chirho(cells, n, n as nat, j);
        lemma_kept_but_taken_chirho(cells[j], circuit_upto_chirho(cells, n, n as nat)[j],
            |x: i64| x == j || fixed_elsewhere_chirho(cells, j, x, n));
    } else {
        lemma_circuit_far_chirho(cells, n, n as nat, j);
    }
}

proof fn lemma_circuit_far_chirho(cells: Seq<DomainModelChirho>, n: int, k: nat, j: int)
    requires
        k <= n <= j < cells.len(),
    ensures
        circuit_upto_chirho(cells, n, k).len() == cells.len(),
        model_is_bottom_chirho(circuit_upto_chirho(cells, n, k)[j]),
    decreases k,
{
    if k > 0 {
        lemma_circuit_far_chirho(cells, n, (k - 1) as nat, j);
    }
}

/// Cumulative: the starts of a task only narrow, and each start taken out
/// would make the task run (for its shortest duration) at a time when it
/// could run but its least demand, on top of the least demands of the
/// tasks that surely run then, is more than the least capacity; the other
/// cells are left alone.
pub proof fn law_cumulative_sound_chirho(cells: Seq<DomainModelChirho>, n: int, i: int)
    requires
        0 <= i < n,
        tasks_given_chirho(cells, n),
    ensures
        forall|j: int| n <= j < cells.len() ==> model_is_bottom_chirho(#[trigger] cumulative_spec_chirho(cells, n)[j]),
        model_is_bottom_chirho(cumulative_spec_chirho(cells, n)[i]) || {
            &&& cumulative_spec_chirho(cells, n)[i].values.subset_of(cells[i].values)
            &&& forall|s: i64| cells[i].values.contains(s) && !#[trigger] cumulative_spec_chirho(cells, n)[i].values.contains(s)
                ==> exists|u: int| {
                    &&& s <= u < s + set_min_chirho(cells[n + i].values)
                    &&& #[trigger] could_run_chirho(cells, n, i, u)
                    &&& sure_load_chirho(cells, n, u, n as nat) + set_min_chirho(cells[2 * n + i].values) > set_min_chirho(
                        cells[3 * n].values,
                    )
                }
        },
{
    crate::fd_propagators_chirho::law_cumulative_narrows_chirho(cells, n);
    let r = cumulative_spec_chirho(cells, n);
    assert(!cells[n + i].values.is_empty());
    assert(!cells[2 * n + i].values.is_empty());
    assert(!cells[3 * n].values.is_empty());
    let start = crate::fd_propagators_chirho::cumulative_start_chirho(cells, n);
    let end = crate::fd_propagators_chirho::cumulative_end_chirho(cells, n);
    let to = if start <= end { end } else { start };
    if !model_is_bottom_chirho(r[i]) {
        assert forall|s: i64| cells[i].values.contains(s) && !#[trigger] r[i].values.contains(s)
            implies exists|u: int| {
                &&& s <= u < s + set_min_chirho(cells[n + i].values)
                &&& #[trigger] could_run_chirho(cells, n, i, u)
                &&& sure_load_chirho(cells, n, u, n as nat) + set_min_chirho(cells[2 * n + i].values) > set_min_chirho(cells[3 * n].values)
            } by {
            assert(crate::fd_propagators_chirho::cumulative_justified_chirho(cells, n, i, s, start, to));
            let u = choose|u: int| start <= u < to && #[trigger] cumulative_overflow_chirho(cells, n, i, u)
                && u - min_or_chirho(cells[n + i], 1) + 1 <= s <= u;
            lemma_sure_runs_chirho(cells, n, i, u);
            lemma_sure_load_chirho(cells, n, u, n as nat);
            assert(could_run_chirho(cells, n, i, u));
        }
    }
}

} // verus!
