//! Lattices of partial information and the propagators that refine them.

use vstd::prelude::*;

verus! {

/// A join-semilattice of partial information.
///
/// Joining combines two pieces of information about the same quantity;
/// the model of the result is `spec_join_chirho` of the two models.
pub trait LatticeChirho: Sized + View {
    /// The join, on models.
    spec fn spec_join_chirho(a: Self::V, b: Self::V) -> Self::V;

    /// Joins two pieces of information.
    fn join_chirho(&self, other: &Self) -> (r: Self)
        ensures
            r@ == Self::spec_join_chirho(self@, other@),
    ;

    /// A copy of this value.
    fn copy_chirho(&self) -> (r: Self)
        ensures
            r@ == self@,
    ;

    /// Whether two values carry the same information.
    fn same_chirho(&self, other: &Self) -> (r: bool)
        ensures
            r == (self@ == other@),
    ;
}

/// A lattice with a least element (no information) and a greatest element
/// (contradiction).
pub trait BoundedLatticeChirho: LatticeChirho {
    /// The model of the least element.
    spec fn spec_bottom_chirho() -> Self::V;

    /// The model of the greatest element.
    spec fn spec_top_chirho() -> Self::V;

    /// Whether a model counts as "no information".
    spec fn spec_is_bottom_chirho(v: Self::V) -> bool;

    /// Whether a model counts as a contradiction.
    spec fn spec_is_top_chirho(v: Self::V) -> bool;

    /// The least element.
    fn bottom_chirho() -> (r: Self)
        ensures
            r@ == Self::spec_bottom_chirho(),
    ;

    /// The greatest element.
    fn top_chirho() -> (r: Self)
        ensures
            r@ == Self::spec_top_chirho(),
    ;

    /// Whether this value is "no information".
    fn is_bottom_chirho(&self) -> (r: bool)
        ensures
            r == Self::spec_is_bottom_chirho(self@),
    ;

    /// Whether this value is a contradiction.
    fn is_top_chirho(&self) -> (r: bool)
        ensures
            r == Self::spec_is_top_chirho(self@),
    ;
}

/// The views of a sequence of values.
pub open spec fn views_chirho<L: View>(s: Seq<L>) -> Seq<L::V> {
    s.map_values(|x: L| x@)
}

/// A propagator: reads a tuple of cells and proposes refinements for them.
///
/// An output that is bottom means "nothing new for this cell".
pub trait PropagatorFnChirho<L: BoundedLatticeChirho> {
    /// The number of cells this propagator reads.
    spec fn spec_arity_chirho(&self) -> int;

    /// What the propagator hands back for cells with the given views.
    spec fn spec_outputs_chirho(&self, cells: Seq<L::V>, out: Seq<L::V>) -> bool;

    /// The number of cells this propagator reads.
    fn arity_chirho(&self) -> (r: usize)
        ensures
            r == self.spec_arity_chirho(),
    ;

    /// Computes refinements for the given cells, one per cell at most.
    fn propagate_chirho(&self, cells: &[L]) -> (r: Vec<L>)
        requires
            cells@.len() >= self.spec_arity_chirho(),
        ensures
            r@.len() <= cells@.len(),
            self.spec_outputs_chirho(views_chirho(cells@), views_chirho(r@)),
    ;
}


/// `x` joined with each of `s` in turn.
pub open spec fn join_all_chirho<L: LatticeChirho>(x: L::V, s: Seq<L::V>) -> L::V
    decreases s.len(),
{
    if s.len() == 0 {
        x
    } else {
        L::spec_join_chirho(join_all_chirho::<L>(x, s.drop_last()), s.last())
    }
}

/// Whether `y` is what `x` becomes by joining some information into it:
/// information only grows.
pub open spec fn grows_to_chirho<L: LatticeChirho>(x: L::V, y: L::V) -> bool {
    exists|s: Seq<L::V>| y == #[trigger] join_all_chirho::<L>(x, s)
}

/// Whether each value of `b` grows from the value of `a` at its position.
pub open spec fn all_grow_chirho<L: LatticeChirho>(a: Seq<L::V>, b: Seq<L::V>) -> bool {
    &&& a.len() == b.len()
    &&& forall|i: int| 0 <= i < a.len() ==> #[trigger] grows_to_chirho::<L>(a[i], b[i])
}

/// Every value grows to itself, by joining nothing.
pub proof fn lemma_grows_refl_chirho<L: LatticeChirho>(a: Seq<L::V>)
    ensures
        all_grow_chirho::<L>(a, a),
{
    assert forall|i: int| 0 <= i < a.len() implies #[trigger] grows_to_chirho::<L>(a[i], a[i]) by {
        assert(join_all_chirho::<L>(a[i], Seq::empty()) == a[i]);
    }
}

/// Joining one more piece of information into one value keeps growth.
pub proof fn lemma_grows_step_chirho<L: LatticeChirho>(a: Seq<L::V>, b: Seq<L::V>, c: int, v: L::V)
    requires
        all_grow_chirho::<L>(a, b),
        0 <= c < b.len(),
    ensures
        all_grow_chirho::<L>(a, b.update(c, L::spec_join_chirho(b[c], v))),
{
    let b2 = b.update(c, L::spec_join_chirho(b[c], v));
    assert forall|i: int| 0 <= i < a.len() implies #[trigger] grows_to_chirho::<L>(a[i], b2[i]) by {
        if i == c {
            assert(grows_to_chirho::<L>(a[i], b[i]));
            let s = choose|s: Seq<L::V>| b[i] == #[trigger] join_all_chirho::<L>(a[i], s);
            assert(s.push(v).drop_last() =~= s);
            assert(b2[i] == join_all_chirho::<L>(a[i], s.push(v)));
        }
    }
}

/// Joining `t` after `s` is joining `s + t`.
pub proof fn lemma_join_all_append_chirho<L: LatticeChirho>(x: L::V, s: Seq<L::V>, t: Seq<L::V>)
    ensures
        join_all_chirho::<L>(join_all_chirho::<L>(x, s), t) == join_all_chirho::<L>(x, s + t),
    decreases t.len(),
{
    if t.len() == 0 {
        assert(s + t =~= s);
    } else {
        lemma_join_all_append_chirho::<L>(x, s, t.drop_last());
        assert((s + t).drop_last() =~= s + t.drop_last());
        assert((s + t).last() == t.last());
    }
}

/// Growth composes.
pub proof fn lemma_grows_trans_chirho<L: LatticeChirho>(a: Seq<L::V>, b: Seq<L::V>, c: Seq<L::V>)
    requires
        all_grow_chirho::<L>(a, b),
        all_grow_chirho::<L>(b, c),
    ensures
        all_grow_chirho::<L>(a, c),
{
    assert forall|i: int| 0 <= i < a.len() implies #[trigger] grows_to_chirho::<L>(a[i], c[i]) by {
        assert(grows_to_chirho::<L>(a[i], b[i]));
        assert(grows_to_chirho::<L>(b[i], c[i]));
        let s = choose|s: Seq<L::V>| b[i] == #[trigger] join_all_chirho::<L>(a[i], s);
        let u = choose|u: Seq<L::V>| c[i] == #[trigger] join_all_chirho::<L>(b[i], u);
        lemma_join_all_append_chirho::<L>(a[i], s, u);
        assert(c[i] == join_all_chirho::<L>(a[i], s + u));
    }
}

} // verus!
