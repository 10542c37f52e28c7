//! Finite domains: sets of possible integer values, refined by intersection.
//!
//! Join is intersection (narrowing possibilities). Bottom is marked by the
//! bounds `i64::MIN` and `i64::MAX` and means "no information"; top is an
//! empty domain that is not bottom and means "no value possible".

use std::collections::BTreeSet;
use vstd::prelude::*;
use vstd::std_specs::btree::spec_btree_keys_iter;
use vstd::std_specs::iter::IteratorSpec;

use crate::lattice_chirho::{BoundedLatticeChirho, LatticeChirho};
use crate::text_chirho::{int_text_chirho, join_chirho, push_int_chirho, push_str_chirho};
use crate::sorted_chirho::{
    elems_chirho, interval_set_chirho, lemma_increasing_unique_chirho, outside_chirho,
    sorted_contains_chirho, sorted_intersect_chirho, sorted_keep_outside_chirho,
    sorted_range_chirho, strictly_increasing_chirho, vec_i64_eq_chirho,
};

verus! {

/// The model of a finite domain: its possible values and its recorded bounds.
pub struct DomainModelChirho {
    pub values: Set<i64>,
    pub min: i64,
    pub max: i64,
}

/// A finite domain representing a set of possible values.
pub struct FiniteDomainChirho {
    /// The possible values.
    set_chirho: BTreeSet<i64>,
    /// The lower bound the domain was created with.
    min_chirho: i64,
    /// The upper bound the domain was created with.
    max_chirho: i64,
}

impl View for FiniteDomainChirho {
    type V = DomainModelChirho;

    closed spec fn view(&self) -> DomainModelChirho {
        DomainModelChirho { values: self.set_chirho@, min: self.min_chirho, max: self.max_chirho }
    }
}

/// Whether a model is the "no information" marker.
pub open spec fn model_is_bottom_chirho(m: DomainModelChirho) -> bool {
    m.min == i64::MIN && m.max == i64::MAX
}

/// Whether a model is a contradiction.
pub open spec fn model_is_top_chirho(m: DomainModelChirho) -> bool {
    m.values.is_empty() && !model_is_bottom_chirho(m)
}

/// The join of two models: bottom is the identity, otherwise the values
/// and the bounds are intersected (so two informative domains never join
/// to "no information").
pub open spec fn model_join_chirho(a: DomainModelChirho, b: DomainModelChirho) -> DomainModelChirho {
    if model_is_bottom_chirho(a) {
        b
    } else if model_is_bottom_chirho(b) {
        a
    } else {
        DomainModelChirho {
            values: a.values.intersect(b.values),
            min: if a.min >= b.min { a.min } else { b.min },
            max: if a.max <= b.max { a.max } else { b.max },
        }
    }
}

/// Whether `v` is possible in `m`: every value is possible in the "no
/// information" domain, else the values it holds are.
pub open spec fn model_contains_chirho(m: DomainModelChirho, v: i64) -> bool {
    model_is_bottom_chirho(m) || m.values.contains(v)
}

/// The model of the bottom element.
pub open spec fn model_bottom_chirho() -> DomainModelChirho {
    DomainModelChirho { values: Set::empty(), min: i64::MIN, max: i64::MAX }
}

/// The model of the empty domain.
pub open spec fn model_empty_chirho() -> DomainModelChirho {
    DomainModelChirho { values: Set::empty(), min: 0, max: 0 }
}

/// The least element of a non-empty finite set of integers.
#[verifier::opaque]
pub open spec fn set_min_chirho(s: Set<i64>) -> i64 {
    choose|m: i64| s.contains(m) && forall|x: i64| s.contains(x) ==> m <= x
}

/// The greatest element of a non-empty finite set of integers.
#[verifier::opaque]
pub open spec fn set_max_chirho(s: Set<i64>) -> i64 {
    choose|m: i64| s.contains(m) && forall|x: i64| s.contains(x) ==> x <= m
}

/// The model of a domain built from a set of values: the bounds are the
/// least and greatest value, or 0 for an empty set.
pub open spec fn model_from_set_chirho(s: Set<i64>) -> DomainModelChirho {
    DomainModelChirho {
        values: s,
        min: if s.is_empty() { 0 } else { set_min_chirho(s) },
        max: if s.is_empty() { 0 } else { set_max_chirho(s) },
    }
}

/// The first and last elements of an increasing sequence are its least and greatest elements.
pub proof fn lemma_sorted_bounds_chirho(s: Seq<i64>)
    requires
        strictly_increasing_chirho(s),
        s.len() > 0,
    ensures
        set_min_chirho(elems_chirho(s)) == s[0],
        set_max_chirho(elems_chirho(s)) == s[s.len() - 1],
{
    let e = elems_chirho(s);
    assert(e.contains(s[0]));
    assert(e.contains(s[s.len() - 1]));
    assert forall|x: i64| e.contains(x) implies s[0] <= x && x <= s[s.len() - 1] by {
        let i = choose|i: int| 0 <= i < s.len() && s[i] == x;
    }
    reveal(set_min_chirho);
    reveal(set_max_chirho);
    let m = set_min_chirho(e);
    assert(e.contains(m) && forall|x: i64| e.contains(x) ==> m <= x);
    assert(m == s[0]) by {
        assert(m <= s[0]);
        assert(s[0] <= m);
    }
    let n = set_max_chirho(e);
    assert(e.contains(n) && forall|x: i64| e.contains(x) ==> x <= n);
    assert(n == s[s.len() - 1]) by {
        assert(n >= s[s.len() - 1]);
        assert(s[s.len() - 1] >= n);
    }
}

/// A strictly increasing sequence holds as many elements as its set.
pub proof fn lemma_sorted_len_chirho(s: Seq<i64>)
    requires
        strictly_increasing_chirho(s),
    ensures
        elems_chirho(s).len() == s.len(),
        elems_chirho(s).finite(),
{
    assert(s.no_duplicates());
    s.unique_seq_to_set();
    vstd::seq_lib::seq_to_set_is_finite(s);
}

/// The texts of the integers of `s`.
pub open spec fn ints_text_chirho(s: Seq<i64>) -> Seq<Seq<char>> {
    s.map_values(|v: i64| int_text_chirho(v as int))
}

/// How a domain with the increasing values `s` prints: `∅` when there is
/// none; its values in braces, separated by `, `, when there are at most
/// five; else its least and greatest value in braces as `lo..hi`.
pub open spec fn domain_text_chirho(s: Seq<i64>) -> Seq<char> {
    if s.len() == 0 {
        "∅"@
    } else if s.len() <= 5 {
        "{"@ + join_chirho(ints_text_chirho(s), ", "@) + "}"@
    } else {
        "{"@ + int_text_chirho(s[0] as int) + ".."@ + int_text_chirho(s.last() as int) + "}"@
    }
}

impl FiniteDomainChirho {
    /// The values, in increasing order.
    fn sorted_chirho(&self) -> (v: Vec<i64>)
        ensures
            strictly_increasing_chirho(v@),
            elems_chirho(v@) == self@.values,
    {
        btree_set_to_vec_chirho(&self.set_chirho)
    }

    /// A domain holding the given values, with the given bounds.
    fn build_chirho(values: &Vec<i64>, min_chirho: i64, max_chirho: i64) -> (r: Self)
        ensures
            r@ == (DomainModelChirho { values: elems_chirho(values@), min: min_chirho, max: max_chirho }),
    {
        FiniteDomainChirho { set_chirho: vec_to_btree_set_chirho(values), min_chirho, max_chirho }
    }

    /// Builds a domain from an increasing vector, with bounds taken from its ends.
    fn from_sorted_chirho(values: Vec<i64>) -> (r: Self)
        requires
            strictly_increasing_chirho(values@),
        ensures
            r@ == model_from_set_chirho(elems_chirho(values@)),
    {
        let n = values.len();
        let (min_chirho, max_chirho) = if n == 0 { (0i64, 0i64) } else { (values[0], values[n - 1]) };
        proof {
            if n > 0 {
                lemma_sorted_bounds_chirho(values@);
                assert(elems_chirho(values@).contains(values@[0]));
            } else {
                assert(elems_chirho(values@) =~= Set::empty());
            }
        }
        Self::build_chirho(&values, min_chirho, max_chirho)
    }

    /// Builds a domain from an increasing vector of values; its bounds are
    /// the least and greatest value, or 0 when there is none.
    pub fn from_sorted_vec_chirho(values: Vec<i64>) -> (r: Self)
        requires
            strictly_increasing_chirho(values@),
        ensures
            r@ == model_from_set_chirho(elems_chirho(values@)),
    {
        Self::from_sorted_chirho(values)
    }

    /// Creates a domain with all values in `[min, max]`.
    pub fn range_chirho(min_chirho: i64, max_chirho: i64) -> (r: Self)
        ensures
            r@ == (DomainModelChirho { values: interval_set_chirho(min_chirho, max_chirho), min: min_chirho, max: max_chirho }),
    {
        let values_chirho = sorted_range_chirho(min_chirho, max_chirho);
        Self::build_chirho(&values_chirho, min_chirho, max_chirho)
    }

    /// Creates a domain with a single value.
    pub fn singleton_chirho(value_chirho: i64) -> (r: Self)
        ensures
            r@ == (DomainModelChirho { values: set![value_chirho], min: value_chirho, max: value_chirho }),
    {
        let mut values_chirho: Vec<i64> = Vec::new();
        values_chirho.push(value_chirho);
        proof {
            assert(elems_chirho(values_chirho@) =~= set![value_chirho]) by {
                assert(values_chirho@[0] == value_chirho);
            }
        }
        Self::build_chirho(&values_chirho, value_chirho, value_chirho)
    }

    /// Creates a domain with all values in `[min, max]` except one.
    pub fn all_except_chirho(exclude_chirho: i64, min_chirho: i64, max_chirho: i64) -> (r: Self)
        ensures
            r@ == (DomainModelChirho {
                values: interval_set_chirho(min_chirho, max_chirho).remove(exclude_chirho),
                min: min_chirho,
                max: max_chirho,
            }),
    {
        let all = sorted_range_chirho(min_chirho, max_chirho);
        let values_chirho = sorted_keep_outside_chirho(&all, exclude_chirho, exclude_chirho);
        proof {
            assert(elems_chirho(values_chirho@) =~= interval_set_chirho(min_chirho, max_chirho).remove(exclude_chirho));
        }
        Self::build_chirho(&values_chirho, min_chirho, max_chirho)
    }

    /// Creates a domain from a set of values; its bounds are the least and
    /// greatest value, or 0 when the set is empty.
    pub fn from_set_chirho(values_chirho: BTreeSet<i64>) -> (r: Self)
        ensures
            r@ == model_from_set_chirho(values_chirho@),
    {
        let v = btree_set_to_vec_chirho(&values_chirho);
        Self::from_sorted_chirho(v)
    }

    /// Creates an empty domain (contradiction).
    pub fn empty_chirho() -> (r: Self)
        ensures
            r@ == model_empty_chirho(),
    {
        let r = Self::build_chirho(&Vec::new(), 0, 0);
        proof {
            assert(r@.values =~= Set::empty());
        }
        r
    }

    /// Whether a value is possible in a domain: every value is possible in
    /// the "no information" domain, else the values held are.
    pub fn contains_chirho(&self, value_chirho: i64) -> (r: bool)
        ensures
            r == model_contains_chirho(self@, value_chirho),
    {
        if self.is_bottom_chirho() {
            true
        } else {
            self.has_value_chirho(value_chirho)
        }
    }

    /// Whether the domain holds a value among its listed values.
    pub(crate) fn has_value_chirho(&self, value_chirho: i64) -> (r: bool)
        ensures
            r == self@.values.contains(value_chirho),
    {
        let sv_chirho = self.sorted_chirho();
        sorted_contains_chirho(&sv_chirho, value_chirho)
    }

    /// Returns the number of possible values.
    pub fn size_chirho(&self) -> (r: usize)
        ensures
            r == self@.values.len(),
            self@.values.finite(),
    {
        let sv_chirho = self.sorted_chirho();
        proof {
            lemma_sorted_len_chirho(sv_chirho@);
        }
        sv_chirho.len()
    }

    /// Returns true if this is a singleton (exactly one value).
    pub fn is_singleton_chirho(&self) -> (r: bool)
        ensures
            r == (self@.values.len() == 1),
            self@.values.finite(),
    {
        self.size_chirho() == 1
    }

    /// Returns the singleton value, if this is a singleton.
    pub fn get_singleton_chirho(&self) -> (r: Option<i64>)
        ensures
            self@.values.finite(),
            r == (if self@.values.len() == 1 { Some(set_min_chirho(self@.values)) } else { None::<i64> }),
            r matches Some(v) ==> self@.values == set![v],
    {
        let sv_chirho = self.sorted_chirho();
        proof {
            lemma_sorted_len_chirho(sv_chirho@);
        }
        if sv_chirho.len() == 1 {
            proof {
                lemma_sorted_bounds_chirho(sv_chirho@);
                assert(self@.values =~= set![sv_chirho@[0]]);
            }
            Some(sv_chirho[0])
        } else {
            None
        }
    }

    /// The text of the domain: see `domain_text_chirho`, taken of its values
    /// in increasing order.
    pub fn to_text_chirho(&self) -> (r: String)
        ensures
            forall|s: Seq<i64>| strictly_increasing_chirho(s) && elems_chirho(s) == self@.values
                ==> r@ == domain_text_chirho(s),
    {
        let sv_chirho = self.sorted_chirho();
        let n = sv_chirho.len();
        let mut r = String::new();
        if n == 0 {
            push_str_chirho(&mut r, "∅");
        } else if n <= 5 {
            push_str_chirho(&mut r, "{");
            let ghost start = r@;
            let mut i: usize = 0;
            while i < n
                invariant
                    n == sv_chirho@.len(),
                    0 < n <= 5,
                    i <= n,
                    r@ == start + join_chirho(ints_text_chirho(sv_chirho@.take(i as int)), ", "@),
                decreases n - i,
            {
                let ghost before = r@;
                if i > 0 {
                    push_str_chirho(&mut r, ", ");
                }
                push_int_chirho(&mut r, sv_chirho[i]);
                proof {
                    let p = ints_text_chirho(sv_chirho@.take(i + 1));
                    assert(p.drop_last() =~= ints_text_chirho(sv_chirho@.take(i as int)));
                    assert(p.last() == int_text_chirho(sv_chirho@[i as int] as int));
                    if i == 0 {
                        assert(p.len() == 1);
                        assert(r@ =~= start + join_chirho(p, ", "@));
                    } else {
                        assert(r@ =~= start + join_chirho(p, ", "@));
                    }
                }
                i = i + 1;
            }
            assert(sv_chirho@.take(n as int) =~= sv_chirho@);
            push_str_chirho(&mut r, "}");
        } else {
            push_str_chirho(&mut r, "{");
            push_int_chirho(&mut r, sv_chirho[0]);
            push_str_chirho(&mut r, "..");
            push_int_chirho(&mut r, sv_chirho[n - 1]);
            push_str_chirho(&mut r, "}");
        }
        proof {
            assert forall|s: Seq<i64>| strictly_increasing_chirho(s) && elems_chirho(s) == self@.values implies r@ == domain_text_chirho(s) by {
                lemma_increasing_unique_chirho(s, sv_chirho@);
                assert(r@ =~= domain_text_chirho(sv_chirho@));
            }
        }
        r
    }

    /// Returns the possible values in increasing order.
    pub fn iter_chirho(&self) -> (r: Vec<i64>)
        ensures
            strictly_increasing_chirho(r@),
            elems_chirho(r@) == self@.values,
    {
        self.sorted_chirho()
    }

    /// Returns the minimum possible value.
    pub fn min_value_chirho(&self) -> (r: Option<i64>)
        ensures
            r == (if self@.values.is_empty() { None::<i64> } else { Some(set_min_chirho(self@.values)) }),
    {
        let sv_chirho = self.sorted_chirho();
        if sv_chirho.len() == 0 {
            proof { assert(self@.values =~= Set::empty()); }
            None
        } else {
            proof {
                lemma_sorted_bounds_chirho(sv_chirho@);
                assert(self@.values.contains(sv_chirho@[0]));
            }
            Some(sv_chirho[0])
        }
    }

    /// Returns the maximum possible value.
    pub fn max_value_chirho(&self) -> (r: Option<i64>)
        ensures
            r == (if self@.values.is_empty() { None::<i64> } else { Some(set_max_chirho(self@.values)) }),
    {
        let sv_chirho = self.sorted_chirho();
        let n = sv_chirho.len();
        if n == 0 {
            proof { assert(self@.values =~= Set::empty()); }
            None
        } else {
            proof {
                lemma_sorted_bounds_chirho(sv_chirho@);
                assert(self@.values.contains(sv_chirho@[n - 1]));
            }
            Some(sv_chirho[n - 1])
        }
    }

    /// Removes a value from the domain, keeping the bounds.
    pub fn remove_chirho(&self, value_chirho: i64) -> (r: Self)
        ensures
            r@ == (DomainModelChirho { values: self@.values.remove(value_chirho), min: self@.min, max: self@.max }),
    {
        let sv_chirho = self.sorted_chirho();
        let values_chirho = sorted_keep_outside_chirho(&sv_chirho, value_chirho, value_chirho);
        proof {
            assert(elems_chirho(values_chirho@) =~= self@.values.remove(value_chirho));
        }
        Self::build_chirho(&values_chirho, self.min_chirho, self.max_chirho)
    }

    /// Keeps only the values `v` with `v < lo || v > hi`, for bounds of any
    /// size; the bounds become those of the values kept.
    pub fn keep_outside_wide_chirho(&self, lo: i128, hi: i128) -> (r: Self)
        ensures
            r@ == model_from_set_chirho(self@.values.filter(|v: i64| v < lo || v > hi)),
    {
        let sv_chirho = self.sorted_chirho();
        if lo > hi || hi < (i64::MIN as i128) || lo > (i64::MAX as i128) {
            proof {
                assert(self@.values.filter(|v: i64| v < lo || v > hi) =~= self@.values);
            }
            let values_chirho = sorted_keep_outside_chirho(&sv_chirho, 1, 0);
            proof {
                assert(elems_chirho(values_chirho@) =~= self@.values);
            }
            Self::from_sorted_chirho(values_chirho)
        } else {
            let l: i64 = if lo < (i64::MIN as i128) { i64::MIN } else { lo as i64 };
            let h: i64 = if hi > (i64::MAX as i128) { i64::MAX } else { hi as i64 };
            let values_chirho = sorted_keep_outside_chirho(&sv_chirho, l, h);
            proof {
                assert(self@.values.filter(|v: i64| outside_chirho(v, l, h)) =~= self@.values.filter(|v: i64| v < lo || v > hi));
            }
            Self::from_sorted_chirho(values_chirho)
        }
    }

    /// Keeps only the values outside `[lo, hi]`; the bounds become those of the values kept.
    pub fn keep_outside_chirho(&self, lo: i64, hi: i64) -> (r: Self)
        ensures
            r@ == model_from_set_chirho(self@.values.filter(|v: i64| outside_chirho(v, lo, hi))),
    {
        let sv_chirho = self.sorted_chirho();
        let values_chirho = sorted_keep_outside_chirho(&sv_chirho, lo, hi);
        Self::from_sorted_chirho(values_chirho)
    }
}

impl Clone for FiniteDomainChirho {
    fn clone(&self) -> (r: Self)
        ensures
            r@ == self@,
    {
        FiniteDomainChirho { set_chirho: self.set_chirho.clone(), min_chirho: self.min_chirho, max_chirho: self.max_chirho }
    }
}

impl PartialEq for FiniteDomainChirho {
    fn eq(&self, other: &Self) -> (r: bool) {
        let sv_chirho = self.sorted_chirho();
        let ov_chirho = other.sorted_chirho();
        proof {
            if self@ == other@ {
                lemma_increasing_unique_chirho(sv_chirho@, ov_chirho@);
            }
        }
        self.min_chirho == other.min_chirho && self.max_chirho == other.max_chirho
            && vec_i64_eq_chirho(&sv_chirho, &ov_chirho)
    }
}

impl vstd::std_specs::cmp::PartialEqSpecImpl for FiniteDomainChirho {
    open spec fn obeys_eq_spec() -> bool {
        true
    }

    open spec fn eq_spec(&self, other: &Self) -> bool {
        self@ == other@
    }
}

impl LatticeChirho for FiniteDomainChirho {
    open spec fn spec_join_chirho(a: DomainModelChirho, b: DomainModelChirho) -> DomainModelChirho {
        model_join_chirho(a, b)
    }

    /// Bottom is the identity; otherwise the values are intersected.
    fn join_chirho(&self, other_chirho: &Self) -> (r: Self) {
        if self.is_bottom_chirho() {
            return other_chirho.clone();
        }
        if other_chirho.is_bottom_chirho() {
            return self.clone();
        }
        let sv_chirho = self.sorted_chirho();
        let ov_chirho = other_chirho.sorted_chirho();
        let values_chirho = sorted_intersect_chirho(&sv_chirho, &ov_chirho);
        let min_chirho = if self.min_chirho >= other_chirho.min_chirho { self.min_chirho } else { other_chirho.min_chirho };
        let max_chirho = if self.max_chirho <= other_chirho.max_chirho { self.max_chirho } else { other_chirho.max_chirho };
        Self::build_chirho(&values_chirho, min_chirho, max_chirho)
    }

    fn copy_chirho(&self) -> (r: Self) {
        self.clone()
    }

    fn same_chirho(&self, other: &Self) -> (r: bool) {
        self.eq(other)
    }
}

impl BoundedLatticeChirho for FiniteDomainChirho {
    open spec fn spec_bottom_chirho() -> DomainModelChirho {
        model_bottom_chirho()
    }

    open spec fn spec_top_chirho() -> DomainModelChirho {
        model_empty_chirho()
    }

    open spec fn spec_is_bottom_chirho(v: DomainModelChirho) -> bool {
        model_is_bottom_chirho(v)
    }

    open spec fn spec_is_top_chirho(v: DomainModelChirho) -> bool {
        model_is_top_chirho(v)
    }

    /// "All values possible": an empty value set marked by the widest bounds.
    fn bottom_chirho() -> (r: Self) {
        let r = Self::build_chirho(&Vec::new(), i64::MIN, i64::MAX);
        proof {
            assert(r@.values =~= Set::empty());
        }
        r
    }

    /// The empty domain.
    fn top_chirho() -> (r: Self) {
        Self::empty_chirho()
    }

    fn is_bottom_chirho(&self) -> (r: bool) {
        self.min_chirho == i64::MIN && self.max_chirho == i64::MAX
    }

    fn is_top_chirho(&self) -> (r: bool) {
        self.set_chirho.is_empty() && !self.is_bottom_chirho()
    }
}

/// A `BTreeSet` of the values of a vector.
fn vec_to_btree_set_chirho(v: &Vec<i64>) -> (s: BTreeSet<i64>)
    ensures
        s@ == elems_chirho(v@),
{
    proof { crate::order_chirho::lemma_i64_ordered_chirho(); }
    let mut s: BTreeSet<i64> = BTreeSet::new();
    let mut i: usize = 0;
    while i < v.len()
        invariant
            0 <= i <= v@.len(),
            crate::order_chirho::i64_ordered_chirho(),
            s@ == elems_chirho(v@.take(i as int)),
        decreases v@.len() - i,
    {
        s.insert(v[i]);
        proof {
            v@.take(i as int).lemma_push_to_set_commute(v@[i as int]);
            assert(v@.take(i + 1) =~= v@.take(i as int).push(v@[i as int]));
        }
        i = i + 1;
    }
    assert(v@.take(i as int) =~= v@);
    s
}

/// The values of a `BTreeSet`, in increasing order.
fn btree_set_to_vec_chirho(s: &BTreeSet<i64>) -> (v: Vec<i64>)
    ensures
        elems_chirho(v@) == s@,
        strictly_increasing_chirho(v@),
{
    broadcast use vstd::std_specs::btree::group_btree_axioms;
    let ghost keys = spec_btree_keys_iter(s).remaining().unref();
    proof {
        vstd::std_specs::btree::axiom_spec_btree_keys_iter(s);
        crate::order_chirho::lemma_increasing_keys_chirho(spec_btree_keys_iter(s).remaining());
    }
    let mut v: Vec<i64> = Vec::new();
    for x in it: s.iter()
        invariant
            keys == it.seq().unref(),
            v@ == keys.take(it.index() as int),
    {
        v.push(*x);
        assert(v@ == keys.take(it.index() + 1));
    }
    assert(v@ == keys);
    v
}

} // verus!
