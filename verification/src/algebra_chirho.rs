//! Algebraic structures for propagator networks: semigroups, monoids and
//! join-semilattices.
//!
//! Each trait names its operation on values with a spec function. The laws
//! an implementation is expected to satisfy (associativity, identity,
//! commutativity, idempotence, absorption) are the predicates below; the
//! provided methods state their results under the laws they rely on.

use vstd::prelude::*;
use vstd::std_specs::cmp::PartialEqSpec;

verus! {

/// A set with an associative binary operation.
pub trait SemigroupChirho: Sized + Clone {
    /// The operation, on values.
    spec fn spec_combine_chirho(a: Self, b: Self) -> Self;

    /// Combines two elements.
    fn combine_chirho(&self, other_chirho: &Self) -> (r: Self)
        ensures
            r == Self::spec_combine_chirho(*self, *other_chirho),
    ;

    /// Combines the elements left to right: `[a, b, c]` gives
    /// `a.combine(b).combine(c)`; an empty slice gives `None`.
    fn sconcat_chirho(items_chirho: &[Self]) -> (r: Option<Self>)
        ensures
            r is None <==> items_chirho@.len() == 0,
            items_chirho@.len() > 0 && clones_exact_chirho::<Self>() ==> r == Some(sconcat_spec_chirho(items_chirho@, |x: Self, y: Self| Self::spec_combine_chirho(x, y))),
    {
        if items_chirho.len() == 0 {
            return None;
        }
        let mut acc_chirho = items_chirho[0].clone();
        let mut i: usize = 1;
        while i < items_chirho.len()
            invariant
                1 <= i <= items_chirho@.len(),
                clones_exact_chirho::<Self>() ==> acc_chirho == sconcat_spec_chirho(items_chirho@.subrange(0, i as int), |x: Self, y: Self| Self::spec_combine_chirho(x, y)),
            decreases items_chirho@.len() - i,
        {
            proof {
                let s = items_chirho@.subrange(0, i + 1);
                assert(s.drop_last() =~= items_chirho@.subrange(0, i as int));
            }
            acc_chirho = acc_chirho.combine_chirho(&items_chirho[i]);
            i = i + 1;
        }
        proof {
            assert(items_chirho@.subrange(0, i as int) =~= items_chirho@);
        }
        Some(acc_chirho)
    }

    /// Combines `n` copies of the element (`n > 0`), with O(log n)
    /// combinations by repeated squaring.
    fn stimes_chirho(&self, n_chirho: usize) -> (r: Self)
        requires
            n_chirho > 0,
        ensures
            clones_exact_chirho::<Self>() && associative_chirho(|x: Self, y: Self| Self::spec_combine_chirho(x, y)) ==> r == repeat_chirho(*self, n_chirho as nat, |x: Self, y: Self| Self::spec_combine_chirho(x, y)),
    {
        let ghost a = *self;
        let mut result_chirho = self.clone();
        if n_chirho == 1 {
            return result_chirho;
        }
        let mut base_chirho = self.clone();
        let mut exp_chirho: usize = n_chirho - 1;
        let ghost mut done: nat = 1;
        let ghost mut width: nat = 1;
        while exp_chirho > 0
            invariant
                done >= 1,
                width >= 1,
                n_chirho as nat == done + exp_chirho * width,
                clones_exact_chirho::<Self>() && associative_chirho(|x: Self, y: Self| Self::spec_combine_chirho(x, y)) ==> result_chirho == repeat_chirho(a, done, |x: Self, y: Self| Self::spec_combine_chirho(x, y))
                    && base_chirho == repeat_chirho(a, width, |x: Self, y: Self| Self::spec_combine_chirho(x, y)),
            decreases exp_chirho,
        {
            if exp_chirho % 2 == 1 {
                proof {
                    if clones_exact_chirho::<Self>() && associative_chirho(|x: Self, y: Self| Self::spec_combine_chirho(x, y)) {
                        lemma_repeat_add_chirho(a, done, width, |x: Self, y: Self| Self::spec_combine_chirho(x, y));
                    }
                }
                result_chirho = result_chirho.combine_chirho(&base_chirho);
                proof {
                    done = done + width;
                }
            }
            proof {
                if clones_exact_chirho::<Self>() && associative_chirho(|x: Self, y: Self| Self::spec_combine_chirho(x, y)) {
                    lemma_repeat_add_chirho(a, width, width, |x: Self, y: Self| Self::spec_combine_chirho(x, y));
                }
                assert(n_chirho as nat == done + (exp_chirho / 2) * (2 * width)) by (nonlinear_arith)
                    requires
                        exp_chirho % 2 == 1 ==> n_chirho as nat + width == done + exp_chirho * width,
                        exp_chirho % 2 == 0 ==> n_chirho as nat == done + exp_chirho * width,
                ;
            }
            base_chirho = base_chirho.combine_chirho(&base_chirho);
            proof {
                width = 2 * width;
            }
            exp_chirho = exp_chirho / 2;
        }
        result_chirho
    }
}

/// A semigroup with an identity element.
pub trait MonoidChirho: SemigroupChirho {
    /// The identity element, as a value.
    spec fn spec_empty_chirho() -> Self;

    /// Returns the identity element.
    fn empty_chirho() -> (r: Self)
        ensures
            r == Self::spec_empty_chirho(),
    ;

    /// Returns true if this is the identity element.
    fn is_empty_chirho(&self) -> (r: bool) where Self: PartialEq
        ensures
            Self::obeys_eq_spec() ==> r == self.eq_spec(&Self::spec_empty_chirho()),
    {
        *self == Self::empty_chirho()
    }

    /// Combines the elements left to right, starting from the identity:
    /// `[]` gives `empty`, `[a, b]` gives `empty.combine(a).combine(b)`.
    fn mconcat_chirho(items_chirho: &[Self]) -> (r: Self)
        ensures
            r == mconcat_spec_chirho(items_chirho@, Self::spec_empty_chirho(), |x: Self, y: Self| Self::spec_combine_chirho(x, y)),
    {
        let mut acc_chirho = Self::empty_chirho();
        let mut i: usize = 0;
        while i < items_chirho.len()
            invariant
                0 <= i <= items_chirho@.len(),
                acc_chirho == mconcat_spec_chirho(items_chirho@.subrange(0, i as int), Self::spec_empty_chirho(), |x: Self, y: Self| Self::spec_combine_chirho(x, y)),
            decreases items_chirho@.len() - i,
        {
            proof {
                let s = items_chirho@.subrange(0, i + 1);
                assert(s.drop_last() =~= items_chirho@.subrange(0, i as int));
            }
            acc_chirho = acc_chirho.combine_chirho(&items_chirho[i]);
            i = i + 1;
        }
        proof {
            assert(items_chirho@.subrange(0, i as int) =~= items_chirho@);
        }
        acc_chirho
    }

    /// Combines `n` copies of the element; `n == 0` gives the identity.
    fn mtimes_chirho(&self, n_chirho: usize) -> (r: Self)
        ensures
            n_chirho == 0 ==> r == Self::spec_empty_chirho(),
            n_chirho > 0 && clones_exact_chirho::<Self>() && associative_chirho(|x: Self, y: Self| Self::spec_combine_chirho(x, y)) ==> r == repeat_chirho(*self, n_chirho as nat, |x: Self, y: Self| Self::spec_combine_chirho(x, y)),
    {
        if n_chirho == 0 {
            return Self::empty_chirho();
        }
        self.stimes_chirho(n_chirho)
    }
}

/// A semigroup whose operation does not depend on the order of its operands.
pub trait CommutativeSemigroupChirho: SemigroupChirho {
}

/// A semigroup in which combining an element with itself gives it back.
pub trait IdempotentSemigroupChirho: SemigroupChirho {
}

/// A join-semilattice: an idempotent commutative monoid. Joining merges
/// partial information; the identity is "no information".
pub trait JoinSemilatticeChirho: MonoidChirho + CommutativeSemigroupChirho + IdempotentSemigroupChirho {
    /// Joins two elements (the monoid operation).
    fn join_lattice_chirho(&self, other_chirho: &Self) -> (r: Self)
        ensures
            r == Self::spec_combine_chirho(*self, *other_chirho),
    {
        self.combine_chirho(other_chirho)
    }

    /// The bottom element (the monoid identity).
    fn lattice_bottom_chirho() -> (r: Self)
        ensures
            r == Self::spec_empty_chirho(),
    {
        Self::empty_chirho()
    }

    /// Returns true if this is the bottom element.
    fn is_lattice_bottom_chirho(&self) -> (r: bool) where Self: PartialEq
        ensures
            Self::obeys_eq_spec() ==> r == self.eq_spec(&Self::spec_empty_chirho()),
    {
        self.is_empty_chirho()
    }

    /// Returns true if `self ≤ other` in the lattice order, that is, if
    /// joining `other` into `self` gives `other`.
    fn lattice_leq_chirho(&self, other_chirho: &Self) -> (r: bool) where Self: PartialEq
        ensures
            Self::obeys_eq_spec() ==> r == Self::spec_combine_chirho(*self, *other_chirho).eq_spec(other_chirho),
    {
        self.join_lattice_chirho(other_chirho) == *other_chirho
    }
}

/// A join-semilattice with a top element, the contradiction.
pub trait BoundedJoinSemilatticeChirho: JoinSemilatticeChirho {
    /// The top element, as a value.
    spec fn spec_top_chirho() -> Self;

    /// Returns the top element.
    fn lattice_top_chirho() -> (r: Self)
        ensures
            r == Self::spec_top_chirho(),
    ;

    /// Returns true if this is the top element.
    fn is_lattice_top_chirho(&self) -> (r: bool) where Self: PartialEq
        ensures
            Self::obeys_eq_spec() ==> r == self.eq_spec(&Self::spec_top_chirho()),
    {
        *self == Self::lattice_top_chirho()
    }
}

/// Whether a clone is always equal to the value cloned.
pub open spec fn clones_exact_chirho<T: Clone>() -> bool {
    forall|a: T, b: T| #[trigger] call_ensures(T::clone, (&a,), b) ==> a == b
}

/// Associativity of `f`: `f(a, f(b, c)) == f(f(a, b), c)`.
pub open spec fn associative_chirho<T>(f: spec_fn(T, T) -> T) -> bool {
    forall|a: T, b: T, c: T| #[trigger] f(a, f(b, c)) == f(f(a, b), c)
}

/// Commutativity of `f`: `f(a, b) == f(b, a)`.
pub open spec fn commutative_chirho<T>(f: spec_fn(T, T) -> T) -> bool {
    forall|a: T, b: T| #[trigger] f(a, b) == f(b, a)
}

/// Idempotence of `f`: `f(a, a) == a`.
pub open spec fn idempotent_chirho<T>(f: spec_fn(T, T) -> T) -> bool {
    forall|a: T| #[trigger] f(a, a) == a
}

/// `e` is an identity of `f`: `f(e, a) == a == f(a, e)`.
pub open spec fn identity_chirho<T>(e: T, f: spec_fn(T, T) -> T) -> bool {
    forall|a: T| #![trigger f(e, a)] #![trigger f(a, e)] f(e, a) == a && f(a, e) == a
}

/// `t` absorbs under `f`: `f(a, t) == t`.
pub open spec fn absorbing_chirho<T>(t: T, f: spec_fn(T, T) -> T) -> bool {
    forall|a: T| #[trigger] f(a, t) == t
}

/// The left-to-right combination under `f` of a non-empty sequence.
pub open spec fn sconcat_spec_chirho<T>(s: Seq<T>, f: spec_fn(T, T) -> T) -> T
    decreases s.len(),
{
    if s.len() <= 1 {
        s[0]
    } else {
        f(sconcat_spec_chirho(s.drop_last(), f), s.last())
    }
}

/// The left-to-right combination under `f` of a sequence, starting from `e`.
pub open spec fn mconcat_spec_chirho<T>(s: Seq<T>, e: T, f: spec_fn(T, T) -> T) -> T
    decreases s.len(),
{
    if s.len() == 0 {
        e
    } else {
        f(mconcat_spec_chirho(s.drop_last(), e, f), s.last())
    }
}

/// `n` copies of `a` combined left to right under `f` (`n >= 1`).
pub open spec fn repeat_chirho<T>(a: T, n: nat, f: spec_fn(T, T) -> T) -> T
    decreases n,
{
    if n <= 1 {
        a
    } else {
        f(repeat_chirho(a, (n - 1) as nat, f), a)
    }
}

/// Under associativity, `x` copies combined with `y` copies are `x + y` copies.
pub proof fn lemma_repeat_add_chirho<T>(a: T, x: nat, y: nat, f: spec_fn(T, T) -> T)
    requires
        associative_chirho(f),
        x >= 1,
        y >= 1,
    ensures
        f(repeat_chirho(a, x, f), repeat_chirho(a, y, f)) == repeat_chirho(a, x + y, f),
    decreases y,
{
    if y > 1 {
        lemma_repeat_add_chirho(a, x, (y - 1) as nat, f);
        let p = repeat_chirho(a, x, f);
        let q = repeat_chirho(a, (y - 1) as nat, f);
        assert(f(p, f(q, a)) == f(f(p, q), a));
        assert(repeat_chirho(a, (x + y - 1) as nat, f) == repeat_chirho(a, (x + (y - 1)) as nat, f));
    }
}

} // verus!
