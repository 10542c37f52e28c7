use propagators_chirho::algebra_chirho::{
    BoundedJoinSemilatticeChirho, CommutativeSemigroupChirho, IdempotentSemigroupChirho,
    JoinSemilatticeChirho, MonoidChirho, SemigroupChirho,
};

#[derive(Clone, Debug, PartialEq)]
struct ConcatChirho(String);

impl SemigroupChirho for ConcatChirho {
    fn combine_chirho(&self, other_chirho: &Self) -> Self {
        ConcatChirho(format!("{}{}", self.0, other_chirho.0))
    }

    fn spec_combine_chirho(a: Self, b: Self) -> Self {
        a.combine_chirho(&b)
    }
}

#[derive(Clone, Debug, PartialEq)]
struct SumChirho(i64);

impl SemigroupChirho for SumChirho {
    fn combine_chirho(&self, other_chirho: &Self) -> Self {
        SumChirho(self.0 + other_chirho.0)
    }

    fn spec_combine_chirho(a: Self, b: Self) -> Self {
        a.combine_chirho(&b)
    }
}

impl MonoidChirho for SumChirho {
    fn empty_chirho() -> Self {
        SumChirho(0)
    }

    fn spec_empty_chirho() -> Self {
        Self::empty_chirho()
    }
}

/// Maximum of optional values: `None` is bottom, `Some(u8::MAX)` is top.
#[derive(Clone, Debug, PartialEq)]
struct MaxChirho(Option<u8>);

impl SemigroupChirho for MaxChirho {
    fn combine_chirho(&self, other_chirho: &Self) -> Self {
        match (self.0, other_chirho.0) {
            (Some(a), Some(b)) => MaxChirho(Some(a.max(b))),
            (Some(a), None) | (None, Some(a)) => MaxChirho(Some(a)),
            (None, None) => MaxChirho(None),
        }
    }

    fn spec_combine_chirho(a: Self, b: Self) -> Self {
        a.combine_chirho(&b)
    }
}

impl MonoidChirho for MaxChirho {
    fn empty_chirho() -> Self {
        MaxChirho(None)
    }

    fn spec_empty_chirho() -> Self {
        Self::empty_chirho()
    }
}

impl CommutativeSemigroupChirho for MaxChirho {}
impl IdempotentSemigroupChirho for MaxChirho {}
impl JoinSemilatticeChirho for MaxChirho {}

impl BoundedJoinSemilatticeChirho for MaxChirho {
    fn lattice_top_chirho() -> Self {
        MaxChirho(Some(u8::MAX))
    }

    fn spec_top_chirho() -> Self {
        Self::lattice_top_chirho()
    }
}

#[test]
fn check_concat_semigroup_chirho() {
    let a = ConcatChirho("Hello".to_string());
    let b = ConcatChirho(" World".to_string());
    assert_eq!(a.combine_chirho(&b).0, "Hello World");
    let items = vec![ConcatChirho("a".to_string()), ConcatChirho("b".to_string()), ConcatChirho("c".to_string())];
    assert_eq!(ConcatChirho::sconcat_chirho(&items), Some(ConcatChirho("abc".to_string())));
    assert_eq!(ConcatChirho::sconcat_chirho(&[]), None);
    assert_eq!(ConcatChirho("ab".to_string()).stimes_chirho(3).0, "ababab");
    assert_eq!(ConcatChirho("x".to_string()).stimes_chirho(1).0, "x");
    assert_eq!(ConcatChirho("xy".to_string()).stimes_chirho(6).0, "xyxyxyxyxyxy");
}

#[test]
fn check_sum_monoid_chirho() {
    let items = vec![SumChirho(1), SumChirho(2), SumChirho(39)];
    assert_eq!(SumChirho::mconcat_chirho(&items), SumChirho(42));
    assert_eq!(SumChirho::mconcat_chirho(&[]), SumChirho(0));
    assert_eq!(SumChirho(7).mtimes_chirho(0), SumChirho(0));
    assert_eq!(SumChirho(7).mtimes_chirho(5), SumChirho(35));
    assert_eq!(SumChirho(3).stimes_chirho(100), SumChirho(300));
    assert!(SumChirho(0).is_empty_chirho());
    assert!(!SumChirho(1).is_empty_chirho());
    assert_eq!(SumChirho::empty_chirho().combine_chirho(&SumChirho(5)), SumChirho(5));
}

#[test]
fn check_max_semilattice_chirho() {
    let a = MaxChirho(Some(5));
    assert_eq!(a.stimes_chirho(5), a);
    assert_eq!(a.stimes_chirho(100), a);
    let narrow = MaxChirho(Some(7));
    let wide = MaxChirho(Some(3));
    assert!(wide.lattice_leq_chirho(&narrow));
    assert!(!narrow.lattice_leq_chirho(&wide));
    let bottom = MaxChirho::lattice_bottom_chirho();
    assert!(bottom.is_lattice_bottom_chirho());
    assert!(bottom.lattice_leq_chirho(&narrow));
    let top = MaxChirho::lattice_top_chirho();
    assert!(top.is_lattice_top_chirho());
    assert!(narrow.lattice_leq_chirho(&top));
    assert_eq!(a.join_lattice_chirho(&top), top);
    assert_eq!(a.join_lattice_chirho(&narrow), narrow.join_lattice_chirho(&a));
}
