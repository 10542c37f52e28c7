//! Facts about the order in which `BTreeSet` hands out its keys.

use vstd::prelude::*;
use vstd::std_specs::cmp::OrdSpec;

verus! {

/// The keys of a `BTreeSet<i64>` come out strictly increasing.
pub proof fn lemma_increasing_keys_chirho(s: Seq<&i64>)
    requires
        vstd::std_specs::btree::increasing_seq(s),
    ensures
        forall|i: int, j: int| 0 <= i < j < s.len() ==> *s[i] < *s[j],
{
    broadcast use vstd::std_specs::btree::group_btree_axioms, vstd::laws_cmp::group_laws_cmp;
    assert(vstd::laws_cmp::obeys_cmp::<i64>());
    assert(vstd::laws_cmp::obeys_cmp::<&i64>());
    vstd::std_specs::btree::axiom_increasing_seq_meaning::<&i64>(s);
    assert forall|i: int, j: int| 0 <= i < j < s.len() implies *s[i] < *s[j] by {
        assert(OrdSpec::cmp_spec(&s[i], &s[j]) is Less);
    }
}

/// Whether `i64` keys order as integers do, as `BTreeSet` needs.
pub open spec fn i64_ordered_chirho() -> bool {
    vstd::laws_cmp::obeys_cmp::<i64>()
}

/// `i64` keys order as integers do.
pub proof fn lemma_i64_ordered_chirho()
    ensures
        i64_ordered_chirho(),
{
    broadcast use vstd::laws_cmp::group_laws_cmp;
}

} // verus!
