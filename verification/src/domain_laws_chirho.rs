//! The lattice laws of finite domains, stated over their models.

use vstd::prelude::*;

use crate::finite_domain_chirho::{
    model_bottom_chirho, model_empty_chirho, model_is_bottom_chirho, model_is_top_chirho,
    model_contains_chirho, model_join_chirho, DomainModelChirho,
};

verus! {

/// Bottom is a left identity of join, and a right identity for every
/// domain except another "no information" domain with different contents.
pub proof fn lemma_join_bottom_identity_chirho(a: DomainModelChirho)
    ensures
        model_join_chirho(model_bottom_chirho(), a) == a,
        !model_is_bottom_chirho(a) || a == model_bottom_chirho() ==> model_join_chirho(a, model_bottom_chirho()) == a,
{
}

/// Joining anything with the empty domain gives a contradiction.
pub proof fn lemma_join_top_absorbs_chirho(a: DomainModelChirho)
    ensures
        model_is_top_chirho(model_join_chirho(a, model_empty_chirho())),
        model_is_top_chirho(model_join_chirho(model_empty_chirho(), a)),
{
    assert(model_join_chirho(a, model_empty_chirho()).values =~= Set::empty());
    assert(model_join_chirho(model_empty_chirho(), a).values =~= Set::empty());
}

/// Join is idempotent: a domain joined with itself is unchanged.
pub proof fn lemma_join_idempotent_chirho(a: DomainModelChirho)
    ensures
        model_join_chirho(a, a) == a,
{
    assert(a.values.intersect(a.values) =~= a.values);
}

/// Join is commutative, except between two different "no information" domains.
pub proof fn lemma_join_commutative_chirho(a: DomainModelChirho, b: DomainModelChirho)
    requires
        !(model_is_bottom_chirho(a) && model_is_bottom_chirho(b)) || a == b,
    ensures
        model_join_chirho(a, b) == model_join_chirho(b, a),
{
    assert(a.values.intersect(b.values) =~= b.values.intersect(a.values));
}

/// Join is associative.
pub proof fn lemma_join_associative_chirho(a: DomainModelChirho, b: DomainModelChirho, c: DomainModelChirho)
    ensures
        model_join_chirho(model_join_chirho(a, b), c) == model_join_chirho(a, model_join_chirho(b, c)),
{
    assert(a.values.intersect(b.values).intersect(c.values) =~= a.values.intersect(b.values.intersect(c.values)));
}

/// Joining two informative domains only removes possible values, and never
/// gives "no information": in particular two disjoint informative domains
/// join to a contradiction.
pub proof fn lemma_join_narrows_chirho(a: DomainModelChirho, b: DomainModelChirho)
    requires
        !model_is_bottom_chirho(a),
        !model_is_bottom_chirho(b),
    ensures
        model_join_chirho(a, b).values.subset_of(a.values),
        model_join_chirho(a, b).values.subset_of(b.values),
        !model_is_bottom_chirho(model_join_chirho(a, b)),
        a.values.disjoint(b.values) ==> model_is_top_chirho(model_join_chirho(a, b)),
{
    if a.values.disjoint(b.values) {
        assert(model_join_chirho(a, b).values =~= Set::empty());
    }
}

/// Every value is possible in the "no information" domain.
pub proof fn lemma_bottom_contains_all_chirho(v: i64)
    ensures
        model_contains_chirho(model_bottom_chirho(), v),
{
}

} // verus!
