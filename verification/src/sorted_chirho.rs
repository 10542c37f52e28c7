//! Strictly increasing vectors of `i64` used as finite sets.

use vstd::prelude::*;

verus! {

/// The elements of `s` appear in strictly increasing order.
pub open spec fn strictly_increasing_chirho(s: Seq<i64>) -> bool {
    forall|i: int, j: int| 0 <= i < j < s.len() ==> s[i] < s[j]
}

/// The set of elements of a sequence.
pub open spec fn elems_chirho(s: Seq<i64>) -> Set<i64> {
    s.to_set()
}

/// Two strictly increasing sequences holding the same elements are equal.
pub proof fn lemma_increasing_unique_chirho(a: Seq<i64>, b: Seq<i64>)
    requires
        strictly_increasing_chirho(a),
        strictly_increasing_chirho(b),
        elems_chirho(a) == elems_chirho(b),
    ensures
        a == b,
    decreases a.len() + b.len(),
{
    if a.len() == 0 {
        if b.len() > 0 {
            assert(elems_chirho(b).contains(b[0]));
        }
        assert(a =~= b);
    } else if b.len() == 0 {
        assert(elems_chirho(a).contains(a[0]));
    } else {
        // The first elements are the minima of the common set.
        assert(elems_chirho(a).contains(a[0]));
        assert(elems_chirho(b).contains(b[0]));
        let ia = choose|i: int| 0 <= i < a.len() && a[i] == b[0];
        let ib = choose|i: int| 0 <= i < b.len() && b[i] == a[0];
        assert(a[0] <= a[ia]);
        assert(b[0] <= b[ib]);
        assert(a[0] == b[0]);
        let a1 = a.drop_first();
        let b1 = b.drop_first();
        assert forall|x: i64| elems_chirho(a1).contains(x) implies elems_chirho(b1).contains(x) by {
            let i = choose|i: int| 0 <= i < a1.len() && a1[i] == x;
            assert(a[i + 1] == x);
            assert(elems_chirho(b).contains(x));
            let j = choose|j: int| 0 <= j < b.len() && b[j] == x;
            assert(j != 0);
            assert(b1[j - 1] == x);
        }
        assert forall|x: i64| elems_chirho(b1).contains(x) implies elems_chirho(a1).contains(x) by {
            let i = choose|i: int| 0 <= i < b1.len() && b1[i] == x;
            assert(b[i + 1] == x);
            assert(elems_chirho(a).contains(x));
            let j = choose|j: int| 0 <= j < a.len() && a[j] == x;
            assert(j != 0);
            assert(a1[j - 1] == x);
        }
        assert(elems_chirho(a1) =~= elems_chirho(b1));
        lemma_increasing_unique_chirho(a1, b1);
        assert(a =~= b) by {
            assert forall|i: int| 0 <= i < a.len() implies a[i] == b[i] by {
                if i > 0 {
                    assert(a[i] == a1[i - 1]);
                    assert(b[i] == b1[i - 1]);
                }
            }
        }
    }
}

/// Whether a strictly increasing vector holds `x` (binary search).
pub fn sorted_contains_chirho(v: &Vec<i64>, x: i64) -> (r: bool)
    requires
        strictly_increasing_chirho(v@),
    ensures
        r == v@.contains(x),
{
    let mut lo: usize = 0;
    let mut hi: usize = v.len();
    while lo < hi
        invariant
            0 <= lo <= hi <= v@.len(),
            strictly_increasing_chirho(v@),
            forall|i: int| 0 <= i < lo ==> v@[i] < x,
            forall|i: int| hi <= i < v@.len() ==> v@[i] > x,
        decreases hi - lo,
    {
        let mid = lo + (hi - lo) / 2;
        if v[mid] == x {
            return true;
        } else if v[mid] < x {
            lo = mid + 1;
        } else {
            hi = mid;
        }
    }
    proof {
        if v@.contains(x) {
            let i = choose|i: int| 0 <= i < v@.len() && v@[i] == x;
            assert(false);
        }
    }
    false
}

/// The elements of `a` that `keep` holds, in the same order.
pub open spec fn filter_in_chirho(a: Seq<i64>, keep: Set<i64>) -> Seq<i64> {
    a.filter(|x: i64| keep.contains(x))
}

/// Keeps the elements of the increasing vector `a` that also occur in the increasing vector `b`.
pub fn sorted_intersect_chirho(a: &Vec<i64>, b: &Vec<i64>) -> (r: Vec<i64>)
    requires
        strictly_increasing_chirho(a@),
        strictly_increasing_chirho(b@),
    ensures
        strictly_increasing_chirho(r@),
        elems_chirho(r@) == elems_chirho(a@).intersect(elems_chirho(b@)),
        r@.len() <= a@.len(),
{
    let mut r: Vec<i64> = Vec::new();
    let mut i: usize = 0;
    while i < a.len()
        invariant
            0 <= i <= a@.len(),
            strictly_increasing_chirho(a@),
            strictly_increasing_chirho(b@),
            strictly_increasing_chirho(r@),
            r@.len() <= i,
            forall|k: int| 0 <= k < r@.len() ==> exists|j: int| 0 <= j < i && a@[j] == #[trigger] r@[k],
            forall|x: i64| r@.contains(x) <==> (exists|j: int| 0 <= j < i && a@[j] == x) && b@.contains(x),
        decreases a@.len() - i,
    {
        let x = a[i];
        if sorted_contains_chirho(b, x) {
            proof {
                assert forall|k: int| 0 <= k < r@.len() implies r@[k] < x by {
                    let j = choose|j: int| 0 <= j < i && a@[j] == r@[k];
                }
            }
            let ghost old_r = r@;
            r.push(x);
            proof {
                assert(r@.drop_last() =~= old_r);
                assert forall|y: i64| r@.contains(y) <==> (exists|j: int| 0 <= j < i + 1 && a@[j] == y) && b@.contains(y) by {
                    if r@.contains(y) {
                        let k = choose|k: int| 0 <= k < r@.len() && r@[k] == y;
                        if k < r@.len() - 1 {
                            assert(r@.drop_last().contains(y)) by { assert(r@.drop_last()[k] == y); }
                        }
                    }
                    if (exists|j: int| 0 <= j < i + 1 && a@[j] == y) && b@.contains(y) {
                        let j = choose|j: int| 0 <= j < i + 1 && a@[j] == y;
                        if j < i {
                            assert(old_r.contains(y));
                            let k = choose|k: int| 0 <= k < old_r.len() && old_r[k] == y;
                            assert(r@[k] == y);
                        } else {
                            assert(r@[r@.len() - 1] == y);
                        }
                    }
                }
            }
        } else {
            proof {
                assert forall|y: i64| r@.contains(y) <==> (exists|j: int| 0 <= j < i + 1 && a@[j] == y) && b@.contains(y) by {
                    if (exists|j: int| 0 <= j < i + 1 && a@[j] == y) && b@.contains(y) {
                        let j = choose|j: int| 0 <= j < i + 1 && a@[j] == y;
                        if j == i {
                            assert(false);
                        }
                    }
                }
            }
        }
        i = i + 1;
    }
    proof {
        assert(elems_chirho(r@) =~= elems_chirho(a@).intersect(elems_chirho(b@))) by {
            assert forall|y: i64| elems_chirho(r@).contains(y) <==> elems_chirho(a@).intersect(elems_chirho(b@)).contains(y) by {
                if a@.contains(y) {
                    let j = choose|j: int| 0 <= j < a@.len() && a@[j] == y;
                }
            }
        }
    }
    r
}

/// Whether `v` lies outside the closed interval `[lo, hi]`.
pub open spec fn outside_chirho(v: i64, lo: i64, hi: i64) -> bool {
    v < lo || v > hi
}

/// Keeps the elements of the increasing vector `a` that lie outside `[lo, hi]`.
pub fn sorted_keep_outside_chirho(a: &Vec<i64>, lo: i64, hi: i64) -> (r: Vec<i64>)
    requires
        strictly_increasing_chirho(a@),
    ensures
        strictly_increasing_chirho(r@),
        elems_chirho(r@) == elems_chirho(a@).filter(|v: i64| outside_chirho(v, lo, hi)),
        r@.len() <= a@.len(),
{
    let mut r: Vec<i64> = Vec::new();
    let mut i: usize = 0;
    while i < a.len()
        invariant
            0 <= i <= a@.len(),
            strictly_increasing_chirho(a@),
            strictly_increasing_chirho(r@),
            r@.len() <= i,
            forall|k: int| 0 <= k < r@.len() ==> exists|j: int| 0 <= j < i && a@[j] == #[trigger] r@[k],
            forall|x: i64| r@.contains(x) <==> (exists|j: int| 0 <= j < i && a@[j] == x) && outside_chirho(x, lo, hi),
        decreases a@.len() - i,
    {
        let x = a[i];
        if x < lo || x > hi {
            proof {
                assert forall|k: int| 0 <= k < r@.len() implies r@[k] < x by {
                    let j = choose|j: int| 0 <= j < i && a@[j] == r@[k];
                }
            }
            let ghost old_r = r@;
            r.push(x);
            proof {
                assert(r@.drop_last() =~= old_r);
                assert forall|y: i64| r@.contains(y) <==> (exists|j: int| 0 <= j < i + 1 && a@[j] == y) && outside_chirho(y, lo, hi) by {
                    if r@.contains(y) {
                        let k = choose|k: int| 0 <= k < r@.len() && r@[k] == y;
                        if k < r@.len() - 1 {
                            assert(old_r[k] == y);
                            assert(old_r.contains(y));
                        }
                    }
                    if (exists|j: int| 0 <= j < i + 1 && a@[j] == y) && outside_chirho(y, lo, hi) {
                        let j = choose|j: int| 0 <= j < i + 1 && a@[j] == y;
                        if j < i {
                            assert(old_r.contains(y));
                            let k = choose|k: int| 0 <= k < old_r.len() && old_r[k] == y;
                            assert(r@[k] == y);
                        } else {
                            assert(r@[r@.len() - 1] == y);
                        }
                    }
                }
            }
        } else {
            proof {
                assert forall|y: i64| r@.contains(y) <==> (exists|j: int| 0 <= j < i + 1 && a@[j] == y) && outside_chirho(y, lo, hi) by {
                    if (exists|j: int| 0 <= j < i + 1 && a@[j] == y) && outside_chirho(y, lo, hi) {
                        let j = choose|j: int| 0 <= j < i + 1 && a@[j] == y;
                        if j == i {
                            assert(false);
                        }
                    }
                }
            }
        }
        i = i + 1;
    }
    proof {
        assert(elems_chirho(r@) =~= elems_chirho(a@).filter(|v: i64| outside_chirho(v, lo, hi))) by {
            assert forall|y: i64| elems_chirho(r@).contains(y) <==> elems_chirho(a@).filter(|v: i64| outside_chirho(v, lo, hi)).contains(y) by {
                if a@.contains(y) {
                    let j = choose|j: int| 0 <= j < a@.len() && a@[j] == y;
                }
            }
        }
    }
    r
}

/// Inserts `x` into the increasing vector `a`, keeping it increasing.
pub fn sorted_insert_chirho(a: &mut Vec<i64>, x: i64)
    requires
        strictly_increasing_chirho(old(a)@),
    ensures
        strictly_increasing_chirho(final(a)@),
        elems_chirho(final(a)@) == elems_chirho(old(a)@).insert(x),
        final(a)@.len() <= old(a)@.len() + 1,
{
    let mut i: usize = 0;
    while i < a.len() && a[i] < x
        invariant
            0 <= i <= a@.len(),
            a@ == old(a)@,
            strictly_increasing_chirho(a@),
            forall|k: int| 0 <= k < i ==> a@[k] < x,
        decreases a@.len() - i,
    {
        i = i + 1;
    }
    if i < a.len() && a[i] == x {
        proof {
            assert(elems_chirho(a@) =~= elems_chirho(old(a)@).insert(x));
        }
        return;
    }
    let ghost before = a@;
    a.insert(i, x);
    proof {
        assert(a@ =~= before.subrange(0, i as int).push(x) + before.subrange(i as int, before.len() as int));
        assert forall|p: int, q: int| 0 <= p < q < a@.len() implies a@[p] < a@[q] by {
            if q < i { } else if q == i { } else if p < i { } else if p == i {
                assert(a@[q] == before[q - 1]);
                assert(before[i as int] > x);
                if q - 1 > i {
                    assert(before[i as int] < before[q - 1]);
                }
            } else {
                assert(a@[p] == before[p - 1]);
                assert(a@[q] == before[q - 1]);
            }
        }
        assert forall|y: i64| elems_chirho(a@).contains(y) <==> elems_chirho(before).insert(x).contains(y) by {
            if a@.contains(y) {
                let k = choose|k: int| 0 <= k < a@.len() && a@[k] == y;
                if k < i { assert(before[k] == y); } else if k > i { assert(before[k - 1] == y); }
            }
            if before.contains(y) {
                let k = choose|k: int| 0 <= k < before.len() && before[k] == y;
                if k < i { assert(a@[k] == y); } else { assert(a@[k + 1] == y); }
            }
            if y == x {
                assert(a@[i as int] == x);
            }
        }
        assert(elems_chirho(a@) =~= elems_chirho(old(a)@).insert(x));
    }
}

/// The integers from `lo` to `hi`, both included.
pub open spec fn interval_set_chirho(lo: i64, hi: i64) -> Set<i64> {
    Set::new(|v: i64| lo <= v <= hi)
}

/// Builds the increasing vector of all integers in `[lo, hi]`.
pub fn sorted_range_chirho(lo: i64, hi: i64) -> (r: Vec<i64>)
    ensures
        strictly_increasing_chirho(r@),
        elems_chirho(r@) == interval_set_chirho(lo, hi),
{
    let mut r: Vec<i64> = Vec::new();
    if lo > hi {
        proof {
            assert(elems_chirho(r@) =~= interval_set_chirho(lo, hi));
        }
        return r;
    }
    let mut v: i64 = lo;
    loop
        invariant_except_break
            lo <= v <= hi,
            r@.len() == v - lo,
        invariant
            strictly_increasing_chirho(r@),
            forall|k: int| 0 <= k < r@.len() ==> r@[k] == lo + k,
        ensures
            r@.len() == hi - lo + 1,
        decreases hi - v,
    {
        r.push(v);
        if v == hi {
            break;
        }
        v = v + 1;
    }
    proof {
        assert forall|y: i64| elems_chirho(r@).contains(y) <==> interval_set_chirho(lo, hi).contains(y) by {
            if lo <= y <= hi {
                assert(r@[y - lo] == y);
            }
        }
        assert(elems_chirho(r@) =~= interval_set_chirho(lo, hi));
    }
    r
}

/// Whether two vectors hold the same elements in the same order.
pub fn vec_i64_eq_chirho(a: &Vec<i64>, b: &Vec<i64>) -> (r: bool)
    ensures
        r == (a@ == b@),
{
    if a.len() != b.len() {
        return false;
    }
    let mut i: usize = 0;
    while i < a.len()
        invariant
            0 <= i <= a@.len(),
            a@.len() == b@.len(),
            forall|k: int| 0 <= k < i ==> a@[k] == b@[k],
        decreases a@.len() - i,
    {
        if a[i] != b[i] {
            return false;
        }
        i = i + 1;
    }
    proof {
        assert(a@ =~= b@);
    }
    true
}

} // verus!
