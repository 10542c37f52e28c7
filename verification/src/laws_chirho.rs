//! Properties that span several operations: bounded histories, alerting,
//! the Luby sequence, string maps and escaping, and repeated combination
//! in semigroups and monoids, and the convergence of updates to shared
//! cells.

use vstd::prelude::*;
use vstd::std_specs::cmp::PartialEqSpec;

use crate::algebra_chirho::{
    absorbing_chirho, associative_chirho, commutative_chirho, idempotent_chirho, identity_chirho, mconcat_spec_chirho,
    repeat_chirho, sconcat_spec_chirho,
};
use crate::cell_chirho::MergeableChirho;
use crate::network_chirho::{merged_chirho, CellStateChirho};
use crate::scheduler_chirho::{
    committed_history_chirho, first_highest_chirho, grew_from_chirho, picked_chirho, priority_trace_chirho, SchedulerChirho,
    SchedulerStatsChirho,
};
use crate::search_chirho::{luby_spec_chirho, top_pow2_chirho, lemma_top_pow2_chirho};
use crate::text_chirho::{escape_char_chirho, escape_json_spec_chirho};
use crate::visualization_chirho::{history_after_chirho, map_inserted_chirho, recorded_chirho, TraceEventChirho};

verus! {

/// The history of an incremental scheduler never holds more than its
/// maximum size after a run commits.
pub proof fn law_history_bounded_chirho(history: Seq<(Seq<char>, u64, bool)>, pending: Seq<Seq<char>>, generation: u64, max: usize)
    ensures
        committed_history_chirho(history, pending, generation, max).len() <= max,
{
}

/// A run keeps the changes it commits, newest last, as long as the history
/// has room for at least one entry.
pub proof fn law_history_keeps_newest_chirho(history: Seq<(Seq<char>, u64, bool)>, pending: Seq<Seq<char>>, generation: u64, max: usize)
    requires
        pending.len() > 0,
        max > 0,
    ensures
        committed_history_chirho(history, pending, generation, max).last() == (pending.last(), generation, true),
{
    let all = history + pending.map_values(|n: Seq<char>| (n, generation, true));
    assert(all.last() == (pending.last(), generation, true));
}

/// Alerting a propagator twice is the same as alerting it once.
pub proof fn law_alert_idempotent_chirho(q: Seq<usize>, stats: SchedulerStatsChirho, id: usize)
    ensures
        ({
            let once = SchedulerChirho::alerted_spec_chirho(q, stats, id);
            SchedulerChirho::alerted_spec_chirho(once.0, once.1, id) == once
        }),
        SchedulerChirho::alerted_spec_chirho(q, stats, id).0.contains(id),
{
    if !q.contains(id) {
        assert(q.push(id)[q.len() as int] == id);
    }
}

/// A run that empties the queue runs first every propagator that was queued
/// when it started, in queue order; the runs it counts are the ones logged.
pub proof fn law_fifo_run_covers_queue_chirho(
    q0: Seq<usize>,
    log0: Seq<usize>,
    runs0: int,
    q1: Seq<usize>,
    log1: Seq<usize>,
    runs1: int,
)
    requires
        SchedulerChirho::fifo_runs_chirho(q0, log0, runs0, q1, log1, runs1),
        q1.len() == 0,
    ensures
        q0.len() <= log1.len() - log0.len(),
        forall|t: int| 0 <= t < q0.len() ==> #[trigger] log1[log0.len() + t] == q0[t],
        runs1 - runs0 == log1.len() - log0.len(),
{
    let ran = log1.skip(log0.len() as int);
    let alerted = choose|alerted: Seq<usize>| q0 + alerted == #[trigger] log1.skip(log0.len() as int) + q1;
    assert(ran + q1 =~= ran);
    assert forall|t: int| 0 <= t < q0.len() implies #[trigger] log1[log0.len() + t] == q0[t] by {
        assert((q0 + alerted)[t] == q0[t]);
        assert(ran[t] == log1[log0.len() + t]);
    }
}

/// The entries taken by the picks of a priority run, in order.
pub open spec fn taken_entries_chirho(picks: Seq<(Seq<(usize, i32)>, int)>) -> Seq<(usize, i32)> {
    picks.map_values(|e: (Seq<(usize, i32)>, int)| picked_chirho(e))
}

/// A priority run that empties the queue takes off every entry that was
/// queued when it started, and every entry alerted while it ran: counted
/// with repeats, what was queued and what was alerted is what was taken.
pub proof fn law_priority_run_takes_all_chirho(
    q0: Seq<(usize, i32)>,
    picks: Seq<(Seq<(usize, i32)>, int)>,
    q1: Seq<(usize, i32)>,
)
    requires
        priority_trace_chirho(q0, picks, q1),
        q1.len() == 0,
    ensures
        exists|alerted: Seq<(usize, i32)>| #[trigger] (q0 + alerted).to_multiset() == taken_entries_chirho(picks).to_multiset(),
{
    broadcast use vstd::multiset::group_multiset_axioms;
    let alerted = lemma_trace_multiset_chirho(q0, picks, q1);
    assert(q1 =~= Seq::<(usize, i32)>::empty());
    vstd::seq_lib::lemma_multiset_commutative(taken_entries_chirho(picks), q1);
    assert(taken_entries_chirho(picks) + q1 =~= taken_entries_chirho(picks));
    assert((q0 + alerted).to_multiset() == taken_entries_chirho(picks).to_multiset());
}

/// The first picks of a trace lead to the queue the next pick is made from.
proof fn lemma_trace_prefix_chirho(q0: Seq<(usize, i32)>, picks: Seq<(Seq<(usize, i32)>, int)>, q1: Seq<(usize, i32)>)
    requires
        priority_trace_chirho(q0, picks, q1),
        picks.len() > 0,
    ensures
        priority_trace_chirho(q0, picks.drop_last(), picks.last().0),
        first_highest_chirho(picks.last().0, picks.last().1),
        grew_from_chirho(picks.last().0.remove(picks.last().1), q1),
{
    let before = picks.drop_last();
    let k = picks.len() - 1;
    assert(first_highest_chirho(picks[k].0, picks[k].1));
    assert(grew_from_chirho(picks[k].0.remove(picks[k].1), if k + 1 < picks.len() { picks[k + 1].0 } else { q1 }));
    assert forall|m: int| 0 <= m < before.len() implies first_highest_chirho(#[trigger] before[m].0, before[m].1) by {
        assert(before[m] == picks[m]);
        assert(first_highest_chirho(picks[m].0, picks[m].1));
    }
    assert forall|m: int| 0 <= m < before.len() implies grew_from_chirho(
        (#[trigger] before[m]).0.remove(before[m].1),
        if m + 1 < before.len() { before[m + 1].0 } else { picks.last().0 },
    ) by {
        assert(before[m] == picks[m]);
        assert(grew_from_chirho(picks[m].0.remove(picks[m].1), if m + 1 < picks.len() { picks[m + 1].0 } else { q1 }));
        if m + 1 < before.len() {
            assert(before[m + 1] == picks[m + 1]);
        }
    }
    if before.len() > 0 {
        assert(before[0] == picks[0]);
    }
}

/// Taking `x` out of `l` and the rest plus `e`, counted with `x` once more
/// among what was taken, balances.
proof fn lemma_multiset_step_chirho(
    a: vstd::multiset::Multiset<(usize, i32)>,
    t: vstd::multiset::Multiset<(usize, i32)>,
    l: vstd::multiset::Multiset<(usize, i32)>,
    r: vstd::multiset::Multiset<(usize, i32)>,
    e: vstd::multiset::Multiset<(usize, i32)>,
    x: (usize, i32),
)
    requires
        a == t.add(l),
        r == l.remove(x),
        l.count(x) > 0,
    ensures
        a.add(e) == t.insert(x).add(r.add(e)),
{
    broadcast use vstd::multiset::group_multiset_axioms;
    assert(a.add(e) =~= t.insert(x).add(r.add(e)));
}

/// Along a priority trace, what was queued and what was alerted, counted
/// with repeats, is what was taken and what is left.
proof fn lemma_trace_multiset_chirho(
    q0: Seq<(usize, i32)>,
    picks: Seq<(Seq<(usize, i32)>, int)>,
    q1: Seq<(usize, i32)>,
) -> (alerted: Seq<(usize, i32)>)
    requires
        priority_trace_chirho(q0, picks, q1),
    ensures
        (q0 + alerted).to_multiset() == taken_entries_chirho(picks).to_multiset().add(q1.to_multiset()),
    decreases picks.len(),
{
    broadcast use vstd::multiset::group_multiset_axioms;
    if picks.len() == 0 {
        assert(q0 + Seq::<(usize, i32)>::empty() =~= q0);
        assert(taken_entries_chirho(picks) =~= Seq::<(usize, i32)>::empty());
        vstd::seq_lib::lemma_multiset_commutative(taken_entries_chirho(picks), q1);
        assert(taken_entries_chirho(picks) + q1 =~= q1);
        Seq::empty()
    } else {
        let last = picks.last();
        let before = picks.drop_last();
        lemma_trace_prefix_chirho(q0, picks, q1);
        let a0 = lemma_trace_multiset_chirho(q0, before, last.0);
        let rest = last.0.remove(last.1);
        let extra = q1.skip(rest.len() as int);
        assert(q1 =~= rest + extra);
        let x = last.0[last.1];
        vstd::seq_lib::to_multiset_remove(last.0, last.1);
        last.0.to_multiset_ensures();
        assert(last.0.contains(x));
        let t0 = taken_entries_chirho(before);
        assert(taken_entries_chirho(picks) =~= t0.push(x));
        t0.to_multiset_ensures();
        vstd::seq_lib::lemma_multiset_commutative(rest, extra);
        vstd::seq_lib::lemma_multiset_commutative(q0 + a0, extra);
        lemma_multiset_step_chirho(
            (q0 + a0).to_multiset(),
            t0.to_multiset(),
            last.0.to_multiset(),
            rest.to_multiset(),
            extra.to_multiset(),
            x,
        );
        let alerted = a0 + extra;
        assert(q0 + alerted =~= (q0 + a0) + extra);
        alerted
    }
}

/// A trace that starts within its limit stays within it.
pub proof fn law_trace_bounded_chirho(
    old_events: Seq<TraceEventChirho>,
    new_events: Seq<TraceEventChirho>,
    max: usize,
    p: spec_fn(TraceEventChirho) -> bool,
)
    requires
        old_events.len() <= max,
        recorded_chirho(old_events, new_events, max, p),
    ensures
        new_events.len() <= max,
{
}

/// A cell history that starts within its limit stays within it, and its
/// newest entry is the value just recorded.
pub proof fn law_cell_history_bounded_chirho(h: Seq<(u64, Seq<char>)>, max: usize, t: u64, v: Seq<char>)
    requires
        h.len() <= max,
        max > 0,
    ensures
        history_after_chirho(h, max, t, v).len() <= max,
        history_after_chirho(h, max, t, v).last() == (t, v),
{
}

/// Whether `n` is a power of two.
pub open spec fn is_pow2_chirho(n: nat) -> bool
    decreases n,
{
    if n == 1 {
        true
    } else if n < 1 || n % 2 == 1 {
        false
    } else {
        is_pow2_chirho(n / 2)
    }
}

/// The largest power of two below a number is a power of two.
proof fn lemma_top_pow2_is_pow2_chirho(n: nat)
    ensures
        is_pow2_chirho(top_pow2_chirho(n)),
    decreases n,
{
    if n >= 2 {
        lemma_top_pow2_is_pow2_chirho(n / 2);
        lemma_top_pow2_chirho(n / 2);
        let p = top_pow2_chirho(n / 2);
        assert((2 * p) / 2 == p);
        assert((2 * p) % 2 == 0);
    }
}

/// Half of an even power of two is a power of two.
proof fn lemma_half_pow2_chirho(p: nat)
    requires
        is_pow2_chirho(p),
        p >= 2,
    ensures
        is_pow2_chirho(p / 2),
{
}

/// Every value of the Luby sequence is a power of two.
pub proof fn law_luby_power_of_two_chirho(i: nat)
    ensures
        is_pow2_chirho(luby_spec_chirho(i)),
    decreases i,
{
    if i > 0 {
        let p = top_pow2_chirho(i + 1);
        lemma_top_pow2_chirho(i + 1);
        lemma_top_pow2_is_pow2_chirho(i + 1);
        if i + 1 == p {
            lemma_half_pow2_chirho(p);
        } else {
            law_luby_power_of_two_chirho((i - p + 1) as nat);
        }
    }
}

/// The Luby sequence doubles at each index one below a power of two:
/// at `2^(k+1) - 1` it is `2^k`.
pub proof fn law_luby_peaks_chirho(k: nat)
    ensures
        luby_spec_chirho((vstd::arithmetic::power2::pow2(k + 1) - 1) as nat) == vstd::arithmetic::power2::pow2(k),
    decreases k,
{
    vstd::arithmetic::power2::lemma_pow2_unfold(k + 1);
    vstd::arithmetic::power2::lemma_pow2_pos(k);
    let n = vstd::arithmetic::power2::pow2(k + 1);
    lemma_top_pow2_exact_chirho(k + 1);
    assert(top_pow2_chirho(n) == n);
    assert(n / 2 == vstd::arithmetic::power2::pow2(k));
}

/// The largest power of two below a power of two is itself.
proof fn lemma_top_pow2_exact_chirho(k: nat)
    ensures
        top_pow2_chirho(vstd::arithmetic::power2::pow2(k)) == vstd::arithmetic::power2::pow2(k),
    decreases k,
{
    if k > 0 {
        vstd::arithmetic::power2::lemma_pow2_unfold(k);
        vstd::arithmetic::power2::lemma_pow2_pos((k - 1) as nat);
        lemma_top_pow2_exact_chirho((k - 1) as nat);
        let m = vstd::arithmetic::power2::pow2((k - 1) as nat);
        assert((2 * m) / 2 == m);
    } else {
        vstd::arithmetic::power2::lemma2_to64();
    }
}

/// After a name is set in a string map, the map holds it with that text.
pub proof fn law_map_insert_read_chirho(entries: Seq<(Seq<char>, Seq<char>)>, key: Seq<char>, value: Seq<char>)
    ensures
        map_inserted_chirho(entries, key, value).contains((key, value)),
        map_inserted_chirho(entries, key, value).len() == entries.len()
            + if exists|i: int| 0 <= i < entries.len() && entries[i].0 == key { 0int } else { 1int },
{
    let r = map_inserted_chirho(entries, key, value);
    if exists|i: int| 0 <= i < entries.len() && entries[i].0 == key {
        let w = choose|i: int| 0 <= i < entries.len() && entries[i].0 == key;
        let i = choose|i: int| 0 <= i < entries.len() && entries[i].0 == key && forall|j: int| 0 <= j < i ==> entries[j].0 != key;
        assert(exists|i: int| 0 <= i < entries.len() && entries[i].0 == key && forall|j: int| 0 <= j < i ==> entries[j].0 != key) by {
            lemma_first_index_chirho(entries, key, w);
        }
        assert(r[i] == (key, value));
    } else {
        assert(r[entries.len() as int] == (key, value));
    }
}

/// If some entry has the key, a first one does.
proof fn lemma_first_index_chirho(entries: Seq<(Seq<char>, Seq<char>)>, key: Seq<char>, w: int)
    requires
        0 <= w < entries.len(),
        entries[w].0 == key,
    ensures
        exists|i: int| 0 <= i < entries.len() && entries[i].0 == key && forall|j: int| 0 <= j < i ==> entries[j].0 != key,
    decreases w,
{
    if exists|j: int| 0 <= j < w && entries[j].0 == key {
        let j = choose|j: int| 0 <= j < w && entries[j].0 == key;
        lemma_first_index_chirho(entries, key, j);
    } else {
        assert(forall|j: int| 0 <= j < w ==> entries[j].0 != key);
    }
}

/// Whether a character is one that JSON escaping changes.
pub open spec fn json_special_chirho(c: char) -> bool {
    c == '\\' || c == '"' || c == '\n' || c == '\r' || c == '\t'
}

/// Escaping leaves text without special characters unchanged, and never
/// shortens text.
pub proof fn law_escape_json_chirho(s: Seq<char>)
    ensures
        (forall|i: int| 0 <= i < s.len() ==> !json_special_chirho(#[trigger] s[i])) ==> escape_json_spec_chirho(s) == s,
        escape_json_spec_chirho(s).len() >= s.len(),
    decreases s.len(),
{
    if s.len() > 0 {
        law_escape_json_chirho(s.drop_last());
        if forall|i: int| 0 <= i < s.len() ==> !json_special_chirho(#[trigger] s[i]) {
            assert(!json_special_chirho(s[s.len() - 1]));
            assert forall|i: int| 0 <= i < s.drop_last().len() implies !json_special_chirho(#[trigger] s.drop_last()[i]) by {
                assert(s.drop_last()[i] == s[i]);
            }
            assert(escape_char_chirho(s.last()) =~= seq![s.last()]);
            assert(s =~= s.drop_last().push(s.last()));
        }
    }
}


/// In an idempotent semigroup, any number (at least one) of copies of an
/// element combine to the element itself.
pub proof fn law_repeat_idempotent_chirho<T>(a: T, n: nat, f: spec_fn(T, T) -> T)
    requires
        idempotent_chirho(f),
        n >= 1,
    ensures
        repeat_chirho(a, n, f) == a,
    decreases n,
{
    if n > 1 {
        law_repeat_idempotent_chirho(a, (n - 1) as nat, f);
        assert(f(a, a) == a);
    }
}

/// In a monoid, combining a non-empty sequence from the identity gives the
/// same as combining it from its first element.
pub proof fn law_mconcat_sconcat_chirho<T>(s: Seq<T>, e: T, f: spec_fn(T, T) -> T)
    requires
        identity_chirho(e, f),
        s.len() > 0,
    ensures
        mconcat_spec_chirho(s, e, f) == sconcat_spec_chirho(s, f),
    decreases s.len(),
{
    if s.len() == 1 {
        assert(s.drop_last() =~= Seq::<T>::empty());
        assert(mconcat_spec_chirho(s.drop_last(), e, f) == e);
        assert(s.last() == s[0]);
        assert(f(e, s[0]) == s[0]);
    } else {
        law_mconcat_sconcat_chirho(s.drop_last(), e, f);
    }
}

/// In a bounded join-semilattice the bottom lies below every element and
/// every element below the top: joining `a` into bottom gives `a`, and
/// joining top into `a` gives top.
pub proof fn law_bottom_and_top_bound_chirho<T>(a: T, bottom: T, top: T, f: spec_fn(T, T) -> T)
    requires
        identity_chirho(bottom, f),
        absorbing_chirho(top, f),
    ensures
        f(bottom, a) == a,
        f(a, top) == top,
{
    assert(f(bottom, a) == a);
    assert(f(a, top) == top);
}

/// Concurrent updates to a shared cell converge: when merging is
/// commutative and associative and equality is exact, merging `a` then `b`
/// into a cell leaves the same content as merging `b` then `a`, whatever
/// their timestamps.
pub proof fn law_updates_commute_chirho<T: MergeableChirho>(
    c: CellStateChirho<T>,
    a: T,
    ta: u64,
    b: T,
    tb: u64,
    ab: (CellStateChirho<T>, CellStateChirho<T>, bool, bool),
    ba: (CellStateChirho<T>, CellStateChirho<T>, bool, bool),
)
    requires
        T::obeys_eq_spec(),
        forall|x: T, y: T| #[trigger] x.eq_spec(&y) <==> x == y,
        commutative_chirho(|x: T, y: T| T::spec_merge_chirho(x, y)),
        associative_chirho(|x: T, y: T| T::spec_merge_chirho(x, y)),
        merged_chirho(c, a, ta, ab.0, ab.2),
        merged_chirho(ab.0, b, tb, ab.1, ab.3),
        merged_chirho(c, b, tb, ba.0, ba.2),
        merged_chirho(ba.0, a, ta, ba.1, ba.3),
    ensures
        ab.1.content == ba.1.content,
        ab.1.name == ba.1.name,
        ab.1.subscribers == ba.1.subscribers,
{
    let f = |x: T, y: T| T::spec_merge_chirho(x, y);
    assert(ab.0.content == f(c.content, a));
    assert(ab.1.content == f(ab.0.content, b));
    assert(ba.0.content == f(c.content, b));
    assert(ba.1.content == f(ba.0.content, a));
    assert(f(f(c.content, a), b) == f(c.content, f(a, b)));
    assert(f(f(c.content, b), a) == f(c.content, f(b, a)));
    assert(f(a, b) == f(b, a));
}

} // verus!
