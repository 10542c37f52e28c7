//! Search over nondeterministic choices: amb choice points, chronological
//! and dependency-directed backtracking, variable ordering, Luby restarts
//! and statistics.

use std::collections::HashSet;
use vstd::prelude::*;
use vstd::pervasive::VecAdditionalExecFns;

use crate::name_set_chirho::NameSetChirho;

verus! {

/// A nondeterministic choice among values: a choice point where any of the
/// given values might be the right one, with a cursor over them.
pub struct AmbChirho<T> {
    /// The possible values.
    choices_chirho: Vec<T>,
    /// Current choice index (for iteration).
    current_index_chirho: usize,
}

impl<T: Copy> AmbChirho<T> {
    /// The possible values.
    pub closed spec fn choices_spec_chirho(&self) -> Seq<T> {
        self.choices_chirho@
    }

    /// The cursor.
    pub closed spec fn index_spec_chirho(&self) -> usize {
        self.current_index_chirho
    }

    /// Creates an amb with the given choices, its cursor on the first.
    pub fn new_chirho(choices_chirho: Vec<T>) -> (r: Self)
        ensures
            r.choices_spec_chirho() == choices_chirho@,
            r.index_spec_chirho() == 0,
    {
        AmbChirho { choices_chirho, current_index_chirho: 0 }
    }

    /// Returns the choices.
    pub fn choices_chirho(&self) -> (r: &[T])
        ensures
            r@ == self.choices_spec_chirho(),
    {
        self.choices_chirho.as_slice()
    }

    /// Returns the number of choices.
    pub fn choice_count_chirho(&self) -> (r: usize)
        ensures
            r == self.choices_spec_chirho().len(),
    {
        self.choices_chirho.len()
    }

    /// Returns the choice under the cursor, if any.
    pub fn current_chirho(&self) -> (r: Option<T>)
        ensures
            r == (if self.index_spec_chirho() < self.choices_spec_chirho().len() {
                Some(self.choices_spec_chirho()[self.index_spec_chirho() as int])
            } else {
                None::<T>
            }),
    {
        if self.current_index_chirho < self.choices_chirho.len() {
            Some(self.choices_chirho[self.current_index_chirho])
        } else {
            None
        }
    }

    /// Advances to the next choice; returns false, leaving the cursor, when
    /// there is none.
    pub fn next_chirho(&mut self) -> (r: bool)
        ensures
            r == (old(self).index_spec_chirho() + 1 < old(self).choices_spec_chirho().len()),
            final(self).index_spec_chirho() == (if r { old(self).index_spec_chirho() + 1 } else { old(self).index_spec_chirho() as int }),
            final(self).choices_spec_chirho() == old(self).choices_spec_chirho(),
    {
        if self.current_index_chirho < self.choices_chirho.len() && self.current_index_chirho + 1 < self.choices_chirho.len() {
            self.current_index_chirho = self.current_index_chirho + 1;
            true
        } else {
            false
        }
    }

    /// Resets the cursor to the first choice.
    pub fn reset_chirho(&mut self)
        ensures
            final(self).index_spec_chirho() == 0,
            final(self).choices_spec_chirho() == old(self).choices_spec_chirho(),
    {
        self.current_index_chirho = 0;
    }

    /// Returns true if the cursor is past the last choice.
    pub fn is_exhausted_chirho(&self) -> (r: bool)
        ensures
            r == (self.index_spec_chirho() >= self.choices_spec_chirho().len()),
    {
        self.current_index_chirho >= self.choices_chirho.len()
    }
}

impl AmbChirho<i32> {
    /// Creates an amb over the integers from `lo` to `hi`, inclusive.
    pub fn range_chirho(lo_chirho: i32, hi_chirho: i32) -> (r: Self)
        ensures
            r.choices_spec_chirho().len() == (if lo_chirho <= hi_chirho { hi_chirho - lo_chirho + 1 } else { 0 }),
            forall|k: int| 0 <= k < r.choices_spec_chirho().len() ==> #[trigger] r.choices_spec_chirho()[k] == lo_chirho + k,
            r.index_spec_chirho() == 0,
    {
        let mut choices_chirho: Vec<i32> = Vec::new();
        if lo_chirho <= hi_chirho {
            let mut v: i32 = lo_chirho;
            loop
                invariant_except_break
                    lo_chirho <= v <= hi_chirho,
                    choices_chirho@.len() == v - lo_chirho,
                invariant
                    forall|k: int| 0 <= k < choices_chirho@.len() ==> #[trigger] choices_chirho@[k] == lo_chirho + k,
                ensures
                    choices_chirho@.len() == hi_chirho - lo_chirho + 1,
                decreases hi_chirho - v,
            {
                choices_chirho.push(v);
                if v == hi_chirho {
                    break;
                }
                v = v + 1;
            }
        }
        AmbChirho { choices_chirho, current_index_chirho: 0 }
    }
}

/// Result of a backtracking search.
pub enum SearchResultChirho<T> {
    /// A solution was found with these values, one per amb.
    SolutionChirho(Vec<T>),
    /// No solution exists.
    NoSolutionChirho,
    /// Search was abandoned after too many backtracks.
    AbandonedChirho,
}

/// The choices of each amb.
pub open spec fn amb_choices_chirho<T: Copy>(ambs: Seq<AmbChirho<T>>) -> Seq<Seq<T>> {
    ambs.map_values(|a: AmbChirho<T>| a.choices_spec_chirho())
}

/// Each value of `a` is among the choices at its position.
pub open spec fn within_choices_chirho<T>(choices: Seq<Seq<T>>, a: Seq<T>) -> bool {
    &&& a.len() <= choices.len()
    &&& forall|i: int| 0 <= i < a.len() ==> #[trigger] choices[i].contains(a[i])
}

/// The check may accept the values `s` (one of its possible answers on them is true).
pub open spec fn may_accept_chirho<T, F: Fn(&[T]) -> bool>(check: F, s: Seq<T>) -> bool {
    exists|p: &[T]| p@ == s && #[trigger] call_ensures(check, (p,), true)
}

/// The check may reject the values `s` (one of its possible answers on them is false).
pub open spec fn may_reject_chirho<T, F: Fn(&[T]) -> bool>(check: F, s: Seq<T>) -> bool {
    exists|p: &[T]| p@ == s && #[trigger] call_ensures(check, (p,), false)
}

/// Every full assignment within the choices that extends `prefix` has a
/// prefix longer than `prefix`, or is itself when nothing is left to
/// choose, that the check may reject.
pub open spec fn refuted_chirho<T, F: Fn(&[T]) -> bool>(check: F, choices: Seq<Seq<T>>, prefix: Seq<T>) -> bool {
    forall|a: Seq<T>|
        #![trigger a.take(prefix.len() as int), within_choices_chirho(choices, a)]
        a.len() == choices.len() && within_choices_chirho(choices, a) && a.take(prefix.len() as int) == prefix ==> exists|k: int|
            prefix.len() <= k <= a.len() && (k > prefix.len() || k == a.len()) && #[trigger] may_reject_chirho(check, a.take(k))
}

/// Trying `v` after `prefix` ends in a rejection: either of the extended
/// values themselves or of everything below them.
pub open spec fn covered_chirho<T, F: Fn(&[T]) -> bool>(check: F, choices: Seq<Seq<T>>, prefix: Seq<T>, v: T) -> bool {
    may_reject_chirho(check, prefix.push(v)) || refuted_chirho(check, choices, prefix.push(v))
}

/// Whether the full assignment `a` is the first one the search reaches from
/// position `from` on: at each such position it takes the choice at index
/// `idx[m]`, and every choice before that one, after the same earlier
/// values, ended in a rejection.
pub open spec fn first_from_chirho<T, F: Fn(&[T]) -> bool>(check: F, choices: Seq<Seq<T>>, a: Seq<T>, idx: Seq<int>, from: int) -> bool {
    &&& idx.len() == a.len()
    &&& forall|m: int| from <= m < a.len() ==> 0 <= #[trigger] idx[m] < choices[m].len() && a[m] == choices[m][idx[m]]
    &&& forall|m: int, j: int| from <= m < a.len() && 0 <= j < idx[m] ==> #[trigger] covered_chirho(check, choices, a.take(m), choices[m][j])
}

/// The check answers the same on the same values.
pub open spec fn deterministic_check_chirho<T, F: Fn(&[T]) -> bool>(check: F) -> bool {
    forall|p: &[T], q: &[T], r1: bool, r2: bool|
        p@ == q@ && #[trigger] call_ensures(check, (p,), r1) && #[trigger] call_ensures(check, (q,), r2) ==> r1 == r2
}

/// The backtracks a search makes from `prefix` on, with no limit, and
/// whether it finds values, when the check answers `may_accept_chirho`.
pub open spec fn simple_outcome_chirho<T, F: Fn(&[T]) -> bool>(check: F, choices: Seq<Seq<T>>, prefix: Seq<T>) -> (nat, bool)
    decreases choices.len() - prefix.len(), 1nat + if prefix.len() < choices.len() { choices[prefix.len() as int].len() } else { 0 },
{
    if prefix.len() >= choices.len() {
        (0, may_accept_chirho(check, prefix))
    } else {
        simple_level_chirho(check, choices, prefix, 0)
    }
}

/// The backtracks a search makes trying the choices from the `j`-th on
/// after `prefix`, and whether it finds values.
pub open spec fn simple_level_chirho<T, F: Fn(&[T]) -> bool>(check: F, choices: Seq<Seq<T>>, prefix: Seq<T>, j: nat) -> (nat, bool)
    decreases choices.len() - prefix.len(), if prefix.len() < choices.len() && j <= choices[prefix.len() as int].len() {
        (choices[prefix.len() as int].len() - j) as nat
    } else {
        0nat
    },
{
    if prefix.len() >= choices.len() || j >= choices[prefix.len() as int].len() {
        (0, false)
    } else {
        let e = prefix.push(choices[prefix.len() as int][j as int]);
        let rest = simple_level_chirho(check, choices, prefix, j + 1);
        if may_accept_chirho(check, e) {
            let below = simple_outcome_chirho(check, choices, e);
            if below.1 {
                below
            } else {
                (below.0 + 1 + rest.0, rest.1)
            }
        } else {
            (1 + rest.0, rest.1)
        }
    }
}

/// Under a deterministic check, what it answered on `p` is whether it may accept `p`.
proof fn lemma_answer_chirho<T, F: Fn(&[T]) -> bool>(check: F, p: &[T], ok: bool)
    requires
        call_ensures(check, (p,), ok),
    ensures
        ok ==> may_accept_chirho(check, p@),
        !ok ==> may_reject_chirho(check, p@),
        deterministic_check_chirho(check) ==> (ok == may_accept_chirho(check, p@)),
{
    if deterministic_check_chirho(check) && !ok && may_accept_chirho(check, p@) {
        let q = choose|q: &[T]| q@ == p@ && #[trigger] call_ensures(check, (q,), true);
        assert(call_ensures(check, (q,), true));
    }
}

/// The premise names of named ambs.
pub open spec fn amb_names_chirho<T: Copy>(ambs: Seq<(String, AmbChirho<T>)>) -> Seq<Seq<char>> {
    ambs.map_values(|x: (String, AmbChirho<T>)| x.0@)
}

/// The choices of named ambs.
pub open spec fn named_choices_chirho<T: Copy>(ambs: Seq<(String, AmbChirho<T>)>) -> Seq<Seq<T>> {
    ambs.map_values(|x: (String, AmbChirho<T>)| x.1.choices_spec_chirho())
}

/// The values of named values.
pub open spec fn pair_values_chirho<T>(a: Seq<(String, T)>) -> Seq<T> {
    a.map_values(|x: (String, T)| x.1)
}

/// Named values, each named for its position and among its choices.
pub open spec fn named_prefix_chirho<T>(a: Seq<(String, T)>, names: Seq<Seq<char>>, choices: Seq<Seq<T>>) -> bool {
    &&& a.len() <= names.len()
    &&& a.len() <= choices.len()
    &&& forall|j: int| #![trigger a[j]] 0 <= j < a.len() ==> a[j].0@ == names[j] && choices[j].contains(a[j].1)
}

/// The check may accept exactly these named values.
pub open spec fn call_ensures_ok_chirho<T, F: Fn(&[(String, T)]) -> Result<(), NameSetChirho>>(check: F, a: Seq<(String, T)>) -> bool {
    exists|p: &[(String, T)], r: Result<(), NameSetChirho>| p@ == a && r is Ok && #[trigger] call_ensures(check, (p,), r)
}

/// The check may give `r` for exactly these named values.
pub open spec fn call_gives_chirho<T, F: Fn(&[(String, T)]) -> Result<(), NameSetChirho>>(
    check: F,
    a: Seq<(String, T)>,
    r: Result<(), NameSetChirho>,
) -> bool {
    exists|p: &[(String, T)]| p@ == a && #[trigger] call_ensures(check, (p,), r)
}

/// The check may reject the values `vals`, each named for its position.
pub open spec fn may_reject_named_chirho<T, F: Fn(&[(String, T)]) -> Result<(), NameSetChirho>>(
    check: F,
    names: Seq<Seq<char>>,
    vals: Seq<T>,
) -> bool {
    exists|a: Seq<(String, T)>, e: NameSetChirho|
        a.len() == vals.len() && vals.len() <= names.len() && (forall|j: int| 0 <= j < a.len() ==> #[trigger] a[j].0@ == names[j] && a[j].1
            == vals[j]) && #[trigger] call_gives_chirho(check, a, Err(e))
}

/// The check may reject some prefix of the values `s`, each named for its
/// position: one with at least one value, or the empty one when `s` is empty.
pub open spec fn rejected_somewhere_chirho<T, F: Fn(&[(String, T)]) -> Result<(), NameSetChirho>>(
    check: F,
    names: Seq<Seq<char>>,
    s: Seq<T>,
) -> bool {
    exists|k: int| 0 <= k <= s.len() && (k > 0 || s.len() == 0) && #[trigger] may_reject_named_chirho(check, names, s.take(k))
}

/// Values for all the ambs, each among its choices.
pub open spec fn full_values_chirho<T>(choices: Seq<Seq<T>>, s: Seq<T>) -> bool {
    s.len() == choices.len() && within_choices_chirho(choices, s)
}

/// `s` agrees with `vals` at every position of `vals` whose name is blamed.
pub open spec fn agrees_on_chirho<T>(s: Seq<T>, vals: Seq<T>, names: Seq<Seq<char>>, blamed: Set<Seq<char>>) -> bool {
    forall|j: int| 0 <= j < vals.len() && #[trigger] blamed.contains(names[j]) ==> s[j] == vals[j]
}

/// The blamed names refute the values `vals`: every full assignment within
/// the choices that agrees with `vals` wherever the name is blamed has a
/// prefix the check may reject.
pub open spec fn blame_refutes_chirho<T, F: Fn(&[(String, T)]) -> Result<(), NameSetChirho>>(
    check: F,
    names: Seq<Seq<char>>,
    choices: Seq<Seq<T>>,
    vals: Seq<T>,
    blamed: Set<Seq<char>>,
) -> bool {
    forall|s: Seq<T>| #![trigger full_values_chirho(choices, s), agrees_on_chirho(s, vals, names, blamed)]
        full_values_chirho(choices, s) && agrees_on_chirho(s, vals, names, blamed) ==> rejected_somewhere_chirho(check, names, s)
}

/// The check blames honestly: whenever it may reject named values of the
/// ambs, the premises it blames refute those values.
pub open spec fn honest_blame_chirho<T, F: Fn(&[(String, T)]) -> Result<(), NameSetChirho>>(
    check: F,
    names: Seq<Seq<char>>,
    choices: Seq<Seq<T>>,
) -> bool {
    forall|a: Seq<(String, T)>, e: NameSetChirho|
        named_prefix_chirho(a, names, choices) && #[trigger] call_gives_chirho(check, a, Err(e))
            ==> blame_refutes_chirho(check, names, choices, pair_values_chirho(a), e@)
}

/// Every rejection of the check blames some premise.
pub open spec fn blames_always_chirho<T, F: Fn(&[(String, T)]) -> Result<(), NameSetChirho>>(check: F) -> bool {
    forall|p: &[(String, T)], e: NameSetChirho| #[trigger] call_ensures(check, (p,), Err(e)) ==> e@ != Set::<Seq<char>>::empty()
}

/// The check never both accepts and rejects the same named values.
pub open spec fn consistent_check_chirho<T, F: Fn(&[(String, T)]) -> Result<(), NameSetChirho>>(check: F) -> bool {
    forall|p: &[(String, T)], q: &[(String, T)], r1: Result<(), NameSetChirho>, r2: Result<(), NameSetChirho>|
        p@ == q@ && #[trigger] call_ensures(check, (p,), r1) && #[trigger] call_ensures(check, (q,), r2) ==> (r1 is Ok <==> r2 is Ok)
}

/// Every amb from position `i` on has a choice.
pub open spec fn choices_nonempty_from_chirho<T>(choices: Seq<Seq<T>>, i: int) -> bool {
    forall|j: int| i <= j < choices.len() ==> #[trigger] choices[j].len() > 0
}

/// Each value is the choice at the recorded position among its amb's choices.
pub open spec fn picks_chirho<T>(a: Seq<(String, T)>, chosen: Seq<usize>, choices: Seq<Seq<T>>) -> bool {
    &&& chosen.len() == a.len()
    &&& a.len() <= choices.len()
    &&& forall|j: int| 0 <= j < chosen.len() ==> #[trigger] chosen[j] < choices[j].len() && a[j].1 == choices[j][chosen[j] as int]
}

/// The full values `s` take every choice of the nogood, given as the
/// position of an amb and the position of its choice.
pub open spec fn nogood_matches_chirho<T>(choices: Seq<Seq<T>>, s: Seq<T>, nogood: Seq<(usize, usize)>) -> bool {
    forall|t: int| 0 <= t < nogood.len() ==> #[trigger] s[nogood[t].0 as int] == choices[nogood[t].0 as int][nogood[t].1 as int]
}

/// A nogood is sound: its choices exist, and every full assignment that
/// takes them all has a prefix the check may reject.
pub open spec fn nogood_sound_chirho<T, F: Fn(&[(String, T)]) -> Result<(), NameSetChirho>>(
    check: F,
    names: Seq<Seq<char>>,
    choices: Seq<Seq<T>>,
    nogood: Seq<(usize, usize)>,
) -> bool {
    &&& forall|t: int| 0 <= t < nogood.len() ==> #[trigger] nogood[t].0 < choices.len() && nogood[t].1 < choices[nogood[t].0 as int].len()
    &&& forall|s: Seq<T>| #![trigger full_values_chirho(choices, s), nogood_matches_chirho(choices, s, nogood)]
        full_values_chirho(choices, s) && nogood_matches_chirho(choices, s, nogood) ==> rejected_somewhere_chirho(check, names, s)
}

/// The choices made so far, by position, include every choice of the nogood.
pub open spec fn nogood_holds_chirho(nogood: Seq<(usize, usize)>, chosen: Seq<usize>) -> bool {
    forall|t: int| 0 <= t < nogood.len() ==> #[trigger] nogood[t].0 < chosen.len() && chosen[nogood[t].0 as int] == nogood[t].1
}

/// Blaming more names refutes at least as much.
proof fn lemma_refutes_more_chirho<T, F: Fn(&[(String, T)]) -> Result<(), NameSetChirho>>(
    check: F,
    names: Seq<Seq<char>>,
    choices: Seq<Seq<T>>,
    vals: Seq<T>,
    b1: Set<Seq<char>>,
    b2: Set<Seq<char>>,
)
    requires
        blame_refutes_chirho(check, names, choices, vals, b1),
        b1.subset_of(b2),
    ensures
        blame_refutes_chirho(check, names, choices, vals, b2),
{
    assert forall|s: Seq<T>| full_values_chirho(choices, s) && agrees_on_chirho(s, vals, names, b2)
        implies rejected_somewhere_chirho(check, names, s) by {
        assert forall|j: int| 0 <= j < vals.len() && #[trigger] b1.contains(names[j]) implies s[j] == vals[j] by {
            assert(b2.contains(names[j]));
        }
        assert(agrees_on_chirho(s, vals, names, b1));
    }
}

/// When the name at the last position is not blamed, the blame refutes the
/// values without the last one too.
proof fn lemma_refutes_drop_chirho<T, F: Fn(&[(String, T)]) -> Result<(), NameSetChirho>>(
    check: F,
    names: Seq<Seq<char>>,
    choices: Seq<Seq<T>>,
    vals: Seq<T>,
    v: T,
    blamed: Set<Seq<char>>,
)
    requires
        blame_refutes_chirho(check, names, choices, vals.push(v), blamed),
        vals.len() < names.len(),
        !blamed.contains(names[vals.len() as int]),
    ensures
        blame_refutes_chirho(check, names, choices, vals, blamed),
{
    let w = vals.push(v);
    assert forall|s: Seq<T>| full_values_chirho(choices, s) && agrees_on_chirho(s, vals, names, blamed)
        implies rejected_somewhere_chirho(check, names, s) by {
        assert forall|j: int| 0 <= j < w.len() && #[trigger] blamed.contains(names[j]) implies s[j] == w[j] by {
            if j < vals.len() {
                assert(w[j] == vals[j]);
            }
        }
        assert(agrees_on_chirho(s, w, names, blamed));
    }
}

/// The check may accept the values `vals`, each named for its position.
pub open spec fn may_accept_named_chirho<T, F: Fn(&[(String, T)]) -> Result<(), NameSetChirho>>(
    check: F,
    names: Seq<Seq<char>>,
    vals: Seq<T>,
) -> bool {
    exists|a: Seq<(String, T)>|
        a.len() == vals.len() && vals.len() <= names.len() && (forall|j: int| 0 <= j < a.len() ==> #[trigger] a[j].0@ == names[j] && a[j].1
            == vals[j]) && #[trigger] call_ensures_ok_chirho(check, a)
}

/// Accepted named values that are named for their positions give an
/// acceptance of their values.
proof fn lemma_named_accept_chirho<T, F: Fn(&[(String, T)]) -> Result<(), NameSetChirho>>(
    check: F,
    names: Seq<Seq<char>>,
    a: Seq<(String, T)>,
)
    requires
        a.len() <= names.len(),
        forall|j: int| 0 <= j < a.len() ==> #[trigger] a[j].0@ == names[j],
        call_ensures_ok_chirho(check, a),
    ensures
        may_accept_named_chirho(check, names, pair_values_chirho(a)),
{
    let vals = pair_values_chirho(a);
    assert(forall|j: int| 0 <= j < a.len() ==> #[trigger] a[j].0@ == names[j] && a[j].1 == vals[j]);
}

/// The number of choices from position `i` on.
pub open spec fn choices_from_chirho<T>(choices: Seq<Seq<T>>, i: int) -> nat
    decreases choices.len() - i,
{
    if i < 0 || i >= choices.len() {
        0
    } else {
        choices[i].len() + choices_from_chirho(choices, i + 1)
    }
}

/// The number of choices a search tries from position `i` on, at most:
/// each choice at `i`, and below each of them all the tries further on.
pub open spec fn tries_from_chirho<T>(choices: Seq<Seq<T>>, i: int) -> nat
    decreases choices.len() - i,
{
    if i < 0 || i >= choices.len() {
        0
    } else {
        choices[i].len() * (1 + tries_from_chirho(choices, i + 1))
    }
}

/// Choices further on are fewer.
proof fn lemma_choices_from_chirho<T>(choices: Seq<Seq<T>>, i: int)
    requires
        0 <= i <= choices.len(),
    ensures
        choices_from_chirho(choices, i) <= choices_from_chirho(choices, 0),
    decreases i,
{
    if i > 0 {
        lemma_choices_from_chirho(choices, i - 1);
    }
}


/// A backtracking search engine's limits and counters.
pub struct BacktrackingSearchChirho {
    /// Maximum number of backtracks before giving up.
    max_backtracks_chirho: usize,
    /// Number of backtracks so far.
    backtrack_count_chirho: usize,
}

impl BacktrackingSearchChirho {
    /// The backtrack limit.
    pub closed spec fn max_backtracks_spec_chirho(&self) -> usize {
        self.max_backtracks_chirho
    }

    /// The number of backtracks so far.
    pub closed spec fn backtrack_count_spec_chirho(&self) -> usize {
        self.backtrack_count_chirho
    }

    /// Creates a search engine that allows 10000 backtracks.
    pub fn new_chirho() -> (r: Self)
        ensures
            r.max_backtracks_spec_chirho() == 10000,
            r.backtrack_count_spec_chirho() == 0,
    {
        BacktrackingSearchChirho { max_backtracks_chirho: 10000, backtrack_count_chirho: 0 }
    }

    /// Creates a search engine with a custom backtrack limit.
    pub fn with_limit_chirho(max_backtracks_chirho: usize) -> (r: Self)
        ensures
            r.max_backtracks_spec_chirho() == max_backtracks_chirho,
            r.backtrack_count_spec_chirho() == 0,
    {
        BacktrackingSearchChirho { max_backtracks_chirho, backtrack_count_chirho: 0 }
    }

    /// Returns the number of backtracks performed.
    pub fn backtrack_count_chirho(&self) -> (r: usize)
        ensures
            r == self.backtrack_count_spec_chirho(),
    {
        self.backtrack_count_chirho
    }

    /// Resets the backtrack counter.
    pub fn reset_chirho(&mut self)
        ensures
            final(self).backtrack_count_spec_chirho() == 0,
            final(self).max_backtracks_spec_chirho() == old(self).max_backtracks_spec_chirho(),
    {
        self.backtrack_count_chirho = 0;
    }

    /// Searches for values, one per amb and among its choices, that the
    /// check accepts. Choices are tried in order, and after each the check
    /// is asked about the values chosen so far; a choice it rejects, or
    /// below which no solution was found, counts as a backtrack. The search
    /// gives up once the count reaches the limit. With a check that answers
    /// the same on the same values, the count is exactly the one
    /// `simple_outcome_chirho` gives.
    pub fn search_simple_chirho<T: Copy, F: Fn(&[T]) -> bool>(&mut self, ambs_chirho: &[AmbChirho<T>], check_consistent_chirho: F) -> (r: SearchResultChirho<T>)
        requires
            old(self).max_backtracks_spec_chirho() + choices_from_chirho(amb_choices_chirho(ambs_chirho@), 0) <= usize::MAX,
            forall|p: &[T]| call_requires(check_consistent_chirho, (p,)),
        ensures
            final(self).max_backtracks_spec_chirho() == old(self).max_backtracks_spec_chirho(),
            final(self).backtrack_count_spec_chirho() <= tries_from_chirho(amb_choices_chirho(ambs_chirho@), 0),
            match r {
                SearchResultChirho::SolutionChirho(sol) => {
                    &&& sol@.len() == ambs_chirho@.len()
                    &&& within_choices_chirho(amb_choices_chirho(ambs_chirho@), sol@)
                    &&& may_accept_chirho(check_consistent_chirho, sol@)
                    &&& forall|k: int| 1 <= k <= sol@.len() ==> #[trigger] may_accept_chirho(check_consistent_chirho, sol@.take(k))
                    &&& exists|idx: Seq<int>| #[trigger] first_from_chirho(check_consistent_chirho, amb_choices_chirho(ambs_chirho@), sol@, idx, 0)
                    &&& final(self).backtrack_count_spec_chirho() < final(self).max_backtracks_spec_chirho()
                },
                SearchResultChirho::NoSolutionChirho => {
                    &&& final(self).backtrack_count_spec_chirho() < final(self).max_backtracks_spec_chirho()
                    &&& refuted_chirho(check_consistent_chirho, amb_choices_chirho(ambs_chirho@), Seq::empty())
                },
                SearchResultChirho::AbandonedChirho => final(self).backtrack_count_spec_chirho() >= final(self).max_backtracks_spec_chirho(),
            },
            deterministic_check_chirho(check_consistent_chirho) && final(self).backtrack_count_spec_chirho()
                < final(self).max_backtracks_spec_chirho() ==> {
                let o = simple_outcome_chirho(check_consistent_chirho, amb_choices_chirho(ambs_chirho@), Seq::empty());
                &&& final(self).backtrack_count_spec_chirho() == o.0
                &&& (r is SolutionChirho <==> o.1)
            },
    {
        self.backtrack_count_chirho = 0;
        let ghost choices = amb_choices_chirho(ambs_chirho@);
        let mut assignment_chirho: Vec<T> = Vec::new();
        let found_chirho = self.search_recursive_chirho(ambs_chirho, &mut assignment_chirho, 0, &check_consistent_chirho);
        if found_chirho {
            proof {
                assert(assignment_chirho@.take(assignment_chirho@.len() as int) =~= assignment_chirho@);
            }
            SearchResultChirho::SolutionChirho(assignment_chirho)
        } else if self.backtrack_count_chirho >= self.max_backtracks_chirho {
            SearchResultChirho::AbandonedChirho
        } else {
            proof {
                assert(assignment_chirho@ =~= Seq::<T>::empty());
            }
            SearchResultChirho::NoSolutionChirho
        }
    }

    /// Extends the values chosen for the ambs before `index` with values
    /// for the rest, trying each choice in order.
    fn search_recursive_chirho<T: Copy, F: Fn(&[T]) -> bool>(
        &mut self,
        ambs_chirho: &[AmbChirho<T>],
        assignment_chirho: &mut Vec<T>,
        index_chirho: usize,
        check_consistent_chirho: &F,
    ) -> (found: bool)
        requires
            old(assignment_chirho)@.len() == index_chirho <= ambs_chirho@.len(),
            within_choices_chirho(amb_choices_chirho(ambs_chirho@), old(assignment_chirho)@),
            old(self).max_backtracks_spec_chirho() + choices_from_chirho(amb_choices_chirho(ambs_chirho@), 0) <= usize::MAX,
            forall|p: &[T]| call_requires(*check_consistent_chirho, (p,)),
        ensures
            final(self).max_backtracks_spec_chirho() == old(self).max_backtracks_spec_chirho(),
            old(self).backtrack_count_spec_chirho() <= final(self).backtrack_count_spec_chirho(),
            final(self).backtrack_count_spec_chirho() <= old(self).backtrack_count_spec_chirho()
                + tries_from_chirho(amb_choices_chirho(ambs_chirho@), index_chirho as int),
            old(self).backtrack_count_spec_chirho() < old(self).max_backtracks_spec_chirho() ==> final(self).backtrack_count_spec_chirho()
                <= old(self).max_backtracks_spec_chirho() - 1 + choices_from_chirho(amb_choices_chirho(ambs_chirho@), index_chirho as int),
            old(self).backtrack_count_spec_chirho() >= old(self).max_backtracks_spec_chirho() ==> final(self).backtrack_count_spec_chirho()
                == old(self).backtrack_count_spec_chirho(),
            found ==> {
                &&& final(assignment_chirho)@.len() == ambs_chirho@.len()
                &&& within_choices_chirho(amb_choices_chirho(ambs_chirho@), final(assignment_chirho)@)
                &&& final(assignment_chirho)@.take(index_chirho as int) == old(assignment_chirho)@
                &&& may_accept_chirho(*check_consistent_chirho, final(assignment_chirho)@)
                &&& forall|k: int| index_chirho < k <= ambs_chirho@.len() ==> #[trigger] may_accept_chirho(
                    *check_consistent_chirho,
                    final(assignment_chirho)@.take(k),
                )
                &&& final(self).backtrack_count_spec_chirho() < final(self).max_backtracks_spec_chirho()
                &&& exists|idx: Seq<int>| #[trigger] first_from_chirho(
                    *check_consistent_chirho,
                    amb_choices_chirho(ambs_chirho@),
                    final(assignment_chirho)@,
                    idx,
                    index_chirho as int,
                )
            },
            !found ==> final(assignment_chirho)@ == old(assignment_chirho)@,
            deterministic_check_chirho(*check_consistent_chirho) && final(self).backtrack_count_spec_chirho()
                < final(self).max_backtracks_spec_chirho() ==> {
                let o = simple_outcome_chirho(*check_consistent_chirho, amb_choices_chirho(ambs_chirho@), old(assignment_chirho)@);
                &&& final(self).backtrack_count_spec_chirho() == old(self).backtrack_count_spec_chirho() + o.0
                &&& found == o.1
            },
            !found && final(self).backtrack_count_spec_chirho() < final(self).max_backtracks_spec_chirho() ==> refuted_chirho(
                *check_consistent_chirho,
                amb_choices_chirho(ambs_chirho@),
                old(assignment_chirho)@,
            ),
        decreases ambs_chirho@.len() - index_chirho,
    {
        let ghost choices = amb_choices_chirho(ambs_chirho@);
        let ghost prefix = assignment_chirho@;
        if self.backtrack_count_chirho >= self.max_backtracks_chirho {
            return false;
        }
        if index_chirho >= ambs_chirho.len() {
            let slice_chirho = assignment_chirho.as_slice();
            let ok_chirho = check_consistent_chirho(slice_chirho);
            proof {
                lemma_answer_chirho(*check_consistent_chirho, slice_chirho, ok_chirho);
                let idx0 = Seq::new(assignment_chirho@.len(), |m: int| 0int);
                assert(first_from_chirho(*check_consistent_chirho, choices, assignment_chirho@, idx0, index_chirho as int));
                assert(assignment_chirho@.take(index_chirho as int) =~= assignment_chirho@);
                if !ok_chirho {
                    assert forall|a: Seq<T>|
                        a.len() == choices.len() && within_choices_chirho(choices, a) && a.take(prefix.len() as int) == prefix implies exists|k: int|
                            prefix.len() <= k <= a.len() && (k > prefix.len() || k == a.len()) && #[trigger] may_reject_chirho(
                                *check_consistent_chirho,
                                a.take(k),
                            ) by {
                        assert(a.take(a.len() as int) =~= a);
                        assert(a =~= prefix);
                        assert(may_reject_chirho(*check_consistent_chirho, a.take(a.len() as int)));
                    }
                }
            }
            return ok_chirho;
        }
        let amb_choices_here = ambs_chirho[index_chirho].choices_chirho();
        let ghost here = choices[index_chirho as int];
        assert(amb_choices_here@ == here);
        let ghost count_in = self.backtrack_count_chirho;
        let ghost tries_below = tries_from_chirho(choices, index_chirho + 1);
        proof {
            lemma_choices_from_chirho(choices, index_chirho as int);
            assert(choices_from_chirho(choices, index_chirho as int) == here.len() + choices_from_chirho(choices, index_chirho + 1));
            assert(tries_from_chirho(choices, index_chirho as int) == here.len() * (1 + tries_below));
        }
        let mut i: usize = 0;
        while i < amb_choices_here.len()
            invariant
                0 <= i <= amb_choices_here@.len(),
                amb_choices_here@ == here,
                here == choices[index_chirho as int],
                choices == amb_choices_chirho(ambs_chirho@),
                index_chirho < ambs_chirho@.len() == choices.len(),
                ambs_chirho@.len() <= usize::MAX,
                assignment_chirho@ == prefix,
                prefix == old(assignment_chirho)@,
                prefix.len() == index_chirho,
                within_choices_chirho(choices, prefix),
                self.max_backtracks_spec_chirho() == old(self).max_backtracks_spec_chirho(),
                count_in == old(self).backtrack_count_spec_chirho(),
                count_in < self.max_backtracks_spec_chirho(),
                count_in <= self.backtrack_count_spec_chirho(),
                self.backtrack_count_spec_chirho() <= count_in + i * (1 + tries_below),
                self.backtrack_count_spec_chirho() <= self.max_backtracks_spec_chirho() - 1 + choices_from_chirho(choices, index_chirho + 1) + i,
                choices_from_chirho(choices, index_chirho as int) == here.len() + choices_from_chirho(choices, index_chirho + 1),
                choices_from_chirho(choices, index_chirho as int) <= choices_from_chirho(choices, 0),
                self.max_backtracks_spec_chirho() + choices_from_chirho(choices, 0) <= usize::MAX,
                tries_below == tries_from_chirho(choices, index_chirho + 1),
                forall|p: &[T]| call_requires(*check_consistent_chirho, (p,)),
                self.backtrack_count_spec_chirho() < self.max_backtracks_spec_chirho() ==> forall|j: int|
                    0 <= j < i ==> #[trigger] covered_chirho(*check_consistent_chirho, choices, prefix, here[j]),
                deterministic_check_chirho(*check_consistent_chirho) && self.backtrack_count_spec_chirho()
                    < self.max_backtracks_spec_chirho() ==> {
                    let l0 = simple_level_chirho(*check_consistent_chirho, choices, prefix, 0);
                    let li = simple_level_chirho(*check_consistent_chirho, choices, prefix, i as nat);
                    &&& l0.0 == self.backtrack_count_spec_chirho() - count_in + li.0
                    &&& l0.1 == li.1
                },
            decreases amb_choices_here@.len() - i,
        {
            let choice_chirho = amb_choices_here[i];
            assignment_chirho.push(choice_chirho);
            let ghost extended = assignment_chirho@;
            assert(extended == prefix.push(here[i as int]));
            assert(within_choices_chirho(choices, extended)) by {
                assert forall|j: int| 0 <= j < extended.len() implies #[trigger] choices[j].contains(extended[j]) by {
                    if j < prefix.len() {
                        assert(choices[j].contains(prefix[j]));
                    } else {
                        assert(here[i as int] == extended[j]);
                    }
                }
            }
            let slice_chirho = assignment_chirho.as_slice();
            let ok_chirho = check_consistent_chirho(slice_chirho);
            proof {
                lemma_answer_chirho(*check_consistent_chirho, slice_chirho, ok_chirho);
                assert(here[i as int] == choices[prefix.len() as int][i as int]);
            }
            let ghost before = self.backtrack_count_chirho;
            if ok_chirho {
                let found_below = self.search_recursive_chirho(ambs_chirho, assignment_chirho, index_chirho + 1, check_consistent_chirho);
                if found_below {
                    proof {
                        let fin = assignment_chirho@;
                        assert(fin.take(index_chirho + 1) == extended);
                        assert(fin.take(index_chirho as int) =~= fin.take(index_chirho + 1).take(index_chirho as int));
                        assert(prefix == old(assignment_chirho)@);
                        assert(extended.take(index_chirho as int) =~= prefix);
                        assert(may_accept_chirho(*check_consistent_chirho, fin.take(index_chirho + 1)));
                        assert forall|k: int| index_chirho < k <= ambs_chirho@.len() implies #[trigger] may_accept_chirho(
                            *check_consistent_chirho,
                            fin.take(k),
                        ) by {
                            if k == index_chirho + 1 {
                                assert(may_accept_chirho(*check_consistent_chirho, fin.take(index_chirho + 1)));
                            }
                        }
                        assert(self.backtrack_count_spec_chirho() <= count_in + tries_from_chirho(choices, index_chirho as int)) by (nonlinear_arith)
                            requires
                                self.backtrack_count_spec_chirho() <= before + tries_below,
                                before <= count_in + i * (1 + tries_below),
                                i < here.len(),
                                tries_from_chirho(choices, index_chirho as int) == here.len() * (1 + tries_below),
                        ;
                        let idx1 = choose|idx1: Seq<int>| #[trigger] first_from_chirho(*check_consistent_chirho, choices, fin, idx1, index_chirho + 1);
                        let idx = idx1.update(index_chirho as int, i as int);
                        assert(before <= self.backtrack_count_spec_chirho());
                        assert(before < self.max_backtracks_spec_chirho());
                        assert(fin.take(index_chirho as int) == prefix);
                        assert forall|m: int| index_chirho <= m < fin.len() implies 0 <= #[trigger] idx[m] < choices[m].len() && fin[m] == choices[m][idx[m]] by {
                            if m == index_chirho {
                                assert(fin[m] == extended[m]);
                            }
                        }
                        assert forall|m: int, j: int| index_chirho <= m < fin.len() && 0 <= j < idx[m]
                            implies #[trigger] covered_chirho(*check_consistent_chirho, choices, fin.take(m), choices[m][j]) by {
                            if m == index_chirho {
                                assert(covered_chirho(*check_consistent_chirho, choices, prefix, here[j]));
                            }
                        }
                        assert(first_from_chirho(*check_consistent_chirho, choices, fin, idx, index_chirho as int));
                    }
                    return true;
                }
                proof {
                    if self.backtrack_count_spec_chirho() < self.max_backtracks_spec_chirho() {
                        assert(covered_chirho(*check_consistent_chirho, choices, prefix, here[i as int]));
                    }
                }
            } else {
                proof {
                    assert(may_reject_chirho(*check_consistent_chirho, prefix.push(here[i as int])));
                    assert(covered_chirho(*check_consistent_chirho, choices, prefix, here[i as int]));
                }
            }
            let _ = assignment_chirho.pop();
            proof {
                assert(assignment_chirho@ =~= prefix);
                assert(self.backtrack_count_spec_chirho() + 1 <= count_in + (i + 1) * (1 + tries_below)) by (nonlinear_arith)
                    requires
                        before <= count_in + i * (1 + tries_below),
                        self.backtrack_count_spec_chirho() <= before + tries_below,
                ;
            }
            self.backtrack_count_chirho = self.backtrack_count_chirho + 1;
            i = i + 1;
        }
        proof {
            assert(simple_level_chirho(*check_consistent_chirho, choices, prefix, i as nat) == (0nat, false));
            assert(self.backtrack_count_spec_chirho() <= count_in + tries_from_chirho(choices, index_chirho as int));
            if self.backtrack_count_spec_chirho() < self.max_backtracks_spec_chirho() {
                assert forall|a: Seq<T>|
                    a.len() == choices.len() && within_choices_chirho(choices, a) && a.take(prefix.len() as int) == prefix implies exists|k: int|
                        prefix.len() <= k <= a.len() && (k > prefix.len() || k == a.len()) && #[trigger] may_reject_chirho(
                            *check_consistent_chirho,
                            a.take(k),
                        ) by {
                    let v = a[index_chirho as int];
                    assert(choices[index_chirho as int].contains(v));
                    let j = choose|j: int| 0 <= j < here.len() && here[j] == v;
                    assert(covered_chirho(*check_consistent_chirho, choices, prefix, here[j]));
                    assert(a.take(index_chirho + 1) =~= prefix.push(v));
                    if may_reject_chirho(*check_consistent_chirho, prefix.push(v)) {
                        assert(may_reject_chirho(*check_consistent_chirho, a.take(index_chirho + 1)));
                    } else {
                        assert(refuted_chirho(*check_consistent_chirho, choices, prefix.push(v)));
                        assert(a.take(prefix.push(v).len() as int) == prefix.push(v));
                    }
                }
            }
        }
        false
    }
}

/// A dependency-directed search engine's limits, counters and learned nogoods.
pub struct DependencyDirectedSearchChirho {
    /// Maximum backtracks before giving up.
    max_backtracks_chirho: usize,
    /// Current backtrack count.
    backtrack_count_chirho: usize,
    /// Nogoods learned during search: each a list of choices, given as the
    /// position of an amb and the position of its choice, that cannot all
    /// be taken together.
    nogoods_chirho: Vec<Vec<(usize, usize)>>,
    /// Chronological backtracks avoided (it stops growing at its maximum).
    jumps_chirho: usize,
}

/// A copy of a nogood.
fn copy_nogood_chirho(v: &Vec<(usize, usize)>) -> (r: Vec<(usize, usize)>)
    ensures
        r@ == v@,
{
    let mut r: Vec<(usize, usize)> = Vec::new();
    let mut i: usize = 0;
    while i < v.len()
        invariant
            0 <= i <= v@.len(),
            r@ == v@.take(i as int),
        decreases v@.len() - i,
    {
        r.push(v[i]);
        i = i + 1;
        assert(r@ =~= v@.take(i as int));
    }
    assert(v@.take(i as int) =~= v@);
    r
}

impl DependencyDirectedSearchChirho {
    /// The backtrack limit.
    pub closed spec fn max_backtracks_spec_chirho(&self) -> usize {
        self.max_backtracks_chirho
    }

    /// The number of backtracks so far.
    pub closed spec fn backtrack_count_spec_chirho(&self) -> usize {
        self.backtrack_count_chirho
    }

    /// The number of levels skipped so far.
    pub closed spec fn jump_count_spec_chirho(&self) -> usize {
        self.jumps_chirho
    }

    /// The nogoods learned so far.
    pub closed spec fn nogoods_spec_chirho(&self) -> Seq<Seq<(usize, usize)>> {
        self.nogoods_chirho@.map_values(|g: Vec<(usize, usize)>| g@)
    }

    /// Creates a dependency-directed search engine that allows 10000 backtracks.
    pub fn new_chirho() -> (r: Self)
        ensures
            r.max_backtracks_spec_chirho() == 10000,
            r.backtrack_count_spec_chirho() == 0,
            r.jump_count_spec_chirho() == 0,
            r.nogoods_spec_chirho().len() == 0,
    {
        Self::with_limit_chirho(10000)
    }

    /// Creates a search engine with a custom backtrack limit.
    pub fn with_limit_chirho(max_backtracks_chirho: usize) -> (r: Self)
        ensures
            r.max_backtracks_spec_chirho() == max_backtracks_chirho,
            r.backtrack_count_spec_chirho() == 0,
            r.jump_count_spec_chirho() == 0,
            r.nogoods_spec_chirho().len() == 0,
    {
        DependencyDirectedSearchChirho { max_backtracks_chirho, backtrack_count_chirho: 0, nogoods_chirho: Vec::new(), jumps_chirho: 0 }
    }

    /// Returns the number of backtracks performed.
    pub fn backtrack_count_chirho(&self) -> (r: usize)
        ensures
            r == self.backtrack_count_spec_chirho(),
    {
        self.backtrack_count_chirho
    }

    /// Returns the number of dependency-directed jumps (skipped levels).
    pub fn jump_count_chirho(&self) -> (r: usize)
        ensures
            r == self.jump_count_spec_chirho(),
    {
        self.jumps_chirho
    }

    /// Returns (copies of) the learned nogoods, in the order learned.
    pub fn nogoods_chirho(&self) -> (r: Vec<Vec<(usize, usize)>>)
        ensures
            r@.map_values(|g: Vec<(usize, usize)>| g@) == self.nogoods_spec_chirho(),
    {
        let mut r: Vec<Vec<(usize, usize)>> = Vec::new();
        let mut i: usize = 0;
        while i < self.nogoods_chirho.len()
            invariant
                0 <= i <= self.nogoods_chirho@.len(),
                r@.map_values(|g: Vec<(usize, usize)>| g@) == self.nogoods_spec_chirho().take(i as int),
            decreases self.nogoods_chirho@.len() - i,
        {
            let ghost prev = r@;
            let c = copy_nogood_chirho(&self.nogoods_chirho[i]);
            r.push(c);
            proof {
                let ns = self.nogoods_spec_chirho();
                assert(r@.map_values(|g: Vec<(usize, usize)>| g@) =~= prev.map_values(|g: Vec<(usize, usize)>| g@).push(c@));
                assert(ns.take(i + 1) =~= ns.take(i as int).push(ns[i as int]));
            }
            i = i + 1;
        }
        assert(self.nogoods_spec_chirho().take(i as int) =~= self.nogoods_spec_chirho());
        r
    }

    /// Resets all counters and learned nogoods.
    pub fn reset_chirho(&mut self)
        ensures
            final(self).backtrack_count_spec_chirho() == 0,
            final(self).jump_count_spec_chirho() == 0,
            final(self).nogoods_spec_chirho().len() == 0,
            final(self).max_backtracks_spec_chirho() == old(self).max_backtracks_spec_chirho(),
    {
        self.backtrack_count_chirho = 0;
        self.jumps_chirho = 0;
        self.nogoods_chirho = Vec::new();
    }

    /// Searches for values, one per named amb and among its choices, that
    /// the check accepts. The check is asked about the named values chosen
    /// so far, and rejects them with the set of premise names it blames.
    /// When nothing below a choice works and the blamed premises do not
    /// include this amb's name, the search jumps back past it; when all of
    /// an amb's choices fail, the choices made before it whose names were
    /// blamed are learned as a nogood, and a nogood whose choices are all
    /// made cuts the search short. Counters and nogoods start afresh.
    ///
    /// When the check blames honestly, no solution means that every full
    /// assignment within the choices has a prefix the check may reject.
    pub fn search_chirho<T: Copy, F: Fn(&[(String, T)]) -> Result<(), NameSetChirho>>(
        &mut self,
        ambs_chirho: &[(String, AmbChirho<T>)],
        check_consistent_chirho: F,
    ) -> (r: SearchResultChirho<T>)
        requires
            old(self).max_backtracks_spec_chirho() + choices_from_chirho(named_choices_chirho(ambs_chirho@), 0) <= usize::MAX,
            forall|p: &[(String, T)]| call_requires(check_consistent_chirho, (p,)),
        ensures
            final(self).max_backtracks_spec_chirho() == old(self).max_backtracks_spec_chirho(),
            final(self).backtrack_count_spec_chirho() <= tries_from_chirho(named_choices_chirho(ambs_chirho@), 0),
            match r {
                SearchResultChirho::SolutionChirho(sol) => {
                    &&& sol@.len() == ambs_chirho@.len()
                    &&& within_choices_chirho(named_choices_chirho(ambs_chirho@), sol@)
                    &&& may_accept_named_chirho(check_consistent_chirho, amb_names_chirho(ambs_chirho@), sol@)
                    &&& forall|k: int| 1 <= k <= sol@.len() ==> #[trigger] may_accept_named_chirho(
                        check_consistent_chirho,
                        amb_names_chirho(ambs_chirho@),
                        sol@.take(k),
                    )
                },
                SearchResultChirho::NoSolutionChirho => {
                    &&& final(self).backtrack_count_spec_chirho() < final(self).max_backtracks_spec_chirho()
                    &&& honest_blame_chirho(check_consistent_chirho, amb_names_chirho(ambs_chirho@), named_choices_chirho(ambs_chirho@))
                        ==> forall|s: Seq<T>| #[trigger] full_values_chirho(named_choices_chirho(ambs_chirho@), s)
                            ==> rejected_somewhere_chirho(check_consistent_chirho, amb_names_chirho(ambs_chirho@), s)
                    &&& ambs_chirho@.len() > 0 && blames_always_chirho(check_consistent_chirho)
                        && consistent_check_chirho(check_consistent_chirho)
                        && choices_nonempty_from_chirho(named_choices_chirho(ambs_chirho@), 0)
                        ==> final(self).nogoods_spec_chirho().len() > 0
                },
                SearchResultChirho::AbandonedChirho => final(self).backtrack_count_spec_chirho()
                    >= final(self).max_backtracks_spec_chirho(),
            },
    {
        self.reset_chirho();
        let ghost names = amb_names_chirho(ambs_chirho@);
        let ghost choices = named_choices_chirho(ambs_chirho@);
        let mut assignment_chirho: Vec<(String, T)> = Vec::new();
        let mut chosen_chirho: Vec<usize> = Vec::new();
        proof {
            assert(named_prefix_chirho(assignment_chirho@, names, choices));
            assert(picks_chirho(assignment_chirho@, chosen_chirho@, choices));
        }
        let outcome = self.search_recursive_dd_chirho(ambs_chirho, &mut assignment_chirho, &mut chosen_chirho, 0, &check_consistent_chirho);
        match outcome {
            Ok(()) => {
                let mut solution_chirho: Vec<T> = Vec::new();
                let mut i: usize = 0;
                while i < assignment_chirho.len()
                    invariant
                        0 <= i <= assignment_chirho@.len(),
                        solution_chirho@ == pair_values_chirho(assignment_chirho@).take(i as int),
                    decreases assignment_chirho@.len() - i,
                {
                    solution_chirho.push(assignment_chirho[i].1);
                    proof {
                        assert(solution_chirho@ =~= pair_values_chirho(assignment_chirho@).take(i + 1));
                    }
                    i = i + 1;
                }
                proof {
                    let full = assignment_chirho@;
                    let vals = pair_values_chirho(full);
                    assert(vals.take(i as int) =~= vals);
                    assert(full.take(0) =~= Seq::<(String, T)>::empty());
                    lemma_named_accept_chirho(check_consistent_chirho, names, full);
                    assert forall|k: int| 1 <= k <= vals.len() implies #[trigger] may_accept_named_chirho(
                        check_consistent_chirho,
                        names,
                        vals.take(k),
                    ) by {
                        lemma_named_accept_chirho(check_consistent_chirho, names, full.take(k));
                        assert(pair_values_chirho(full.take(k)) =~= vals.take(k));
                    }
                    assert(within_choices_chirho(choices, vals)) by {
                        assert forall|j: int| 0 <= j < vals.len() implies #[trigger] choices[j].contains(vals[j]) by {
                            assert(choices[j].contains(full[j].1));
                        }
                    }
                }
                SearchResultChirho::SolutionChirho(solution_chirho)
            },
            Err(_) => {
                if self.backtrack_count_chirho >= self.max_backtracks_chirho {
                    SearchResultChirho::AbandonedChirho
                } else {
                    proof {
                        assert(assignment_chirho@ =~= Seq::<(String, T)>::empty());
                        assert(pair_values_chirho(assignment_chirho@) =~= Seq::<T>::empty());
                        if honest_blame_chirho(check_consistent_chirho, names, choices) {
                            let e = outcome->Err_0;
                            assert(blame_refutes_chirho(check_consistent_chirho, names, choices, Seq::<T>::empty(), e@));
                            assert forall|s: Seq<T>| #[trigger] full_values_chirho(choices, s)
                                implies rejected_somewhere_chirho(check_consistent_chirho, names, s) by {
                                assert(agrees_on_chirho(s, Seq::<T>::empty(), names, e@));
                            }
                        }
                    }
                    SearchResultChirho::NoSolutionChirho
                }
            },
        }
    }

    /// The first learned nogood whose choices are all among those made, if any.
    fn covering_nogood_chirho(&self, chosen_chirho: &Vec<usize>) -> (r: Option<usize>)
        ensures
            match r {
                Some(g) => g < self.nogoods_spec_chirho().len() && nogood_holds_chirho(self.nogoods_spec_chirho()[g as int], chosen_chirho@),
                None => true,
            },
    {
        let mut g: usize = 0;
        while g < self.nogoods_chirho.len()
            invariant
                0 <= g <= self.nogoods_chirho@.len(),
            decreases self.nogoods_chirho@.len() - g,
        {
            let nogood = &self.nogoods_chirho[g];
            let mut holds = true;
            let mut t: usize = 0;
            while t < nogood.len()
                invariant
                    0 <= t <= nogood@.len(),
                    holds == forall|u: int| 0 <= u < t ==> #[trigger] nogood@[u].0 < chosen_chirho@.len()
                        && chosen_chirho@[nogood@[u].0 as int] == nogood@[u].1,
                decreases nogood@.len() - t,
            {
                let (j, c) = nogood[t];
                if !(j < chosen_chirho.len() && chosen_chirho[j] == c) {
                    holds = false;
                }
                t = t + 1;
            }
            if holds {
                assert(self.nogoods_spec_chirho()[g as int] == nogood@);
                return Some(g);
            }
            g = g + 1;
        }
        None
    }

    /// The names of the ambs whose choices make up nogood `g`.
    fn nogood_names_chirho<T: Copy>(&self, ambs_chirho: &[(String, AmbChirho<T>)], g: usize) -> (r: NameSetChirho)
        requires
            g < self.nogoods_spec_chirho().len(),
            forall|t: int| 0 <= t < self.nogoods_spec_chirho()[g as int].len()
                ==> #[trigger] self.nogoods_spec_chirho()[g as int][t].0 < ambs_chirho@.len(),
        ensures
            forall|t: int| 0 <= t < self.nogoods_spec_chirho()[g as int].len()
                ==> r@.contains(amb_names_chirho(ambs_chirho@)[#[trigger] self.nogoods_spec_chirho()[g as int][t].0 as int]),
    {
        let nogood = &self.nogoods_chirho[g];
        assert(nogood@ == self.nogoods_spec_chirho()[g as int]);
        let mut r = NameSetChirho::new_chirho();
        let mut t: usize = 0;
        while t < nogood.len()
            invariant
                0 <= t <= nogood@.len(),
                forall|u: int| 0 <= u < nogood@.len() ==> #[trigger] nogood@[u].0 < ambs_chirho@.len(),
                forall|u: int| 0 <= u < t ==> r@.contains(amb_names_chirho(ambs_chirho@)[#[trigger] nogood@[u].0 as int]),
            decreases nogood@.len() - t,
        {
            let j = nogood[t].0;
            assert(nogood@[t as int].0 < ambs_chirho@.len());
            let _ = r.insert_chirho(ambs_chirho[j].0.clone());
            t = t + 1;
        }
        r
    }

    /// The nogood learned when every choice after those made failed with the
    /// given blame: each choice made whose amb's name is blamed.
    fn learned_nogood_chirho<T: Copy>(
        ambs_chirho: &[(String, AmbChirho<T>)],
        chosen_chirho: &Vec<usize>,
        conflict_chirho: &NameSetChirho,
    ) -> (r: Vec<(usize, usize)>)
        requires
            chosen_chirho@.len() <= ambs_chirho@.len(),
        ensures
            forall|t: int| 0 <= t < r@.len() ==> #[trigger] r@[t].0 < chosen_chirho@.len() && r@[t].1 == chosen_chirho@[r@[t].0 as int],
            forall|j: int| 0 <= j < chosen_chirho@.len() && #[trigger] conflict_chirho@.contains(amb_names_chirho(ambs_chirho@)[j])
                ==> exists|t: int| 0 <= t < r@.len() && #[trigger] r@[t].0 == j,
    {
        let mut r: Vec<(usize, usize)> = Vec::new();
        let mut j: usize = 0;
        while j < chosen_chirho.len()
            invariant
                0 <= j <= chosen_chirho@.len(),
                chosen_chirho@.len() <= ambs_chirho@.len(),
                forall|t: int| 0 <= t < r@.len() ==> #[trigger] r@[t].0 < j && r@[t].1 == chosen_chirho@[r@[t].0 as int],
                forall|jj: int| 0 <= jj < j && #[trigger] conflict_chirho@.contains(amb_names_chirho(ambs_chirho@)[jj])
                    ==> exists|t: int| 0 <= t < r@.len() && #[trigger] r@[t].0 == jj,
            decreases chosen_chirho@.len() - j,
        {
            let ghost r0 = r@;
            if conflict_chirho.contains_chirho(&ambs_chirho[j].0) {
                r.push((j, chosen_chirho[j]));
                proof {
                    assert(r@[r0.len() as int].0 == j);
                    assert forall|jj: int| 0 <= jj < j + 1 && #[trigger] conflict_chirho@.contains(amb_names_chirho(ambs_chirho@)[jj])
                        implies exists|t: int| 0 <= t < r@.len() && #[trigger] r@[t].0 == jj by {
                        if jj < j {
                            let t = choose|t: int| 0 <= t < r0.len() && #[trigger] r0[t].0 == jj;
                            assert(r@[t] == r0[t]);
                        } else {
                            assert(r@[r0.len() as int].0 == jj);
                        }
                    }
                }
            } else {
                proof {
                    assert(ambs_chirho@[j as int].0@ == amb_names_chirho(ambs_chirho@)[j as int]);
                }
            }
            j = j + 1;
        }
        r
    }

    /// Extends the named values chosen for the ambs before `index` (the
    /// positions of the choices in `chosen`) with values for the rest; on
    /// failure, returns the premises blamed.
    fn search_recursive_dd_chirho<T: Copy, F: Fn(&[(String, T)]) -> Result<(), NameSetChirho>>(
        &mut self,
        ambs_chirho: &[(String, AmbChirho<T>)],
        assignment_chirho: &mut Vec<(String, T)>,
        chosen_chirho: &mut Vec<usize>,
        index_chirho: usize,
        check_consistent_chirho: &F,
    ) -> (r: Result<(), NameSetChirho>)
        requires
            old(assignment_chirho)@.len() == index_chirho <= ambs_chirho@.len(),
            named_prefix_chirho(old(assignment_chirho)@, amb_names_chirho(ambs_chirho@), named_choices_chirho(ambs_chirho@)),
            picks_chirho(old(assignment_chirho)@, old(chosen_chirho)@, named_choices_chirho(ambs_chirho@)),
            old(self).max_backtracks_spec_chirho() + choices_from_chirho(named_choices_chirho(ambs_chirho@), 0) <= usize::MAX,
            honest_blame_chirho(*check_consistent_chirho, amb_names_chirho(ambs_chirho@), named_choices_chirho(ambs_chirho@))
                && old(self).backtrack_count_spec_chirho() < old(self).max_backtracks_spec_chirho() ==> forall|g: int|
                0 <= g < old(self).nogoods_spec_chirho().len() ==> #[trigger] nogood_sound_chirho(
                    *check_consistent_chirho,
                    amb_names_chirho(ambs_chirho@),
                    named_choices_chirho(ambs_chirho@),
                    old(self).nogoods_spec_chirho()[g],
                ),
            forall|p: &[(String, T)]| call_requires(*check_consistent_chirho, (p,)),
        ensures
            final(self).max_backtracks_spec_chirho() == old(self).max_backtracks_spec_chirho(),
            old(self).backtrack_count_spec_chirho() <= final(self).backtrack_count_spec_chirho(),
            final(self).backtrack_count_spec_chirho() <= old(self).backtrack_count_spec_chirho()
                + tries_from_chirho(named_choices_chirho(ambs_chirho@), index_chirho as int),
            old(self).backtrack_count_spec_chirho() < old(self).max_backtracks_spec_chirho() ==> final(self).backtrack_count_spec_chirho()
                <= old(self).max_backtracks_spec_chirho() - 1 + choices_from_chirho(named_choices_chirho(ambs_chirho@), index_chirho as int),
            old(self).backtrack_count_spec_chirho() >= old(self).max_backtracks_spec_chirho() ==> {
                &&& *final(self) == *old(self)
                &&& r matches Err(e) && e@ == Set::<Seq<char>>::empty()
            },
            final(self).nogoods_spec_chirho().take(old(self).nogoods_spec_chirho().len() as int) == old(self).nogoods_spec_chirho(),
            old(self).nogoods_spec_chirho().len() <= final(self).nogoods_spec_chirho().len(),
            honest_blame_chirho(*check_consistent_chirho, amb_names_chirho(ambs_chirho@), named_choices_chirho(ambs_chirho@))
                && final(self).backtrack_count_spec_chirho() < final(self).max_backtracks_spec_chirho() ==> forall|g: int|
                0 <= g < final(self).nogoods_spec_chirho().len() ==> #[trigger] nogood_sound_chirho(
                    *check_consistent_chirho,
                    amb_names_chirho(ambs_chirho@),
                    named_choices_chirho(ambs_chirho@),
                    final(self).nogoods_spec_chirho()[g],
                ),
            r is Ok ==> {
                &&& final(assignment_chirho)@.len() == ambs_chirho@.len()
                &&& named_prefix_chirho(final(assignment_chirho)@, amb_names_chirho(ambs_chirho@), named_choices_chirho(ambs_chirho@))
                &&& picks_chirho(final(assignment_chirho)@, final(chosen_chirho)@, named_choices_chirho(ambs_chirho@))
                &&& final(assignment_chirho)@.take(index_chirho as int) == old(assignment_chirho)@
                &&& call_ensures_ok_chirho(*check_consistent_chirho, final(assignment_chirho)@)
                &&& forall|k: int| index_chirho < k <= ambs_chirho@.len() ==> #[trigger] call_ensures_ok_chirho(
                    *check_consistent_chirho,
                    final(assignment_chirho)@.take(k),
                )
            },
            r is Err ==> final(assignment_chirho)@ == old(assignment_chirho)@ && final(chosen_chirho)@ == old(chosen_chirho)@,
            r matches Err(e) ==> (final(self).backtrack_count_spec_chirho() < final(self).max_backtracks_spec_chirho()
                && honest_blame_chirho(*check_consistent_chirho, amb_names_chirho(ambs_chirho@), named_choices_chirho(ambs_chirho@))
                ==> blame_refutes_chirho(
                    *check_consistent_chirho,
                    amb_names_chirho(ambs_chirho@),
                    named_choices_chirho(ambs_chirho@),
                    pair_values_chirho(old(assignment_chirho)@),
                    e@,
                )),
            old(self).backtrack_count_spec_chirho() < old(self).max_backtracks_spec_chirho() && index_chirho == ambs_chirho@.len() ==> {
                &&& *final(self) == *old(self)
                &&& call_gives_chirho(*check_consistent_chirho, old(assignment_chirho)@, r)
            },
            r is Err && index_chirho < ambs_chirho@.len() && final(self).backtrack_count_spec_chirho() < final(self).max_backtracks_spec_chirho()
                && blames_always_chirho(*check_consistent_chirho) && consistent_check_chirho(*check_consistent_chirho)
                && choices_nonempty_from_chirho(named_choices_chirho(ambs_chirho@), index_chirho as int)
                ==> final(self).nogoods_spec_chirho().len() > 0,
        decreases ambs_chirho@.len() - index_chirho,
    {
        let ghost names = amb_names_chirho(ambs_chirho@);
        let ghost choices = named_choices_chirho(ambs_chirho@);
        let ghost prefix = assignment_chirho@;
        let ghost chosen0 = chosen_chirho@;
        let ghost n = ambs_chirho@.len();
        let ghost honest = honest_blame_chirho(*check_consistent_chirho, names, choices);
        if self.backtrack_count_chirho >= self.max_backtracks_chirho {
            return Err(NameSetChirho::new_chirho());
        }
        if index_chirho >= ambs_chirho.len() {
            let values_chirho = assignment_chirho.as_slice();
            let outcome = check_consistent_chirho(values_chirho);
            proof {
                assert(call_ensures(*check_consistent_chirho, (values_chirho,), outcome));
                assert(call_gives_chirho(*check_consistent_chirho, old(assignment_chirho)@, outcome));
                assert(assignment_chirho@.take(index_chirho as int) =~= assignment_chirho@);
                if outcome is Ok {
                    assert(values_chirho@ == assignment_chirho@);
                    assert(call_ensures_ok_chirho(*check_consistent_chirho, assignment_chirho@));
                }
            }
            return outcome;
        }
        let premise_name_chirho = &ambs_chirho[index_chirho].0;
        let amb_choices_here = ambs_chirho[index_chirho].1.choices_chirho();
        let ghost here = choices[index_chirho as int];
        assert(amb_choices_here@ == here);
        assert(premise_name_chirho@ == names[index_chirho as int]);

        match self.covering_nogood_chirho(chosen_chirho) {
            Some(g) => {
                let ghost ng = self.nogoods_spec_chirho()[g as int];
                proof {
                    assert forall|t: int| 0 <= t < ng.len() implies #[trigger] ng[t].0 < ambs_chirho@.len() by {
                        assert(nogood_holds_chirho(ng, chosen0));
                        assert(ng[t].0 < chosen0.len());
                    }
                }
                let e = self.nogood_names_chirho(ambs_chirho, g);
                proof {
                    assert(self.nogoods_spec_chirho().take(self.nogoods_spec_chirho().len() as int) =~= self.nogoods_spec_chirho());
                    if honest {
                        assert(nogood_sound_chirho(*check_consistent_chirho, names, choices, ng));
                        let vals = pair_values_chirho(prefix);
                        assert forall|s: Seq<T>| full_values_chirho(choices, s) && agrees_on_chirho(s, vals, names, e@)
                            implies rejected_somewhere_chirho(*check_consistent_chirho, names, s) by {
                            assert forall|t: int| 0 <= t < ng.len() implies #[trigger] s[ng[t].0 as int]
                                == choices[ng[t].0 as int][ng[t].1 as int] by {
                                let j = ng[t].0 as int;
                                assert(e@.contains(names[j]));
                                assert(j < chosen0.len());
                                assert(chosen0[j] == ng[t].1);
                                assert(prefix[j].1 == choices[j][chosen0[j] as int]);
                                assert(vals[j] == prefix[j].1);
                            }
                            assert(nogood_matches_chirho(choices, s, ng));
                        }
                    }
                }
                return Err(e);
            },
            None => {},
        }

        let ghost count_in = self.backtrack_count_chirho;
        let ghost nogoods_in = self.nogoods_spec_chirho();
        let ghost tries_below = tries_from_chirho(choices, index_chirho + 1);
        let ghost vals0 = pair_values_chirho(prefix);
        proof {
            lemma_choices_from_chirho(choices, index_chirho as int);
            lemma_choices_from_chirho(choices, index_chirho + 1);
            assert(choices_from_chirho(choices, index_chirho as int) == here.len() + choices_from_chirho(choices, index_chirho + 1));
            assert(tries_from_chirho(choices, index_chirho as int) == here.len() * (1 + tries_below));
        }
        let mut conflict_chirho = NameSetChirho::new_chirho();
        let mut i: usize = 0;
        while i < amb_choices_here.len()
            invariant
                0 <= i <= amb_choices_here@.len(),
                i > 0 ==> self.backtrack_count_spec_chirho() > count_in,
                i > 0 && blames_always_chirho(*check_consistent_chirho) ==> conflict_chirho@ != Set::<Seq<char>>::empty(),
                amb_choices_here@ == here,
                here == choices[index_chirho as int],
                choices == named_choices_chirho(ambs_chirho@),
                names == amb_names_chirho(ambs_chirho@),
                honest == honest_blame_chirho(*check_consistent_chirho, names, choices),
                premise_name_chirho@ == names[index_chirho as int],
                n == ambs_chirho@.len(),
                index_chirho < n <= usize::MAX,
                assignment_chirho@ == prefix,
                chosen_chirho@ == chosen0,
                prefix == old(assignment_chirho)@,
                chosen0 == old(chosen_chirho)@,
                vals0 == pair_values_chirho(prefix),
                prefix.len() == index_chirho,
                named_prefix_chirho(prefix, names, choices),
                picks_chirho(prefix, chosen0, choices),
                self.max_backtracks_spec_chirho() == old(self).max_backtracks_spec_chirho(),
                count_in == old(self).backtrack_count_spec_chirho(),
                nogoods_in == old(self).nogoods_spec_chirho(),
                count_in < self.max_backtracks_spec_chirho(),
                count_in <= self.backtrack_count_spec_chirho(),
                self.backtrack_count_spec_chirho() <= count_in + i * (1 + tries_below),
                self.backtrack_count_spec_chirho() <= self.max_backtracks_spec_chirho() - 1 + choices_from_chirho(choices, index_chirho + 1) + i,
                choices_from_chirho(choices, index_chirho as int) == here.len() + choices_from_chirho(choices, index_chirho + 1),
                choices_from_chirho(choices, index_chirho as int) <= choices_from_chirho(choices, 0),
                self.max_backtracks_spec_chirho() + choices_from_chirho(choices, 0) <= usize::MAX,
                tries_below == tries_from_chirho(choices, index_chirho + 1),
                self.nogoods_spec_chirho().take(nogoods_in.len() as int) == nogoods_in,
                nogoods_in.len() <= self.nogoods_spec_chirho().len(),
                honest && self.backtrack_count_spec_chirho() < self.max_backtracks_spec_chirho() ==> forall|g: int|
                    0 <= g < self.nogoods_spec_chirho().len() ==> #[trigger] nogood_sound_chirho(
                        *check_consistent_chirho,
                        names,
                        choices,
                        self.nogoods_spec_chirho()[g],
                    ),
                honest && self.backtrack_count_spec_chirho() < self.max_backtracks_spec_chirho() ==> forall|c: int|
                    0 <= c < i ==> #[trigger] blame_refutes_chirho(
                        *check_consistent_chirho,
                        names,
                        choices,
                        vals0.push(here[c]),
                        conflict_chirho@,
                    ),
                forall|p: &[(String, T)]| call_requires(*check_consistent_chirho, (p,)),
            decreases amb_choices_here@.len() - i,
        {
            let choice_chirho = amb_choices_here[i];
            assignment_chirho.push((premise_name_chirho.clone(), choice_chirho));
            chosen_chirho.push(i);
            let ghost extended = assignment_chirho@;
            proof {
                assert(named_prefix_chirho(extended, names, choices)) by {
                    assert forall|j: int| 0 <= j < extended.len() implies #[trigger] extended[j].0@ == names[j] && choices[j].contains(
                        extended[j].1,
                    ) by {
                        if j < prefix.len() {
                            assert(extended[j] == prefix[j]);
                        } else {
                            assert(extended[j].1 == here[i as int]);
                        }
                    }
                }
                assert(picks_chirho(extended, chosen_chirho@, choices)) by {
                    assert forall|j: int| 0 <= j < chosen_chirho@.len() implies #[trigger] chosen_chirho@[j] < choices[j].len()
                        && extended[j].1 == choices[j][chosen_chirho@[j] as int] by {
                        if j < prefix.len() {
                            assert(extended[j] == prefix[j]);
                            assert(chosen_chirho@[j] == chosen0[j]);
                        }
                    }
                }
                assert(pair_values_chirho(extended) =~= vals0.push(here[i as int]));
            }
            let values_chirho = assignment_chirho.as_slice();
            let outcome = check_consistent_chirho(values_chirho);
            let ghost before = self.backtrack_count_chirho;
            let ghost conflict_before = conflict_chirho@;
            match outcome {
                Ok(()) => {
                    proof {
                        assert(values_chirho@ == extended);
                        assert(call_ensures_ok_chirho(*check_consistent_chirho, extended));
                    }
                    let below = self.search_recursive_dd_chirho(
                        ambs_chirho,
                        assignment_chirho,
                        chosen_chirho,
                        index_chirho + 1,
                        check_consistent_chirho,
                    );
                    proof {
                        let now = self.nogoods_spec_chirho();
                        assert(now.take(nogoods_in.len() as int) =~= now.take(old(self).nogoods_spec_chirho().len() as int));
                    }
                    match below {
                        Ok(()) => {
                            proof {
                                let fin = assignment_chirho@;
                                assert(fin.take(index_chirho + 1) == extended);
                                assert(fin.take(index_chirho as int) =~= fin.take(index_chirho + 1).take(index_chirho as int));
                                assert(extended.take(index_chirho as int) =~= prefix);
                                assert forall|k: int| index_chirho < k <= n implies #[trigger] call_ensures_ok_chirho(
                                    *check_consistent_chirho,
                                    fin.take(k),
                                ) by {
                                    if k == index_chirho + 1 {
                                        assert(call_ensures_ok_chirho(*check_consistent_chirho, extended));
                                    }
                                }
                                assert(self.backtrack_count_spec_chirho() <= count_in + tries_from_chirho(choices, index_chirho as int))
                                    by (nonlinear_arith)
                                    requires
                                        self.backtrack_count_spec_chirho() <= before + tries_below,
                                        before <= count_in + i * (1 + tries_below),
                                        i < here.len(),
                                        tries_from_chirho(choices, index_chirho as int) == here.len() * (1 + tries_below),
                                ;
                            }
                            return Ok(());
                        },
                        Err(child_conflict) => {
                            if !child_conflict.contains_chirho(premise_name_chirho) {
                                self.jumps_chirho = self.jumps_chirho.saturating_add(1);
                                let _ = assignment_chirho.pop();
                                let _ = chosen_chirho.pop();
                                proof {
                                    assert(assignment_chirho@ =~= prefix);
                                    assert(chosen_chirho@ =~= chosen0);
                                    assert(self.backtrack_count_spec_chirho() <= count_in + tries_from_chirho(choices, index_chirho as int))
                                        by (nonlinear_arith)
                                        requires
                                            self.backtrack_count_spec_chirho() <= before + tries_below,
                                            before <= count_in + i * (1 + tries_below),
                                            i < here.len(),
                                            tries_from_chirho(choices, index_chirho as int) == here.len() * (1 + tries_below),
                                    ;
                                    if honest && self.backtrack_count_spec_chirho() < self.max_backtracks_spec_chirho() {
                                        lemma_refutes_drop_chirho(*check_consistent_chirho, names, choices, vals0, here[i as int], child_conflict@);
                                    }
                                    if index_chirho + 1 == n && self.backtrack_count_spec_chirho() < self.max_backtracks_spec_chirho()
                                        && consistent_check_chirho(*check_consistent_chirho) {
                                        let p = choose|p: &[(String, T)]| p@ == extended && #[trigger] call_ensures(
                                            *check_consistent_chirho,
                                            (p,),
                                            Err(child_conflict),
                                        );
                                        assert(call_ensures(*check_consistent_chirho, (values_chirho,), outcome));
                                    }
                                }
                                return Err(child_conflict);
                            }
                            proof {
                                if honest && self.backtrack_count_spec_chirho() < self.max_backtracks_spec_chirho() {
                                    assert(blame_refutes_chirho(*check_consistent_chirho, names, choices, vals0.push(here[i as int]), child_conflict@));
                                }
                            }
                            conflict_chirho.extend_chirho(&child_conflict);
                            proof {
                                assert(conflict_chirho@.contains(premise_name_chirho@));
                                if honest && self.backtrack_count_spec_chirho() < self.max_backtracks_spec_chirho() {
                                    lemma_refutes_more_chirho(*check_consistent_chirho, names, choices, vals0.push(here[i as int]), child_conflict@, conflict_chirho@);
                                }
                            }
                        },
                    }
                },
                Err(local_conflict) => {
                    proof {
                        assert(values_chirho@ == extended);
                        assert(call_gives_chirho(*check_consistent_chirho, extended, Err(local_conflict)));
                        if honest {
                            assert(blame_refutes_chirho(*check_consistent_chirho, names, choices, pair_values_chirho(extended), local_conflict@));
                        }
                        if blames_always_chirho(*check_consistent_chirho) {
                            assert(call_ensures(*check_consistent_chirho, (values_chirho,), Err(local_conflict)));
                        }
                    }
                    conflict_chirho.extend_chirho(&local_conflict);
                    proof {
                        if blames_always_chirho(*check_consistent_chirho) {
                            assert(local_conflict@ != Set::<Seq<char>>::empty());
                            let x = choose|x: Seq<char>| local_conflict@.contains(x);
                            assert(local_conflict@.contains(x)) by {
                                if !(exists|x: Seq<char>| local_conflict@.contains(x)) {
                                    assert(local_conflict@ =~= Set::<Seq<char>>::empty());
                                }
                            }
                            assert(conflict_chirho@.contains(x));
                        }
                        if honest {
                            lemma_refutes_more_chirho(*check_consistent_chirho, names, choices, vals0.push(here[i as int]), local_conflict@, conflict_chirho@);
                        }
                    }
                },
            }
            let _ = assignment_chirho.pop();
            let _ = chosen_chirho.pop();
            proof {
                assert(assignment_chirho@ =~= prefix);
                assert(chosen_chirho@ =~= chosen0);
                assert(self.backtrack_count_spec_chirho() + 1 <= count_in + (i + 1) * (1 + tries_below)) by (nonlinear_arith)
                    requires
                        before <= count_in + i * (1 + tries_below),
                        self.backtrack_count_spec_chirho() <= before + tries_below,
                ;
                if honest && self.backtrack_count_spec_chirho() + 1 < self.max_backtracks_spec_chirho() {
                    assert forall|c: int| 0 <= c < i + 1 implies #[trigger] blame_refutes_chirho(
                        *check_consistent_chirho,
                        names,
                        choices,
                        vals0.push(here[c]),
                        conflict_chirho@,
                    ) by {
                        if c < i {
                            assert(blame_refutes_chirho(*check_consistent_chirho, names, choices, vals0.push(here[c]), conflict_before));
                        }
                        assert(conflict_before.subset_of(conflict_chirho@));
                        if c < i {
                            lemma_refutes_more_chirho(*check_consistent_chirho, names, choices, vals0.push(here[c]), conflict_before, conflict_chirho@);
                        }
                    }
                }
            }
            self.backtrack_count_chirho = self.backtrack_count_chirho + 1;
            i = i + 1;
        }
        let ghost nogoods_end = self.nogoods_spec_chirho();
        let ghost vals = vals0;
        proof {
            if honest && self.backtrack_count_spec_chirho() < self.max_backtracks_spec_chirho() {
                assert forall|s: Seq<T>| full_values_chirho(choices, s) && agrees_on_chirho(s, vals, names, conflict_chirho@)
                    implies rejected_somewhere_chirho(*check_consistent_chirho, names, s) by {
                    let v = s[index_chirho as int];
                    assert(choices[index_chirho as int].contains(v));
                    let c = choose|c: int| 0 <= c < here.len() && here[c] == v;
                    assert(blame_refutes_chirho(*check_consistent_chirho, names, choices, vals.push(here[c]), conflict_chirho@));
                    let w = vals.push(here[c]);
                    assert forall|j: int| 0 <= j < w.len() && #[trigger] conflict_chirho@.contains(names[j]) implies s[j] == w[j] by {
                        if j < vals.len() {
                            assert(w[j] == vals[j]);
                        }
                    }
                    assert(agrees_on_chirho(s, w, names, conflict_chirho@));
                }
            }
        }
        if !conflict_chirho.is_empty_chirho() {
            let learned = Self::learned_nogood_chirho(ambs_chirho, chosen_chirho, &conflict_chirho);
            let ghost lg = learned@;
            self.nogoods_chirho.push(learned);
            proof {
                assert(self.nogoods_spec_chirho() =~= nogoods_end.push(lg));
                assert(self.nogoods_spec_chirho().take(nogoods_in.len() as int) =~= nogoods_end.take(nogoods_in.len() as int));
                if honest && self.backtrack_count_spec_chirho() < self.max_backtracks_spec_chirho() {
                    assert forall|s: Seq<T>| full_values_chirho(choices, s) && nogood_matches_chirho(choices, s, lg)
                        implies rejected_somewhere_chirho(*check_consistent_chirho, names, s) by {
                        assert forall|j: int| 0 <= j < vals.len() && #[trigger] conflict_chirho@.contains(names[j]) implies s[j] == vals[j] by {
                            let t = choose|t: int| 0 <= t < lg.len() && #[trigger] lg[t].0 == j;
                            assert(s[lg[t].0 as int] == choices[lg[t].0 as int][lg[t].1 as int]);
                            assert(prefix[j].1 == choices[j][chosen0[j] as int]);
                        }
                        assert(agrees_on_chirho(s, vals, names, conflict_chirho@));
                    }
                    assert forall|t: int| 0 <= t < lg.len() implies #[trigger] lg[t].0 < choices.len()
                        && lg[t].1 < choices[lg[t].0 as int].len() by {
                        assert(chosen0[lg[t].0 as int] < choices[lg[t].0 as int].len());
                    }
                    assert(nogood_sound_chirho(*check_consistent_chirho, names, choices, lg));
                    assert forall|g: int| 0 <= g < self.nogoods_spec_chirho().len() implies #[trigger] nogood_sound_chirho(
                        *check_consistent_chirho,
                        names,
                        choices,
                        self.nogoods_spec_chirho()[g],
                    ) by {
                        if g < nogoods_end.len() {
                            assert(self.nogoods_spec_chirho()[g] == nogoods_end[g]);
                        }
                    }
                }
            }
        }
        Err(conflict_chirho)
    }
}

/// A heuristic that picks which unassigned variable to assign next.
pub trait VariableOrderingChirho {
    /// Picks the next variable to assign, given each variable's domain size
    /// and whether it is assigned; `None` when there is none to pick.
    fn select_variable_chirho(&self, domain_sizes_chirho: &[usize], assigned_chirho: &[bool]) -> Option<usize>;
}

/// Whether variable `i` may be picked: it is among the first `n` (those with
/// both a size and an assigned flag), unassigned, and its domain is
/// non-empty and smaller than `usize::MAX`.
pub open spec fn first_fail_candidate_chirho(sizes: Seq<usize>, assigned: Seq<bool>, i: int) -> bool {
    &&& 0 <= i < sizes.len()
    &&& i < assigned.len()
    &&& !assigned[i]
    &&& 0 < sizes[i] < usize::MAX
}

/// First-fail heuristic: select the unassigned variable with the smallest
/// domain, the first one among equals.
pub struct FirstFailChirho {
    /// Whether to break ties randomly (reserved for future use).
    random_tiebreak_chirho: bool,
}

impl FirstFailChirho {
    /// Whether ties are to be broken randomly.
    pub closed spec fn random_tiebreak_spec_chirho(&self) -> bool {
        self.random_tiebreak_chirho
    }

    /// Creates a new first-fail heuristic.
    pub fn new_chirho() -> (r: Self)
        ensures
            !r.random_tiebreak_spec_chirho(),
    {
        FirstFailChirho { random_tiebreak_chirho: false }
    }

    /// Creates a first-fail heuristic with random tie-breaking.
    pub fn with_random_tiebreak_chirho() -> (r: Self)
        ensures
            r.random_tiebreak_spec_chirho(),
    {
        FirstFailChirho { random_tiebreak_chirho: true }
    }

    /// The first variable of smallest domain among those that may be picked.
    pub fn first_fail_chirho(domain_sizes_chirho: &[usize], assigned_chirho: &[bool]) -> (r: Option<usize>)
        ensures
            match r {
                None => forall|i: int| !first_fail_candidate_chirho(domain_sizes_chirho@, assigned_chirho@, i),
                Some(b) => {
                    &&& first_fail_candidate_chirho(domain_sizes_chirho@, assigned_chirho@, b as int)
                    &&& forall|i: int| #[trigger] first_fail_candidate_chirho(domain_sizes_chirho@, assigned_chirho@, i)
                        ==> domain_sizes_chirho@[b as int] <= domain_sizes_chirho@[i]
                    &&& forall|i: int| 0 <= i < b && #[trigger] first_fail_candidate_chirho(domain_sizes_chirho@, assigned_chirho@, i)
                        ==> domain_sizes_chirho@[b as int] < domain_sizes_chirho@[i]
                },
            },
    {
        let mut best_idx_chirho: Option<usize> = None;
        let mut best_size_chirho: usize = usize::MAX;
        let n = if domain_sizes_chirho.len() < assigned_chirho.len() { domain_sizes_chirho.len() } else { assigned_chirho.len() };
        let mut idx_chirho: usize = 0;
        while idx_chirho < n
            invariant
                0 <= idx_chirho <= n,
                n <= domain_sizes_chirho@.len(),
                n <= assigned_chirho@.len(),
                n == domain_sizes_chirho@.len() || n == assigned_chirho@.len(),
                match best_idx_chirho {
                    None => best_size_chirho == usize::MAX
                        && forall|i: int| 0 <= i < idx_chirho ==> !first_fail_candidate_chirho(domain_sizes_chirho@, assigned_chirho@, i),
                    Some(b) => {
                        &&& b < idx_chirho
                        &&& best_size_chirho == domain_sizes_chirho@[b as int]
                        &&& first_fail_candidate_chirho(domain_sizes_chirho@, assigned_chirho@, b as int)
                        &&& forall|i: int| 0 <= i < idx_chirho && #[trigger] first_fail_candidate_chirho(domain_sizes_chirho@, assigned_chirho@, i)
                            ==> domain_sizes_chirho@[b as int] <= domain_sizes_chirho@[i]
                        &&& forall|i: int| 0 <= i < b && #[trigger] first_fail_candidate_chirho(domain_sizes_chirho@, assigned_chirho@, i)
                            ==> domain_sizes_chirho@[b as int] < domain_sizes_chirho@[i]
                    },
                },
            decreases n - idx_chirho,
        {
            let size_chirho = domain_sizes_chirho[idx_chirho];
            let is_assigned_chirho = assigned_chirho[idx_chirho];
            if !is_assigned_chirho && size_chirho > 0 && size_chirho < best_size_chirho {
                best_size_chirho = size_chirho;
                best_idx_chirho = Some(idx_chirho);
            }
            idx_chirho = idx_chirho + 1;
        }
        best_idx_chirho
    }
}

impl VariableOrderingChirho for FirstFailChirho {
    fn select_variable_chirho(&self, domain_sizes_chirho: &[usize], assigned_chirho: &[bool]) -> (r: Option<usize>)
        ensures
            match r {
                None => forall|i: int| !first_fail_candidate_chirho(domain_sizes_chirho@, assigned_chirho@, i),
                Some(b) => {
                    &&& first_fail_candidate_chirho(domain_sizes_chirho@, assigned_chirho@, b as int)
                    &&& forall|i: int| #[trigger] first_fail_candidate_chirho(domain_sizes_chirho@, assigned_chirho@, i)
                        ==> domain_sizes_chirho@[b as int] <= domain_sizes_chirho@[i]
                    &&& forall|i: int| 0 <= i < b && #[trigger] first_fail_candidate_chirho(domain_sizes_chirho@, assigned_chirho@, i)
                        ==> domain_sizes_chirho@[b as int] < domain_sizes_chirho@[i]
                },
            },
    {
        Self::first_fail_chirho(domain_sizes_chirho, assigned_chirho)
    }
}

/// The sum of the weights of the constraints that involve variable `v`,
/// over the first `n` constraints.
pub open spec fn weighted_degree_spec_chirho(weights: Seq<u64>, vars: Seq<Seq<usize>>, v: usize, n: int) -> nat
    decreases n,
{
    if n <= 0 {
        0
    } else {
        weighted_degree_spec_chirho(weights, vars, v, n - 1) + if vars[n - 1].contains(v) {
            weights[n - 1] as nat
        } else {
            0nat
        }
    }
}

/// A sum, capped at the largest `u64`.
pub open spec fn capped_chirho(x: nat) -> u64 {
    if x <= u64::MAX {
        x as u64
    } else {
        u64::MAX
    }
}

/// Whether variable `i` may be picked by dom/wdeg: among the first
/// `num_vars`, with a size and an assigned flag, unassigned, and with a
/// non-empty domain.
pub open spec fn dom_wdeg_candidate_chirho(num_vars: usize, sizes: Seq<usize>, assigned: Seq<bool>, i: int) -> bool {
    &&& 0 <= i < num_vars
    &&& i < sizes.len()
    &&& i < assigned.len()
    &&& !assigned[i]
    &&& sizes[i] > 0
}

/// Domain over weighted degree (dom/wdeg) heuristic: the weight of a
/// constraint starts at 1 and grows by one each time it fails, and the
/// variable picked is the one whose domain size divided by its weighted
/// degree (the sum of the weights of its constraints, or 1 when that is 0)
/// is smallest, the first one among equals.
pub struct DomWdegChirho {
    /// Weight for each constraint, indexed by constraint ID.
    constraint_weights_chirho: Vec<u64>,
    /// For each constraint, the variables it involves.
    constraint_variables_chirho: Vec<Vec<usize>>,
    /// Number of variables.
    num_vars_chirho: usize,
}

impl DomWdegChirho {
    /// The weights of the constraints.
    pub closed spec fn weights_spec_chirho(&self) -> Seq<u64> {
        self.constraint_weights_chirho@
    }

    /// The variables of each constraint.
    pub closed spec fn variables_spec_chirho(&self) -> Seq<Seq<usize>> {
        self.constraint_variables_chirho@.map_values(|v: Vec<usize>| v@)
    }

    /// The number of variables.
    pub closed spec fn num_vars_spec_chirho(&self) -> usize {
        self.num_vars_chirho
    }

    /// There is one weight per constraint.
    pub open spec fn wf_chirho(&self) -> bool {
        self.weights_spec_chirho().len() == self.variables_spec_chirho().len()
    }

    /// The weighted degree of a variable, capped at the largest `u64`.
    pub open spec fn wdeg_spec_chirho(&self, v: usize) -> u64 {
        capped_chirho(weighted_degree_spec_chirho(self.weights_spec_chirho(), self.variables_spec_chirho(), v, self.weights_spec_chirho().len() as int))
    }

    /// Creates the heuristic for `num_vars` variables and the constraints
    /// given by the variables each involves, all weights 1.
    pub fn new_chirho(num_vars_chirho: usize, constraint_variables_chirho: Vec<Vec<usize>>) -> (r: Self)
        ensures
            r.wf_chirho(),
            r.num_vars_spec_chirho() == num_vars_chirho,
            r.variables_spec_chirho() == constraint_variables_chirho@.map_values(|v: Vec<usize>| v@),
            forall|c: int| 0 <= c < r.weights_spec_chirho().len() ==> #[trigger] r.weights_spec_chirho()[c] == 1,
    {
        let mut weights_chirho: Vec<u64> = Vec::new();
        let mut i: usize = 0;
        while i < constraint_variables_chirho.len()
            invariant
                0 <= i <= constraint_variables_chirho@.len(),
                weights_chirho@.len() == i,
                forall|c: int| 0 <= c < i ==> #[trigger] weights_chirho@[c] == 1,
            decreases constraint_variables_chirho@.len() - i,
        {
            weights_chirho.push(1);
            i = i + 1;
        }
        DomWdegChirho { constraint_weights_chirho: weights_chirho, constraint_variables_chirho, num_vars_chirho }
    }

    /// Increments the weight of a constraint after it fails (staying at the
    /// largest `u64` once there); an unknown constraint is ignored.
    pub fn record_failure_chirho(&mut self, constraint_id_chirho: usize)
        ensures
            final(self).weights_spec_chirho() == (if constraint_id_chirho < old(self).weights_spec_chirho().len() {
                old(self).weights_spec_chirho().update(
                    constraint_id_chirho as int,
                    capped_chirho((old(self).weights_spec_chirho()[constraint_id_chirho as int] + 1) as nat),
                )
            } else {
                old(self).weights_spec_chirho()
            }),
            final(self).variables_spec_chirho() == old(self).variables_spec_chirho(),
            final(self).num_vars_spec_chirho() == old(self).num_vars_spec_chirho(),
    {
        if constraint_id_chirho < self.constraint_weights_chirho.len() {
            let w = self.constraint_weights_chirho[constraint_id_chirho];
            self.constraint_weights_chirho.set(constraint_id_chirho, w.saturating_add(1));
        }
    }

    /// Returns the weighted degree of a variable: the sum of the weights of
    /// the constraints that involve it, capped at the largest `u64`.
    pub fn weighted_degree_chirho(&self, var_idx_chirho: usize) -> (r: u64)
        requires
            self.wf_chirho(),
        ensures
            r == self.wdeg_spec_chirho(var_idx_chirho),
    {
        let ghost weights = self.weights_spec_chirho();
        let ghost vars = self.variables_spec_chirho();
        let mut wdeg_chirho: u64 = 0;
        let mut cid: usize = 0;
        while cid < self.constraint_variables_chirho.len()
            invariant
                0 <= cid <= self.constraint_variables_chirho@.len(),
                weights == self.weights_spec_chirho(),
                vars == self.variables_spec_chirho(),
                weights.len() == vars.len() == self.constraint_variables_chirho@.len(),
                wdeg_chirho == capped_chirho(weighted_degree_spec_chirho(weights, vars, var_idx_chirho, cid as int)),
            decreases self.constraint_variables_chirho@.len() - cid,
        {
            let involved = vec_contains_usize_chirho(&self.constraint_variables_chirho[cid], var_idx_chirho);
            assert(vars[cid as int] == self.constraint_variables_chirho@[cid as int]@);
            if involved {
                wdeg_chirho = wdeg_chirho.saturating_add(self.constraint_weights_chirho[cid]);
            }
            cid = cid + 1;
        }
        wdeg_chirho
    }

    /// Resets all constraint weights to 1.
    pub fn reset_weights_chirho(&mut self)
        ensures
            final(self).weights_spec_chirho().len() == old(self).weights_spec_chirho().len(),
            forall|c: int| 0 <= c < final(self).weights_spec_chirho().len() ==> #[trigger] final(self).weights_spec_chirho()[c] == 1,
            final(self).variables_spec_chirho() == old(self).variables_spec_chirho(),
            final(self).num_vars_spec_chirho() == old(self).num_vars_spec_chirho(),
    {
        let mut i: usize = 0;
        while i < self.constraint_weights_chirho.len()
            invariant
                0 <= i <= self.constraint_weights_chirho@.len(),
                self.constraint_weights_chirho@.len() == old(self).weights_spec_chirho().len(),
                forall|c: int| 0 <= c < i ==> #[trigger] self.constraint_weights_chirho@[c] == 1,
                self.variables_spec_chirho() == old(self).variables_spec_chirho(),
                self.num_vars_spec_chirho() == old(self).num_vars_spec_chirho(),
            decreases self.constraint_weights_chirho@.len() - i,
        {
            self.constraint_weights_chirho.set(i, 1);
            i = i + 1;
        }
    }

    /// Picks the variable of least domain size over weighted degree (a
    /// weighted degree of 0 counting as 1), the first one among equals.
    pub fn dom_wdeg_select_chirho(&self, domain_sizes_chirho: &[usize], assigned_chirho: &[bool]) -> (r: Option<usize>)
        requires
            self.wf_chirho(),
        ensures
            match r {
                None => forall|i: int| !dom_wdeg_candidate_chirho(self.num_vars_spec_chirho(), domain_sizes_chirho@, assigned_chirho@, i),
                Some(b) => {
                    &&& dom_wdeg_candidate_chirho(self.num_vars_spec_chirho(), domain_sizes_chirho@, assigned_chirho@, b as int)
                    &&& forall|i: int| #[trigger] dom_wdeg_candidate_chirho(self.num_vars_spec_chirho(), domain_sizes_chirho@, assigned_chirho@, i)
                        ==> domain_sizes_chirho@[b as int] * self.safe_wdeg_spec_chirho(i as usize) <= domain_sizes_chirho@[i] * self.safe_wdeg_spec_chirho(b)
                    &&& forall|i: int| 0 <= i < b && #[trigger] dom_wdeg_candidate_chirho(self.num_vars_spec_chirho(), domain_sizes_chirho@, assigned_chirho@, i)
                        ==> domain_sizes_chirho@[b as int] * self.safe_wdeg_spec_chirho(i as usize) < domain_sizes_chirho@[i] * self.safe_wdeg_spec_chirho(b)
                },
            },
    {
        let mut best_idx_chirho: Option<usize> = None;
        let mut best_size_chirho: u128 = 0;
        let mut best_wdeg_chirho: u128 = 1;
        let mut idx_chirho: usize = 0;
        while idx_chirho < self.num_vars_chirho
            invariant
                0 <= idx_chirho <= self.num_vars_chirho,
                self.wf_chirho(),
                1 <= best_wdeg_chirho <= u64::MAX,
                best_size_chirho <= u64::MAX,
                match best_idx_chirho {
                    None => forall|i: int| 0 <= i < idx_chirho ==> !dom_wdeg_candidate_chirho(self.num_vars_spec_chirho(), domain_sizes_chirho@, assigned_chirho@, i),
                    Some(b) => {
                        &&& b < idx_chirho
                        &&& best_size_chirho == domain_sizes_chirho@[b as int]
                        &&& best_wdeg_chirho == self.safe_wdeg_spec_chirho(b)
                        &&& dom_wdeg_candidate_chirho(self.num_vars_spec_chirho(), domain_sizes_chirho@, assigned_chirho@, b as int)
                        &&& forall|i: int| 0 <= i < idx_chirho && #[trigger] dom_wdeg_candidate_chirho(self.num_vars_spec_chirho(), domain_sizes_chirho@, assigned_chirho@, i)
                            ==> domain_sizes_chirho@[b as int] * self.safe_wdeg_spec_chirho(i as usize) <= domain_sizes_chirho@[i] * self.safe_wdeg_spec_chirho(b)
                        &&& forall|i: int| 0 <= i < b && #[trigger] dom_wdeg_candidate_chirho(self.num_vars_spec_chirho(), domain_sizes_chirho@, assigned_chirho@, i)
                            ==> domain_sizes_chirho@[b as int] * self.safe_wdeg_spec_chirho(i as usize) < domain_sizes_chirho@[i] * self.safe_wdeg_spec_chirho(b)
                    },
                },
            decreases self.num_vars_chirho - idx_chirho,
        {
            let candidate_chirho = idx_chirho < domain_sizes_chirho.len() && idx_chirho < assigned_chirho.len()
                && !assigned_chirho[idx_chirho] && domain_sizes_chirho[idx_chirho] > 0;
            assert(candidate_chirho == dom_wdeg_candidate_chirho(self.num_vars_spec_chirho(), domain_sizes_chirho@, assigned_chirho@, idx_chirho as int));
            if candidate_chirho {
                let wdeg_chirho = self.weighted_degree_chirho(idx_chirho);
                let safe_chirho: u128 = if wdeg_chirho == 0 { 1 } else { wdeg_chirho as u128 };
                let size_chirho: u128 = domain_sizes_chirho[idx_chirho] as u128;
                assert(size_chirho * best_wdeg_chirho <= u64::MAX * u64::MAX) by (nonlinear_arith)
                    requires
                        size_chirho <= u64::MAX,
                        best_wdeg_chirho <= u64::MAX,
                ;
                assert(best_size_chirho * safe_chirho <= u64::MAX * u64::MAX) by (nonlinear_arith)
                    requires
                        best_size_chirho <= u64::MAX,
                        safe_chirho <= u64::MAX,
                ;
                let better_chirho = match best_idx_chirho {
                    None => true,
                    Some(_) => size_chirho * best_wdeg_chirho < best_size_chirho * safe_chirho,
                };
                proof {
                    if better_chirho {
                        if let Some(b) = best_idx_chirho {
                            assert forall|i: int|
                                0 <= i < idx_chirho && #[trigger] dom_wdeg_candidate_chirho(
                                    self.num_vars_spec_chirho(),
                                    domain_sizes_chirho@,
                                    assigned_chirho@,
                                    i,
                                ) implies size_chirho * self.safe_wdeg_spec_chirho(i as usize) < domain_sizes_chirho@[i] * safe_chirho by {
                                lemma_ratio_order_chirho(
                                    size_chirho as int,
                                    safe_chirho as int,
                                    best_size_chirho as int,
                                    best_wdeg_chirho as int,
                                    domain_sizes_chirho@[i] as int,
                                    self.safe_wdeg_spec_chirho(i as usize),
                                );
                            }
                        }
                    }
                }
                if better_chirho {
                    best_idx_chirho = Some(idx_chirho);
                    best_size_chirho = size_chirho;
                    best_wdeg_chirho = safe_chirho;
                }
            }
            idx_chirho = idx_chirho + 1;
        }
        best_idx_chirho
    }

    /// Whether `r` is the pick of dom/wdeg: `None` when no variable may be
    /// picked, else a variable that may be, of least domain size over
    /// weighted degree, the first one among equals.
    pub open spec fn dom_wdeg_pick_chirho(&self, sizes: Seq<usize>, assigned: Seq<bool>, r: Option<usize>) -> bool {
        match r {
            None => forall|i: int| !dom_wdeg_candidate_chirho(self.num_vars_spec_chirho(), sizes, assigned, i),
            Some(b) => {
                &&& dom_wdeg_candidate_chirho(self.num_vars_spec_chirho(), sizes, assigned, b as int)
                &&& forall|i: int| #[trigger] dom_wdeg_candidate_chirho(self.num_vars_spec_chirho(), sizes, assigned, i)
                    ==> sizes[b as int] * self.safe_wdeg_spec_chirho(i as usize) <= sizes[i] * self.safe_wdeg_spec_chirho(b)
                &&& forall|i: int| 0 <= i < b && #[trigger] dom_wdeg_candidate_chirho(self.num_vars_spec_chirho(), sizes, assigned, i)
                    ==> sizes[b as int] * self.safe_wdeg_spec_chirho(i as usize) < sizes[i] * self.safe_wdeg_spec_chirho(b)
            },
        }
    }

    /// The weighted degree of a variable, 1 when it is 0.
    pub open spec fn safe_wdeg_spec_chirho(&self, v: usize) -> int {
        if self.wdeg_spec_chirho(v) == 0 {
            1
        } else {
            self.wdeg_spec_chirho(v) as int
        }
    }
}

impl VariableOrderingChirho for DomWdegChirho {
    /// Picks as [`DomWdegChirho::dom_wdeg_select_chirho`] does; when there
    /// are fewer weights than constraints, picks nothing.
    fn select_variable_chirho(&self, domain_sizes_chirho: &[usize], assigned_chirho: &[bool]) -> (r: Option<usize>)
        ensures
            !self.wf_chirho() ==> r is None,
            self.wf_chirho() ==> self.dom_wdeg_pick_chirho(domain_sizes_chirho@, assigned_chirho@, r),
    {
        if self.constraint_weights_chirho.len() != self.constraint_variables_chirho.len() {
            return None;
        }
        self.dom_wdeg_select_chirho(domain_sizes_chirho, assigned_chirho)
    }
}

/// Ratios with positive denominators order transitively: if
/// `s1 / w1 < s2 / w2 <= s3 / w3` then `s1 / w1 < s3 / w3`.
proof fn lemma_ratio_order_chirho(s1: int, w1: int, s2: int, w2: int, s3: int, w3: int)
    requires
        w1 > 0,
        w2 > 0,
        w3 > 0,
        s1 * w2 < s2 * w1,
        s2 * w3 <= s3 * w2,
    ensures
        s1 * w3 < s3 * w1,
{
    assert(s1 * w2 * w3 < s2 * w1 * w3) by (nonlinear_arith)
        requires
            s1 * w2 < s2 * w1,
            w3 > 0,
    ;
    assert(s2 * w3 * w1 <= s3 * w2 * w1) by (nonlinear_arith)
        requires
            s2 * w3 <= s3 * w2,
            w1 > 0,
    ;
    assert(s1 * w3 * w2 < s3 * w1 * w2) by (nonlinear_arith)
        requires
            s1 * w2 * w3 < s2 * w1 * w3,
            s2 * w3 * w1 <= s3 * w2 * w1,
    ;
    assert(s1 * w3 < s3 * w1) by (nonlinear_arith)
        requires
            s1 * w3 * w2 < s3 * w1 * w2,
            w2 > 0,
    ;
}

/// Whether the vector holds the value.
fn vec_contains_usize_chirho(v: &Vec<usize>, x: usize) -> (r: bool)
    ensures
        r == v@.contains(x),
{
    let mut i: usize = 0;
    while i < v.len()
        invariant
            0 <= i <= v@.len(),
            forall|j: int| 0 <= j < i ==> v@[j] != x,
        decreases v@.len() - i,
    {
        if v[i] == x {
            assert(v@[i as int] == x);
            return true;
        }
        i = i + 1;
    }
    false
}

/// Minimum value first ordering.
pub struct MinValueChirho;

impl MinValueChirho {
    /// Creates a new min-value ordering.
    pub fn new_chirho() -> (r: Self) {
        MinValueChirho
    }
}

/// Maximum value first ordering.
pub struct MaxValueChirho;

impl MaxValueChirho {
    /// Creates a new max-value ordering.
    pub fn new_chirho() -> (r: Self) {
        MaxValueChirho
    }
}

/// Middle-out value ordering.
pub struct MiddleOutChirho;

impl MiddleOutChirho {
    /// Creates a new middle-out ordering.
    pub fn new_chirho() -> (r: Self) {
        MiddleOutChirho
    }
}

/// The largest power of two that is at most `n` (1 for `n` below 2).
pub open spec fn top_pow2_chirho(n: nat) -> nat
    decreases n,
{
    if n < 2 { 1 } else { 2 * top_pow2_chirho(n / 2) }
}

/// Bounds on the largest power of two below a number.
pub proof fn lemma_top_pow2_chirho(n: nat)
    ensures
        top_pow2_chirho(n) >= 1,
        n >= 1 ==> top_pow2_chirho(n) <= n,
        n >= 1 ==> n < 2 * top_pow2_chirho(n),
        n >= 2 ==> top_pow2_chirho(n) >= 2,
        n >= 2 ==> top_pow2_chirho(n) % 2 == 0,
    decreases n,
{
    if n >= 2 {
        lemma_top_pow2_chirho(n / 2);
    }
}

/// The Luby sequence, from index 1: 1, 1, 2, 1, 1, 2, 4, 1, 1, 2, 1, 1, 2,
/// 4, 8, ... (index 0 also gives 1).
///
/// With `p` the largest power of two at most `i + 1`: when `i + 1 == p` the
/// value is `p / 2`, else it is the value at `i - p + 1`.
pub open spec fn luby_spec_chirho(i: nat) -> nat
    decreases i,
{
    if i == 0 {
        1
    } else {
        let p = top_pow2_chirho(i + 1);
        if i + 1 == p {
            p / 2
        } else {
            proof {
                lemma_top_pow2_chirho(i + 1);
            }
            luby_spec_chirho((i - p + 1) as nat)
        }
    }
}

/// The largest power of two that is at most `n`.
fn top_pow2_exec_chirho(n: usize) -> (r: usize)
    ensures
        r == top_pow2_chirho(n as nat),
    decreases n,
{
    proof {
        lemma_top_pow2_chirho(n as nat);
        lemma_top_pow2_chirho((n / 2) as nat);
    }
    if n < 2 {
        1
    } else {
        2 * top_pow2_exec_chirho(n / 2)
    }
}

/// Search with restarts after a Luby sequence of backtrack counts, keeping
/// the nogoods learned across restarts.
pub struct RestartSearchChirho {
    /// Base number of backtracks before the first restart.
    base_cutoff_chirho: usize,
    /// Current position in the Luby sequence.
    luby_index_chirho: usize,
    /// Total restarts performed.
    restart_count_chirho: usize,
    /// Nogoods learned across restarts.
    learned_nogoods_chirho: Vec<HashSet<String>>,
}

impl RestartSearchChirho {
    /// The base cutoff.
    pub closed spec fn base_cutoff_spec_chirho(&self) -> usize {
        self.base_cutoff_chirho
    }

    /// The current position in the Luby sequence.
    pub closed spec fn luby_index_spec_chirho(&self) -> usize {
        self.luby_index_chirho
    }

    /// The number of restarts so far.
    pub closed spec fn restart_count_spec_chirho(&self) -> usize {
        self.restart_count_chirho
    }

    /// The nogoods learned so far.
    pub closed spec fn nogoods_spec_chirho(&self) -> Seq<HashSet<String>> {
        self.learned_nogoods_chirho@
    }

    /// The value of the Luby sequence at index `i`.
    pub fn luby_chirho(i_chirho: usize) -> (r: usize)
        requires
            i_chirho < usize::MAX,
        ensures
            r == luby_spec_chirho(i_chirho as nat),
        decreases i_chirho,
    {
        if i_chirho == 0 {
            return 1;
        }
        let power_chirho = top_pow2_exec_chirho(i_chirho + 1);
        proof {
            lemma_top_pow2_chirho((i_chirho + 1) as nat);
        }
        if i_chirho + 1 == power_chirho {
            power_chirho / 2
        } else {
            Self::luby_chirho(i_chirho - power_chirho + 1)
        }
    }

    /// Creates a restart search with the given base cutoff.
    pub fn new_chirho(base_cutoff_chirho: usize) -> (r: Self)
        ensures
            r.base_cutoff_spec_chirho() == base_cutoff_chirho,
            r.luby_index_spec_chirho() == 1,
            r.restart_count_spec_chirho() == 0,
            r.nogoods_spec_chirho().len() == 0,
    {
        RestartSearchChirho { base_cutoff_chirho, luby_index_chirho: 1, restart_count_chirho: 0, learned_nogoods_chirho: Vec::new() }
    }

    /// Returns the current backtrack cutoff: the base cutoff times the Luby
    /// value at the current index.
    pub fn current_cutoff_chirho(&self) -> (r: usize)
        requires
            self.luby_index_spec_chirho() < usize::MAX,
            self.base_cutoff_spec_chirho() * luby_spec_chirho(self.luby_index_spec_chirho() as nat) <= usize::MAX,
        ensures
            r == self.base_cutoff_spec_chirho() * luby_spec_chirho(self.luby_index_spec_chirho() as nat),
    {
        self.base_cutoff_chirho * Self::luby_chirho(self.luby_index_chirho)
    }

    /// Returns the number of restarts performed.
    pub fn restart_count_chirho(&self) -> (r: usize)
        ensures
            r == self.restart_count_spec_chirho(),
    {
        self.restart_count_chirho
    }

    /// Triggers a restart, advancing the Luby sequence.
    pub fn restart_chirho(&mut self)
        requires
            old(self).luby_index_spec_chirho() < usize::MAX,
            old(self).restart_count_spec_chirho() < usize::MAX,
        ensures
            final(self).luby_index_spec_chirho() == old(self).luby_index_spec_chirho() + 1,
            final(self).restart_count_spec_chirho() == old(self).restart_count_spec_chirho() + 1,
            final(self).base_cutoff_spec_chirho() == old(self).base_cutoff_spec_chirho(),
            final(self).nogoods_spec_chirho() == old(self).nogoods_spec_chirho(),
    {
        self.luby_index_chirho = self.luby_index_chirho + 1;
        self.restart_count_chirho = self.restart_count_chirho + 1;
    }

    /// Records a nogood learned during search.
    pub fn add_nogood_chirho(&mut self, nogood_chirho: HashSet<String>)
        ensures
            final(self).nogoods_spec_chirho() == old(self).nogoods_spec_chirho().push(nogood_chirho),
            final(self).luby_index_spec_chirho() == old(self).luby_index_spec_chirho(),
            final(self).restart_count_spec_chirho() == old(self).restart_count_spec_chirho(),
            final(self).base_cutoff_spec_chirho() == old(self).base_cutoff_spec_chirho(),
    {
        self.learned_nogoods_chirho.push(nogood_chirho);
    }

    /// Returns (clones of) the learned nogoods, in the order learned.
    pub fn nogoods_chirho(&self) -> (r: Vec<HashSet<String>>)
        ensures
            r@.len() == self.nogoods_spec_chirho().len(),
            forall|i: int| 0 <= i < r@.len() ==> cloned::<HashSet<String>>(self.nogoods_spec_chirho()[i], #[trigger] r@[i]),
    {
        self.learned_nogoods_chirho.clone()
    }

    /// Resets the restart search state: back to the start of the Luby
    /// sequence, no restarts and no nogoods.
    pub fn reset_chirho(&mut self)
        ensures
            final(self).luby_index_spec_chirho() == 1,
            final(self).restart_count_spec_chirho() == 0,
            final(self).nogoods_spec_chirho().len() == 0,
            final(self).base_cutoff_spec_chirho() == old(self).base_cutoff_spec_chirho(),
    {
        self.luby_index_chirho = 1;
        self.restart_count_chirho = 0;
        self.learned_nogoods_chirho = Vec::new();
    }
}

impl Default for RestartSearchChirho {
    fn default() -> (r: Self)
        ensures
            r.base_cutoff_spec_chirho() == 100,
            r.luby_index_spec_chirho() == 1,
            r.restart_count_spec_chirho() == 0,
            r.nogoods_spec_chirho().len() == 0,
    {
        Self::new_chirho(100)
    }
}

/// Search statistics for analysis.
pub struct SearchStatsChirho {
    /// Number of nodes explored.
    pub nodes_chirho: usize,
    /// Number of backtracks.
    pub backtracks_chirho: usize,
    /// Number of restarts.
    pub restarts_chirho: usize,
    /// Number of nogoods learned.
    pub nogoods_learned_chirho: usize,
    /// Number of propagations.
    pub propagations_chirho: usize,
}

/// All-zero search statistics.
pub open spec fn zero_search_stats_chirho() -> SearchStatsChirho {
    SearchStatsChirho { nodes_chirho: 0, backtracks_chirho: 0, restarts_chirho: 0, nogoods_learned_chirho: 0, propagations_chirho: 0 }
}

impl Default for SearchStatsChirho {
    fn default() -> (r: Self)
        ensures
            r == zero_search_stats_chirho(),
    {
        SearchStatsChirho { nodes_chirho: 0, backtracks_chirho: 0, restarts_chirho: 0, nogoods_learned_chirho: 0, propagations_chirho: 0 }
    }
}

impl Clone for SearchStatsChirho {
    fn clone(&self) -> (r: Self)
        ensures
            r == *self,
    {
        SearchStatsChirho {
            nodes_chirho: self.nodes_chirho,
            backtracks_chirho: self.backtracks_chirho,
            restarts_chirho: self.restarts_chirho,
            nogoods_learned_chirho: self.nogoods_learned_chirho,
            propagations_chirho: self.propagations_chirho,
        }
    }
}

impl SearchStatsChirho {
    /// Creates empty search statistics.
    pub fn new_chirho() -> (r: Self)
        ensures
            r == zero_search_stats_chirho(),
    {
        Self::default()
    }

    /// Resets all statistics.
    pub fn reset_chirho(&mut self)
        ensures
            *final(self) == zero_search_stats_chirho(),
    {
        self.nodes_chirho = 0;
        self.backtracks_chirho = 0;
        self.restarts_chirho = 0;
        self.nogoods_learned_chirho = 0;
        self.propagations_chirho = 0;
    }
}

} // verus!
