//! Generic cells that hold any lattice type, and a network of them.

use std::collections::VecDeque;
use std::collections::hash_map::RandomState;
use std::hash::BuildHasher;
use std::marker::PhantomData;
use vstd::prelude::*;

use crate::lattice_chirho::{
    all_grow_chirho, lemma_grows_refl_chirho, lemma_grows_step_chirho, lemma_grows_trans_chirho, views_chirho,
    BoundedLatticeChirho, LatticeChirho, PropagatorFnChirho,
};
use crate::text_chirho::{decimal_chirho, push_decimal_chirho, push_str_chirho};

verus! {

/// Something told of each new content of a cell.
pub trait WatcherChirho<L> {
    /// Called with the cell's new content.
    fn notify_chirho(&self, value_chirho: &L);
}

/// A watcher made of a closure.
#[verifier::reject_recursive_types(L)]
pub struct FnWatcherChirho<L, F: Fn(&L)> {
    callback_chirho: F,
    marker_chirho: PhantomData<L>,
}

impl<L, F: Fn(&L)> FnWatcherChirho<L, F> {
    #[verifier::type_invariant]
    spec fn callable_chirho(self) -> bool {
        forall|v: &L| call_requires(self.callback_chirho, (v,))
    }
}

impl<L, F: Fn(&L)> WatcherChirho<L> for FnWatcherChirho<L, F> {
    fn notify_chirho(&self, value_chirho: &L) {
        proof { use_type_invariant(self); }
        (self.callback_chirho)(value_chirho);
    }
}

/// A new hasher seed, from `RandomState::new`. The standard library gives
/// each one a different key; nothing is promised of it.
#[verifier::external_body]
fn new_random_state_chirho() -> RandomState {
    RandomState::new()
}

/// The hash of `x` under the seed `s`, from `BuildHasher::hash_one`. It
/// depends on the key of `s`, which is random: nothing is stated of it.
#[verifier::external_body]
fn hash_one_chirho(s: &RandomState, x: u8) -> u64 {
    s.hash_one(x)
}

/// A fresh identifier for a cell: a constant hashed under a new seed, so two
/// cells share an identifier only by chance.
fn fresh_cell_id_chirho() -> usize {
    let state_chirho = new_random_state_chirho();
    let h_chirho = hash_one_chirho(&state_chirho, 0u8);
    #[verifier::truncate]
    (h_chirho as usize)
}

/// A generic cell that can hold any lattice type.
#[verifier::reject_recursive_types(L)]
pub struct GenericCellChirho<L: BoundedLatticeChirho> {
    id_chirho: usize,
    name_chirho: String,
    content_chirho: L,
    /// Told of each change of the content.
    watchers_chirho: Vec<BoxedWatcherChirho<L>>,
    /// Each notification made, in order: the watcher's position and the
    /// content it was given.
    notified_chirho: Ghost<Seq<(int, L::V)>>,
}

/// One notification of each of `count` watchers, in order, with `v`.
pub open spec fn notifications_chirho<V>(count: nat, v: V) -> Seq<(int, V)> {
    Seq::new(count, |w: int| (w, v))
}

/// A watcher of any kind.
#[verifier::reject_recursive_types(L)]
struct BoxedWatcherChirho<L> {
    watcher_chirho: Box<dyn WatcherChirho<L>>,
}

/// Boxes a watcher.
fn boxed_watcher_chirho<L, W: WatcherChirho<L> + 'static>(w: W) -> (r: BoxedWatcherChirho<L>) {
    BoxedWatcherChirho { watcher_chirho: Box::new(w) }
}

/// The name a cell gets from its identifier: `cell_` and the identifier.
pub open spec fn default_cell_name_chirho(id: usize) -> Seq<char> {
    seq!['c', 'e', 'l', 'l', '_'] + decimal_chirho(id as nat)
}

impl<L: BoundedLatticeChirho + 'static> GenericCellChirho<L> {
    /// The cell's identifier.
    pub closed spec fn id_spec_chirho(&self) -> usize {
        self.id_chirho
    }

    /// The cell's name.
    pub closed spec fn name_spec_chirho(&self) -> Seq<char> {
        self.name_chirho@
    }

    /// The model of the cell's content.
    pub closed spec fn content_spec_chirho(&self) -> L::V {
        self.content_chirho@
    }

    /// The number of watchers.
    pub closed spec fn watcher_count_spec_chirho(&self) -> nat {
        self.watchers_chirho@.len()
    }

    /// The notifications made so far, in order: each the position of the
    /// watcher told and the content it was given.
    pub closed spec fn notified_spec_chirho(&self) -> Seq<(int, L::V)> {
        self.notified_chirho@
    }

    /// Creates a new cell with an initial value, named `cell_` and its identifier.
    pub fn new_chirho(initial_chirho: L) -> (r: Self)
        ensures
            r.content_spec_chirho() == initial_chirho@,
            r.name_spec_chirho() == default_cell_name_chirho(r.id_spec_chirho()),
            r.watcher_count_spec_chirho() == 0,
            r.notified_spec_chirho().len() == 0,
    {
        let id_chirho = fresh_cell_id_chirho();
        let mut name_chirho = String::new();
        push_str_chirho(&mut name_chirho, "cell_");
        push_decimal_chirho(&mut name_chirho, id_chirho as u64);
        proof {
            reveal_strlit("cell_");
            assert(name_chirho@ =~= default_cell_name_chirho(id_chirho));
        }
        GenericCellChirho {
            id_chirho,
            name_chirho,
            content_chirho: initial_chirho,
            watchers_chirho: Vec::new(),
            notified_chirho: Ghost(Seq::empty()),
        }
    }

    /// Creates a new cell with a name and initial value.
    pub fn with_name_chirho(name_chirho: &str, initial_chirho: L) -> (r: Self)
        ensures
            r.content_spec_chirho() == initial_chirho@,
            r.name_spec_chirho() == name_chirho@,
            r.watcher_count_spec_chirho() == 0,
            r.notified_spec_chirho().len() == 0,
    {
        let id_chirho = fresh_cell_id_chirho();
        let mut name = String::new();
        push_str_chirho(&mut name, name_chirho);
        assert(name@ =~= name_chirho@);
        GenericCellChirho {
            id_chirho,
            name_chirho: name,
            content_chirho: initial_chirho,
            watchers_chirho: Vec::new(),
            notified_chirho: Ghost(Seq::empty()),
        }
    }

    /// Creates a new cell at bottom (no information).
    pub fn bottom_chirho() -> (r: Self)
        ensures
            r.content_spec_chirho() == L::spec_bottom_chirho(),
            r.name_spec_chirho() == default_cell_name_chirho(r.id_spec_chirho()),
            r.watcher_count_spec_chirho() == 0,
    {
        Self::new_chirho(L::bottom_chirho())
    }

    /// Creates a new named cell at bottom.
    pub fn bottom_with_name_chirho(name_chirho: &str) -> (r: Self)
        ensures
            r.content_spec_chirho() == L::spec_bottom_chirho(),
            r.name_spec_chirho() == name_chirho@,
            r.watcher_count_spec_chirho() == 0,
    {
        Self::with_name_chirho(name_chirho, L::bottom_chirho())
    }

    /// Returns the cell's identifier.
    pub fn id_chirho(&self) -> (r: usize)
        ensures
            r == self.id_spec_chirho(),
    {
        self.id_chirho
    }

    /// Returns the cell's name.
    pub fn name_chirho(&self) -> (r: &str)
        ensures
            r@ == self.name_spec_chirho(),
    {
        self.name_chirho.as_str()
    }

    /// Gets (a copy of) the current content.
    pub fn get_chirho(&self) -> (r: L)
        ensures
            r@ == self.content_spec_chirho(),
    {
        self.content_chirho.copy_chirho()
    }

    /// Tells every watcher of the current content, in the order they were added.
    fn notify_all_chirho(&mut self)
        ensures
            final(self).notified_spec_chirho() == old(self).notified_spec_chirho()
                + notifications_chirho(old(self).watcher_count_spec_chirho(), old(self).content_spec_chirho()),
            final(self).content_chirho == old(self).content_chirho,
            final(self).id_chirho == old(self).id_chirho,
            final(self).name_chirho == old(self).name_chirho,
            final(self).watchers_chirho == old(self).watchers_chirho,
    {
        let ghost v = self.content_chirho@;
        let ghost k = self.watchers_chirho@.len();
        let mut i: usize = 0;
        while i < self.watchers_chirho.len()
            invariant
                0 <= i <= self.watchers_chirho@.len(),
                k == self.watchers_chirho@.len(),
                v == self.content_chirho@,
                self.content_chirho == old(self).content_chirho,
                self.id_chirho == old(self).id_chirho,
                self.name_chirho == old(self).name_chirho,
                self.watchers_chirho == old(self).watchers_chirho,
                self.notified_chirho@ == old(self).notified_chirho@ + notifications_chirho(i as nat, v),
            decreases self.watchers_chirho@.len() - i,
        {
            self.watchers_chirho[i].watcher_chirho.notify_chirho(&self.content_chirho);
            proof {
                self.notified_chirho@ = self.notified_chirho@.push((i as int, v));
                assert(notifications_chirho((i + 1) as nat, v) =~= notifications_chirho(i as nat, v).push((i as int, v)));
                assert(self.notified_chirho@ =~= old(self).notified_chirho@ + notifications_chirho((i + 1) as nat, v));
            }
            i = i + 1;
        }
    }

    /// Adds information to the cell (joins it with the current content);
    /// the watchers are told when the content changes.
    ///
    /// Returns true if the content changed.
    pub fn add_info_chirho(&mut self, info_chirho: L) -> (r: bool)
        ensures
            r == (L::spec_join_chirho(old(self).content_spec_chirho(), info_chirho@) != old(self).content_spec_chirho()),
            final(self).content_spec_chirho() == L::spec_join_chirho(old(self).content_spec_chirho(), info_chirho@),
            !r ==> *final(self) == *old(self),
            r ==> final(self).notified_spec_chirho() == old(self).notified_spec_chirho() + notifications_chirho(
                old(self).watcher_count_spec_chirho(),
                L::spec_join_chirho(old(self).content_spec_chirho(), info_chirho@),
            ),
            final(self).id_spec_chirho() == old(self).id_spec_chirho(),
            final(self).name_spec_chirho() == old(self).name_spec_chirho(),
            final(self).watcher_count_spec_chirho() == old(self).watcher_count_spec_chirho(),
    {
        let new_chirho = self.content_chirho.join_chirho(&info_chirho);
        if !new_chirho.same_chirho(&self.content_chirho) {
            self.content_chirho = new_chirho;
            self.notify_all_chirho();
            true
        } else {
            false
        }
    }

    /// Sets the content directly (replacing, not joining); the watchers are
    /// told when the content changes.
    pub fn set_chirho(&mut self, value_chirho: L)
        ensures
            final(self).content_spec_chirho() == value_chirho@,
            final(self).notified_spec_chirho() == if value_chirho@ == old(self).content_spec_chirho() {
                old(self).notified_spec_chirho()
            } else {
                old(self).notified_spec_chirho() + notifications_chirho(old(self).watcher_count_spec_chirho(), value_chirho@)
            },
            final(self).id_spec_chirho() == old(self).id_spec_chirho(),
            final(self).name_spec_chirho() == old(self).name_spec_chirho(),
            final(self).watcher_count_spec_chirho() == old(self).watcher_count_spec_chirho(),
    {
        if !value_chirho.same_chirho(&self.content_chirho) {
            self.content_chirho = value_chirho;
            self.notify_all_chirho();
        }
    }

    /// Returns true if the cell is at bottom (no information).
    pub fn is_bottom_chirho(&self) -> (r: bool)
        ensures
            r == L::spec_is_bottom_chirho(self.content_spec_chirho()),
    {
        self.content_chirho.is_bottom_chirho()
    }

    /// Returns true if the cell is at top (contradiction).
    pub fn is_top_chirho(&self) -> (r: bool)
        ensures
            r == L::spec_is_top_chirho(self.content_spec_chirho()),
    {
        self.content_chirho.is_top_chirho()
    }

    /// Adds a watcher callback that's invoked when content changes.
    pub fn watch_chirho<F>(&mut self, callback_chirho: F)
        where
            F: Fn(&L) + Send + Sync + 'static,
        requires
            forall|v: &L| call_requires(callback_chirho, (v,)),
        ensures
            final(self).watcher_count_spec_chirho() == old(self).watcher_count_spec_chirho() + 1,
            final(self).content_spec_chirho() == old(self).content_spec_chirho(),
            final(self).notified_spec_chirho() == old(self).notified_spec_chirho(),
            final(self).id_spec_chirho() == old(self).id_spec_chirho(),
            final(self).name_spec_chirho() == old(self).name_spec_chirho(),
    {
        let w = FnWatcherChirho { callback_chirho, marker_chirho: PhantomData };
        self.watchers_chirho.push(boxed_watcher_chirho(w));
    }

    /// Returns the number of watchers.
    pub fn watcher_count_chirho(&self) -> (r: usize)
        ensures
            r == self.watcher_count_spec_chirho(),
    {
        self.watchers_chirho.len()
    }
}

// ============================================================================
// Generic propagator network
// ============================================================================

/// A propagator made of a closure from cell values to proposed refinements.
#[verifier::reject_recursive_types(L)]
pub struct ClosurePropagatorChirho<L, F: Fn(&[L]) -> Vec<L>> {
    function_chirho: F,
    marker_chirho: PhantomData<L>,
}

impl<L, F: Fn(&[L]) -> Vec<L>> ClosurePropagatorChirho<L, F> {
    #[verifier::type_invariant]
    spec fn well_behaved_chirho(self) -> bool {
        &&& forall|c: &[L]| call_requires(self.function_chirho, (c,))
        &&& forall|c: &[L], r: Vec<L>| call_ensures(self.function_chirho, (c,), r) ==> r@.len() <= c@.len()
    }

    /// The closure.
    pub closed spec fn function_spec_chirho(self) -> F {
        self.function_chirho
    }
}

impl<L: BoundedLatticeChirho, F: Fn(&[L]) -> Vec<L>> PropagatorFnChirho<L> for ClosurePropagatorChirho<L, F> {
    open spec fn spec_arity_chirho(&self) -> int {
        0
    }

    open spec fn spec_outputs_chirho(&self, cells: Seq<L::V>, out: Seq<L::V>) -> bool {
        exists|c: &[L], r: Vec<L>|
            views_chirho(c@) == cells && views_chirho(r@) == out && #[trigger] call_ensures(self.function_spec_chirho(), (c,), r)
    }

    fn arity_chirho(&self) -> (r: usize) {
        0
    }

    fn propagate_chirho(&self, cells_chirho: &[L]) -> (r: Vec<L>) {
        proof { use_type_invariant(self); }
        let r = (self.function_chirho)(cells_chirho);
        assert(call_ensures(self.function_spec_chirho(), (cells_chirho,), r));
        r
    }
}

/// A propagator of the network and the cells it reads.
#[verifier::reject_recursive_types(L)]
struct PropagatorEntryChirho<L: BoundedLatticeChirho> {
    propagator_chirho: Box<dyn PropagatorFnChirho<L>>,
    cells_chirho: Vec<usize>,
}

/// Boxes a propagator with the cells it reads.
fn propagator_entry_chirho<L: BoundedLatticeChirho, P: PropagatorFnChirho<L> + 'static>(p: P, cells_chirho: Vec<usize>) -> (r: PropagatorEntryChirho<L>)
    ensures
        r.cells_chirho@ == cells_chirho@,
{
    PropagatorEntryChirho { propagator_chirho: Box::new(p), cells_chirho }
}

/// The values read from `views` at the positions `idx`.
pub open spec fn inputs_of_chirho<V>(views: Seq<V>, idx: Seq<usize>) -> Seq<V> {
    idx.map_values(|j: usize| views[j as int])
}

/// Whether output `i` changes nothing when joined into its cell.
pub open spec fn settles_at_chirho<L: BoundedLatticeChirho>(views: Seq<L::V>, idx: Seq<usize>, out: Seq<L::V>, i: int) -> bool {
    L::spec_is_bottom_chirho(out[i]) || L::spec_join_chirho(views[idx[i] as int], out[i]) == views[idx[i] as int]
}

/// Whether joining the outputs into the cells they are for changes nothing.
pub open spec fn settles_chirho<L: BoundedLatticeChirho>(views: Seq<L::V>, idx: Seq<usize>, out: Seq<L::V>) -> bool {
    forall|i: int| 0 <= i < out.len() ==> #[trigger] settles_at_chirho::<L>(views, idx, out, i)
}

/// The cell contents `views` after the outputs `out` are joined, in order,
/// into the cells `idx` they are for; an output that is bottom is skipped.
pub open spec fn applied_outputs_chirho<L: BoundedLatticeChirho>(views: Seq<L::V>, idx: Seq<usize>, out: Seq<L::V>) -> Seq<L::V>
    decreases out.len(),
{
    if out.len() == 0 {
        views
    } else {
        let prev = applied_outputs_chirho::<L>(views, idx, out.drop_last());
        let i = out.len() - 1;
        if L::spec_is_bottom_chirho(out[i]) {
            prev
        } else {
            prev.update(idx[i] as int, L::spec_join_chirho(prev[idx[i] as int], out[i]))
        }
    }
}

/// A generic propagator network that works with any lattice type.
///
/// Propagators waiting to run are queued; a propagator is queued when it is
/// added and whenever a cell it reads changes.
#[verifier::reject_recursive_types(L)]
pub struct GenericNetworkChirho<L: BoundedLatticeChirho> {
    cells_chirho: Vec<GenericCellChirho<L>>,
    propagators_chirho: Vec<PropagatorEntryChirho<L>>,
    queue_chirho: VecDeque<usize>,
    propagation_count_chirho: usize,
}

/// Whether `v` holds `x`.
fn usize_vec_contains_chirho(v: &Vec<usize>, x: usize) -> (r: bool)
    ensures
        r == v@.contains(x),
{
    let mut i: usize = 0;
    while i < v.len()
        invariant
            0 <= i <= v@.len(),
            forall|j: int| 0 <= j < i ==> v@[j] != x,
        decreases v@.len() - i,
    {
        if v[i] == x {
            return true;
        }
        i = i + 1;
    }
    false
}

/// Whether `q` holds `x`.
pub(crate) fn usize_deque_contains_chirho(q: &VecDeque<usize>, x: usize) -> (r: bool)
    ensures
        r == q@.contains(x),
{
    let mut i: usize = 0;
    while i < q.len()
        invariant
            0 <= i <= q@.len(),
            forall|j: int| 0 <= j < i ==> q@[j] != x,
        decreases q@.len() - i,
    {
        if q[i] == x {
            return true;
        }
        i = i + 1;
    }
    false
}

impl<L: BoundedLatticeChirho + 'static> GenericNetworkChirho<L> {
    /// The models of the cells' contents.
    pub closed spec fn cell_views_chirho(&self) -> Seq<L::V> {
        self.cells_chirho@.map_values(|c: GenericCellChirho<L>| c.content_spec_chirho())
    }

    /// The cells.
    pub closed spec fn cells_spec_chirho(&self) -> Seq<GenericCellChirho<L>> {
        self.cells_chirho@
    }

    /// The number of propagators.
    pub closed spec fn propagator_count_spec_chirho(&self) -> nat {
        self.propagators_chirho@.len()
    }

    /// The cells propagator `k` reads.
    pub closed spec fn indices_spec_chirho(&self, k: int) -> Seq<usize> {
        self.propagators_chirho@[k].cells_chirho@
    }

    /// The number of cells propagator `k` reads at least.
    pub closed spec fn arity_spec_chirho(&self, k: int) -> int {
        self.propagators_chirho@[k].propagator_chirho.spec_arity_chirho()
    }

    /// Whether propagator `k` may hand back `out` for inputs `inputs`.
    pub closed spec fn outputs_spec_chirho(&self, k: int, inputs: Seq<L::V>, out: Seq<L::V>) -> bool {
        self.propagators_chirho@[k].propagator_chirho.spec_outputs_chirho(inputs, out)
    }

    /// The propagators waiting to run, in order.
    pub closed spec fn queue_spec_chirho(&self) -> Seq<usize> {
        self.queue_chirho@
    }

    /// The number of propagator runs so far.
    pub closed spec fn propagation_count_spec_chirho(&self) -> usize {
        self.propagation_count_chirho
    }

    /// Whether the two networks have the same propagators over the same cells.
    pub closed spec fn same_propagators_chirho(&self, other: &Self) -> bool {
        self.propagators_chirho@ == other.propagators_chirho@
    }

    /// Propagator `k` is settled: it cannot run on the cells it is given, or
    /// some output it may hand back for the current contents changes nothing.
    pub open spec fn settled_chirho(&self, k: int) -> bool {
        let idx = self.indices_spec_chirho(k);
        ||| idx.len() < self.arity_spec_chirho(k)
        ||| exists|out: Seq<L::V>|
            #[trigger] self.outputs_spec_chirho(k, inputs_of_chirho(self.cell_views_chirho(), idx), out)
                && out.len() <= idx.len() && settles_chirho::<L>(self.cell_views_chirho(), idx, out)
    }

    /// Every propagator is settled.
    pub open spec fn at_fixpoint_chirho(&self) -> bool {
        forall|k: int| 0 <= k < self.propagator_count_spec_chirho() ==> #[trigger] self.settled_chirho(k)
    }

    /// One run of propagator `k` takes the cell contents from `before` to
    /// `after`: unchanged when it is given fewer cells than it reads, else
    /// some outputs it may hand back for `before` are joined into its cells.
    pub open spec fn run_step_chirho(&self, k: int, before: Seq<L::V>, after: Seq<L::V>) -> bool {
        let idx = self.indices_spec_chirho(k);
        if idx.len() < self.arity_spec_chirho(k) {
            after == before
        } else {
            exists|out: Seq<L::V>| #[trigger] self.outputs_spec_chirho(k, inputs_of_chirho(before, idx), out)
                && out.len() <= idx.len() && after == applied_outputs_chirho::<L>(before, idx, out)
        }
    }

    /// The runs of the propagators `ran`, in order, lead through the cell
    /// contents `views`: the `k`-th run takes `views[k]` to `views[k + 1]`.
    pub open spec fn runs_through_chirho(&self, ran: Seq<usize>, views: Seq<Seq<L::V>>) -> bool {
        &&& views.len() == ran.len() + 1
        &&& forall|k: int| 0 <= k < ran.len() ==> #[trigger] self.ran_at_chirho(ran, views, k)
    }

    /// The `k`-th run of `ran` is of a propagator of the network and takes
    /// `views[k]` to `views[k + 1]`.
    pub open spec fn ran_at_chirho(&self, ran: Seq<usize>, views: Seq<Seq<L::V>>, k: int) -> bool {
        ran[k] < self.propagator_count_spec_chirho() && self.run_step_chirho(ran[k] as int, views[k], views[k + 1])
    }

    /// Indices in range and the queue a set of propagators.
    spec fn structure_ok_chirho(&self) -> bool {
        &&& forall|k: int, j: int|
            0 <= k < self.propagators_chirho@.len() && 0 <= j < self.propagators_chirho@[k].cells_chirho@.len()
                ==> #[trigger] self.propagators_chirho@[k].cells_chirho@[j] < self.cells_chirho@.len()
        &&& forall|t: int| 0 <= t < self.queue_chirho@.len() ==> #[trigger] self.queue_chirho@[t] < self.propagators_chirho@.len()
        &&& self.queue_chirho@.no_duplicates()
    }

    /// Every propagator that is not queued, other than `p`, is settled.
    spec fn settled_except_chirho(&self, p: int) -> bool {
        forall|k: usize| (k as int) < self.propagators_chirho@.len() && k as int != p && !#[trigger] self.queue_chirho@.contains(k)
            ==> self.settled_chirho(k as int)
    }

    /// Propagator `k` stays settled when the propagators and cell contents stay.
    proof fn lemma_settled_same_chirho(a: &Self, b: &Self, k: int)
        requires
            0 <= k < a.propagators_chirho@.len(),
            a.propagators_chirho@ == b.propagators_chirho@,
            a.cell_views_chirho() == b.cell_views_chirho(),
            a.settled_chirho(k),
        ensures
            b.settled_chirho(k),
    {
        let idx = a.indices_spec_chirho(k);
        if idx.len() >= a.arity_spec_chirho(k) {
            let out = choose|out: Seq<L::V>|
                #[trigger] a.outputs_spec_chirho(k, inputs_of_chirho(a.cell_views_chirho(), idx), out)
                    && out.len() <= idx.len() && settles_chirho::<L>(a.cell_views_chirho(), idx, out);
            assert(b.outputs_spec_chirho(k, inputs_of_chirho(b.cell_views_chirho(), idx), out));
        }
    }

    /// A run step depends on the propagators only.
    proof fn lemma_run_step_same_chirho(a: &Self, b: &Self, k: int, before: Seq<L::V>, after: Seq<L::V>)
        requires
            0 <= k < a.propagators_chirho@.len(),
            a.propagators_chirho@ == b.propagators_chirho@,
            a.run_step_chirho(k, before, after),
        ensures
            b.run_step_chirho(k, before, after),
    {
        let idx = a.indices_spec_chirho(k);
        assert(idx == b.indices_spec_chirho(k));
        assert(a.arity_spec_chirho(k) == b.arity_spec_chirho(k));
        if idx.len() >= a.arity_spec_chirho(k) {
            let out = choose|out: Seq<L::V>| #[trigger] a.outputs_spec_chirho(k, inputs_of_chirho(before, idx), out)
                && out.len() <= idx.len() && after == applied_outputs_chirho::<L>(before, idx, out);
            assert(b.outputs_spec_chirho(k, inputs_of_chirho(before, idx), out));
        }
    }

    /// One more run, from the last contents of a trace, extends the trace.
    proof fn lemma_runs_push_chirho(n: &Self, ran: Seq<usize>, views: Seq<Seq<L::V>>, p: usize, next: Seq<L::V>)
        requires
            n.runs_through_chirho(ran, views),
            p < n.propagator_count_spec_chirho(),
            n.run_step_chirho(p as int, views.last(), next),
        ensures
            n.runs_through_chirho(ran.push(p), views.push(next)),
            views.push(next)[0] == views[0],
    {
        let r2 = ran.push(p);
        let v2 = views.push(next);
        assert forall|k: int| 0 <= k < r2.len() implies #[trigger] n.ran_at_chirho(r2, v2, k) by {
            if k < ran.len() {
                assert(n.ran_at_chirho(ran, views, k));
                assert(r2[k] == ran[k]);
                assert(v2[k] == views[k]);
                assert(v2[k + 1] == views[k + 1]);
            } else {
                assert(v2[k] == views.last());
                assert(v2[k + 1] == next);
            }
        }
    }

    /// The network's invariant: a propagator that is not queued is settled.
    pub closed spec fn wf_chirho(&self) -> bool {
        self.structure_ok_chirho() && self.settled_except_chirho(-1)
    }

    /// A propagator whose cells kept their contents stays settled.
    proof fn lemma_settled_frame_chirho(a: &Self, b: &Self, k: int)
        requires
            0 <= k < a.propagators_chirho@.len(),
            a.propagators_chirho@ == b.propagators_chirho@,
            forall|j: int| 0 <= j < a.propagators_chirho@[k].cells_chirho@.len()
                ==> a.cell_views_chirho()[#[trigger] a.propagators_chirho@[k].cells_chirho@[j] as int]
                    == b.cell_views_chirho()[a.propagators_chirho@[k].cells_chirho@[j] as int],
            forall|j: int| 0 <= j < a.propagators_chirho@[k].cells_chirho@.len()
                ==> #[trigger] a.propagators_chirho@[k].cells_chirho@[j] < a.cells_chirho@.len()
                    && a.propagators_chirho@[k].cells_chirho@[j] < b.cells_chirho@.len(),
            a.settled_chirho(k),
        ensures
            b.settled_chirho(k),
    {
        let idx = a.indices_spec_chirho(k);
        if idx.len() >= a.arity_spec_chirho(k) {
            let out = choose|out: Seq<L::V>|
                #[trigger] a.outputs_spec_chirho(k, inputs_of_chirho(a.cell_views_chirho(), idx), out)
                    && out.len() <= idx.len() && settles_chirho::<L>(a.cell_views_chirho(), idx, out);
            assert(inputs_of_chirho(a.cell_views_chirho(), idx) =~= inputs_of_chirho(b.cell_views_chirho(), idx));
            assert forall|i: int| 0 <= i < out.len() implies #[trigger] settles_at_chirho::<L>(b.cell_views_chirho(), idx, out, i) by {
                assert(settles_at_chirho::<L>(a.cell_views_chirho(), idx, out, i));
            }
            assert(b.outputs_spec_chirho(k, inputs_of_chirho(b.cell_views_chirho(), idx), out));
        }
    }

    /// Creates a new empty network.
    pub fn new_chirho() -> (r: Self)
        ensures
            r.wf_chirho(),
            r.cells_spec_chirho().len() == 0,
            r.propagator_count_spec_chirho() == 0,
            r.queue_spec_chirho().len() == 0,
            r.propagation_count_spec_chirho() == 0,
    {
        GenericNetworkChirho {
            cells_chirho: Vec::new(),
            propagators_chirho: Vec::new(),
            queue_chirho: VecDeque::new(),
            propagation_count_chirho: 0,
        }
    }

    /// Adds a cell to the network and returns its index.
    pub fn add_cell_chirho(&mut self, cell_chirho: GenericCellChirho<L>) -> (r: usize)
        requires
            old(self).wf_chirho(),
        ensures
            final(self).wf_chirho(),
            r == old(self).cells_spec_chirho().len(),
            final(self).cells_spec_chirho() == old(self).cells_spec_chirho().push(cell_chirho),
            final(self).same_propagators_chirho(&*old(self)),
            final(self).queue_spec_chirho() == old(self).queue_spec_chirho(),
            final(self).propagation_count_spec_chirho() == old(self).propagation_count_spec_chirho(),
    {
        let idx_chirho = self.cells_chirho.len();
        let ghost before = *self;
        self.cells_chirho.push(cell_chirho);
        proof {
            assert forall|k: usize| (k as int) < self.propagators_chirho@.len() && !#[trigger] self.queue_chirho@.contains(k)
                implies self.settled_chirho(k as int) by {
                assert(before.settled_chirho(k as int));
                Self::lemma_settled_frame_chirho(&before, &*self, k as int);
            }
        }
        idx_chirho
    }
}

impl<L: BoundedLatticeChirho + 'static> GenericNetworkChirho<L> {
    /// Creates and adds a new cell at bottom; returns its index.
    pub fn make_cell_chirho(&mut self) -> (r: usize)
        requires
            old(self).wf_chirho(),
        ensures
            final(self).wf_chirho(),
            r == old(self).cells_spec_chirho().len(),
            final(self).cells_spec_chirho().len() == old(self).cells_spec_chirho().len() + 1,
            final(self).cell_views_chirho() == old(self).cell_views_chirho().push(L::spec_bottom_chirho()),
            final(self).same_propagators_chirho(&*old(self)),
            final(self).queue_spec_chirho() == old(self).queue_spec_chirho(),
            final(self).propagation_count_spec_chirho() == old(self).propagation_count_spec_chirho(),
    {
        let r = self.add_cell_chirho(GenericCellChirho::bottom_chirho());
        assert(self.cell_views_chirho() =~= old(self).cell_views_chirho().push(L::spec_bottom_chirho()));
        r
    }

    /// Creates and adds a new named cell at bottom; returns its index.
    pub fn make_named_cell_chirho(&mut self, name_chirho: &str) -> (r: usize)
        requires
            old(self).wf_chirho(),
        ensures
            final(self).wf_chirho(),
            r == old(self).cells_spec_chirho().len(),
            final(self).cells_spec_chirho().len() == old(self).cells_spec_chirho().len() + 1,
            final(self).cell_views_chirho() == old(self).cell_views_chirho().push(L::spec_bottom_chirho()),
            final(self).cells_spec_chirho()[r as int].name_spec_chirho() == name_chirho@,
            final(self).same_propagators_chirho(&*old(self)),
            final(self).queue_spec_chirho() == old(self).queue_spec_chirho(),
            final(self).propagation_count_spec_chirho() == old(self).propagation_count_spec_chirho(),
    {
        let r = self.add_cell_chirho(GenericCellChirho::bottom_with_name_chirho(name_chirho));
        assert(self.cell_views_chirho() =~= old(self).cell_views_chirho().push(L::spec_bottom_chirho()));
        r
    }

    /// Gets a cell by index.
    pub fn get_cell_chirho(&self, idx_chirho: usize) -> (r: Option<&GenericCellChirho<L>>)
        ensures
            idx_chirho < self.cells_spec_chirho().len() ==> r == Some(&self.cells_spec_chirho()[idx_chirho as int]),
            idx_chirho >= self.cells_spec_chirho().len() ==> r is None,
    {
        if idx_chirho < self.cells_chirho.len() {
            Some(&self.cells_chirho[idx_chirho])
        } else {
            None
        }
    }

    /// Adds a propagator reading the given cells; it is queued to run.
    pub fn add_propagator_chirho<P: PropagatorFnChirho<L> + 'static>(&mut self, propagator_chirho: P, cell_indices_chirho: Vec<usize>)
        requires
            old(self).wf_chirho(),
            forall|j: int| 0 <= j < cell_indices_chirho@.len() ==> #[trigger] cell_indices_chirho@[j] < old(self).cells_spec_chirho().len(),
            cell_indices_chirho@.len() >= propagator_chirho.spec_arity_chirho(),
        ensures
            final(self).wf_chirho(),
            final(self).cells_spec_chirho() == old(self).cells_spec_chirho(),
            final(self).propagator_count_spec_chirho() == old(self).propagator_count_spec_chirho() + 1,
            final(self).indices_spec_chirho(old(self).propagator_count_spec_chirho() as int) == cell_indices_chirho@,
            final(self).queue_spec_chirho() == old(self).queue_spec_chirho().push(old(self).propagator_count_spec_chirho() as usize),
            final(self).propagation_count_spec_chirho() == old(self).propagation_count_spec_chirho(),
    {
        let entry_chirho = propagator_entry_chirho(propagator_chirho, cell_indices_chirho);
        self.push_entry_chirho(entry_chirho);
    }

    /// Adds a propagator made of a closure reading the given cells; it is
    /// queued to run.
    pub fn add_closure_propagator_chirho<F>(&mut self, propagator_fn_chirho: F, cell_indices_chirho: Vec<usize>)
        where
            F: Fn(&[L]) -> Vec<L> + 'static,
        requires
            old(self).wf_chirho(),
            forall|j: int| 0 <= j < cell_indices_chirho@.len() ==> #[trigger] cell_indices_chirho@[j] < old(self).cells_spec_chirho().len(),
            forall|c: &[L]| call_requires(propagator_fn_chirho, (c,)),
            forall|c: &[L], r: Vec<L>| call_ensures(propagator_fn_chirho, (c,), r) ==> r@.len() <= c@.len(),
        ensures
            final(self).wf_chirho(),
            final(self).cells_spec_chirho() == old(self).cells_spec_chirho(),
            final(self).propagator_count_spec_chirho() == old(self).propagator_count_spec_chirho() + 1,
            final(self).indices_spec_chirho(old(self).propagator_count_spec_chirho() as int) == cell_indices_chirho@,
            final(self).queue_spec_chirho() == old(self).queue_spec_chirho().push(old(self).propagator_count_spec_chirho() as usize),
            final(self).propagation_count_spec_chirho() == old(self).propagation_count_spec_chirho(),
    {
        let p = ClosurePropagatorChirho { function_chirho: propagator_fn_chirho, marker_chirho: PhantomData };
        let entry_chirho = propagator_entry_chirho(p, cell_indices_chirho);
        self.push_entry_chirho(entry_chirho);
    }

    /// Adds a propagator entry and queues it.
    fn push_entry_chirho(&mut self, entry_chirho: PropagatorEntryChirho<L>)
        requires
            old(self).wf_chirho(),
            forall|j: int| 0 <= j < entry_chirho.cells_chirho@.len() ==> #[trigger] entry_chirho.cells_chirho@[j] < old(self).cells_chirho@.len(),
        ensures
            final(self).wf_chirho(),
            final(self).cells_chirho@ == old(self).cells_chirho@,
            final(self).propagators_chirho@ == old(self).propagators_chirho@.push(entry_chirho),
            final(self).queue_chirho@ == old(self).queue_chirho@.push(old(self).propagators_chirho@.len() as usize),
            final(self).propagation_count_chirho == old(self).propagation_count_chirho,
    {
        let prop_idx_chirho = self.propagators_chirho.len();
        let ghost before = *self;
        self.propagators_chirho.push(entry_chirho);
        self.queue_chirho.push_back(prop_idx_chirho);
        proof {
            assert forall|t: int| 0 <= t < self.queue_chirho@.len() implies #[trigger] self.queue_chirho@[t] < self.propagators_chirho@.len() by {
                if t < before.queue_chirho@.len() {
                    assert(before.queue_chirho@[t] < before.propagators_chirho@.len());
                }
            }
            assert(!before.queue_chirho@.contains(prop_idx_chirho)) by {
                if before.queue_chirho@.contains(prop_idx_chirho) {
                    let t = choose|t: int| 0 <= t < before.queue_chirho@.len() && before.queue_chirho@[t] == prop_idx_chirho;
                    assert(before.queue_chirho@[t] < before.propagators_chirho@.len());
                }
            }
            assert forall|k: int, j: int|
                0 <= k < self.propagators_chirho@.len() && 0 <= j < self.propagators_chirho@[k].cells_chirho@.len()
                implies #[trigger] self.propagators_chirho@[k].cells_chirho@[j] < self.cells_chirho@.len() by {
                if k < before.propagators_chirho@.len() {
                    assert(before.propagators_chirho@[k].cells_chirho@[j] < before.cells_chirho@.len());
                }
            }
            assert forall|k: usize| (k as int) < self.propagators_chirho@.len() && !#[trigger] self.queue_chirho@.contains(k)
                implies self.settled_chirho(k as int) by {
                if k == prop_idx_chirho {
                    assert(self.queue_chirho@[before.queue_chirho@.len() as int] == prop_idx_chirho);
                }
                if before.queue_chirho@.contains(k) {
                    let t = choose|t: int| 0 <= t < before.queue_chirho@.len() && before.queue_chirho@[t] == k;
                    assert(self.queue_chirho@[t] == k);
                }
                assert(before.settled_chirho(k as int));
                assert(self.propagators_chirho@[k as int] == before.propagators_chirho@[k as int]);
                assert(self.cell_views_chirho() == before.cell_views_chirho());
                assert(inputs_of_chirho(self.cell_views_chirho(), self.indices_spec_chirho(k as int)) == inputs_of_chirho(before.cell_views_chirho(), before.indices_spec_chirho(k as int)));
                assert(forall|out: Seq<L::V>| self.outputs_spec_chirho(k as int, inputs_of_chirho(self.cell_views_chirho(), self.indices_spec_chirho(k as int)), out)
                    == before.outputs_spec_chirho(k as int, inputs_of_chirho(before.cell_views_chirho(), before.indices_spec_chirho(k as int)), out));
            }
        }
    }
}

/// A copy of a vector of indices.
fn copy_indices_chirho(v: &Vec<usize>) -> (r: Vec<usize>)
    ensures
        r@ == v@,
{
    let mut r: Vec<usize> = Vec::new();
    let mut i: usize = 0;
    while i < v.len()
        invariant
            0 <= i <= v@.len(),
            r@ == v@.subrange(0, i as int),
        decreases v@.len() - i,
    {
        r.push(v[i]);
        i = i + 1;
        assert(r@ =~= v@.subrange(0, i as int));
    }
    assert(r@ =~= v@);
    r
}

impl<L: BoundedLatticeChirho + 'static> GenericNetworkChirho<L> {
    /// Queues every propagator that reads cell `c` and is not queued yet.
    fn queue_affected_chirho(&mut self, c: usize)
        requires
            old(self).structure_ok_chirho(),
        ensures
            final(self).structure_ok_chirho(),
            final(self).cells_chirho@ == old(self).cells_chirho@,
            final(self).propagators_chirho@ == old(self).propagators_chirho@,
            final(self).propagation_count_chirho == old(self).propagation_count_chirho,
            forall|k: usize| #[trigger] final(self).queue_chirho@.contains(k)
                <==> (old(self).queue_chirho@.contains(k) || (k < old(self).propagators_chirho@.len()
                    && old(self).propagators_chirho@[k as int].cells_chirho@.contains(c))),
    {
        let ghost q0 = self.queue_chirho@;
        let mut k: usize = 0;
        while k < self.propagators_chirho.len()
            invariant
                0 <= k <= self.propagators_chirho@.len(),
                self.structure_ok_chirho(),
                self.cells_chirho@ == old(self).cells_chirho@,
                self.propagators_chirho@ == old(self).propagators_chirho@,
                self.propagation_count_chirho == old(self).propagation_count_chirho,
                q0 == old(self).queue_chirho@,
                forall|x: usize| #[trigger] self.queue_chirho@.contains(x)
                    <==> (q0.contains(x) || (x < k && self.propagators_chirho@[x as int].cells_chirho@.contains(c))),
            decreases self.propagators_chirho@.len() - k,
        {
            if usize_vec_contains_chirho(&self.propagators_chirho[k].cells_chirho, c)
                && !usize_deque_contains_chirho(&self.queue_chirho, k) {
                let ghost qb = self.queue_chirho@;
                self.queue_chirho.push_back(k);
                proof {
                    assert forall|x: usize| #[trigger] self.queue_chirho@.contains(x) <==> (qb.contains(x) || x == k) by {
                        if qb.contains(x) {
                            let t = choose|t: int| 0 <= t < qb.len() && qb[t] == x;
                            assert(self.queue_chirho@[t] == x);
                        }
                        if x == k {
                            assert(self.queue_chirho@[qb.len() as int] == x);
                        }
                        if self.queue_chirho@.contains(x) {
                            let t = choose|t: int| 0 <= t < self.queue_chirho@.len() && self.queue_chirho@[t] == x;
                            if t < qb.len() {
                                assert(qb[t] == x);
                            }
                        }
                    }
                    assert forall|t: int| 0 <= t < self.queue_chirho@.len() implies #[trigger] self.queue_chirho@[t] < self.propagators_chirho@.len() by {
                        if t < qb.len() {
                            assert(qb[t] == self.queue_chirho@[t]);
                        }
                    }
                }
            }
            k = k + 1;
        }
    }

    /// Joins `info` into cell `c`; when it changes, the propagators reading
    /// it are queued.
    fn join_into_cell_chirho(&mut self, c: usize, info_chirho: L, Ghost(p): Ghost<int>) -> (changed: bool)
        requires
            old(self).structure_ok_chirho(),
            old(self).settled_except_chirho(p),
            c < old(self).cells_chirho@.len(),
        ensures
            final(self).structure_ok_chirho(),
            final(self).settled_except_chirho(p),
            final(self).propagators_chirho@ == old(self).propagators_chirho@,
            final(self).propagation_count_chirho == old(self).propagation_count_chirho,
            final(self).cells_chirho@.len() == old(self).cells_chirho@.len(),
            final(self).cell_views_chirho() == old(self).cell_views_chirho().update(
                c as int,
                L::spec_join_chirho(old(self).cell_views_chirho()[c as int], info_chirho@),
            ),
            changed == (L::spec_join_chirho(old(self).cell_views_chirho()[c as int], info_chirho@) != old(self).cell_views_chirho()[c as int]),
            !changed ==> final(self).cells_chirho@ == old(self).cells_chirho@ && final(self).queue_chirho@ == old(self).queue_chirho@,
            forall|k: usize| #[trigger] final(self).queue_chirho@.contains(k)
                <==> (old(self).queue_chirho@.contains(k) || (changed && k < old(self).propagators_chirho@.len()
                    && old(self).propagators_chirho@[k as int].cells_chirho@.contains(c))),
    {
        let ghost before = *self;
        let changed = self.cells_chirho[c].add_info_chirho(info_chirho);
        proof {
            assert(self.cell_views_chirho() =~= before.cell_views_chirho().update(
                c as int,
                L::spec_join_chirho(before.cell_views_chirho()[c as int], info_chirho@),
            ));
            if !changed {
                assert(self.cells_chirho@ =~= before.cells_chirho@);
                assert(self.cell_views_chirho() =~= before.cell_views_chirho());
                assert forall|k: usize| (k as int) < self.propagators_chirho@.len() && k as int != p && !#[trigger] self.queue_chirho@.contains(k)
                    implies self.settled_chirho(k as int) by {
                    assert(before.settled_chirho(k as int));
                    Self::lemma_settled_same_chirho(&before, &*self, k as int);
                }
            }
        }
        if changed {
            let ghost mid = *self;
            assert(mid.queue_chirho@ == before.queue_chirho@);
            assert(mid.propagators_chirho@ == before.propagators_chirho@);
            self.queue_affected_chirho(c);
            proof {
                assert forall|k: usize| (k as int) < self.propagators_chirho@.len() && k as int != p && !#[trigger] self.queue_chirho@.contains(k)
                    implies self.settled_chirho(k as int) by {
                    assert(!mid.queue_chirho@.contains(k));
                    assert(!mid.propagators_chirho@[k as int].cells_chirho@.contains(c));
                    assert(before.settled_chirho(k as int));
                    assert forall|j: int| 0 <= j < before.propagators_chirho@[k as int].cells_chirho@.len()
                        implies before.cell_views_chirho()[#[trigger] before.propagators_chirho@[k as int].cells_chirho@[j] as int]
                            == self.cell_views_chirho()[before.propagators_chirho@[k as int].cells_chirho@[j] as int] by {
                        assert(before.propagators_chirho@[k as int].cells_chirho@[j] != c);
                    }
                    Self::lemma_settled_frame_chirho(&before, &*self, k as int);
                }
            }
        }
        changed
    }

    /// Copies of the contents of the cells at the given indices.
    fn gather_inputs_chirho(&self, idx: &Vec<usize>) -> (r: Vec<L>)
        requires
            forall|j: int| 0 <= j < idx@.len() ==> #[trigger] idx@[j] < self.cells_chirho@.len(),
        ensures
            views_chirho(r@) == inputs_of_chirho(self.cell_views_chirho(), idx@),
    {
        let mut r: Vec<L> = Vec::new();
        let mut j: usize = 0;
        while j < idx.len()
            invariant
                0 <= j <= idx@.len(),
                forall|t: int| 0 <= t < idx@.len() ==> #[trigger] idx@[t] < self.cells_chirho@.len(),
                r@.len() == j,
                forall|t: int| 0 <= t < j ==> (#[trigger] r@[t])@ == self.cell_views_chirho()[idx@[t] as int],
            decreases idx@.len() - j,
        {
            assert(idx@[j as int] < self.cells_chirho@.len());
            r.push(self.cells_chirho[idx[j]].get_chirho());
            j = j + 1;
        }
        assert(views_chirho(r@) =~= inputs_of_chirho(self.cell_views_chirho(), idx@));
        r
    }

    /// Runs propagator `p` once and joins its outputs into its cells.
    fn run_propagator_chirho(&mut self, p: usize)
        requires
            old(self).structure_ok_chirho(),
            old(self).settled_except_chirho(p as int),
            p < old(self).propagators_chirho@.len(),
            !old(self).queue_chirho@.contains(p),
        ensures
            final(self).structure_ok_chirho(),
            final(self).settled_except_chirho(-1),
            final(self).propagators_chirho@ == old(self).propagators_chirho@,
            final(self).propagation_count_chirho == old(self).propagation_count_chirho,
            final(self).cells_chirho@.len() == old(self).cells_chirho@.len(),
            all_grow_chirho::<L>(old(self).cell_views_chirho(), final(self).cell_views_chirho()),
            old(self).run_step_chirho(p as int, old(self).cell_views_chirho(), final(self).cell_views_chirho()),
    {
        proof { lemma_grows_refl_chirho::<L>(self.cell_views_chirho()); }
        let idx = copy_indices_chirho(&self.propagators_chirho[p].cells_chirho);
        let inputs_chirho = self.gather_inputs_chirho(&idx);
        assert(views_chirho(inputs_chirho@).len() == inputs_chirho@.len());
        assert(inputs_chirho@.len() == idx@.len());
        let arity_chirho = self.propagators_chirho[p].propagator_chirho.arity_chirho();
        if inputs_chirho.len() < arity_chirho {
            proof {
                assert(self.settled_chirho(p as int));
                assert forall|k: usize| (k as int) < self.propagators_chirho@.len() && k as int != -1 && !#[trigger] self.queue_chirho@.contains(k)
                    implies self.settled_chirho(k as int) by {
                    if k != p {
                    }
                }
            }
            return;
        }
        let outputs_chirho = self.propagators_chirho[p].propagator_chirho.propagate_chirho(inputs_chirho.as_slice());
        let ghost outv = views_chirho(outputs_chirho@);
        let ghost start = self.cell_views_chirho();
        let ghost s0 = *self;
        let mut i: usize = 0;
        while i < outputs_chirho.len()
            invariant
                0 <= i <= outputs_chirho@.len(),
                outputs_chirho@.len() <= idx@.len(),
                self.structure_ok_chirho(),
                self.settled_except_chirho(p as int),
                self.propagators_chirho@ == old(self).propagators_chirho@,
                self.propagation_count_chirho == old(self).propagation_count_chirho,
                self.cells_chirho@.len() == old(self).cells_chirho@.len(),
                p < self.propagators_chirho@.len(),
                idx@ == self.propagators_chirho@[p as int].cells_chirho@,
                outv == views_chirho(outputs_chirho@),
                start.len() == self.cells_chirho@.len(),
                start == old(self).cell_views_chirho(),
                all_grow_chirho::<L>(old(self).cell_views_chirho(), self.cell_views_chirho()),
                self.cell_views_chirho() == applied_outputs_chirho::<L>(start, idx@, outv.take(i as int)),
                self.outputs_spec_chirho(p as int, inputs_of_chirho(start, idx@), outv),
                !self.queue_chirho@.contains(p) ==> {
                    &&& forall|t: int| 0 <= t < idx@.len() ==> self.cell_views_chirho()[#[trigger] idx@[t] as int] == start[idx@[t] as int]
                    &&& forall|t: int| 0 <= t < i ==> #[trigger] settles_at_chirho::<L>(start, idx@, outv, t)
                },
            decreases outputs_chirho@.len() - i,
        {
            let o = outputs_chirho[i].copy_chirho();
            proof {
                assert(outv.take(i + 1).drop_last() =~= outv.take(i as int));
                assert(outv.take(i + 1)[i as int] == outv[i as int]);
                assert(o@ == outv[i as int]);
            }
            if !o.is_bottom_chirho() {
                let c = idx[i];
                assert(idx@[i as int] < self.cells_chirho@.len());
                let ghost pre = *self;
                let changed = self.join_into_cell_chirho(c, o, Ghost(p as int));
                proof {
                    lemma_grows_step_chirho::<L>(old(self).cell_views_chirho(), pre.cell_views_chirho(), c as int, o@);
                    if changed {
                        assert(self.propagators_chirho@[p as int].cells_chirho@[i as int] == c);
                        assert(self.queue_chirho@.contains(p));
                    } else if !self.queue_chirho@.contains(p) {
                        assert(pre.cell_views_chirho()[c as int] == start[c as int]);
                        assert(settles_at_chirho::<L>(start, idx@, outv, i as int));
                    }
                }
            }
            i = i + 1;
        }
        proof {
            assert(outv.take(outv.len() as int) =~= outv);
            assert(old(self).outputs_spec_chirho(p as int, inputs_of_chirho(start, idx@), outv));
            if !self.queue_chirho@.contains(p) {
                let views = self.cell_views_chirho();
                assert(inputs_of_chirho(views, idx@) =~= inputs_of_chirho(start, idx@));
                assert forall|t: int| 0 <= t < outv.len() implies #[trigger] settles_at_chirho::<L>(views, idx@, outv, t) by {
                    assert(settles_at_chirho::<L>(start, idx@, outv, t));
                    assert(views[idx@[t] as int] == start[idx@[t] as int]);
                }
                assert(self.outputs_spec_chirho(p as int, inputs_of_chirho(views, idx@), outv));
                assert(self.settled_chirho(p as int));
            }
        }
    }

    /// Sets a cell's value (joining it in) and queues the propagators that
    /// read the cell when it changed. An index out of range changes nothing.
    pub fn set_cell_chirho(&mut self, cell_idx_chirho: usize, value_chirho: L)
        requires
            old(self).wf_chirho(),
        ensures
            final(self).wf_chirho(),
            final(self).same_propagators_chirho(&*old(self)),
            final(self).propagation_count_spec_chirho() == old(self).propagation_count_spec_chirho(),
            final(self).cells_spec_chirho().len() == old(self).cells_spec_chirho().len(),
            cell_idx_chirho < old(self).cells_spec_chirho().len() ==> final(self).cell_views_chirho()
                == old(self).cell_views_chirho().update(
                    cell_idx_chirho as int,
                    L::spec_join_chirho(old(self).cell_views_chirho()[cell_idx_chirho as int], value_chirho@),
                ),
            cell_idx_chirho >= old(self).cells_spec_chirho().len() ==> *final(self) == *old(self),
    {
        if cell_idx_chirho < self.cells_chirho.len() {
            self.join_into_cell_chirho(cell_idx_chirho, value_chirho, Ghost(-1));
        }
    }

    /// Runs queued propagators until none is left, counting each run.
    ///
    /// The cells change only by the runs counted: each joins the outputs of
    /// a propagator for the contents it read into its cells. It stops with
    /// propagators still queued only when the run count has reached its
    /// maximum; when it stops with the queue empty, every propagator is
    /// settled: the network is at a fixpoint.
    pub fn propagate_chirho(&mut self)
        requires
            old(self).wf_chirho(),
        ensures
            final(self).wf_chirho(),
            final(self).same_propagators_chirho(&*old(self)),
            final(self).cells_spec_chirho().len() == old(self).cells_spec_chirho().len(),
            exists|ran: Seq<usize>, views: Seq<Seq<L::V>>| {
                &&& #[trigger] old(self).runs_through_chirho(ran, views)
                &&& views[0] == old(self).cell_views_chirho()
                &&& views.last() == final(self).cell_views_chirho()
                &&& final(self).propagation_count_spec_chirho() == old(self).propagation_count_spec_chirho() + ran.len()
            },
            final(self).propagation_count_spec_chirho() == usize::MAX
                || (final(self).queue_spec_chirho().len() == 0 && final(self).at_fixpoint_chirho()),
            all_grow_chirho::<L>(old(self).cell_views_chirho(), final(self).cell_views_chirho()),
    {
        let ghost mut ran: Seq<usize> = Seq::empty();
        let ghost mut views: Seq<Seq<L::V>> = seq![self.cell_views_chirho()];
        proof { lemma_grows_refl_chirho::<L>(self.cell_views_chirho()); }
        loop
            invariant
                self.wf_chirho(),
                self.propagators_chirho@ == old(self).propagators_chirho@,
                self.cells_chirho@.len() == old(self).cells_chirho@.len(),
                old(self).propagation_count_chirho <= self.propagation_count_chirho,
                all_grow_chirho::<L>(old(self).cell_views_chirho(), self.cell_views_chirho()),
                old(self).runs_through_chirho(ran, views),
                views[0] == old(self).cell_views_chirho(),
                views.last() == self.cell_views_chirho(),
                self.propagation_count_chirho == old(self).propagation_count_chirho + ran.len(),
            ensures
                self.wf_chirho(),
                self.propagators_chirho@ == old(self).propagators_chirho@,
                self.cells_chirho@.len() == old(self).cells_chirho@.len(),
                old(self).propagation_count_chirho <= self.propagation_count_chirho,
                all_grow_chirho::<L>(old(self).cell_views_chirho(), self.cell_views_chirho()),
                old(self).runs_through_chirho(ran, views),
                views[0] == old(self).cell_views_chirho(),
                views.last() == self.cell_views_chirho(),
                self.propagation_count_chirho == old(self).propagation_count_chirho + ran.len(),
                self.propagation_count_chirho == usize::MAX || self.queue_chirho@.len() == 0,
            decreases usize::MAX - self.propagation_count_chirho,
        {
            if self.queue_chirho.len() == 0 {
                break;
            }
            if self.propagation_count_chirho == usize::MAX {
                break;
            }
            let ghost before = *self;
            let p = match self.queue_chirho.pop_front() {
                Some(p) => p,
                None => {
                    break;
                },
            };
            self.propagation_count_chirho = self.propagation_count_chirho + 1;
            proof {
                assert(p < self.propagators_chirho@.len());
                assert forall|t: int| 0 <= t < self.queue_chirho@.len() implies #[trigger] self.queue_chirho@[t] < self.propagators_chirho@.len() by {
                    assert(self.queue_chirho@[t] == before.queue_chirho@[t + 1]);
                }
                assert(!self.queue_chirho@.contains(p)) by {
                    if self.queue_chirho@.contains(p) {
                        let t = choose|t: int| 0 <= t < self.queue_chirho@.len() && self.queue_chirho@[t] == p;
                        assert(before.queue_chirho@[t + 1] == before.queue_chirho@[0]);
                    }
                }
                assert forall|k: usize| (k as int) < self.propagators_chirho@.len() && k as int != p && !#[trigger] self.queue_chirho@.contains(k)
                    implies self.settled_chirho(k as int) by {
                    assert(before.queue_chirho@[0] == p);
                    if before.queue_chirho@.contains(k) {
                        let t = choose|t: int| 0 <= t < before.queue_chirho@.len() && before.queue_chirho@[t] == k;
                        if t > 0 {
                            assert(self.queue_chirho@[t - 1] == k);
                        }
                    }
                    assert(!before.queue_chirho@.contains(k));
                    assert(before.settled_chirho(k as int));
                    Self::lemma_settled_same_chirho(&before, &*self, k as int);
                }
            }
            let ghost mid = self.cell_views_chirho();
            assert(mid == before.cell_views_chirho());
            let ghost pre = *self;
            self.run_propagator_chirho(p);
            proof {
                lemma_grows_trans_chirho::<L>(old(self).cell_views_chirho(), mid, self.cell_views_chirho());
                let ran0 = ran;
                let views0 = views;
                assert(pre.run_step_chirho(p as int, mid, self.cell_views_chirho()));
                Self::lemma_run_step_same_chirho(&pre, &*old(self), p as int, mid, self.cell_views_chirho());
                Self::lemma_runs_push_chirho(&*old(self), ran0, views0, p, self.cell_views_chirho());
                ran = ran0.push(p);
                views = views0.push(self.cell_views_chirho());
            }
        }
        let np = self.propagators_chirho.len();
        proof {
            if self.queue_chirho@.len() == 0 {
                assert(np == self.propagators_chirho@.len());
                assert forall|k: int| 0 <= k < self.propagators_chirho@.len() implies #[trigger] self.settled_chirho(k) by {
                    assert((k as usize) as int == k);
                    assert(!self.queue_chirho@.contains(k as usize));
                }
            }
        }
    }

    /// Returns the number of propagator runs performed.
    pub fn propagation_count_chirho(&self) -> (r: usize)
        ensures
            r == self.propagation_count_spec_chirho(),
    {
        self.propagation_count_chirho
    }

    /// Returns true if any cell is in contradiction.
    pub fn has_contradiction_chirho(&self) -> (r: bool)
        ensures
            r == exists|i: int| 0 <= i < self.cells_spec_chirho().len() && L::spec_is_top_chirho(#[trigger] self.cell_views_chirho()[i]),
    {
        let mut i: usize = 0;
        while i < self.cells_chirho.len()
            invariant
                0 <= i <= self.cells_chirho@.len(),
                forall|j: int| 0 <= j < i ==> !L::spec_is_top_chirho(#[trigger] self.cell_views_chirho()[j]),
            decreases self.cells_chirho@.len() - i,
        {
            if self.cells_chirho[i].is_top_chirho() {
                assert(L::spec_is_top_chirho(self.cell_views_chirho()[i as int]));
                return true;
            }
            i = i + 1;
        }
        false
    }

    /// Returns the number of cells.
    pub fn cell_count_chirho(&self) -> (r: usize)
        ensures
            r == self.cells_spec_chirho().len(),
    {
        self.cells_chirho.len()
    }

    /// Returns the number of propagators.
    pub fn propagator_count_chirho(&self) -> (r: usize)
        ensures
            r == self.propagator_count_spec_chirho(),
    {
        self.propagators_chirho.len()
    }
}

impl<L: BoundedLatticeChirho + 'static> Default for GenericNetworkChirho<L> {
    fn default() -> (r: Self)
        ensures
            r.wf_chirho(),
            r.cells_spec_chirho().len() == 0,
            r.propagator_count_spec_chirho() == 0,
            r.queue_spec_chirho().len() == 0,
            r.propagation_count_spec_chirho() == 0,
    {
        Self::new_chirho()
    }
}

} // verus!
