//! Cells holding partial information that only grows, with the propagators
//! to alert when it does.

use std::collections::HashSet;
use std::rc::Rc;
use vstd::prelude::*;
use vstd::std_specs::cmp::PartialEqSpec;

use crate::propagator_chirho::PropagatorChirho;
use crate::scheduler_chirho::{SchedulerChirho, SchedulerStatsChirho};

verus! {

broadcast use {vstd::std_specs::hash::group_hash_axioms, vstd::seq_lib::group_filter_ensures};

/// Partial information that can be merged.
///
/// Merging combines what two values say of the same quantity; "nothing" is
/// the absence of information and "contradiction" the impossible value.
pub trait MergeableChirho: Sized + Clone + Default + PartialEq {
    /// The merge of two values.
    spec fn spec_merge_chirho(a: Self, b: Self) -> Self;

    /// Whether a value carries no information.
    spec fn spec_is_nothing_chirho(a: Self) -> bool;

    /// Whether a value is a contradiction.
    spec fn spec_is_contradiction_chirho(a: Self) -> bool;

    /// Merges new information into this value.
    fn merge_chirho(&self, other_chirho: &Self) -> (r: Self)
        ensures
            r == Self::spec_merge_chirho(*self, *other_chirho),
    ;

    /// Returns true if this value carries no information.
    fn is_nothing_chirho(&self) -> (r: bool)
        ensures
            r == Self::spec_is_nothing_chirho(*self),
    ;

    /// Returns true if this value is a contradiction.
    fn is_contradiction_chirho(&self) -> (r: bool)
        ensures
            r == Self::spec_is_contradiction_chirho(*self),
    ;
}

/// A propagator to alert, with the identifier it had when added.
struct NeighborChirho {
    propagator_chirho: Rc<Box<dyn PropagatorChirho>>,
    id_chirho: usize,
}

/// A cell holding partial information.
pub struct CellChirho<T: MergeableChirho> {
    name_chirho: String,
    content_chirho: T,
    /// Propagators to alert when the content changes.
    neighbors_chirho: Vec<NeighborChirho>,
}

/// The scheduler's queue and stats after alerting `ids` in turn.
pub open spec fn alert_all_chirho(q: Seq<usize>, stats: SchedulerStatsChirho, ids: Seq<usize>) -> (Seq<usize>, SchedulerStatsChirho)
    decreases ids.len(),
{
    if ids.len() == 0 {
        (q, stats)
    } else {
        let prev = alert_all_chirho(q, stats, ids.drop_last());
        SchedulerChirho::alerted_spec_chirho(prev.0, prev.1, ids.last())
    }
}

/// A neighbor entry.
fn neighbor_chirho(propagator_chirho: Rc<Box<dyn PropagatorChirho>>, id_chirho: usize) -> (r: NeighborChirho)
    ensures
        r.id_chirho == id_chirho,
{
    NeighborChirho { propagator_chirho, id_chirho }
}

impl<T: MergeableChirho> CellChirho<T> {
    /// The cell's name.
    pub closed spec fn name_spec_chirho(&self) -> Seq<char> {
        self.name_chirho@
    }

    /// The cell's content.
    pub closed spec fn content_spec_chirho(&self) -> T {
        self.content_chirho
    }

    /// The identifiers of the neighbors, in the order added.
    pub closed spec fn neighbor_ids_chirho(&self) -> Seq<usize> {
        self.neighbors_chirho@.map_values(|n: NeighborChirho| n.id_chirho)
    }

    /// Creates a cell with the default ("nothing") content.
    pub fn new_chirho(name_chirho: &str) -> (r: Self)
        ensures
            r.name_spec_chirho() == name_chirho@,
            r.neighbor_ids_chirho().len() == 0,
            call_ensures(T::default, (), r.content_spec_chirho()),
    {
        let name = <String as vstd::string::StringExecFns>::from_str(name_chirho);
        let content = T::default();
        assert(call_ensures(T::default, (), content));
        let r = CellChirho { name_chirho: name, content_chirho: content, neighbors_chirho: Vec::new() };
        assert(r.neighbor_ids_chirho() =~= Seq::empty());
        r
    }

    /// Creates a cell with the given content.
    pub fn with_content_chirho(name_chirho: &str, content_chirho: T) -> (r: Self)
        ensures
            r.name_spec_chirho() == name_chirho@,
            r.content_spec_chirho() == content_chirho,
            r.neighbor_ids_chirho().len() == 0,
    {
        let name = <String as vstd::string::StringExecFns>::from_str(name_chirho);
        let r = CellChirho { name_chirho: name, content_chirho, neighbors_chirho: Vec::new() };
        assert(r.neighbor_ids_chirho() =~= Seq::empty());
        r
    }

    /// Returns the cell's name.
    pub fn name_chirho(&self) -> (r: &str)
        ensures
            r@ == self.name_spec_chirho(),
    {
        self.name_chirho.as_str()
    }

    /// Returns a clone of the content.
    pub fn content_chirho(&self) -> (r: T)
        ensures
            cloned::<T>(self.content_spec_chirho(), r),
    {
        self.content_chirho.clone()
    }

    /// Merges new information into the cell. When the content changes, every
    /// neighbor is alerted on the scheduler, in the order added.
    ///
    /// Returns true if the content changed.
    pub fn add_content_chirho(&mut self, increment_chirho: T, scheduler_chirho: &mut SchedulerChirho) -> (r: bool)
        ensures
            r ==> final(self).content_spec_chirho() == T::spec_merge_chirho(old(self).content_spec_chirho(), increment_chirho),
            !r ==> final(self).content_spec_chirho() == old(self).content_spec_chirho(),
            T::obeys_eq_spec() ==> r == !T::spec_merge_chirho(old(self).content_spec_chirho(), increment_chirho).eq_spec(
                &old(self).content_spec_chirho(),
            ),
            r ==> (final(scheduler_chirho).queue_spec_chirho(), final(scheduler_chirho).stats_spec_chirho()) == alert_all_chirho(
                old(scheduler_chirho).queue_spec_chirho(),
                old(scheduler_chirho).stats_spec_chirho(),
                old(self).neighbor_ids_chirho(),
            ),
            !r ==> final(scheduler_chirho).queue_spec_chirho() == old(scheduler_chirho).queue_spec_chirho()
                && final(scheduler_chirho).stats_spec_chirho() == old(scheduler_chirho).stats_spec_chirho(),
            final(self).name_spec_chirho() == old(self).name_spec_chirho(),
            final(self).neighbor_ids_chirho() == old(self).neighbor_ids_chirho(),
    {
        let new_content_chirho = self.content_chirho.merge_chirho(&increment_chirho);
        let changed_chirho = !(new_content_chirho == self.content_chirho);
        if changed_chirho {
            self.content_chirho = new_content_chirho;
            let ghost ids = self.neighbor_ids_chirho();
            let mut i: usize = 0;
            while i < self.neighbors_chirho.len()
                invariant
                    0 <= i <= self.neighbors_chirho@.len(),
                    ids == self.neighbor_ids_chirho(),
                    ids == old(self).neighbor_ids_chirho(),
                    (scheduler_chirho.queue_spec_chirho(), scheduler_chirho.stats_spec_chirho()) == alert_all_chirho(
                        old(scheduler_chirho).queue_spec_chirho(),
                        old(scheduler_chirho).stats_spec_chirho(),
                        ids.subrange(0, i as int),
                    ),
                decreases self.neighbors_chirho@.len() - i,
            {
                scheduler_chirho.alert_id_chirho(self.neighbors_chirho[i].id_chirho);
                i = i + 1;
                proof {
                    assert(ids.subrange(0, i as int).drop_last() =~= ids.subrange(0, i - 1));
                }
            }
            proof {
                assert(ids.subrange(0, i as int) =~= ids);
            }
        }
        changed_chirho
    }

    /// Adds a propagator to alert when the content changes.
    pub fn add_neighbor_chirho(&mut self, propagator_chirho: Rc<Box<dyn PropagatorChirho>>)
        ensures
            exists|id: usize| final(self).neighbor_ids_chirho() == #[trigger] old(self).neighbor_ids_chirho().push(id),
            final(self).name_spec_chirho() == old(self).name_spec_chirho(),
            final(self).content_spec_chirho() == old(self).content_spec_chirho(),
    {
        let id_chirho = propagator_chirho.id_chirho();
        self.neighbors_chirho.push(neighbor_chirho(propagator_chirho, id_chirho));
        assert(self.neighbor_ids_chirho() =~= old(self).neighbor_ids_chirho().push(id_chirho));
    }

    /// Keeps the neighbors that `keep` accepts, in order.
    fn retain_neighbors_chirho(&mut self, Ghost(keep): Ghost<spec_fn(usize) -> bool>, ids_chirho: &HashSet<usize>, single_chirho: Option<usize>)
        requires
            forall|x: usize| #[trigger] keep(x) == match single_chirho {
                Some(y) => x != y,
                None => !ids_chirho@.contains(x),
            },
        ensures
            final(self).neighbor_ids_chirho() == old(self).neighbor_ids_chirho().filter(keep),
            final(self).name_spec_chirho() == old(self).name_spec_chirho(),
            final(self).content_spec_chirho() == old(self).content_spec_chirho(),
    {
        let ghost ids = self.neighbor_ids_chirho();
        let mut kept: Vec<NeighborChirho> = Vec::new();
        let mut old_neighbors: Vec<NeighborChirho> = Vec::new();
        std::mem::swap(&mut old_neighbors, &mut self.neighbors_chirho);
        let n = old_neighbors.len();
        let mut i: usize = 0;
        while i < n
            invariant
                0 <= i <= n,
                n == old_neighbors@.len(),
                old_neighbors@.map_values(|x: NeighborChirho| x.id_chirho) == ids,
                kept@.map_values(|x: NeighborChirho| x.id_chirho) == ids.subrange(0, i as int).filter(keep),
                forall|x: usize| #[trigger] keep(x) == match single_chirho {
                    Some(y) => x != y,
                    None => !ids_chirho@.contains(x),
                },
            decreases n - i,
        {
            let e = &old_neighbors[i];
            let keep_it = match single_chirho {
                Some(y) => e.id_chirho != y,
                None => !ids_chirho.contains(&e.id_chirho),
            };
            proof {
                assert(ids.subrange(0, i + 1) =~= ids.subrange(0, i as int).push(ids[i as int]));
                ids.subrange(0, i as int).lemma_filter_push(ids[i as int], keep);
                assert(ids[i as int] == e.id_chirho);
            }
            if keep_it {
                kept.push(neighbor_chirho(e.propagator_chirho.clone(), e.id_chirho));
                assert(kept@.map_values(|x: NeighborChirho| x.id_chirho) =~= ids.subrange(0, i as int).filter(keep).push(ids[i as int]));
            }
            i = i + 1;
        }
        assert(ids.subrange(0, n as int) =~= ids);
        self.neighbors_chirho = kept;
    }

    /// Removes the neighbors with the given identifier; returns true if any was removed.
    pub fn remove_neighbor_chirho(&mut self, propagator_id_chirho: usize) -> (r: bool)
        ensures
            final(self).neighbor_ids_chirho() == old(self).neighbor_ids_chirho().filter(|x: usize| x != propagator_id_chirho),
            r == (final(self).neighbor_ids_chirho().len() < old(self).neighbor_ids_chirho().len()),
            final(self).name_spec_chirho() == old(self).name_spec_chirho(),
            final(self).content_spec_chirho() == old(self).content_spec_chirho(),
    {
        let len_before_chirho = self.neighbors_chirho.len();
        let no_ids: HashSet<usize> = HashSet::new();
        self.retain_neighbors_chirho(Ghost(|x: usize| x != propagator_id_chirho), &no_ids, Some(propagator_id_chirho));
        self.neighbors_chirho.len() < len_before_chirho
    }

    /// Removes the neighbors whose identifier is in the set; returns how many were removed.
    pub fn remove_neighbors_chirho(&mut self, propagator_ids_chirho: &HashSet<usize>) -> (r: usize)
        ensures
            final(self).neighbor_ids_chirho() == old(self).neighbor_ids_chirho().filter(|x: usize| !propagator_ids_chirho@.contains(x)),
            r == old(self).neighbor_ids_chirho().len() - final(self).neighbor_ids_chirho().len(),
            final(self).name_spec_chirho() == old(self).name_spec_chirho(),
            final(self).content_spec_chirho() == old(self).content_spec_chirho(),
    {
        let len_before_chirho = self.neighbors_chirho.len();
        self.retain_neighbors_chirho(Ghost(|x: usize| !propagator_ids_chirho@.contains(x)), propagator_ids_chirho, None);
        proof {
            assert(old(self).neighbor_ids_chirho().filter(|x: usize| !propagator_ids_chirho@.contains(x)).len() <= old(self).neighbor_ids_chirho().len());
        }
        len_before_chirho - self.neighbors_chirho.len()
    }

    /// Returns true if the content carries no information.
    pub fn is_nothing_chirho(&self) -> (r: bool)
        ensures
            r == T::spec_is_nothing_chirho(self.content_spec_chirho()),
    {
        self.content_chirho.is_nothing_chirho()
    }

    /// Returns true if the content is a contradiction.
    pub fn is_contradiction_chirho(&self) -> (r: bool)
        ensures
            r == T::spec_is_contradiction_chirho(self.content_spec_chirho()),
    {
        self.content_chirho.is_contradiction_chirho()
    }

    /// Returns the number of neighbors.
    pub fn neighbor_count_chirho(&self) -> (r: usize)
        ensures
            r == self.neighbor_ids_chirho().len(),
    {
        self.neighbors_chirho.len()
    }
}

} // verus!
