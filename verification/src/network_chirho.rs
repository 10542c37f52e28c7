//! One node of a distributed propagator network: shared cells whose content
//! only grows by merging, a Lamport clock, the updates waiting to be sent,
//! and the answers to the messages nodes exchange. Sending and receiving
//! is left to a transport around the node.

use vstd::prelude::*;
use vstd::pervasive::VecAdditionalExecFns;
use vstd::std_specs::cmp::PartialEqSpec;

use crate::cell_chirho::MergeableChirho;
use crate::distributed_chirho::CellIdChirho;
use crate::name_set_chirho::NameSetChirho;

verus! {

/// A versioned cell update for distributed synchronization.
#[derive(Clone, Debug)]
pub struct CellUpdateChirho<T> {
    /// The cell being updated.
    pub cell_id_chirho: CellIdChirho,
    /// The new information to merge.
    pub info_chirho: T,
    /// Logical timestamp (Lamport clock).
    pub timestamp_chirho: u64,
    /// The node that originated this update.
    pub origin_chirho: String,
}

/// Messages exchanged between distributed nodes.
#[derive(Clone, Debug)]
pub enum NetworkMessageChirho<T> {
    /// Request to sync all cell states.
    SyncRequestChirho {
        /// The requesting node's ID.
        from_chirho: String,
        /// Cells the requester knows about, with their timestamps.
        known_cells_chirho: Vec<(CellIdChirho, u64)>,
    },
    /// Response with cell updates.
    SyncResponseChirho {
        /// The responding node's ID.
        from_chirho: String,
        /// Updates for cells the requester needs.
        updates_chirho: Vec<CellUpdateChirho<T>>,
    },
    /// A single cell update (for incremental sync).
    UpdateChirho(CellUpdateChirho<T>),
    /// Heartbeat to maintain connection.
    HeartbeatChirho {
        /// The sender's node ID.
        from_chirho: String,
        /// Current logical time.
        timestamp_chirho: u64,
    },
    /// Request to subscribe to updates for specific cells.
    SubscribeChirho {
        /// The subscribing node's ID.
        from_chirho: String,
        /// Cells to subscribe to.
        cells_chirho: Vec<CellIdChirho>,
    },
}

/// An update as plain values: cell name, information, timestamp, origin.
pub open spec fn update_view_chirho<T>(u: CellUpdateChirho<T>) -> (Seq<char>, T, u64, Seq<char>) {
    (u.cell_id_chirho.name_chirho@, u.info_chirho, u.timestamp_chirho, u.origin_chirho@)
}

/// Updates as plain values.
pub open spec fn updates_view_chirho<T>(us: Seq<CellUpdateChirho<T>>) -> Seq<(Seq<char>, T, u64, Seq<char>)> {
    us.map_values(|u: CellUpdateChirho<T>| update_view_chirho(u))
}

/// The state of a shared cell.
pub struct CellStateChirho<T> {
    /// The cell's name.
    pub name: Seq<char>,
    /// Its content.
    pub content: T,
    /// The timestamp of its last change.
    pub timestamp: u64,
    /// The nodes subscribed to it.
    pub subscribers: Set<Seq<char>>,
}

/// The larger of two timestamps.
pub open spec fn later_chirho(a: u64, b: u64) -> u64 {
    if a >= b {
        a
    } else {
        b
    }
}

/// `after` is `before` with `info` merged in at time `t`; `changed` says
/// whether the content changed, in which case the timestamp moves on to
/// `t` if that is later.
pub open spec fn merged_chirho<T: MergeableChirho>(
    before: CellStateChirho<T>,
    info: T,
    t: u64,
    after: CellStateChirho<T>,
    changed: bool,
) -> bool {
    let m = T::spec_merge_chirho(before.content, info);
    &&& after.name == before.name
    &&& after.subscribers == before.subscribers
    &&& changed ==> after.content == m && after.timestamp == later_chirho(before.timestamp, t)
    &&& !changed ==> after.content == before.content && after.timestamp == before.timestamp
    &&& T::obeys_eq_spec() ==> changed == !m.eq_spec(&before.content)
}

/// A new cell: the given name, content `d`, timestamp 0, no subscribers.
pub open spec fn fresh_cell_chirho<T>(name: Seq<char>, d: T) -> CellStateChirho<T> {
    CellStateChirho { name, content: d, timestamp: 0, subscribers: Set::empty() }
}

/// A cell that can be synchronized across distributed nodes.
pub struct DistributedCellChirho<T> {
    /// The cell's unique ID.
    pub id_chirho: CellIdChirho,
    /// Current content.
    content_chirho: T,
    /// Last update timestamp.
    timestamp_chirho: u64,
    /// Nodes that have subscribed to this cell.
    subscribers_chirho: NameSetChirho,
}

impl<T> View for DistributedCellChirho<T> {
    type V = CellStateChirho<T>;

    closed spec fn view(&self) -> CellStateChirho<T> {
        CellStateChirho {
            name: self.id_chirho.name_chirho@,
            content: self.content_chirho,
            timestamp: self.timestamp_chirho,
            subscribers: self.subscribers_chirho@,
        }
    }
}

impl<T: MergeableChirho + Copy> DistributedCellChirho<T> {
    /// Creates a cell with the default content, timestamp 0 and no
    /// subscribers.
    pub fn new_chirho(name_chirho: &str) -> (r: Self)
        ensures
            r@.name == name_chirho@,
            r@.timestamp == 0,
            r@.subscribers == Set::<Seq<char>>::empty(),
            call_ensures(T::default, (), r@.content),
    {
        DistributedCellChirho {
            id_chirho: CellIdChirho::new_chirho(name_chirho),
            content_chirho: T::default(),
            timestamp_chirho: 0,
            subscribers_chirho: NameSetChirho::new_chirho(),
        }
    }

    /// Gets the current content.
    pub fn content_chirho(&self) -> (r: T)
        ensures
            r == self@.content,
    {
        self.content_chirho
    }

    /// Gets the timestamp of the last change.
    pub fn timestamp_chirho(&self) -> (r: u64)
        ensures
            r == self@.timestamp,
    {
        self.timestamp_chirho
    }

    /// Merges new information into the cell at time `timestamp`; returns
    /// true if the content changed.
    pub fn merge_chirho(&mut self, info_chirho: T, timestamp_chirho: u64) -> (r: bool)
        ensures
            merged_chirho(old(self)@, info_chirho, timestamp_chirho, final(self)@, r),
    {
        let new_content_chirho = self.content_chirho.merge_chirho(&info_chirho);
        let changed_chirho = !(new_content_chirho == self.content_chirho);
        if changed_chirho {
            self.content_chirho = new_content_chirho;
            if timestamp_chirho > self.timestamp_chirho {
                self.timestamp_chirho = timestamp_chirho;
            }
        }
        changed_chirho
    }

    /// Adds a subscriber.
    pub fn add_subscriber_chirho(&mut self, node_id_chirho: String)
        ensures
            final(self)@ == (CellStateChirho { subscribers: old(self)@.subscribers.insert(node_id_chirho@), ..old(self)@ }),
    {
        self.subscribers_chirho.insert_chirho(node_id_chirho);
    }

    /// Gets the subscribers, in the order they first subscribed.
    pub fn subscribers_chirho(&self) -> (r: Vec<String>)
        ensures
            r@.map_values(|n: String| n@).to_set() == self@.subscribers,
            r@.map_values(|n: String| n@).no_duplicates(),
    {
        self.subscribers_chirho.names_chirho()
    }
}

/// The state of a node: its id, its cells, its clock and the updates
/// waiting to be sent.
pub struct NodeStateChirho<T> {
    /// The node's id.
    pub node_id: Seq<char>,
    /// The shared cells, in the order created.
    pub cells: Seq<CellStateChirho<T>>,
    /// The Lamport clock.
    pub clock: u64,
    /// Updates waiting to be sent, oldest first.
    pub pending: Seq<(Seq<char>, T, u64, Seq<char>)>,
}

/// Some cell has the name.
pub open spec fn has_cell_chirho<T>(cells: Seq<CellStateChirho<T>>, name: Seq<char>) -> bool {
    exists|i: int| 0 <= i < cells.len() && #[trigger] cells[i].name == name
}

/// No two cells share a name.
pub open spec fn distinct_names_chirho<T>(cells: Seq<CellStateChirho<T>>) -> bool {
    forall|i: int, j: int| 0 <= i < cells.len() && 0 <= j < cells.len() && i != j ==> #[trigger] cells[i].name != #[trigger] cells[j].name
}

/// `after` is `before` with one update handled: the clock moves past both
/// its own time and the update's, and the update is merged into the cell
/// it names, which is first created, with default content, if missing.
pub open spec fn update_step_chirho<T: MergeableChirho>(
    before: NodeStateChirho<T>,
    u: (Seq<char>, T, u64, Seq<char>),
    after: NodeStateChirho<T>,
) -> bool {
    &&& after.node_id == before.node_id
    &&& after.pending == before.pending
    &&& after.clock == later_chirho(before.clock, u.2) + 1
    &&& forall|i: int|
        0 <= i < before.cells.len() && #[trigger] before.cells[i].name == u.0 ==> {
            &&& after.cells.len() == before.cells.len()
            &&& (exists|changed: bool| merged_chirho(before.cells[i], u.1, u.2, after.cells[i], changed))
            &&& forall|j: int| 0 <= j < before.cells.len() && j != i ==> after.cells[j] == before.cells[j]
        }
    &&& !has_cell_chirho(before.cells, u.0) ==> {
        &&& after.cells.len() == before.cells.len() + 1
        &&& after.cells.take(before.cells.len() as int) == before.cells
        &&& exists|d: T, changed: bool| call_ensures(T::default, (), d) && merged_chirho(
            fresh_cell_chirho(u.0, d),
            u.1,
            u.2,
            after.cells.last(),
            changed,
        )
    }
}

/// `after` is `before` with the updates handled one after another.
pub open spec fn updates_applied_chirho<T: MergeableChirho>(
    before: NodeStateChirho<T>,
    us: Seq<(Seq<char>, T, u64, Seq<char>)>,
    after: NodeStateChirho<T>,
) -> bool
    decreases us.len(),
{
    if us.len() == 0 {
        after == before
    } else {
        exists|mid: NodeStateChirho<T>| updates_applied_chirho(before, us.drop_last(), mid) && #[trigger] update_step_chirho(mid, us.last(), after)
    }
}

/// Handling one more update after some extends the updates handled.
proof fn lemma_applied_step_chirho<T: MergeableChirho>(
    before: NodeStateChirho<T>,
    us: Seq<(Seq<char>, T, u64, Seq<char>)>,
    mid: NodeStateChirho<T>,
    u: (Seq<char>, T, u64, Seq<char>),
    after: NodeStateChirho<T>,
)
    requires
        updates_applied_chirho(before, us, mid),
        update_step_chirho(mid, u, after),
    ensures
        updates_applied_chirho(before, us.push(u), after),
{
    let us2 = us.push(u);
    assert(us2.drop_last() =~= us);
    assert(us2.last() == u);
    assert(us2.len() > 0);
    assert(updates_applied_chirho(before, us2.drop_last(), mid) && update_step_chirho(mid, us2.last(), after));
}

/// The timestamp `known` lists for a name (its first listing), or 0.
pub open spec fn known_timestamp_chirho(known: Seq<(Seq<char>, u64)>, name: Seq<char>) -> u64
    decreases known.len(),
{
    if known.len() == 0 {
        0
    } else if known[0].0 == name {
        known[0].1
    } else {
        known_timestamp_chirho(known.drop_first(), name)
    }
}

/// The updates a node with these cells sends in answer to a sync request:
/// each cell newer than the requester knows it, in order, from `origin`.
pub open spec fn sync_updates_chirho<T>(
    cells: Seq<CellStateChirho<T>>,
    known: Seq<(Seq<char>, u64)>,
    origin: Seq<char>,
) -> Seq<(Seq<char>, T, u64, Seq<char>)>
    decreases cells.len(),
{
    if cells.len() == 0 {
        Seq::empty()
    } else {
        let prev = sync_updates_chirho(cells.drop_last(), known, origin);
        let c = cells.last();
        if c.timestamp > known_timestamp_chirho(known, c.name) {
            prev.push((c.name, c.content, c.timestamp, origin))
        } else {
            prev
        }
    }
}

/// Known cells as plain values.
pub open spec fn known_view_chirho(known: Seq<(CellIdChirho, u64)>) -> Seq<(Seq<char>, u64)> {
    known.map_values(|k: (CellIdChirho, u64)| (k.0.name_chirho@, k.1))
}

/// Cell ids as names.
pub open spec fn ids_view_chirho(ids: Seq<CellIdChirho>) -> Seq<Seq<char>> {
    ids.map_values(|c: CellIdChirho| c.name_chirho@)
}

/// The cells with `from` subscribed to each cell named in `names`.
pub open spec fn subscribed_chirho<T>(cells: Seq<CellStateChirho<T>>, names: Seq<Seq<char>>, from: Seq<char>) -> Seq<CellStateChirho<T>> {
    cells.map_values(
        |c: CellStateChirho<T>|
            if names.contains(c.name) {
                CellStateChirho { subscribers: c.subscribers.insert(from), ..c }
            } else {
                c
            },
    )
}

/// The clock has room for handling the message: it and every timestamp in
/// it stay below the largest clock value by more than the number of
/// updates it carries.
pub open spec fn clock_room_chirho<T>(clock: u64, msg: NetworkMessageChirho<T>) -> bool {
    match msg {
        NetworkMessageChirho::UpdateChirho(u) => clock < u64::MAX && u.timestamp_chirho < u64::MAX,
        NetworkMessageChirho::SyncResponseChirho { updates_chirho, .. } => {
            &&& clock + updates_chirho@.len() <= u64::MAX
            &&& forall|i: int| 0 <= i < updates_chirho@.len() ==> #[trigger] updates_chirho@[i].timestamp_chirho + updates_chirho@.len()
                <= u64::MAX
        },
        _ => true,
    }
}

/// One node of a distributed network.
pub struct NetworkNodeChirho<T> {
    /// This node's ID.
    node_id_chirho: String,
    /// Shared cells, in the order created, no two with the same name.
    cells_chirho: Vec<DistributedCellChirho<T>>,
    /// Lamport clock for ordering.
    logical_clock_chirho: u64,
    /// Pending updates to broadcast.
    pending_updates_chirho: Vec<CellUpdateChirho<T>>,
}

impl<T> View for NetworkNodeChirho<T> {
    type V = NodeStateChirho<T>;

    closed spec fn view(&self) -> NodeStateChirho<T> {
        NodeStateChirho {
            node_id: self.node_id_chirho@,
            cells: self.cells_chirho@.map_values(|c: DistributedCellChirho<T>| c@),
            clock: self.logical_clock_chirho,
            pending: updates_view_chirho(self.pending_updates_chirho@),
        }
    }
}

impl<T: MergeableChirho + Copy> NetworkNodeChirho<T> {
    /// No two cells share a name.
    pub open spec fn wf_chirho(&self) -> bool {
        distinct_names_chirho(self@.cells)
    }

    /// Creates a node with no cells, its clock at 0.
    pub fn new_chirho(node_id_chirho: &str) -> (r: Self)
        ensures
            r@.node_id == node_id_chirho@,
            r@.cells.len() == 0,
            r@.clock == 0,
            r@.pending.len() == 0,
            r.wf_chirho(),
    {
        let r = NetworkNodeChirho {
            node_id_chirho: <String as vstd::string::StringExecFns>::from_str(node_id_chirho),
            cells_chirho: Vec::new(),
            logical_clock_chirho: 0,
            pending_updates_chirho: Vec::new(),
        };
        assert(r@.cells =~= Seq::<CellStateChirho<T>>::empty());
        assert(r@.pending =~= Seq::<(Seq<char>, T, u64, Seq<char>)>::empty());
        r
    }

    /// The position of the cell with the given name, if any.
    fn find_cell_chirho(&self, name_chirho: &String) -> (r: Option<usize>)
        ensures
            match r {
                Some(i) => i < self@.cells.len() && self@.cells[i as int].name == name_chirho@,
                None => !has_cell_chirho(self@.cells, name_chirho@),
            },
    {
        let mut i: usize = 0;
        while i < self.cells_chirho.len()
            invariant
                0 <= i <= self.cells_chirho@.len(),
                forall|j: int| 0 <= j < i ==> #[trigger] self@.cells[j].name != name_chirho@,
            decreases self.cells_chirho@.len() - i,
        {
            if self.cells_chirho[i].id_chirho.name_chirho == *name_chirho {
                assert(self@.cells[i as int] == self.cells_chirho@[i as int]@);
                return Some(i);
            }
            assert(self@.cells[i as int] == self.cells_chirho@[i as int]@);
            i = i + 1;
        }
        None
    }

    /// Creates a shared cell with the default content, replacing the
    /// cell of the same name if there is one; returns its id.
    pub fn make_shared_cell_chirho(&mut self, name_chirho: &str) -> (r: CellIdChirho)
        requires
            old(self).wf_chirho(),
        ensures
            final(self).wf_chirho(),
            r.name_chirho@ == name_chirho@,
            final(self)@.node_id == old(self)@.node_id,
            final(self)@.clock == old(self)@.clock,
            final(self)@.pending == old(self)@.pending,
            exists|d: T|
                call_ensures(T::default, (), d) && final(self)@.cells == (if has_cell_chirho(old(self)@.cells, name_chirho@) {
                    old(self)@.cells.update(
                        choose|i: int| 0 <= i < old(self)@.cells.len() && #[trigger] old(self)@.cells[i].name == name_chirho@,
                        fresh_cell_chirho(name_chirho@, d),
                    )
                } else {
                    old(self)@.cells.push(fresh_cell_chirho(name_chirho@, d))
                }),
    {
        let cell_id_chirho = CellIdChirho::new_chirho(name_chirho);
        let mut cell_chirho = DistributedCellChirho::new_chirho(name_chirho);
        let ghost d = cell_chirho@.content;
        assert(cell_chirho@ == fresh_cell_chirho(name_chirho@, d));
        match self.find_cell_chirho(&cell_id_chirho.name_chirho) {
            Some(i) => {
                let ghost k = choose|k: int| 0 <= k < old(self)@.cells.len() && #[trigger] old(self)@.cells[k].name == name_chirho@;
                assert(k == i);
                self.cells_chirho.set_and_swap(i, &mut cell_chirho);
                assert(self@.cells =~= old(self)@.cells.update(i as int, fresh_cell_chirho(name_chirho@, d)));
            },
            None => {
                self.cells_chirho.push(cell_chirho);
                assert(self@.cells =~= old(self)@.cells.push(fresh_cell_chirho(name_chirho@, d)));
            },
        }
        cell_id_chirho
    }

    /// Adds information to a cell: the clock ticks, and if the cell
    /// exists and its content changes, an update is queued for broadcast.
    pub fn add_info_chirho(&mut self, cell_id_chirho: &CellIdChirho, info_chirho: T)
        requires
            old(self).wf_chirho(),
            old(self)@.clock < u64::MAX,
        ensures
            final(self).wf_chirho(),
            final(self)@.node_id == old(self)@.node_id,
            final(self)@.clock == old(self)@.clock + 1,
            final(self)@.cells.len() == old(self)@.cells.len(),
            !has_cell_chirho(old(self)@.cells, cell_id_chirho.name_chirho@) ==> final(self)@.cells == old(self)@.cells
                && final(self)@.pending == old(self)@.pending,
            forall|i: int|
                0 <= i < old(self)@.cells.len() && #[trigger] old(self)@.cells[i].name == cell_id_chirho.name_chirho@ ==> {
                    &&& forall|j: int| 0 <= j < old(self)@.cells.len() && j != i ==> final(self)@.cells[j] == old(self)@.cells[j]
                    &&& exists|changed: bool| {
                        &&& merged_chirho(old(self)@.cells[i], info_chirho, final(self)@.clock, final(self)@.cells[i], changed)
                        &&& final(self)@.pending == (if changed {
                            old(self)@.pending.push((cell_id_chirho.name_chirho@, info_chirho, final(self)@.clock, old(self)@.node_id))
                        } else {
                            old(self)@.pending
                        })
                    }
                },
    {
        self.logical_clock_chirho = self.logical_clock_chirho + 1;
        match self.find_cell_chirho(&cell_id_chirho.name_chirho) {
            Some(i) => {
                let mut cell_chirho = DistributedCellChirho::new_chirho("");
                self.cells_chirho.set_and_swap(i, &mut cell_chirho);
                let changed_chirho = cell_chirho.merge_chirho(info_chirho, self.logical_clock_chirho);
                let ghost merged_cell = cell_chirho@;
                self.cells_chirho.set_and_swap(i, &mut cell_chirho);
                assert(self@.cells =~= old(self)@.cells.update(i as int, merged_cell));
                if changed_chirho {
                    let update_chirho = CellUpdateChirho {
                        cell_id_chirho: cell_id_chirho.clone(),
                        info_chirho,
                        timestamp_chirho: self.logical_clock_chirho,
                        origin_chirho: self.node_id_chirho.clone(),
                    };
                    self.pending_updates_chirho.push(update_chirho);
                    assert(self@.pending =~= old(self)@.pending.push(
                        (cell_id_chirho.name_chirho@, info_chirho, self@.clock, old(self)@.node_id),
                    ));
                }
                assert(merged_chirho(old(self)@.cells[i as int], info_chirho, self@.clock, self@.cells[i as int], changed_chirho));
                assert(self@.pending == (if changed_chirho {
                    old(self)@.pending.push((cell_id_chirho.name_chirho@, info_chirho, self@.clock, old(self)@.node_id))
                } else {
                    old(self)@.pending
                }));
                assert forall|k: int|
                    0 <= k < old(self)@.cells.len() && #[trigger] old(self)@.cells[k].name == cell_id_chirho.name_chirho@ implies k == i by {
                    if k != i {
                        assert(old(self)@.cells[k].name != old(self)@.cells[i as int].name);
                    }
                }
            },
            None => {
                assert(self@.cells =~= old(self)@.cells);
            },
        }
    }

    /// Gets the content of a cell, if it exists.
    pub fn get_content_chirho(&self, cell_id_chirho: &CellIdChirho) -> (r: Option<T>)
        requires
            self.wf_chirho(),
        ensures
            r is None <==> !has_cell_chirho(self@.cells, cell_id_chirho.name_chirho@),
            forall|i: int|
                0 <= i < self@.cells.len() && #[trigger] self@.cells[i].name == cell_id_chirho.name_chirho@ ==> r == Some(
                    self@.cells[i].content,
                ),
    {
        match self.find_cell_chirho(&cell_id_chirho.name_chirho) {
            Some(i) => {
                assert(self@.cells[i as int] == self.cells_chirho@[i as int]@);
                assert forall|k: int|
                    0 <= k < self@.cells.len() && #[trigger] self@.cells[k].name == cell_id_chirho.name_chirho@ implies k == i by {
                    if k != i {
                        assert(self@.cells[k].name != self@.cells[i as int].name);
                    }
                }
                Some(self.cells_chirho[i].content_chirho())
            },
            None => None,
        }
    }

    /// The cell with the given id, if any.
    pub fn get_cell_chirho(&self, cell_id_chirho: &CellIdChirho) -> (r: Option<&DistributedCellChirho<T>>)
        requires
            self.wf_chirho(),
        ensures
            r is None <==> !has_cell_chirho(self@.cells, cell_id_chirho.name_chirho@),
            forall|i: int|
                0 <= i < self@.cells.len() && #[trigger] self@.cells[i].name == cell_id_chirho.name_chirho@ ==> (r matches Some(c)
                    && c@ == self@.cells[i]),
    {
        match self.find_cell_chirho(&cell_id_chirho.name_chirho) {
            Some(i) => {
                assert(self@.cells[i as int] == self.cells_chirho@[i as int]@);
                assert forall|k: int|
                    0 <= k < self@.cells.len() && #[trigger] self@.cells[k].name == cell_id_chirho.name_chirho@ implies k == i by {
                    if k != i {
                        assert(self@.cells[k].name != self@.cells[i as int].name);
                    }
                }
                Some(&self.cells_chirho[i])
            },
            None => None,
        }
    }

    /// Takes the pending updates, oldest first, as messages to broadcast.
    pub fn flush_updates_chirho(&mut self) -> (r: Vec<NetworkMessageChirho<T>>)
        requires
            old(self).wf_chirho(),
        ensures
            final(self).wf_chirho(),
            final(self)@ == (NodeStateChirho { pending: Seq::empty(), ..old(self)@ }),
            r@.len() == old(self)@.pending.len(),
            forall|k: int|
                0 <= k < r@.len() ==> (#[trigger] r@[k] matches NetworkMessageChirho::UpdateChirho(u) && update_view_chirho(u)
                    == old(self)@.pending[k]),
    {
        let mut pending_chirho: Vec<CellUpdateChirho<T>> = Vec::new();
        std::mem::swap(&mut pending_chirho, &mut self.pending_updates_chirho);
        let ghost p = pending_chirho@;
        let mut r: Vec<NetworkMessageChirho<T>> = Vec::new();
        while pending_chirho.len() > 0
            invariant
                r@.len() <= p.len(),
                pending_chirho@ == p.skip(r@.len() as int),
                forall|k: int|
                    0 <= k < r@.len() ==> (#[trigger] r@[k] matches NetworkMessageChirho::UpdateChirho(u) && update_view_chirho(u)
                        == update_view_chirho(p[k])),
            decreases pending_chirho@.len(),
        {
            let ghost done = r@.len();
            let u = pending_chirho.remove(0);
            assert(u == p[done as int]);
            r.push(NetworkMessageChirho::UpdateChirho(u));
            assert(pending_chirho@ =~= p.skip(r@.len() as int));
        }
        proof {
            assert(self@.pending =~= Seq::<(Seq<char>, T, u64, Seq<char>)>::empty());
            assert(self@ =~= (NodeStateChirho { pending: Seq::empty(), ..old(self)@ }));
        }
        r
    }
    /// Handles one update: the clock moves past both its own time and the
    /// update's, and the update is merged into its cell, created if missing.
    fn apply_update_chirho(&mut self, update_chirho: CellUpdateChirho<T>)
        requires
            old(self).wf_chirho(),
            old(self)@.clock < u64::MAX,
            update_chirho.timestamp_chirho < u64::MAX,
        ensures
            final(self).wf_chirho(),
            update_step_chirho(old(self)@, update_view_chirho(update_chirho), final(self)@),
    {
        let t = update_chirho.timestamp_chirho;
        let later = if self.logical_clock_chirho >= t { self.logical_clock_chirho } else { t };
        self.logical_clock_chirho = later + 1;
        let ghost stamped = self@;
        let ghost mut fresh_content: T = vstd::pervasive::arbitrary();
        let found = self.find_cell_chirho(&update_chirho.cell_id_chirho.name_chirho);
        let idx: usize = match found {
            Some(i) => i,
            None => {
                let cell_chirho = DistributedCellChirho::new_chirho(update_chirho.cell_id_chirho.name_chirho.as_str());
                proof {
                    fresh_content = cell_chirho@.content;
                }
                self.cells_chirho.push(cell_chirho);
                proof {
                    assert forall|a: int, b: int|
                        0 <= a < self@.cells.len() && 0 <= b < self@.cells.len() && a != b implies #[trigger] self@.cells[a].name
                        != #[trigger] self@.cells[b].name by {
                        if a < stamped.cells.len() && b < stamped.cells.len() {
                            assert(self@.cells[a] == stamped.cells[a]);
                            assert(self@.cells[b] == stamped.cells[b]);
                        } else if a < stamped.cells.len() {
                            assert(self@.cells[a] == stamped.cells[a]);
                        } else {
                            assert(self@.cells[b] == stamped.cells[b]);
                        }
                    }
                }
                self.cells_chirho.len() - 1
            },
        };
        let ghost with_cell = self@;
        let mut cell_chirho = DistributedCellChirho::new_chirho("");
        self.cells_chirho.set_and_swap(idx, &mut cell_chirho);
        let ghost before_merge = cell_chirho@;
        assert(before_merge == with_cell.cells[idx as int]);
        let changed_chirho = cell_chirho.merge_chirho(update_chirho.info_chirho, t);
        let ghost merged_cell = cell_chirho@;
        self.cells_chirho.set_and_swap(idx, &mut cell_chirho);
        proof {
            assert(self@.cells =~= with_cell.cells.update(idx as int, merged_cell));
            assert(merged_chirho(with_cell.cells[idx as int], update_chirho.info_chirho, t, self@.cells[idx as int], changed_chirho));
            assert forall|a: int, b: int|
                0 <= a < self@.cells.len() && 0 <= b < self@.cells.len() && a != b implies #[trigger] self@.cells[a].name
                != #[trigger] self@.cells[b].name by {
                assert(self@.cells[a].name == with_cell.cells[a].name);
                assert(self@.cells[b].name == with_cell.cells[b].name);
            }
            let u = update_view_chirho(update_chirho);
            match found {
                Some(i) => {
                    assert(with_cell.cells == old(self)@.cells);
                    assert forall|k: int|
                        0 <= k < old(self)@.cells.len() && #[trigger] old(self)@.cells[k].name == u.0 implies k == i by {
                        if k != i {
                            assert(old(self)@.cells[k].name != old(self)@.cells[i as int].name);
                        }
                    }
                    assert(has_cell_chirho(old(self)@.cells, u.0));
                    assert(merged_chirho(old(self)@.cells[i as int], u.1, u.2, self@.cells[i as int], changed_chirho));
                },
                None => {
                    let d = fresh_content;
                    assert(with_cell.cells.last() == fresh_cell_chirho(u.0, d));
                    assert(call_ensures(T::default, (), d));
                    assert(self@.cells.take(old(self)@.cells.len() as int) =~= old(self)@.cells);
                    assert(merged_chirho(fresh_cell_chirho(u.0, d), u.1, u.2, self@.cells.last(), changed_chirho));
                },
            }
        }
    }

    /// The timestamp `known` lists for the name (its first listing), or 0.
    fn known_timestamp_exec_chirho(known_chirho: &Vec<(CellIdChirho, u64)>, name_chirho: &String) -> (r: u64)
        ensures
            r == known_timestamp_chirho(known_view_chirho(known_chirho@), name_chirho@),
    {
        let ghost kv = known_view_chirho(known_chirho@);
        let mut j: usize = 0;
        assert(kv.skip(0) =~= kv);
        while j < known_chirho.len()
            invariant
                0 <= j <= known_chirho@.len(),
                kv == known_view_chirho(known_chirho@),
                known_timestamp_chirho(kv, name_chirho@) == known_timestamp_chirho(kv.skip(j as int), name_chirho@),
            decreases known_chirho@.len() - j,
        {
            let ghost rest = kv.skip(j as int);
            assert(rest[0] == kv[j as int]);
            if known_chirho[j].0.name_chirho == *name_chirho {
                return known_chirho[j].1;
            }
            assert(rest.drop_first() =~= kv.skip(j + 1));
            j = j + 1;
        }
        assert(kv.skip(j as int) =~= Seq::<(Seq<char>, u64)>::empty());
        0
    }

    /// Handles a message from another node and returns the messages to send
    /// in answer, each with the node to send it to. An update is merged in;
    /// a sync response is handled as its updates in turn; a sync request is
    /// answered with an update for each cell newer than the requester knows
    /// it; a heartbeat moves the clock on to its time; a subscription adds
    /// its node to the subscribers of the cells it names that exist.
    pub fn handle_message_chirho(&mut self, from_chirho: &str, message_chirho: NetworkMessageChirho<T>) -> (r: Vec<(String, NetworkMessageChirho<T>)>)
        requires
            old(self).wf_chirho(),
            clock_room_chirho(old(self)@.clock, message_chirho),
        ensures
            final(self).wf_chirho(),
            match message_chirho {
                NetworkMessageChirho::UpdateChirho(u) => r@.len() == 0 && update_step_chirho(old(self)@, update_view_chirho(u), final(self)@),
                NetworkMessageChirho::SyncResponseChirho { updates_chirho, .. } => r@.len() == 0 && updates_applied_chirho(
                    old(self)@,
                    updates_view_chirho(updates_chirho@),
                    final(self)@,
                ),
                NetworkMessageChirho::SyncRequestChirho { from_chirho: requester, known_cells_chirho } => {
                    &&& final(self)@ == old(self)@
                    &&& r@.len() == 1
                    &&& r@[0].0@ == requester@
                    &&& r@[0].1 matches NetworkMessageChirho::SyncResponseChirho { from_chirho: f, updates_chirho: us }
                    &&& f@ == old(self)@.node_id
                    &&& updates_view_chirho(us@) == sync_updates_chirho(old(self)@.cells, known_view_chirho(known_cells_chirho@), old(self)@.node_id)
                },
                NetworkMessageChirho::HeartbeatChirho { timestamp_chirho, .. } => r@.len() == 0 && final(self)@ == (NodeStateChirho {
                    clock: later_chirho(old(self)@.clock, timestamp_chirho),
                    ..old(self)@
                }),
                NetworkMessageChirho::SubscribeChirho { from_chirho: subscriber, cells_chirho } => r@.len() == 0 && final(self)@
                    == (NodeStateChirho { cells: subscribed_chirho(old(self)@.cells, ids_view_chirho(cells_chirho@), subscriber@), ..old(self)@ }),
            },
    {
        let mut replies_chirho: Vec<(String, NetworkMessageChirho<T>)> = Vec::new();
        match message_chirho {
            NetworkMessageChirho::UpdateChirho(update_chirho) => {
                self.apply_update_chirho(update_chirho);
            },
            NetworkMessageChirho::SyncResponseChirho { from_chirho: _, updates_chirho } => {
                let ghost start = self@;
                let ghost all = updates_view_chirho(updates_chirho@);
                let ghost n = updates_chirho@.len();
                let ghost given = updates_chirho@;
                let mut remaining_chirho = updates_chirho;
                let total_chirho = remaining_chirho.len();
                assert(total_chirho == n);
                let mut done: usize = 0;
                assert(all.take(0) =~= Seq::<(Seq<char>, T, u64, Seq<char>)>::empty());
                while remaining_chirho.len() > 0
                    invariant
                        done <= n,
                        n == given.len(),
                        n <= usize::MAX,
                        all == updates_view_chirho(given),
                        remaining_chirho@ == given.skip(done as int),
                        self.wf_chirho(),
                        self@.clock + (n - done) <= u64::MAX,
                        forall|i: int| 0 <= i < n ==> #[trigger] given[i].timestamp_chirho + n <= u64::MAX,
                        updates_applied_chirho(start, all.take(done as int), self@),
                    decreases remaining_chirho@.len(),
                {
                    let ghost prev = self@;
                    let update_chirho = remaining_chirho.remove(0);
                    assert(update_chirho == given[done as int]);
                    self.apply_update_chirho(update_chirho);
                    proof {
                        let next = all.take(done + 1);
                        assert(done < n);
                        assert(next.len() == done + 1);
                        assert(next.drop_last() =~= all.take(done as int));
                        assert(next.last() == update_view_chirho(update_chirho));
                        assert(update_step_chirho(prev, next.last(), self@));
                        assert(next =~= all.take(done as int).push(update_view_chirho(update_chirho)));
                        lemma_applied_step_chirho(start, all.take(done as int), prev, update_view_chirho(update_chirho), self@);
                    }
                    done = done + 1;
                    assert(remaining_chirho@ =~= given.skip(done as int));
                }
                assert(all.take(n as int) =~= all);
            },
            NetworkMessageChirho::SyncRequestChirho { from_chirho: requester_chirho, known_cells_chirho } => {
                let ghost kv = known_view_chirho(known_cells_chirho@);
                let mut updates_chirho: Vec<CellUpdateChirho<T>> = Vec::new();
                let mut i: usize = 0;
                while i < self.cells_chirho.len()
                    invariant
                        0 <= i <= self.cells_chirho@.len(),
                        self@ == old(self)@,
                        kv == known_view_chirho(known_cells_chirho@),
                        updates_view_chirho(updates_chirho@) == sync_updates_chirho(self@.cells.take(i as int), kv, self@.node_id),
                    decreases self.cells_chirho@.len() - i,
                {
                    let ghost cells_before = self@.cells.take(i as int);
                    let ghost cells_after = self@.cells.take(i + 1);
                    assert(cells_after.drop_last() =~= cells_before);
                    assert(cells_after.last() == self.cells_chirho@[i as int]@);
                    let our_ts_chirho = self.cells_chirho[i].timestamp_chirho();
                    let their_ts_chirho = Self::known_timestamp_exec_chirho(&known_cells_chirho, &self.cells_chirho[i].id_chirho.name_chirho);
                    if our_ts_chirho > their_ts_chirho {
                        let ghost before = updates_chirho@;
                        updates_chirho.push(CellUpdateChirho {
                            cell_id_chirho: self.cells_chirho[i].id_chirho.clone(),
                            info_chirho: self.cells_chirho[i].content_chirho(),
                            timestamp_chirho: our_ts_chirho,
                            origin_chirho: self.node_id_chirho.clone(),
                        });
                        assert(updates_view_chirho(updates_chirho@) =~= updates_view_chirho(before).push(update_view_chirho(updates_chirho@.last())));
                    }
                    i = i + 1;
                }
                assert(self@.cells.take(i as int) =~= self@.cells);
                let response_chirho = NetworkMessageChirho::SyncResponseChirho { from_chirho: self.node_id_chirho.clone(), updates_chirho };
                replies_chirho.push((requester_chirho, response_chirho));
            },
            NetworkMessageChirho::HeartbeatChirho { from_chirho: _, timestamp_chirho } => {
                if timestamp_chirho > self.logical_clock_chirho {
                    self.logical_clock_chirho = timestamp_chirho;
                }
                assert(self@ =~= (NodeStateChirho { clock: later_chirho(old(self)@.clock, timestamp_chirho), ..old(self)@ }));
            },
            NetworkMessageChirho::SubscribeChirho { from_chirho: subscriber_chirho, cells_chirho } => {
                let ghost ids = ids_view_chirho(cells_chirho@);
                let mut k: usize = 0;
                assert(subscribed_chirho(old(self)@.cells, ids.take(0), subscriber_chirho@) =~= old(self)@.cells);
                while k < cells_chirho.len()
                    invariant
                        0 <= k <= cells_chirho@.len(),
                        ids == ids_view_chirho(cells_chirho@),
                        self.wf_chirho(),
                        self@ == (NodeStateChirho { cells: subscribed_chirho(old(self)@.cells, ids.take(k as int), subscriber_chirho@), ..old(self)@ }),
                        old(self).wf_chirho(),
                    decreases cells_chirho@.len() - k,
                {
                    let ghost cur = self@;
                    let ghost next_ids = ids.take(k + 1);
                    assert(next_ids =~= ids.take(k as int).push(ids[k as int]));
                    match self.find_cell_chirho(&cells_chirho[k].name_chirho) {
                        Some(i) => {
                            let mut cell_chirho = DistributedCellChirho::new_chirho("");
                            self.cells_chirho.set_and_swap(i, &mut cell_chirho);
                            cell_chirho.add_subscriber_chirho(subscriber_chirho.clone());
                            let ghost updated = cell_chirho@;
                            self.cells_chirho.set_and_swap(i, &mut cell_chirho);
                            proof {
                                assert(self@.cells =~= cur.cells.update(i as int, updated));
                                let target = subscribed_chirho(old(self)@.cells, next_ids, subscriber_chirho@);
                                assert forall|j: int| 0 <= j < self@.cells.len() implies #[trigger] self@.cells[j] == target[j] by {
                                    let oc = old(self)@.cells[j];
                                    assert(cur.cells[j] == subscribed_chirho(old(self)@.cells, ids.take(k as int), subscriber_chirho@)[j]);
                                    if j == i {
                                        assert(next_ids[k as int] == ids[k as int]);
                                        assert(next_ids.contains(ids[k as int]));
                                        if ids.take(k as int).contains(oc.name) {
                                            assert(oc.subscribers.insert(subscriber_chirho@).insert(subscriber_chirho@) =~= oc.subscribers.insert(
                                                subscriber_chirho@,
                                            ));
                                        }
                                    } else {
                                        assert(oc.name != ids[k as int]) by {
                                            assert(old(self)@.cells[j].name != old(self)@.cells[i as int].name);
                                        }
                                        assert(next_ids.contains(oc.name) == ids.take(k as int).contains(oc.name)) by {
                                            if next_ids.contains(oc.name) {
                                                let w = choose|w: int| 0 <= w < next_ids.len() && next_ids[w] == oc.name;
                                                assert(w < k);
                                                assert(ids.take(k as int)[w] == oc.name);
                                            }
                                        }
                                    }
                                }
                                assert(self@.cells =~= target);
                                assert forall|a: int, b: int|
                                    0 <= a < self@.cells.len() && 0 <= b < self@.cells.len() && a != b implies #[trigger] self@.cells[a].name
                                    != #[trigger] self@.cells[b].name by {
                                    assert(self@.cells[a].name == cur.cells[a].name);
                                    assert(self@.cells[b].name == cur.cells[b].name);
                                }
                            }
                        },
                        None => {
                            proof {
                                let target = subscribed_chirho(old(self)@.cells, next_ids, subscriber_chirho@);
                                assert forall|j: int| 0 <= j < self@.cells.len() implies #[trigger] self@.cells[j] == target[j] by {
                                    let oc = old(self)@.cells[j];
                                    assert(cur.cells[j].name == oc.name);
                                    assert(oc.name != ids[k as int]);
                                    assert(next_ids.contains(oc.name) == ids.take(k as int).contains(oc.name)) by {
                                        if next_ids.contains(oc.name) {
                                            let w = choose|w: int| 0 <= w < next_ids.len() && next_ids[w] == oc.name;
                                            assert(w < k);
                                            assert(ids.take(k as int)[w] == oc.name);
                                        }
                                    }
                                }
                                assert(self@.cells =~= target);
                            }
                        },
                    }
                    k = k + 1;
                }
                assert(ids.take(k as int) =~= ids);
            },
        }
        replies_chirho
    }

    /// A request for every peer's newer cells: each cell with its timestamp.
    pub fn request_sync_chirho(&self) -> (r: NetworkMessageChirho<T>)
        ensures
            r matches NetworkMessageChirho::SyncRequestChirho { from_chirho: f, known_cells_chirho: k } && f@ == self@.node_id
                && known_view_chirho(k@) == self@.cells.map_values(|c: CellStateChirho<T>| (c.name, c.timestamp)),
    {
        let mut known_chirho: Vec<(CellIdChirho, u64)> = Vec::new();
        let mut i: usize = 0;
        while i < self.cells_chirho.len()
            invariant
                0 <= i <= self.cells_chirho@.len(),
                known_view_chirho(known_chirho@) == self@.cells.take(i as int).map_values(|c: CellStateChirho<T>| (c.name, c.timestamp)),
            decreases self.cells_chirho@.len() - i,
        {
            let ghost before = known_chirho@;
            known_chirho.push((self.cells_chirho[i].id_chirho.clone(), self.cells_chirho[i].timestamp_chirho()));
            assert(self@.cells[i as int] == self.cells_chirho@[i as int]@);
            assert(known_view_chirho(known_chirho@) =~= known_view_chirho(before).push((self@.cells[i as int].name, self@.cells[i as int].timestamp)));
            assert(self@.cells.take(i + 1).map_values(|c: CellStateChirho<T>| (c.name, c.timestamp)) =~= self@.cells.take(i as int).map_values(
                |c: CellStateChirho<T>| (c.name, c.timestamp),
            ).push((self@.cells[i as int].name, self@.cells[i as int].timestamp)));
            i = i + 1;
        }
        assert(self@.cells.take(i as int) =~= self@.cells);
        NetworkMessageChirho::SyncRequestChirho { from_chirho: self.node_id_chirho.clone(), known_cells_chirho: known_chirho }
    }

    /// Returns the number of cells.
    pub fn cell_count_chirho(&self) -> (r: usize)
        ensures
            r == self@.cells.len(),
    {
        self.cells_chirho.len()
    }

    /// Returns the Lamport clock.
    pub fn logical_clock_chirho(&self) -> (r: u64)
        ensures
            r == self@.clock,
    {
        self.logical_clock_chirho
    }

    /// Returns the node ID.
    pub fn node_id_chirho(&self) -> (r: &str)
        ensures
            r@ == self@.node_id,
    {
        self.node_id_chirho.as_str()
    }
}

} // verus!
