//! Names, keys, errors and configuration for networks spread over nodes.

use vstd::prelude::*;
use vstd::std_specs::cmp::PartialEqSpec;

use crate::cell_chirho::MergeableChirho;
use crate::text_chirho::{decimal_chirho, push_decimal_chirho, push_str_chirho};

verus! {

/// A unique identifier for a cell across the distributed network.
#[derive(Debug, Eq, Hash)]
pub struct CellIdChirho {
    /// The cell's name (must be unique across all nodes).
    pub name_chirho: String,
}

impl CellIdChirho {
    /// Creates a cell identifier.
    pub fn new_chirho(name_chirho: &str) -> (r: Self)
        ensures
            r.name_chirho@ == name_chirho@,
    {
        CellIdChirho { name_chirho: <String as vstd::string::StringExecFns>::from_str(name_chirho) }
    }
}

impl Clone for CellIdChirho {
    fn clone(&self) -> (r: Self)
        ensures
            r == *self,
    {
        CellIdChirho { name_chirho: self.name_chirho.clone() }
    }
}

impl PartialEq for CellIdChirho {
    fn eq(&self, other: &Self) -> (r: bool) {
        self.name_chirho == other.name_chirho
    }
}

impl vstd::std_specs::cmp::PartialEqSpecImpl for CellIdChirho {
    open spec fn obeys_eq_spec() -> bool {
        true
    }

    open spec fn eq_spec(&self, other: &Self) -> bool {
        self.name_chirho@ == other.name_chirho@
    }
}

/// Transport errors.
#[derive(Clone, Debug)]
pub enum TransportErrorChirho {
    /// Connection failed.
    ConnectionFailedChirho(String),
    /// Send failed.
    SendFailedChirho(String),
    /// Peer not found.
    PeerNotFoundChirho(String),
    /// Serialization error.
    SerializationErrorChirho(String),
}

/// The message of a transport error.
pub open spec fn transport_message_chirho(e: TransportErrorChirho) -> Seq<char> {
    match e {
        TransportErrorChirho::ConnectionFailedChirho(m) => "Connection failed: "@ + m@,
        TransportErrorChirho::SendFailedChirho(m) => "Send failed: "@ + m@,
        TransportErrorChirho::PeerNotFoundChirho(p) => "Peer not found: "@ + p@,
        TransportErrorChirho::SerializationErrorChirho(m) => "Serialization error: "@ + m@,
    }
}

impl TransportErrorChirho {
    /// The human-readable message of the error.
    pub fn message_chirho(&self) -> (r: String)
        ensures
            r@ == transport_message_chirho(*self),
    {
        let mut r = String::new();
        match self {
            TransportErrorChirho::ConnectionFailedChirho(m) => {
                push_str_chirho(&mut r, "Connection failed: ");
                push_str_chirho(&mut r, m.as_str());
            },
            TransportErrorChirho::SendFailedChirho(m) => {
                push_str_chirho(&mut r, "Send failed: ");
                push_str_chirho(&mut r, m.as_str());
            },
            TransportErrorChirho::PeerNotFoundChirho(p) => {
                push_str_chirho(&mut r, "Peer not found: ");
                push_str_chirho(&mut r, p.as_str());
            },
            TransportErrorChirho::SerializationErrorChirho(m) => {
                push_str_chirho(&mut r, "Serialization error: ");
                push_str_chirho(&mut r, m.as_str());
            },
        }
        assert(r@ =~= transport_message_chirho(*self));
        r
    }
}

/// A cell's state as a durable object stores it.
pub struct DurableCellStateChirho<T> {
    /// The cell's content.
    pub content_chirho: T,
    /// Lamport timestamp for ordering.
    pub timestamp_chirho: u64,
    /// Last modification time (Unix millis), set by the host.
    pub modified_at_chirho: u64,
    /// Origin node (for distributed setups).
    pub origin_chirho: Option<String>,
}

impl<T: MergeableChirho + Copy> DurableCellStateChirho<T> {
    /// Creates a state with the given content and timestamp, not yet
    /// modified and of no origin.
    pub fn new_chirho(content_chirho: T, timestamp_chirho: u64) -> (r: Self)
        ensures
            r.content_chirho == content_chirho,
            r.timestamp_chirho == timestamp_chirho,
            r.modified_at_chirho == 0,
            r.origin_chirho is None,
    {
        DurableCellStateChirho { content_chirho, timestamp_chirho, modified_at_chirho: 0, origin_chirho: None }
    }

    /// Merges another state in: the contents merge and the timestamp is the
    /// later of the two. Returns true if the content changed.
    pub fn merge_chirho(&mut self, other_chirho: &Self) -> (r: bool)
        ensures
            final(self).content_chirho == T::spec_merge_chirho(old(self).content_chirho, other_chirho.content_chirho),
            final(self).timestamp_chirho == (if old(self).timestamp_chirho >= other_chirho.timestamp_chirho {
                old(self).timestamp_chirho
            } else {
                other_chirho.timestamp_chirho
            }),
            final(self).modified_at_chirho == old(self).modified_at_chirho,
            final(self).origin_chirho == old(self).origin_chirho,
            T::obeys_eq_spec() ==> r == !final(self).content_chirho.eq_spec(&old(self).content_chirho),
    {
        let old_content_chirho = self.content_chirho;
        self.content_chirho = self.content_chirho.merge_chirho(&other_chirho.content_chirho);
        if other_chirho.timestamp_chirho > self.timestamp_chirho {
            self.timestamp_chirho = other_chirho.timestamp_chirho;
        }
        !(self.content_chirho == old_content_chirho)
    }
}

/// The storage key of a cell: `cell:` and its name.
pub fn cell_key_chirho(name_chirho: &str) -> (r: String)
    ensures
        r@ == "cell:"@ + name_chirho@,
{
    let mut r = String::new();
    push_str_chirho(&mut r, "cell:");
    push_str_chirho(&mut r, name_chirho);
    assert(r@ =~= "cell:"@ + name_chirho@);
    r
}

/// Key for storing the list of all cell names.
pub const CELL_INDEX_KEY_CHIRHO: &'static str = "meta:cells";

/// Key for storing the network's Lamport clock.
pub const CLOCK_KEY_CHIRHO: &'static str = "meta:clock";

/// Hints for hibernating a durable object that holds a network.
pub struct HibernationHintsChirho {
    /// Cells that were accessed recently (for prefetching).
    pub hot_cells_chirho: Vec<String>,
    /// Last activity timestamp.
    pub last_activity_chirho: u64,
    /// Number of active subscriptions.
    pub subscriber_count_chirho: usize,
}

impl Default for HibernationHintsChirho {
    fn default() -> (r: Self)
        ensures
            r.hot_cells_chirho@.len() == 0,
            r.last_activity_chirho == 0,
            r.subscriber_count_chirho == 0,
    {
        HibernationHintsChirho { hot_cells_chirho: Vec::new(), last_activity_chirho: 0, subscriber_count_chirho: 0 }
    }
}

/// Strategy for sharding cells across durable objects.
pub enum ShardingStrategyChirho {
    /// All cells in a single object (simplest, for small systems).
    SingleDoChirho,
    /// Hash cell names to determine the object.
    HashBasedChirho {
        /// Number of shards.
        shard_count_chirho: usize,
    },
    /// Cells with the same prefix go to the same object.
    PrefixBasedChirho {
        /// Delimiter for prefix extraction.
        delimiter_chirho: String,
    },
    /// Explicit cell-to-object mapping.
    ExplicitChirho {
        /// Mapping from cell patterns to object names.
        mapping_chirho: Vec<(String, String)>,
    },
}

/// Configuration for coordinating several durable objects.
pub struct MultiDoConfigChirho {
    /// How to shard cells across objects.
    pub sharding_chirho: ShardingStrategyChirho,
    /// Sync interval for cross-object propagation (milliseconds).
    pub sync_interval_ms_chirho: u64,
    /// Maximum cells per object before splitting.
    pub max_cells_per_do_chirho: usize,
}

impl Default for MultiDoConfigChirho {
    /// A single object, synced every second, split at 10000 cells.
    fn default() -> (r: Self)
        ensures
            r.sharding_chirho is SingleDoChirho,
            r.sync_interval_ms_chirho == 1000,
            r.max_cells_per_do_chirho == 10000,
    {
        MultiDoConfigChirho {
            sharding_chirho: ShardingStrategyChirho::SingleDoChirho,
            sync_interval_ms_chirho: 1000,
            max_cells_per_do_chirho: 10000,
        }
    }
}

/// Unique identifier for a constraint in a constraint system.
#[derive(Clone, Copy, Debug, PartialEq, Eq, Structural, Hash)]
pub struct ConstraintIdChirho(usize);

impl ConstraintIdChirho {
    /// The identifier with the given number.
    pub fn new_chirho(id_chirho: usize) -> (r: Self)
        ensures
            r.id_chirho() == id_chirho,
    {
        ConstraintIdChirho(id_chirho)
    }

    /// Returns the numeric ID of this constraint.
    #[verifier::when_used_as_spec(id_spec_chirho)]
    pub fn id_chirho(&self) -> (r: usize)
        ensures
            r == self.id_spec_chirho(),
    {
        self.0
    }

    /// The numeric ID.
    pub closed spec fn id_spec_chirho(&self) -> usize {
        self.0
    }

    /// The text of the identifier: `constraint_` and its number.
    pub fn to_string_chirho(&self) -> (r: String)
        ensures
            r@ == "constraint_"@ + decimal_chirho(self.id_chirho() as nat),
    {
        let mut r = String::new();
        push_str_chirho(&mut r, "constraint_");
        push_decimal_chirho(&mut r, self.0 as u64);
        assert(r@ =~= "constraint_"@ + decimal_chirho(self.id_chirho() as nat));
        r
    }
}

} // verus!
