//! Propagator networks over partial information: lattices, finite domains,
//! cells, schedulers and search.

use vstd::prelude::*;

pub mod algebra_chirho;
pub mod cardinality_chirho;
pub mod cell_chirho;
pub mod distributed_chirho;
pub mod domain_laws_chirho;
pub mod fd_propagators_chirho;
pub mod generic_cell_chirho;
pub mod finite_domain_chirho;
pub mod lattice_chirho;
pub mod laws_chirho;
pub mod ledger_chirho;
pub mod name_set_chirho;
pub mod network_chirho;
pub mod order_chirho;
pub mod propagation_laws_chirho;
pub mod propagator_chirho;
pub mod scheduler_chirho;
pub mod search_chirho;
pub mod sorted_chirho;
pub mod text_chirho;
pub mod visualization_chirho;

pub use finite_domain_chirho::FiniteDomainChirho;
pub use lattice_chirho::{BoundedLatticeChirho, LatticeChirho, PropagatorFnChirho};

verus! {
} // verus!
