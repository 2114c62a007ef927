//! An insertion-order-preserving map.
//!
//! The container pairs a hash index (key -> value, the source of truth for
//! membership) with an append-only order log that records the position at
//! which each key was first inserted. Iteration walks the order log and
//! consults the index at every slot, skipping slots whose key has since been
//! removed (tombstones), so live entries always come out in first-insertion
//! order.
//!
//! Contracts follow vstd's own idiom for hash-keyed containers over an
//! arbitrary key type: clauses about the index hold under the premise that
//! `K` obeys the hash-table key model (vstd axiomatizes this for the
//! primitive types), and the clause about the cloned key in the order log
//! holds under [`clone_respects_eq`]. The laws in [`laws`] are stated over
//! the model alone and hold unconditionally.

mod container;
pub mod laws;
mod model;

pub use container::OrderedMap;
pub use container::OrderedMapIter;
pub use model::clone_respects_eq;
pub use model::drop_key;
pub use model::live_entries;
pub use model::update_key;
pub use model::wf_state;
