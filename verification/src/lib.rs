//! Deferred reclamation for lock-free data structures, built on hazard pointers.
//!
//! A thread hands nodes it has unlinked from a shared structure to its own
//! [`LocalBag`]. Every [`COUNTS_BETWEEN_COLLECT`] retirements the bag asks its
//! [`Domain`] which addresses are announced as in use and frees every record
//! whose address is not among them.

pub mod bag;
pub mod barrier;
pub mod domain;
pub mod laws;
pub mod record;
pub mod unlink;

pub use bag::{BagState, LocalBag, COUNTS_BETWEEN_COLLECT};
pub use domain::Domain;
pub use record::LocalRetired;
pub use unlink::{attempt_unlink, retire_unlinked, try_unlink};
