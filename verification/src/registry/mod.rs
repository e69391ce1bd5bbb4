//! Transactional registry with immutable generation snapshots.

pub mod bindings;
pub mod laws;
pub mod message;
pub mod progress_laws;
pub mod snapshot;
pub mod transaction;
