//! A replicated key-value store with last-write-wins conflict resolution.
//!
//! Every key holds one record: a JSON payload, the time of the write and the
//! replica that made it. Replicas exchange update messages and adopt an
//! incoming record only if it is later than the one they hold, by timestamp
//! first and by author second. The contracts state that rule exactly, and the
//! module `laws` proves that it makes replicas converge.

pub mod order;
pub mod json;
pub mod record;
pub mod merge;
pub mod store;
pub mod laws;

pub use crate::record::{LwwRecord, UpdateMessage};
pub use crate::store::CrdtStore;
