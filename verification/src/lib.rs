//! An append-only, replayable record store: one vault per key, secrets held
//! as encrypted log entries, and the set of live records always the result of
//! replaying the persisted log in order. Revocation is a tombstone entry;
//! compaction drops dead entries without changing the live view.

pub mod types;
pub mod crypto;
pub mod replay;
pub mod writer;
pub mod bucket;
pub mod client;
