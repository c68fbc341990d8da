//! Storage engine for a Raft-style replicated log, together with two small
//! in-memory key/value stores.
//!
//! - `entry`, `state`, `error`: the values the engine stores and reports.
//! - `limit`: bounding a batch of entries by cumulative byte size.
//! - `model`: the mathematical model of the log and of its durable image.
//! - `raftstore`: the engine and the storage interface over it.
//! - `laws`: properties that relate several operations.
//! - `kvmap`, `kvstore`, `store`: the flat key/value stores.

pub mod entry;
pub mod error;
pub mod kvmap;
pub mod kvstore;
pub mod laws;
pub mod limit;
pub mod model;
pub mod raftstore;
pub mod state;
pub mod store;
