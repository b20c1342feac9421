//! A replay-statistics aggregation engine.
//!
//! The library turns an immutable snapshot of analyzed match records into
//! ranked, enriched, paginated statistical views: per-map counts, per-player
//! activity, unit-spawn event listings, and snapshot freshness metadata.
//! All query logic is verified; file access, transport and serialization
//! live outside the library and hand plain values in and out.
//!
//! Every query is a pure function of the snapshot and the request: the
//! engine holds no mutable shared state, so any number of concurrent
//! queries may read the same immutable snapshot, and identical queries
//! against an unchanged snapshot return identical rows in identical
//! order.

use vstd::prelude::*;

pub mod datetime;
pub mod text;
pub mod records;
pub mod meta;
pub mod error;
pub mod aggregate;
pub mod topk;
pub mod rank;
pub mod map_frequency;
pub mod maps;
pub mod players;
pub mod tracker_events;
pub mod snapshot_stats;

verus! {

/// File name of the primary columnar snapshot of match details.
pub const DETAILS_IPC: &'static str = "details.ipc";

/// State shared by every query handler: where the backing dataset lives.
#[derive(Debug, Clone)]
pub struct AppState {
    /// The path of the directory holding the snapshot files.
    pub source_dir: String,
}

} // verus!
