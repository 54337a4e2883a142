//! Storage core of a per-user synchronization server: named collections of
//! small versioned records (BSOs), a staged batch upload protocol, quota
//! accounting, and the timestamp discipline that underpins incremental sync.
use vstd::prelude::*;

pub mod batch;
pub mod error;
pub mod keyed;
pub mod laws;
pub mod params;
pub mod results;
pub mod query;
pub mod store;

verus! {

/// TTL in seconds applied to a record when the caller supplies none.
pub const DEFAULT_BSO_TTL: u32 = 2_100_000_000;

/// Window in milliseconds after which a batch becomes unusable.
pub const BATCH_LIFETIME: i64 = 2 * 60 * 60 * 1000;

/// Sentinel `modified` value marking a collection row inserted only so that a
/// batch can reference it as parent ("pretouch"); far before any real
/// timestamp, and filtered out wherever modification times are exposed.
pub const PRETOUCH_TS: i64 = -62_135_596_800_000;

/// Upper bound on every clock and collection timestamp the store accepts, so
/// that `modified + ttl * 1000` and `previous + 1` never overflow an `i64`.
pub const TS_LIMIT: i64 = 4_000_000_000_000_000;

} // verus!
