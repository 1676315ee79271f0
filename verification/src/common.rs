//! Error taxonomy and small shared configuration types.

use vstd::prelude::*;

verus! {

/// The categorized failures every engine operation can surface.
///
/// Absence is not an error: lookups return `Option`, deletions a flag. A
/// failed compare-and-swap is surfaced as `Ok(None)`, not as an error.
#[derive(Debug, Clone, Copy, PartialEq, Eq, Structural)]
pub enum StrataError {
    /// A key, cell, branch or collection was required but absent.
    NotFound,
    /// A create operation collided with an existing name.
    AlreadyExists,
    /// The operation is forbidden in the current state: deleting the current
    /// or the default branch, mutating a poisoned engine, or a counter at
    /// its machine limit.
    InvalidState,
    /// A malformed path, a dimension mismatch, or an unrecognized option.
    InvalidArgument,
    /// A write to stable storage failed; the engine is poisoned.
    DurabilityFailed,
    /// Recorded state failed an integrity check during recovery.
    Corruption,
}

/// How eagerly writes are forced to stable media.
#[derive(Debug, Clone, Copy, PartialEq, Eq, Structural)]
pub enum Durability {
    /// Buffered writes; no sync is ever forced by the engine.
    Cache,
    /// Writes are handed to the host on every operation; sync happens on
    /// explicit flush.
    Standard,
    /// Every mutating operation syncs before it is acknowledged.
    Always,
}

/// The similarity measure of a vector collection.
#[derive(Debug, Clone, Copy, PartialEq, Eq, Structural)]
pub enum DistanceMetric {
    /// Cosine similarity: higher is closer, in [-1, 1].
    Cosine,
    /// Negated squared distance: higher is closer.
    Euclidean,
    /// Raw inner product: higher is closer.
    DotProduct,
}

/// Observability counters of the write-ahead log.
#[derive(Debug, Clone, Copy, PartialEq, Eq, Structural)]
pub struct WalCounters {
    /// Records appended to the log.
    pub wal_appends: u64,
    /// Sync calls issued for the log.
    pub sync_calls: u64,
}

/// A counter bumped by one, held at its limit rather than wrapping.
pub open spec fn bump(c: u64) -> u64 {
    if c < u64::MAX {
        (c + 1) as u64
    } else {
        c
    }
}

/// Bump a counter without overflow.
pub fn bump_counter(c: u64) -> (r: u64)
    ensures
        r == bump(c),
{
    if c < u64::MAX {
        c + 1
    } else {
        c
    }
}

} // verus!
