//! The fixed process-level limits that the store, the ledger and the batch
//! queries enforce.

use vstd::prelude::*;

verus! {

/// Largest key, in bytes, that the store accepts.
pub const MAX_KEY_SIZE: usize = 256;

/// Largest value, in bytes, that the store accepts.
pub const MAX_VALUE_SIZE: usize = 10240;

/// Largest total byte size (keys plus values over all live keys) that a
/// commit may produce.
pub const MAX_TOTAL_SIZE: usize = 102400;

/// Largest number of live keys that a commit may produce.
pub const MAX_KEYS: usize = 1000;

/// Largest number of ids a single batch query accepts.
pub const MAX_BATCH_QUERY: usize = 10;

/// Cumulative gas ceiling for the transaction ledger.
pub const GAS_LIMIT: u64 = 1000000;

/// Gas charged per queued change when a batch is executed.
pub const GAS_COST_PER_CHANGE: u64 = 100;

} // verus!
