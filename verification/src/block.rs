//! The per-invocation block context: the read-only values guest code can ask
//! for. The block hash is the hexadecimal rendering of the height, the
//! previous hash that of the height minus one.

use vstd::prelude::*;
use vstd::string::StringExecFns;
use crate::limits::GAS_LIMIT;
use crate::text::hex_str;
use crate::text::hex_string;

verus! {

/// The block height every mock context reports.
pub const MOCK_BLOCK_HEIGHT: u64 = 12345;

/// Read-only per-invocation values.
pub struct BlockContext {
    pub height: u64,
    pub timestamp_ms: u64,
    pub executor: String,
    pub contract_id: String,
    pub gas_limit: u64,
}

impl BlockContext {
    /// The fixed mock context of the edge server; the timestamp is supplied
    /// by the caller, since only the host process can read the clock.
    pub fn mock(timestamp_ms: u64) -> (r: BlockContext)
        ensures
            r.height == MOCK_BLOCK_HEIGHT,
            r.timestamp_ms == timestamp_ms,
            r.executor@ == "user_edge_server"@,
            r.contract_id@ == "contract_edge"@,
            r.gas_limit == GAS_LIMIT,
    {
        BlockContext {
            height: MOCK_BLOCK_HEIGHT,
            timestamp_ms,
            executor: String::from_str("user_edge_server"),
            contract_id: String::from_str("contract_edge"),
            gas_limit: GAS_LIMIT,
        }
    }

    /// The block hash: `0x` followed by the height in lowercase hex.
    pub fn hash(&self) -> (r: String)
        ensures
            r@ == "0x"@ + hex_str(self.height as nat),
    {
        hex_string(self.height)
    }

    /// The previous block hash: `0x` followed by the previous height in
    /// lowercase hex. The genesis block has no predecessor.
    pub fn previous_hash(&self) -> (r: String)
        requires
            self.height >= 1,
        ensures
            r@ == "0x"@ + hex_str((self.height - 1) as nat),
    {
        hex_string(self.height - 1)
    }
}

} // verus!
