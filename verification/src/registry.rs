//! The capability registry: the closed set of host operations reachable from
//! guest code, each under a fixed name and calling convention. The table
//! holds every capability exactly once, so binding it — and nothing else —
//! into the guest scope exposes exactly this set.

use vstd::prelude::*;
use vstd::string::StringExecFns;

verus! {

/// Every host operation guest code may reach.
#[derive(Clone, Copy, Debug, PartialEq, Eq, Structural)]
pub enum CapabilityId {
    Sum,
    PrintStderr,
    Fetch,
    DataSet,
    DataGet,
    DataDelete,
    DataHas,
    DataKeys,
    DataClear,
    DataCommit,
    BlockHeight,
    BlockTimestamp,
    BlockHash,
    BlockPreviousHash,
    BlockExecutor,
    BlockContractId,
    BlockGasLimit,
    BlockGasUsed,
    BlockGetBalance,
    BlockGetUser,
    BlockGetTransaction,
    TxTransfer,
    TxSetBalance,
    TxGetChanges,
    TxExecute,
}

/// The name a capability is bound under.
pub open spec fn cap_name(c: CapabilityId) -> Seq<char> {
    match c {
        CapabilityId::Sum => "op_sum"@,
        CapabilityId::PrintStderr => "op_print_stderr"@,
        CapabilityId::Fetch => "op_fetch"@,
        CapabilityId::DataSet => "op_data_set"@,
        CapabilityId::DataGet => "op_data_get"@,
        CapabilityId::DataDelete => "op_data_delete"@,
        CapabilityId::DataHas => "op_data_has"@,
        CapabilityId::DataKeys => "op_data_keys"@,
        CapabilityId::DataClear => "op_data_clear"@,
        CapabilityId::DataCommit => "op_data_commit"@,
        CapabilityId::BlockHeight => "op_block_get_height"@,
        CapabilityId::BlockTimestamp => "op_block_get_timestamp"@,
        CapabilityId::BlockHash => "op_block_get_hash"@,
        CapabilityId::BlockPreviousHash => "op_block_get_previous_hash"@,
        CapabilityId::BlockExecutor => "op_block_get_executor"@,
        CapabilityId::BlockContractId => "op_block_get_contract_id"@,
        CapabilityId::BlockGasLimit => "op_block_get_gas_limit"@,
        CapabilityId::BlockGasUsed => "op_block_get_gas_used"@,
        CapabilityId::BlockGetBalance => "op_block_get_balance"@,
        CapabilityId::BlockGetUser => "op_block_get_user"@,
        CapabilityId::BlockGetTransaction => "op_block_get_transaction"@,
        CapabilityId::TxTransfer => "op_tx_transfer"@,
        CapabilityId::TxSetBalance => "op_tx_set_balance"@,
        CapabilityId::TxGetChanges => "op_tx_get_changes"@,
        CapabilityId::TxExecute => "op_tx_execute"@,
    }
}

/// Whether a capability is called asynchronously: exactly the operations
/// that reach the network.
pub open spec fn cap_is_async(c: CapabilityId) -> bool {
    match c {
        CapabilityId::Fetch => true,
        CapabilityId::BlockGetBalance => true,
        CapabilityId::BlockGetUser => true,
        CapabilityId::BlockGetTransaction => true,
        _ => false,
    }
}

/// Whether a table holds an entry for a capability.
pub open spec fn table_contains(t: Seq<Capability>, c: CapabilityId) -> bool {
    exists|i: int| 0 <= i < t.len() && (#[trigger] t[i]).id == c
}

/// One registry entry.
pub struct Capability {
    pub id: CapabilityId,
    pub name: String,
    pub is_async: bool,
}

/// The name a capability is bound under.
pub fn capability_name(c: CapabilityId) -> (r: String)
    ensures
        r@ == cap_name(c),
{
    match c {
        CapabilityId::Sum => String::from_str("op_sum"),
        CapabilityId::PrintStderr => String::from_str("op_print_stderr"),
        CapabilityId::Fetch => String::from_str("op_fetch"),
        CapabilityId::DataSet => String::from_str("op_data_set"),
        CapabilityId::DataGet => String::from_str("op_data_get"),
        CapabilityId::DataDelete => String::from_str("op_data_delete"),
        CapabilityId::DataHas => String::from_str("op_data_has"),
        CapabilityId::DataKeys => String::from_str("op_data_keys"),
        CapabilityId::DataClear => String::from_str("op_data_clear"),
        CapabilityId::DataCommit => String::from_str("op_data_commit"),
        CapabilityId::BlockHeight => String::from_str("op_block_get_height"),
        CapabilityId::BlockTimestamp => String::from_str("op_block_get_timestamp"),
        CapabilityId::BlockHash => String::from_str("op_block_get_hash"),
        CapabilityId::BlockPreviousHash => String::from_str("op_block_get_previous_hash"),
        CapabilityId::BlockExecutor => String::from_str("op_block_get_executor"),
        CapabilityId::BlockContractId => String::from_str("op_block_get_contract_id"),
        CapabilityId::BlockGasLimit => String::from_str("op_block_get_gas_limit"),
        CapabilityId::BlockGasUsed => String::from_str("op_block_get_gas_used"),
        CapabilityId::BlockGetBalance => String::from_str("op_block_get_balance"),
        CapabilityId::BlockGetUser => String::from_str("op_block_get_user"),
        CapabilityId::BlockGetTransaction => String::from_str("op_block_get_transaction"),
        CapabilityId::TxTransfer => String::from_str("op_tx_transfer"),
        CapabilityId::TxSetBalance => String::from_str("op_tx_set_balance"),
        CapabilityId::TxGetChanges => String::from_str("op_tx_get_changes"),
        CapabilityId::TxExecute => String::from_str("op_tx_execute"),
    }
}

fn entry(id: CapabilityId, is_async: bool) -> (r: Capability)
    requires
        is_async == cap_is_async(id),
    ensures
        r.id == id,
        r.name@ == cap_name(id),
        r.is_async == cap_is_async(id),
{
    let name = capability_name(id);
    Capability { id, name, is_async }
}

/// The whole registry: every capability exactly once, each entry carrying
/// its bound name and calling convention. Guest code is given exactly the
/// operations of this table and nothing else.
pub fn capability_table() -> (r: Vec<Capability>)
    ensures
        r@.len() == 25,
        forall|i: int|
            0 <= i < r@.len() ==> (#[trigger] r@[i]).name@ == cap_name(r@[i].id) && r@[i].is_async
                == cap_is_async(r@[i].id),
        forall|i: int, j: int| 0 <= i < j < r@.len() ==> r@[i].id != r@[j].id,
        forall|c: CapabilityId| #[trigger] table_contains(r@, c),
{
    let mut t: Vec<Capability> = Vec::new();
    t.push(entry(CapabilityId::Sum, false));
    t.push(entry(CapabilityId::PrintStderr, false));
    t.push(entry(CapabilityId::Fetch, true));
    t.push(entry(CapabilityId::DataSet, false));
    t.push(entry(CapabilityId::DataGet, false));
    t.push(entry(CapabilityId::DataDelete, false));
    t.push(entry(CapabilityId::DataHas, false));
    t.push(entry(CapabilityId::DataKeys, false));
    t.push(entry(CapabilityId::DataClear, false));
    t.push(entry(CapabilityId::DataCommit, false));
    t.push(entry(CapabilityId::BlockHeight, false));
    t.push(entry(CapabilityId::BlockTimestamp, false));
    t.push(entry(CapabilityId::BlockHash, false));
    t.push(entry(CapabilityId::BlockPreviousHash, false));
    t.push(entry(CapabilityId::BlockExecutor, false));
    t.push(entry(CapabilityId::BlockContractId, false));
    t.push(entry(CapabilityId::BlockGasLimit, false));
    t.push(entry(CapabilityId::BlockGasUsed, false));
    t.push(entry(CapabilityId::BlockGetBalance, true));
    t.push(entry(CapabilityId::BlockGetUser, true));
    t.push(entry(CapabilityId::BlockGetTransaction, true));
    t.push(entry(CapabilityId::TxTransfer, false));
    t.push(entry(CapabilityId::TxSetBalance, false));
    t.push(entry(CapabilityId::TxGetChanges, false));
    t.push(entry(CapabilityId::TxExecute, false));
    proof {
        assert forall|c: CapabilityId| #[trigger] table_contains(t@, c) by {
            match c {
                CapabilityId::Sum => assert(t@[0].id == c),
                CapabilityId::PrintStderr => assert(t@[1].id == c),
                CapabilityId::Fetch => assert(t@[2].id == c),
                CapabilityId::DataSet => assert(t@[3].id == c),
                CapabilityId::DataGet => assert(t@[4].id == c),
                CapabilityId::DataDelete => assert(t@[5].id == c),
                CapabilityId::DataHas => assert(t@[6].id == c),
                CapabilityId::DataKeys => assert(t@[7].id == c),
                CapabilityId::DataClear => assert(t@[8].id == c),
                CapabilityId::DataCommit => assert(t@[9].id == c),
                CapabilityId::BlockHeight => assert(t@[10].id == c),
                CapabilityId::BlockTimestamp => assert(t@[11].id == c),
                CapabilityId::BlockHash => assert(t@[12].id == c),
                CapabilityId::BlockPreviousHash => assert(t@[13].id == c),
                CapabilityId::BlockExecutor => assert(t@[14].id == c),
                CapabilityId::BlockContractId => assert(t@[15].id == c),
                CapabilityId::BlockGasLimit => assert(t@[16].id == c),
                CapabilityId::BlockGasUsed => assert(t@[17].id == c),
                CapabilityId::BlockGetBalance => assert(t@[18].id == c),
                CapabilityId::BlockGetUser => assert(t@[19].id == c),
                CapabilityId::BlockGetTransaction => assert(t@[20].id == c),
                CapabilityId::TxTransfer => assert(t@[21].id == c),
                CapabilityId::TxSetBalance => assert(t@[22].id == c),
                CapabilityId::TxGetChanges => assert(t@[23].id == c),
                CapabilityId::TxExecute => assert(t@[24].id == c),
            }
        }
    }
    t
}

} // verus!
