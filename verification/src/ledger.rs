//! The gas-metered transaction ledger: an ordered batch of pending change
//! intents and a cumulative gas counter. `execute` charges a fixed cost per
//! queued change and either commits the whole batch or rolls it back without
//! touching the counter.

use vstd::prelude::*;
use vstd::string::StringExecFns;
use crate::limits::GAS_LIMIT;
use crate::limits::GAS_COST_PER_CHANGE;

verus! {

/// A pending state-change intent.
#[derive(Debug)]
pub enum Change {
    Transfer { from: String, to: String, amount: i64, currency: String },
    BalanceUpdate { user_id: String, amount: i64, currency: String },
}

impl Clone for Change {
    fn clone(&self) -> (r: Self)
        ensures
            r == *self,
    {
        match self {
            Change::Transfer { from, to, amount, currency } => Change::Transfer {
                from: from.clone(),
                to: to.clone(),
                amount: *amount,
                currency: currency.clone(),
            },
            Change::BalanceUpdate { user_id, amount, currency } => Change::BalanceUpdate {
                user_id: user_id.clone(),
                amount: *amount,
                currency: currency.clone(),
            },
        }
    }
}

/// Why a change was rejected before entering the batch.
#[derive(Clone, Copy, Debug, PartialEq, Eq, Structural)]
pub enum ValidationError {
    SelfTransfer,
    NonPositiveAmount,
    NegativeBalance,
}

/// What `execute` reports back for one batch.
#[derive(Debug)]
pub struct ExecutionReceipt {
    pub success: bool,
    pub changes: Vec<Change>,
    pub gas_used: u64,
    pub error: Option<String>,
}

fn clone_changes(v: &Vec<Change>) -> (r: Vec<Change>)
    ensures
        r@ == v@,
{
    let mut r: Vec<Change> = Vec::new();
    let mut i: usize = 0;
    while i < v.len()
        invariant
            i <= v@.len(),
            r@ == v@.take(i as int),
        decreases v@.len() - i,
    {
        r.push(v[i].clone());
        assert(v@.take(i as int).push(v@[i as int]) =~= v@.take(i + 1));
        i += 1;
    }
    assert(v@.take(v@.len() as int) =~= v@);
    r
}

/// The append-only batch of pending changes plus the cumulative gas counter.
pub struct TransactionLedger {
    /// Pending change intents, in staging order; mutate only through the
    /// methods.
    pub pending: Vec<Change>,
    /// Cumulative gas spent by successful executions; mutate only through the
    /// methods.
    pub gas_used: u64,
}

impl TransactionLedger {
    /// The gas cost a batch of this many changes is charged.
    pub open spec fn batch_cost(n: nat) -> int {
        GAS_COST_PER_CHANGE * n
    }

    /// Whether executing the current batch would stay within the gas ceiling.
    pub open spec fn execute_fits(self) -> bool {
        self.gas_used + Self::batch_cost(self.pending@.len()) <= GAS_LIMIT
    }

    /// The gas counter never runs past the ceiling.
    pub open spec fn wf(self) -> bool {
        self.gas_used <= GAS_LIMIT
    }

    /// A fresh ledger with nothing staged and no gas spent.
    pub fn new() -> (r: TransactionLedger)
        ensures
            r.wf(),
            r.pending@.len() == 0,
            r.gas_used == 0,
    {
        TransactionLedger { pending: Vec::new(), gas_used: 0 }
    }

    /// A fresh ledger whose gas counter starts from an earlier snapshot.
    pub fn with_gas_used(gas_used: u64) -> (r: TransactionLedger)
        requires
            gas_used <= GAS_LIMIT,
        ensures
            r.wf(),
            r.pending@.len() == 0,
            r.gas_used == gas_used,
    {
        TransactionLedger { pending: Vec::new(), gas_used }
    }

    /// Stages a transfer between two distinct parties of a positive amount.
    pub fn transfer(&mut self, from: String, to: String, amount: i64, currency: String) -> (r:
        Result<(), ValidationError>)
        ensures
            final(self).gas_used == old(self).gas_used,
            r is Err <==> from@ == to@ || amount <= 0,
            r == Err::<(), ValidationError>(ValidationError::SelfTransfer) <==> from@ == to@,
            r is Err ==> final(self).pending@ == old(self).pending@,
            r is Ok ==> final(self).pending@ == old(self).pending@.push(
                (Change::Transfer { from, to, amount, currency }),
            ),
    {
        if from == to {
            return Err(ValidationError::SelfTransfer);
        }
        if amount <= 0 {
            return Err(ValidationError::NonPositiveAmount);
        }
        self.pending.push(Change::Transfer { from, to, amount, currency });
        Ok(())
    }

    /// Stages a non-negative balance assignment.
    pub fn set_balance(&mut self, user_id: String, amount: i64, currency: String) -> (r: Result<
        (),
        ValidationError,
    >)
        ensures
            final(self).gas_used == old(self).gas_used,
            r is Err <==> amount < 0,
            r is Err ==> r == Err::<(), ValidationError>(ValidationError::NegativeBalance),
            r is Err ==> final(self).pending@ == old(self).pending@,
            r is Ok ==> final(self).pending@ == old(self).pending@.push(
                (Change::BalanceUpdate { user_id, amount, currency }),
            ),
    {
        if amount < 0 {
            return Err(ValidationError::NegativeBalance);
        }
        self.pending.push(Change::BalanceUpdate { user_id, amount, currency });
        Ok(())
    }

    /// A read-only snapshot of the pending batch.
    pub fn get_changes(&self) -> (r: Vec<Change>)
        ensures
            r@ == self.pending@,
    {
        clone_changes(&self.pending)
    }

    /// Executes the pending batch atomically: if the cost would push the gas
    /// counter past the ceiling, the batch is discarded, the counter is left
    /// unchanged and the receipt reports `Out of gas`; otherwise the cost is
    /// committed and the receipt carries the whole batch. Either way the
    /// batch is cleared.
    pub fn execute(&mut self) -> (r: ExecutionReceipt)
        requires
            old(self).wf(),
        ensures
            final(self).wf(),
            final(self).pending@.len() == 0,
            !old(self).execute_fits() ==> {
                &&& !r.success
                &&& r.changes@.len() == 0
                &&& r.gas_used == GAS_LIMIT
                &&& (r.error matches Some(m) && m@ == "Out of gas"@)
                &&& final(self).gas_used == old(self).gas_used
            },
            old(self).execute_fits() ==> {
                &&& r.success
                &&& r.changes@ == old(self).pending@
                &&& r.gas_used == Self::batch_cost(old(self).pending@.len())
                &&& r.error is None
                &&& final(self).gas_used == old(self).gas_used + Self::batch_cost(
                    old(self).pending@.len(),
                )
            },
    {
        let len = self.pending.len();
        let total_opt = match (len as u64).checked_mul(GAS_COST_PER_CHANGE) {
            Some(c) => self.gas_used.checked_add(c),
            None => None,
        };
        let fits = match total_opt {
            Some(t) => t <= GAS_LIMIT,
            None => false,
        };
        if !fits {
            self.pending.clear();
            return ExecutionReceipt {
                success: false,
                changes: Vec::new(),
                gas_used: GAS_LIMIT,
                error: Some(String::from_str("Out of gas")),
            };
        }
        let total = match total_opt {
            Some(t) => t,
            None => 0,
        };
        let cost = total - self.gas_used;
        self.gas_used = total;
        let changes = clone_changes(&self.pending);
        self.pending.clear();
        ExecutionReceipt { success: true, changes, gas_used: cost, error: None }
    }
}

} // verus!
