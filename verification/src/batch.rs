//! Batch state queries: a query names one id or a sequence of ids (at most
//! ten), and the answer mirrors the shape of the question — one slot for one
//! id, a slot per id in input order for a sequence. Each slot holds the index
//! of the first record that matches its id, or nothing.

use vstd::prelude::*;
use crate::limits::MAX_BATCH_QUERY;
use crate::text::str_eq;

verus! {

/// One id or a sequence of ids, as guest code may pass either.
#[derive(Debug)]
pub enum IdArg {
    One(String),
    Many(Vec<String>),
}

/// A lookup answer in the shape of its question.
#[derive(Debug, PartialEq, Eq)]
pub enum BatchResult {
    One(Option<usize>),
    Many(Vec<Option<usize>>),
}

/// Why a batch query was refused.
#[derive(Clone, Copy, Debug, PartialEq, Eq, Structural)]
pub enum BatchError {
    TooManyIds,
}

/// How many ids a query names.
pub open spec fn id_count(a: IdArg) -> nat {
    match a {
        IdArg::One(_) => 1,
        IdArg::Many(v) => v@.len(),
    }
}

/// A user record's searchable fields.
#[derive(Debug)]
pub struct UserKey {
    pub id: Option<String>,
    pub username: Option<String>,
}

/// A transaction record's searchable field.
#[derive(Debug)]
pub struct TxKey {
    pub id: Option<String>,
}

/// A balance record's searchable fields.
#[derive(Debug)]
pub struct BalanceKey {
    pub owner_id: Option<String>,
    pub currency_code: Option<String>,
}

/// A user record answers to its id or its username.
pub open spec fn user_matches(u: UserKey, id: Seq<char>) -> bool {
    (match u.id {
        Some(s) => s@ == id,
        None => false,
    }) || (match u.username {
        Some(s) => s@ == id,
        None => false,
    })
}

/// A transaction record answers to its id.
pub open spec fn tx_matches(t: TxKey, id: Seq<char>) -> bool {
    match t.id {
        Some(s) => s@ == id,
        None => false,
    }
}

/// A balance record answers to its owner under the queried currency.
pub open spec fn balance_matches(b: BalanceKey, id: Seq<char>, currency: Seq<char>) -> bool {
    (match b.owner_id {
        Some(s) => s@ == id,
        None => false,
    }) && (match b.currency_code {
        Some(s) => s@ == currency,
        None => false,
    })
}

/// A slot is correct when it holds the first matching index, or nothing when
/// no record matches.
pub open spec fn user_slot_ok(rs: Seq<UserKey>, id: Seq<char>, slot: Option<usize>) -> bool {
    match slot {
        Some(j) => j < rs.len() && user_matches(rs[j as int], id) && (forall|l: int|
            0 <= l < j ==> !user_matches(rs[l], id)),
        None => forall|l: int| 0 <= l < rs.len() ==> !user_matches(rs[l], id),
    }
}

pub open spec fn tx_slot_ok(rs: Seq<TxKey>, id: Seq<char>, slot: Option<usize>) -> bool {
    match slot {
        Some(j) => j < rs.len() && tx_matches(rs[j as int], id) && (forall|l: int|
            0 <= l < j ==> !tx_matches(rs[l], id)),
        None => forall|l: int| 0 <= l < rs.len() ==> !tx_matches(rs[l], id),
    }
}

pub open spec fn balance_slot_ok(
    rs: Seq<BalanceKey>,
    id: Seq<char>,
    currency: Seq<char>,
    slot: Option<usize>,
) -> bool {
    match slot {
        Some(j) => j < rs.len() && balance_matches(rs[j as int], id, currency) && (forall|l: int|
            0 <= l < j ==> !balance_matches(rs[l], id, currency)),
        None => forall|l: int| 0 <= l < rs.len() ==> !balance_matches(rs[l], id, currency),
    }
}

fn opt_field_eq(f: &Option<String>, id: &str) -> (r: bool)
    ensures
        r == (match *f {
            Some(s) => s@ == id@,
            None => false,
        }),
{
    match f {
        Some(s) => str_eq(s.as_str(), id),
        None => false,
    }
}

fn find_user(rs: &Vec<UserKey>, id: &str) -> (slot: Option<usize>)
    ensures
        user_slot_ok(rs@, id@, slot),
{
    let mut j: usize = 0;
    while j < rs.len()
        invariant
            j <= rs@.len(),
            forall|l: int| 0 <= l < j ==> !user_matches(rs@[l], id@),
        decreases rs@.len() - j,
    {
        if opt_field_eq(&rs[j].id, id) || opt_field_eq(&rs[j].username, id) {
            return Some(j);
        }
        j += 1;
    }
    None
}

fn find_tx(rs: &Vec<TxKey>, id: &str) -> (slot: Option<usize>)
    ensures
        tx_slot_ok(rs@, id@, slot),
{
    let mut j: usize = 0;
    while j < rs.len()
        invariant
            j <= rs@.len(),
            forall|l: int| 0 <= l < j ==> !tx_matches(rs@[l], id@),
        decreases rs@.len() - j,
    {
        if opt_field_eq(&rs[j].id, id) {
            return Some(j);
        }
        j += 1;
    }
    None
}

fn find_balance(rs: &Vec<BalanceKey>, id: &str, currency: &str) -> (slot: Option<usize>)
    ensures
        balance_slot_ok(rs@, id@, currency@, slot),
{
    let mut j: usize = 0;
    while j < rs.len()
        invariant
            j <= rs@.len(),
            forall|l: int| 0 <= l < j ==> !balance_matches(rs@[l], id@, currency@),
        decreases rs@.len() - j,
    {
        if opt_field_eq(&rs[j].owner_id, id) && opt_field_eq(&rs[j].currency_code, currency) {
            return Some(j);
        }
        j += 1;
    }
    None
}

/// Looks each queried id up among the user records, by id or username,
/// mirroring the shape of the query.
pub fn lookup_users(records: &Vec<UserKey>, ids: &IdArg) -> (r: Result<BatchResult, BatchError>)
    ensures
        r is Err <==> id_count(*ids) > MAX_BATCH_QUERY,
        r is Err ==> r == Err::<BatchResult, BatchError>(BatchError::TooManyIds),
        r is Ok ==> (match (ids, r) {
            (IdArg::One(id), Ok(BatchResult::One(slot))) => user_slot_ok(records@, id@, slot),
            (IdArg::Many(v), Ok(BatchResult::Many(w))) => w@.len() == v@.len() && (forall|i: int|
                0 <= i < v@.len() ==> user_slot_ok(records@, v@[i]@, w@[i])),
            _ => false,
        }),
{
    match ids {
        IdArg::One(id) => Ok(BatchResult::One(find_user(records, id.as_str()))),
        IdArg::Many(v) => {
            if v.len() > MAX_BATCH_QUERY {
                return Err(BatchError::TooManyIds);
            }
            let mut w: Vec<Option<usize>> = Vec::new();
            let mut i: usize = 0;
            while i < v.len()
                invariant
                    i <= v@.len(),
                    w@.len() == i,
                    forall|l: int| 0 <= l < i ==> user_slot_ok(records@, v@[l]@, w@[l]),
                decreases v@.len() - i,
            {
                w.push(find_user(records, v[i].as_str()));
                i += 1;
            }
            Ok(BatchResult::Many(w))
        },
    }
}

/// Looks each queried transaction id up among the transaction records,
/// mirroring the shape of the query.
pub fn lookup_transactions(records: &Vec<TxKey>, ids: &IdArg) -> (r: Result<
    BatchResult,
    BatchError,
>)
    ensures
        r is Err <==> id_count(*ids) > MAX_BATCH_QUERY,
        r is Err ==> r == Err::<BatchResult, BatchError>(BatchError::TooManyIds),
        r is Ok ==> (match (ids, r) {
            (IdArg::One(id), Ok(BatchResult::One(slot))) => tx_slot_ok(records@, id@, slot),
            (IdArg::Many(v), Ok(BatchResult::Many(w))) => w@.len() == v@.len() && (forall|i: int|
                0 <= i < v@.len() ==> tx_slot_ok(records@, v@[i]@, w@[i])),
            _ => false,
        }),
{
    match ids {
        IdArg::One(id) => Ok(BatchResult::One(find_tx(records, id.as_str()))),
        IdArg::Many(v) => {
            if v.len() > MAX_BATCH_QUERY {
                return Err(BatchError::TooManyIds);
            }
            let mut w: Vec<Option<usize>> = Vec::new();
            let mut i: usize = 0;
            while i < v.len()
                invariant
                    i <= v@.len(),
                    w@.len() == i,
                    forall|l: int| 0 <= l < i ==> tx_slot_ok(records@, v@[l]@, w@[l]),
                decreases v@.len() - i,
            {
                w.push(find_tx(records, v[i].as_str()));
                i += 1;
            }
            Ok(BatchResult::Many(w))
        },
    }
}

/// Looks each queried owner up among the balance records under one currency,
/// mirroring the shape of the query.
pub fn lookup_balances(records: &Vec<BalanceKey>, ids: &IdArg, currency: &str) -> (r: Result<
    BatchResult,
    BatchError,
>)
    ensures
        r is Err <==> id_count(*ids) > MAX_BATCH_QUERY,
        r is Err ==> r == Err::<BatchResult, BatchError>(BatchError::TooManyIds),
        r is Ok ==> (match (ids, r) {
            (IdArg::One(id), Ok(BatchResult::One(slot))) => balance_slot_ok(
                records@,
                id@,
                currency@,
                slot,
            ),
            (IdArg::Many(v), Ok(BatchResult::Many(w))) => w@.len() == v@.len() && (forall|i: int|
                0 <= i < v@.len() ==> balance_slot_ok(records@, v@[i]@, currency@, w@[i])),
            _ => false,
        }),
{
    match ids {
        IdArg::One(id) => Ok(BatchResult::One(find_balance(records, id.as_str(), currency))),
        IdArg::Many(v) => {
            if v.len() > MAX_BATCH_QUERY {
                return Err(BatchError::TooManyIds);
            }
            let mut w: Vec<Option<usize>> = Vec::new();
            let mut i: usize = 0;
            while i < v.len()
                invariant
                    i <= v@.len(),
                    w@.len() == i,
                    forall|l: int| 0 <= l < i ==> balance_slot_ok(records@, v@[l]@, currency@, w@[l]),
                decreases v@.len() - i,
            {
                w.push(find_balance(records, v[i].as_str(), currency));
                i += 1;
            }
            Ok(BatchResult::Many(w))
        },
    }
}

} // verus!
