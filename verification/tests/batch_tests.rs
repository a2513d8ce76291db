use tana_edge::batch::{
    lookup_balances, lookup_transactions, lookup_users, BalanceKey, BatchError, BatchResult,
    IdArg, TxKey, UserKey,
};

fn users() -> Vec<UserKey> {
    vec![
        UserKey { id: Some(String::from("u1")), username: Some(String::from("alice")) },
        UserKey { id: Some(String::from("u2")), username: Some(String::from("bob")) },
        UserKey { id: Some(String::from("u3")), username: None },
    ]
}

#[test]
fn single_id_gives_single_slot() {
    let r = lookup_users(&users(), &IdArg::One(String::from("alice"))).unwrap();
    assert_eq!(r, BatchResult::One(Some(0)));

    let r = lookup_users(&users(), &IdArg::One(String::from("nobody"))).unwrap();
    assert_eq!(r, BatchResult::One(None));
}

#[test]
fn sequence_gives_sequence_in_input_order() {
    let ids = IdArg::Many(vec![
        String::from("bob"),
        String::from("nobody"),
        String::from("u1"),
    ]);
    let r = lookup_users(&users(), &ids).unwrap();
    assert_eq!(r, BatchResult::Many(vec![Some(1), None, Some(0)]));
}

#[test]
fn one_element_sequence_stays_a_sequence() {
    let r = lookup_users(&users(), &IdArg::Many(vec![String::from("alice")])).unwrap();
    assert_eq!(r, BatchResult::Many(vec![Some(0)]));
}

#[test]
fn user_found_by_id_or_username() {
    let r = lookup_users(&users(), &IdArg::One(String::from("u2"))).unwrap();
    assert_eq!(r, BatchResult::One(Some(1)));
    let r = lookup_users(&users(), &IdArg::One(String::from("bob"))).unwrap();
    assert_eq!(r, BatchResult::One(Some(1)));
}

#[test]
fn batch_limit_enforced() {
    let ids: Vec<String> = (0..11).map(|i| format!("u{}", i)).collect();
    let r = lookup_users(&users(), &IdArg::Many(ids));
    assert_eq!(r, Err(BatchError::TooManyIds));

    let ids: Vec<String> = (0..10).map(|i| format!("u{}", i)).collect();
    assert!(lookup_users(&users(), &IdArg::Many(ids)).is_ok());
}

#[test]
fn transactions_found_by_id_only() {
    let txs = vec![
        TxKey { id: Some(String::from("t1")) },
        TxKey { id: None },
        TxKey { id: Some(String::from("t2")) },
    ];
    let r = lookup_transactions(&txs, &IdArg::One(String::from("t2"))).unwrap();
    assert_eq!(r, BatchResult::One(Some(2)));
    let r = lookup_transactions(&txs, &IdArg::One(String::from("t9"))).unwrap();
    assert_eq!(r, BatchResult::One(None));
}

#[test]
fn balances_match_owner_and_currency() {
    let balances = vec![
        BalanceKey {
            owner_id: Some(String::from("alice")),
            currency_code: Some(String::from("EUR")),
        },
        BalanceKey {
            owner_id: Some(String::from("alice")),
            currency_code: Some(String::from("USD")),
        },
        BalanceKey {
            owner_id: Some(String::from("bob")),
            currency_code: Some(String::from("USD")),
        },
    ];
    let r = lookup_balances(&balances, &IdArg::One(String::from("alice")), "USD").unwrap();
    assert_eq!(r, BatchResult::One(Some(1)));

    let ids = IdArg::Many(vec![String::from("bob"), String::from("carol")]);
    let r = lookup_balances(&balances, &ids, "USD").unwrap();
    assert_eq!(r, BatchResult::Many(vec![Some(2), None]));
}
