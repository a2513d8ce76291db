use tana_edge::ledger::{Change, TransactionLedger, ValidationError};

#[test]
fn self_transfer_rejected() {
    let mut l = TransactionLedger::new();
    let r = l.transfer(
        String::from("alice"),
        String::from("alice"),
        5,
        String::from("USD"),
    );
    assert_eq!(r, Err(ValidationError::SelfTransfer));
    assert!(l.get_changes().is_empty());
}

#[test]
fn non_positive_transfer_rejected() {
    let mut l = TransactionLedger::new();
    let r = l.transfer(String::from("a"), String::from("b"), 0, String::from("USD"));
    assert_eq!(r, Err(ValidationError::NonPositiveAmount));
    let r = l.transfer(String::from("a"), String::from("b"), -3, String::from("USD"));
    assert_eq!(r, Err(ValidationError::NonPositiveAmount));
    assert!(l.get_changes().is_empty());
}

#[test]
fn negative_balance_rejected() {
    let mut l = TransactionLedger::new();
    let r = l.set_balance(String::from("a"), -1, String::from("USD"));
    assert_eq!(r, Err(ValidationError::NegativeBalance));
    let r = l.set_balance(String::from("a"), 0, String::from("USD"));
    assert_eq!(r, Ok(()));
}

#[test]
fn get_changes_snapshots_the_batch() {
    let mut l = TransactionLedger::new();
    l.transfer(String::from("a"), String::from("b"), 7, String::from("USD"))
        .unwrap();
    l.set_balance(String::from("c"), 100, String::from("EUR")).unwrap();

    let changes = l.get_changes();
    assert_eq!(changes.len(), 2);
    match &changes[0] {
        Change::Transfer { from, to, amount, currency } => {
            assert_eq!(from, "a");
            assert_eq!(to, "b");
            assert_eq!(*amount, 7);
            assert_eq!(currency, "USD");
        }
        _ => panic!("expected a transfer"),
    }
    match &changes[1] {
        Change::BalanceUpdate { user_id, amount, currency } => {
            assert_eq!(user_id, "c");
            assert_eq!(*amount, 100);
            assert_eq!(currency, "EUR");
        }
        _ => panic!("expected a balance update"),
    }
}

#[test]
fn execute_charges_gas_and_clears_batch() {
    let mut l = TransactionLedger::new();
    l.transfer(String::from("a"), String::from("b"), 7, String::from("USD"))
        .unwrap();
    l.set_balance(String::from("c"), 100, String::from("EUR")).unwrap();

    let receipt = l.execute();
    assert!(receipt.success);
    assert_eq!(receipt.gas_used, 200);
    assert_eq!(receipt.changes.len(), 2);
    assert!(receipt.error.is_none());
    assert!(l.get_changes().is_empty());
}

#[test]
fn out_of_gas_rolls_back_whole_batch() {
    // Within 100 of the 1_000_000 ceiling: two queued changes cost 200.
    let mut l = TransactionLedger::with_gas_used(999_900);
    l.transfer(String::from("a"), String::from("b"), 1, String::from("USD"))
        .unwrap();
    l.set_balance(String::from("c"), 5, String::from("USD")).unwrap();

    let receipt = l.execute();
    assert!(!receipt.success);
    assert_eq!(receipt.error.as_deref(), Some("Out of gas"));
    assert!(receipt.changes.is_empty());
    assert_eq!(receipt.gas_used, 1_000_000);
    assert!(l.get_changes().is_empty());

    // The counter was not advanced: a one-change batch still fits.
    l.set_balance(String::from("c"), 5, String::from("USD")).unwrap();
    let receipt = l.execute();
    assert!(receipt.success);
    assert_eq!(receipt.gas_used, 100);
}

#[test]
fn execute_at_exact_ceiling_succeeds() {
    let mut l = TransactionLedger::with_gas_used(999_800);
    l.transfer(String::from("a"), String::from("b"), 1, String::from("USD"))
        .unwrap();
    l.set_balance(String::from("c"), 5, String::from("USD")).unwrap();

    let receipt = l.execute();
    assert!(receipt.success);
    assert_eq!(receipt.gas_used, 200);
}

#[test]
fn execute_on_empty_batch_is_free() {
    let mut l = TransactionLedger::new();
    let receipt = l.execute();
    assert!(receipt.success);
    assert_eq!(receipt.gas_used, 0);
    assert!(receipt.changes.is_empty());
}
