use qazna_ledger::Ledger;
use qazna_ledger::LedgerError;
use qazna_ledger::Money;

#[test]
fn create_rejects_invalid_currency() {
    let mut ledger = Ledger::new();
    let err = ledger.create_account(Money::new("", 10)).unwrap_err();
    assert_eq!(err, LedgerError::InvalidCurrency);
    let err = ledger.create_account(Money::new("   ", 10)).unwrap_err();
    assert_eq!(err, LedgerError::InvalidCurrency);
    let err = ledger.create_account(Money::new(" \t\n ", 10)).unwrap_err();
    assert_eq!(err, LedgerError::InvalidCurrency);
}

#[test]
fn create_rejects_negative_amount() {
    let mut ledger = Ledger::new();
    let err = ledger.create_account(Money::new("QZN", -1)).unwrap_err();
    assert_eq!(err, LedgerError::InvalidAmount);
}

#[test]
fn create_with_zero_amount_has_no_entries() {
    let mut ledger = Ledger::new();
    let account = ledger.create_account(Money::new("QZN", 0)).unwrap();
    assert_eq!(account.balances.len(), 0);
    let balance = ledger.get_balance(&account.id, "QZN").unwrap();
    assert_eq!(balance.amount, 0);
    assert_eq!(balance.currency, "QZN");
}

#[test]
fn get_account_returns_snapshot_or_not_found() {
    let mut ledger = Ledger::new();
    let created = ledger.create_account(Money::new("QZN", 42)).unwrap();
    let fetched = ledger.get_account(&created.id).unwrap();
    assert_eq!(fetched.id, created.id);
    assert_eq!(fetched.balances.len(), 1);
    assert_eq!(fetched.balances[0].amount, 42);
    let err = ledger.get_account("missing-account-id").unwrap_err();
    assert_eq!(err, LedgerError::NotFound);
}

#[test]
fn get_balance_missing_account_is_not_found() {
    let ledger = Ledger::new();
    let err = ledger.get_balance("nobody", "QZN").unwrap_err();
    assert_eq!(err, LedgerError::NotFound);
}

#[test]
fn transfer_rejects_invalid_currency_and_amount() {
    let mut ledger = Ledger::new();
    let a = ledger.create_account(Money::new("QZN", 100)).unwrap();
    let b = ledger.create_account(Money::new("QZN", 0)).unwrap();

    let err = ledger
        .transfer(&a.id, &b.id, Money::new(" ", 10), None)
        .unwrap_err();
    assert_eq!(err, LedgerError::InvalidCurrency);
    let err = ledger
        .transfer(&a.id, &b.id, Money::new("QZN", 0), None)
        .unwrap_err();
    assert_eq!(err, LedgerError::InvalidAmount);
    let err = ledger
        .transfer(&a.id, &b.id, Money::new("QZN", -5), None)
        .unwrap_err();
    assert_eq!(err, LedgerError::InvalidAmount);
}

#[test]
fn transfer_rejects_missing_accounts() {
    let mut ledger = Ledger::new();
    let a = ledger.create_account(Money::new("QZN", 100)).unwrap();
    let err = ledger
        .transfer(&a.id, "missing", Money::new("QZN", 10), None)
        .unwrap_err();
    assert_eq!(err, LedgerError::NotFound);
    let err = ledger
        .transfer("missing", &a.id, Money::new("QZN", 10), None)
        .unwrap_err();
    assert_eq!(err, LedgerError::NotFound);
    let err = ledger
        .transfer("gone", "missing", Money::new("QZN", 10), None)
        .unwrap_err();
    assert_eq!(err, LedgerError::NotFound);
}

#[test]
fn failed_transfer_leaves_state_untouched() {
    let mut ledger = Ledger::new();
    let a = ledger.create_account(Money::new("QZN", 100)).unwrap();
    let b = ledger.create_account(Money::new("QZN", 0)).unwrap();

    let err = ledger
        .transfer(&a.id, &b.id, Money::new("QZN", 200), None)
        .unwrap_err();
    assert_eq!(err, LedgerError::InsufficientFunds);

    assert_eq!(ledger.get_balance(&a.id, "QZN").unwrap().amount, 100);
    assert_eq!(ledger.get_balance(&b.id, "QZN").unwrap().amount, 0);
    let (txs, next) = ledger.list_transactions(10, 0).unwrap();
    assert_eq!(txs.len(), 0);
    assert!(next.is_none());
}

#[test]
fn transfers_conserve_totals() {
    let mut ledger = Ledger::new();
    let a = ledger.create_account(Money::new("QZN", 700)).unwrap();
    let b = ledger.create_account(Money::new("QZN", 300)).unwrap();
    let c = ledger.create_account(Money::new("QZN", 0)).unwrap();

    ledger.transfer(&a.id, &b.id, Money::new("QZN", 150), None).unwrap();
    ledger.transfer(&b.id, &c.id, Money::new("QZN", 450), None).unwrap();
    let _ = ledger.transfer(&c.id, &a.id, Money::new("QZN", 9_999), None);
    ledger.transfer(&c.id, &a.id, Money::new("QZN", 450), None).unwrap();

    let total = ledger.get_balance(&a.id, "QZN").unwrap().amount
        + ledger.get_balance(&b.id, "QZN").unwrap().amount
        + ledger.get_balance(&c.id, "QZN").unwrap().amount;
    assert_eq!(total, 1_000);
}

#[test]
fn currencies_do_not_mix() {
    let mut ledger = Ledger::new();
    let a = ledger.create_account(Money::new("QZN", 500)).unwrap();
    let b = ledger.create_account(Money::new("QZN", 0)).unwrap();

    let err = ledger
        .transfer(&a.id, &b.id, Money::new("USD", 1), None)
        .unwrap_err();
    assert_eq!(err, LedgerError::InsufficientFunds);
    assert_eq!(ledger.get_balance(&a.id, "USD").unwrap().amount, 0);
    assert_eq!(ledger.get_balance(&a.id, "QZN").unwrap().amount, 500);
}

#[test]
fn sequences_are_strictly_increasing() {
    let mut ledger = Ledger::new();
    let a = ledger.create_account(Money::new("QZN", 1_000)).unwrap();
    let b = ledger.create_account(Money::new("QZN", 0)).unwrap();

    let t1 = ledger.transfer(&a.id, &b.id, Money::new("QZN", 10), None).unwrap();
    let t2 = ledger.transfer(&a.id, &b.id, Money::new("QZN", 10), None).unwrap();
    let t3 = ledger.transfer(&b.id, &a.id, Money::new("QZN", 5), None).unwrap();
    assert_eq!(t1.sequence, 1);
    assert_eq!(t2.sequence, 2);
    assert_eq!(t3.sequence, 3);
    assert!(t1.sequence < t2.sequence && t2.sequence < t3.sequence);

    let (txs, _) = ledger.list_transactions(10, 0).unwrap();
    for (i, tx) in txs.iter().enumerate() {
        assert_eq!(tx.sequence, (i + 1) as u64);
    }
}

#[test]
fn pagination_walks_the_log_in_order() {
    let mut ledger = Ledger::new();
    let a = ledger.create_account(Money::new("QZN", 1_000)).unwrap();
    let b = ledger.create_account(Money::new("QZN", 0)).unwrap();
    for _ in 0..5 {
        ledger.transfer(&a.id, &b.id, Money::new("QZN", 100), None).unwrap();
    }

    let (page, next) = ledger.list_transactions(3, 0).unwrap();
    assert_eq!(page.len(), 3);
    assert_eq!(page[0].sequence, 1);
    assert_eq!(page[1].sequence, 2);
    assert_eq!(page[2].sequence, 3);
    assert_eq!(next, Some(3));

    let (page, next) = ledger.list_transactions(3, 3).unwrap();
    assert_eq!(page.len(), 2);
    assert_eq!(page[0].sequence, 4);
    assert_eq!(page[1].sequence, 5);
    assert_eq!(next, Some(5));

    let (page, next) = ledger.list_transactions(3, 5).unwrap();
    assert_eq!(page.len(), 0);
    assert_eq!(next, None);

    let (page, next) = ledger.list_transactions(3, 999).unwrap();
    assert_eq!(page.len(), 0);
    assert_eq!(next, None);
}

#[test]
fn limit_zero_and_oversized_fall_back_to_default() {
    let mut ledger = Ledger::new();
    let a = ledger.create_account(Money::new("QZN", 1_000)).unwrap();
    let b = ledger.create_account(Money::new("QZN", 0)).unwrap();
    for _ in 0..5 {
        ledger.transfer(&a.id, &b.id, Money::new("QZN", 10), None).unwrap();
    }

    let (page, _) = ledger.list_transactions(0, 0).unwrap();
    assert_eq!(page.len(), 5);
    let (page, _) = ledger.list_transactions(5000, 0).unwrap();
    assert_eq!(page.len(), 5);
    let (page, _) = ledger.list_transactions(2, 0).unwrap();
    assert_eq!(page.len(), 2);
}

#[test]
fn self_transfer_is_defined() {
    let mut ledger = Ledger::new();
    let a = ledger.create_account(Money::new("QZN", 500)).unwrap();

    let tx = ledger.transfer(&a.id, &a.id, Money::new("QZN", 100), None).unwrap();
    assert_eq!(tx.sequence, 1);
    assert_eq!(ledger.get_balance(&a.id, "QZN").unwrap().amount, 500);
    let (txs, next) = ledger.list_transactions(10, 0).unwrap();
    assert_eq!(txs.len(), 1);
    assert_eq!(next, Some(1));
}

#[test]
fn replay_ignores_differing_arguments() {
    let mut ledger = Ledger::new();
    let a = ledger.create_account(Money::new("QZN", 1_000)).unwrap();
    let b = ledger.create_account(Money::new("QZN", 0)).unwrap();

    let tx1 = ledger
        .transfer(&a.id, &b.id, Money::new("QZN", 200), Some("k1"))
        .unwrap();
    // the first use wins: a mismatched replay returns the first transaction
    let tx2 = ledger
        .transfer(&b.id, &a.id, Money::new("QZN", 999), Some("k1"))
        .unwrap();
    assert_eq!(tx1.id, tx2.id);
    assert_eq!(tx2.amount, 200);
    assert_eq!(ledger.get_balance(&a.id, "QZN").unwrap().amount, 800);
    let (txs, _) = ledger.list_transactions(10, 0).unwrap();
    assert_eq!(txs.len(), 1);
}

#[test]
fn transaction_records_its_arguments() {
    let mut ledger = Ledger::new();
    let a = ledger.create_account(Money::new("QZN", 1_000)).unwrap();
    let b = ledger.create_account(Money::new("QZN", 0)).unwrap();

    let tx = ledger
        .transfer(&a.id, &b.id, Money::new("QZN", 250), Some("key-7"))
        .unwrap();
    assert_eq!(tx.id.len(), 26);
    assert_eq!(tx.from_account_id, a.id);
    assert_eq!(tx.to_account_id, b.id);
    assert_eq!(tx.currency, "QZN");
    assert_eq!(tx.amount, 250);
    assert_eq!(tx.idempotency_key.as_deref(), Some("key-7"));
    assert_eq!(tx.sequence, 1);
}

#[test]
fn money_helpers_read_the_amount() {
    assert!(Money::new("QZN", 5).is_positive());
    assert!(!Money::new("QZN", 0).is_positive());
    assert!(!Money::new("QZN", -5).is_positive());
    assert!(Money::new("QZN", 0).is_zero());
    assert!(!Money::new("QZN", 1).is_zero());
}

#[test]
fn error_messages_match_their_kinds() {
    assert_eq!(LedgerError::NotFound.message(), "not found");
    assert_eq!(LedgerError::InsufficientFunds.message(), "insufficient funds");
    assert_eq!(LedgerError::InvalidAmount.message(), "invalid amount (must be > 0)");
    assert_eq!(LedgerError::InvalidCurrency.message(), "invalid currency");
}

#[test]
fn ledger_reports_emptiness() {
    let mut ledger = Ledger::new();
    assert!(ledger.is_empty());
    ledger.create_account(Money::new("QZN", 1)).unwrap();
    assert!(!ledger.is_empty());
}
