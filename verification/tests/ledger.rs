use qazna_ledger::Ledger;
use qazna_ledger::LedgerError;
use qazna_ledger::Money;

#[test]
fn create_account_and_get_balance() {
    let mut ledger = Ledger::new();
    let account = ledger
        .create_account(Money::new("QZN", 1_000))
        .expect("create account");
    assert_eq!(account.id.len(), 26);
    let balance = ledger.get_balance(&account.id, "QZN").expect("balance");
    assert_eq!(balance.amount, 1_000);
}

#[test]
fn transfer_success() {
    let mut ledger = Ledger::new();
    let a = ledger.create_account(Money::new("QZN", 1_000)).unwrap();
    let b = ledger.create_account(Money::new("QZN", 0)).unwrap();

    ledger
        .transfer(&a.id, &b.id, Money::new("QZN", 600), None)
        .expect("transfer");

    assert_eq!(ledger.get_balance(&a.id, "QZN").unwrap().amount, 400);
    assert_eq!(ledger.get_balance(&b.id, "QZN").unwrap().amount, 600);
}

#[test]
fn transfer_insufficient() {
    let mut ledger = Ledger::new();
    let a = ledger.create_account(Money::new("QZN", 100)).unwrap();
    let b = ledger.create_account(Money::new("QZN", 0)).unwrap();

    let err = ledger
        .transfer(&a.id, &b.id, Money::new("QZN", 200), None)
        .unwrap_err();
    assert_eq!(err, LedgerError::InsufficientFunds);
}

#[test]
fn transfer_idempotent() {
    let mut ledger = Ledger::new();
    let a = ledger.create_account(Money::new("QZN", 1_000)).unwrap();
    let b = ledger.create_account(Money::new("QZN", 0)).unwrap();

    let tx1 = ledger
        .transfer(&a.id, &b.id, Money::new("QZN", 200), Some("same"))
        .unwrap();
    let tx2 = ledger
        .transfer(&a.id, &b.id, Money::new("QZN", 200), Some("same"))
        .unwrap();

    assert_eq!(tx1.id, tx2.id);
    assert_eq!(ledger.get_balance(&a.id, "QZN").unwrap().amount, 800);
}

#[test]
fn list_transactions_respects_limit() {
    let mut ledger = Ledger::new();
    let a = ledger.create_account(Money::new("QZN", 5000)).unwrap();
    let b = ledger.create_account(Money::new("QZN", 0)).unwrap();

    for _ in 0..5 {
        ledger
            .transfer(&a.id, &b.id, Money::new("QZN", 100), None)
            .unwrap();
    }

    let (txs, last) = ledger.list_transactions(3, 0).unwrap();
    assert_eq!(txs.len(), 3);
    assert!(last.is_some());
}
