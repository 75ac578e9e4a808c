use ledger_kit::account::AccountType;
use ledger_kit::entry::Entry;
use ledger_kit::error::LedgerError;
use ledger_kit::ledger::Ledger;
use ledger_kit::money::{Currency, Money};
use ledger_kit::storage::InMemoryStore;
use ledger_kit::transaction::Transaction;

fn setup_ledger() -> Ledger<InMemoryStore> {
    let mut ledger = Ledger::<InMemoryStore>::new();
    ledger
        .create_account("cash", "Cash Account", AccountType::Asset)
        .unwrap();
    ledger
        .create_account("wallet", "User Wallet", AccountType::Liability)
        .unwrap();
    ledger
}

#[test]
fn accepts_balanced_transaction() {
    let mut ledger = setup_ledger();

    let idempotency_key = Some("x");
    let tx = Transaction::new(vec![
        Entry::debit("cash", Money::new(100, Currency::NGN)),
        Entry::credit("wallet", Money::new(100, Currency::NGN)),
    ]);

    assert!(ledger.post(tx, idempotency_key).is_ok());
}

#[test]
fn rejects_unbalanced_transaction() {
    let mut ledger = setup_ledger();

    let idempotency_key = Some("x");
    let tx = Transaction::new(vec![
        Entry::debit("cash", Money::new(1000, Currency::NGN)),
        Entry::credit("wallet", Money::new(100, Currency::NGN)),
    ]);

    assert!(matches!(
        ledger.post(tx, idempotency_key),
        Err(LedgerError::UnbalancedTransaction)
    ));
}

#[test]
fn rejects_missing_account() {
    let mut ledger = setup_ledger();

    let idempotency_key = Some("x");
    let tx = Transaction::new(vec![
        Entry::debit("cash", Money::new(100, Currency::NGN)),
        Entry::credit("does_not_exist", Money::new(100, Currency::NGN)),
    ]);

    assert!(matches!(
        ledger.post(tx, idempotency_key),
        Err(LedgerError::AccountNotFound)
    ));
}

#[test]
fn calculates_balance_after_posting() {
    let mut ledger = setup_ledger();

    let idempotency_key = Some("x");
    let tx = Transaction::new(vec![
        Entry::debit("cash", Money::new(500, Currency::NGN)),
        Entry::credit("wallet", Money::new(500, Currency::NGN)),
    ]);

    ledger.post(tx, idempotency_key).unwrap();

    let cash_balance = ledger.balance("cash").unwrap();
    let wallet_balance = ledger.balance("wallet").unwrap();

    assert_eq!(cash_balance, Money::new(500, Currency::NGN));
    assert_eq!(wallet_balance, Money::new(-500, Currency::NGN));
}

#[test]
fn reversal_zeroes_balance() {
    let mut ledger = setup_ledger();

    let idempotency_key = Some("x");
    let tx = Transaction::new(vec![
        Entry::debit("cash", Money::new(500, Currency::NGN)),
        Entry::credit("wallet", Money::new(500, Currency::NGN)),
    ]);

    ledger.post(tx.clone(), idempotency_key).unwrap();
    let _ = ledger.reverse(tx.id(), Some("x-reversal"));

    let cash_balance = ledger.balance("cash").unwrap();

    assert_eq!(cash_balance, Money::new(0, Currency::NGN));
}

#[test]
fn reversal_creates_new_transaction() {
    let mut ledger = setup_ledger();

    let idempotency_key = Some("x");
    let tx = Transaction::new(vec![
        Entry::debit("cash", Money::new(500, Currency::NGN)),
        Entry::credit("wallet", Money::new(500, Currency::NGN)),
    ]);

    let tx_id = tx.id().to_string();
    ledger.post(tx, idempotency_key).unwrap();
    let _ = ledger.reverse(&tx_id, Some("x-reversal"));

    assert_eq!(ledger.transaction_count(), 2);
}

#[test]
fn history_returns_relevant_transactions() {
    let mut ledger = setup_ledger();

    let idempotency_key1 = Some("x");
    let idempotency_key2 = Some("y");
    let idempotency_key3 = Some("z");

    let tx1 = Transaction::new(vec![
        Entry::debit("cash", Money::new(500, Currency::NGN)),
        Entry::credit("cash", Money::new(500, Currency::NGN)),
    ]);

    let tx2 = Transaction::new(vec![
        Entry::debit("cash", Money::new(500, Currency::NGN)),
        Entry::credit("cash", Money::new(500, Currency::NGN)),
    ]);

    let tx3 = Transaction::new(vec![
        Entry::debit("wallet", Money::new(500, Currency::NGN)),
        Entry::credit("wallet", Money::new(500, Currency::NGN)),
    ]);

    ledger.post(tx1, idempotency_key1).unwrap();
    ledger.post(tx2, idempotency_key2).unwrap();
    ledger.post(tx3, idempotency_key3).unwrap();

    let history = ledger.history("cash");

    assert_eq!(history.unwrap().len(), 2);
}

#[test]
fn idempotent_post_returns_same_id() {
    let mut ledger = setup_ledger();

    let idempotency_key = Some("Key1");
    let tx = Transaction::new(vec![
        Entry::debit("cash", Money::new(500, Currency::NGN)),
        Entry::credit("wallet", Money::new(500, Currency::NGN)),
    ]);

    let id1 = ledger.post(tx.clone(), idempotency_key);
    let id2 = ledger.post(tx, idempotency_key);

    assert_eq!(id1, id2);
    assert_eq!(ledger.transaction_count(), 1);
}
