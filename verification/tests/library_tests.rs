use std::cell::Cell;
use std::rc::Rc;

use ledger_kit::account::{Account, AccountType};
use ledger_kit::entry::{Entry, EntryType};
use ledger_kit::error::LedgerError;
use ledger_kit::event::{Event, EventBus};
use ledger_kit::ledger::Ledger;
use ledger_kit::money::{Currency, Money};
use ledger_kit::snapshot::AccountSnapshot;
use ledger_kit::storage::{InMemoryStore, LedgerStore};
use ledger_kit::transaction::Transaction;

fn ngn(amount: i64) -> Money {
    Money::new(amount, Currency::NGN)
}

fn two_accounts() -> Ledger<InMemoryStore> {
    let mut ledger = Ledger::<InMemoryStore>::new();
    ledger.create_account("cash", "Cash", AccountType::Asset).unwrap();
    ledger.create_account("wallet", "Wallet", AccountType::Liability).unwrap();
    ledger
}

#[test]
fn money_adds_and_subtracts_within_a_currency() {
    let a = ngn(250);
    let b = ngn(100);
    assert_eq!(a.add(&b), Ok(ngn(350)));
    assert_eq!(a.sub(&b), Ok(ngn(150)));
    assert_eq!(b.sub(&a), Ok(ngn(-150)));
    assert_eq!(a.value(), 250);
}

#[test]
fn money_refuses_mixed_currencies() {
    let a = ngn(250);
    let b = Money::new(100, Currency::USD);
    assert_eq!(a.add(&b), Err(LedgerError::CurrencyMismatch));
    assert_eq!(a.sub(&b), Err(LedgerError::CurrencyMismatch));
}

#[test]
fn money_sub_undoes_add() {
    let a = ngn(-1234);
    let b = ngn(987);
    assert_eq!(a.add(&b).unwrap().sub(&b), Ok(a));
}

#[test]
fn money_reads_in_naira_and_kobo() {
    assert_eq!(ngn(1205).formatted(), "₦12.05");
    assert_eq!(ngn(0).formatted(), "₦0.00");
    assert_eq!(ngn(7).formatted(), "₦0.07");
    assert_eq!(ngn(-250).formatted(), "₦-2.50");
    assert_eq!(ngn(-50).formatted(), "₦0.50");
    assert_eq!(ngn(100000).formatted(), "₦1000.00");
}

#[test]
fn entries_carry_their_side() {
    let d = Entry::debit("cash", ngn(5));
    let c = Entry::credit("cash", ngn(5));
    assert_eq!(d.entry_type, EntryType::Debit);
    assert_eq!(c.entry_type, EntryType::Credit);
    assert_eq!(d.account_id, "cash");
    assert_eq!(Entry::new("x", ngn(1), EntryType::Credit), Entry::credit("x", ngn(1)));
}

#[test]
fn account_new_keeps_fields() {
    let a = Account::new("cash", "Cash", AccountType::Asset);
    assert_eq!(a.id(), "cash");
    assert_eq!(a.name, "Cash");
    assert_eq!(a.account_type, AccountType::Asset);
}

#[test]
fn transaction_ids_are_fresh_uuids() {
    let t1 = Transaction::new(vec![]);
    let t2 = Transaction::new(vec![]);
    let chars: Vec<char> = t1.id().chars().collect();
    assert_eq!(chars.len(), 36);
    for (i, c) in chars.iter().enumerate() {
        if i == 8 || i == 13 || i == 18 || i == 23 {
            assert_eq!(*c, '-');
        } else {
            assert!(c.is_ascii_digit() || ('a'..='f').contains(c));
        }
    }
    assert_eq!(chars[14], '4');
    assert!(['8', '9', 'a', 'b'].contains(&chars[19]));
    assert_ne!(t1.id(), t2.id());
}

#[test]
fn transaction_with_id_keeps_id_and_entries() {
    let t = Transaction::with_id("t-1", vec![Entry::debit("cash", ngn(3))]);
    assert_eq!(t.id(), "t-1");
    assert_eq!(t.entries().len(), 1);
    assert_eq!(t.entries()[0], Entry::debit("cash", ngn(3)));
    let c = t.clone();
    assert_eq!(c.id(), "t-1");
    assert_eq!(c.entries()[0], t.entries()[0]);
}

#[test]
fn validate_refuses_fewer_than_two_lines() {
    let t = Transaction::new(vec![Entry::debit("cash", ngn(3))]);
    assert_eq!(t.validate(), Err(LedgerError::EmptyTransaction));
    let t = Transaction::new(vec![]);
    assert_eq!(t.validate(), Err(LedgerError::EmptyTransaction));
}

#[test]
fn validate_compares_credit_and_debit_totals() {
    let ok = Transaction::new(vec![
        Entry::debit("cash", ngn(300)),
        Entry::debit("cash", ngn(200)),
        Entry::credit("wallet", ngn(500)),
    ]);
    assert_eq!(ok.validate(), Ok(()));
    let bad = Transaction::new(vec![
        Entry::debit("cash", ngn(300)),
        Entry::credit("wallet", ngn(500)),
    ]);
    assert_eq!(bad.validate(), Err(LedgerError::UnbalancedTransaction));
    let one_sided = Transaction::new(vec![
        Entry::debit("cash", ngn(0)),
        Entry::debit("wallet", ngn(0)),
    ]);
    assert_eq!(one_sided.validate(), Ok(()));
}

#[test]
fn validate_with_foreign_currency_on_one_side_is_unbalanced() {
    let t = Transaction::new(vec![
        Entry::debit("cash", ngn(100)),
        Entry::credit("wallet", Money::new(100, Currency::USD)),
    ]);
    assert_eq!(t.validate(), Err(LedgerError::UnbalancedTransaction));
}

#[test]
fn validate_balances_each_currency_separately() {
    let same = Transaction::new(vec![
        Entry::debit("cash", Money::new(100, Currency::USD)),
        Entry::credit("wallet", Money::new(100, Currency::USD)),
    ]);
    assert_eq!(same.validate(), Ok(()));
    let short = Transaction::new(vec![
        Entry::debit("cash", Money::new(1000, Currency::USD)),
        Entry::credit("wallet", Money::new(100, Currency::USD)),
    ]);
    assert_eq!(short.validate(), Err(LedgerError::UnbalancedTransaction));
    let crossed = Transaction::new(vec![
        Entry::debit("cash", Money::new(500, Currency::USD)),
        Entry::credit("wallet", Money::new(100, Currency::EUR)),
    ]);
    assert_eq!(crossed.validate(), Err(LedgerError::UnbalancedTransaction));
    let same_figure = Transaction::new(vec![
        Entry::debit("cash", Money::new(100, Currency::USD)),
        Entry::credit("wallet", Money::new(100, Currency::EUR)),
    ]);
    assert_eq!(same_figure.validate(), Err(LedgerError::UnbalancedTransaction));
    let mixed = Transaction::new(vec![
        Entry::debit("cash", ngn(100)),
        Entry::debit("cash", Money::new(7, Currency::EUR)),
        Entry::credit("wallet", Money::new(7, Currency::EUR)),
        Entry::credit("wallet", ngn(100)),
    ]);
    assert_eq!(mixed.validate(), Ok(()));
}

#[test]
fn validate_does_not_overflow_on_large_amounts() {
    let t = Transaction::new(vec![
        Entry::debit("cash", ngn(i64::MAX)),
        Entry::debit("cash", ngn(i64::MAX)),
        Entry::credit("wallet", ngn(i64::MAX)),
        Entry::credit("wallet", ngn(i64::MAX)),
    ]);
    assert_eq!(t.validate(), Ok(()));
}

#[test]
fn in_memory_store_replaces_account_with_same_id() {
    let mut s = InMemoryStore::new();
    s.save_account(&Account::new("cash", "Cash", AccountType::Asset)).unwrap();
    s.save_account(&Account::new("cash", "Till", AccountType::Asset)).unwrap();
    s.save_account(&Account::new("bank", "Bank", AccountType::Asset)).unwrap();
    let accounts = s.load_accounts().unwrap();
    assert_eq!(accounts.len(), 2);
    let cash = accounts.iter().find(|a| a.id == "cash").unwrap();
    assert_eq!(cash.name, "Till");
}

#[test]
fn in_memory_store_keeps_transactions_in_order() {
    let mut s = InMemoryStore::default();
    s.save_transaction(&Transaction::with_id("a", vec![])).unwrap();
    s.save_transaction(&Transaction::with_id("b", vec![])).unwrap();
    let txs = s.load_transactions().unwrap();
    assert_eq!(txs.len(), 2);
    assert_eq!(txs[0].id(), "a");
    assert_eq!(txs[1].id(), "b");
}

#[test]
fn post_returns_the_transaction_id() {
    let mut ledger = two_accounts();
    let tx = Transaction::with_id("t-1", vec![Entry::debit("cash", ngn(9)), Entry::credit("wallet", ngn(9))]);
    assert_eq!(ledger.post(tx, None), Ok("t-1".to_string()));
    assert_eq!(ledger.transaction_count(), 1);
}

#[test]
fn post_refuses_empty_transaction() {
    let mut ledger = two_accounts();
    let tx = Transaction::new(vec![Entry::debit("cash", ngn(9))]);
    assert_eq!(ledger.post(tx, Some("k")), Err(LedgerError::EmptyTransaction));
    assert_eq!(ledger.transaction_count(), 0);
}

#[test]
fn refused_post_does_not_use_up_its_key() {
    let mut ledger = two_accounts();
    let bad = Transaction::new(vec![Entry::debit("cash", ngn(9)), Entry::credit("wallet", ngn(8))]);
    assert_eq!(ledger.post(bad, Some("k")), Err(LedgerError::UnbalancedTransaction));
    let good = Transaction::with_id("g", vec![Entry::debit("cash", ngn(9)), Entry::credit("wallet", ngn(9))]);
    assert_eq!(ledger.post(good, Some("k")), Ok("g".to_string()));
}

#[test]
fn used_key_answers_old_id_even_for_another_transaction() {
    let mut ledger = two_accounts();
    let first = Transaction::with_id("first", vec![Entry::debit("cash", ngn(9)), Entry::credit("wallet", ngn(9))]);
    let other = Transaction::with_id("other", vec![Entry::debit("cash", ngn(1)), Entry::credit("wallet", ngn(2))]);
    assert_eq!(ledger.post(first, Some("k")), Ok("first".to_string()));
    assert_eq!(ledger.post(other, Some("k")), Ok("first".to_string()));
    assert_eq!(ledger.transaction_count(), 1);
}

#[test]
fn posts_without_key_are_each_recorded() {
    let mut ledger = two_accounts();
    let tx = Transaction::new(vec![Entry::debit("cash", ngn(9)), Entry::credit("wallet", ngn(9))]);
    ledger.post(tx.clone(), None).unwrap();
    ledger.post(tx, None).unwrap();
    assert_eq!(ledger.transaction_count(), 2);
    assert_eq!(ledger.balance("cash"), Ok(ngn(18)));
}

#[test]
fn balance_of_unknown_account_is_refused() {
    let ledger = two_accounts();
    assert_eq!(ledger.balance("nope"), Err(LedgerError::AccountNotFound));
    assert_eq!(ledger.balance("cash"), Ok(ngn(0)));
}

#[test]
fn balance_is_debits_less_credits_over_history() {
    let mut ledger = two_accounts();
    ledger.create_account("fees", "Fees", AccountType::Revenue).unwrap();
    ledger
        .post(Transaction::new(vec![Entry::debit("cash", ngn(1000)), Entry::credit("wallet", ngn(1000))]), None)
        .unwrap();
    ledger
        .post(
            Transaction::new(vec![
                Entry::debit("wallet", ngn(300)),
                Entry::credit("cash", ngn(250)),
                Entry::credit("fees", ngn(50)),
            ]),
            None,
        )
        .unwrap();
    assert_eq!(ledger.balance("cash"), Ok(ngn(750)));
    assert_eq!(ledger.balance("wallet"), Ok(ngn(-700)));
    assert_eq!(ledger.balance("fees"), Ok(ngn(-50)));
}

#[test]
fn balance_over_foreign_currency_is_refused() {
    let mut ledger = two_accounts();
    let usd = Transaction::new(vec![
        Entry::debit("cash", Money::new(100, Currency::USD)),
        Entry::credit("wallet", Money::new(100, Currency::USD)),
    ]);
    assert!(ledger.post(usd, None).is_ok());
    assert_eq!(ledger.balance("cash"), Err(LedgerError::CurrencyMismatch));
}

#[test]
fn reverse_of_unknown_transaction_is_refused() {
    let mut ledger = two_accounts();
    assert_eq!(ledger.reverse("missing", None), Err(LedgerError::TransactionNotFound));
    assert_eq!(ledger.transaction_count(), 0);
}

#[test]
fn reversal_posts_the_opposite_lines_under_a_new_id() {
    let mut ledger = two_accounts();
    let tx = Transaction::with_id("t-1", vec![Entry::debit("cash", ngn(40)), Entry::credit("wallet", ngn(40))]);
    ledger.post(tx, None).unwrap();
    let rid = ledger.reverse("t-1", None).unwrap();
    assert_ne!(rid, "t-1");
    let history = ledger.history("cash").unwrap();
    assert_eq!(history.len(), 2);
    assert_eq!(history[0].id(), "t-1");
    assert_eq!(history[1].id(), rid);
    assert_eq!(history[1].entries()[0], Entry::credit("cash", ngn(40)));
    assert_eq!(history[1].entries()[1], Entry::debit("wallet", ngn(40)));
    assert_eq!(ledger.balance("cash"), Ok(ngn(0)));
    assert_eq!(ledger.balance("wallet"), Ok(ngn(0)));
}

#[test]
fn reversal_key_is_idempotent() {
    let mut ledger = two_accounts();
    let tx = Transaction::with_id("t-1", vec![Entry::debit("cash", ngn(40)), Entry::credit("wallet", ngn(40))]);
    ledger.post(tx, None).unwrap();
    let r1 = ledger.reverse("t-1", Some("rev")).unwrap();
    let r2 = ledger.reverse("t-1", Some("rev")).unwrap();
    assert_eq!(r1, r2);
    assert_eq!(ledger.transaction_count(), 2);
}

#[test]
fn reversal_restores_earlier_balance() {
    let mut ledger = two_accounts();
    ledger
        .post(Transaction::new(vec![Entry::debit("cash", ngn(123)), Entry::credit("wallet", ngn(123))]), None)
        .unwrap();
    let before = ledger.balance("cash").unwrap();
    let tx = Transaction::with_id("t-2", vec![Entry::debit("wallet", ngn(77)), Entry::credit("cash", ngn(77))]);
    ledger.post(tx, None).unwrap();
    assert_eq!(ledger.balance("cash"), Ok(ngn(46)));
    ledger.reverse("t-2", None).unwrap();
    assert_eq!(ledger.balance("cash"), Ok(before));
}

#[test]
fn history_of_unknown_account_is_refused() {
    let ledger = two_accounts();
    assert!(matches!(ledger.history("nope"), Err(LedgerError::AccountNotFound)));
    assert_eq!(ledger.history("cash").unwrap().len(), 0);
}

#[test]
fn history_keeps_posting_order() {
    let mut ledger = two_accounts();
    for id in ["a", "b", "c"] {
        let tx = Transaction::with_id(id, vec![Entry::debit("cash", ngn(1)), Entry::credit("wallet", ngn(1))]);
        ledger.post(tx, None).unwrap();
    }
    let ids: Vec<String> = ledger.history("wallet").unwrap().iter().map(|t| t.id().to_string()).collect();
    assert_eq!(ids, vec!["a", "b", "c"]);
}

#[test]
fn create_account_returns_the_account_and_replaces_same_id() {
    let mut ledger = Ledger::<InMemoryStore>::new();
    let a = ledger.create_account("cash", "Cash", AccountType::Asset).unwrap();
    assert_eq!(a, Account::new("cash", "Cash", AccountType::Asset));
    ledger.create_account("cash", "Till", AccountType::Asset).unwrap();
    assert_eq!(ledger.balance("cash"), Ok(ngn(0)));
}

#[test]
fn event_bus_calls_every_handler_on_publish() {
    let seen = Rc::new(Cell::new(0u32));
    let mut bus: EventBus<Box<dyn Fn(&Event)>> = EventBus::new();
    let s1 = seen.clone();
    bus.subscribe(Box::new(move |e: &Event| {
        if *e == Event::TransactionPosted {
            s1.set(s1.get() + 1)
        }
    }));
    let s2 = seen.clone();
    bus.subscribe(Box::new(move |_e: &Event| s2.set(s2.get() + 10)));
    bus.publish(&Event::TransactionPosted);
    assert_eq!(seen.get(), 11);
    bus.publish(&Event::AccountCreated);
    assert_eq!(seen.get(), 21);
}

#[test]
fn snapshot_keeps_fields() {
    let s = AccountSnapshot::new("cash", ngn(5), "t-9");
    assert_eq!(s.account_id, "cash");
    assert_eq!(s.balance, ngn(5));
    assert_eq!(s.last_transaction_id, "t-9");
}

#[test]
fn cloned_ledger_is_independent() {
    let mut ledger = two_accounts();
    let copy = ledger.clone();
    ledger
        .post(Transaction::new(vec![Entry::debit("cash", ngn(5)), Entry::credit("wallet", ngn(5))]), Some("k"))
        .unwrap();
    assert_eq!(ledger.transaction_count(), 1);
    assert_eq!(copy.transaction_count(), 0);
    assert_eq!(copy.balance("cash"), Ok(ngn(0)));
}

#[test]
fn cloned_store_holds_the_same() {
    let mut s = InMemoryStore::new();
    s.save_account(&Account::new("cash", "Cash", AccountType::Asset)).unwrap();
    s.save_transaction(&Transaction::with_id("a", vec![])).unwrap();
    let c = s.clone();
    assert_eq!(c.load_accounts().unwrap(), s.load_accounts().unwrap());
    assert_eq!(c.load_transactions().unwrap()[0].id(), "a");
}

#[test]
fn trial_balance_sums_to_zero() {
    let mut ledger = two_accounts();
    ledger.create_account("fees", "Fees", AccountType::Revenue).unwrap();
    ledger
        .post(Transaction::new(vec![Entry::debit("cash", ngn(1000)), Entry::credit("wallet", ngn(1000))]), None)
        .unwrap();
    ledger
        .post(
            Transaction::new(vec![
                Entry::debit("wallet", ngn(300)),
                Entry::credit("cash", ngn(250)),
                Entry::credit("fees", ngn(50)),
            ]),
            Some("k2"),
        )
        .unwrap();
    let total: i64 = ["cash", "wallet", "fees"]
        .iter()
        .map(|a| ledger.balance(a).unwrap().value())
        .sum();
    assert_eq!(total, 0);
}

#[test]
fn history_accounts_for_the_balance() {
    let mut ledger = two_accounts();
    ledger.create_account("fees", "Fees", AccountType::Revenue).unwrap();
    ledger
        .post(Transaction::new(vec![Entry::debit("cash", ngn(1000)), Entry::credit("wallet", ngn(1000))]), None)
        .unwrap();
    ledger
        .post(Transaction::new(vec![Entry::debit("wallet", ngn(40)), Entry::credit("fees", ngn(40))]), None)
        .unwrap();
    ledger
        .post(Transaction::new(vec![Entry::debit("fees", ngn(15)), Entry::credit("cash", ngn(15))]), None)
        .unwrap();
    for account in ["cash", "wallet", "fees"] {
        let mut net = 0i64;
        for tx in ledger.history(account).unwrap() {
            for e in tx.entries() {
                if e.account_id == account {
                    net += match e.entry_type {
                        EntryType::Debit => e.amount.value(),
                        EntryType::Credit => -e.amount.value(),
                    };
                }
            }
        }
        assert_eq!(ledger.balance(account).unwrap().value(), net);
    }
    assert_eq!(ledger.history("fees").unwrap().len(), 2);
}

#[test]
fn balance_after_a_post_moves_by_its_net() {
    let mut ledger = two_accounts();
    let before = ledger.balance("wallet").unwrap();
    ledger
        .post(Transaction::new(vec![Entry::debit("cash", ngn(60)), Entry::credit("wallet", ngn(60))]), None)
        .unwrap();
    assert_eq!(ledger.balance("wallet").unwrap().value(), before.value() - 60);
}

#[test]
fn validation_ignores_line_order() {
    let lines = || {
        vec![
            Entry::debit("cash", ngn(70)),
            Entry::credit("wallet", Money::new(5, Currency::EUR)),
            Entry::credit("wallet", ngn(70)),
            Entry::debit("cash", Money::new(5, Currency::EUR)),
        ]
    };
    let mut reordered = lines();
    reordered.reverse();
    reordered.swap(0, 2);
    assert_eq!(Transaction::new(lines()).validate(), Transaction::new(reordered).validate());
    assert_eq!(Transaction::new(lines()).validate(), Ok(()));
    let mut bad = lines();
    bad[0] = Entry::debit("cash", ngn(71));
    let mut bad_reordered = Vec::new();
    bad_reordered.push(bad[3].clone());
    bad_reordered.push(bad[1].clone());
    bad_reordered.push(bad[0].clone());
    bad_reordered.push(bad[2].clone());
    assert_eq!(Transaction::new(bad).validate(), Err(LedgerError::UnbalancedTransaction));
    assert_eq!(Transaction::new(bad_reordered).validate(), Err(LedgerError::UnbalancedTransaction));
}

#[test]
fn formatted_large_amount() {
    assert_eq!(ngn(i64::MAX).formatted(), "₦92233720368547758.07");
    assert_eq!(ngn(-i64::MAX).formatted(), "₦-92233720368547758.07");
}
