//! What holds of the ledger across its operations.

use vstd::prelude::*;

use crate::account::AccountView;
use crate::entry::{opposite_side, EntryType, EntryView};
use crate::error::LedgerError;
use crate::ledger::{
    account_tally, balance_outcome, entries_known, entries_tally, find_transaction, history_outcome,
    involves, involving, key_used,
    lemma_entries_tally_stuck, lemma_txs_tally_stuck, post_outcome, post_step, reversed_entries,
    reversed_entry, signed_amount, txs_tally, LedgerModel,
};
use crate::money::{tally_step, Currency, Money, Tally};
use crate::transaction::{balanced, side_amount, side_sum_in, validation, TxView};

verus! {

// ---------------------------------------------------------------------
// Sums of signed amounts

/// Debits less credits on `account` over the lines `es`.
pub open spec fn entries_net(es: Seq<EntryView>, account: Seq<char>) -> int
    decreases es.len(),
{
    if es.len() == 0 {
        0
    } else {
        (if es[0].account_id == account {
            signed_amount(es[0])
        } else {
            0
        }) + entries_net(es.drop_first(), account)
    }
}

/// Debits less credits on `account` over a whole history.
pub open spec fn history_net(txs: Seq<TxView>, account: Seq<char>) -> int
    decreases txs.len(),
{
    if txs.len() == 0 {
        0
    } else {
        entries_net(txs[0].entries, account) + history_net(txs.drop_first(), account)
    }
}

/// Debits less credits in one currency over all the lines, whatever their
/// accounts.
pub open spec fn lines_net_in(es: Seq<EntryView>, currency: Currency) -> int
    decreases es.len(),
{
    if es.len() == 0 {
        0
    } else {
        (if es[0].amount.currency == currency {
            signed_amount(es[0])
        } else {
            0
        }) + lines_net_in(es.drop_first(), currency)
    }
}

proof fn lemma_entries_tally_sum(x: int, es: Seq<EntryView>, account: Seq<char>, y: int)
    requires
        i64::MIN <= x <= i64::MAX,
        entries_tally(Tally::Sum(x), es, account) == Tally::Sum(y),
    ensures
        y == x + entries_net(es, account),
        i64::MIN <= y <= i64::MAX,
    decreases es.len(),
{
    if es.len() > 0 {
        let next = if es[0].account_id == account {
            tally_step(Tally::Sum(x), signed_amount(es[0]), es[0].amount.currency)
        } else {
            Tally::Sum(x)
        };
        if !(next is Sum) {
            lemma_entries_tally_stuck(next, es.drop_first(), account);
        } else {
            lemma_entries_tally_sum(next->Sum_0, es.drop_first(), account, y);
        }
    }
}

proof fn lemma_txs_tally_sum(x: int, txs: Seq<TxView>, account: Seq<char>, y: int)
    requires
        i64::MIN <= x <= i64::MAX,
        txs_tally(Tally::Sum(x), txs, account) == Tally::Sum(y),
    ensures
        y == x + history_net(txs, account),
        i64::MIN <= y <= i64::MAX,
    decreases txs.len(),
{
    if txs.len() > 0 {
        let inner = entries_tally(Tally::Sum(x), txs[0].entries, account);
        if !(inner is Sum) {
            lemma_txs_tally_stuck(inner, txs.drop_first(), account);
        } else {
            lemma_entries_tally_sum(x, txs[0].entries, account, inner->Sum_0);
            lemma_txs_tally_sum(inner->Sum_0, txs.drop_first(), account, y);
        }
    }
}

proof fn lemma_history_net_push(txs: Seq<TxView>, t: TxView, account: Seq<char>)
    ensures
        history_net(txs.push(t), account) == history_net(txs, account) + entries_net(t.entries, account),
    decreases txs.len(),
{
    if txs.len() == 0 {
        assert(txs.push(t).drop_first() =~= Seq::<TxView>::empty());
        assert(history_net(Seq::<TxView>::empty(), account) == 0);
        assert(txs.push(t)[0] == t);
    } else {
        assert(txs.push(t).drop_first() =~= txs.drop_first().push(t));
        assert(txs.push(t)[0] == txs[0]);
        lemma_history_net_push(txs.drop_first(), t, account);
    }
}

proof fn lemma_lines_net_sides(es: Seq<EntryView>, currency: Currency)
    ensures
        lines_net_in(es, currency) == side_sum_in(es, EntryType::Debit, currency) - side_sum_in(
            es,
            EntryType::Credit,
            currency,
        ),
    decreases es.len(),
{
    if es.len() > 0 {
        lemma_lines_net_sides(es.drop_first(), currency);
    }
}

// ---------------------------------------------------------------------
// Balances are derived from history

/// Balance derivation: a balance the ledger answers is, in naira, the
/// account's debits less its credits over the whole recorded history.
pub proof fn law_balance_is_history_net(m: LedgerModel, account: Seq<char>, b: Money)
    requires
        balance_outcome(m, account) == Ok::<Money, LedgerError>(b),
    ensures
        b.currency == Currency::NGN,
        b.amount == history_net(m.transactions, account),
{
    let t = account_tally(m.transactions, account);
    assert(t is Sum);
    lemma_txs_tally_sum(0, m.transactions, account, t->Sum_0);
}

/// Recording one more transaction moves an account's balance by exactly
/// that transaction's debits less credits on the account.
pub proof fn law_balance_after_append(m: LedgerModel, t: TxView, account: Seq<char>, before: Money, after: Money)
    requires
        balance_outcome(m, account) == Ok::<Money, LedgerError>(before),
        balance_outcome(LedgerModel { transactions: m.transactions.push(t), ..m }, account) == Ok::<
            Money,
            LedgerError,
        >(after),
    ensures
        after.amount == before.amount + entries_net(t.entries, account),
{
    law_balance_is_history_net(m, account, before);
    law_balance_is_history_net(LedgerModel { transactions: m.transactions.push(t), ..m }, account, after);
    lemma_history_net_push(m.transactions, t, account);
}

proof fn lemma_untouched_net_zero(es: Seq<EntryView>, account: Seq<char>)
    requires
        forall|i: int| 0 <= i < es.len() ==> #[trigger] es[i].account_id != account,
    ensures
        entries_net(es, account) == 0,
    decreases es.len(),
{
    if es.len() > 0 {
        assert(es[0].account_id != account);
        assert forall|i: int| 0 <= i < es.drop_first().len() implies #[trigger] es.drop_first()[i].account_id
            != account by {
            assert(es.drop_first()[i] == es[i + 1]);
        }
        lemma_untouched_net_zero(es.drop_first(), account);
    }
}

proof fn lemma_involving_net(txs: Seq<TxView>, account: Seq<char>)
    ensures
        history_net(involving(txs, account), account) == history_net(txs, account),
    decreases txs.len(),
{
    if txs.len() > 0 {
        let p = txs.drop_last();
        let t = txs.last();
        lemma_involving_net(p, account);
        assert(p.push(t) =~= txs);
        lemma_history_net_push(p, t, account);
        if involves(t, account) {
            lemma_history_net_push(involving(p, account), t, account);
        } else {
            assert forall|i: int| 0 <= i < t.entries.len() implies #[trigger] t.entries[i].account_id
                != account by {
                if t.entries[i].account_id == account {
                    assert(involves(t, account));
                }
            }
            lemma_untouched_net_zero(t.entries, account);
        }
    }
}

/// Audit trail: an account's history accounts for its whole balance; the
/// balance is the debits less credits of the transactions in its history.
pub proof fn law_history_explains_balance(m: LedgerModel, account: Seq<char>, b: Money)
    requires
        balance_outcome(m, account) == Ok::<Money, LedgerError>(b),
    ensures
        history_outcome(m, account) == Ok::<Seq<TxView>, LedgerError>(involving(m.transactions, account)),
        b.amount == history_net(involving(m.transactions, account), account),
{
    law_balance_is_history_net(m, account, b);
    lemma_involving_net(m.transactions, account);
}

// ---------------------------------------------------------------------
// Reversals

/// The reversal of a list of lines moves every account by the opposite
/// amount.
pub proof fn law_reversal_negates(es: Seq<EntryView>, account: Seq<char>)
    ensures
        entries_net(reversed_entries(es), account) == -entries_net(es, account),
    decreases es.len(),
{
    if es.len() > 0 {
        assert(reversed_entries(es).drop_first() =~= reversed_entries(es.drop_first()));
        law_reversal_negates(es.drop_first(), account);
    }
}

/// Reversal zeroes out: where a transaction is followed by its reversal,
/// every account's balance is what it was before the transaction.
pub proof fn law_reversal_restores_balance(
    m: LedgerModel,
    t: TxView,
    rt: TxView,
    account: Seq<char>,
    before: Money,
    after: Money,
)
    requires
        rt.entries == reversed_entries(t.entries),
        balance_outcome(m, account) == Ok::<Money, LedgerError>(before),
        balance_outcome(LedgerModel { transactions: m.transactions.push(t).push(rt), ..m }, account)
            == Ok::<Money, LedgerError>(after),
    ensures
        after == before,
{
    law_balance_is_history_net(m, account, before);
    law_balance_is_history_net(
        LedgerModel { transactions: m.transactions.push(t).push(rt), ..m },
        account,
        after,
    );
    lemma_history_net_push(m.transactions, t, account);
    lemma_history_net_push(m.transactions.push(t), rt, account);
    law_reversal_negates(t.entries, account);
}

proof fn lemma_side_sum_reversed(es: Seq<EntryView>, side: EntryType, currency: Currency)
    ensures
        side_sum_in(reversed_entries(es), side, currency) == side_sum_in(es, opposite_side(side), currency),
    decreases es.len(),
{
    if es.len() > 0 {
        let r = reversed_entries(es);
        assert(r.drop_first() =~= reversed_entries(es.drop_first()));
        assert(r[0] == reversed_entry(es[0]));
        lemma_side_sum_reversed(es.drop_first(), side, currency);
    }
}

/// A reversal validates exactly as the transaction it reverses does: in
/// each currency its credits are the debits of the transaction it undoes,
/// and its debits that transaction's credits.
pub proof fn law_reversal_validates_alike(es: Seq<EntryView>)
    ensures
        validation(reversed_entries(es)) == validation(es),
{
    let r = reversed_entries(es);
    assert forall|c: Currency| #[trigger] side_sum_in(r, EntryType::Debit, c) == side_sum_in(es, EntryType::Credit, c)
        && side_sum_in(r, EntryType::Credit, c) == side_sum_in(es, EntryType::Debit, c) by {
        lemma_side_sum_reversed(es, EntryType::Debit, c);
        lemma_side_sum_reversed(es, EntryType::Credit, c);
    }
    if balanced(r) != balanced(es) {
        if balanced(r) {
            let c = choose|c: Currency| !(#[trigger] side_sum_in(es, EntryType::Debit, c) == side_sum_in(es, EntryType::Credit, c));
            assert(side_sum_in(r, EntryType::Debit, c) == side_sum_in(r, EntryType::Credit, c));
        } else {
            let c = choose|c: Currency| !(#[trigger] side_sum_in(r, EntryType::Debit, c) == side_sum_in(r, EntryType::Credit, c));
            assert(side_sum_in(es, EntryType::Debit, c) == side_sum_in(es, EntryType::Credit, c));
        }
    }
}

// ---------------------------------------------------------------------
// The books stay in order

/// Every recorded transaction balances and names only known accounts.
pub open spec fn books_in_order(m: LedgerModel) -> bool {
    forall|i: int|
        0 <= i < m.transactions.len() ==> {
            &&& validation(#[trigger] m.transactions[i].entries) is Ok
            &&& entries_known(m.transactions[i].entries, m.accounts)
        }
}

/// A new ledger's books are in order.
pub proof fn law_empty_books_in_order(accounts: Map<Seq<char>, AccountView>, keys: Map<Seq<char>, Seq<char>>)
    ensures
        books_in_order(LedgerModel { transactions: Seq::empty(), accounts, keys }),
{
}

/// Opening an account keeps the books in order.
pub proof fn law_open_account_keeps_books(m: LedgerModel, a: AccountView)
    requires
        books_in_order(m),
    ensures
        books_in_order(LedgerModel { accounts: m.accounts.insert(a.id, a), ..m }),
{
    let m2 = LedgerModel { accounts: m.accounts.insert(a.id, a), ..m };
    assert forall|i: int| 0 <= i < m2.transactions.len() implies {
        &&& validation(#[trigger] m2.transactions[i].entries) is Ok
        &&& entries_known(m2.transactions[i].entries, m2.accounts)
    } by {
        let es = m.transactions[i].entries;
        assert(entries_known(es, m.accounts));
        assert forall|j: int| 0 <= j < es.len() implies #[trigger] m2.accounts.contains_key(
            es[j].account_id,
        ) by {
            assert(m.accounts.contains_key(es[j].account_id));
        }
    }
}

/// Double entry: posting keeps the books in order, so every recorded
/// transaction balances (total debits equal total credits).
pub proof fn law_post_keeps_books(
    before: LedgerModel,
    tx: TxView,
    key: Option<Seq<char>>,
    after: LedgerModel,
    r: Result<Seq<char>, LedgerError>,
    can_fail: bool,
)
    requires
        books_in_order(before),
        post_step(before, tx, key, after, r, can_fail),
    ensures
        books_in_order(after),
{
    let (m2, r2) = post_outcome(before, tx, key);
    if after.transactions != before.transactions {
        assert(after == m2);
        assert forall|i: int| 0 <= i < after.transactions.len() implies {
            &&& validation(#[trigger] after.transactions[i].entries) is Ok
            &&& entries_known(after.transactions[i].entries, after.accounts)
        } by {
            if i < before.transactions.len() {
                assert(after.transactions[i] == before.transactions[i]);
            }
        }
    }
}

/// Immutable history: posting never changes or removes a recorded
/// transaction; it adds at most the one posted, at the end.
pub proof fn law_post_appends_only(
    before: LedgerModel,
    tx: TxView,
    key: Option<Seq<char>>,
    after: LedgerModel,
    r: Result<Seq<char>, LedgerError>,
    can_fail: bool,
)
    requires
        post_step(before, tx, key, after, r, can_fail),
    ensures
        after.transactions == before.transactions || after.transactions == before.transactions.push(tx),
        after.accounts == before.accounts,
        r is Ok && after.transactions != before.transactions ==> r == Ok::<Seq<char>, LedgerError>(tx.id),
{
}

/// Idempotency: once a post under a key has answered an id, every later
/// post under that key answers the same id and records nothing.
pub proof fn law_idempotent_post(
    m0: LedgerModel,
    tx1: TxView,
    key: Seq<char>,
    m1: LedgerModel,
    id: Seq<char>,
    tx2: TxView,
    m2: LedgerModel,
    r2: Result<Seq<char>, LedgerError>,
    can_fail: bool,
)
    requires
        post_step(m0, tx1, Some(key), m1, Ok(id), can_fail),
        post_step(m1, tx2, Some(key), m2, r2, can_fail),
    ensures
        m2 == m1,
        r2 == Ok::<Seq<char>, LedgerError>(id),
{
    assert(m1.keys.contains_key(key) && m1.keys[key] == id);
}

/// The transaction found by id is one of the list.
proof fn lemma_found_is_recorded(txs: Seq<TxView>, id: Seq<char>)
    ensures
        find_transaction(txs, id) matches Some(t) ==> exists|i: int|
            0 <= i < txs.len() && #[trigger] txs[i] == t && t.id == id,
    decreases txs.len(),
{
    if txs.len() > 0 && txs[0].id != id {
        lemma_found_is_recorded(txs.drop_first(), id);
        if find_transaction(txs, id) is Some {
            let i = choose|i: int|
                0 <= i < txs.drop_first().len() && #[trigger] txs.drop_first()[i] == find_transaction(
                    txs,
                    id,
                )->Some_0;
            assert(txs[i + 1] == txs.drop_first()[i]);
        }
    } else if txs.len() > 0 {
        assert(txs[0] == txs[0]);
    }
}

/// In books in order, the reversal of a recorded transaction is accepted
/// under a fresh key: it balances and names only known accounts.
pub proof fn law_reversal_accepted(m: LedgerModel, id: Seq<char>, new_id: Seq<char>, key: Option<Seq<char>>)
    requires
        books_in_order(m),
        find_transaction(m.transactions, id) is Some,
        !key_used(m, key),
    ensures
        ({
            let t = find_transaction(m.transactions, id)->Some_0;
            post_outcome(m, TxView { id: new_id, entries: reversed_entries(t.entries) }, key).1 == Ok::<
                Seq<char>,
                LedgerError,
            >(new_id)
        }),
{
    let t = find_transaction(m.transactions, id)->Some_0;
    lemma_found_is_recorded(m.transactions, id);
    let i = choose|i: int| 0 <= i < m.transactions.len() && #[trigger] m.transactions[i] == t && t.id == id;
    assert(validation(m.transactions[i].entries) is Ok);
    law_reversal_validates_alike(t.entries);
    let rs = reversed_entries(t.entries);
    assert(entries_known(t.entries, m.accounts));
    assert forall|j: int| 0 <= j < rs.len() implies #[trigger] m.accounts.contains_key(rs[j].account_id) by {
        assert(rs[j].account_id == t.entries[j].account_id);
    }
}

/// Debits equal credits: in a validated transaction, debits less credits
/// over all lines of one currency are zero.
pub proof fn law_validated_lines_net_zero(es: Seq<EntryView>, currency: Currency)
    requires
        validation(es) is Ok,
    ensures
        lines_net_in(es, currency) == 0,
{
    assert(side_sum_in(es, EntryType::Debit, currency) == side_sum_in(es, EntryType::Credit, currency));
    lemma_lines_net_sides(es, currency);
}

/// Debits less credits in one currency over every line of every
/// transaction.
pub open spec fn ledger_lines_net_in(txs: Seq<TxView>, currency: Currency) -> int
    decreases txs.len(),
{
    if txs.len() == 0 {
        0
    } else {
        lines_net_in(txs[0].entries, currency) + ledger_lines_net_in(txs.drop_first(), currency)
    }
}

/// Trial balance: in books in order, total debits equal total credits over
/// the whole ledger, in every currency.
pub proof fn law_trial_balance(m: LedgerModel, currency: Currency)
    requires
        books_in_order(m),
    ensures
        ledger_lines_net_in(m.transactions, currency) == 0,
    decreases m.transactions.len(),
{
    let txs = m.transactions;
    if txs.len() > 0 {
        assert(validation(txs[0].entries) is Ok);
        law_validated_lines_net_zero(txs[0].entries, currency);
        let rest = LedgerModel { transactions: txs.drop_first(), ..m };
        assert forall|i: int| 0 <= i < rest.transactions.len() implies {
            &&& validation(#[trigger] rest.transactions[i].entries) is Ok
            &&& entries_known(rest.transactions[i].entries, rest.accounts)
        } by {
            assert(rest.transactions[i] == txs[i + 1]);
            assert(validation(txs[i + 1].entries) is Ok);
        }
        law_trial_balance(rest, currency);
    }
}

// ---------------------------------------------------------------------
// The order of lines does not matter

proof fn lemma_side_sum_remove(es: Seq<EntryView>, i: int, side: EntryType, currency: Currency)
    requires
        0 <= i < es.len(),
    ensures
        side_sum_in(es, side, currency) == side_amount(es[i], side, currency) + side_sum_in(
            es.remove(i),
            side,
            currency,
        ),
    decreases es.len(),
{
    if i == 0 {
        assert(es.remove(0) =~= es.drop_first());
    } else {
        assert(es.remove(i).drop_first() =~= es.drop_first().remove(i - 1));
        assert(es.remove(i)[0] == es[0]);
        assert(es.drop_first()[i - 1] == es[i]);
        lemma_side_sum_remove(es.drop_first(), i - 1, side, currency);
    }
}

proof fn lemma_side_sum_multiset(a: Seq<EntryView>, b: Seq<EntryView>, side: EntryType, currency: Currency)
    requires
        a.to_multiset() == b.to_multiset(),
    ensures
        side_sum_in(a, side, currency) == side_sum_in(b, side, currency),
    decreases a.len(),
{
    broadcast use vstd::seq_lib::group_to_multiset_ensures;

    if a.len() == 0 {
        assert(b.to_multiset().len() == 0);
        assert(b.len() == 0);
    } else {
        let x = a[0];
        assert(a.contains(x));
        assert(a.to_multiset().count(x) > 0);
        assert(b.contains(x));
        let j = choose|j: int| 0 <= j < b.len() && b[j] == x;
        assert(a.remove(0) =~= a.drop_first());
        assert(a.remove(0).to_multiset() == a.to_multiset().remove(a[0]));
        assert(b.remove(j).to_multiset() == b.to_multiset().remove(b[j]));
        lemma_side_sum_multiset(a.drop_first(), b.remove(j), side, currency);
        lemma_side_sum_remove(b, j, side, currency);
    }
}

/// Validation does not depend on the order of the lines: lines that are the
/// same up to order validate alike.
pub proof fn law_validation_ignores_order(a: Seq<EntryView>, b: Seq<EntryView>)
    requires
        a.to_multiset() == b.to_multiset(),
    ensures
        validation(a) == validation(b),
{
    broadcast use vstd::seq_lib::group_to_multiset_ensures;

    assert(a.len() == a.to_multiset().len());
    assert(b.len() == b.to_multiset().len());
    assert forall|c: Currency|
        #[trigger] side_sum_in(a, EntryType::Debit, c) == side_sum_in(b, EntryType::Debit, c)
            && side_sum_in(a, EntryType::Credit, c) == side_sum_in(b, EntryType::Credit, c) by {
        lemma_side_sum_multiset(a, b, EntryType::Debit, c);
        lemma_side_sum_multiset(a, b, EntryType::Credit, c);
    }
    if balanced(a) != balanced(b) {
        if balanced(a) {
            let c = choose|c: Currency| !(#[trigger] side_sum_in(b, EntryType::Debit, c) == side_sum_in(b, EntryType::Credit, c));
            assert(side_sum_in(a, EntryType::Debit, c) == side_sum_in(a, EntryType::Credit, c));
        } else {
            let c = choose|c: Currency| !(#[trigger] side_sum_in(a, EntryType::Debit, c) == side_sum_in(a, EntryType::Credit, c));
            assert(side_sum_in(b, EntryType::Debit, c) == side_sum_in(b, EntryType::Credit, c));
        }
    }
}

// ---------------------------------------------------------------------
// The balances of all accounts

/// `f` added up over a list of account ids.
pub open spec fn sum_over(ids: Seq<Seq<char>>, f: spec_fn(Seq<char>) -> int) -> int
    decreases ids.len(),
{
    if ids.len() == 0 {
        0
    } else {
        f(ids[0]) + sum_over(ids.drop_first(), f)
    }
}

/// The amounts of a list of money, added up.
pub open spec fn money_total(ms: Seq<Money>) -> int
    decreases ms.len(),
{
    if ms.len() == 0 {
        0
    } else {
        ms[0].amount + money_total(ms.drop_first())
    }
}

proof fn lemma_sum_over_split(
    ids: Seq<Seq<char>>,
    f: spec_fn(Seq<char>) -> int,
    g: spec_fn(Seq<char>) -> int,
    h: spec_fn(Seq<char>) -> int,
)
    requires
        forall|a: Seq<char>| #[trigger] h(a) == f(a) + g(a),
    ensures
        sum_over(ids, h) == sum_over(ids, f) + sum_over(ids, g),
    decreases ids.len(),
{
    if ids.len() > 0 {
        lemma_sum_over_split(ids.drop_first(), f, g, h);
    }
}

proof fn lemma_sum_over_zero(ids: Seq<Seq<char>>, f: spec_fn(Seq<char>) -> int)
    requires
        forall|i: int| 0 <= i < ids.len() ==> #[trigger] f(ids[i]) == 0,
    ensures
        sum_over(ids, f) == 0,
    decreases ids.len(),
{
    if ids.len() > 0 {
        assert(f(ids[0]) == 0);
        assert forall|i: int| 0 <= i < ids.drop_first().len() implies #[trigger] f(ids.drop_first()[i]) == 0 by {
            assert(ids.drop_first()[i] == ids[i + 1]);
        }
        lemma_sum_over_zero(ids.drop_first(), f);
    }
}

proof fn lemma_sum_over_single(ids: Seq<Seq<char>>, f: spec_fn(Seq<char>) -> int, x: Seq<char>, v: int)
    requires
        ids.no_duplicates(),
        ids.contains(x),
        forall|a: Seq<char>| #[trigger] f(a) == if a == x { v } else { 0 },
    ensures
        sum_over(ids, f) == v,
    decreases ids.len(),
{
    let rest = ids.drop_first();
    if ids[0] == x {
        assert forall|i: int| 0 <= i < rest.len() implies #[trigger] f(rest[i]) == 0 by {
            assert(rest[i] == ids[i + 1]);
            assert(ids[i + 1] != ids[0]);
        }
        lemma_sum_over_zero(rest, f);
    } else {
        let k = choose|k: int| 0 <= k < ids.len() && ids[k] == x;
        assert(rest[k - 1] == x);
        assert(rest.no_duplicates()) by {
            assert forall|i: int, j: int| 0 <= i < rest.len() && 0 <= j < rest.len() && i != j implies rest[i]
                != rest[j] by {
                assert(rest[i] == ids[i + 1] && rest[j] == ids[j + 1]);
            }
        }
        lemma_sum_over_single(rest, f, x, v);
    }
}

/// Every line of the lines names an account in `ids`, in naira.
pub open spec fn lines_in_naira_on(es: Seq<EntryView>, ids: Seq<Seq<char>>) -> bool {
    forall|i: int|
        0 <= i < es.len() ==> ids.contains(#[trigger] es[i].account_id) && es[i].amount.currency
            == Currency::NGN
}

proof fn lemma_entries_sum_over(es: Seq<EntryView>, ids: Seq<Seq<char>>)
    requires
        ids.no_duplicates(),
        lines_in_naira_on(es, ids),
    ensures
        sum_over(ids, |a: Seq<char>| entries_net(es, a)) == lines_net_in(es, Currency::NGN),
    decreases es.len(),
{
    let f = |a: Seq<char>| entries_net(es, a);
    if es.len() == 0 {
        lemma_sum_over_zero(ids, f);
    } else {
        let rest = es.drop_first();
        assert(lines_in_naira_on(rest, ids)) by {
            assert forall|i: int| 0 <= i < rest.len() implies ids.contains(#[trigger] rest[i].account_id)
                && rest[i].amount.currency == Currency::NGN by {
                assert(rest[i] == es[i + 1]);
                assert(ids.contains(es[i + 1].account_id) && es[i + 1].amount.currency == Currency::NGN);
            }
        }
        lemma_entries_sum_over(rest, ids);
        let x = es[0].account_id;
        assert(ids.contains(x) && es[0].amount.currency == Currency::NGN);
        let t = |a: Seq<char>| if a == x { signed_amount(es[0]) } else { 0 };
        let g = |a: Seq<char>| entries_net(rest, a);
        lemma_sum_over_split(ids, t, g, f);
        lemma_sum_over_single(ids, t, x, signed_amount(es[0]));
    }
}

proof fn lemma_history_sum_over(txs: Seq<TxView>, ids: Seq<Seq<char>>)
    requires
        ids.no_duplicates(),
        forall|i: int| 0 <= i < txs.len() ==> lines_in_naira_on(#[trigger] txs[i].entries, ids),
    ensures
        sum_over(ids, |a: Seq<char>| history_net(txs, a)) == ledger_lines_net_in(txs, Currency::NGN),
    decreases txs.len(),
{
    let f = |a: Seq<char>| history_net(txs, a);
    if txs.len() == 0 {
        lemma_sum_over_zero(ids, f);
    } else {
        let rest = txs.drop_first();
        assert forall|i: int| 0 <= i < rest.len() implies lines_in_naira_on(#[trigger] rest[i].entries, ids) by {
            assert(rest[i] == txs[i + 1]);
        }
        lemma_history_sum_over(rest, ids);
        assert(lines_in_naira_on(txs[0].entries, ids));
        lemma_entries_sum_over(txs[0].entries, ids);
        let t = |a: Seq<char>| entries_net(txs[0].entries, a);
        let g = |a: Seq<char>| history_net(rest, a);
        lemma_sum_over_split(ids, t, g, f);
    }
}

proof fn lemma_money_total_matches(ms: Seq<Money>, ids: Seq<Seq<char>>, f: spec_fn(Seq<char>) -> int)
    requires
        ms.len() == ids.len(),
        forall|k: int| 0 <= k < ids.len() ==> #[trigger] ms[k].amount == f(ids[k]),
    ensures
        money_total(ms) == sum_over(ids, f),
    decreases ids.len(),
{
    if ids.len() > 0 {
        assert(ms[0].amount == f(ids[0]));
        assert forall|k: int| 0 <= k < ids.drop_first().len() implies #[trigger] ms.drop_first()[k].amount == f(
            ids.drop_first()[k],
        ) by {
            assert(ms.drop_first()[k] == ms[k + 1]);
            assert(ids.drop_first()[k] == ids[k + 1]);
        }
        lemma_money_total_matches(ms.drop_first(), ids.drop_first(), f);
    }
}

/// Total debits equal total credits across the ledger: in books in order
/// whose lines are all in naira, the balances of all the accounts add up
/// to zero.
pub proof fn law_balances_sum_to_zero(m: LedgerModel, ids: Seq<Seq<char>>, balances: Seq<Money>)
    requires
        books_in_order(m),
        ids.no_duplicates(),
        forall|a: Seq<char>| #[trigger] m.accounts.contains_key(a) <==> ids.contains(a),
        forall|i: int, j: int|
            0 <= i < m.transactions.len() && 0 <= j < m.transactions[i].entries.len()
                ==> #[trigger] m.transactions[i].entries[j].amount.currency == Currency::NGN,
        balances.len() == ids.len(),
        forall|k: int|
            0 <= k < ids.len() ==> balance_outcome(m, #[trigger] ids[k]) == Ok::<Money, LedgerError>(
                balances[k],
            ),
    ensures
        money_total(balances) == 0,
{
    let txs = m.transactions;
    assert forall|i: int| 0 <= i < txs.len() implies lines_in_naira_on(#[trigger] txs[i].entries, ids) by {
        let es = txs[i].entries;
        assert(entries_known(es, m.accounts));
        assert forall|j: int| 0 <= j < es.len() implies ids.contains(#[trigger] es[j].account_id)
            && es[j].amount.currency == Currency::NGN by {
            assert(m.accounts.contains_key(es[j].account_id));
            assert(m.transactions[i].entries[j].amount.currency == Currency::NGN);
        }
    }
    lemma_history_sum_over(txs, ids);
    law_trial_balance(m, Currency::NGN);
    let f = |a: Seq<char>| history_net(txs, a);
    assert forall|k: int| 0 <= k < ids.len() implies #[trigger] balances[k].amount == f(ids[k]) by {
        law_balance_is_history_net(m, ids[k], balances[k]);
    }
    lemma_money_total_matches(balances, ids, f);
}

} // verus!
