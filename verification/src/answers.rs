//! What each operation answers, stated directly in terms of its inputs.

use vstd::prelude::*;

use crate::entry::{EntryType, EntryView};
use crate::error::LedgerError;
use crate::ledger::{
    balance_outcome, entries_tally, history_outcome, involves, involving, key_used, post_step,
    signed_amount, txs_tally, LedgerModel,
};
use crate::money::{abs_int, decimal_digits, digit_char, naira_text, tally_step, Currency, Money, Tally};
use crate::transaction::{balanced, side_sum_in, validation, TxView};

verus! {

// ---------------------------------------------------------------------
// Balances

/// What a line does to its account: debits add their amount, credits take
/// it away.
pub open spec fn debit_less_credit(e: EntryView) -> int {
    if e.entry_type == EntryType::Debit {
        e.amount.amount as int
    } else {
        0 - e.amount.amount
    }
}

/// The lines among `es` that name `account`, in order.
pub open spec fn lines_on_in(es: Seq<EntryView>, account: Seq<char>) -> Seq<EntryView>
    decreases es.len(),
{
    if es.len() == 0 {
        Seq::empty()
    } else if es[0].account_id == account {
        seq![es[0]] + lines_on_in(es.drop_first(), account)
    } else {
        lines_on_in(es.drop_first(), account)
    }
}

/// The lines of a history that name `account`, transaction after
/// transaction, in order.
pub open spec fn lines_on(txs: Seq<TxView>, account: Seq<char>) -> Seq<EntryView>
    decreases txs.len(),
{
    if txs.len() == 0 {
        Seq::empty()
    } else {
        lines_on_in(txs[0].entries, account) + lines_on(txs.drop_first(), account)
    }
}

/// Debits less credits over a list of lines.
pub open spec fn net_of(ls: Seq<EntryView>) -> int
    decreases ls.len(),
{
    if ls.len() == 0 {
        0
    } else {
        debit_less_credit(ls[0]) + net_of(ls.drop_first())
    }
}

/// Every running total of the lines, from the first on, fits in `i64`.
pub open spec fn running_totals_fit(ls: Seq<EntryView>) -> bool {
    forall|k: int| 0 <= k <= ls.len() ==> i64::MIN <= #[trigger] net_of(ls.take(k)) <= i64::MAX
}

/// Every line of the list is in naira.
pub open spec fn all_in_naira(ls: Seq<EntryView>) -> bool {
    forall|i: int| 0 <= i < ls.len() ==> #[trigger] ls[i].amount.currency == Currency::NGN
}

/// A running naira balance over a list of lines.
spec fn run_lines(t: Tally, ls: Seq<EntryView>) -> Tally
    decreases ls.len(),
{
    if ls.len() == 0 {
        t
    } else {
        run_lines(tally_step(t, signed_amount(ls[0]), ls[0].amount.currency), ls.drop_first())
    }
}

proof fn lemma_run_stuck(t: Tally, ls: Seq<EntryView>)
    requires
        !(t is Sum),
    ensures
        run_lines(t, ls) == t,
    decreases ls.len(),
{
    if ls.len() > 0 {
        lemma_run_stuck(t, ls.drop_first());
    }
}

proof fn lemma_run_concat(t: Tally, x: Seq<EntryView>, y: Seq<EntryView>)
    ensures
        run_lines(t, x + y) == run_lines(run_lines(t, x), y),
    decreases x.len(),
{
    if x.len() == 0 {
        assert(x + y =~= y);
    } else {
        assert((x + y)[0] == x[0]);
        assert((x + y).drop_first() =~= x.drop_first() + y);
        lemma_run_concat(tally_step(t, signed_amount(x[0]), x[0].amount.currency), x.drop_first(), y);
    }
}

proof fn lemma_entries_tally_is_run(t: Tally, es: Seq<EntryView>, account: Seq<char>)
    ensures
        entries_tally(t, es, account) == run_lines(t, lines_on_in(es, account)),
    decreases es.len(),
{
    if es.len() > 0 {
        let rest = es.drop_first();
        lemma_entries_tally_is_run(
            if es[0].account_id == account {
                tally_step(t, signed_amount(es[0]), es[0].amount.currency)
            } else {
                t
            },
            rest,
            account,
        );
        if es[0].account_id == account {
            let one = seq![es[0]];
            lemma_run_concat(t, one, lines_on_in(rest, account));
            assert(one[0] == es[0]);
            assert(one.drop_first() =~= Seq::<EntryView>::empty());
            let st = tally_step(t, signed_amount(es[0]), es[0].amount.currency);
            assert(run_lines(st, Seq::<EntryView>::empty()) == st);
            assert(run_lines(t, one) == tally_step(t, signed_amount(es[0]), es[0].amount.currency));
            assert(lines_on_in(es, account) == one + lines_on_in(rest, account));
        }
    }
}

proof fn lemma_txs_tally_is_run(t: Tally, txs: Seq<TxView>, account: Seq<char>)
    ensures
        txs_tally(t, txs, account) == run_lines(t, lines_on(txs, account)),
    decreases txs.len(),
{
    if txs.len() > 0 {
        lemma_entries_tally_is_run(t, txs[0].entries, account);
        lemma_txs_tally_is_run(entries_tally(t, txs[0].entries, account), txs.drop_first(), account);
        lemma_run_concat(t, lines_on_in(txs[0].entries, account), lines_on(txs.drop_first(), account));
    }
}

proof fn lemma_net_of_take(ls: Seq<EntryView>, k: int)
    requires
        0 <= k < ls.len(),
    ensures
        net_of(ls.take(k + 1)) == debit_less_credit(ls[0]) + net_of(ls.drop_first().take(k)),
{
    assert(ls.take(k + 1)[0] == ls[0]);
    assert(ls.take(k + 1).drop_first() =~= ls.drop_first().take(k));
}

proof fn lemma_run_in_naira(s: int, ls: Seq<EntryView>)
    requires
        all_in_naira(ls),
        forall|k: int| 0 <= k <= ls.len() ==> i64::MIN <= s + #[trigger] net_of(ls.take(k)) <= i64::MAX,
    ensures
        run_lines(Tally::Sum(s), ls) == Tally::Sum(s + net_of(ls)),
    decreases ls.len(),
{
    if ls.len() == 0 {
        assert(ls.take(0) =~= ls);
    } else {
        let rest = ls.drop_first();
        assert(ls[0].amount.currency == Currency::NGN);
        lemma_net_of_take(ls, 0);
        assert(ls.drop_first().take(0) =~= Seq::<EntryView>::empty());
        assert(i64::MIN <= s + net_of(ls.take(1)) <= i64::MAX);
        let s2 = s + debit_less_credit(ls[0]);
        assert(signed_amount(ls[0]) == debit_less_credit(ls[0]));
        assert forall|k: int| 0 <= k <= rest.len() implies i64::MIN <= s2 + #[trigger] net_of(rest.take(k))
            <= i64::MAX by {
            lemma_net_of_take(ls, k);
            assert(i64::MIN <= s + net_of(ls.take(k + 1)) <= i64::MAX);
        }
        assert forall|i: int| 0 <= i < rest.len() implies #[trigger] rest[i].amount.currency == Currency::NGN by {
            assert(rest[i] == ls[i + 1]);
        }
        lemma_run_in_naira(s2, rest);
        assert(ls.take(ls.len() as int) =~= ls);
    }
}

proof fn lemma_run_sum_means_naira(s: int, ls: Seq<EntryView>)
    requires
        run_lines(Tally::Sum(s), ls) is Sum,
    ensures
        all_in_naira(ls),
    decreases ls.len(),
{
    if ls.len() > 0 {
        let next = tally_step(Tally::Sum(s), signed_amount(ls[0]), ls[0].amount.currency);
        if !(next is Sum) {
            lemma_run_stuck(next, ls.drop_first());
        } else {
            lemma_run_sum_means_naira(next->Sum_0, ls.drop_first());
            assert forall|i: int| 0 <= i < ls.len() implies #[trigger] ls[i].amount.currency == Currency::NGN by {
                if i > 0 {
                    assert(ls.drop_first()[i - 1] == ls[i]);
                }
            }
        }
    }
}

/// A balance answers `Ok` exactly from the lines that name the account:
/// where all of them are in naira and every running total fits in `i64`,
/// the balance of a known account is their debits less credits, in naira.
pub proof fn law_balance_of_naira_lines(m: LedgerModel, account: Seq<char>)
    requires
        m.accounts.contains_key(account),
        all_in_naira(lines_on(m.transactions, account)),
        running_totals_fit(lines_on(m.transactions, account)),
    ensures
        balance_outcome(m, account) == Ok::<Money, LedgerError>(
            Money { amount: net_of(lines_on(m.transactions, account)) as i64, currency: Currency::NGN },
        ),
{
    let ls = lines_on(m.transactions, account);
    lemma_txs_tally_is_run(Tally::Sum(0), m.transactions, account);
    assert forall|k: int| 0 <= k <= ls.len() implies i64::MIN <= 0 + #[trigger] net_of(ls.take(k))
        <= i64::MAX by {
        assert(i64::MIN <= net_of(ls.take(k)) <= i64::MAX);
    }
    lemma_run_in_naira(0, ls);
}

/// A balance that answers `Ok` comes from lines on the account that are all
/// in naira, and is their debits less credits.
pub proof fn law_balance_ok_means_naira_lines(m: LedgerModel, account: Seq<char>, b: Money)
    requires
        balance_outcome(m, account) == Ok::<Money, LedgerError>(b),
    ensures
        m.accounts.contains_key(account),
        all_in_naira(lines_on(m.transactions, account)),
        b.currency == Currency::NGN,
        b.amount == net_of(lines_on(m.transactions, account)),
{
    let ls = lines_on(m.transactions, account);
    lemma_txs_tally_is_run(Tally::Sum(0), m.transactions, account);
    lemma_run_sum_means_naira(0, ls);
    assert forall|k: int| 0 <= k <= ls.len() implies i64::MIN <= #[trigger] net_of(ls.take(k)) <= i64::MAX by {
        lemma_run_prefix_fits(0, ls, k);
    }
    lemma_run_in_naira(0, ls);
    assert(ls.take(ls.len() as int) =~= ls);
    assert(i64::MIN <= net_of(ls.take(ls.len() as int)) <= i64::MAX);
}

proof fn lemma_run_prefix_fits(s: int, ls: Seq<EntryView>, k: int)
    requires
        i64::MIN <= s <= i64::MAX,
        run_lines(Tally::Sum(s), ls) is Sum,
        0 <= k <= ls.len(),
    ensures
        i64::MIN <= s + net_of(ls.take(k)) <= i64::MAX,
    decreases ls.len(),
{
    if k == 0 {
        assert(ls.take(0) =~= Seq::<EntryView>::empty());
    } else {
        let next = tally_step(Tally::Sum(s), signed_amount(ls[0]), ls[0].amount.currency);
        if !(next is Sum) {
            lemma_run_stuck(next, ls.drop_first());
        } else {
            lemma_run_prefix_fits(next->Sum_0, ls.drop_first(), k - 1);
            lemma_net_of_take(ls, k - 1);
            assert(signed_amount(ls[0]) == debit_less_credit(ls[0]));
        }
    }
}

/// Lines that do not name an account have no effect on its balance: two
/// ledgers with the same accounts and the same lines on `account` answer
/// the same balance for it.
pub proof fn law_balance_ignores_other_lines(m1: LedgerModel, m2: LedgerModel, account: Seq<char>)
    requires
        m1.accounts == m2.accounts,
        lines_on(m1.transactions, account) == lines_on(m2.transactions, account),
    ensures
        balance_outcome(m1, account) == balance_outcome(m2, account),
{
    lemma_txs_tally_is_run(Tally::Sum(0), m1.transactions, account);
    lemma_txs_tally_is_run(Tally::Sum(0), m2.transactions, account);
}

// ---------------------------------------------------------------------
// Posting

/// A refused post (a transaction that does not validate, or that names an
/// unknown account) leaves the ledger as it was: no transaction recorded,
/// no account changed, no key used up.
pub proof fn law_refused_post_changes_nothing(
    before: LedgerModel,
    tx: TxView,
    key: Option<Seq<char>>,
    after: LedgerModel,
    r: Result<Seq<char>, LedgerError>,
    can_fail: bool,
)
    requires
        post_step(before, tx, key, after, r, can_fail),
        r is Err,
        r != Err::<Seq<char>, LedgerError>(LedgerError::StorageError),
    ensures
        after == before,
{
}

/// A post under a key not used before (or under none) that answers `Ok`
/// has recorded the transaction at the end of the history, answers its id,
/// and keeps the key for that id.
pub proof fn law_fresh_post_records(
    before: LedgerModel,
    tx: TxView,
    key: Option<Seq<char>>,
    after: LedgerModel,
    id: Seq<char>,
    can_fail: bool,
)
    requires
        post_step(before, tx, key, after, Ok(id), can_fail),
        !key_used(before, key),
    ensures
        id == tx.id,
        after.transactions == before.transactions.push(tx),
        after.accounts == before.accounts,
        after.keys == match key {
            Some(k) => before.keys.insert(k, tx.id),
            None => before.keys,
        },
        validation(tx.entries) == Ok::<(), LedgerError>(()),
        forall|i: int| 0 <= i < tx.entries.len() ==> before.accounts.contains_key(#[trigger] tx.entries[i].account_id),
{
}

/// On a store that cannot fail, a post under a fresh key is accepted
/// exactly when the transaction validates and every line names a known
/// account; it is refused with the validation error first, then with
/// `AccountNotFound`.
pub proof fn law_post_accepts_exactly(
    before: LedgerModel,
    tx: TxView,
    key: Option<Seq<char>>,
    after: LedgerModel,
    r: Result<Seq<char>, LedgerError>,
)
    requires
        post_step(before, tx, key, after, r, false),
        !key_used(before, key),
    ensures
        validation(tx.entries) is Err ==> r == Err::<Seq<char>, LedgerError>(validation(tx.entries)->Err_0),
        validation(tx.entries) is Ok ==> (r is Ok <==> forall|i: int|
            0 <= i < tx.entries.len() ==> before.accounts.contains_key(#[trigger] tx.entries[i].account_id)),
        validation(tx.entries) is Ok && r is Err ==> r == Err::<Seq<char>, LedgerError>(LedgerError::AccountNotFound),
{
}

// ---------------------------------------------------------------------
// Validation

/// The debits in one currency, added up.
pub open spec fn debits_in(es: Seq<EntryView>, currency: Currency) -> int
    decreases es.len(),
{
    if es.len() == 0 {
        0
    } else {
        (if es[0].entry_type == EntryType::Debit && es[0].amount.currency == currency {
            es[0].amount.amount as int
        } else {
            0
        }) + debits_in(es.drop_first(), currency)
    }
}

/// The credits in one currency, added up.
pub open spec fn credits_in(es: Seq<EntryView>, currency: Currency) -> int
    decreases es.len(),
{
    if es.len() == 0 {
        0
    } else {
        (if es[0].entry_type == EntryType::Credit && es[0].amount.currency == currency {
            es[0].amount.amount as int
        } else {
            0
        }) + credits_in(es.drop_first(), currency)
    }
}

proof fn lemma_side_sums(es: Seq<EntryView>, currency: Currency)
    ensures
        side_sum_in(es, EntryType::Debit, currency) == debits_in(es, currency),
        side_sum_in(es, EntryType::Credit, currency) == credits_in(es, currency),
    decreases es.len(),
{
    if es.len() > 0 {
        lemma_side_sums(es.drop_first(), currency);
    }
}

/// Validation answers: fewer than two lines are refused as empty; two or
/// more lines are accepted exactly when, in every currency, the debits add
/// up to the credits, and are refused as unbalanced otherwise. Any number
/// of lines may balance.
pub proof fn law_validation_answers(es: Seq<EntryView>)
    ensures
        es.len() < 2 ==> validation(es) == Err::<(), LedgerError>(LedgerError::EmptyTransaction),
        es.len() >= 2 && (forall|c: Currency| #[trigger] debits_in(es, c) == credits_in(es, c))
            ==> validation(es) == Ok::<(), LedgerError>(()),
        es.len() >= 2 && (exists|c: Currency| #[trigger] debits_in(es, c) != credits_in(es, c))
            ==> validation(es) == Err::<(), LedgerError>(LedgerError::UnbalancedTransaction),
{
    assert forall|c: Currency|
        #[trigger] side_sum_in(es, EntryType::Debit, c) == debits_in(es, c) && side_sum_in(
            es,
            EntryType::Credit,
            c,
        ) == credits_in(es, c) by {
        lemma_side_sums(es, c);
    }
    if es.len() >= 2 {
        if exists|c: Currency| #[trigger] debits_in(es, c) != credits_in(es, c) {
            let c = choose|c: Currency| #[trigger] debits_in(es, c) != credits_in(es, c);
            assert(side_sum_in(es, EntryType::Debit, c) != side_sum_in(es, EntryType::Credit, c));
            assert(!balanced(es));
        } else {
            assert forall|c: Currency| #[trigger] side_sum_in(es, EntryType::Debit, c) == side_sum_in(
                es,
                EntryType::Credit,
                c,
            ) by {
                assert(debits_in(es, c) == credits_in(es, c));
            }
        }
    }
}

// ---------------------------------------------------------------------
// History

/// One of the transaction's lines names exactly `account`.
pub open spec fn has_line_on(t: TxView, account: Seq<char>) -> bool {
    exists|i: int| 0 <= i < t.entries.len() && #[trigger] t.entries[i].account_id == account
}

proof fn lemma_involving_is_filter(txs: Seq<TxView>, account: Seq<char>)
    ensures
        involving(txs, account) == txs.filter(|t: TxView| has_line_on(t, account)),
    decreases txs.len(),
{
    reveal_with_fuel(Seq::<_>::filter, 1);
    if txs.len() > 0 {
        lemma_involving_is_filter(txs.drop_last(), account);
        assert(involves(txs.last(), account) == has_line_on(txs.last(), account));
    }
}

/// History answers, for a known account, exactly the recorded transactions
/// with a line naming that account (its id, not merely a similar one), in
/// the order they were recorded; for an unknown account, `AccountNotFound`.
pub proof fn law_history_answers(m: LedgerModel, account: Seq<char>)
    ensures
        !m.accounts.contains_key(account) ==> history_outcome(m, account) == Err::<Seq<TxView>, LedgerError>(
            LedgerError::AccountNotFound,
        ),
        m.accounts.contains_key(account) ==> history_outcome(m, account) == Ok::<Seq<TxView>, LedgerError>(
            m.transactions.filter(|t: TxView| has_line_on(t, account)),
        ),
{
    lemma_involving_is_filter(m.transactions, account);
}

// ---------------------------------------------------------------------
// Money as text

/// The character is one of the digits `0` to `9`.
pub open spec fn is_digit(c: char) -> bool {
    '0' <= c && c <= '9'
}

/// The number that a string of decimal digits reads as.
pub open spec fn digits_value(ds: Seq<char>) -> int
    decreases ds.len(),
{
    if ds.len() == 0 {
        0
    } else {
        digits_value(ds.drop_last()) * 10 + (ds.last() as int - '0' as int)
    }
}

proof fn lemma_digit_char(d: int)
    requires
        0 <= d < 10,
    ensures
        digit_char(d) as int == '0' as int + d,
        is_digit(digit_char(d)),
{
}

proof fn lemma_decimal_digits(n: nat)
    ensures
        decimal_digits(n).len() >= 1,
        forall|i: int| 0 <= i < decimal_digits(n).len() ==> is_digit(#[trigger] decimal_digits(n)[i]),
        digits_value(decimal_digits(n)) == n,
        n >= 10 ==> decimal_digits(n)[0] != '0',
    decreases n,
{
    if n < 10 {
        lemma_digit_char(n as int);
        let ds = decimal_digits(n);
        assert(ds.drop_last() =~= Seq::<char>::empty());
        assert(digits_value(Seq::<char>::empty()) == 0);
        assert(ds.last() == digit_char(n as int));
        assert(digits_value(ds) == n);
    } else {
        let q = (n / 10) as nat;
        let r = (n % 10) as int;
        lemma_decimal_digits(q);
        lemma_digit_char(r);
        let ds = decimal_digits(n);
        assert(ds == decimal_digits(q).push(digit_char(r)));
        assert(ds.drop_last() =~= decimal_digits(q));
        assert(n == q * 10 + r);
        assert(ds.last() == digit_char(r));
        assert(digits_value(ds) == digits_value(decimal_digits(q)) * 10 + r);
        assert forall|i: int| 0 <= i < ds.len() implies is_digit(#[trigger] ds[i]) by {
            if i < ds.len() - 1 {
                assert(ds[i] == decimal_digits(q)[i]);
            }
        }
        if q >= 10 {
            assert(ds[0] == decimal_digits(q)[0]);
        } else {
            assert(ds[0] == digit_char(q as int));
            lemma_digit_char(q as int);
        }
    }
}

/// How `formatted` reads, character by character: the naira sign; a minus
/// sign exactly when the amount is a naira or more below zero; the whole
/// naira, |amount| / 100, in decimal digits with no leading zero; a point;
/// and the last two decimal digits of |amount|, the kobo.
pub proof fn law_naira_text_reads(amount: int)
    ensures
        ({
            let s = naira_text(amount);
            let mag = abs_int(amount);
            let start: int = if amount <= -100 { 2 } else { 1 };
            let whole = s.subrange(start, s.len() - 3);
            &&& s.len() >= start + 4
            &&& s[0] == '₦'
            &&& (amount <= -100 <==> s[1] == '-')
            &&& forall|i: int| 0 <= i < whole.len() ==> is_digit(#[trigger] whole[i])
            &&& digits_value(whole) == mag / 100
            &&& (whole.len() > 1 ==> whole[0] != '0')
            &&& s[s.len() - 3] == '.'
            &&& s[s.len() - 2] as int == '0' as int + (mag % 100) / 10
            &&& s[s.len() - 1] as int == '0' as int + mag % 10
        }),
{
    let s = naira_text(amount);
    let mag = abs_int(amount);
    let start: int = if amount <= -100 { 2 } else { 1 };
    let sign = if amount <= -100 { seq!['-'] } else { Seq::<char>::empty() };
    let ds = decimal_digits(mag / 100);
    let tail = seq!['.', digit_char(((mag % 100) / 10) as int), digit_char((mag % 10) as int)];
    assert(s == seq!['₦'] + sign + ds + tail);
    lemma_decimal_digits(mag / 100);
    lemma_digit_char(((mag % 100) / 10) as int);
    lemma_digit_char((mag % 10) as int);
    assert(s.subrange(start, s.len() - 3) =~= ds);
    assert(s[s.len() - 3] == tail[0]);
    assert(s[s.len() - 2] == tail[1]);
    assert(s[s.len() - 1] == tail[2]);
    assert(s[0] == '₦');
    if amount <= -100 {
        assert(s[1] == '-');
    } else {
        assert(s[1] == ds[0]);
        assert(is_digit(ds[0]));
    }
    if ds.len() > 1 {
        assert(mag / 100 >= 10) by {
            if mag / 100 < 10 {
                assert(ds.len() == 1);
            }
        }
    }
}

} // verus!
