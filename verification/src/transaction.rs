use vstd::prelude::*;

use crate::entry::{Entry, EntryType, EntryView};
use crate::error::LedgerError;
use crate::money::Currency;

verus! {

/// A batch of journal lines recorded as one financial event, under an id.
/// Its fields are private: once made, a transaction is never changed.
#[derive(Debug)]
pub struct Transaction {
    id: String,
    entries: Vec<Entry>,
}

/// A transaction as plain values.
pub struct TxView {
    pub id: Seq<char>,
    pub entries: Seq<EntryView>,
}

pub open spec fn entries_view(es: Seq<Entry>) -> Seq<EntryView> {
    es.map_values(|e: Entry| e@)
}

pub open spec fn txs_view(txs: Seq<Transaction>) -> Seq<TxView> {
    txs.map_values(|t: Transaction| t@)
}

impl View for Transaction {
    type V = TxView;

    closed spec fn view(&self) -> TxView {
        TxView { id: self.id@, entries: entries_view(self.entries@) }
    }
}

/// The amount a line adds to the total of one side of the books in one
/// currency: its amount if it stands on that side in that currency, else 0.
pub open spec fn side_amount(e: EntryView, side: EntryType, currency: Currency) -> int {
    if e.entry_type == side && e.amount.currency == currency {
        e.amount.amount as int
    } else {
        0
    }
}

/// The total of one side of the books in one currency.
pub open spec fn side_sum_in(es: Seq<EntryView>, side: EntryType, currency: Currency) -> int
    decreases es.len(),
{
    if es.len() == 0 {
        0
    } else {
        side_amount(es[0], side, currency) + side_sum_in(es.drop_first(), side, currency)
    }
}

/// In every currency, the debits total the same as the credits.
pub open spec fn balanced(es: Seq<EntryView>) -> bool {
    forall|c: Currency|
        #[trigger] side_sum_in(es, EntryType::Debit, c) == side_sum_in(es, EntryType::Credit, c)
}

/// What validating a transaction with these lines yields: fewer than two
/// lines are refused as empty; otherwise, in every currency, total debits
/// must equal total credits.
pub open spec fn validation(es: Seq<EntryView>) -> Result<(), LedgerError> {
    if es.len() < 2 {
        Err(LedgerError::EmptyTransaction)
    } else if balanced(es) {
        Ok(())
    } else {
        Err(LedgerError::UnbalancedTransaction)
    }
}

proof fn lemma_side_sum_unfold(es: Seq<EntryView>, side: EntryType, currency: Currency, i: int)
    requires
        0 <= i < es.len(),
    ensures
        side_sum_in(es.skip(i), side, currency) == side_amount(es[i], side, currency) + side_sum_in(
            es.skip(i + 1),
            side,
            currency,
        ),
{
    assert(es.skip(i).drop_first() =~= es.skip(i + 1));
    assert(es.skip(i)[0] == es[i]);
}

/// Adds up the amounts on one side of the books in one currency. The total
/// is kept in `i128`, which holds the sum of any number of `i64` amounts
/// that a `Vec` can hold.
fn total_in(entries: &Vec<Entry>, side: EntryType, currency: Currency) -> (r: i128)
    ensures
        r == side_sum_in(entries_view(entries@), side, currency),
{
    let ghost es = entries_view(entries@);
    let mut acc: i128 = 0;
    let mut i: usize = 0;
    assert(es.skip(0) =~= es);
    while i < entries.len()
        invariant
            es == entries_view(entries@),
            0 <= i <= entries.len(),
            entries.len() <= usize::MAX,
            -(i as int) * 0x8000_0000_0000_0000 <= acc <= (i as int) * 0x7fff_ffff_ffff_ffff,
            acc + side_sum_in(es.skip(i as int), side, currency) == side_sum_in(es, side, currency),
        decreases entries.len() - i,
    {
        proof {
            lemma_side_sum_unfold(es, side, currency, i as int);
        }
        let e = &entries[i];
        assert(es[i as int] == e@);
        if e.entry_type == side && e.amount.currency == currency {
            acc = acc + e.amount.amount as i128;
        }
        i = i + 1;
    }
    assert(es.skip(i as int) =~= Seq::<EntryView>::empty());
    acc
}

/// A lowercase hexadecimal digit.
pub open spec fn is_hex_digit(c: char) -> bool {
    ('0' <= c && c <= '9') || ('a' <= c && c <= 'f')
}

/// The hyphenated lowercase text of a random (version 4, RFC 4122 variant)
/// UUID, such as `67e55044-10b1-426f-9247-bb680e5fe0c8`.
pub open spec fn is_uuid_v4_text(s: Seq<char>) -> bool {
    &&& s.len() == 36
    &&& forall|i: int|
        0 <= i < 36 ==> if i == 8 || i == 13 || i == 18 || i == 23 {
            #[trigger] s[i] == '-'
        } else {
            is_hex_digit(s[i])
        }
    &&& s[14] == '4'
    &&& (s[19] == '8' || s[19] == '9' || s[19] == 'a' || s[19] == 'b')
}

/// Makes a fresh transaction id: calls `uuid::Uuid::new_v4` (random) and
/// renders the UUID with `to_string`, which gives its hyphenated lowercase
/// form. Which UUID comes out is left open: only its shape is stated.
#[verifier::external_body]
fn fresh_transaction_id() -> (id: String)
    ensures
        is_uuid_v4_text(id@),
{
    uuid::Uuid::new_v4().to_string()
}

impl Clone for Transaction {
    fn clone(&self) -> (r: Self)
        ensures
            r@ == self@,
    {
        let mut entries: Vec<Entry> = Vec::new();
        let mut i: usize = 0;
        while i < self.entries.len()
            invariant
                0 <= i <= self.entries.len(),
                entries@.len() == i,
                forall|j: int| 0 <= j < i ==> entries@[j] == self.entries@[j],
            decreases self.entries.len() - i,
        {
            entries.push(self.entries[i].clone());
            i = i + 1;
        }
        assert(entries_view(entries@) =~= entries_view(self.entries@));
        Transaction { id: self.id.clone(), entries }
    }
}

impl Transaction {
    /// A new transaction under a fresh random id.
    pub fn new(entries: Vec<Entry>) -> (t: Transaction)
        ensures
            t@.entries == entries_view(entries@),
            is_uuid_v4_text(t@.id),
    {
        Transaction { id: fresh_transaction_id(), entries }
    }

    /// A new transaction under the given id.
    pub fn with_id(id: &str, entries: Vec<Entry>) -> (t: Transaction)
        ensures
            t@ == (TxView { id: id@, entries: entries_view(entries@) }),
    {
        Transaction { id: id.to_string(), entries }
    }

    pub fn id(&self) -> (r: &str)
        ensures
            r@ == self@.id,
    {
        self.id.as_str()
    }

    /// Whether this transaction is recorded under the given id.
    pub(crate) fn id_is(&self, id: &String) -> (r: bool)
        ensures
            r == (self@.id == id@),
    {
        self.id == *id
    }

    pub fn entries(&self) -> (r: &[Entry])
        ensures
            entries_view(r@) == self@.entries,
    {
        self.entries.as_slice()
    }

    /// Checks the double-entry rule: at least two lines, and in every
    /// currency, credits total the same as debits.
    pub fn validate(&self) -> (r: Result<(), LedgerError>)
        ensures
            r == validation(self@.entries),
    {
        if self.entries.len() < 2 {
            return Err(LedgerError::EmptyTransaction);
        }
        let ghost es = self@.entries;
        let ngn_ok = total_in(&self.entries, EntryType::Credit, Currency::NGN) == total_in(
            &self.entries,
            EntryType::Debit,
            Currency::NGN,
        );
        let usd_ok = total_in(&self.entries, EntryType::Credit, Currency::USD) == total_in(
            &self.entries,
            EntryType::Debit,
            Currency::USD,
        );
        let eur_ok = total_in(&self.entries, EntryType::Credit, Currency::EUR) == total_in(
            &self.entries,
            EntryType::Debit,
            Currency::EUR,
        );
        if !(ngn_ok && usd_ok && eur_ok) {
            proof {
                if balanced(es) {
                    assert(side_sum_in(es, EntryType::Debit, Currency::NGN) == side_sum_in(es, EntryType::Credit, Currency::NGN));
                    assert(side_sum_in(es, EntryType::Debit, Currency::USD) == side_sum_in(es, EntryType::Credit, Currency::USD));
                    assert(side_sum_in(es, EntryType::Debit, Currency::EUR) == side_sum_in(es, EntryType::Credit, Currency::EUR));
                }
            }
            return Err(LedgerError::UnbalancedTransaction);
        }
        proof {
            assert forall|c: Currency| #[trigger] side_sum_in(es, EntryType::Debit, c) == side_sum_in(
                es,
                EntryType::Credit,
                c,
            ) by {
                match c {
                    Currency::NGN => {},
                    Currency::USD => {},
                    Currency::EUR => {},
                }
            }
        }
        Ok(())
    }
}

} // verus!
