use vstd::prelude::*;

use crate::money::Money;

verus! {

/// The side of the books an entry stands on.
#[derive(Debug, Clone, Copy, PartialEq, Eq, Structural)]
pub enum EntryType {
    Debit,
    Credit,
}

/// One journal line: an amount debited or credited to an account.
#[derive(Debug, PartialEq)]
pub struct Entry {
    pub account_id: String,
    pub amount: Money,
    pub entry_type: EntryType,
}

/// A journal line as plain values.
pub struct EntryView {
    pub account_id: Seq<char>,
    pub amount: Money,
    pub entry_type: EntryType,
}

impl View for Entry {
    type V = EntryView;

    open spec fn view(&self) -> EntryView {
        EntryView { account_id: self.account_id@, amount: self.amount, entry_type: self.entry_type }
    }
}

impl Clone for Entry {
    fn clone(&self) -> (r: Self)
        ensures
            r == *self,
    {
        Entry { account_id: self.account_id.clone(), amount: self.amount, entry_type: self.entry_type }
    }
}

/// The same line on the other side of the books.
pub open spec fn opposite_side(t: EntryType) -> EntryType {
    match t {
        EntryType::Debit => EntryType::Credit,
        EntryType::Credit => EntryType::Debit,
    }
}

impl Entry {
    pub fn new(account_id: &str, amount: Money, entry_type: EntryType) -> (e: Entry)
        ensures
            e@ == (EntryView { account_id: account_id@, amount, entry_type }),
    {
        Entry { account_id: account_id.to_string(), amount, entry_type }
    }

    pub fn debit(account_id: &str, amount: Money) -> (e: Entry)
        ensures
            e@ == (EntryView { account_id: account_id@, amount, entry_type: EntryType::Debit }),
    {
        Entry::new(account_id, amount, EntryType::Debit)
    }

    pub fn credit(account_id: &str, amount: Money) -> (e: Entry)
        ensures
            e@ == (EntryView { account_id: account_id@, amount, entry_type: EntryType::Credit }),
    {
        Entry::new(account_id, amount, EntryType::Credit)
    }
}

} // verus!
