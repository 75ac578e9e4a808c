use vstd::prelude::*;

verus! {

/// The five classes of ledger account.
#[derive(Debug, Clone, Copy, PartialEq, Eq, Structural)]
pub enum AccountType {
    Asset,
    Liability,
    Equity,
    Revenue,
    Expense,
}

/// A ledger account, known by its id.
#[derive(Debug, PartialEq)]
pub struct Account {
    pub id: String,
    pub name: String,
    pub account_type: AccountType,
}

/// An account as plain values.
pub struct AccountView {
    pub id: Seq<char>,
    pub name: Seq<char>,
    pub account_type: AccountType,
}

impl View for Account {
    type V = AccountView;

    open spec fn view(&self) -> AccountView {
        AccountView { id: self.id@, name: self.name@, account_type: self.account_type }
    }
}

impl Clone for Account {
    fn clone(&self) -> (r: Self)
        ensures
            r == *self,
    {
        Account { id: self.id.clone(), name: self.name.clone(), account_type: self.account_type }
    }
}

impl Account {
    pub fn new(id: &str, name: &str, account_type: AccountType) -> (a: Account)
        ensures
            a@ == (AccountView { id: id@, name: name@, account_type }),
    {
        Account { id: id.to_string(), name: name.to_string(), account_type }
    }

    pub fn id(&self) -> (r: &str)
        ensures
            r@ == self.id@,
    {
        self.id.as_str()
    }
}

} // verus!
