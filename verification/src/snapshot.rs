use vstd::prelude::*;

use crate::money::Money;

verus! {

/// The balance of an account as of a given transaction.
pub struct AccountSnapshot {
    pub account_id: String,
    pub balance: Money,
    pub last_transaction_id: String,
}

impl AccountSnapshot {
    pub fn new(account_id: &str, balance: Money, last_transaction_id: &str) -> (s: AccountSnapshot)
        ensures
            s.account_id@ == account_id@,
            s.balance == balance,
            s.last_transaction_id@ == last_transaction_id@,
    {
        AccountSnapshot {
            account_id: account_id.to_string(),
            balance,
            last_transaction_id: last_transaction_id.to_string(),
        }
    }
}

} // verus!
