use vstd::prelude::*;

verus! {

/// Every way in which a ledger operation can be refused.
#[derive(Debug, Clone, Copy, PartialEq, Eq, Structural)]
pub enum LedgerError {
    UnbalancedTransaction,
    EmptyTransaction,
    AccountNotFound,
    TransactionNotFound,
    CurrencyMismatch,
    StorageError,
}

} // verus!
