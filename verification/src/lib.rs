//! A small double-entry accounting kernel: accounts, journal entries,
//! balanced transactions, a posting engine, balances derived from history,
//! reversals and account history.

pub mod error;
pub mod money;
pub mod account;
pub mod entry;
pub mod transaction;
pub mod storage;
pub mod ledger;
pub mod event;
pub mod snapshot;
pub mod laws;
pub mod answers;
