# ledger_kit

A small double-entry accounting kernel, written in Verus: every public
operation carries a contract over a mathematical model of the ledger, and
the properties of double-entry bookkeeping are proved.

Layout:

- `src/money.rs` — `Money`, `Currency`, checked addition and subtraction,
  rendering in naira, and the running naira total (`Tally`) that balances
  are defined by.
- `src/account.rs`, `src/entry.rs` — accounts and journal lines.
- `src/transaction.rs` — transactions (private fields, never changed once
  made) and the double-entry validation rule (in every currency, debits
  equal credits).
- `src/storage.rs` — the `LedgerStore` trait with its model of what a store
  holds, and `InMemoryStore`.
- `src/ledger.rs` — the posting engine: `LedgerModel`, the specification of
  each operation (`post_outcome`, `balance_outcome`, `history_outcome`, ...)
  and the verified `Ledger` that meets it.
- `src/laws.rs` — the laws: balances derived from history, reversal,
  idempotency, immutable history, books kept in order, trial balance,
  balances of all accounts adding up to zero, validation ignoring the order
  of lines.
- `src/event.rs`, `src/snapshot.rs` — event bus and account snapshots.
- `app/` — unverified code: serde forms of the values and an SQLite store.
- `tests/` — tests run against the compiled library.
