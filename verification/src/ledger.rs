use vstd::prelude::*;

use crate::account::{Account, AccountType, AccountView};
use crate::entry::{opposite_side, Entry, EntryType, EntryView};
use crate::error::LedgerError;
use crate::laws::{
    books_in_order, law_open_account_keeps_books, law_post_keeps_books, law_reversal_accepted,
};
use crate::money::{tally_result, tally_step, Currency, Money, Tally};
use crate::storage::{accounts_view, LedgerStore};
use crate::transaction::{
    entries_view, is_uuid_v4_text, txs_view, validation, Transaction, TxView,
};

verus! {

/// The state of a ledger as plain values: the transactions posted, in
/// order; the accounts, by id; and the idempotency keys already used, each
/// with the id of the transaction it answered.
pub struct LedgerModel {
    pub transactions: Seq<TxView>,
    pub accounts: Map<Seq<char>, AccountView>,
    pub keys: Map<Seq<char>, Seq<char>>,
}

pub open spec fn key_view(key: Option<&str>) -> Option<Seq<char>> {
    match key {
        Some(k) => Some(k@),
        None => None,
    }
}

pub open spec fn id_result_view(r: Result<String, LedgerError>) -> Result<Seq<char>, LedgerError> {
    match r {
        Ok(id) => Ok(id@),
        Err(e) => Err(e),
    }
}

/// Every line of the transaction names an account of the ledger.
pub open spec fn entries_known(es: Seq<EntryView>, accounts: Map<Seq<char>, AccountView>) -> bool {
    forall|i: int| 0 <= i < es.len() ==> #[trigger] accounts.contains_key(es[i].account_id)
}

/// The key was used before.
pub open spec fn key_used(m: LedgerModel, key: Option<Seq<char>>) -> bool {
    key is Some && m.keys.contains_key(key->0)
}

/// What posting `tx` under `key` does: a used key answers the id it
/// answered before and changes nothing; otherwise the transaction must
/// validate and name only known accounts, and is then recorded (with its
/// key) and its id answered.
pub open spec fn post_outcome(m: LedgerModel, tx: TxView, key: Option<Seq<char>>) -> (
    LedgerModel,
    Result<Seq<char>, LedgerError>,
) {
    if key_used(m, key) {
        (m, Ok(m.keys[key->0]))
    } else if validation(tx.entries) is Err {
        (m, Err(validation(tx.entries)->Err_0))
    } else if !entries_known(tx.entries, m.accounts) {
        (m, Err(LedgerError::AccountNotFound))
    } else {
        (
            LedgerModel {
                transactions: m.transactions.push(tx),
                accounts: m.accounts,
                keys: match key {
                    Some(k) => m.keys.insert(k, tx.id),
                    None => m.keys,
                },
            },
            Ok(tx.id),
        )
    }
}

/// `after` and `r` are what posting `tx` under `key` to `before` yields:
/// exactly `post_outcome`, or, on a store that may fail, a `StorageError`
/// met once the transaction was found good to post, with no transaction
/// recorded (the key may have been recorded already).
pub open spec fn post_step(
    before: LedgerModel,
    tx: TxView,
    key: Option<Seq<char>>,
    after: LedgerModel,
    r: Result<Seq<char>, LedgerError>,
    can_fail: bool,
) -> bool {
    let (m2, r2) = post_outcome(before, tx, key);
    ||| after == m2 && r == r2
    ||| {
        &&& can_fail
        &&& r == Err::<Seq<char>, LedgerError>(LedgerError::StorageError)
        &&& (r2 is Ok || r2 == Err::<Seq<char>, LedgerError>(LedgerError::AccountNotFound))
        &&& !key_used(before, key)
        &&& after.transactions == before.transactions
        &&& after.accounts == before.accounts
        &&& (after.keys == before.keys || after.keys == m2.keys)
    }
}

/// The signed amount a line adds to its account's balance: debits add,
/// credits take away.
pub open spec fn signed_amount(e: EntryView) -> int {
    match e.entry_type {
        EntryType::Debit => e.amount.amount as int,
        EntryType::Credit => -(e.amount.amount as int),
    }
}

/// Runs a naira balance over the lines of `es` that name `account`.
pub open spec fn entries_tally(t: Tally, es: Seq<EntryView>, account: Seq<char>) -> Tally
    decreases es.len(),
{
    if es.len() == 0 {
        t
    } else {
        let next = if es[0].account_id == account {
            tally_step(t, signed_amount(es[0]), es[0].amount.currency)
        } else {
            t
        };
        entries_tally(next, es.drop_first(), account)
    }
}

/// Runs a naira balance over the lines of the transactions, in order, that
/// name `account`.
pub open spec fn txs_tally(t: Tally, txs: Seq<TxView>, account: Seq<char>) -> Tally
    decreases txs.len(),
{
    if txs.len() == 0 {
        t
    } else {
        txs_tally(entries_tally(t, txs[0].entries, account), txs.drop_first(), account)
    }
}

/// The balance of `account` from zero naira over the whole history.
pub open spec fn account_tally(txs: Seq<TxView>, account: Seq<char>) -> Tally {
    txs_tally(Tally::Sum(0), txs, account)
}

/// What the balance query answers.
pub open spec fn balance_outcome(m: LedgerModel, account: Seq<char>) -> Result<Money, LedgerError> {
    if !m.accounts.contains_key(account) {
        Err(LedgerError::AccountNotFound)
    } else {
        tally_result(account_tally(m.transactions, account))
    }
}

/// The balance query does not overflow `i64` on the way.
pub open spec fn balance_defined(m: LedgerModel, account: Seq<char>) -> bool {
    m.accounts.contains_key(account) ==> account_tally(m.transactions, account) != Tally::Overflow
}

/// The transaction touches `account` in one of its lines.
pub open spec fn involves(t: TxView, account: Seq<char>) -> bool {
    exists|i: int| 0 <= i < t.entries.len() && #[trigger] t.entries[i].account_id == account
}

/// The transactions that touch `account`, in order.
pub open spec fn involving(txs: Seq<TxView>, account: Seq<char>) -> Seq<TxView>
    decreases txs.len(),
{
    if txs.len() == 0 {
        Seq::empty()
    } else if involves(txs.last(), account) {
        involving(txs.drop_last(), account).push(txs.last())
    } else {
        involving(txs.drop_last(), account)
    }
}

/// What the history query answers.
pub open spec fn history_outcome(m: LedgerModel, account: Seq<char>) -> Result<Seq<TxView>, LedgerError> {
    if !m.accounts.contains_key(account) {
        Err(LedgerError::AccountNotFound)
    } else {
        Ok(involving(m.transactions, account))
    }
}

/// The first transaction of the list with the given id, if any.
pub open spec fn find_transaction(txs: Seq<TxView>, id: Seq<char>) -> Option<TxView>
    decreases txs.len(),
{
    if txs.len() == 0 {
        None
    } else if txs[0].id == id {
        Some(txs[0])
    } else {
        find_transaction(txs.drop_first(), id)
    }
}

/// The same line on the other side of the books.
pub open spec fn reversed_entry(e: EntryView) -> EntryView {
    EntryView { account_id: e.account_id, amount: e.amount, entry_type: opposite_side(e.entry_type) }
}

/// The lines that undo `es`: each on the other side, in the same order.
pub open spec fn reversed_entries(es: Seq<EntryView>) -> Seq<EntryView> {
    es.map_values(|e: EntryView| reversed_entry(e))
}

pub open spec fn key_pairs_view(s: Seq<(String, String)>) -> Seq<(Seq<char>, Seq<char>)> {
    s.map_values(|p: (String, String)| (p.0@, p.1@))
}

/// The keys of a list of pairs, each with its value; a later pair replaces
/// an earlier one with the same key.
pub open spec fn key_map(s: Seq<(Seq<char>, Seq<char>)>) -> Map<Seq<char>, Seq<char>>
    decreases s.len(),
{
    if s.len() == 0 {
        Map::empty()
    } else {
        key_map(s.drop_last()).insert(s.last().0, s.last().1)
    }
}

pub open spec fn distinct_keys(s: Seq<(Seq<char>, Seq<char>)>) -> bool {
    forall|i: int, j: int| 0 <= i < s.len() && 0 <= j < s.len() && i != j ==> s[i].0 != s[j].0
}

/// In a list of pairs with distinct keys, a key is mapped exactly when it
/// stands in the list, and to the value beside it.
proof fn lemma_key_map_lookup(s: Seq<(Seq<char>, Seq<char>)>)
    requires
        distinct_keys(s),
    ensures
        forall|i: int| 0 <= i < s.len() ==> #[trigger] key_map(s).contains_key(s[i].0) && key_map(s)[s[i].0]
            == s[i].1,
        forall|k: Seq<char>| #[trigger] key_map(s).contains_key(k) ==> exists|i: int| 0 <= i < s.len() && s[i].0 == k,
    decreases s.len(),
{
    if s.len() > 0 {
        let p = s.drop_last();
        lemma_key_map_lookup(p);
        let m = key_map(s);
        assert forall|i: int| 0 <= i < s.len() implies #[trigger] m.contains_key(s[i].0) && m[s[i].0]
            == s[i].1 by {
            if i < s.len() - 1 {
                assert(p[i] == s[i]);
                assert(key_map(p).contains_key(p[i].0) && key_map(p)[p[i].0] == p[i].1);
                assert(s[i].0 != s.last().0);
            }
        }
        assert forall|k: Seq<char>| #[trigger] m.contains_key(k) implies exists|i: int|
            0 <= i < s.len() && s[i].0 == k by {
            if k == s.last().0 {
                assert(s[s.len() - 1].0 == k);
            } else {
                assert(key_map(p).contains_key(k));
                let i = choose|i: int| 0 <= i < p.len() && p[i].0 == k;
                assert(s[i].0 == k);
            }
        }
    }
}


/// A refusal or an overflow, once reached, is what the balance ends as.
pub proof fn lemma_entries_tally_stuck(t: Tally, es: Seq<EntryView>, account: Seq<char>)
    requires
        !(t is Sum),
    ensures
        entries_tally(t, es, account) == t,
    decreases es.len(),
{
    if es.len() > 0 {
        lemma_entries_tally_stuck(t, es.drop_first(), account);
    }
}

/// A refusal or an overflow, once reached, is what the balance ends as.
pub proof fn lemma_txs_tally_stuck(t: Tally, txs: Seq<TxView>, account: Seq<char>)
    requires
        !(t is Sum),
    ensures
        txs_tally(t, txs, account) == t,
    decreases txs.len(),
{
    if txs.len() > 0 {
        lemma_entries_tally_stuck(t, txs[0].entries, account);
        lemma_txs_tally_stuck(t, txs.drop_first(), account);
    }
}

proof fn lemma_entries_tally_unfold(t: Tally, es: Seq<EntryView>, account: Seq<char>, i: int)
    requires
        0 <= i < es.len(),
    ensures
        entries_tally(t, es.skip(i), account) == entries_tally(
            if es[i].account_id == account {
                tally_step(t, signed_amount(es[i]), es[i].amount.currency)
            } else {
                t
            },
            es.skip(i + 1),
            account,
        ),
{
    assert(es.skip(i).drop_first() =~= es.skip(i + 1));
    assert(es.skip(i)[0] == es[i]);
}

proof fn lemma_txs_tally_unfold(t: Tally, txs: Seq<TxView>, account: Seq<char>, i: int)
    requires
        0 <= i < txs.len(),
    ensures
        txs_tally(t, txs.skip(i), account) == txs_tally(
            entries_tally(t, txs[i].entries, account),
            txs.skip(i + 1),
            account,
        ),
{
    assert(txs.skip(i).drop_first() =~= txs.skip(i + 1));
    assert(txs.skip(i)[0] == txs[i]);
}

proof fn lemma_find_transaction_unfold(txs: Seq<TxView>, id: Seq<char>, i: int)
    requires
        0 <= i < txs.len(),
    ensures
        find_transaction(txs.skip(i), id) == if txs[i].id == id {
            Some(txs[i])
        } else {
            find_transaction(txs.skip(i + 1), id)
        },
{
    assert(txs.skip(i).drop_first() =~= txs.skip(i + 1));
    assert(txs.skip(i)[0] == txs[i]);
}

/// Whether the list holds an account with this id.
fn has_account(accounts: &Vec<Account>, id: &String) -> (r: bool)
    ensures
        r == exists|i: int| 0 <= i < accounts@.len() && #[trigger] accounts@[i].id@ == id@,
{
    let mut i: usize = 0;
    while i < accounts.len()
        invariant
            0 <= i <= accounts.len(),
            forall|j: int| 0 <= j < i ==> #[trigger] accounts@[j].id@ != id@,
        decreases accounts.len() - i,
    {
        if accounts[i].id == *id {
            return true;
        }
        i = i + 1;
    }
    false
}

/// The list holds an account with this id.
pub open spec fn account_listed(accounts: Seq<Account>, id: Seq<char>) -> bool {
    exists|i: int| 0 <= i < accounts.len() && #[trigger] accounts[i].id@ == id
}

/// Whether every line names an account of the list.
fn all_accounts_known(accounts: &Vec<Account>, entries: &[Entry]) -> (r: bool)
    ensures
        r == forall|j: int|
            0 <= j < entries@.len() ==> #[trigger] account_listed(accounts@, entries@[j].account_id@),
{
    let mut j: usize = 0;
    while j < entries.len()
        invariant
            0 <= j <= entries.len(),
            forall|k: int| 0 <= k < j ==> #[trigger] account_listed(accounts@, entries@[k].account_id@),
        decreases entries.len() - j,
    {
        if !has_account(accounts, &entries[j].account_id) {
            assert(!account_listed(accounts@, entries@[j as int].account_id@));
            return false;
        }
        j = j + 1;
    }
    true
}

/// Where the first transaction of the list with this id stands, if any.
fn position_of(txs: &Vec<Transaction>, id: &String) -> (r: Option<usize>)
    ensures
        match r {
            Some(i) => i < txs@.len() && find_transaction(txs_view(txs@), id@) == Some(txs@[i as int]@),
            None => find_transaction(txs_view(txs@), id@) is None,
        },
{
    let ghost tv = txs_view(txs@);
    let mut i: usize = 0;
    assert(tv.skip(0) =~= tv);
    while i < txs.len()
        invariant
            0 <= i <= txs.len(),
            tv == txs_view(txs@),
            find_transaction(tv.skip(i as int), id@) == find_transaction(tv, id@),
        decreases txs.len() - i,
    {
        proof {
            lemma_find_transaction_unfold(tv, id@, i as int);
        }
        if txs[i].id_is(id) {
            return Some(i);
        }
        i = i + 1;
    }
    assert(tv.skip(i as int) =~= Seq::<TxView>::empty());
    None
}

/// Whether one of the lines of the transaction names the account.
fn touches(tx: &Transaction, id: &String) -> (r: bool)
    ensures
        r == involves(tx@, id@),
{
    let entries = tx.entries();
    let mut j: usize = 0;
    while j < entries.len()
        invariant
            0 <= j <= entries.len(),
            entries_view(entries@) == tx@.entries,
            forall|k: int| 0 <= k < j ==> #[trigger] tx@.entries[k].account_id != id@,
        decreases entries.len() - j,
    {
        if entries[j].account_id == *id {
            assert(tx@.entries[j as int].account_id == id@);
            return true;
        }
        j = j + 1;
    }
    false
}

/// A double-entry ledger over a store: transactions are validated and
/// recorded, never changed; balances are derived from the recorded history.
#[derive(Debug)]
pub struct Ledger<S: LedgerStore> {
    store: S,
    processed_keys: Vec<(String, String)>,
}

impl<S: LedgerStore> View for Ledger<S> {
    type V = LedgerModel;

    closed spec fn view(&self) -> LedgerModel {
        LedgerModel {
            transactions: self.store.stored_transactions(),
            accounts: self.store.stored_accounts(),
            keys: key_map(key_pairs_view(self.processed_keys@)),
        }
    }
}

impl<S: LedgerStore> Ledger<S> {
    /// The idempotency keys are recorded once each.
    pub closed spec fn wf(&self) -> bool {
        distinct_keys(key_pairs_view(self.processed_keys@))
    }

    /// The store under this ledger.
    pub closed spec fn backing_store(&self) -> S {
        self.store
    }

    /// Whether the store under this ledger may fail.
    pub closed spec fn can_fail(&self) -> bool {
        self.store.can_fail()
    }

    /// A ledger's transactions and accounts are those its store holds, and
    /// it may fail exactly when its store may.
    pub proof fn lemma_store_backs_view(&self)
        ensures
            self@.transactions == self.backing_store().stored_transactions(),
            self@.accounts == self.backing_store().stored_accounts(),
            self.can_fail() == self.backing_store().can_fail(),
    {
    }
}

impl<S: LedgerStore + Clone> Clone for Ledger<S> {
    /// A copy with the same keys, over a clone of the store.
    fn clone(&self) -> (r: Self)
        ensures
            r@.keys == self@.keys,
            r.wf() == self.wf(),
            vstd::pervasive::cloned::<S>(self.backing_store(), r.backing_store()),
    {
        let mut keys: Vec<(String, String)> = Vec::new();
        let mut i: usize = 0;
        while i < self.processed_keys.len()
            invariant
                0 <= i <= self.processed_keys.len(),
                keys@.len() == i,
                forall|j: int| 0 <= j < i ==> #[trigger] keys@[j] == self.processed_keys@[j],
            decreases self.processed_keys.len() - i,
        {
            let k = self.processed_keys[i].0.clone();
            let v = self.processed_keys[i].1.clone();
            keys.push((k, v));
            i = i + 1;
        }
        assert(keys@ =~= self.processed_keys@);
        Ledger { store: self.store.clone(), processed_keys: keys }
    }
}

impl<S: LedgerStore + Default> Ledger<S> {
    /// A ledger over a fresh default store, with no key used.
    pub fn new() -> (l: Ledger<S>)
        ensures
            l.wf(),
            call_ensures(S::default, (), l.backing_store()),
            l@.transactions == l.backing_store().stored_transactions(),
            l@.accounts == l.backing_store().stored_accounts(),
            l@.keys == Map::<Seq<char>, Seq<char>>::empty(),
            l.can_fail() == l.backing_store().can_fail(),
    {
        let l = Ledger { store: S::default(), processed_keys: Vec::new() };
        assert(key_pairs_view(l.processed_keys@) =~= Seq::<(Seq<char>, Seq<char>)>::empty());
        l
    }
}


impl<S: LedgerStore + Default> Ledger<S> {
    /// The id of the transaction that the key answered, if it was used.
    fn find_key(&self, key: &String) -> (r: Option<String>)
        requires
            self.wf(),
        ensures
            match r {
                Some(v) => self@.keys.contains_key(key@) && self@.keys[key@] == v@,
                None => !self@.keys.contains_key(key@),
            },
    {
        let ghost pairs = key_pairs_view(self.processed_keys@);
        proof {
            lemma_key_map_lookup(pairs);
        }
        let mut i: usize = 0;
        while i < self.processed_keys.len()
            invariant
                0 <= i <= self.processed_keys.len(),
                pairs == key_pairs_view(self.processed_keys@),
                distinct_keys(pairs),
                forall|j: int| 0 <= j < i ==> #[trigger] pairs[j].0 != key@,
            decreases self.processed_keys.len() - i,
        {
            if self.processed_keys[i].0 == *key {
                proof {
                    lemma_key_map_lookup(pairs);
                    assert(pairs[i as int].0 == key@);
                    assert(key_map(pairs).contains_key(pairs[i as int].0));
                }
                return Some(self.processed_keys[i].1.clone());
            }
            i = i + 1;
        }
        None
    }

    /// Opens an account (an account with the same id is replaced).
    pub fn create_account(&mut self, id: &str, name: &str, account_type: AccountType) -> (r: Result<
        Account,
        LedgerError,
    >)
        requires
            old(self).wf(),
        ensures
            final(self).wf(),
            final(self).can_fail() == old(self).can_fail(),
            match r {
                Ok(a) => {
                    &&& a@ == (AccountView { id: id@, name: name@, account_type })
                    &&& final(self)@ == (LedgerModel {
                        accounts: old(self)@.accounts.insert(id@, a@),
                        ..old(self)@
                    })
                },
                Err(e) => {
                    &&& e == LedgerError::StorageError
                    &&& old(self).can_fail()
                    &&& final(self)@ == old(self)@
                },
            },
            books_in_order(old(self)@) ==> books_in_order(final(self)@),
    {
        let account = Account::new(id, name, account_type);
        proof {
            if books_in_order(self@) {
                law_open_account_keeps_books(self@, account@);
            }
        }
        match self.store.save_account(&account) {
            Ok(()) => {},
            Err(e) => {
                return Err(e);
            },
        }
        Ok(account)
    }

    /// Posts a transaction. A key that was used before answers the id it
    /// answered then, and nothing is recorded; otherwise the transaction
    /// must balance and name only known accounts, and is then recorded.
    pub fn post(&mut self, tx: Transaction, idempotency_key: Option<&str>) -> (r: Result<
        String,
        LedgerError,
    >)
        requires
            old(self).wf(),
        ensures
            final(self).wf(),
            final(self).can_fail() == old(self).can_fail(),
            post_step(
                old(self)@,
                tx@,
                key_view(idempotency_key),
                final(self)@,
                id_result_view(r),
                old(self).can_fail(),
            ),
            books_in_order(old(self)@) ==> books_in_order(final(self)@),
    {
        let ghost tv = tx@;
        let r = self.record(tx, idempotency_key);
        proof {
            if books_in_order(old(self)@) {
                law_post_keeps_books(
                    old(self)@,
                    tv,
                    key_view(idempotency_key),
                    self@,
                    id_result_view(r),
                    old(self).can_fail(),
                );
            }
        }
        r
    }

    /// The steps of posting.
    fn record(&mut self, tx: Transaction, idempotency_key: Option<&str>) -> (r: Result<
        String,
        LedgerError,
    >)
        requires
            old(self).wf(),
        ensures
            final(self).wf(),
            final(self).can_fail() == old(self).can_fail(),
            post_step(
                old(self)@,
                tx@,
                key_view(idempotency_key),
                final(self)@,
                id_result_view(r),
                old(self).can_fail(),
            ),
    {
        let ghost before = self@;
        let ghost pairs = key_pairs_view(self.processed_keys@);
        proof {
            lemma_key_map_lookup(pairs);
        }
        if let Some(key) = idempotency_key {
            let k = key.to_string();
            if let Some(existing) = self.find_key(&k) {
                return Ok(existing);
            }
        }
        match tx.validate() {
            Ok(()) => {},
            Err(e) => {
                return Err(e);
            },
        }
        let accounts = match self.store.load_accounts() {
            Ok(a) => a,
            Err(e) => {
                return Err(e);
            },
        };
        let entries = tx.entries();
        if !all_accounts_known(&accounts, entries) {
            proof {
                let j = choose|j: int|
                    0 <= j < entries@.len() && !#[trigger] account_listed(accounts@, entries@[j].account_id@);
                assert(tx@.entries[j].account_id == entries@[j].account_id@);
                if before.accounts.contains_key(tx@.entries[j].account_id) {
                    let i = choose|i: int|
                        0 <= i < accounts_view(accounts@).len() && accounts_view(accounts@)[i].id
                            == tx@.entries[j].account_id;
                    assert(accounts@[i].id@ == entries@[j].account_id@);
                }
            }
            return Err(LedgerError::AccountNotFound);
        }
        proof {
            assert forall|j: int| 0 <= j < tx@.entries.len() implies #[trigger] before.accounts.contains_key(
                tx@.entries[j].account_id,
            ) by {
                assert(entries_view(entries@)[j] == entries@[j]@);
                assert(account_listed(accounts@, entries@[j].account_id@));
                let i = choose|i: int|
                    0 <= i < accounts@.len() && #[trigger] accounts@[i].id@ == entries@[j].account_id@;
                assert(accounts_view(accounts@)[i].id == accounts@[i].id@);
            }
        }
        let tx_post_id = tx.id().to_string();
        if let Some(key) = idempotency_key {
            let ghost old_pairs = self.processed_keys@;
            self.processed_keys.push((key.to_string(), tx_post_id.clone()));
            proof {
                assert(key_pairs_view(self.processed_keys@) =~= pairs.push((key@, tx@.id)));
                assert(key_pairs_view(self.processed_keys@).drop_last() =~= pairs);
                let np = key_pairs_view(self.processed_keys@);
                assert forall|a: int, b: int| 0 <= a < np.len() && 0 <= b < np.len() && a != b implies np[a].0
                    != np[b].0 by {
                    if a < pairs.len() && b < pairs.len() {
                        assert(np[a] == pairs[a]);
                        assert(np[b] == pairs[b]);
                    } else if a < pairs.len() {
                        assert(np[a] == pairs[a]);
                        assert(key_map(pairs).contains_key(pairs[a].0));
                    } else {
                        assert(np[b] == pairs[b]);
                        assert(key_map(pairs).contains_key(pairs[b].0));
                    }
                }
            }
        }
        match self.store.save_transaction(&tx) {
            Ok(()) => {},
            Err(e) => {
                return Err(e);
            },
        }
        Ok(tx_post_id)
    }

    /// The balance of an account: its debits less its credits, over the
    /// whole recorded history, in naira.
    pub fn balance(&self, account_id: &str) -> (r: Result<Money, LedgerError>)
        requires
            balance_defined(self@, account_id@),
        ensures
            r == balance_outcome(self@, account_id@) || (self.can_fail() && r == Err::<
                Money,
                LedgerError,
            >(LedgerError::StorageError)),
    {
        let id = account_id.to_string();
        let accounts = match self.store.load_accounts() {
            Ok(a) => a,
            Err(e) => {
                return Err(e);
            },
        };
        if !has_account(&accounts, &id) {
            proof {
                if self@.accounts.contains_key(id@) {
                    let i = choose|i: int|
                        0 <= i < accounts_view(accounts@).len() && accounts_view(accounts@)[i].id == id@;
                    assert(accounts@[i].id@ == id@);
                }
            }
            return Err(LedgerError::AccountNotFound);
        }
        proof {
            let i = choose|i: int| 0 <= i < accounts@.len() && #[trigger] accounts@[i].id@ == id@;
            assert(accounts_view(accounts@)[i].id == id@);
        }
        let txs = match self.store.load_transactions() {
            Ok(t) => t,
            Err(e) => {
                return Err(e);
            },
        };
        let ghost tv = txs_view(txs@);
        let ghost total = account_tally(tv, id@);
        let ghost expected = balance_outcome(self@, account_id@);
        assert(expected == tally_result(total));
        let mut acc = Money::new(0, Currency::NGN);
        let mut i: usize = 0;
        assert(tv.skip(0) =~= tv);
        while i < txs.len()
            invariant
                0 <= i <= txs.len(),
                tv == txs_view(txs@),
                acc.currency == Currency::NGN,
                txs_tally(Tally::Sum(acc.amount as int), tv.skip(i as int), id@) == total,
                total != Tally::Overflow,
                expected == tally_result(total),
                expected == balance_outcome(self@, account_id@),
            decreases txs.len() - i,
        {
            proof {
                lemma_txs_tally_unfold(Tally::Sum(acc.amount as int), tv, id@, i as int);
            }
            let entries = txs[i].entries();
            let ghost ev = tv[i as int].entries;
            assert(ev.skip(0) =~= ev);
            let mut j: usize = 0;
            while j < entries.len()
                invariant
                    0 <= j <= entries.len(),
                    0 <= i < txs.len(),
                    tv == txs_view(txs@),
                    ev == tv[i as int].entries,
                    entries_view(entries@) == ev,
                    acc.currency == Currency::NGN,
                    txs_tally(
                        entries_tally(Tally::Sum(acc.amount as int), ev.skip(j as int), id@),
                        tv.skip(i + 1),
                        id@,
                    ) == total,
                    total != Tally::Overflow,
                    expected == tally_result(total),
                    expected == balance_outcome(self@, account_id@),
                decreases entries.len() - j,
            {
                proof {
                    lemma_entries_tally_unfold(Tally::Sum(acc.amount as int), ev, id@, j as int);
                }
                let e = &entries[j];
                assert(ev[j as int] == e@);
                if e.account_id == id {
                    let ghost next = tally_step(
                        Tally::Sum(acc.amount as int),
                        signed_amount(e@),
                        e.amount.currency,
                    );
                    proof {
                        if !(next is Sum) {
                            lemma_entries_tally_stuck(next, ev.skip(j + 1), id@);
                            lemma_txs_tally_stuck(next, tv.skip(i + 1), id@);
                        }
                    }
                    let step = match e.entry_type {
                        EntryType::Debit => acc.add(&e.amount),
                        EntryType::Credit => acc.sub(&e.amount),
                    };
                    match step {
                        Ok(m) => {
                            acc = m;
                        },
                        Err(err) => {
                            return Err(err);
                        },
                    }
                }
                j = j + 1;
            }
            assert(ev.skip(j as int) =~= Seq::<EntryView>::empty());
            i = i + 1;
        }
        assert(tv.skip(i as int) =~= Seq::<TxView>::empty());
        Ok(acc)
    }

    /// Undoes a recorded transaction by posting, under a fresh id, the
    /// same lines on the other side of the books. History is not changed.
    pub fn reverse(&mut self, tx_id: &str, idempotency_key: Option<&str>) -> (r: Result<
        String,
        LedgerError,
    >)
        requires
            old(self).wf(),
        ensures
            final(self).wf(),
            final(self).can_fail() == old(self).can_fail(),
            ({
                ||| (old(self).can_fail() && r == Err::<String, LedgerError>(LedgerError::StorageError)
                    && final(self)@ == old(self)@)
                ||| match find_transaction(old(self)@.transactions, tx_id@) {
                    None => r == Err::<String, LedgerError>(LedgerError::TransactionNotFound)
                        && final(self)@ == old(self)@,
                    Some(t) => exists|new_id: Seq<char>|
                        is_uuid_v4_text(new_id) && #[trigger] post_step(
                            old(self)@,
                            TxView { id: new_id, entries: reversed_entries(t.entries) },
                            key_view(idempotency_key),
                            final(self)@,
                            id_result_view(r),
                            old(self).can_fail(),
                        ),
                }
            }),
            books_in_order(old(self)@) ==> books_in_order(final(self)@),
            ({
                &&& books_in_order(old(self)@)
                &&& find_transaction(old(self)@.transactions, tx_id@) is Some
                &&& !key_used(old(self)@, key_view(idempotency_key))
                &&& !old(self).can_fail()
            }) ==> r is Ok,
    {
        let txs = match self.store.load_transactions() {
            Ok(t) => t,
            Err(e) => {
                return Err(e);
            },
        };
        let ghost tv = txs_view(txs@);
        let id = tx_id.to_string();
        let i = match position_of(&txs, &id) {
            Some(i) => i,
            None => {
                return Err(LedgerError::TransactionNotFound);
            },
        };
        let target = &txs[i];
        let ghost t = tv[i as int];
        assert(find_transaction(tv, id@) == Some(t));
        let entries = target.entries();
        let mut reversed: Vec<Entry> = Vec::new();
        let mut j: usize = 0;
        while j < entries.len()
            invariant
                0 <= j <= entries.len(),
                entries_view(entries@) == t.entries,
                reversed@.len() == j,
                forall|k: int| 0 <= k < j ==> #[trigger] reversed@[k]@ == reversed_entry(t.entries[k]),
            decreases entries.len() - j,
        {
            let e = &entries[j];
            assert(t.entries[j as int] == e@);
            let flipped = match e.entry_type {
                EntryType::Debit => Entry::credit(e.account_id.as_str(), e.amount),
                EntryType::Credit => Entry::debit(e.account_id.as_str(), e.amount),
            };
            reversed.push(flipped);
            j = j + 1;
        }
        assert(entries_view(reversed@) =~= reversed_entries(t.entries));
        let reversed_tx = Transaction::new(reversed);
        proof {
            if books_in_order(self@) && !key_used(self@, key_view(idempotency_key)) {
                law_reversal_accepted(self@, tx_id@, reversed_tx@.id, key_view(idempotency_key));
            }
        }
        let r = self.post(reversed_tx, idempotency_key);
        assert(post_step(
            old(self)@,
            TxView { id: reversed_tx@.id, entries: reversed_entries(t.entries) },
            key_view(idempotency_key),
            self@,
            id_result_view(r),
            old(self).can_fail(),
        ));
        assert(find_transaction(old(self)@.transactions, tx_id@) == Some(t));
        assert(is_uuid_v4_text(reversed_tx@.id));
        r
    }

    /// The number of recorded transactions (zero where the store fails).
    pub fn transaction_count(&self) -> (n: usize)
        ensures
            n == self@.transactions.len() || (self.can_fail() && n == 0),
    {
        match self.store.load_transactions() {
            Ok(t) => t.len(),
            Err(_) => 0,
        }
    }

    /// The recorded transactions that touch an account, in the order they
    /// were recorded.
    pub fn history(&self, account_id: &str) -> (r: Result<Vec<Transaction>, LedgerError>)
        ensures
            match r {
                Ok(v) => history_outcome(self@, account_id@) == Ok::<Seq<TxView>, LedgerError>(
                    txs_view(v@),
                ),
                Err(e) => history_outcome(self@, account_id@) == Err::<Seq<TxView>, LedgerError>(e)
                    || (self.can_fail() && e == LedgerError::StorageError),
            },
    {
        let id = account_id.to_string();
        let accounts = match self.store.load_accounts() {
            Ok(a) => a,
            Err(e) => {
                return Err(e);
            },
        };
        if !has_account(&accounts, &id) {
            proof {
                if self@.accounts.contains_key(id@) {
                    let i = choose|i: int|
                        0 <= i < accounts_view(accounts@).len() && accounts_view(accounts@)[i].id == id@;
                    assert(accounts@[i].id@ == id@);
                }
            }
            return Err(LedgerError::AccountNotFound);
        }
        proof {
            let i = choose|i: int| 0 <= i < accounts@.len() && #[trigger] accounts@[i].id@ == id@;
            assert(accounts_view(accounts@)[i].id == id@);
        }
        let txs = match self.store.load_transactions() {
            Ok(t) => t,
            Err(e) => {
                return Err(e);
            },
        };
        let ghost tv = txs_view(txs@);
        let mut out: Vec<Transaction> = Vec::new();
        let mut i: usize = 0;
        while i < txs.len()
            invariant
                0 <= i <= txs.len(),
                tv == txs_view(txs@),
                txs_view(out@) == involving(tv.take(i as int), id@),
            decreases txs.len() - i,
        {
            assert(tv.take(i + 1).drop_last() =~= tv.take(i as int));
            assert(tv.take(i + 1).last() == txs@[i as int]@);
            if touches(&txs[i], &id) {
                let ghost prev = out@;
                out.push(txs[i].clone());
                assert(txs_view(out@) =~= txs_view(prev).push(txs@[i as int]@));
            }
            i = i + 1;
        }
        assert(tv.take(i as int) =~= tv);
        Ok(out)
    }
}

} // verus!
