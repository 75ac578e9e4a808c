use vstd::prelude::*;

use crate::account::{Account, AccountView};
use crate::error::LedgerError;
use crate::transaction::{txs_view, Transaction, TxView};

verus! {

/// The accounts of a list, by id; a later account replaces an earlier one
/// with the same id.
pub open spec fn account_map(s: Seq<AccountView>) -> Map<Seq<char>, AccountView>
    decreases s.len(),
{
    if s.len() == 0 {
        Map::empty()
    } else {
        account_map(s.drop_last()).insert(s.last().id, s.last())
    }
}

pub open spec fn accounts_view(s: Seq<Account>) -> Seq<AccountView> {
    s.map_values(|a: Account| a@)
}

/// No two accounts of the list share an id.
pub open spec fn distinct_ids(s: Seq<AccountView>) -> bool {
    forall|i: int, j: int| 0 <= i < s.len() && 0 <= j < s.len() && i != j ==> s[i].id != s[j].id
}

/// The list holds exactly the accounts of `m`, each once.
pub open spec fn lists_accounts(s: Seq<AccountView>, m: Map<Seq<char>, AccountView>) -> bool {
    &&& distinct_ids(s)
    &&& forall|i: int| 0 <= i < s.len() ==> #[trigger] m.contains_key(s[i].id) && m[s[i].id] == s[i]
    &&& forall|k: Seq<char>| #[trigger] m.contains_key(k) ==> exists|i: int| 0 <= i < s.len() && s[i].id == k
}

/// A list of accounts with distinct ids lists its own account map.
pub proof fn lemma_account_map_lists(s: Seq<AccountView>)
    requires
        distinct_ids(s),
    ensures
        lists_accounts(s, account_map(s)),
    decreases s.len(),
{
    if s.len() > 0 {
        let p = s.drop_last();
        lemma_account_map_lists(p);
        let m = account_map(s);
        assert forall|i: int| 0 <= i < s.len() implies #[trigger] m.contains_key(s[i].id) && m[s[i].id]
            == s[i] by {
            if i < s.len() - 1 {
                assert(p[i] == s[i]);
                assert(s[i].id != s.last().id);
            }
        }
        assert forall|k: Seq<char>| #[trigger] m.contains_key(k) implies exists|i: int|
            0 <= i < s.len() && s[i].id == k by {
            if k == s.last().id {
                assert(s[s.len() - 1].id == k);
            } else {
                assert(account_map(p).contains_key(k));
                let i = choose|i: int| 0 <= i < p.len() && p[i].id == k;
                assert(s[i].id == k);
            }
        }
    }
}

/// Replacing the account at `i` by one with the same id is an insert into
/// the account map.
pub proof fn lemma_account_map_update(s: Seq<AccountView>, i: int, a: AccountView)
    requires
        distinct_ids(s),
        0 <= i < s.len(),
        s[i].id == a.id,
    ensures
        account_map(s.update(i, a)) == account_map(s).insert(a.id, a),
    decreases s.len(),
{
    let t = s.update(i, a);
    if i == s.len() - 1 {
        assert(t.drop_last() =~= s.drop_last());
        assert(account_map(t) =~= account_map(s).insert(a.id, a));
    } else {
        assert(t.drop_last() =~= s.drop_last().update(i, a));
        lemma_account_map_update(s.drop_last(), i, a);
        assert(s.last().id != a.id);
        assert(account_map(t) =~= account_map(s).insert(a.id, a));
    }
}

/// Where the posting engine keeps transactions and accounts.
///
/// A store keeps the transactions saved, in the order they were saved, and
/// one account per id (saving an account replaces the one with its id).
/// A store may be allowed to fail (a database can); its failures are
/// reported as `StorageError` and change nothing. Implementations outside
/// this crate must keep these promises: nothing here checks them.
pub trait LedgerStore: Sized {
    /// The transactions saved so far, in the order they were saved.
    spec fn stored_transactions(&self) -> Seq<TxView>;

    /// The accounts saved so far, by id.
    spec fn stored_accounts(&self) -> Map<Seq<char>, AccountView>;

    /// Whether calls on this store may fail.
    spec fn can_fail(&self) -> bool;

    fn save_transaction(&mut self, tx: &Transaction) -> (r: Result<(), LedgerError>)
        ensures
            final(self).can_fail() == old(self).can_fail(),
            final(self).stored_accounts() == old(self).stored_accounts(),
            match r {
                Ok(()) => final(self).stored_transactions() == old(self).stored_transactions().push(
                    tx@,
                ),
                Err(e) => {
                    &&& e == LedgerError::StorageError
                    &&& old(self).can_fail()
                    &&& final(self).stored_transactions() == old(self).stored_transactions()
                },
            },
    ;

    fn load_transactions(&self) -> (r: Result<Vec<Transaction>, LedgerError>)
        ensures
            match r {
                Ok(v) => txs_view(v@) == self.stored_transactions(),
                Err(e) => e == LedgerError::StorageError && self.can_fail(),
            },
    ;

    fn save_account(&mut self, account: &Account) -> (r: Result<(), LedgerError>)
        ensures
            final(self).can_fail() == old(self).can_fail(),
            final(self).stored_transactions() == old(self).stored_transactions(),
            match r {
                Ok(()) => final(self).stored_accounts() == old(self).stored_accounts().insert(
                    account@.id,
                    account@,
                ),
                Err(e) => {
                    &&& e == LedgerError::StorageError
                    &&& old(self).can_fail()
                    &&& final(self).stored_accounts() == old(self).stored_accounts()
                },
            },
    ;

    fn load_accounts(&self) -> (r: Result<Vec<Account>, LedgerError>)
        ensures
            match r {
                Ok(v) => lists_accounts(accounts_view(v@), self.stored_accounts()),
                Err(e) => e == LedgerError::StorageError && self.can_fail(),
            },
    ;
}

/// A store kept in memory; its calls never fail.
#[derive(Debug)]
pub struct InMemoryStore {
    transactions: Vec<Transaction>,
    accounts: Vec<Account>,
}

impl InMemoryStore {
    /// The accounts held are distinct by id.
    #[verifier::type_invariant]
    spec fn wf(&self) -> bool {
        distinct_ids(accounts_view(self.accounts@))
    }

    pub fn new() -> (s: InMemoryStore)
        ensures
            s.stored_transactions() == Seq::<TxView>::empty(),
            s.stored_accounts() == Map::<Seq<char>, AccountView>::empty(),
            !s.can_fail(),
    {
        let s = InMemoryStore { transactions: Vec::new(), accounts: Vec::new() };
        assert(txs_view(s.transactions@) =~= Seq::<TxView>::empty());
        assert(accounts_view(s.accounts@) =~= Seq::<AccountView>::empty());
        s
    }
}

impl Clone for InMemoryStore {
    fn clone(&self) -> (r: Self)
        ensures
            r.stored_transactions() == self.stored_transactions(),
            r.stored_accounts() == self.stored_accounts(),
            !r.can_fail(),
    {
        proof {
            use_type_invariant(self);
        }
        let mut transactions: Vec<Transaction> = Vec::new();
        let mut i: usize = 0;
        while i < self.transactions.len()
            invariant
                0 <= i <= self.transactions.len(),
                transactions@.len() == i,
                forall|j: int| 0 <= j < i ==> #[trigger] transactions@[j]@ == self.transactions@[j]@,
            decreases self.transactions.len() - i,
        {
            transactions.push(self.transactions[i].clone());
            i = i + 1;
        }
        let mut accounts: Vec<Account> = Vec::new();
        let mut k: usize = 0;
        while k < self.accounts.len()
            invariant
                0 <= k <= self.accounts.len(),
                accounts@.len() == k,
                forall|j: int| 0 <= j < k ==> #[trigger] accounts@[j] == self.accounts@[j],
            decreases self.accounts.len() - k,
        {
            accounts.push(self.accounts[k].clone());
            k = k + 1;
        }
        assert(txs_view(transactions@) =~= txs_view(self.transactions@));
        assert(accounts_view(accounts@) =~= accounts_view(self.accounts@));
        InMemoryStore { transactions, accounts }
    }
}

impl Default for InMemoryStore {
    fn default() -> (s: InMemoryStore)
        ensures
            s.stored_transactions() == Seq::<TxView>::empty(),
            s.stored_accounts() == Map::<Seq<char>, AccountView>::empty(),
            !s.can_fail(),
    {
        InMemoryStore::new()
    }
}

impl LedgerStore for InMemoryStore {
    closed spec fn stored_transactions(&self) -> Seq<TxView> {
        txs_view(self.transactions@)
    }

    closed spec fn stored_accounts(&self) -> Map<Seq<char>, AccountView> {
        account_map(accounts_view(self.accounts@))
    }

    open spec fn can_fail(&self) -> bool {
        false
    }

    fn save_transaction(&mut self, tx: &Transaction) -> (r: Result<(), LedgerError>) {
        proof {
            use_type_invariant(&*self);
        }
        let ghost before = self.transactions@;
        let mut transactions: Vec<Transaction> = Vec::new();
        std::mem::swap(&mut transactions, &mut self.transactions);
        transactions.push(tx.clone());
        self.transactions = transactions;
        assert(txs_view(self.transactions@) =~= txs_view(before).push(tx@));
        Ok(())
    }

    fn load_transactions(&self) -> (r: Result<Vec<Transaction>, LedgerError>) {
        let mut out: Vec<Transaction> = Vec::new();
        let mut i: usize = 0;
        while i < self.transactions.len()
            invariant
                0 <= i <= self.transactions.len(),
                out@.len() == i,
                forall|j: int| 0 <= j < i ==> #[trigger] out@[j]@ == self.transactions@[j]@,
            decreases self.transactions.len() - i,
        {
            out.push(self.transactions[i].clone());
            i = i + 1;
        }
        assert(txs_view(out@) =~= txs_view(self.transactions@));
        Ok(out)
    }

    fn save_account(&mut self, account: &Account) -> (r: Result<(), LedgerError>) {
        proof {
            use_type_invariant(&*self);
        }
        let ghost before = accounts_view(self.accounts@);
        let ghost txs = self.transactions@;
        let mut accounts: Vec<Account> = Vec::new();
        std::mem::swap(&mut accounts, &mut self.accounts);
        let mut i: usize = 0;
        while i < accounts.len()
            invariant
                0 <= i <= accounts.len(),
                before == accounts_view(accounts@),
                distinct_ids(before),
                self.transactions@ == txs,
                txs == old(self).transactions@,
                before == accounts_view(old(self).accounts@),
                forall|j: int| 0 <= j < i ==> before[j].id != account@.id,
            decreases accounts.len() - i,
        {
            if accounts[i].id == account.id {
                accounts.set(i, account.clone());
                proof {
                    assert(accounts_view(accounts@) =~= before.update(i as int, account@));
                    lemma_account_map_update(before, i as int, account@);
                    let after = before.update(i as int, account@);
                    assert forall|j: int, k: int|
                        0 <= j < after.len() && 0 <= k < after.len() && j != k implies after[j].id
                        != after[k].id by {
                        assert(after[j].id == before[j].id);
                        assert(after[k].id == before[k].id);
                    }
                    assert(distinct_ids(accounts_view(accounts@)));
                }
                self.accounts = accounts;
                return Ok(());
            }
            i = i + 1;
        }
        accounts.push(account.clone());
        assert(accounts_view(accounts@) =~= before.push(account@));
        assert(accounts_view(accounts@).drop_last() =~= before);
        self.accounts = accounts;
        Ok(())
    }

    fn load_accounts(&self) -> (r: Result<Vec<Account>, LedgerError>) {
        proof {
            use_type_invariant(self);
        }
        let mut out: Vec<Account> = Vec::new();
        let mut i: usize = 0;
        while i < self.accounts.len()
            invariant
                0 <= i <= self.accounts.len(),
                out@.len() == i,
                forall|j: int| 0 <= j < i ==> #[trigger] out@[j] == self.accounts@[j],
            decreases self.accounts.len() - i,
        {
            out.push(self.accounts[i].clone());
            i = i + 1;
        }
        assert(accounts_view(out@) =~= accounts_view(self.accounts@));
        proof {
            lemma_account_map_lists(accounts_view(self.accounts@));
        }
        Ok(out)
    }
}

} // verus!
