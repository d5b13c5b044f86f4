use crate::accounts::{Account, AccountPerfomErr};
use crate::transactions::{ClientID, Transaction, TransactionID, TransactionType};
use std::collections::{HashMap, HashSet};
use vstd::prelude::*;
use vstd::std_specs::hash::group_hash_axioms;

verus! {

/// Number of distinct client identifiers.
pub const CLIENT_ID_COUNT: u32 = 65536;

/// What a `State` holds, as mathematical values.
pub struct LedgerView {
    /// The account of each client seen so far.
    pub accounts: Map<ClientID, Account>,
    /// The journal: each deposit and withdrawal record, by its identifier.
    pub journal: Map<TransactionID, Transaction>,
    /// The identifiers currently under dispute.
    pub disputed: Set<TransactionID>,
}

impl LedgerView {
    /// Each account sits under its own client, with `total == available + held`;
    /// each journal entry is a deposit or withdrawal filed under its own
    /// identifier, of a client that has an account; each disputed identifier
    /// is in the journal.
    pub open spec fn wf(self) -> bool {
        &&& forall|c: ClientID| #[trigger]
            self.accounts.contains_key(c) ==> self.accounts[c].client == c
                && self.accounts[c].wf()
        &&& forall|t: TransactionID| #[trigger]
            self.journal.contains_key(t) ==> {
                let e = self.journal[t];
                &&& e.tx == t
                &&& e.tx_type is Deposit || e.tx_type is Withdrawal
                &&& self.accounts.contains_key(e.client)
            }
        &&& forall|t: TransactionID| #[trigger]
            self.disputed.contains(t) ==> self.journal.contains_key(t)
    }

    /// The account of `client`, or the fresh one it would get.
    pub open spec fn account_or_fresh(self, client: ClientID) -> Account {
        if self.accounts.contains_key(client) {
            self.accounts[client]
        } else {
            Account::fresh(client)
        }
    }

    /// The ledger with `a` stored as the account of `a.client`.
    pub open spec fn with_account(self, a: Account) -> LedgerView {
        LedgerView { accounts: self.accounts.insert(a.client, a), ..self }
    }

    /// The effect of applying `tx` to this ledger: the new ledger, or the
    /// error, in which case the ledger is left as it was.
    ///
    /// A deposit or withdrawal moves funds on its client's account, created
    /// if new, and is journaled unless its identifier already is. A dispute of
    /// a journaled record holds its amount on the account of the journaled
    /// client and marks it disputed. A resolve of a disputed record releases
    /// that amount and clears the mark. A chargeback of a disputed record
    /// removes the held amount and locks the account; the mark stays. Any other
    /// dispute, resolve or chargeback changes nothing.
    pub open spec fn step(self, tx: Transaction) -> Result<LedgerView, AccountPerfomErr> {
        match tx.tx_type {
            TransactionType::Deposit | TransactionType::Withdrawal => {
                let acct = self.account_or_fresh(tx.client);
                let moved = if tx.tx_type is Deposit {
                    acct.credited(tx.amount() as int)
                } else {
                    acct.debited(tx.amount() as int)
                };
                match moved {
                    Some(a) => Ok(
                        LedgerView {
                            accounts: self.accounts.insert(tx.client, a),
                            journal: if self.journal.contains_key(tx.tx) {
                                self.journal
                            } else {
                                self.journal.insert(tx.tx, tx)
                            },
                            disputed: self.disputed,
                        },
                    ),
                    None => Err(AccountPerfomErr::Overflow),
                }
            },
            TransactionType::Dispute => {
                if self.journal.contains_key(tx.tx) {
                    let e = self.journal[tx.tx];
                    match self.accounts[e.client].holding(e.amount() as int) {
                        Some(a) => Ok(
                            LedgerView {
                                accounts: self.accounts.insert(e.client, a),
                                journal: self.journal,
                                disputed: self.disputed.insert(tx.tx),
                            },
                        ),
                        None => Err(AccountPerfomErr::Overflow),
                    }
                } else {
                    Ok(self)
                }
            },
            TransactionType::Resolve => {
                if self.disputed.contains(tx.tx) {
                    let e = self.journal[tx.tx];
                    match self.accounts[e.client].releasing(e.amount() as int) {
                        Some(a) => Ok(
                            LedgerView {
                                accounts: self.accounts.insert(e.client, a),
                                journal: self.journal,
                                disputed: self.disputed.remove(tx.tx),
                            },
                        ),
                        None => Err(AccountPerfomErr::Overflow),
                    }
                } else {
                    Ok(self)
                }
            },
            TransactionType::Chargeback => {
                if self.disputed.contains(tx.tx) {
                    let e = self.journal[tx.tx];
                    match self.accounts[e.client].forfeiting(e.amount() as int) {
                        Some(a) => Ok(self.with_account(a)),
                        None => Err(AccountPerfomErr::Overflow),
                    }
                } else {
                    Ok(self)
                }
            },
        }
    }
}

/// The accounts of the clients below `n`, in increasing order of client.
pub open spec fn accounts_below(accounts: Map<ClientID, Account>, n: int) -> Seq<Account>
    decreases n,
{
    if n <= 0 {
        Seq::empty()
    } else {
        let prev = accounts_below(accounts, n - 1);
        if accounts.contains_key((n - 1) as ClientID) {
            prev.push(accounts[(n - 1) as ClientID])
        } else {
            prev
        }
    }
}

/// Every ledger reached by a step from a well-formed ledger is well formed:
/// in particular each account keeps `total == available + held`.
pub proof fn lemma_step_keeps_wf(v: LedgerView, tx: Transaction)
    requires
        v.wf(),
    ensures
        v.step(tx) matches Ok(w) ==> w.wf(),
{
    if let Ok(w) = v.step(tx) {
        assert forall|t: TransactionID| #[trigger] w.journal.contains_key(t) implies {
            let e = w.journal[t];
            &&& e.tx == t
            &&& e.tx_type is Deposit || e.tx_type is Withdrawal
            &&& w.accounts.contains_key(e.client)
        } by {
            if v.journal.contains_key(t) {
                assert(v.accounts.contains_key(v.journal[t].client));
            }
        }
    }
}

/// A resolve or a chargeback of an identifier that is not under dispute
/// leaves the whole ledger, every account included, unchanged.
pub proof fn lemma_undisputed_is_inert(v: LedgerView, tx: Transaction)
    requires
        tx.tx_type is Resolve || tx.tx_type is Chargeback,
        !v.disputed.contains(tx.tx),
    ensures
        v.step(tx) == Ok::<LedgerView, AccountPerfomErr>(v),
{
}

/// A dispute that succeeds, followed at once by a resolve of the same
/// identifier, restores every account to what it was before the dispute.
pub proof fn lemma_dispute_then_resolve(v: LedgerView, d: Transaction, r: Transaction)
    requires
        v.wf(),
        d.tx_type is Dispute,
        r.tx_type is Resolve,
        d.tx == r.tx,
        v.step(d) is Ok,
    ensures
        v.step(d)->Ok_0.step(r) matches Ok(w) && w.accounts == v.accounts,
{
    let m = v.step(d)->Ok_0;
    if v.journal.contains_key(d.tx) {
        let e = v.journal[d.tx];
        assert(m.disputed.contains(r.tx));
        assert(m.journal[r.tx] == e);
        let w = m.step(r)->Ok_0;
        assert(w.accounts =~= v.accounts);
    }
}

/// The ledger engine: accounts, the journal and the dispute tracker, owned
/// together and changed only through `perform`.
pub struct State {
    accounts: HashMap<ClientID, Account>,
    transactions: HashMap<TransactionID, Transaction>,
    disputed_ids: HashSet<TransactionID>,
}

impl View for State {
    type V = LedgerView;

    closed spec fn view(&self) -> LedgerView {
        LedgerView {
            accounts: self.accounts@,
            journal: self.transactions@,
            disputed: self.disputed_ids@,
        }
    }
}

impl Default for State {
    fn default() -> (r: Self)
        ensures
            r.wf(),
            r@.accounts == Map::<ClientID, Account>::empty(),
            r@.journal == Map::<TransactionID, Transaction>::empty(),
            r@.disputed == Set::<TransactionID>::empty(),
    {
        State { accounts: HashMap::new(), transactions: HashMap::new(), disputed_ids: HashSet::new() }
    }
}

impl State {
    pub open spec fn wf(&self) -> bool {
        self@.wf()
    }

    /// Applies one record; see `LedgerView::step`. On an error nothing
    /// changes, and later records can still be applied.
    pub fn perform(&mut self, tx: &Transaction) -> (r: Result<(), AccountPerfomErr>)
        requires
            old(self).wf(),
        ensures
            final(self).wf(),
            match old(self)@.step(*tx) {
                Ok(v) => r is Ok && final(self)@ == v,
                Err(e) => r == Err::<(), AccountPerfomErr>(e) && final(self)@ == old(self)@,
            },
    {
        broadcast use group_hash_axioms;

        proof {
            lemma_step_keeps_wf(self@, *tx);
        }
        let tx_id = tx.tx;
        match tx.tx_type {
            TransactionType::Deposit | TransactionType::Withdrawal => {
                let mut account = match self.accounts.get(&tx.client) {
                    Some(a) => *a,
                    None => Account::for_client(tx.client),
                };
                let r = account.perform(tx);
                if r.is_ok() {
                    self.accounts.insert(tx.client, account);
                    if !self.transactions.contains_key(&tx_id) {
                        self.transactions.insert(tx_id, *tx);
                    }
                }
                r
            },
            TransactionType::Dispute => match self.transactions.get(&tx_id) {
                Some(entry) => {
                    let entry = *entry;
                    let mut account = *self.accounts.get(&entry.client).unwrap();
                    let r = account.dispute(&entry);
                    if r.is_ok() {
                        self.accounts.insert(entry.client, account);
                        self.disputed_ids.insert(tx_id);
                    }
                    r
                },
                None => Ok(()),
            },
            TransactionType::Resolve => {
                if self.disputed_ids.contains(&tx_id) {
                    let entry = *self.transactions.get(&tx_id).unwrap();
                    let mut account = *self.accounts.get(&entry.client).unwrap();
                    let r = account.resolve(&entry);
                    if r.is_ok() {
                        self.accounts.insert(entry.client, account);
                        self.disputed_ids.remove(&tx_id);
                    }
                    r
                } else {
                    Ok(())
                }
            },
            TransactionType::Chargeback => {
                if self.disputed_ids.contains(&tx_id) {
                    let entry = *self.transactions.get(&tx_id).unwrap();
                    let mut account = *self.accounts.get(&entry.client).unwrap();
                    let r = account.chargeback(&entry);
                    if r.is_ok() {
                        self.accounts.insert(entry.client, account);
                    }
                    r
                } else {
                    Ok(())
                }
            },
        }
    }

    /// The account of client `id`, which must have one.
    pub fn get_account(&self, id: ClientID) -> (r: &Account)
        requires
            self@.accounts.contains_key(id),
        ensures
            *r == self@.accounts[id],
    {
        broadcast use group_hash_axioms;

        self.accounts.get(&id).unwrap()
    }

    /// Every account touched so far, in increasing order of client.
    pub fn snapshot(&self) -> (r: Vec<Account>)
        requires
            self.wf(),
        ensures
            r@ == accounts_below(self@.accounts, CLIENT_ID_COUNT as int),
            forall|i: int| 0 <= i < r@.len() ==> #[trigger] r@[i].wf(),
    {
        broadcast use group_hash_axioms;

        let mut r: Vec<Account> = Vec::new();
        let mut c: u32 = 0;
        while c < CLIENT_ID_COUNT
            invariant
                c <= CLIENT_ID_COUNT,
                self.wf(),
                r@ == accounts_below(self@.accounts, c as int),
                forall|i: int| 0 <= i < r@.len() ==> #[trigger] r@[i].wf(),
            decreases CLIENT_ID_COUNT - c,
        {
            let id = c as ClientID;
            match self.accounts.get(&id) {
                Some(a) => {
                    r.push(*a);
                },
                None => {},
            }
            c = c + 1;
        }
        r
    }
}

} // verus!
