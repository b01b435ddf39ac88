//! The transaction engine: a collection of client accounts keyed by client
//! id, a single ordered pass applying incoming records to them, and the
//! final snapshot of every account.

use std::collections::HashMap;
use vstd::prelude::*;

use crate::account::lemma_empty_account_wf;
use crate::account::lemma_operations_preserve_wf;
use crate::account::AccountView;
use crate::account::ClientFunds;
use crate::records::TransactionRaw;
use crate::records::TransactionTypeRaw;

verus! {

broadcast use vstd::std_specs::hash::group_hash_axioms;

/// One row of the final snapshot. `total` is the exact sum of `available`
/// and `held`, computed in `i128` so that it always fits.
#[derive(Clone, Copy, Debug)]
pub struct ClientInfo {
    pub client_id: u16,
    pub total: i128,
    pub available: i64,
    pub held: i64,
    pub locked: bool,
}

/// The model of the engine: the accounts by client id, and the client ids
/// in order of first appearance.
pub struct EngineView {
    pub accounts: Map<u16, AccountView>,
    pub ids: Seq<u16>,
}

/// The transaction engine, responsible for processing transactions and
/// maintaining client states and balances.
pub struct TransactionEngine {
    pub clients: HashMap<u16, ClientFunds>,
    pub client_ids: Vec<u16>,
}

impl View for TransactionEngine {
    type V = EngineView;

    open spec fn view(&self) -> EngineView {
        EngineView {
            accounts: self.clients@.map_values(|f: ClientFunds| f@),
            ids: self.client_ids@,
        }
    }
}

impl TransactionEngine {
    /// Well-formedness: every account is well formed, and `client_ids`
    /// lists each known client exactly once.
    pub open spec fn wf(&self) -> bool {
        &&& forall|c: u16| #[trigger] self@.accounts.contains_key(c) ==> self@.accounts[c].wf()
        &&& forall|i: int, j: int|
            0 <= i < j < self@.ids.len() ==> self@.ids[i] != self@.ids[j]
        &&& forall|i: int|
            0 <= i < self@.ids.len() ==> self@.accounts.contains_key(#[trigger] self@.ids[i])
        &&& forall|c: u16| #[trigger] self@.accounts.contains_key(c) ==> self@.ids.contains(c)
    }
}

/// Effect of one record on the account it addresses. A deposit or
/// withdrawal without an amount, or with a negative one, is malformed and
/// has no effect.
pub open spec fn apply_record(a: AccountView, r: TransactionRaw) -> AccountView {
    match r.transaction_type {
        TransactionTypeRaw::Deposit => match r.amount {
            Some(amount) => if 0 <= amount {
                a.deposit(amount, r.tx)
            } else {
                a
            },
            None => a,
        },
        TransactionTypeRaw::Withdrawal => match r.amount {
            Some(amount) => if 0 <= amount {
                a.withdraw(amount, r.tx)
            } else {
                a
            },
            None => a,
        },
        TransactionTypeRaw::Dispute => a.dispute(r.tx),
        TransactionTypeRaw::Resolve => a.resolve(r.tx),
        TransactionTypeRaw::Chargeback => a.chargeback(r.tx),
    }
}

/// Effect of one record on the whole collection of accounts: the account is
/// created empty on first reference, and a locked account ignores every
/// record addressed to it.
pub open spec fn engine_step(
    accounts: Map<u16, AccountView>,
    r: TransactionRaw,
) -> Map<u16, AccountView> {
    let a = if accounts.contains_key(r.client) {
        accounts[r.client]
    } else {
        AccountView::empty()
    };
    if a.locked {
        accounts
    } else {
        accounts.insert(r.client, apply_record(a, r))
    }
}

/// Effect of a whole sequence of records, applied strictly in order.
pub open spec fn engine_run(
    accounts: Map<u16, AccountView>,
    records: Seq<TransactionRaw>,
) -> Map<u16, AccountView>
    decreases records.len(),
{
    if records.len() == 0 {
        accounts
    } else {
        engine_step(engine_run(accounts, records.drop_last()), records.last())
    }
}

/// Applying any record to a well-formed account leaves it well formed:
/// in particular its balances stay non-negative and its total keeps
/// fitting in `i64`.
pub proof fn lemma_apply_record_wf(a: AccountView, r: TransactionRaw)
    requires
        a.wf(),
    ensures
        apply_record(a, r).wf(),
{
    match r.transaction_type {
        TransactionTypeRaw::Deposit | TransactionTypeRaw::Withdrawal => {
            match r.amount {
                Some(amount) => {
                    if 0 <= amount {
                        lemma_operations_preserve_wf(a, amount, r.tx, r.tx);
                    }
                },
                None => {},
            }
        },
        TransactionTypeRaw::Dispute | TransactionTypeRaw::Resolve
        | TransactionTypeRaw::Chargeback => {
            lemma_operations_preserve_wf(a, 0, r.tx, r.tx);
        },
    }
}

/// Every account is well formed at every point of a run: whatever records
/// a well-formed collection of accounts consumes, every account it then
/// holds still has non-negative balances and a total within `i64`.
pub proof fn lemma_run_preserves_wf(accounts: Map<u16, AccountView>, records: Seq<TransactionRaw>)
    requires
        forall|c: u16| #[trigger] accounts.contains_key(c) ==> accounts[c].wf(),
    ensures
        forall|c: u16|
            #[trigger] engine_run(accounts, records).contains_key(c) ==> engine_run(
                accounts,
                records,
            )[c].wf(),
    decreases records.len(),
{
    if records.len() == 0 {
    } else {
        lemma_run_preserves_wf(accounts, records.drop_last());
        let m1 = engine_run(accounts, records.drop_last());
        let r = records.last();
        let a = if m1.contains_key(r.client) {
            m1[r.client]
        } else {
            AccountView::empty()
        };
        lemma_empty_account_wf();
        if !a.locked {
            lemma_apply_record_wf(a, r);
        }
    }
}

/// A record addressed to a locked account has no effect on any account:
/// the engine skips it entirely.
pub proof fn lemma_locked_account_frozen(accounts: Map<u16, AccountView>, r: TransactionRaw)
    requires
        accounts.contains_key(r.client),
        accounts[r.client].locked,
    ensures
        engine_step(accounts, r) == accounts,
{
}

/// Once an account is locked, no later record of any kind, on any
/// transaction id, changes it: its balances and lock status survive any
/// further run of the engine unchanged.
pub proof fn lemma_locked_account_stays_frozen(
    accounts: Map<u16, AccountView>,
    records: Seq<TransactionRaw>,
    c: u16,
)
    requires
        accounts.contains_key(c),
        accounts[c].locked,
    ensures
        engine_run(accounts, records).contains_key(c),
        engine_run(accounts, records)[c] == accounts[c],
    decreases records.len(),
{
    if records.len() == 0 {
    } else {
        lemma_locked_account_stays_frozen(accounts, records.drop_last(), c);
        let m1 = engine_run(accounts, records.drop_last());
        let r = records.last();
        if r.client == c {
            lemma_locked_account_frozen(m1, r);
        }
    }
}

impl Default for TransactionEngine {
    /// An engine with no known clients.
    fn default() -> (r: Self)
        ensures
            r.wf(),
            r@.accounts == Map::<u16, AccountView>::empty(),
            r@.ids.len() == 0,
    {
        let r = TransactionEngine { clients: HashMap::new(), client_ids: Vec::new() };
        proof {
            assert(r@.accounts =~= Map::<u16, AccountView>::empty());
        }
        r
    }
}

impl TransactionEngine {
    /// Apply every record, strictly in input order. An account is created
    /// on first reference to its client id; a locked account ignores every
    /// record of any kind.
    #[verifier::loop_isolation(false)]
    pub fn load_transactions(&mut self, transactions: Vec<TransactionRaw>)
        requires
            old(self).wf(),
        ensures
            final(self).wf(),
            final(self)@.accounts == engine_run(old(self)@.accounts, transactions@),
    {
        let ghost initial = self@.accounts;
        let mut i: usize = 0;
        while i < transactions.len()
            invariant
                i <= transactions.len(),
                self.wf(),
                self@.accounts == engine_run(initial, transactions@.take(i as int)),
            decreases transactions.len() - i,
        {
            let r = transactions[i];
            let ghost pre = self@;
            let ghost pre_clients = self.clients@;
            let mut funds: ClientFunds = match self.clients.remove(&r.client) {
                Some(f) => f,
                None => {
                    self.client_ids.push(r.client);
                    ClientFunds::default()
                },
            };
            proof {
                assert(funds@ == if pre.accounts.contains_key(r.client) {
                    pre.accounts[r.client]
                } else {
                    AccountView::empty()
                });
            }
            if !funds.locked {
                match r.transaction_type {
                    TransactionTypeRaw::Deposit => {
                        match r.amount {
                            Some(amount) => if amount >= 0 {
                                funds.load_deposit(amount, r.tx);
                            },
                            None => {},
                        }
                    },
                    TransactionTypeRaw::Withdrawal => {
                        match r.amount {
                            Some(amount) => if amount >= 0 {
                                funds.load_withdrawal(r.client, amount, r.tx);
                            },
                            None => {},
                        }
                    },
                    TransactionTypeRaw::Dispute => {
                        funds.load_dispute(r.client, r.tx);
                    },
                    TransactionTypeRaw::Resolve => {
                        funds.load_resolve(r.client, r.tx);
                    },
                    TransactionTypeRaw::Chargeback => {
                        funds.load_chargeback(r.client, r.tx);
                    },
                }
            }
            assert(funds.wf());
            self.clients.insert(r.client, funds);
            proof {
                let post = self@;
                assert forall|c2: u16| #[trigger] post.accounts.contains_key(c2)
                    implies post.accounts[c2].wf() by {
                    if c2 != r.client {
                        assert(pre.accounts.contains_key(c2));
                        assert(post.accounts[c2] == pre.accounts[c2]);
                    }
                }
                assert forall|k: int, l: int| 0 <= k < l < post.ids.len()
                    implies post.ids[k] != post.ids[l] by {
                    if l < pre.ids.len() {
                        assert(pre.ids[k] != pre.ids[l]);
                    } else {
                        assert(pre.accounts.contains_key(pre.ids[k]));
                    }
                }
                assert forall|k: int| 0 <= k < post.ids.len()
                    implies post.accounts.contains_key(#[trigger] post.ids[k]) by {
                    if k < pre.ids.len() {
                        assert(pre.accounts.contains_key(pre.ids[k]));
                    }
                }
                assert forall|c2: u16| #[trigger] post.accounts.contains_key(c2)
                    implies post.ids.contains(c2) by {
                    if pre.accounts.contains_key(c2) {
                        let k = choose|k: int| 0 <= k < pre.ids.len() && pre.ids[k] == c2;
                        assert(post.ids[k] == c2);
                    } else {
                        assert(c2 == r.client);
                        assert(post.ids[post.ids.len() - 1] == c2);
                    }
                }
                assert(self@.accounts =~= engine_step(pre.accounts, r));
                assert(transactions@.take(i as int + 1).drop_last() =~= transactions@.take(
                    i as int,
                ));
                assert(transactions@.take(i as int + 1).last() == transactions@[i as int]);
            }
            i = i + 1;
        }
        proof {
            assert(transactions@.take(transactions.len() as int) =~= transactions@);
        }
    }

    /// The final snapshot: one row per known client, in order of first
    /// appearance, each row's `total` the exact sum of its `available` and
    /// `held`.
    #[verifier::loop_isolation(false)]
    pub fn clients(&self) -> (result: Vec<ClientInfo>)
        requires
            self.wf(),
        ensures
            result@.len() == self@.ids.len(),
            forall|i: int|
                0 <= i < result@.len() ==> {
                    let c = self@.ids[i];
                    &&& (#[trigger] result@[i]).client_id == c
                    &&& result@[i].available == self@.accounts[c].available
                    &&& result@[i].held == self@.accounts[c].held
                    &&& result@[i].locked == self@.accounts[c].locked
                    &&& result@[i].total == self@.accounts[c].total()
                },
    {
        let mut result: Vec<ClientInfo> = Vec::new();
        let mut i: usize = 0;
        while i < self.client_ids.len()
            invariant
                i <= self.client_ids.len(),
                result@.len() == i,
                forall|j: int|
                    0 <= j < i ==> {
                        let c = self@.ids[j];
                        &&& (#[trigger] result@[j]).client_id == c
                        &&& result@[j].available == self@.accounts[c].available
                        &&& result@[j].held == self@.accounts[c].held
                        &&& result@[j].locked == self@.accounts[c].locked
                        &&& result@[j].total == self@.accounts[c].total()
                    },
            decreases self.client_ids.len() - i,
        {
            let c = self.client_ids[i];
            proof {
                assert(c == self@.ids[i as int]);
                assert(self@.accounts.contains_key(c));
                assert(self.clients@.contains_key(c));
            }
            let funds = self.clients.get(&c).unwrap();
            let total: i128 = funds.available as i128 + funds.held as i128;
            result.push(
                ClientInfo {
                    client_id: c,
                    total,
                    available: funds.available,
                    held: funds.held,
                    locked: funds.locked,
                },
            );
            i = i + 1;
        }
        result
    }
}

} // verus!
