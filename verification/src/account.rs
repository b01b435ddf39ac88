//! One client's account: balance fields plus a ledger of recorded
//! transactions, with the transition rules for the five transaction kinds.
//!
//! Every rule violation (insufficient funds, disputing a withdrawal or an
//! unknown or already-disputed transaction, resolving or charging back a
//! transaction that is not disputed) leaves the account unchanged; no
//! operation ever fails outright. The one machine limit is on deposits: a
//! deposit that would push the total balance past `i64::MAX` is skipped.
//! Every other operation stays in range by construction, because `held`
//! always dominates the sum of the currently disputed amounts.

use std::collections::BTreeMap;
use vstd::prelude::*;

use crate::ledger::disputed_amount;
use crate::ledger::disputed_sum;
use crate::ledger::lemma_disputed_sum_empty;
use crate::ledger::lemma_disputed_sum_element;
use crate::ledger::lemma_disputed_sum_insert;

verus! {

broadcast use vstd::std_specs::btree::group_btree_axioms, vstd::laws_cmp::group_laws_cmp;

/// Dispute status of one recorded transaction: a strict forward state
/// machine `Normal -> Disputed -> ChargedBack`, whose only backward step is
/// `Disputed -> Normal` by a resolve. `ChargedBack` is terminal.
#[derive(Clone, Copy, Debug, PartialEq, Eq, Structural)]
pub enum State {
    Normal,
    Disputed,
    ChargedBack,
}

/// One recorded deposit or withdrawal in a client's ledger.
///
/// The sign of `amount` encodes the kind: positive for a deposit, negative
/// for a withdrawal. Dispute, resolve and chargeback then share one
/// arithmetic path over the signed value, and the sign guard in `dispute`
/// is what makes withdrawals non-disputable.
#[derive(Clone, Copy, Debug, PartialEq, Eq, Structural)]
pub struct Transaction {
    pub state: State,
    pub amount: i64,
}

/// The mathematical model of one client's account: exact integer balances
/// and the ledger as a map from transaction id to recorded transaction.
pub struct AccountView {
    pub available: int,
    pub held: int,
    pub locked: bool,
    pub ledger: Map<u32, Transaction>,
}

impl AccountView {
    /// A fresh account: no funds, no ledger entries, not locked.
    pub open spec fn empty() -> AccountView {
        AccountView { available: 0, held: 0, locked: false, ledger: Map::empty() }
    }

    /// The client's full balance. It is derived, never stored.
    pub open spec fn total(self) -> int {
        self.available + self.held
    }

    /// Well-formedness. Neither balance is ever negative, the total fits
    /// in `i64`, every disputed ledger entry is a deposit (non-negative
    /// amount), and `held` dominates the sum of the currently disputed
    /// amounts. The last point is the reason a resolve or chargeback,
    /// which only reverses a dispute that passed its own check, can never
    /// drive `available` or `held` out of range.
    pub open spec fn wf(self) -> bool {
        &&& 0 <= self.available
        &&& 0 <= self.held
        &&& self.available + self.held <= i64::MAX
        &&& self.ledger.dom().finite()
        &&& forall|t: u32|
            #[trigger] self.ledger.contains_key(t) && self.ledger[t].state == State::Disputed
                ==> self.ledger[t].amount >= 0
        &&& disputed_sum(self.ledger) <= self.held
    }

    /// Effect of a deposit: credit `available` and record the transaction,
    /// unless the new total balance would not fit in `i64`.
    pub open spec fn deposit(self, amount: i64, tx: u32) -> AccountView
        recommends
            0 <= amount,
    {
        if self.available + amount + self.held <= i64::MAX {
            AccountView {
                available: self.available + amount,
                ledger: self.ledger.insert(tx, Transaction { state: State::Normal, amount }),
                ..self
            }
        } else {
            self
        }
    }

    /// Effect of a withdrawal: debit `available` and record the transaction
    /// with a negated amount, unless the funds are insufficient.
    pub open spec fn withdraw(self, amount: i64, tx: u32) -> AccountView
        recommends
            0 <= amount,
    {
        if amount <= self.available {
            AccountView {
                available: self.available - amount,
                ledger: self.ledger.insert(
                    tx,
                    Transaction { state: State::Normal, amount: (-amount) as i64 },
                ),
                ..self
            }
        } else {
            self
        }
    }

    /// Effect of a dispute of transaction `t`: move the amount from
    /// `available` to `held` and mark the entry disputed. A no-op if the
    /// entry is absent, not in the `Normal` state, a withdrawal (negative
    /// amount), or larger than `available`.
    pub open spec fn dispute(self, t: u32) -> AccountView {
        let e = self.ledger[t];
        if self.ledger.contains_key(t) && e.state == State::Normal && 0 <= e.amount && e.amount
            <= self.available {
            AccountView {
                available: self.available - e.amount,
                held: self.held + e.amount,
                ledger: self.ledger.insert(t, Transaction { state: State::Disputed, amount: e.amount }),
                ..self
            }
        } else {
            self
        }
    }

    /// Effect of a resolve of transaction `t`: move the amount back from
    /// `held` to `available` and return the entry to `Normal`. A no-op if
    /// the entry is absent or not disputed.
    pub open spec fn resolve(self, t: u32) -> AccountView {
        let e = self.ledger[t];
        if self.ledger.contains_key(t) && e.state == State::Disputed {
            AccountView {
                available: self.available + e.amount,
                held: self.held - e.amount,
                ledger: self.ledger.insert(t, Transaction { state: State::Normal, amount: e.amount }),
                ..self
            }
        } else {
            self
        }
    }

    /// Effect of a chargeback of transaction `t`: withdraw the held funds,
    /// mark the entry charged back and lock the account. A no-op if the
    /// entry is absent or not disputed.
    pub open spec fn chargeback(self, t: u32) -> AccountView {
        let e = self.ledger[t];
        if self.ledger.contains_key(t) && e.state == State::Disputed {
            AccountView {
                held: self.held - e.amount,
                locked: true,
                ledger: self.ledger.insert(
                    t,
                    Transaction { state: State::ChargedBack, amount: e.amount },
                ),
                ..self
            }
        } else {
            self
        }
    }
}

proof fn lemma_deposit_wf(a: AccountView, amount: i64, tx: u32)
    requires
        a.wf(),
        0 <= amount,
    ensures
        a.deposit(amount, tx).wf(),
{
    if a.available + amount + a.held <= i64::MAX {
        lemma_disputed_sum_insert(a.ledger, tx, Transaction { state: State::Normal, amount });
    }
}

proof fn lemma_withdraw_wf(a: AccountView, amount: i64, tx: u32)
    requires
        a.wf(),
        0 <= amount,
    ensures
        a.withdraw(amount, tx).wf(),
{
    if amount <= a.available {
        lemma_disputed_sum_insert(
            a.ledger,
            tx,
            Transaction { state: State::Normal, amount: (-amount) as i64 },
        );
    }
}

proof fn lemma_dispute_wf(a: AccountView, t: u32)
    requires
        a.wf(),
    ensures
        a.dispute(t).wf(),
        a.dispute(t).held <= i64::MAX,
{
    let e = a.ledger[t];
    if a.ledger.contains_key(t) && e.state == State::Normal && 0 <= e.amount && e.amount
        <= a.available {
        lemma_disputed_sum_insert(a.ledger, t, Transaction { state: State::Disputed, amount: e.amount });
    }
}

proof fn lemma_resolve_wf(a: AccountView, t: u32)
    requires
        a.wf(),
    ensures
        a.resolve(t).wf(),
        a.ledger.contains_key(t) && a.ledger[t].state == State::Disputed ==> {
            &&& a.available + a.ledger[t].amount <= i64::MAX
            &&& 0 <= a.held - a.ledger[t].amount
        },
{
    let e = a.ledger[t];
    if a.ledger.contains_key(t) && e.state == State::Disputed {
        assert forall|t2: u32| #[trigger] a.ledger.contains_key(t2)
            implies disputed_amount(a.ledger[t2]) >= 0 by {}
        lemma_disputed_sum_element(a.ledger, t);
        lemma_disputed_sum_insert(a.ledger, t, Transaction { state: State::Normal, amount: e.amount });
    }
}

proof fn lemma_chargeback_wf(a: AccountView, t: u32)
    requires
        a.wf(),
    ensures
        a.chargeback(t).wf(),
        a.ledger.contains_key(t) && a.ledger[t].state == State::Disputed ==> 0 <= a.held
            - a.ledger[t].amount,
{
    let e = a.ledger[t];
    if a.ledger.contains_key(t) && e.state == State::Disputed {
        assert forall|t2: u32| #[trigger] a.ledger.contains_key(t2)
            implies disputed_amount(a.ledger[t2]) >= 0 by {}
        lemma_disputed_sum_element(a.ledger, t);
        lemma_disputed_sum_insert(
            a.ledger,
            t,
            Transaction { state: State::ChargedBack, amount: e.amount },
        );
    }
}

/// A fresh account is well formed.
pub proof fn lemma_empty_account_wf()
    ensures
        AccountView::empty().wf(),
{
    lemma_disputed_sum_empty();
    assert(Map::<u32, Transaction>::empty().dom() =~= Set::<u32>::empty());
}

/// Every operation keeps an account well formed: balances never go
/// negative and the total keeps fitting in `i64`. In particular a resolve
/// or chargeback only reverses a dispute that passed its own check, so its
/// arithmetic can never leave the range — the point of the `held`
/// domination clause of `wf`.
pub proof fn lemma_operations_preserve_wf(a: AccountView, amount: i64, tx: u32, t: u32)
    requires
        a.wf(),
        0 <= amount,
    ensures
        a.deposit(amount, tx).wf(),
        a.withdraw(amount, tx).wf(),
        a.dispute(t).wf(),
        a.resolve(t).wf(),
        a.chargeback(t).wf(),
{
    lemma_deposit_wf(a, amount, tx);
    lemma_withdraw_wf(a, amount, tx);
    lemma_dispute_wf(a, t);
    lemma_resolve_wf(a, t);
    lemma_chargeback_wf(a, t);
}

/// A withdrawal never drives `available` below zero: either the funds
/// suffice and the new balance is still non-negative, or the account is
/// left exactly as it was.
pub proof fn lemma_withdrawal_never_overdraws(a: AccountView, amount: i64, tx: u32)
    requires
        a.wf(),
        0 <= amount,
    ensures
        a.withdraw(amount, tx).available >= 0,
        a.available < amount ==> a.withdraw(amount, tx) == a,
{
}

/// Disputing a recorded withdrawal (negative amount) never changes the
/// account: withdrawals have no held counterpart and are not disputable.
pub proof fn lemma_dispute_of_withdrawal_no_op(a: AccountView, t: u32)
    requires
        a.ledger.contains_key(t),
        a.ledger[t].amount < 0,
    ensures
        a.dispute(t) == a,
{
}

/// Disputing the same transaction twice applies the effect once: the
/// second dispute finds the entry no longer `Normal` and is a no-op, so
/// `dispute` is idempotent on every account.
pub proof fn lemma_dispute_idempotent(a: AccountView, t: u32)
    ensures
        a.dispute(t).dispute(t) == a.dispute(t),
{
}

/// Resolving or charging back a transaction that is not currently disputed
/// is a no-op.
pub proof fn lemma_resolve_chargeback_need_dispute(a: AccountView, t: u32)
    requires
        a.ledger.contains_key(t) ==> a.ledger[t].state != State::Disputed,
    ensures
        a.resolve(t) == a,
        a.chargeback(t) == a,
{
}

/// Referencing a transaction id the ledger does not hold, for dispute,
/// resolve or chargeback, is a no-op; in particular it creates no ledger
/// entry.
pub proof fn lemma_unknown_transaction_no_op(a: AccountView, t: u32)
    requires
        !a.ledger.contains_key(t),
    ensures
        a.dispute(t) == a,
        a.resolve(t) == a,
        a.chargeback(t) == a,
{
}

/// A chargeback of a disputed transaction takes effect: it leaves the
/// account locked, with the charged-back entry terminal.
pub proof fn lemma_chargeback_locks(a: AccountView, t: u32)
    requires
        a.ledger.contains_key(t),
        a.ledger[t].state == State::Disputed,
    ensures
        a.chargeback(t).locked,
        a.chargeback(t).ledger[t].state == State::ChargedBack,
{
}

/// A dispute and a resolve move funds between `available` and `held`
/// without changing the client's total balance.
pub proof fn lemma_dispute_resolve_preserve_total(a: AccountView, t: u32)
    ensures
        a.dispute(t).total() == a.total(),
        a.resolve(t).total() == a.total(),
{
}

/// One client's balances and ledger, as held by the engine.
pub struct ClientFunds {
    pub available: i64,
    pub held: i64,
    pub locked: bool,
    pub transactions: BTreeMap<u32, Transaction>,
}

impl View for ClientFunds {
    type V = AccountView;

    open spec fn view(&self) -> AccountView {
        AccountView {
            available: self.available as int,
            held: self.held as int,
            locked: self.locked,
            ledger: self.transactions@,
        }
    }
}

impl ClientFunds {
    /// Well-formedness of the concrete account, stated over its model.
    pub open spec fn wf(&self) -> bool {
        self@.wf()
    }
}

impl Default for ClientFunds {
    /// A fresh account: no funds, no ledger entries, not locked.
    fn default() -> (r: Self)
        ensures
            r.wf(),
            r@ == AccountView::empty(),
    {
        let r = ClientFunds { available: 0, held: 0, locked: false, transactions: BTreeMap::new() };
        proof {
            lemma_disputed_sum_empty();
            assert(Map::<u32, Transaction>::empty().dom() =~= Set::<u32>::empty());
        }
        r
    }
}

impl ClientFunds {
    /// Credit `amount` to `available` and record it under `transaction_id`.
    pub fn load_deposit(&mut self, amount: i64, transaction_id: u32)
        requires
            old(self).wf(),
            0 <= amount,
        ensures
            final(self).wf(),
            final(self)@ == old(self)@.deposit(amount, transaction_id),
    {
        let new_total: i128 = self.available as i128 + amount as i128 + self.held as i128;
        if new_total > i64::MAX as i128 {
            return ;
        }
        proof {
            lemma_deposit_wf(self@, amount, transaction_id);
        }
        self.available = self.available + amount;
        self.transactions.insert(transaction_id, Transaction { state: State::Normal, amount });
    }

    /// Debit `amount` from `available` and record it under `transaction_id`
    /// with a negated amount; a no-op when the funds are insufficient.
    pub fn load_withdrawal(&mut self, _client_id: u16, amount: i64, transaction_id: u32)
        requires
            old(self).wf(),
            0 <= amount,
        ensures
            final(self).wf(),
            final(self)@ == old(self)@.withdraw(amount, transaction_id),
    {
        if self.available < amount {
            return ;
        }
        proof {
            lemma_withdraw_wf(self@, amount, transaction_id);
        }
        self.available = self.available - amount;
        self.transactions.insert(
            transaction_id,
            Transaction { state: State::Normal, amount: -amount },
        );
    }

    /// Dispute the transaction recorded under `ref_transaction_id`.
    pub fn load_dispute(&mut self, _client_id: u16, ref_transaction_id: u32)
        requires
            old(self).wf(),
        ensures
            final(self).wf(),
            final(self)@ == old(self)@.dispute(ref_transaction_id),
    {
        let entry = match self.transactions.get(&ref_transaction_id) {
            Some(e) => *e,
            None => {
                return ;
            },
        };
        if entry.state != State::Normal {
            return ;
        }
        if entry.amount < 0 {
            return ;
        }
        if entry.amount > self.available {
            return ;
        }
        proof {
            lemma_dispute_wf(self@, ref_transaction_id);
        }
        self.available = self.available - entry.amount;
        self.held = self.held + entry.amount;
        self.transactions.insert(
            ref_transaction_id,
            Transaction { state: State::Disputed, amount: entry.amount },
        );
    }

    /// Resolve the disputed transaction recorded under `ref_transaction_id`.
    pub fn load_resolve(&mut self, _client_id: u16, ref_transaction_id: u32)
        requires
            old(self).wf(),
        ensures
            final(self).wf(),
            final(self)@ == old(self)@.resolve(ref_transaction_id),
    {
        let entry = match self.transactions.get(&ref_transaction_id) {
            Some(e) => *e,
            None => {
                return ;
            },
        };
        if entry.state != State::Disputed {
            return ;
        }
        proof {
            lemma_resolve_wf(self@, ref_transaction_id);
        }
        self.available = self.available + entry.amount;
        self.held = self.held - entry.amount;
        self.transactions.insert(
            ref_transaction_id,
            Transaction { state: State::Normal, amount: entry.amount },
        );
    }

    /// Charge back the disputed transaction recorded under
    /// `ref_transaction_id`, locking the account.
    pub fn load_chargeback(&mut self, _client_id: u16, ref_transaction_id: u32)
        requires
            old(self).wf(),
        ensures
            final(self).wf(),
            final(self)@ == old(self)@.chargeback(ref_transaction_id),
    {
        let entry = match self.transactions.get(&ref_transaction_id) {
            Some(e) => *e,
            None => {
                return ;
            },
        };
        if entry.state != State::Disputed {
            return ;
        }
        proof {
            lemma_chargeback_wf(self@, ref_transaction_id);
        }
        self.held = self.held - entry.amount;
        self.locked = true;
        self.transactions.insert(
            ref_transaction_id,
            Transaction { state: State::ChargedBack, amount: entry.amount },
        );
    }
}

} // verus!
