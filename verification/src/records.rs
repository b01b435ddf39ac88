//! The record type handed to the engine by a format adapter.

use vstd::prelude::*;

verus! {

/// The kind of an incoming transaction record.
#[derive(Clone, Copy, Debug, PartialEq, Eq, Structural)]
pub enum TransactionTypeRaw {
    Deposit,
    Withdrawal,
    Dispute,
    Resolve,
    Chargeback,
}

/// One incoming transaction record.
///
/// `amount` is meaningful only for deposits and withdrawals, where it is the
/// non-negative magnitude moved; a record of those kinds without an amount,
/// or with a negative one, is malformed and is skipped by the engine. For
/// dispute, resolve and chargeback, `tx` names the transaction referred to
/// and `amount` is ignored.
#[derive(Clone, Copy, Debug)]
pub struct TransactionRaw {
    pub transaction_type: TransactionTypeRaw,
    pub client: u16,
    pub tx: u32,
    pub amount: Option<i64>,
}

} // verus!
