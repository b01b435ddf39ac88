//! A per-client balance ledger for a stream of financial transactions.
//!
//! The engine consumes deposit, withdrawal, dispute, resolve and chargeback
//! records in input order, applies them to per-client accounts under strict
//! validity rules (insufficient funds, double dispute, disputing a
//! withdrawal, chargeback locking), and exposes a final snapshot of every
//! client's available, held and total balance together with its lock status.
//!
//! Amounts are signed fixed-point integers: the caller picks the unit (for
//! example one ten-thousandth of a currency unit for four decimal places of
//! precision) and the engine never divides or rescales.

pub mod account;
pub mod ledger;
pub mod records;
pub mod transaction_engine;

pub use account::ClientFunds;
pub use account::State;
pub use account::Transaction;
pub use records::TransactionRaw;
pub use records::TransactionTypeRaw;
pub use transaction_engine::ClientInfo;
pub use transaction_engine::TransactionEngine;
