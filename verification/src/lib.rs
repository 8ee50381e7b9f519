//! A transaction-processing ledger.
//!
//! The library ingests an ordered stream of account transactions
//! (deposits, withdrawals and the dispute / resolve / chargeback
//! protocol) and produces the final balance state of every client
//! account.  Monetary amounts are fixed-point values carried as
//! integer counts of ten-thousandths, so that every balance rule is
//! exact integer arithmetic.

pub mod types;
pub mod client;
pub mod transaction;
pub mod numeric;
pub mod csv_io;
pub mod processor;
pub mod laws;
