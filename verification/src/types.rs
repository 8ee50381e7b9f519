//! Basic identifier and amount types shared by the whole ledger.

use vstd::prelude::*;

verus! {

/// Identifier of a client account, externally assigned.
pub type ClientID = u16;

/// Identifier of a funds-moving transaction, externally assigned.
pub type TransactionID = u32;

/// A monetary amount, stored as a signed count of ten-thousandths
/// (four fixed decimal digits).  `15000` stands for `1.5000`.
pub type Amount = i64;

} // verus!
