//! Transaction records and the structural validator.

use vstd::prelude::*;
use crate::types::{Amount, ClientID, TransactionID};

verus! {

/// Different types of transactions.
#[derive(Clone, Copy, Debug, PartialEq, Eq, Structural)]
pub enum TransactionType {
    Deposit,
    Withdrawal,
    Dispute,
    Resolve,
    Chargeback,
}

/// One input event.  Deposits and withdrawals move funds and carry an
/// amount; dispute, resolve and chargeback are control records that
/// reference a prior funds-moving transaction by its ID and carry no
/// amount of their own.  The `in_dispute` flag is the only state that
/// changes after creation, and is meaningful only for stored deposit
/// and withdrawal records.
#[derive(Clone, Copy, Debug)]
pub struct Transaction {
    pub typ: TransactionType,
    pub client: ClientID,
    pub id: TransactionID,
    pub amount: Option<Amount>,
    pub in_dispute: bool,
}

/// The validation contract: deposits and withdrawals need a present
/// amount; control records need an absent amount and a clear dispute
/// flag.  A record failing this must never reach the ledger.
pub open spec fn spec_valid(t: Transaction) -> bool {
    match t.typ {
        TransactionType::Deposit | TransactionType::Withdrawal => t.amount is Some,
        TransactionType::Dispute | TransactionType::Resolve | TransactionType::Chargeback => {
            t.amount is None && !t.in_dispute
        },
    }
}

/// Whether this transaction type moves funds (as opposed to a
/// dispute-stage control record).
pub open spec fn is_funds_moving(typ: TransactionType) -> bool {
    typ == TransactionType::Deposit || typ == TransactionType::Withdrawal
}

/// The record after `set_disputed`: the flag is raised on a deposit
/// or withdrawal and untouched on a control record.
pub open spec fn set_disputed_applied(t: Transaction) -> Transaction {
    if is_funds_moving(t.typ) {
        Transaction { in_dispute: true, ..t }
    } else {
        t
    }
}

/// The record after `clear_disputed`: the flag is cleared on a
/// deposit or withdrawal and untouched on a control record.
pub open spec fn clear_disputed_applied(t: Transaction) -> Transaction {
    if is_funds_moving(t.typ) {
        Transaction { in_dispute: false, ..t }
    } else {
        t
    }
}

impl Transaction {
    /// Create a new deposit transaction from the provided info.
    pub fn new_deposit(client: ClientID, id: TransactionID, amount: Amount, in_dispute: bool)
        -> (t: Self)
        ensures
            t == (Transaction {
                typ: TransactionType::Deposit,
                client,
                id,
                amount: Some(amount),
                in_dispute,
            }),
    {
        Self { typ: TransactionType::Deposit, client, id, amount: Some(amount), in_dispute }
    }

    /// Create a new withdrawal transaction from the provided info.
    pub fn new_withdrawl(client: ClientID, id: TransactionID, amount: Amount, in_dispute: bool)
        -> (t: Self)
        ensures
            t == (Transaction {
                typ: TransactionType::Withdrawal,
                client,
                id,
                amount: Some(amount),
                in_dispute,
            }),
    {
        Self { typ: TransactionType::Withdrawal, client, id, amount: Some(amount), in_dispute }
    }

    /// Create a new dispute transaction from the provided info.
    pub fn new_dispute(client: ClientID, id: TransactionID) -> (t: Self)
        ensures
            t == (Transaction {
                typ: TransactionType::Dispute,
                client,
                id,
                amount: None,
                in_dispute: false,
            }),
    {
        Self { typ: TransactionType::Dispute, client, id, amount: None, in_dispute: false }
    }

    /// Create a new resolve transaction from the provided info.
    pub fn new_resolve(client: ClientID, id: TransactionID) -> (t: Self)
        ensures
            t == (Transaction {
                typ: TransactionType::Resolve,
                client,
                id,
                amount: None,
                in_dispute: false,
            }),
    {
        Self { typ: TransactionType::Resolve, client, id, amount: None, in_dispute: false }
    }

    /// Create a new chargeback transaction from the provided info.
    pub fn new_chargeback(client: ClientID, id: TransactionID) -> (t: Self)
        ensures
            t == (Transaction {
                typ: TransactionType::Chargeback,
                client,
                id,
                amount: None,
                in_dispute: false,
            }),
    {
        Self { typ: TransactionType::Chargeback, client, id, amount: None, in_dispute: false }
    }

    /// Check the structural validity of the record; a pure predicate
    /// over the record's own fields.
    pub fn validate(&self) -> (r: bool)
        ensures
            r == spec_valid(*self),
    {
        match self.typ {
            TransactionType::Deposit | TransactionType::Withdrawal => self.amount.is_some(),
            TransactionType::Dispute | TransactionType::Resolve | TransactionType::Chargeback => {
                self.amount.is_none() && !self.in_dispute
            },
        }
    }

    /// Get the type of the transaction.
    pub fn get_type(&self) -> (r: TransactionType)
        ensures
            r == self.typ,
    {
        self.typ
    }

    /// Get the Client ID associated with the transaction.
    pub fn get_client_id(&self) -> (r: ClientID)
        ensures
            r == self.client,
    {
        self.client
    }

    /// Get the transaction ID.
    pub fn get_id(&self) -> (r: TransactionID)
        ensures
            r == self.id,
    {
        self.id
    }

    /// Get the transaction amount; control records carry none.
    pub fn get_amount(&self) -> (r: Option<Amount>)
        ensures
            r == self.amount,
    {
        self.amount
    }

    /// Get the dispute status of the transaction.
    pub fn is_disputed(&self) -> (r: bool)
        ensures
            r == self.in_dispute,
    {
        self.in_dispute
    }

    /// Mark a transaction as disputed.  Only deposits and
    /// withdrawals can carry the flag; on control records this is a
    /// defensive no-op.
    pub fn set_disputed(&mut self)
        ensures
            *final(self) == set_disputed_applied(*old(self)),
    {
        match self.typ {
            TransactionType::Deposit | TransactionType::Withdrawal => {
                self.in_dispute = true;
            },
            _ => (),
        }
    }

    /// Clear the dispute status on a transaction; on control records
    /// this is a defensive no-op.
    pub fn clear_disputed(&mut self)
        ensures
            *final(self) == clear_disputed_applied(*old(self)),
    {
        match self.typ {
            TransactionType::Deposit | TransactionType::Withdrawal => {
                self.in_dispute = false;
            },
            _ => (),
        }
    }
}

} // verus!
