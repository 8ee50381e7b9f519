//! A client account: available / held / total balances and a lock flag.

use vstd::prelude::*;
use crate::types::{Amount, ClientID};

verus! {

/// One client's account state.
///
/// The balance invariant `total == available + held` is stated by
/// [`Client::balanced`] and is preserved by every balance operation.
#[derive(Clone, Copy, Debug)]
pub struct Client {
    pub id: ClientID,
    pub available: Amount,
    pub held: Amount,
    pub total: Amount,
    pub locked: bool,
}

/// The balance invariant: the stored total is exactly the sum of the
/// available and held funds.
pub open spec fn balanced(c: Client) -> bool {
    c.total as int == c.available as int + c.held as int
}

/// When adding `a` succeeds: the account is unlocked and both new
/// balances fit the fixed-point range.
pub open spec fn add_ok(c: Client, a: Amount) -> bool {
    &&& !c.locked
    &&& i64::MIN <= c.available as int + a as int <= i64::MAX
    &&& i64::MIN <= c.total as int + a as int <= i64::MAX
}

/// The account after a successful `add_funds(a)`.
pub open spec fn add_applied(c: Client, a: Amount) -> Client {
    Client {
        available: (c.available + a) as i64,
        total: (c.total + a) as i64,
        ..c
    }
}

/// When removing `a` succeeds: unlocked, sufficient available funds,
/// and both new balances fit the fixed-point range.
pub open spec fn remove_ok(c: Client, a: Amount) -> bool {
    &&& !c.locked
    &&& c.available >= a
    &&& i64::MIN <= c.available as int - a as int <= i64::MAX
    &&& i64::MIN <= c.total as int - a as int <= i64::MAX
}

/// The account after a successful `remove_funds(a)`.
pub open spec fn remove_applied(c: Client, a: Amount) -> Client {
    Client {
        available: (c.available - a) as i64,
        total: (c.total - a) as i64,
        ..c
    }
}

/// When holding `a` succeeds: unlocked and the new balances fit the
/// fixed-point range.  Available funds may go negative: the held
/// amount is always exactly the amount of the disputed transaction.
pub open spec fn hold_ok(c: Client, a: Amount) -> bool {
    &&& !c.locked
    &&& i64::MIN <= c.available as int - a as int <= i64::MAX
    &&& i64::MIN <= c.held as int + a as int <= i64::MAX
}

/// The account after a successful `hold_funds(a)`.
pub open spec fn hold_applied(c: Client, a: Amount) -> Client {
    Client {
        available: (c.available - a) as i64,
        held: (c.held + a) as i64,
        ..c
    }
}

/// When restoring `a` succeeds: unlocked, sufficient held funds, and
/// the new balances fit the fixed-point range.
pub open spec fn restore_ok(c: Client, a: Amount) -> bool {
    &&& !c.locked
    &&& c.held >= a
    &&& i64::MIN <= c.available as int + a as int <= i64::MAX
    &&& i64::MIN <= c.held as int - a as int <= i64::MAX
}

/// The account after a successful `restore_funds(a)`.
pub open spec fn restore_applied(c: Client, a: Amount) -> Client {
    Client {
        available: (c.available + a) as i64,
        held: (c.held - a) as i64,
        ..c
    }
}

/// A fresh account for `id`: all balances zero, unlocked.
pub open spec fn fresh_client(id: ClientID) -> Client {
    Client { id, available: 0, held: 0, total: 0, locked: false }
}

impl Client {
    /// Create a Client with a given ID: zero balances, unlocked.
    pub fn new(id: ClientID) -> (c: Self)
        ensures
            c == fresh_client(id),
    {
        Self { id, available: 0, held: 0, total: 0, locked: false }
    }

    /// Get a Client's ID.
    pub fn get_client_id(&self) -> (r: ClientID)
        ensures
            r == self.id,
    {
        self.id
    }

    /// Get a Client's available funds.
    pub fn get_available_funds(&self) -> (r: Amount)
        ensures
            r == self.available,
    {
        self.available
    }

    /// Get a Client's held funds.
    pub fn get_held_funds(&self) -> (r: Amount)
        ensures
            r == self.held,
    {
        self.held
    }

    /// Get a Client's total funds (`total == available + held`
    /// whenever the account is balanced).
    pub fn get_total_funds(&self) -> (r: Amount)
        ensures
            r == self.total,
    {
        self.total
    }

    /// Get the lock status: a locked account admits no balance change.
    pub fn is_locked(&self) -> (r: bool)
        ensures
            r == self.locked,
    {
        self.locked
    }

    /// Add funds to the account.  Fails, leaving the account
    /// untouched, only when the account is locked or a balance would
    /// leave the fixed-point range.
    pub fn add_funds(&mut self, amount: Amount) -> (ok: bool)
        ensures
            ok == add_ok(*old(self), amount),
            ok ==> *final(self) == add_applied(*old(self), amount),
            !ok ==> *final(self) == *old(self),
    {
        if self.locked {
            return false;
        }
        match (self.available.checked_add(amount), self.total.checked_add(amount)) {
            (Some(av), Some(tt)) => {
                self.available = av;
                self.total = tt;
                true
            },
            _ => false,
        }
    }

    /// Remove funds from the account.  Fails, leaving the account
    /// untouched, when the account is locked, the available funds are
    /// below `amount`, or a balance would leave the fixed-point range.
    pub fn remove_funds(&mut self, amount: Amount) -> (ok: bool)
        ensures
            ok == remove_ok(*old(self), amount),
            ok ==> *final(self) == remove_applied(*old(self), amount),
            !ok ==> *final(self) == *old(self),
    {
        if self.locked || self.available < amount {
            return false;
        }
        match (self.available.checked_sub(amount), self.total.checked_sub(amount)) {
            (Some(av), Some(tt)) => {
                self.available = av;
                self.total = tt;
                true
            },
            _ => false,
        }
    }

    /// Move funds from available to held, freezing them pending a
    /// dispute outcome.  Does not demand `available >= amount`:
    /// available funds may go negative.  Fails, leaving the account
    /// untouched, when the account is locked or a balance would leave
    /// the fixed-point range.
    pub fn hold_funds(&mut self, amount: Amount) -> (ok: bool)
        ensures
            ok == hold_ok(*old(self), amount),
            ok ==> *final(self) == hold_applied(*old(self), amount),
            !ok ==> *final(self) == *old(self),
    {
        if self.locked {
            return false;
        }
        match (self.available.checked_sub(amount), self.held.checked_add(amount)) {
            (Some(av), Some(hd)) => {
                self.available = av;
                self.held = hd;
                true
            },
            _ => false,
        }
    }

    /// Move funds back from held to available, ending a dispute.
    /// Fails, leaving the account untouched, when the account is
    /// locked, the held funds are below `amount`, or a balance would
    /// leave the fixed-point range.
    pub fn restore_funds(&mut self, amount: Amount) -> (ok: bool)
        ensures
            ok == restore_ok(*old(self), amount),
            ok ==> *final(self) == restore_applied(*old(self), amount),
            !ok ==> *final(self) == *old(self),
    {
        if self.locked || self.held < amount {
            return false;
        }
        match (self.available.checked_add(amount), self.held.checked_sub(amount)) {
            (Some(av), Some(hd)) => {
                self.available = av;
                self.held = hd;
                true
            },
            _ => false,
        }
    }

    /// Lock the account: no balance operation succeeds afterwards.
    pub fn lock(&mut self)
        ensures
            *final(self) == (Client { locked: true, ..*old(self) }),
    {
        self.locked = true;
    }

    /// Unlock the account (administrative; not reachable from
    /// transaction processing).
    pub fn unlock(&mut self)
        ensures
            *final(self) == (Client { locked: false, ..*old(self) }),
    {
        self.locked = false;
    }
}

/// Every balance operation keeps `total == available + held`.
pub proof fn lemma_operations_keep_balance(c: Client, a: Amount)
    requires
        balanced(c),
    ensures
        add_ok(c, a) ==> balanced(add_applied(c, a)),
        remove_ok(c, a) ==> balanced(remove_applied(c, a)),
        hold_ok(c, a) ==> balanced(hold_applied(c, a)),
        restore_ok(c, a) ==> balanced(restore_applied(c, a)),
{
}

} // verus!
