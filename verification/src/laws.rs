//! The ledger's governing laws, proved once and for all over the
//! dispatch state machine [`crate::processor::apply_spec`].

use vstd::prelude::*;
use crate::types::{ClientID, TransactionID};
use crate::client::{
    Client, balanced, hold_ok, remove_ok, restore_applied, restore_ok,
};
use crate::transaction::{Transaction, TransactionType, spec_valid};
use crate::processor::{acct_or_fresh, apply_spec, stored_tx_wf};

verus! {

/// Every account in the map satisfies `total == available + held`.
pub open spec fn accounts_balanced(cl: Map<ClientID, Client>) -> bool {
    forall|k: ClientID| cl.dom().contains(k) ==> balanced(#[trigger] cl[k])
}

/// Applying any transaction keeps every account balanced: whatever
/// the sequence of applied transactions, `total == available + held`
/// holds of every account after every step.
pub proof fn lemma_apply_keeps_accounts_balanced(
    cl: Map<ClientID, Client>,
    txs: Map<TransactionID, Transaction>,
    t: Transaction,
)
    requires
        accounts_balanced(cl),
    ensures
        accounts_balanced(apply_spec(cl, txs, t).0),
{
    let c0 = acct_or_fresh(cl, t.client);
    assert(balanced(c0));
}

/// A withdrawal whose amount exceeds the available funds never
/// succeeds: the account's balances are unchanged (beyond its lazy
/// creation) and the withdrawal is not stored.
pub proof fn lemma_withdrawal_insufficient_fails(
    cl: Map<ClientID, Client>,
    txs: Map<TransactionID, Transaction>,
    t: Transaction,
)
    requires
        t.typ == TransactionType::Withdrawal,
        spec_valid(t),
        t.amount->0 > acct_or_fresh(cl, t.client).available,
    ensures
        apply_spec(cl, txs, t).0 == cl.insert(t.client, acct_or_fresh(cl, t.client)),
        apply_spec(cl, txs, t).0[t.client] == acct_or_fresh(cl, t.client),
        apply_spec(cl, txs, t).1 == txs,
{
    assert(!remove_ok(acct_or_fresh(cl, t.client), t.amount->0));
}

/// A dispute against a stored transaction of amount `a` moves `a`
/// from available to held, leaves the total unchanged, and raises
/// the stored record's dispute flag.  (It demands an unlocked
/// account whose new balances stay in the fixed-point range, which
/// is what `hold_ok` states.)
pub proof fn lemma_dispute_holds_amount(
    cl: Map<ClientID, Client>,
    txs: Map<TransactionID, Transaction>,
    t: Transaction,
)
    requires
        t.typ == TransactionType::Dispute,
        txs.dom().contains(t.id),
        stored_tx_wf(txs[t.id]),
        hold_ok(acct_or_fresh(cl, t.client), txs[t.id].amount->0),
    ensures
        ({
            let c0 = acct_or_fresh(cl, t.client);
            let a = txs[t.id].amount->0;
            let c1 = apply_spec(cl, txs, t).0[t.client];
            &&& c1.held == c0.held + a
            &&& c1.available == c0.available - a
            &&& c1.total == c0.total
            &&& apply_spec(cl, txs, t).1[t.id].in_dispute
        }),
{
}

/// A resolve of a disputed transaction of amount `a` moves `a` back
/// from held to available, leaves the total unchanged, and clears
/// the dispute flag.  (It demands an unlocked account with at least
/// `a` held, which is what `restore_ok` states.)
pub proof fn lemma_resolve_restores_amount(
    cl: Map<ClientID, Client>,
    txs: Map<TransactionID, Transaction>,
    t: Transaction,
)
    requires
        t.typ == TransactionType::Resolve,
        txs.dom().contains(t.id),
        txs[t.id].in_dispute,
        stored_tx_wf(txs[t.id]),
        restore_ok(acct_or_fresh(cl, t.client), txs[t.id].amount->0),
    ensures
        ({
            let c0 = acct_or_fresh(cl, t.client);
            let a = txs[t.id].amount->0;
            let c1 = apply_spec(cl, txs, t).0[t.client];
            &&& c1.held == c0.held - a
            &&& c1.available == c0.available + a
            &&& c1.total == c0.total
            &&& !apply_spec(cl, txs, t).1[t.id].in_dispute
        }),
{
}

/// A chargeback of a disputed transaction of amount `a` destroys the
/// held funds: `a` leaves both held and total, available is
/// unchanged, the account is locked, and the dispute flag is
/// cleared.  (It demands an unlocked account with at least `a` held
/// and a non-negative available balance.)
pub proof fn lemma_chargeback_destroys_amount(
    cl: Map<ClientID, Client>,
    txs: Map<TransactionID, Transaction>,
    t: Transaction,
)
    requires
        t.typ == TransactionType::Chargeback,
        txs.dom().contains(t.id),
        txs[t.id].in_dispute,
        stored_tx_wf(txs[t.id]),
        restore_ok(acct_or_fresh(cl, t.client), txs[t.id].amount->0),
        acct_or_fresh(cl, t.client).available >= 0,
        balanced(acct_or_fresh(cl, t.client)),
        txs[t.id].amount->0 >= 0,
    ensures
        ({
            let c0 = acct_or_fresh(cl, t.client);
            let a = txs[t.id].amount->0;
            let c1 = apply_spec(cl, txs, t).0[t.client];
            &&& c1.held == c0.held - a
            &&& c1.total == c0.total - a
            &&& c1.available == c0.available
            &&& c1.locked
            &&& !apply_spec(cl, txs, t).1[t.id].in_dispute
        }),
{
    let c0 = acct_or_fresh(cl, t.client);
    let a = txs[t.id].amount->0;
    assert(remove_ok(restore_applied(c0, a), a));
}

/// A resolve or chargeback against a transaction that is not
/// currently disputed has no effect: held, available and total are
/// all unchanged, and nothing is stored or cleared.
pub proof fn lemma_settled_control_is_noop(
    cl: Map<ClientID, Client>,
    txs: Map<TransactionID, Transaction>,
    t: Transaction,
)
    requires
        t.typ == TransactionType::Resolve || t.typ == TransactionType::Chargeback,
        cl.dom().contains(t.client),
        txs.dom().contains(t.id),
        !txs[t.id].in_dispute,
    ensures
        apply_spec(cl, txs, t).0 == cl,
        apply_spec(cl, txs, t).1 == txs,
{
    assert(cl.insert(t.client, cl[t.client]) =~= cl);
}

} // verus!

