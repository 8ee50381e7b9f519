//! The ledger orchestrator: owns the client accounts and the history
//! of stored funds-moving transactions, and applies each incoming
//! transaction by dispatching on its type.

use vstd::prelude::*;
use vstd::string::StringSliceAdditionalSpecFns;
use crate::types::{Amount, ClientID, TransactionID};
use crate::numeric::{
    bytes_eq, dec_digits, dec_val, dec_wf, format_amount, lower_bytes, parse_amount,
    parse_dec_u64, spec_fmt_amount, spec_parse_amount, to_lower, u64_to_dec,
};
use crate::csv_io::{csv_rows, csv_text, read_csv_rows, write_csv_rows};
use crate::client::{
    Client, add_applied, add_ok, balanced, fresh_client, hold_applied, hold_ok, remove_applied,
    remove_ok, restore_applied, restore_ok,
};
use crate::transaction::{
    Transaction, TransactionType, clear_disputed_applied, is_funds_moving, set_disputed_applied,
    spec_valid,
};

verus! {

/// The main struct of the transaction processor.
///
/// Clients and stored transactions are kept in insertion order, with
/// identifiers pairwise distinct; [`TransactionProcessor::clients_map`]
/// and [`TransactionProcessor::txs_map`] give the keyed views that the
/// contracts speak of.
#[derive(Debug)]
pub struct TransactionProcessor {
    pub clients: Vec<Client>,
    pub transactions: Vec<Transaction>,
}

/// Transaction processor error: a decode error in the input stream,
/// or a structurally invalid record.  Both abort the whole stream.
#[derive(Debug)]
pub enum TransactionProcessorErr {
    CSVError(String),
    TransactionValidateError(String),
}

/// Client identifiers are pairwise distinct.
pub open spec fn unique_client_ids(s: Seq<Client>) -> bool {
    forall|i: int, j: int| 0 <= i < j < s.len() ==> s[i].id != s[j].id
}

/// Transaction identifiers are pairwise distinct.
pub open spec fn unique_tx_ids(s: Seq<Transaction>) -> bool {
    forall|i: int, j: int| 0 <= i < j < s.len() ==> s[i].id != s[j].id
}

/// A stored history record is always a funds-moving transaction with
/// a present amount.
pub open spec fn stored_tx_wf(t: Transaction) -> bool {
    is_funds_moving(t.typ) && t.amount is Some
}

/// The keyed view of a client sequence: a map from client ID to the
/// account, later entries winning (identifiers are unique whenever
/// the processor is well-formed, so no entry shadows another).
pub open spec fn clients_map_of(s: Seq<Client>) -> Map<ClientID, Client>
    decreases s.len(),
{
    if s.len() == 0 {
        Map::empty()
    } else {
        clients_map_of(s.drop_last()).insert(s.last().id, s.last())
    }
}

/// The keyed view of a stored-transaction sequence.
pub open spec fn txs_map_of(s: Seq<Transaction>) -> Map<TransactionID, Transaction>
    decreases s.len(),
{
    if s.len() == 0 {
        Map::empty()
    } else {
        txs_map_of(s.drop_last()).insert(s.last().id, s.last())
    }
}

pub proof fn lemma_clients_map_contains(s: Seq<Client>, id: ClientID)
    ensures
        clients_map_of(s).dom().contains(id) <==> exists|i: int|
            0 <= i < s.len() && s[i].id == id,
    decreases s.len(),
{
    if s.len() > 0 {
        lemma_clients_map_contains(s.drop_last(), id);
        if s.last().id == id {
            assert(s[s.len() - 1].id == id);
        } else if clients_map_of(s).dom().contains(id) {
            let i = choose|i: int| 0 <= i < s.drop_last().len() && s.drop_last()[i].id == id;
            assert(s[i].id == id);
        } else if exists|i: int| 0 <= i < s.len() && s[i].id == id {
            let i = choose|i: int| 0 <= i < s.len() && s[i].id == id;
            assert(s.drop_last()[i].id == id);
        }
    }
}

pub proof fn lemma_clients_map_get(s: Seq<Client>, i: int)
    requires
        unique_client_ids(s),
        0 <= i < s.len(),
    ensures
        clients_map_of(s).dom().contains(s[i].id),
        clients_map_of(s)[s[i].id] == s[i],
    decreases s.len(),
{
    if i == s.len() - 1 {
        assert(clients_map_of(s) == clients_map_of(s.drop_last()).insert(s.last().id, s.last()));
    } else {
        lemma_clients_map_get(s.drop_last(), i);
        assert(s.drop_last()[i] == s[i]);
        assert(s[i].id != s.last().id);
    }
}

pub proof fn lemma_clients_map_update(s: Seq<Client>, i: int, c: Client)
    requires
        unique_client_ids(s),
        0 <= i < s.len(),
        s[i].id == c.id,
    ensures
        clients_map_of(s.update(i, c)) == clients_map_of(s).insert(c.id, c),
    decreases s.len(),
{
    let su = s.update(i, c);
    if i == s.len() - 1 {
        assert(su.drop_last() =~= s.drop_last());
        assert(su.last() == c);
        assert(clients_map_of(su) == clients_map_of(s.drop_last()).insert(c.id, c));
        assert(clients_map_of(s.drop_last()).insert(s.last().id, s.last()).insert(c.id, c)
            =~= clients_map_of(s.drop_last()).insert(c.id, c));
    } else {
        lemma_clients_map_update(s.drop_last(), i, c);
        assert(su.drop_last() =~= s.drop_last().update(i, c));
        assert(su.last() == s.last());
        assert(s[i].id != s.last().id);
        assert(clients_map_of(s).insert(s[i].id, c)
            =~= clients_map_of(s.drop_last()).insert(c.id, c).insert(s.last().id, s.last()));
    }
}

pub proof fn lemma_clients_map_push(s: Seq<Client>, c: Client)
    ensures
        clients_map_of(s.push(c)) == clients_map_of(s).insert(c.id, c),
{
    assert(s.push(c).drop_last() =~= s);
    assert(s.push(c).last() == c);
}

pub proof fn lemma_txs_map_contains(s: Seq<Transaction>, id: TransactionID)
    ensures
        txs_map_of(s).dom().contains(id) <==> exists|i: int|
            0 <= i < s.len() && s[i].id == id,
    decreases s.len(),
{
    if s.len() > 0 {
        lemma_txs_map_contains(s.drop_last(), id);
        if s.last().id == id {
            assert(s[s.len() - 1].id == id);
        } else if txs_map_of(s).dom().contains(id) {
            let i = choose|i: int| 0 <= i < s.drop_last().len() && s.drop_last()[i].id == id;
            assert(s[i].id == id);
        } else if exists|i: int| 0 <= i < s.len() && s[i].id == id {
            let i = choose|i: int| 0 <= i < s.len() && s[i].id == id;
            assert(s.drop_last()[i].id == id);
        }
    }
}

pub proof fn lemma_txs_map_get(s: Seq<Transaction>, i: int)
    requires
        unique_tx_ids(s),
        0 <= i < s.len(),
    ensures
        txs_map_of(s).dom().contains(s[i].id),
        txs_map_of(s)[s[i].id] == s[i],
    decreases s.len(),
{
    if i == s.len() - 1 {
        assert(txs_map_of(s) == txs_map_of(s.drop_last()).insert(s.last().id, s.last()));
    } else {
        lemma_txs_map_get(s.drop_last(), i);
        assert(s.drop_last()[i] == s[i]);
        assert(s[i].id != s.last().id);
    }
}

pub proof fn lemma_txs_map_update(s: Seq<Transaction>, i: int, t: Transaction)
    requires
        unique_tx_ids(s),
        0 <= i < s.len(),
        s[i].id == t.id,
    ensures
        txs_map_of(s.update(i, t)) == txs_map_of(s).insert(t.id, t),
    decreases s.len(),
{
    let su = s.update(i, t);
    if i == s.len() - 1 {
        assert(su.drop_last() =~= s.drop_last());
        assert(su.last() == t);
        assert(txs_map_of(su) == txs_map_of(s.drop_last()).insert(t.id, t));
        assert(txs_map_of(s.drop_last()).insert(s.last().id, s.last()).insert(t.id, t)
            =~= txs_map_of(s.drop_last()).insert(t.id, t));
    } else {
        lemma_txs_map_update(s.drop_last(), i, t);
        assert(su.drop_last() =~= s.drop_last().update(i, t));
        assert(su.last() == s.last());
        assert(s[i].id != s.last().id);
        assert(txs_map_of(s).insert(s[i].id, t)
            =~= txs_map_of(s.drop_last()).insert(t.id, t).insert(s.last().id, s.last()));
    }
}

pub proof fn lemma_txs_map_push(s: Seq<Transaction>, t: Transaction)
    ensures
        txs_map_of(s.push(t)) == txs_map_of(s).insert(t.id, t),
{
    assert(s.push(t).drop_last() =~= s);
    assert(s.push(t).last() == t);
}

/// The referenced account, created lazily with zero balances on
/// first reference.
pub open spec fn acct_or_fresh(cl: Map<ClientID, Client>, id: ClientID) -> Client {
    if cl.dom().contains(id) {
        cl[id]
    } else {
        fresh_client(id)
    }
}

/// The ledger dispatch state machine, over the keyed views: the
/// client map and the stored-transaction map after one validated
/// transaction is applied.
///
/// The referenced account is created (with zero balances) on first
/// reference whatever the transaction type.  A deposit or withdrawal
/// is stored only if its balance operation succeeded; a failed one is
/// silently dropped.  A control record acts only when its referenced
/// transaction is stored (and, for resolve and chargeback, currently
/// disputed); otherwise it is silently ignored.  A balance operation
/// failing inside a dispute-stage step (a locked account, an
/// out-of-range balance) leaves the balances as they were while the
/// dispute flag still changes.
pub open spec fn apply_spec(
    cl: Map<ClientID, Client>,
    txs: Map<TransactionID, Transaction>,
    t: Transaction,
) -> (Map<ClientID, Client>, Map<TransactionID, Transaction>) {
    let c0 = acct_or_fresh(cl, t.client);
    let cl0 = cl.insert(t.client, c0);
    match t.typ {
        TransactionType::Deposit => {
            let a = t.amount->0;
            if add_ok(c0, a) {
                (cl.insert(t.client, add_applied(c0, a)), txs.insert(t.id, t))
            } else {
                (cl0, txs)
            }
        },
        TransactionType::Withdrawal => {
            let a = t.amount->0;
            if remove_ok(c0, a) {
                (cl.insert(t.client, remove_applied(c0, a)), txs.insert(t.id, t))
            } else {
                (cl0, txs)
            }
        },
        TransactionType::Dispute => {
            if txs.dom().contains(t.id) {
                let stored = txs[t.id];
                let a = stored.amount->0;
                let c1 = if hold_ok(c0, a) {
                    hold_applied(c0, a)
                } else {
                    c0
                };
                (cl.insert(t.client, c1), txs.insert(t.id, set_disputed_applied(stored)))
            } else {
                (cl0, txs)
            }
        },
        TransactionType::Resolve => {
            if txs.dom().contains(t.id) && txs[t.id].in_dispute {
                let stored = txs[t.id];
                let a = stored.amount->0;
                let c1 = if restore_ok(c0, a) {
                    restore_applied(c0, a)
                } else {
                    c0
                };
                (cl.insert(t.client, c1), txs.insert(t.id, clear_disputed_applied(stored)))
            } else {
                (cl0, txs)
            }
        },
        TransactionType::Chargeback => {
            if txs.dom().contains(t.id) && txs[t.id].in_dispute {
                let stored = txs[t.id];
                let a = stored.amount->0;
                let c1 = if restore_ok(c0, a) {
                    restore_applied(c0, a)
                } else {
                    c0
                };
                let c2 = if remove_ok(c1, a) {
                    remove_applied(c1, a)
                } else {
                    c1
                };
                let c3 = Client { locked: true, ..c2 };
                (cl.insert(t.client, c3), txs.insert(t.id, clear_disputed_applied(stored)))
            } else {
                (cl0, txs)
            }
        },
    }
}

/// The transaction type named by a field, compared after ASCII
/// lower-casing (type names are matched case-insensitively).
pub open spec fn spec_type_of(field: Seq<u8>) -> Option<TransactionType> {
    let l = lower_bytes(field);
    if l == "deposit".spec_bytes() {
        Some(TransactionType::Deposit)
    } else if l == "withdrawal".spec_bytes() {
        Some(TransactionType::Withdrawal)
    } else if l == "dispute".spec_bytes() {
        Some(TransactionType::Dispute)
    } else if l == "resolve".spec_bytes() {
        Some(TransactionType::Resolve)
    } else if l == "chargeback".spec_bytes() {
        Some(TransactionType::Chargeback)
    } else {
        None
    }
}

/// Match a type field against the five transaction type names.
fn type_of_field(field: &Vec<u8>) -> (r: Option<TransactionType>)
    ensures
        r == spec_type_of(field@),
{
    let l = to_lower(field);
    if bytes_eq(&l, &"deposit".as_bytes_vec()) {
        Some(TransactionType::Deposit)
    } else if bytes_eq(&l, &"withdrawal".as_bytes_vec()) {
        Some(TransactionType::Withdrawal)
    } else if bytes_eq(&l, &"dispute".as_bytes_vec()) {
        Some(TransactionType::Dispute)
    } else if bytes_eq(&l, &"resolve".as_bytes_vec()) {
        Some(TransactionType::Resolve)
    } else if bytes_eq(&l, &"chargeback".as_bytes_vec()) {
        Some(TransactionType::Chargeback)
    } else {
        None
    }
}

/// The transaction described by one field row, or `None` when the
/// row does not decode: it must have exactly the four fields
/// `type, client, tx, amount`, a known type name, identifiers in
/// range, and an amount field that is either empty or a well-formed
/// decimal in the fixed-point range.
pub open spec fn decode_row(row: Seq<Seq<u8>>) -> Option<Transaction> {
    if row.len() != 4 {
        None
    } else {
        let ty = spec_type_of(row[0]);
        if ty is None || !(dec_wf(row[1]) && dec_val(row[1]) <= u16::MAX) || !(dec_wf(row[2])
            && dec_val(row[2]) <= u32::MAX) {
            None
        } else {
            let amt: Option<Option<Amount>> = if row[3].len() == 0 {
                Some(None)
            } else {
                match spec_parse_amount(row[3]) {
                    Some(x) => if -i64::MAX <= x <= i64::MAX {
                        Some(Some(x as i64))
                    } else {
                        None
                    },
                    None => None,
                }
            };
            match amt {
                Some(a) => Some(
                    Transaction {
                        typ: ty->0,
                        client: dec_val(row[1]) as u16,
                        id: dec_val(row[2]) as u32,
                        amount: a,
                        in_dispute: false,
                    },
                ),
                None => None,
            }
        }
    }
}

/// Decode one field row into a transaction record.
pub fn decode_record(row: &Vec<Vec<u8>>) -> (r: Option<Transaction>)
    ensures
        r == decode_row(row.deep_view()),
{
    proof {
        assert forall|k: int| 0 <= k < row@.len() implies row.deep_view()[k] == row@[k]@ by {
            assert(row.deep_view()[k] =~= row@[k]@);
        }
    }
    if row.len() != 4 {
        return None;
    }
    let ty = match type_of_field(&row[0]) {
        Some(t) => t,
        None => {
            return None;
        },
    };
    proof {
        assert(row@[1]@.subrange(0, row@[1]@.len() as int) =~= row@[1]@);
        assert(row@[2]@.subrange(0, row@[2]@.len() as int) =~= row@[2]@);
    }
    let c64 = match parse_dec_u64(&row[1], 0, row[1].len()) {
        Some(x) => x,
        None => {
            return None;
        },
    };
    if c64 > u16::MAX as u64 {
        return None;
    }
    let t64 = match parse_dec_u64(&row[2], 0, row[2].len()) {
        Some(x) => x,
        None => {
            return None;
        },
    };
    if t64 > u32::MAX as u64 {
        return None;
    }
    let amount: Option<Amount> = if row[3].len() == 0 {
        None
    } else {
        match parse_amount(&row[3]) {
            Some(a) => Some(a),
            None => {
                return None;
            },
        }
    };
    Some(Transaction { typ: ty, client: c64 as u16, id: t64 as u32, amount, in_dispute: false })
}

/// How a transaction stream ends: completed, stopped by a record
/// that does not decode, or stopped by a structurally invalid
/// transaction.
pub enum StreamEnd {
    Finished,
    BadRecord,
    BadTransaction,
}

/// The ledger state after consuming decoded field rows in order:
/// each row is decoded, validated and applied, and the first decode
/// or validation failure stops the stream (transactions already
/// applied stay applied).
pub open spec fn run_stream(
    cl: Map<ClientID, Client>,
    txs: Map<TransactionID, Transaction>,
    rows: Seq<Seq<Seq<u8>>>,
) -> (Map<ClientID, Client>, Map<TransactionID, Transaction>, StreamEnd)
    decreases rows.len(),
{
    if rows.len() == 0 {
        (cl, txs, StreamEnd::Finished)
    } else {
        match decode_row(rows.first()) {
            None => (cl, txs, StreamEnd::BadRecord),
            Some(t) => {
                if !spec_valid(t) {
                    (cl, txs, StreamEnd::BadTransaction)
                } else {
                    let next = apply_spec(cl, txs, t);
                    run_stream(next.0, next.1, rows.drop_first())
                }
            },
        }
    }
}

/// The header of the output: `client, available, held, total,
/// locked`.
pub open spec fn header_row() -> Seq<Seq<u8>> {
    seq![
        "client".spec_bytes(),
        "available".spec_bytes(),
        "held".spec_bytes(),
        "total".spec_bytes(),
        "locked".spec_bytes(),
    ]
}

/// The output row of one account: its ID and its three balances
/// with four fractional digits, then the lock flag as text.
pub open spec fn client_row(c: Client) -> Seq<Seq<u8>> {
    seq![
        dec_digits(c.id as nat),
        spec_fmt_amount(c.available as int),
        spec_fmt_amount(c.held as int),
        spec_fmt_amount(c.total as int),
        if c.locked {
            "true".spec_bytes()
        } else {
            "false".spec_bytes()
        },
    ]
}

/// The full output: the header row, then one row per account in
/// insertion order.
pub open spec fn output_rows(s: Seq<Client>) -> Seq<Seq<Seq<u8>>> {
    seq![header_row()] + s.map_values(|c: Client| client_row(c))
}

impl TransactionProcessor {
    /// The keyed view of the client accounts.
    pub open spec fn clients_map(&self) -> Map<ClientID, Client> {
        clients_map_of(self.clients@)
    }

    /// The keyed view of the stored funds-moving transactions.
    pub open spec fn txs_map(&self) -> Map<TransactionID, Transaction> {
        txs_map_of(self.transactions@)
    }

    /// Well-formedness: identifiers unique, every account balanced,
    /// every stored record a funds-moving transaction with a present
    /// amount.
    pub open spec fn wf(&self) -> bool {
        &&& unique_client_ids(self.clients@)
        &&& unique_tx_ids(self.transactions@)
        &&& forall|i: int| 0 <= i < self.clients@.len() ==> balanced(#[trigger] self.clients@[i])
        &&& forall|i: int|
            0 <= i < self.transactions@.len() ==> stored_tx_wf(#[trigger] self.transactions@[i])
    }

    /// Create a new TransactionProcessor with no accounts and no
    /// stored history.
    pub fn new() -> (r: Self)
        ensures
            r.wf(),
            r.clients_map() == Map::<ClientID, Client>::empty(),
            r.txs_map() == Map::<TransactionID, Transaction>::empty(),
            r.clients@ == Seq::<Client>::empty(),
            r.transactions@ == Seq::<Transaction>::empty(),
    {
        Self { clients: Vec::new(), transactions: Vec::new() }
    }

    /// Index of the account with the given ID, if present.
    fn find_client(&self, id: ClientID) -> (r: Option<usize>)
        ensures
            match r {
                Some(i) => i < self.clients@.len() && self.clients@[i as int].id == id,
                None => forall|j: int| 0 <= j < self.clients@.len() ==> self.clients@[j].id != id,
            },
    {
        let mut i: usize = 0;
        while i < self.clients.len()
            invariant
                i <= self.clients@.len(),
                forall|j: int| 0 <= j < i ==> self.clients@[j].id != id,
            decreases self.clients@.len() - i,
        {
            if self.clients[i].id == id {
                return Some(i);
            }
            i += 1;
        }
        None
    }

    /// Index of the stored transaction with the given ID, if present.
    fn find_transaction(&self, id: TransactionID) -> (r: Option<usize>)
        ensures
            match r {
                Some(i) => i < self.transactions@.len() && self.transactions@[i as int].id == id,
                None => forall|j: int|
                    0 <= j < self.transactions@.len() ==> self.transactions@[j].id != id,
            },
    {
        let mut i: usize = 0;
        while i < self.transactions.len()
            invariant
                i <= self.transactions@.len(),
                forall|j: int| 0 <= j < i ==> self.transactions@[j].id != id,
            decreases self.transactions@.len() - i,
        {
            if self.transactions[i].id == id {
                return Some(i);
            }
            i += 1;
        }
        None
    }

    /// Overwrite the account at index `i` (the ID must not change).
    fn set_client(&mut self, i: usize, c: Client)
        requires
            old(self).wf(),
            i < old(self).clients@.len(),
            old(self).clients@[i as int].id == c.id,
            balanced(c),
        ensures
            final(self).wf(),
            final(self).clients@ == old(self).clients@.update(i as int, c),
            final(self).clients_map() == old(self).clients_map().insert(c.id, c),
            final(self).transactions@ == old(self).transactions@,
    {
        proof {
            lemma_clients_map_update(self.clients@, i as int, c);
            let su = self.clients@.update(i as int, c);
            assert forall|p: int, q: int| 0 <= p < q < su.len() implies su[p].id != su[q].id by {
                assert(self.clients@[p].id != self.clients@[q].id);
            }
        }
        self.clients[i] = c;
    }

    /// Overwrite the stored record at index `j` (the ID must not
    /// change).
    fn set_stored(&mut self, j: usize, t: Transaction)
        requires
            old(self).wf(),
            j < old(self).transactions@.len(),
            old(self).transactions@[j as int].id == t.id,
            stored_tx_wf(t),
        ensures
            final(self).wf(),
            final(self).clients@ == old(self).clients@,
            final(self).txs_map() == old(self).txs_map().insert(t.id, t),
    {
        proof {
            lemma_txs_map_update(self.transactions@, j as int, t);
            let su = self.transactions@.update(j as int, t);
            assert forall|p: int, q: int| 0 <= p < q < su.len() implies su[p].id != su[q].id by {
                assert(self.transactions@[p].id != self.transactions@[q].id);
            }
        }
        self.transactions[j] = t;
    }

    /// Store a funds-moving record under its transaction ID,
    /// overwriting a stored record with the same ID.
    fn store_transaction(&mut self, t: Transaction)
        requires
            old(self).wf(),
            stored_tx_wf(t),
        ensures
            final(self).wf(),
            final(self).clients_map() == old(self).clients_map(),
            final(self).clients@ == old(self).clients@,
            final(self).txs_map() == old(self).txs_map().insert(t.id, t),
    {
        match self.find_transaction(t.id) {
            Some(i) => {
                self.set_stored(i, t);
            },
            None => {
                proof {
                    lemma_txs_map_push(self.transactions@, t);
                    let pushed = self.transactions@.push(t);
                    assert forall|p: int, q: int| 0 <= p < q < pushed.len() implies pushed[p].id
                        != pushed[q].id by {
                        if q < self.transactions@.len() {
                            assert(self.transactions@[p].id != self.transactions@[q].id);
                        }
                    }
                }
                self.transactions.push(t);
            },
        }
    }

    /// Process a single validated transaction: resolve (lazily
    /// creating) its account, then dispatch by type.  The result is
    /// exactly [`apply_spec`] of the previous keyed views.
    pub fn process_transaction(&mut self, trans: Transaction)
        requires
            old(self).wf(),
            spec_valid(trans),
        ensures
            final(self).wf(),
            final(self).clients_map() == apply_spec(
                old(self).clients_map(),
                old(self).txs_map(),
                trans,
            ).0,
            final(self).txs_map() == apply_spec(
                old(self).clients_map(),
                old(self).txs_map(),
                trans,
            ).1,
    {
        let ghost cl = self.clients_map();
        let ghost txs = self.txs_map();
        let ghost c0 = acct_or_fresh(cl, trans.client);

        // add client if client doesn't exist
        let idx: usize = match self.find_client(trans.get_client_id()) {
            Some(i) => {
                proof {
                    lemma_clients_map_get(self.clients@, i as int);
                    assert(cl.insert(trans.client, c0) =~= cl);
                }
                i
            },
            None => {
                proof {
                    lemma_clients_map_contains(self.clients@, trans.client);
                    lemma_clients_map_push(self.clients@, fresh_client(trans.client));
                    let pushed = self.clients@.push(fresh_client(trans.client));
                    assert forall|p: int, q: int| 0 <= p < q < pushed.len() implies pushed[p].id
                        != pushed[q].id by {
                        if q < self.clients@.len() {
                            assert(self.clients@[p].id != self.clients@[q].id);
                        }
                    }
                }
                let c = Client::new(trans.get_client_id());
                self.clients.push(c);
                self.clients.len() - 1
            },
        };
        assert(self.clients@[idx as int] == c0);
        assert(self.clients_map() == cl.insert(trans.client, c0));
        assert(self.txs_map() == txs);

        match trans.get_type() {
            // add funds to client and record transaction if the add
            // was possible
            TransactionType::Deposit => {
                let amount = trans.get_amount().unwrap();
                let mut c = self.clients[idx];
                let ok = c.add_funds(amount);
                self.set_client(idx, c);
                proof {
                    assert(cl.insert(trans.client, c0).insert(trans.client, c) =~= cl.insert(
                        trans.client,
                        c,
                    ));
                }
                if ok {
                    self.store_transaction(trans);
                }
            },
            // remove funds from client and record transaction if
            // remove was possible
            TransactionType::Withdrawal => {
                let amount = trans.get_amount().unwrap();
                let mut c = self.clients[idx];
                let ok = c.remove_funds(amount);
                self.set_client(idx, c);
                proof {
                    assert(cl.insert(trans.client, c0).insert(trans.client, c) =~= cl.insert(
                        trans.client,
                        c,
                    ));
                }
                if ok {
                    self.store_transaction(trans);
                }
            },
            // if the referenced transaction was found, hold funds
            // from the client and mark the record disputed
            TransactionType::Dispute => {
                proof {
                    lemma_txs_map_contains(self.transactions@, trans.id);
                }
                if let Some(j) = self.find_transaction(trans.get_id()) {
                    proof {
                        lemma_txs_map_get(self.transactions@, j as int);
                    }
                    let mut stored = self.transactions[j];
                    let amount = stored.get_amount().unwrap();
                    let mut c = self.clients[idx];
                    c.hold_funds(amount);
                    self.set_client(idx, c);
                    stored.set_disputed();
                    self.set_stored(j, stored);
                    proof {
                        assert(cl.insert(trans.client, c0).insert(trans.client, c) =~= cl.insert(
                            trans.client,
                            c,
                        ));
                    }
                }
            },
            // if the referenced transaction was found and is in
            // dispute, restore held funds to the client
            TransactionType::Resolve => {
                proof {
                    lemma_txs_map_contains(self.transactions@, trans.id);
                }
                if let Some(j) = self.find_transaction(trans.get_id()) {
                    proof {
                        lemma_txs_map_get(self.transactions@, j as int);
                    }
                    let mut stored = self.transactions[j];
                    if stored.is_disputed() {
                        let amount = stored.get_amount().unwrap();
                        let mut c = self.clients[idx];
                        c.restore_funds(amount);
                        self.set_client(idx, c);
                        stored.clear_disputed();
                        self.set_stored(j, stored);
                        proof {
                            assert(cl.insert(trans.client, c0).insert(trans.client, c)
                                =~= cl.insert(trans.client, c));
                        }
                    }
                }
            },
            // if the referenced transaction was found and is in
            // dispute, destroy the held funds and lock the client
            TransactionType::Chargeback => {
                proof {
                    lemma_txs_map_contains(self.transactions@, trans.id);
                }
                if let Some(j) = self.find_transaction(trans.get_id()) {
                    proof {
                        lemma_txs_map_get(self.transactions@, j as int);
                    }
                    let mut stored = self.transactions[j];
                    if stored.is_disputed() {
                        let amount = stored.get_amount().unwrap();
                        let mut c = self.clients[idx];
                        c.restore_funds(amount);
                        c.remove_funds(amount);
                        c.lock();
                        self.set_client(idx, c);
                        stored.clear_disputed();
                        self.set_stored(j, stored);
                        proof {
                            assert(cl.insert(trans.client, c0).insert(trans.client, c)
                                =~= cl.insert(trans.client, c));
                        }
                    }
                }
            },
        }
    }

    /// Process a delimited list of transactions: decode each field
    /// row after the header, validate it, and apply it in order.
    /// The first decode failure or invalid record aborts the stream
    /// with the matching error; earlier transactions stay applied.
    pub fn process_csv_stream(&mut self, data: &Vec<u8>) -> (r: Result<
        (),
        TransactionProcessorErr,
    >)
        requires
            old(self).wf(),
        ensures
            final(self).wf(),
            match csv_rows(data@) {
                None => {
                    &&& final(self).clients@ == old(self).clients@
                    &&& final(self).transactions@ == old(self).transactions@
                    &&& r matches Err(TransactionProcessorErr::CSVError(_))
                },
                Some(rows) => {
                    let out = run_stream(old(self).clients_map(), old(self).txs_map(), rows);
                    &&& final(self).clients_map() == out.0
                    &&& final(self).txs_map() == out.1
                    &&& match out.2 {
                        StreamEnd::Finished => r is Ok,
                        StreamEnd::BadRecord => r matches Err(
                            TransactionProcessorErr::CSVError(_),
                        ),
                        StreamEnd::BadTransaction => r matches Err(
                            TransactionProcessorErr::TransactionValidateError(_),
                        ),
                    }
                },
            },
    {
        let ghost cl0 = old(self).clients_map();
        let ghost txs0 = old(self).txs_map();
        let rows = match read_csv_rows(data) {
            Ok(rw) => rw,
            Err(msg) => {
                return Err(TransactionProcessorErr::CSVError(msg));
            },
        };
        let ghost all = rows.deep_view();
        let n = rows.len();
        proof {
            assert(all.skip(0) =~= all);
        }
        let mut i: usize = 0;
        while i < n
            invariant
                self.wf(),
                i <= n == rows@.len(),
                all == rows.deep_view(),
                csv_rows(data@) == Some(all),
                cl0 == old(self).clients_map(),
                txs0 == old(self).txs_map(),
                run_stream(cl0, txs0, all) == run_stream(
                    self.clients_map(),
                    self.txs_map(),
                    all.skip(i as int),
                ),
            decreases n - i,
        {
            let ghost rest = all.skip(i as int);
            proof {
                assert(rest.first() == all[i as int]);
                assert(all[i as int] == rows@[i as int].deep_view());
            }
            match decode_record(&rows[i]) {
                None => {
                    proof {
                        assert(decode_row(rest.first()) is None);
                        assert(run_stream(self.clients_map(), self.txs_map(), rest) == (
                            self.clients_map(),
                            self.txs_map(),
                            StreamEnd::BadRecord,
                        ));
                    }
                    return Err(TransactionProcessorErr::CSVError("malformed record".to_owned()));
                },
                Some(t) => {
                    if !t.validate() {
                        proof {
                            assert(decode_row(rest.first()) == Some(t));
                            assert(run_stream(self.clients_map(), self.txs_map(), rest) == (
                                self.clients_map(),
                                self.txs_map(),
                                StreamEnd::BadTransaction,
                            ));
                        }
                        return Err(
                            TransactionProcessorErr::TransactionValidateError(
                                "invalid transaction".to_owned(),
                            ),
                        );
                    }
                    self.process_transaction(t);
                    proof {
                        assert(rest.drop_first() =~= all.skip(i as int + 1));
                    }
                },
            }
            i += 1;
        }
        proof {
            assert(all.skip(n as int) =~= Seq::<Seq<Seq<u8>>>::empty());
        }
        Ok(())
    }

    /// Export the final account states as delimited text: the
    /// header, then one row per account in insertion order, balances
    /// with exactly four fractional digits.
    pub fn write_csv_to_stream(&self) -> (out: Vec<u8>)
        ensures
            out@ == csv_text(output_rows(self.clients@)),
    {
        let mut rows: Vec<Vec<Vec<u8>>> = Vec::new();
        let mut header: Vec<Vec<u8>> = Vec::new();
        header.push("client".as_bytes_vec());
        header.push("available".as_bytes_vec());
        header.push("held".as_bytes_vec());
        header.push("total".as_bytes_vec());
        header.push("locked".as_bytes_vec());
        proof {
            assert(header.deep_view() =~~= header_row());
        }
        rows.push(header);
        let mut i: usize = 0;
        while i < self.clients.len()
            invariant
                i <= self.clients@.len(),
                rows@.len() == i + 1,
                rows.deep_view()[0] == header_row(),
                forall|j: int| 0 <= j < i ==> rows.deep_view()[j + 1] == client_row(
                    #[trigger] self.clients@[j],
                ),
            decreases self.clients@.len() - i,
        {
            let c = self.clients[i];
            let mut row: Vec<Vec<u8>> = Vec::new();
            row.push(u64_to_dec(c.id as u64));
            row.push(format_amount(c.available));
            row.push(format_amount(c.held));
            row.push(format_amount(c.total));
            if c.locked {
                row.push("true".as_bytes_vec());
            } else {
                row.push("false".as_bytes_vec());
            }
            proof {
                assert((c.id as u64) as nat == c.id as nat);
                assert(row.deep_view() =~~= client_row(c));
            }
            rows.push(row);
            i += 1;
        }
        proof {
            assert(rows.deep_view() =~~= output_rows(self.clients@));
        }
        write_csv_rows(&rows)
    }
}

} // verus!
