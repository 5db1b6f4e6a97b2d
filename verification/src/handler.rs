//! The confirmation tracker.
//!
//! After a negotiated Payjoin transaction is broadcast, the node must watch
//! the chain until the transaction is buried deeply enough to survive a
//! short reorganisation, and only then report success. The tracker owns the
//! set of transactions awaiting confirmation together with the best known
//! chain tip; the surrounding node wraps it in its own lock and feeds it
//! chain notifications.

use vstd::prelude::*;

use crate::error::Error;
use crate::events::{Event, EventV};
use crate::send::{reconcile_input_utxos, spec_reconcile};
use crate::types::{
    dup_bytes, dup_transaction, dv_push, dv_set, BlockHash, Psbt, Transaction, TransactionV, TxId,
};

verus! {

/// Number of confirmations beyond the first before a transaction is
/// treated as settled, tolerating short chain reorganisations.
pub const ANTI_REORG_DELAY: u32 = 6;

/// The best chain tip known to the tracker.
#[derive(Clone, Copy, PartialEq, Eq, Structural, Debug)]
pub struct BestBlock {
    pub height: u32,
    pub block_hash: BlockHash,
}

/// What the chain-filtering subsystem must be told to watch after a
/// transaction enters the tracked set.
#[derive(Debug)]
pub struct TxRegistration {
    pub txid: TxId,
    pub script_pubkey: Vec<u8>,
}

/// A broadcast Payjoin transaction awaiting enough confirmations.
///
/// A tracked transaction only ever moves forward: it enters as
/// `PendingFirstConfirmation`, advances to `PendingThresholdConfirmations`
/// when a block confirms it, and leaves the set when the settled depth is
/// reached.
#[derive(Debug)]
pub enum PayjoinTransaction {
    PendingFirstConfirmation {
        tx: Transaction,
        receiver: String,
        amount: u64,
        first_broadcast_height: u32,
        first_broadcast_hash: BlockHash,
    },
    PendingThresholdConfirmations {
        tx: Transaction,
        receiver: String,
        amount: u64,
        first_broadcast_height: u32,
        first_broadcast_hash: BlockHash,
        first_confirmation_height: u32,
        first_confirmation_hash: BlockHash,
    },
}

/// Mathematical view of a [`PayjoinTransaction`].
#[verifier::ext_equal]
pub enum PayjoinTransactionV {
    PendingFirstConfirmation {
        tx: TransactionV,
        receiver: Seq<char>,
        amount: u64,
        first_broadcast_height: u32,
        first_broadcast_hash: BlockHash,
    },
    PendingThresholdConfirmations {
        tx: TransactionV,
        receiver: Seq<char>,
        amount: u64,
        first_broadcast_height: u32,
        first_broadcast_hash: BlockHash,
        first_confirmation_height: u32,
        first_confirmation_hash: BlockHash,
    },
}

impl View for PayjoinTransaction {
    type V = PayjoinTransactionV;

    open spec fn view(&self) -> PayjoinTransactionV {
        match self {
            PayjoinTransaction::PendingFirstConfirmation {
                tx,
                receiver,
                amount,
                first_broadcast_height,
                first_broadcast_hash,
            } => PayjoinTransactionV::PendingFirstConfirmation {
                tx: tx@,
                receiver: receiver@,
                amount: *amount,
                first_broadcast_height: *first_broadcast_height,
                first_broadcast_hash: *first_broadcast_hash,
            },
            PayjoinTransaction::PendingThresholdConfirmations {
                tx,
                receiver,
                amount,
                first_broadcast_height,
                first_broadcast_hash,
                first_confirmation_height,
                first_confirmation_hash,
            } => PayjoinTransactionV::PendingThresholdConfirmations {
                tx: tx@,
                receiver: receiver@,
                amount: *amount,
                first_broadcast_height: *first_broadcast_height,
                first_broadcast_hash: *first_broadcast_hash,
                first_confirmation_height: *first_confirmation_height,
                first_confirmation_hash: *first_confirmation_hash,
            },
        }
    }
}

impl DeepView for PayjoinTransaction {
    type V = PayjoinTransactionV;

    open spec fn deep_view(&self) -> PayjoinTransactionV {
        self.view()
    }
}

impl PayjoinTransactionV {
    /// The identifier of the tracked transaction.
    pub open spec fn txid(self) -> TxId {
        match self {
            PayjoinTransactionV::PendingFirstConfirmation { tx, .. } => tx.txid,
            PayjoinTransactionV::PendingThresholdConfirmations { tx, .. } => tx.txid,
        }
    }

    /// The amount paid, in satoshis.
    pub open spec fn amount(self) -> u64 {
        match self {
            PayjoinTransactionV::PendingFirstConfirmation { amount, .. } => amount,
            PayjoinTransactionV::PendingThresholdConfirmations { amount, .. } => amount,
        }
    }

    /// The receiver's address.
    pub open spec fn receiver(self) -> Seq<char> {
        match self {
            PayjoinTransactionV::PendingFirstConfirmation { receiver, .. } => receiver,
            PayjoinTransactionV::PendingThresholdConfirmations { receiver, .. } => receiver,
        }
    }

    /// The height at which the transaction was first confirmed, if it was.
    pub open spec fn first_confirmation_height(self) -> Option<u32> {
        match self {
            PayjoinTransactionV::PendingFirstConfirmation { .. } => None,
            PayjoinTransactionV::PendingThresholdConfirmations {
                first_confirmation_height,
                ..
            } => Some(first_confirmation_height),
        }
    }
}

impl PayjoinTransaction {
    /// The identifier of the tracked transaction, in either state.
    pub fn txid(&self) -> (r: Option<TxId>)
        ensures
            r == Some(self@.txid()),
    {
        match self {
            PayjoinTransaction::PendingFirstConfirmation { tx, .. } => Some(tx.txid),
            PayjoinTransaction::PendingThresholdConfirmations { tx, .. } => Some(tx.txid),
        }
    }

    /// The height of the first confirmation, once one was seen.
    pub fn first_confirmation_height(&self) -> (r: Option<u32>)
        ensures
            r == self@.first_confirmation_height(),
    {
        match self {
            PayjoinTransaction::PendingFirstConfirmation { .. } => None,
            PayjoinTransaction::PendingThresholdConfirmations {
                first_confirmation_height,
                ..
            } => Some(*first_confirmation_height),
        }
    }

    /// The amount paid, in satoshis.
    pub fn amount(&self) -> (r: u64)
        ensures
            r == self@.amount(),
    {
        match self {
            PayjoinTransaction::PendingFirstConfirmation { amount, .. } => *amount,
            PayjoinTransaction::PendingThresholdConfirmations { amount, .. } => *amount,
        }
    }

    /// The receiver's address.
    pub fn receiver(&self) -> (r: String)
        ensures
            r@ == self@.receiver(),
    {
        match self {
            PayjoinTransaction::PendingFirstConfirmation { receiver, .. } => receiver.clone(),
            PayjoinTransaction::PendingThresholdConfirmations { receiver, .. } => {
                receiver.clone()
            },
        }
    }
}

/// Copies a tracked transaction.
fn dup_tracked(t: &PayjoinTransaction) -> (r: PayjoinTransaction)
    ensures
        r@ == t@,
{
    match t {
        PayjoinTransaction::PendingFirstConfirmation {
            tx,
            receiver,
            amount,
            first_broadcast_height,
            first_broadcast_hash,
        } => PayjoinTransaction::PendingFirstConfirmation {
            tx: dup_transaction(tx),
            receiver: receiver.clone(),
            amount: *amount,
            first_broadcast_height: *first_broadcast_height,
            first_broadcast_hash: *first_broadcast_hash,
        },
        PayjoinTransaction::PendingThresholdConfirmations {
            tx,
            receiver,
            amount,
            first_broadcast_height,
            first_broadcast_hash,
            first_confirmation_height,
            first_confirmation_hash,
        } => PayjoinTransaction::PendingThresholdConfirmations {
            tx: dup_transaction(tx),
            receiver: receiver.clone(),
            amount: *amount,
            first_broadcast_height: *first_broadcast_height,
            first_broadcast_hash: *first_broadcast_hash,
            first_confirmation_height: *first_confirmation_height,
            first_confirmation_hash: *first_confirmation_hash,
        },
    }
}

/// Whether a sequence of transactions contains one with the given id.
pub open spec fn txdata_contains(txs: Seq<TransactionV>, id: TxId) -> bool {
    exists|j: int| 0 <= j < txs.len() && txs[j].txid == id
}

/// A newly confirmed tracked transaction, advanced by one stage; any
/// other tracked transaction is left as it is.
pub open spec fn advanced(t: PayjoinTransactionV, height: u32, hash: BlockHash)
    -> PayjoinTransactionV {
    match t {
        PayjoinTransactionV::PendingFirstConfirmation {
            tx,
            receiver,
            amount,
            first_broadcast_height,
            first_broadcast_hash,
        } => PayjoinTransactionV::PendingThresholdConfirmations {
            tx,
            receiver,
            amount,
            first_broadcast_height,
            first_broadcast_hash,
            first_confirmation_height: height,
            first_confirmation_hash: hash,
        },
        PayjoinTransactionV::PendingThresholdConfirmations { .. } => t,
    }
}

/// Whether a tracked transaction has reached the settled depth at the
/// given tip: it saw its first confirmation, and the tip has moved at
/// least [`ANTI_REORG_DELAY`] blocks past that height.
pub open spec fn qualifies(t: PayjoinTransactionV, tip: u32) -> bool {
    match t.first_confirmation_height() {
        Some(h) => tip as int - h as int >= ANTI_REORG_DELAY as int,
        None => false,
    }
}

/// The success event reported for a settled transaction.
pub open spec fn success_event_of(t: PayjoinTransactionV) -> EventV {
    EventV::PayjoinPaymentSuccess { txid: t.txid(), amount: t.amount(), recipient: t.receiver() }
}

/// The tracked transactions retained by a sweep at the given tip: those
/// not yet settled, in their original order, unchanged.
pub open spec fn sweep_keep(s: Seq<PayjoinTransactionV>, tip: u32) -> Seq<PayjoinTransactionV>
    decreases s.len(),
{
    if s.len() == 0 {
        Seq::empty()
    } else {
        let rest = sweep_keep(s.drop_last(), tip);
        if qualifies(s.last(), tip) {
            rest
        } else {
            rest.push(s.last())
        }
    }
}

/// The success events emitted by a sweep at the given tip: one per
/// settled transaction, in the set's order.
pub open spec fn sweep_events(s: Seq<PayjoinTransactionV>, tip: u32) -> Seq<EventV>
    decreases s.len(),
{
    if s.len() == 0 {
        Seq::empty()
    } else {
        let rest = sweep_events(s.drop_last(), tip);
        if qualifies(s.last(), tip) {
            rest.push(success_event_of(s.last()))
        } else {
            rest
        }
    }
}

/// The chain-relevant identifiers of a tracked set: each transaction past
/// its first confirmation, with that confirmation's height and block.
pub open spec fn relevant_txids_of(s: Seq<PayjoinTransactionV>) -> Seq<
    (TxId, u32, Option<BlockHash>),
>
    decreases s.len(),
{
    if s.len() == 0 {
        Seq::empty()
    } else {
        let rest = relevant_txids_of(s.drop_last());
        match s.last() {
            PayjoinTransactionV::PendingThresholdConfirmations {
                tx,
                first_confirmation_height,
                first_confirmation_hash,
                ..
            } => rest.push((tx.txid, first_confirmation_height, Some(first_confirmation_hash))),
            PayjoinTransactionV::PendingFirstConfirmation { .. } => rest,
        }
    }
}

/// Mathematical view of a [`PayjoinHandler`].
#[verifier::ext_equal]
pub struct PayjoinHandlerV {
    pub payjoin_relay: Seq<char>,
    pub best_known_block: Option<BestBlock>,
    pub transactions: Seq<PayjoinTransactionV>,
}

impl PayjoinHandlerV {
    /// A transaction appears at most once in the tracked set.
    pub open spec fn wf(self) -> bool {
        forall|i: int, j: int|
            0 <= i < self.transactions.len() && 0 <= j < self.transactions.len() && i != j
                ==> self.transactions[i].txid() != self.transactions[j].txid()
    }

    /// Whether a transaction with the given id is tracked.
    pub open spec fn contains_txid(self, id: TxId) -> bool {
        exists|i: int| 0 <= i < self.transactions.len() && self.transactions[i].txid() == id
    }
}

/// The sender-side handler: the relay in use and the confirmation state.
pub struct PayjoinHandler {
    payjoin_relay: String,
    best_known_block: Option<BestBlock>,
    transactions: Vec<PayjoinTransaction>,
}

impl View for PayjoinHandler {
    type V = PayjoinHandlerV;

    closed spec fn view(&self) -> PayjoinHandlerV {
        PayjoinHandlerV {
            payjoin_relay: self.payjoin_relay@,
            best_known_block: self.best_known_block,
            transactions: self.transactions.deep_view(),
        }
    }
}

impl PayjoinHandler {
    /// A fresh handler: no tracked transactions and no known tip yet.
    pub fn new(payjoin_relay: String) -> (r: Self)
        ensures
            r@.payjoin_relay == payjoin_relay@,
            r@.best_known_block is None,
            r@.transactions =~= Seq::<PayjoinTransactionV>::empty(),
            r@.wf(),
    {
        let r = PayjoinHandler {
            payjoin_relay,
            best_known_block: None,
            transactions: Vec::new(),
        };
        proof {
            assert(r@.transactions =~= Seq::<PayjoinTransactionV>::empty());
        }
        r
    }

    /// The relay this handler talks through.
    pub fn payjoin_relay(&self) -> (r: &String)
        ensures
            r@ == self@.payjoin_relay,
    {
        &self.payjoin_relay
    }

    /// Whether a transaction with the given id is tracked.
    pub fn contains_txid(&self, id: TxId) -> (r: bool)
        ensures
            r == self@.contains_txid(id),
    {
        let mut i: usize = 0;
        while i < self.transactions.len()
            invariant
                i <= self.transactions@.len(),
                forall|k: int| 0 <= k < i ==> self@.transactions[k].txid() != id,
            decreases self.transactions@.len() - i,
        {
            let t = &self.transactions[i];
            proof {
                assert(t@ == self@.transactions[i as int]);
            }
            match t.txid() {
                Some(t_id) => {
                    if t_id == id {
                        return true;
                    }
                },
                None => {},
            }
            i += 1;
        }
        false
    }

    /// Records the chain notification that a block at `height` confirmed
    /// the given transactions: every tracked transaction confirmed for the
    /// first time advances one stage, recording the confirming block;
    /// every other entry — already past its first confirmation, or not
    /// tracked at all — is left unchanged. The set's size never changes
    /// here, and no entry ever moves backwards.
    pub fn internal_transactions_confirmed(
        &mut self,
        header_hash: BlockHash,
        txdata: &Vec<Transaction>,
        height: u32,
    )
        requires
            old(self)@.wf(),
        ensures
            final(self)@.payjoin_relay == old(self)@.payjoin_relay,
            final(self)@.best_known_block == old(self)@.best_known_block,
            final(self)@.transactions.len() == old(self)@.transactions.len(),
            forall|k: int|
                0 <= k < old(self)@.transactions.len() ==> final(self)@.transactions[k] == (
                if old(self)@.transactions[k] is PendingFirstConfirmation && txdata_contains(
                    txdata.deep_view(),
                    old(self)@.transactions[k].txid(),
                ) {
                    advanced(old(self)@.transactions[k], height, header_hash)
                } else {
                    old(self)@.transactions[k]
                }),
            final(self)@.wf(),
    {
        let ghost orig = self@.transactions;
        let mut i: usize = 0;
        while i < self.transactions.len()
            invariant
                i <= self.transactions@.len(),
                self.transactions@.len() == orig.len(),
                self.payjoin_relay@ == old(self)@.payjoin_relay,
                self.best_known_block == old(self)@.best_known_block,
                orig == old(self)@.transactions,
                forall|k: int|
                    i <= k < orig.len() ==> self@.transactions[k] == orig[k],
                forall|k: int|
                    0 <= k < i ==> self@.transactions[k] == (
                    if orig[k] is PendingFirstConfirmation && txdata_contains(
                        txdata.deep_view(),
                        orig[k].txid(),
                    ) {
                        advanced(orig[k], height, header_hash)
                    } else {
                        orig[k]
                    }),
            decreases self.transactions@.len() - i,
        {
            let confirmed: bool = {
                let t = &self.transactions[i];
                match t.txid() {
                    Some(t_id) => txdata_contains_exec(txdata, t_id),
                    None => false,
                }
            };
            let is_first = matches!(&self.transactions[i], PayjoinTransaction::PendingFirstConfirmation { .. });
            if confirmed && is_first {
                let replacement = {
                    let t = &self.transactions[i];
                    match t {
                        PayjoinTransaction::PendingFirstConfirmation {
                            tx,
                            receiver,
                            amount,
                            first_broadcast_height,
                            first_broadcast_hash,
                        } => PayjoinTransaction::PendingThresholdConfirmations {
                            tx: dup_transaction(tx),
                            receiver: receiver.clone(),
                            amount: *amount,
                            first_broadcast_height: *first_broadcast_height,
                            first_broadcast_hash: *first_broadcast_hash,
                            first_confirmation_height: height,
                            first_confirmation_hash: header_hash,
                        },
                        PayjoinTransaction::PendingThresholdConfirmations { .. } => {
                            dup_tracked(t)
                        },
                    }
                };
                proof {
                    assert(replacement@ == advanced(orig[i as int], height, header_hash));
                }
                dv_set(&mut self.transactions, i, replacement);
            }
            i += 1;
        }
        proof {
            assert forall|a: int, b: int|
                0 <= a < self@.transactions.len() && 0 <= b < self@.transactions.len() && a != b
                implies self@.transactions[a].txid() != self@.transactions[b].txid() by {
                assert(self@.transactions[a].txid() == orig[a].txid());
                assert(self@.transactions[b].txid() == orig[b].txid());
            }
        }
    }

    /// Records a new best tip, then sweeps the tracked set: every entry
    /// that reached the settled depth at this tip is removed and reported
    /// as a success event; every other entry is retained unchanged. A
    /// second delivery of the same tip therefore finds nothing left to
    /// report (see [`lemma_tip_update_idempotent`]).
    pub fn best_block_updated(&mut self, header_hash: BlockHash, height: u32) -> (events: Vec<
        Event,
    >)
        requires
            old(self)@.wf(),
        ensures
            final(self)@.payjoin_relay == old(self)@.payjoin_relay,
            final(self)@.best_known_block == Some(
                BestBlock { height, block_hash: header_hash },
            ),
            final(self)@.transactions == sweep_keep(old(self)@.transactions, height),
            events.deep_view() == sweep_events(old(self)@.transactions, height),
            final(self)@.wf(),
    {
        let ghost orig = self@.transactions;
        self.best_known_block = Some(BestBlock { height, block_hash: header_hash });
        proof {
            assert(self@.transactions == orig);
        }
        let mut kept: Vec<PayjoinTransaction> = Vec::new();
        let mut events: Vec<Event> = Vec::new();
        let mut i: usize = 0;
        proof {
            assert(orig.take(0) =~= Seq::<PayjoinTransactionV>::empty());
            assert(kept.deep_view() =~= sweep_keep(orig.take(0), height));
            assert(events.deep_view() =~= sweep_events(orig.take(0), height));
        }
        while i < self.transactions.len()
            invariant
                i <= self.transactions@.len(),
                orig == self.transactions.deep_view(),
                orig.len() == self.transactions@.len(),
                kept.deep_view() == sweep_keep(orig.take(i as int), height),
                events.deep_view() == sweep_events(orig.take(i as int), height),
            decreases self.transactions@.len() - i,
        {
            let settled: bool = {
                let t = &self.transactions[i];
                match t.first_confirmation_height() {
                    Some(h) => height as u64 >= h as u64 + ANTI_REORG_DELAY as u64,
                    None => false,
                }
            };
            proof {
                assert(self.transactions@[i as int]@ == orig[i as int]);
                assert(settled == qualifies(orig[i as int], height));
                assert(orig.take(i + 1 as int).drop_last() =~= orig.take(i as int));
                assert(orig.take(i + 1 as int).last() == orig[i as int]);
            }
            if settled {
                let t = &self.transactions[i];
                let ev = Event::PayjoinPaymentSuccess {
                    txid: match t.txid() {
                        Some(id) => id,
                        None => TxId { hi: 0, lo: 0 },
                    },
                    amount: t.amount(),
                    recipient: t.receiver(),
                };
                proof {
                    assert(ev@ == success_event_of(orig[i as int]));
                }
                dv_push(&mut events, ev);
            } else {
                let t = dup_tracked(&self.transactions[i]);
                dv_push(&mut kept, t);
            }
            i += 1;
        }
        proof {
            assert(orig.take(orig.len() as int) =~= orig);
        }
        self.transactions = kept;
        proof {
            lemma_sweep_keep_distinct(orig, height);
        }
        events
    }

    /// Accepts a negotiated proposal as the final transaction and
    /// registers it for confirmation tracking.
    ///
    /// The proposal's input metadata is first reconciled with the
    /// original transaction (see [`reconcile_input_utxos`]); the node's
    /// signing outcome is handed in as `sign_ok` and a failure there ends
    /// the attempt. The transaction must pay this node — `output_owned`
    /// holds the wallet's verdict per output — or it cannot be tracked
    /// and is rejected; so is finalising before any chain tip is known,
    /// or for a transaction already tracked. On success the transaction
    /// enters the tracked set at the current tip and the caller receives
    /// it for broadcast, along with what to register with the chain
    /// source.
    pub fn finalise_payjoin_transaction(
        &mut self,
        payjoin_proposal: &mut Psbt,
        original_psbt: &Psbt,
        receiver: &String,
        amount: u64,
        output_owned: &Vec<bool>,
        sign_ok: bool,
    ) -> (r: Result<(Transaction, TxRegistration), Error>)
        requires
            old(self)@.wf(),
            old(payjoin_proposal)@.wf(),
            original_psbt@.wf(),
            output_owned@.len() == old(payjoin_proposal)@.unsigned_tx.output.len(),
        ensures
            final(payjoin_proposal)@ == spec_reconcile(old(payjoin_proposal)@, original_psbt@),
            final(self)@.wf(),
            final(self)@.payjoin_relay == old(self)@.payjoin_relay,
            final(self)@.best_known_block == old(self)@.best_known_block,
            !sign_ok ==> r == Err::<(Transaction, TxRegistration), Error>(
                Error::PayjoinResponseProcessingFailed,
            ) && final(self)@ == old(self)@,
            sign_ok && first_true(output_owned@) < 0 ==> r == Err::<
                (Transaction, TxRegistration),
                Error,
            >(Error::PayjoinReceiverRequestValidationFailed) && final(self)@ == old(self)@,
            sign_ok && first_true(output_owned@) >= 0 && old(self)@.best_known_block is None
                ==> r == Err::<(Transaction, TxRegistration), Error>(
                Error::PayjoinReceiverRequestValidationFailed,
            ) && final(self)@ == old(self)@,
            sign_ok && first_true(output_owned@) >= 0 && old(self)@.best_known_block is Some
                && old(self)@.contains_txid(old(payjoin_proposal)@.unsigned_tx.txid) ==> r
                == Err::<(Transaction, TxRegistration), Error>(
                Error::PayjoinReceiverRequestValidationFailed,
            ) && final(self)@ == old(self)@,
            sign_ok && first_true(output_owned@) >= 0 && old(self)@.best_known_block is Some
                && !old(self)@.contains_txid(old(payjoin_proposal)@.unsigned_tx.txid) ==> (
            r matches Ok(p) && {
                let best = old(self)@.best_known_block->Some_0;
                let txv = old(payjoin_proposal)@.unsigned_tx;
                let vout = first_true(output_owned@);
                &&& p.0@ == txv
                &&& p.1.txid == txv.txid
                &&& p.1.script_pubkey@ == txv.output[vout].script_pubkey
                &&& final(self)@.transactions == old(self)@.transactions.push(
                    PayjoinTransactionV::PendingFirstConfirmation {
                        tx: txv,
                        receiver: receiver@,
                        amount: amount,
                        first_broadcast_height: best.height,
                        first_broadcast_hash: best.block_hash,
                    },
                )
            }),
    {
        reconcile_input_utxos(payjoin_proposal, original_psbt);
        if !sign_ok {
            return Err(Error::PayjoinResponseProcessingFailed);
        }
        let vout = match first_true_exec(output_owned) {
            Some(v) => v,
            None => {
                return Err(Error::PayjoinReceiverRequestValidationFailed);
            },
        };
        proof {
            lemma_first_true(output_owned@);
            assert(vout < payjoin_proposal.unsigned_tx.output@.len());
        }
        let best = match &self.best_known_block {
            Some(b) => *b,
            None => {
                return Err(Error::PayjoinReceiverRequestValidationFailed);
            },
        };
        let tx = dup_transaction(&payjoin_proposal.unsigned_tx);
        let txid = tx.txid;
        if self.contains_txid(txid) {
            return Err(Error::PayjoinReceiverRequestValidationFailed);
        }
        let entry = PayjoinTransaction::PendingFirstConfirmation {
            tx: dup_transaction(&payjoin_proposal.unsigned_tx),
            receiver: receiver.clone(),
            amount,
            first_broadcast_height: best.height,
            first_broadcast_hash: best.block_hash,
        };
        let ghost pre = self@.transactions;
        proof {
            assert(entry@ =~= PayjoinTransactionV::PendingFirstConfirmation {
                tx: old(payjoin_proposal)@.unsigned_tx,
                receiver: receiver@,
                amount: amount,
                first_broadcast_height: best.height,
                first_broadcast_hash: best.block_hash,
            });
        }
        dv_push(&mut self.transactions, entry);
        proof {
            assert forall|a: int, b: int|
                0 <= a < self@.transactions.len() && 0 <= b < self@.transactions.len() && a != b
                implies self@.transactions[a].txid() != self@.transactions[b].txid() by {
                if a < pre.len() && b < pre.len() {
                    assert(self@.transactions[a] == pre[a]);
                    assert(self@.transactions[b] == pre[b]);
                } else if a < pre.len() {
                    assert(self@.transactions[a] == pre[a]);
                    assert(self@.transactions[b].txid() == txid);
                } else {
                    assert(self@.transactions[b] == pre[b]);
                    assert(self@.transactions[a].txid() == txid);
                }
            }
        }
        let script_pubkey = dup_bytes(&payjoin_proposal.unsigned_tx.output[vout].script_pubkey);
        Ok((tx, TxRegistration { txid, script_pubkey }))
    }

    /// The identifiers the chain source should keep watching: every
    /// tracked transaction past its first confirmation, with the height
    /// and block of that confirmation.
    pub fn get_relevant_txids(&self) -> (r: Vec<(TxId, u32, Option<BlockHash>)>)
        ensures
            r@ == relevant_txids_of(self@.transactions),
    {
        let mut r: Vec<(TxId, u32, Option<BlockHash>)> = Vec::new();
        let mut i: usize = 0;
        proof {
            assert(self@.transactions.take(0) =~= Seq::<PayjoinTransactionV>::empty());
            assert(r@ =~= relevant_txids_of(self@.transactions.take(0)));
        }
        while i < self.transactions.len()
            invariant
                i <= self.transactions@.len(),
                self@.transactions.len() == self.transactions@.len(),
                r@ == relevant_txids_of(self@.transactions.take(i as int)),
            decreases self.transactions@.len() - i,
        {
            proof {
                assert(self@.transactions.take(i + 1 as int).drop_last() =~= self@
                    .transactions
                    .take(i as int));
                assert(self@.transactions.take(i + 1 as int).last() == self@.transactions[i as int]);
                assert(self.transactions@[i as int]@ == self@.transactions[i as int]);
            }
            let t = &self.transactions[i];
            match t {
                PayjoinTransaction::PendingThresholdConfirmations {
                    tx,
                    first_confirmation_height,
                    first_confirmation_hash,
                    ..
                } => {
                    r.push((tx.txid, *first_confirmation_height, Some(*first_confirmation_hash)));
                },
                PayjoinTransaction::PendingFirstConfirmation { .. } => {},
            }
            i += 1;
        }
        proof {
            assert(self@.transactions.take(self@.transactions.len() as int) =~= self@.transactions);
        }
        r
    }
}

/// Every transaction id among a sweep's retained entries already stood in
/// the swept set.
pub proof fn lemma_sweep_keep_txids(s: Seq<PayjoinTransactionV>, tip: u32)
    ensures
        forall|k: int|
            0 <= k < sweep_keep(s, tip).len() ==> exists|i: int|
                0 <= i < s.len() && s[i].txid() == #[trigger] sweep_keep(s, tip)[k].txid(),
    decreases s.len(),
{
    if s.len() > 0 {
        lemma_sweep_keep_txids(s.drop_last(), tip);
        let rest = sweep_keep(s.drop_last(), tip);
        assert forall|k: int|
            0 <= k < sweep_keep(s, tip).len() implies exists|i: int|
            0 <= i < s.len() && s[i].txid() == #[trigger] sweep_keep(s, tip)[k].txid() by {
            if k < rest.len() {
                assert(sweep_keep(s, tip)[k] == rest[k]);
                let i = choose|i: int|
                    0 <= i < s.drop_last().len() && s.drop_last()[i].txid() == rest[k].txid();
                assert(s[i].txid() == sweep_keep(s, tip)[k].txid());
            } else {
                assert(sweep_keep(s, tip)[k] == s.last());
                assert(s[s.len() - 1].txid() == sweep_keep(s, tip)[k].txid());
            }
        }
    }
}

/// Sweeping preserves distinctness of the tracked transaction ids.
pub proof fn lemma_sweep_keep_distinct(s: Seq<PayjoinTransactionV>, tip: u32)
    requires
        forall|i: int, j: int|
            0 <= i < s.len() && 0 <= j < s.len() && i != j ==> s[i].txid() != s[j].txid(),
    ensures
        forall|i: int, j: int|
            0 <= i < sweep_keep(s, tip).len() && 0 <= j < sweep_keep(s, tip).len() && i != j
                ==> sweep_keep(s, tip)[i].txid() != sweep_keep(s, tip)[j].txid(),
    decreases s.len(),
{
    if s.len() > 0 {
        lemma_sweep_keep_distinct(s.drop_last(), tip);
        lemma_sweep_keep_txids(s.drop_last(), tip);
        let rest = sweep_keep(s.drop_last(), tip);
        let whole = sweep_keep(s, tip);
        if !qualifies(s.last(), tip) {
            assert forall|i: int, j: int|
                0 <= i < whole.len() && 0 <= j < whole.len() && i != j implies whole[i].txid()
                != whole[j].txid() by {
                if i < rest.len() && j < rest.len() {
                    assert(whole[i] == rest[i]);
                    assert(whole[j] == rest[j]);
                } else if i < rest.len() {
                    assert(whole[j] == s.last());
                    assert(whole[i] == rest[i]);
                    let w = choose|w: int|
                        0 <= w < s.drop_last().len() && s.drop_last()[w].txid() == rest[i].txid();
                    assert(s[w].txid() == rest[i].txid());
                    assert(s[s.len() - 1].txid() != s[w].txid());
                } else {
                    assert(whole[i] == s.last());
                    assert(whole[j] == rest[j]);
                    let w = choose|w: int|
                        0 <= w < s.drop_last().len() && s.drop_last()[w].txid() == rest[j].txid();
                    assert(s[w].txid() == rest[j].txid());
                    assert(s[s.len() - 1].txid() != s[w].txid());
                }
            }
        }
    }
}

/// The position of the first `true` in a sequence of flags, or -1.
pub open spec fn first_true(flags: Seq<bool>) -> int
    decreases flags.len(),
{
    if flags.len() == 0 {
        -1
    } else if flags[0] {
        0
    } else {
        let r = first_true(flags.skip(1));
        if r < 0 {
            -1
        } else {
            r + 1
        }
    }
}

/// `first_true` finds the first set flag: none is set before it, and -1
/// means none is set at all.
pub proof fn lemma_first_true(flags: Seq<bool>)
    ensures
        first_true(flags) >= 0 ==> first_true(flags) < flags.len() && flags[first_true(flags)]
            && forall|k: int| 0 <= k < first_true(flags) ==> !flags[k],
        first_true(flags) < 0 ==> forall|k: int| 0 <= k < flags.len() ==> !flags[k],
    decreases flags.len(),
{
    if flags.len() > 0 && !flags[0] {
        lemma_first_true(flags.skip(1));
        let r = first_true(flags.skip(1));
        if r >= 0 {
            assert forall|k: int| 0 <= k < r + 1 implies !flags[k] by {
                if k > 0 {
                    assert(!flags.skip(1)[k - 1]);
                }
            }
        } else {
            assert forall|k: int| 0 <= k < flags.len() implies !flags[k] by {
                if k > 0 {
                    assert(!flags.skip(1)[k - 1]);
                }
            }
        }
    }
}

/// Exec search for the first set flag.
#[verifier::loop_isolation(false)]
pub fn first_true_exec(flags: &Vec<bool>) -> (r: Option<usize>)
    ensures
        match r {
            Some(i) => i as int == first_true(flags@),
            None => first_true(flags@) < 0,
        },
{
    let mut i: usize = 0;
    while i < flags.len() && !flags[i]
        invariant
            0 <= i <= flags@.len(),
            forall|k: int| 0 <= k < i ==> !flags@[k],
        decreases flags@.len() - i,
    {
        i += 1;
    }
    proof {
        lemma_first_true(flags@);
        let f = first_true(flags@);
        if i < flags@.len() {
            if f < i {
                assert(!flags@[f]);
            }
            if f > i || f < 0 {
                assert(flags@[i as int]);
            }
        } else {
            if f >= 0 {
                assert(flags@[f]);
            }
        }
    }
    if i < flags.len() {
        Some(i)
    } else {
        None
    }
}

/// Exec search of a confirmed-transaction list for an id.
pub fn txdata_contains_exec(txdata: &Vec<Transaction>, id: TxId) -> (r: bool)
    ensures
        r == txdata_contains(txdata.deep_view(), id),
{
    let mut j: usize = 0;
    while j < txdata.len()
        invariant
            j <= txdata@.len(),
            forall|k: int| 0 <= k < j ==> txdata.deep_view()[k].txid != id,
        decreases txdata@.len() - j,
    {
        proof {
            assert(txdata.deep_view()[j as int] == txdata@[j as int]@);
        }
        if txdata[j].txid == id {
            return true;
        }
        j += 1;
    }
    false
}

/// The transaction a success event reports, where it is one.
pub open spec fn success_txid(e: EventV) -> Option<TxId> {
    match e {
        EventV::PayjoinPaymentSuccess { txid, .. } => Some(txid),
        EventV::PayjoinPaymentPending { .. } => None,
        EventV::PayjoinPaymentFailed { .. } => None,
    }
}

/// Every event a sweep emits reports the id of some settled entry of
/// the swept set.
pub proof fn lemma_sweep_events_txids(s: Seq<PayjoinTransactionV>, tip: u32)
    ensures
        forall|k: int|
            0 <= k < sweep_events(s, tip).len() ==> exists|i: int|
                0 <= i < s.len() && qualifies(s[i], tip) && Some(s[i].txid())
                    == #[trigger] success_txid(sweep_events(s, tip)[k]),
    decreases s.len(),
{
    if s.len() > 0 {
        lemma_sweep_events_txids(s.drop_last(), tip);
        let rest = sweep_events(s.drop_last(), tip);
        assert forall|k: int|
            0 <= k < sweep_events(s, tip).len() implies exists|i: int|
            0 <= i < s.len() && qualifies(s[i], tip) && Some(s[i].txid())
                == #[trigger] success_txid(sweep_events(s, tip)[k]) by {
            if k < rest.len() {
                assert(sweep_events(s, tip)[k] == rest[k]);
                let i = choose|i: int|
                    0 <= i < s.drop_last().len() && qualifies(s.drop_last()[i], tip) && Some(
                        s.drop_last()[i].txid(),
                    ) == success_txid(rest[k]);
                assert(s.drop_last()[i] == s[i]);
                assert(0 <= i < s.len() && qualifies(s[i], tip) && Some(s[i].txid())
                    == success_txid(sweep_events(s, tip)[k]));
            } else {
                let i = s.len() - 1;
                assert(sweep_events(s, tip)[k] == success_event_of(s[i]));
                assert(0 <= i < s.len() && qualifies(s[i], tip) && Some(s[i].txid())
                    == success_txid(sweep_events(s, tip)[k]));
            }
        }
    }
}

/// One sweep reports each settled transaction exactly once: with the
/// tracked ids distinct, no two of its success events name the same
/// transaction.
pub proof fn lemma_sweep_events_one_per_txid(s: Seq<PayjoinTransactionV>, tip: u32)
    requires
        forall|i: int, j: int|
            0 <= i < s.len() && 0 <= j < s.len() && i != j ==> s[i].txid() != s[j].txid(),
    ensures
        forall|i: int, j: int|
            0 <= i < sweep_events(s, tip).len() && 0 <= j < sweep_events(s, tip).len() && i != j
                ==> success_txid(#[trigger] sweep_events(s, tip)[i]) != success_txid(
                #[trigger] sweep_events(s, tip)[j],
            ),
    decreases s.len(),
{
    if s.len() > 0 {
        lemma_sweep_events_one_per_txid(s.drop_last(), tip);
        lemma_sweep_events_txids(s.drop_last(), tip);
        let rest = sweep_events(s.drop_last(), tip);
        let whole = sweep_events(s, tip);
        if qualifies(s.last(), tip) {
            assert forall|i: int, j: int|
                0 <= i < whole.len() && 0 <= j < whole.len() && i != j implies success_txid(
                #[trigger] whole[i],
            ) != success_txid(#[trigger] whole[j]) by {
                if i < rest.len() && j < rest.len() {
                    assert(whole[i] == rest[i]);
                    assert(whole[j] == rest[j]);
                } else if i < rest.len() {
                    assert(whole[i] == rest[i]);
                    assert(whole[j] == success_event_of(s.last()));
                    let w = choose|w: int|
                        0 <= w < s.drop_last().len() && qualifies(s.drop_last()[w], tip) && Some(
                            s.drop_last()[w].txid(),
                        ) == success_txid(rest[i]);
                    assert(s.drop_last()[w] == s[w]);
                    assert(s[w].txid() != s[s.len() - 1].txid());
                } else {
                    assert(whole[j] == rest[j]);
                    assert(whole[i] == success_event_of(s.last()));
                    let w = choose|w: int|
                        0 <= w < s.drop_last().len() && qualifies(s.drop_last()[w], tip) && Some(
                            s.drop_last()[w].txid(),
                        ) == success_txid(rest[j]);
                    assert(s.drop_last()[w] == s[w]);
                    assert(s[w].txid() != s[s.len() - 1].txid());
                }
            }
        }
    }
}

/// Sweeping a set from which the settled entries were already removed, at
/// the same tip, reports nothing: delivering one tip update twice cannot
/// emit a second success event for any transaction.
pub proof fn lemma_tip_update_idempotent(s: Seq<PayjoinTransactionV>, tip: u32)
    ensures
        sweep_events(sweep_keep(s, tip), tip) =~= Seq::<EventV>::empty(),
    decreases s.len(),
{
    if s.len() > 0 {
        lemma_tip_update_idempotent(s.drop_last(), tip);
        let rest = sweep_keep(s.drop_last(), tip);
        if !qualifies(s.last(), tip) {
            assert(sweep_keep(s, tip) == rest.push(s.last()));
            assert(sweep_keep(s, tip).drop_last() =~= rest);
        }
    }
}

} // verus!
