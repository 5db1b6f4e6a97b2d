//! Payment events.
//!
//! The engine reports the outcome of a payment attempt exclusively through
//! these values; the surrounding node appends them to its event queue.

use vstd::prelude::*;

use crate::types::TxId;

verus! {

/// One terminal or intermediate outcome of a Payjoin payment attempt.
#[derive(Debug)]
pub enum Event {
    /// The negotiated transaction was handed to the broadcaster and now
    /// awaits confirmation.
    PayjoinPaymentPending { txid: TxId, amount: u64, recipient: String },
    /// The tracked transaction reached the safety depth and is settled.
    PayjoinPaymentSuccess { txid: TxId, amount: u64, recipient: String },
    /// The attempt ended without a transaction.
    PayjoinPaymentFailed { amount: u64, recipient: String, reason: String },
}

/// Mathematical view of an [`Event`].
#[verifier::ext_equal]
pub enum EventV {
    PayjoinPaymentPending { txid: TxId, amount: u64, recipient: Seq<char> },
    PayjoinPaymentSuccess { txid: TxId, amount: u64, recipient: Seq<char> },
    PayjoinPaymentFailed { amount: u64, recipient: Seq<char>, reason: Seq<char> },
}

impl View for Event {
    type V = EventV;

    open spec fn view(&self) -> EventV {
        match self {
            Event::PayjoinPaymentPending { txid, amount, recipient } => {
                EventV::PayjoinPaymentPending {
                    txid: *txid,
                    amount: *amount,
                    recipient: recipient@,
                }
            },
            Event::PayjoinPaymentSuccess { txid, amount, recipient } => {
                EventV::PayjoinPaymentSuccess {
                    txid: *txid,
                    amount: *amount,
                    recipient: recipient@,
                }
            },
            Event::PayjoinPaymentFailed { amount, recipient, reason } => {
                EventV::PayjoinPaymentFailed {
                    amount: *amount,
                    recipient: recipient@,
                    reason: reason@,
                }
            },
        }
    }
}

impl DeepView for Event {
    type V = EventV;

    open spec fn deep_view(&self) -> EventV {
        self.view()
    }
}

} // verus!
