//! The sender's side of a Payjoin negotiation.
//!
//! The synchronous part resolves the amount and frames the relay request;
//! the asynchronous part is a polling loop that the surrounding node
//! drives, handing each tick's relay response back to the engine. The
//! engine decides — retry, give up, or finalise — and the node performs
//! the I/O those decisions call for.

use vstd::prelude::*;

use crate::error::Error;
use crate::events::{Event, EventV};
use crate::handler::{first_true, PayjoinHandler, PayjoinTransactionV, TxRegistration};
use crate::types::{
    dup_bytes, dup_psbt, dup_transaction, dup_txout, dv_push, dv_set, Psbt, PsbtInput, PsbtInputV,
    PsbtV, Transaction, TxIn,
};
use crate::uri::PjUri;

verus! {

/// Resolves the amount to send: an explicit argument wins over the
/// amount carried by the locator; having neither is an error.
pub fn resolve_amount(uri: &PjUri, amount_sats: Option<u64>) -> (r: Result<u64, Error>)
    ensures
        match (amount_sats, uri@.amount_sats) {
            (Some(a), _) => r == Ok::<u64, Error>(a),
            (None, Some(a)) => r == Ok::<u64, Error>(a),
            (None, None) => r == Err::<u64, Error>(Error::PayjoinRequestMissingAmount),
        },
{
    match (amount_sats, &uri.amount_sats) {
        (Some(a), _) => Ok(a),
        (None, Some(a)) => Ok(*a),
        (None, None) => Err(Error::PayjoinRequestMissingAmount),
    }
}

/// One outbound relay request: where to post and what.
#[derive(Debug)]
pub struct PayjoinRequest {
    pub url: String,
    pub body: Vec<u8>,
}

/// Frames the relay request for one polling tick: the original
/// transaction's serialised form posted to the configured relay. The
/// request is rebuilt freshly for every tick.
pub fn create_payjoin_request(relay: &String, original_psbt_bytes: &Vec<u8>) -> (r: PayjoinRequest)
    ensures
        r.url@ == relay@,
        r.body@ == original_psbt_bytes@,
{
    PayjoinRequest { url: relay.clone(), body: dup_bytes(original_psbt_bytes) }
}

/// Classifies a raw relay reply by transport status and body: only a
/// success status (any 2xx) with a nonempty body carries a proposal
/// worth processing; everything else means "try again later".
pub fn classify_fetch_response(status: u16, body: Vec<u8>) -> (r: Option<Vec<u8>>)
    ensures
        r is Some <==> 200 <= status <= 299 && body@.len() > 0,
        r matches Some(b) ==> b@ == body@,
{
    if 200 <= status && status <= 299 {
        if body.len() == 0 {
            None
        } else {
            Some(body)
        }
    } else {
        None
    }
}

/// How far the proposal's inputs stay aligned, in order, with the
/// original transaction's inputs: the number of the original's inputs
/// consumed after walking the first `i` proposal inputs.
pub open spec fn match_count(prop: Seq<TxIn>, orig: Seq<TxIn>, i: int) -> int
    decreases i,
{
    if i <= 0 {
        0
    } else {
        let j = match_count(prop, orig, i - 1);
        if j < orig.len() && prop[i - 1].previous_output == orig[j].previous_output {
            j + 1
        } else {
            j
        }
    }
}

/// Whether the `i`-th proposal input lines up with the original input
/// the walk has reached.
pub open spec fn matched_at(prop: Seq<TxIn>, orig: Seq<TxIn>, i: int) -> bool {
    let j = match_count(prop, orig, i);
    j < orig.len() && prop[i].previous_output == orig[j].previous_output
}

/// The walk never consumes more original inputs than it has seen
/// proposal inputs, and never runs past the original.
pub proof fn lemma_match_count_bounds(prop: Seq<TxIn>, orig: Seq<TxIn>, i: int)
    requires
        i >= 0,
    ensures
        0 <= match_count(prop, orig, i) <= i,
        match_count(prop, orig, i) <= orig.len(),
    decreases i,
{
    if i > 0 {
        lemma_match_count_bounds(prop, orig, i - 1);
    }
}

/// A proposal after its input metadata was reconciled with the original
/// transaction: every proposal input still aligned with the original, in
/// order, carries the original's spent-output data again; the inputs the
/// receiver added are untouched.
pub open spec fn spec_reconcile(prop: PsbtV, orig: PsbtV) -> PsbtV {
    PsbtV {
        unsigned_tx: prop.unsigned_tx,
        inputs: Seq::new(
            prop.inputs.len(),
            |i: int|
                if matched_at(prop.unsigned_tx.input, orig.unsigned_tx.input, i) {
                    PsbtInputV {
                        witness_utxo: orig.inputs[match_count(
                            prop.unsigned_tx.input,
                            orig.unsigned_tx.input,
                            i,
                        )].witness_utxo,
                        non_witness_utxo: orig.inputs[match_count(
                            prop.unsigned_tx.input,
                            orig.unsigned_tx.input,
                            i,
                        )].non_witness_utxo,
                    }
                } else {
                    prop.inputs[i]
                },
        ),
    }
}

/// Re-attaches the original transaction's per-input data to the
/// receiver's proposal.
///
/// The protocol has the receiver strip the spent-output data from the
/// inputs the sender shared, so the sender's signer would refuse them;
/// this walks both input lists in order, and wherever the proposal still
/// lines up with the original — matched by position after the shared
/// prefix, only as long as the lists stay aligned — copies that data
/// back. Inputs contributed by the receiver are left untouched.
#[verifier::loop_isolation(false)]
pub fn reconcile_input_utxos(proposal: &mut Psbt, original: &Psbt)
    requires
        old(proposal)@.wf(),
        original@.wf(),
    ensures
        final(proposal)@ == spec_reconcile(old(proposal)@, original@),
        final(proposal)@.wf(),
{
    let ghost prop_ins = old(proposal)@.unsigned_tx.input;
    let ghost orig_ins = original@.unsigned_tx.input;
    let ghost expected = spec_reconcile(old(proposal)@, original@);
    let mut i: usize = 0;
    let mut j: usize = 0;
    while i < proposal.unsigned_tx.input.len()
        invariant
            0 <= i <= prop_ins.len(),
            j as int == match_count(prop_ins, orig_ins, i as int),
            j <= orig_ins.len(),
            proposal.unsigned_tx@ == old(proposal)@.unsigned_tx,
            proposal.inputs@.len() == prop_ins.len(),
            forall|k: int| 0 <= k < i ==> proposal.inputs.deep_view()[k] == expected.inputs[k],
            forall|k: int|
                i <= k < prop_ins.len() ==> proposal.inputs.deep_view()[k] == old(
                    proposal,
                )@.inputs[k],
        decreases prop_ins.len() - i,
    {
        proof {
            lemma_match_count_bounds(prop_ins, orig_ins, i as int);
        }
        let aligned = if j < original.unsigned_tx.input.len() {
            proposal.unsigned_tx.input[i].previous_output
                == original.unsigned_tx.input[j].previous_output
        } else {
            false
        };
        proof {
            assert(aligned == matched_at(prop_ins, orig_ins, i as int));
            assert(match_count(prop_ins, orig_ins, i + 1 as int) == if aligned {
                j + 1
            } else {
                j as int
            });
        }
        if aligned {
            let witness_utxo = match &original.inputs[j].witness_utxo {
                Some(o) => Some(dup_txout(o)),
                None => None,
            };
            let non_witness_utxo = match &original.inputs[j].non_witness_utxo {
                Some(t) => Some(dup_transaction(t)),
                None => None,
            };
            let replacement = PsbtInput { witness_utxo, non_witness_utxo };
            proof {
                assert(replacement@ == expected.inputs[i as int]);
            }
            dv_set(&mut proposal.inputs, i, replacement);
            j += 1;
        } else {
            proof {
                assert(proposal.inputs.deep_view()[i as int] == old(proposal)@.inputs[i as int]);
                assert(expected.inputs[i as int] == old(proposal)@.inputs[i as int]);
            }
        }
        i += 1;
    }
    proof {
        assert(proposal.inputs.deep_view() =~= expected.inputs);
        assert(proposal@ =~= expected);
    }
}

/// A proposal received from the relay, together with the facts only the
/// surrounding node can supply about it: which of its outputs the wallet
/// recognises as this node's, and whether signing it succeeded.
#[derive(Debug)]
pub struct ProposalReply {
    pub psbt: Psbt,
    pub output_owned: Vec<bool>,
    pub sign_ok: bool,
}

/// What one polling tick brought back from the relay, after transport
/// and decoding: a transport failure or refused status, an empty body
/// (the receiver has nothing yet), an undecodable payload, or a decoded
/// proposal.
#[derive(Debug)]
pub enum RelayResponse {
    Failure,
    Empty,
    Invalid,
    Proposal(ProposalReply),
}

/// Whether a relay response ends the polling loop.
pub open spec fn decisive(r: RelayResponse) -> bool {
    r is Invalid || r is Proposal
}

/// The first tick, among the first `n`, whose response ends the loop;
/// -1 when every one of them asks for another try.
pub open spec fn first_decisive(rs: Seq<RelayResponse>, n: int) -> int
    decreases n,
{
    if n <= 0 {
        -1
    } else {
        let p = first_decisive(rs, n - 1);
        if p >= 0 {
            p
        } else if decisive(rs[n - 1]) {
            n - 1
        } else {
            -1
        }
    }
}

/// Once a decisive response is reached with none before it, it stays
/// the first decisive one for every longer prefix.
pub proof fn lemma_first_decisive_hit(rs: Seq<RelayResponse>, i: int, n: int)
    requires
        0 <= i < n,
        first_decisive(rs, i) == -1,
        decisive(rs[i]),
    ensures
        first_decisive(rs, n) == i,
    decreases n,
{
    if n - 1 > i {
        lemma_first_decisive_hit(rs, i, n - 1);
    }
}

/// A relay that only ever answers with empty bodies — or with transport
/// failures — never ends the loop early: no such response is decisive.
pub proof fn lemma_all_empty_never_decisive(rs: Seq<RelayResponse>, n: int)
    requires
        0 <= n,
        forall|k: int| 0 <= k < n ==> (rs[k] is Empty || rs[k] is Failure),
    ensures
        first_decisive(rs, n) == -1,
    decreases n,
{
    if n > 0 {
        lemma_all_empty_never_decisive(rs, n - 1);
    }
}

/// What one run of the polling loop produced: the single terminal event
/// to report, and, on success, the transaction to broadcast and the
/// registration for the chain source.
#[derive(Debug)]
pub struct SenderLoopOutcome {
    pub events: Vec<Event>,
    pub broadcast: Option<Transaction>,
    pub registration: Option<TxRegistration>,
}

/// Runs the sender's polling loop over the relay's responses.
///
/// Tick `i` of the loop freshly rebuilds the relay request and is
/// answered by `replies[i]`; the loop runs for at most `max_ticks`
/// ticks, the overall timeout. A failure or empty body only means "try
/// again later". An undecodable proposal ends the attempt with a
/// failure event; a decoded proposal is finalised against the original
/// transaction and ends the attempt either with the transaction to
/// broadcast and a pending event, or with a failure event. If no
/// response ends the loop, the attempt times out with a failure event.
/// Exactly one event is produced either way, and the tracked set gains
/// an entry exactly when the attempt succeeded.
#[verifier::loop_isolation(false)]
pub fn run_sender_loop(
    handler: &mut PayjoinHandler,
    original_psbt: &Psbt,
    recipient: &String,
    amount: u64,
    replies: &Vec<RelayResponse>,
    max_ticks: usize,
) -> (r: SenderLoopOutcome)
    requires
        old(handler)@.wf(),
        original_psbt@.wf(),
        replies@.len() >= max_ticks,
        forall|k: int|
            0 <= k < max_ticks ==> (#[trigger] replies@[k] matches RelayResponse::Proposal(rep)
                ==> rep.psbt@.wf() && rep.output_owned@.len()
                == rep.psbt@.unsigned_tx.output.len()),
    ensures
        final(handler)@.wf(),
        final(handler)@.payjoin_relay == old(handler)@.payjoin_relay,
        final(handler)@.best_known_block == old(handler)@.best_known_block,
        r.events@.len() == 1,
        ({
            let d = first_decisive(replies@, max_ticks as int);
            if d < 0 {
                &&& r.events.deep_view() =~= seq![
                    EventV::PayjoinPaymentFailed {
                        amount: amount,
                        recipient: recipient@,
                        reason: "Payjoin request timed out."@,
                    },
                ]
                &&& r.broadcast is None
                &&& final(handler)@ == old(handler)@
            } else if replies@[d] is Invalid {
                &&& r.events.deep_view() =~= seq![
                    EventV::PayjoinPaymentFailed {
                        amount: amount,
                        recipient: recipient@,
                        reason: Error::PayjoinResponseProcessingFailed.spec_description(),
                    },
                ]
                &&& r.broadcast is None
                &&& final(handler)@ == old(handler)@
            } else {
                let rep = replies@[d]->Proposal_0;
                let txid = rep.psbt@.unsigned_tx.txid;
                if rep.sign_ok && first_true(rep.output_owned@) >= 0 && old(
                    handler,
                )@.best_known_block is Some && !old(handler)@.contains_txid(txid) {
                    let best = old(handler)@.best_known_block->Some_0;
                    &&& r.events.deep_view() =~= seq![
                        EventV::PayjoinPaymentPending {
                            txid: txid,
                            amount: amount,
                            recipient: recipient@,
                        },
                    ]
                    &&& r.broadcast matches Some(tx) && tx@ == rep.psbt@.unsigned_tx
                    &&& r.registration is Some
                    &&& final(handler)@.transactions == old(handler)@.transactions.push(
                        PayjoinTransactionV::PendingFirstConfirmation {
                            tx: rep.psbt@.unsigned_tx,
                            receiver: recipient@,
                            amount: amount,
                            first_broadcast_height: best.height,
                            first_broadcast_hash: best.block_hash,
                        },
                    )
                } else {
                    let e = if !rep.sign_ok {
                        Error::PayjoinResponseProcessingFailed
                    } else {
                        Error::PayjoinReceiverRequestValidationFailed
                    };
                    &&& r.events.deep_view() =~= seq![
                        EventV::PayjoinPaymentFailed {
                            amount: amount,
                            recipient: recipient@,
                            reason: e.spec_description(),
                        },
                    ]
                    &&& r.broadcast is None
                    &&& final(handler)@ == old(handler)@
                }
            }
        }),
{
    let mut i: usize = 0;
    while i < max_ticks
        invariant
            0 <= i <= max_ticks,
            first_decisive(replies@, i as int) == -1,
            handler@ == old(handler)@,
        decreases max_ticks - i,
    {
        match &replies[i] {
            RelayResponse::Failure => {
                i += 1;
            },
            RelayResponse::Empty => {
                i += 1;
            },
            RelayResponse::Invalid => {
                proof {
                    lemma_first_decisive_hit(replies@, i as int, max_ticks as int);
                }
                let ev = Event::PayjoinPaymentFailed {
                    amount,
                    recipient: recipient.clone(),
                    reason: Error::PayjoinResponseProcessingFailed.description().to_owned(),
                };
                let mut events: Vec<Event> = Vec::new();
                dv_push(&mut events, ev);
                proof {
                    assert(events.deep_view() =~= seq![
                        EventV::PayjoinPaymentFailed {
                            amount: amount,
                            recipient: recipient@,
                            reason: Error::PayjoinResponseProcessingFailed.spec_description(),
                        },
                    ]);
                }
                return SenderLoopOutcome { events, broadcast: None, registration: None };
            },
            RelayResponse::Proposal(rep) => {
                proof {
                    lemma_first_decisive_hit(replies@, i as int, max_ticks as int);
                    assert(replies@[i as int] matches RelayResponse::Proposal(p) ==> p.psbt@.wf()
                        && p.output_owned@.len() == p.psbt@.unsigned_tx.output.len());
                }
                let mut proposal = dup_psbt(&rep.psbt);
                match handler.finalise_payjoin_transaction(
                    &mut proposal,
                    original_psbt,
                    recipient,
                    amount,
                    &rep.output_owned,
                    rep.sign_ok,
                ) {
                    Ok((tx, reg)) => {
                        let ev = Event::PayjoinPaymentPending {
                            txid: tx.txid,
                            amount,
                            recipient: recipient.clone(),
                        };
                        let mut events: Vec<Event> = Vec::new();
                        dv_push(&mut events, ev);
                        proof {
                            assert(events.deep_view() =~= seq![
                                EventV::PayjoinPaymentPending {
                                    txid: rep.psbt@.unsigned_tx.txid,
                                    amount: amount,
                                    recipient: recipient@,
                                },
                            ]);
                        }
                        return SenderLoopOutcome {
                            events,
                            broadcast: Some(tx),
                            registration: Some(reg),
                        };
                    },
                    Err(e) => {
                        let ev = Event::PayjoinPaymentFailed {
                            amount,
                            recipient: recipient.clone(),
                            reason: e.description().to_owned(),
                        };
                        let mut events: Vec<Event> = Vec::new();
                        dv_push(&mut events, ev);
                        proof {
                            assert(events.deep_view() =~= seq![
                                EventV::PayjoinPaymentFailed {
                                    amount: amount,
                                    recipient: recipient@,
                                    reason: e.spec_description(),
                                },
                            ]);
                        }
                        return SenderLoopOutcome {
                            events,
                            broadcast: None,
                            registration: None,
                        };
                    },
                }
            },
        }
    }
    let ev = Event::PayjoinPaymentFailed {
        amount,
        recipient: recipient.clone(),
        reason: "Payjoin request timed out.".to_owned(),
    };
    let mut events: Vec<Event> = Vec::new();
    dv_push(&mut events, ev);
    proof {
        assert(events.deep_view() =~= seq![
            EventV::PayjoinPaymentFailed {
                amount: amount,
                recipient: recipient@,
                reason: "Payjoin request timed out."@,
            },
        ]);
    }
    SenderLoopOutcome { events, broadcast: None, registration: None }
}

} // verus!
