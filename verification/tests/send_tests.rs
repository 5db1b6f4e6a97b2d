use payjoin_engine::error::Error;
use payjoin_engine::events::Event;
use payjoin_engine::handler::{PayjoinHandler, PayjoinTransaction, ANTI_REORG_DELAY};
use payjoin_engine::payment::{PayjoinPayment, ReceiverConfig, SenderConfig};
use payjoin_engine::send::{
    classify_fetch_response, create_payjoin_request, reconcile_input_utxos, resolve_amount,
    run_sender_loop, ProposalReply, RelayResponse,
};
use payjoin_engine::types::{BlockHash, OutPoint, Psbt, PsbtInput, Transaction, TxId, TxIn, TxOut};
use payjoin_engine::uri::{Network, PjUri};

fn tid(n: u8) -> TxId {
    TxId { hi: n as u128, lo: 0 }
}

fn bh(n: u8) -> BlockHash {
    BlockHash { hi: 0, lo: n as u128 }
}

fn p2wpkh_script(seed: u8) -> Vec<u8> {
    let mut v = vec![0x00u8, 0x14];
    v.extend(std::iter::repeat(seed).take(20));
    v
}

fn sender_payment() -> PayjoinPayment {
    PayjoinPayment::new(
        Network::Regtest,
        Some(SenderConfig { payjoin_relay: "https://relay.example".to_string() }),
        None,
    )
}

/// The sender's original transaction: one 100,000-sat input, 80,000 to
/// the receiver, change back.
fn original_psbt() -> Psbt {
    Psbt {
        unsigned_tx: Transaction {
            txid: tid(1),
            input: vec![TxIn { previous_output: OutPoint { txid: tid(2), vout: 0 } }],
            output: vec![
                TxOut { value: 80_000, script_pubkey: p2wpkh_script(0xaa) },
                TxOut { value: 19_000, script_pubkey: p2wpkh_script(0xbb) },
            ],
        },
        inputs: vec![PsbtInput {
            witness_utxo: Some(TxOut { value: 100_000, script_pubkey: p2wpkh_script(0xcc) }),
            non_witness_utxo: None,
        }],
    }
}

/// The receiver's answer: the original with a contributed input, the
/// shared input's spent-output data stripped, as the protocol demands.
fn proposal_psbt() -> Psbt {
    Psbt {
        unsigned_tx: Transaction {
            txid: tid(5),
            input: vec![
                TxIn { previous_output: OutPoint { txid: tid(2), vout: 0 } },
                TxIn { previous_output: OutPoint { txid: tid(9), vout: 0 } },
            ],
            output: vec![
                TxOut { value: 130_000 - 68, script_pubkey: p2wpkh_script(0xee) },
                TxOut { value: 19_000, script_pubkey: p2wpkh_script(0xbb) },
            ],
        },
        inputs: vec![
            PsbtInput { witness_utxo: None, non_witness_utxo: None },
            PsbtInput {
                witness_utxo: Some(TxOut { value: 50_000, script_pubkey: p2wpkh_script(0xdd) }),
                non_witness_utxo: None,
            },
        ],
    }
}

fn proposal_reply() -> RelayResponse {
    RelayResponse::Proposal(ProposalReply {
        psbt: proposal_psbt(),
        // The sender's wallet recognises only the change output.
        output_owned: vec![false, true],
        sign_ok: true,
    })
}

#[test]
fn amount_resolution() {
    let uri_with = PjUri {
        address: "bcrt1q".to_string(),
        amount_sats: Some(1_000),
        endpoint: "e".to_string(),
    };
    let uri_without =
        PjUri { address: "bcrt1q".to_string(), amount_sats: None, endpoint: "e".to_string() };
    // An explicit amount wins over the locator's.
    assert_eq!(resolve_amount(&uri_with, Some(2_000)), Ok(2_000));
    assert_eq!(resolve_amount(&uri_with, None), Ok(1_000));
    assert_eq!(resolve_amount(&uri_without, Some(2_000)), Ok(2_000));
    assert_eq!(resolve_amount(&uri_without, None), Err(Error::PayjoinRequestMissingAmount));
}

#[test]
fn relay_replies_are_classified_by_status_and_body() {
    assert_eq!(classify_fetch_response(200, vec![1, 2, 3]), Some(vec![1, 2, 3]));
    assert_eq!(classify_fetch_response(200, Vec::new()), None);
    assert_eq!(classify_fetch_response(503, vec![1, 2, 3]), None);
    assert_eq!(classify_fetch_response(404, Vec::new()), None);
}

#[test]
fn requests_are_framed_for_the_relay() {
    let r = create_payjoin_request(&"https://relay.example".to_string(), &vec![9, 9, 9]);
    assert_eq!(r.url, "https://relay.example");
    assert_eq!(r.body, vec![9, 9, 9]);
}

#[test]
fn reconciliation_restores_the_shared_inputs_only() {
    let original = original_psbt();
    let mut proposal = proposal_psbt();
    reconcile_input_utxos(&mut proposal, &original);
    // The shared input regained the original's spent-output data.
    let restored = proposal.inputs[0].witness_utxo.as_ref().unwrap();
    assert_eq!(restored.value, 100_000);
    assert_eq!(restored.script_pubkey, p2wpkh_script(0xcc));
    // The receiver's contributed input keeps its own data.
    let contributed = proposal.inputs[1].witness_utxo.as_ref().unwrap();
    assert_eq!(contributed.value, 50_000);
    assert_eq!(contributed.script_pubkey, p2wpkh_script(0xdd));
}

#[test]
fn sender_loop_times_out_against_a_silent_relay() {
    let mut handler = PayjoinHandler::new("https://relay.example".to_string());
    handler.best_block_updated(bh(1), 100);
    let replies = vec![
        RelayResponse::Empty,
        RelayResponse::Empty,
        RelayResponse::Empty,
        RelayResponse::Empty,
        RelayResponse::Empty,
    ];
    let outcome = run_sender_loop(
        &mut handler,
        &original_psbt(),
        &"bcrt1qreceiver".to_string(),
        80_000,
        &replies,
        5,
    );
    assert_eq!(outcome.events.len(), 1);
    match &outcome.events[0] {
        Event::PayjoinPaymentFailed { amount, recipient, reason } => {
            assert_eq!(*amount, 80_000);
            assert_eq!(recipient, "bcrt1qreceiver");
            assert_eq!(reason, "Payjoin request timed out.");
        },
        _ => panic!("expected a failure event"),
    }
    assert!(outcome.broadcast.is_none());
    assert!(handler.get_relevant_txids().is_empty());
}

#[test]
fn sender_loop_reports_an_undecodable_proposal() {
    let mut handler = PayjoinHandler::new("https://relay.example".to_string());
    handler.best_block_updated(bh(1), 100);
    let replies = vec![RelayResponse::Failure, RelayResponse::Invalid, RelayResponse::Empty];
    let outcome = run_sender_loop(
        &mut handler,
        &original_psbt(),
        &"bcrt1qreceiver".to_string(),
        80_000,
        &replies,
        3,
    );
    assert_eq!(outcome.events.len(), 1);
    match &outcome.events[0] {
        Event::PayjoinPaymentFailed { reason, .. } => {
            assert_eq!(reason, "Failed to process Payjoin response.");
        },
        _ => panic!("expected a failure event"),
    }
    assert!(outcome.broadcast.is_none());
}

#[test]
fn send_receive_regular_payjoin_transaction() {
    // The receiver requests 80,000 sats and hands out a locator.
    let receiver = PayjoinPayment::new(
        Network::Regtest,
        None,
        Some(ReceiverConfig {
            address: "bcrt1qreceiver".to_string(),
            pj_endpoint: "https://relay.example/sub".to_string(),
        }),
    );
    let uri = receiver.receive(80_000).unwrap();
    let uri_string = uri.to_uri_string();
    // The sender accepts the locator; the amount comes from it.
    let sender = sender_payment();
    let session = sender.send(uri_string).unwrap();
    assert_eq!(session.amount_sats, 80_000);
    assert_eq!(session.uri.address, "bcrt1qreceiver");
    // The node drives the polling loop; the relay answers on the
    // second poll.
    let mut handler = PayjoinHandler::new("https://relay.example".to_string());
    handler.best_block_updated(bh(1), 100);
    let replies = vec![RelayResponse::Empty, proposal_reply()];
    let outcome = run_sender_loop(
        &mut handler,
        &original_psbt(),
        &session.uri.address,
        session.amount_sats,
        &replies,
        2,
    );
    // Exactly one pending event, with the negotiated transaction's id.
    assert_eq!(outcome.events.len(), 1);
    match &outcome.events[0] {
        Event::PayjoinPaymentPending { txid, amount, recipient } => {
            assert_eq!(*txid, tid(5));
            assert_eq!(*amount, 80_000);
            assert_eq!(recipient, "bcrt1qreceiver");
        },
        _ => panic!("expected a pending event"),
    }
    let tx = outcome.broadcast.unwrap();
    assert_eq!(tx.txid, tid(5));
    // After the confirmation and the safety delay, exactly one success
    // with the same id.
    handler.internal_transactions_confirmed(bh(2), &vec![tx], 101);
    assert!(handler.best_block_updated(bh(3), 101 + ANTI_REORG_DELAY - 1).is_empty());
    let events = handler.best_block_updated(bh(4), 101 + ANTI_REORG_DELAY);
    assert_eq!(events.len(), 1);
    match &events[0] {
        Event::PayjoinPaymentSuccess { txid, amount, recipient } => {
            assert_eq!(*txid, tid(5));
            assert_eq!(*amount, 80_000);
            assert_eq!(recipient, "bcrt1qreceiver");
        },
        _ => panic!("expected a success event"),
    }
    assert!(handler.best_block_updated(bh(4), 200).is_empty());
}

#[test]
fn missing_amount_is_rejected_synchronously() {
    // No amount in the call and none in the locator: the error comes
    // back from `send` itself, before any background work.
    let sender = sender_payment();
    let r = sender.send("bitcoin:bcrt1qreceiver?pj=https://relay.example/sub".to_string());
    assert!(matches!(r, Err(Error::PayjoinRequestMissingAmount)));
}

#[test]
fn send_payjoin_with_amount() {
    // An explicit amount overrides the whole bitcoin the locator asks for.
    let sender = sender_payment();
    let session = sender
        .send_with_amount(
            "bitcoin:bcrt1qreceiver?amount=1&pj=https://relay.example/sub".to_string(),
            80_000,
        )
        .unwrap();
    assert_eq!(session.amount_sats, 80_000);
    assert_eq!(session.uri.amount_sats, Some(80_000));
}

#[test]
fn send_checks_configuration_and_locator() {
    let no_sender = PayjoinPayment::new(Network::Regtest, None, None);
    assert!(matches!(
        no_sender.send("bitcoin:bcrt1q?amount=1&pj=x".to_string()),
        Err(Error::PayjoinUnavailable)
    ));
    let sender = sender_payment();
    assert!(matches!(
        sender.send("not a locator".to_string()),
        Err(Error::PayjoinUriInvalid)
    ));
    assert!(matches!(
        sender.send("bitcoin:bc1qmainnet?amount=1&pj=x".to_string()),
        Err(Error::InvalidNetwork)
    ));
    let no_receiver = sender_payment();
    assert!(matches!(no_receiver.receive(1), Err(Error::PayjoinReceiverUnavailable)));
}

#[test]
fn tracked_transaction_getters() {
    let first = PayjoinTransaction::PendingFirstConfirmation {
        tx: Transaction { txid: tid(3), input: Vec::new(), output: Vec::new() },
        receiver: "bcrt1qreceiver".to_string(),
        amount: 4_200,
        first_broadcast_height: 90,
        first_broadcast_hash: bh(1),
    };
    assert_eq!(first.txid(), Some(tid(3)));
    assert_eq!(first.amount(), 4_200);
    assert_eq!(first.receiver(), "bcrt1qreceiver");
    assert_eq!(first.first_confirmation_height(), None);
    let thresh = PayjoinTransaction::PendingThresholdConfirmations {
        tx: Transaction { txid: tid(3), input: Vec::new(), output: Vec::new() },
        receiver: "bcrt1qreceiver".to_string(),
        amount: 4_200,
        first_broadcast_height: 90,
        first_broadcast_hash: bh(1),
        first_confirmation_height: 95,
        first_confirmation_hash: bh(2),
    };
    assert_eq!(thresh.txid(), Some(tid(3)));
    assert_eq!(thresh.first_confirmation_height(), Some(95));
}
