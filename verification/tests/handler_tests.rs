use payjoin_engine::events::Event;
use payjoin_engine::handler::{PayjoinHandler, ANTI_REORG_DELAY};
use payjoin_engine::types::{BlockHash, OutPoint, Psbt, PsbtInput, Transaction, TxId, TxIn, TxOut};

fn tid(n: u8) -> TxId {
    TxId { hi: n as u128, lo: 0 }
}

fn bh(n: u8) -> BlockHash {
    BlockHash { hi: 0, lo: n as u128 }
}

fn p2wpkh_script(seed: u8) -> Vec<u8> {
    let mut v = vec![0x00u8, 0x14];
    v.extend(std::iter::repeat(seed).take(20));
    v
}

/// A signed proposal paying this node 80,000 sats on its first output.
fn proposal_psbt(txid: TxId) -> Psbt {
    Psbt {
        unsigned_tx: Transaction {
            txid,
            input: vec![TxIn { previous_output: OutPoint { txid: tid(2), vout: 0 } }],
            output: vec![TxOut { value: 80_000, script_pubkey: p2wpkh_script(0xaa) }],
        },
        inputs: vec![PsbtInput { witness_utxo: None, non_witness_utxo: None }],
    }
}

fn confirmed(txid: TxId) -> Vec<Transaction> {
    vec![Transaction { txid, input: Vec::new(), output: Vec::new() }]
}

fn finalise(handler: &mut PayjoinHandler, txid: TxId) {
    let mut proposal = proposal_psbt(txid);
    let original = proposal_psbt(txid);
    handler
        .finalise_payjoin_transaction(
            &mut proposal,
            &original,
            &"bcrt1qreceiver".to_string(),
            80_000,
            &vec![true],
            true,
        )
        .unwrap();
}

#[test]
fn finalise_requires_a_known_tip_and_an_owned_output() {
    let mut handler = PayjoinHandler::new("https://relay.example".to_string());
    let mut proposal = proposal_psbt(tid(1));
    let original = proposal_psbt(tid(1));
    // No chain tip was seen yet: the node cannot track anything.
    assert!(handler
        .finalise_payjoin_transaction(
            &mut proposal,
            &original,
            &"bcrt1qreceiver".to_string(),
            80_000,
            &vec![true],
            true,
        )
        .is_err());
    let events = handler.best_block_updated(bh(1), 100);
    assert!(events.is_empty());
    // A transaction paying the node nothing is rejected outright.
    let mut proposal = proposal_psbt(tid(1));
    assert!(handler
        .finalise_payjoin_transaction(
            &mut proposal,
            &original,
            &"bcrt1qreceiver".to_string(),
            80_000,
            &vec![false],
            true,
        )
        .is_err());
    // A signing failure ends the attempt.
    let mut proposal = proposal_psbt(tid(1));
    assert!(handler
        .finalise_payjoin_transaction(
            &mut proposal,
            &original,
            &"bcrt1qreceiver".to_string(),
            80_000,
            &vec![true],
            false,
        )
        .is_err());
    // With a tip, an owned output and a signature, tracking begins.
    let mut proposal = proposal_psbt(tid(1));
    let (tx, reg) = handler
        .finalise_payjoin_transaction(
            &mut proposal,
            &original,
            &"bcrt1qreceiver".to_string(),
            80_000,
            &vec![true],
            true,
        )
        .unwrap();
    assert_eq!(tx.txid, tid(1));
    assert_eq!(reg.txid, tid(1));
    assert_eq!(reg.script_pubkey, p2wpkh_script(0xaa));
    // The same transaction cannot enter the tracked set twice.
    let mut proposal = proposal_psbt(tid(1));
    assert!(handler
        .finalise_payjoin_transaction(
            &mut proposal,
            &original,
            &"bcrt1qreceiver".to_string(),
            80_000,
            &vec![true],
            true,
        )
        .is_err());
}

#[test]
fn success_fires_only_at_the_settled_depth_and_only_once() {
    let mut handler = PayjoinHandler::new("https://relay.example".to_string());
    assert!(handler.best_block_updated(bh(1), 100).is_empty());
    finalise(&mut handler, tid(1));
    // Tip updates before any confirmation never settle the payment.
    assert!(handler.best_block_updated(bh(2), 150).is_empty());
    // First confirmation at height 151.
    handler.internal_transactions_confirmed(bh(3), &confirmed(tid(1)), 151);
    assert_eq!(handler.get_relevant_txids(), vec![(tid(1), 151, Some(bh(3)))]);
    // One block short of the safety delay: nothing yet.
    assert!(handler.best_block_updated(bh(4), 151 + ANTI_REORG_DELAY - 1).is_empty());
    // At the safety depth: exactly one success, with the payment's facts.
    let events = handler.best_block_updated(bh(5), 151 + ANTI_REORG_DELAY);
    assert_eq!(events.len(), 1);
    match &events[0] {
        Event::PayjoinPaymentSuccess { txid, amount, recipient } => {
            assert_eq!(*txid, tid(1));
            assert_eq!(*amount, 80_000);
            assert_eq!(recipient, "bcrt1qreceiver");
        },
        _ => panic!("expected a success event"),
    }
    // The settled transaction left the tracked set.
    assert!(handler.get_relevant_txids().is_empty());
}

#[test]
fn repeating_a_tip_update_emits_nothing_new() {
    let mut handler = PayjoinHandler::new("https://relay.example".to_string());
    handler.best_block_updated(bh(1), 100);
    finalise(&mut handler, tid(1));
    handler.internal_transactions_confirmed(bh(2), &confirmed(tid(1)), 101);
    let first = handler.best_block_updated(bh(3), 101 + ANTI_REORG_DELAY);
    assert_eq!(first.len(), 1);
    let second = handler.best_block_updated(bh(3), 101 + ANTI_REORG_DELAY);
    assert!(second.is_empty());
}

#[test]
fn confirmations_only_advance_matching_transactions() {
    let mut handler = PayjoinHandler::new("https://relay.example".to_string());
    handler.best_block_updated(bh(1), 100);
    finalise(&mut handler, tid(1));
    finalise(&mut handler, tid(7));
    // A confirmation for an untracked transaction is ignored.
    handler.internal_transactions_confirmed(bh(2), &confirmed(tid(5)), 101);
    assert!(handler.get_relevant_txids().is_empty());
    // Only the matching entry advances.
    handler.internal_transactions_confirmed(bh(2), &confirmed(tid(7)), 101);
    assert_eq!(handler.get_relevant_txids(), vec![(tid(7), 101, Some(bh(2)))]);
    // An already advanced entry stays as it was.
    handler.internal_transactions_confirmed(bh(6), &confirmed(tid(7)), 109);
    assert_eq!(handler.get_relevant_txids(), vec![(tid(7), 101, Some(bh(2)))]);
    // The sweep settles only the confirmed transaction.
    let events = handler.best_block_updated(bh(4), 101 + ANTI_REORG_DELAY);
    assert_eq!(events.len(), 1);
    match &events[0] {
        Event::PayjoinPaymentSuccess { txid, .. } => assert_eq!(*txid, tid(7)),
        _ => panic!("expected a success event"),
    }
    // The unconfirmed payment is still being watched.
    handler.internal_transactions_confirmed(bh(7), &confirmed(tid(1)), 110);
    assert_eq!(handler.get_relevant_txids(), vec![(tid(1), 110, Some(bh(7)))]);
}

#[test]
fn relay_and_tracked_getters() {
    let handler = PayjoinHandler::new("https://relay.example".to_string());
    assert_eq!(handler.payjoin_relay(), "https://relay.example");
    assert!(!handler.contains_txid(tid(1)));
}

#[test]
fn a_tip_below_the_first_confirmation_settles_nothing() {
    // A reorganisation can briefly leave the best tip below a recorded
    // confirmation height; the sweep must simply retain the entry.
    let mut handler = PayjoinHandler::new("https://relay.example".to_string());
    handler.best_block_updated(bh(1), 100);
    finalise(&mut handler, tid(1));
    handler.internal_transactions_confirmed(bh(2), &confirmed(tid(1)), 151);
    assert!(handler.best_block_updated(bh(3), 100).is_empty());
    assert_eq!(handler.get_relevant_txids(), vec![(tid(1), 151, Some(bh(2)))]);
}
