use payjoin_engine::error::ProtocolError;
use payjoin_engine::receive::{
    HeaderEntry, Proposal, Receiver, RequestHeaders, SenderFeeParams, ValidationDecisions,
};
use payjoin_engine::select::CandidateUtxo;
use payjoin_engine::types::{OutPoint, Psbt, PsbtInput, Transaction, TxId, TxIn, TxOut};

fn tid(n: u8) -> TxId {
    TxId { hi: n as u128, lo: 0 }
}

fn p2wpkh_script(seed: u8) -> Vec<u8> {
    let mut v = vec![0x00u8, 0x14];
    v.extend(std::iter::repeat(seed).take(20));
    v
}

fn p2sh_script(seed: u8) -> Vec<u8> {
    let mut v = vec![0xa9u8, 0x14];
    v.extend(std::iter::repeat(seed).take(20));
    v.push(0x87);
    v
}

fn good_headers(body_len: usize) -> RequestHeaders {
    RequestHeaders {
        entries: vec![
            HeaderEntry { name: "content-type".to_string(), value: "text/plain".to_string() },
            HeaderEntry { name: "content-length".to_string(), value: body_len.to_string() },
        ],
    }
}

/// A one-input, two-output proposal: 100,000 sats in, 80,000 to the
/// receiver, 19,000 change back to the sender.
fn sample_psbt() -> Psbt {
    Psbt {
        unsigned_tx: Transaction {
            txid: tid(1),
            input: vec![TxIn {
                previous_output: OutPoint { txid: tid(2), vout: 0 },
            }],
            output: vec![
                TxOut { value: 80_000, script_pubkey: p2wpkh_script(0xaa) },
                TxOut { value: 19_000, script_pubkey: p2wpkh_script(0xbb) },
            ],
        },
        inputs: vec![PsbtInput {
            witness_utxo: Some(TxOut { value: 100_000, script_pubkey: p2wpkh_script(0xcc) }),
            non_witness_utxo: None,
        }],
    }
}

fn accept_all() -> ValidationDecisions {
    ValidationDecisions {
        can_broadcast: true,
        input_owned: vec![false],
        input_seen: vec![false],
        output_owned: vec![true, false],
    }
}

fn no_fee_params() -> SenderFeeParams {
    SenderFeeParams { max_additional_fee_contribution: 0, additional_fee_output_index: None }
}

fn sample_candidates() -> Vec<CandidateUtxo> {
    vec![CandidateUtxo {
        value: 50_000,
        outpoint: OutPoint { txid: tid(9), vout: 0 },
        script_pubkey: p2wpkh_script(0xdd),
    }]
}

#[test]
fn accepted_request_is_augmented_substituted_and_fee_adjusted() {
    let r = Receiver::handle_pj_request(
        sample_psbt(),
        100,
        &good_headers(100),
        &accept_all(),
        &sample_candidates(),
        p2wpkh_script(0xee),
        1,
        no_fee_params(),
        true,
    )
    .unwrap();
    // Exactly one input was contributed, and it spends the selected coin.
    assert_eq!(r.unsigned_tx.input.len(), 2);
    assert_eq!(r.unsigned_tx.input[1].previous_output, OutPoint { txid: tid(9), vout: 0 });
    assert_eq!(r.inputs.len(), 2);
    let contributed = r.inputs[1].witness_utxo.as_ref().unwrap();
    assert_eq!(contributed.value, 50_000);
    assert_eq!(contributed.script_pubkey, p2wpkh_script(0xdd));
    // The receiver's output was substituted and charged the fee for one
    // contributed input at one satoshi per virtual byte.
    assert_eq!(r.unsigned_tx.output[0].script_pubkey, p2wpkh_script(0xee));
    assert_eq!(r.unsigned_tx.output[0].value, 80_000 - 68);
    // The sender's change output is untouched.
    assert_eq!(r.unsigned_tx.output[1].value, 19_000);
    assert_eq!(r.unsigned_tx.output[1].script_pubkey, p2wpkh_script(0xbb));
}

#[test]
fn selection_failure_is_not_fatal() {
    // No candidates at all: the proposal goes through without a
    // receiver input, on substitution alone, and pays no input fee.
    let r = Receiver::handle_pj_request(
        sample_psbt(),
        100,
        &good_headers(100),
        &accept_all(),
        &Vec::new(),
        p2wpkh_script(0xee),
        1,
        no_fee_params(),
        true,
    )
    .unwrap();
    assert_eq!(r.unsigned_tx.input.len(), 1);
    assert_eq!(r.unsigned_tx.output[0].value, 80_000);
    assert_eq!(r.unsigned_tx.output[0].script_pubkey, p2wpkh_script(0xee));
}

#[test]
fn conspicuous_candidates_are_passed_over() {
    // A 5,000-sat candidate fails the unnecessary-input check here
    // (min(100000, 5000) = 5000 is not above min(19000, 85000) = 19000),
    // so the selector must skip it and take the 50,000-sat coin.
    let candidates = vec![
        CandidateUtxo {
            value: 5_000,
            outpoint: OutPoint { txid: tid(8), vout: 1 },
            script_pubkey: p2wpkh_script(0x11),
        },
        CandidateUtxo {
            value: 50_000,
            outpoint: OutPoint { txid: tid(9), vout: 0 },
            script_pubkey: p2wpkh_script(0xdd),
        },
    ];
    let r = Receiver::handle_pj_request(
        sample_psbt(),
        100,
        &good_headers(100),
        &accept_all(),
        &candidates,
        p2wpkh_script(0xee),
        1,
        no_fee_params(),
        true,
    )
    .unwrap();
    assert_eq!(r.unsigned_tx.input.len(), 2);
    assert_eq!(r.unsigned_tx.input[1].previous_output, OutPoint { txid: tid(9), vout: 0 });
}

#[test]
fn every_rejection_is_byte_identical() {
    // Failures at different stages must be indistinguishable on the
    // wire, or a probing sender could map the receiver's wallet.
    let bad_header = Receiver::handle_pj_request(
        sample_psbt(),
        100,
        &RequestHeaders { entries: Vec::new() },
        &accept_all(),
        &sample_candidates(),
        p2wpkh_script(0xee),
        1,
        no_fee_params(),
        true,
    )
    .unwrap_err();
    let mut own_input = accept_all();
    own_input.input_owned = vec![true];
    let owned = Receiver::handle_pj_request(
        sample_psbt(),
        100,
        &good_headers(100),
        &own_input,
        &sample_candidates(),
        p2wpkh_script(0xee),
        1,
        no_fee_params(),
        true,
    )
    .unwrap_err();
    let mut not_broadcastable = accept_all();
    not_broadcastable.can_broadcast = false;
    let unsuitable = Receiver::handle_pj_request(
        sample_psbt(),
        100,
        &good_headers(100),
        &not_broadcastable,
        &sample_candidates(),
        p2wpkh_script(0xee),
        1,
        no_fee_params(),
        true,
    )
    .unwrap_err();
    assert_eq!(bad_header.response_body(), owned.response_body());
    assert_eq!(owned.response_body(), unsuitable.response_body());
    assert_eq!(unsuitable.response_body(), ProtocolError.response_body());
}

#[test]
fn each_check_advances_exactly_one_stage() {
    let p = Proposal::from_request(sample_psbt(), 100, &good_headers(100)).unwrap();
    assert!(matches!(p, Proposal::Unchecked { .. }));
    let p = p.check_broadcast_suitability(true).unwrap();
    assert!(matches!(p, Proposal::BroadcastChecked { .. }));
    let p = p.check_inputs_not_owned(&vec![false]).unwrap();
    assert!(matches!(p, Proposal::InputsNotOwnedChecked { .. }));
    let p = p.check_no_mixed_input_scripts().unwrap();
    assert!(matches!(p, Proposal::UniformScriptsChecked { .. }));
    let p = p.check_no_inputs_seen_before(&vec![false]).unwrap();
    assert!(matches!(p, Proposal::InputsUnseenChecked { .. }));
    let p = p.identify_receiver_outputs(&vec![true, false]).unwrap();
    assert!(matches!(p, Proposal::OutputsIdentified { .. }));
    let p = p.begin_provisional();
    assert!(matches!(p, Proposal::Provisional { .. }));
    let p = p.finalize_proposal(1, false, no_fee_params(), true).unwrap();
    assert!(matches!(p, Proposal::Finalized { .. }));
}

#[test]
fn framing_is_checked() {
    // Declared length must match the body.
    let p = Proposal::from_request(sample_psbt(), 99, &good_headers(100));
    assert!(p.is_err());
    // Content type must be the protocol's.
    let mut h = good_headers(100);
    h.entries[0].value = "application/json".to_string();
    assert!(Proposal::from_request(sample_psbt(), 100, &h).is_err());
    // Oversized bodies are refused.
    let h = good_headers(70_000);
    assert!(Proposal::from_request(sample_psbt(), 70_000, &h).is_err());
}

#[test]
fn mixed_input_scripts_are_rejected() {
    let mut psbt = sample_psbt();
    psbt.unsigned_tx.input.push(TxIn { previous_output: OutPoint { txid: tid(3), vout: 1 } });
    psbt.inputs.push(PsbtInput {
        witness_utxo: Some(TxOut { value: 30_000, script_pubkey: p2sh_script(0x22) }),
        non_witness_utxo: None,
    });
    let mut d = accept_all();
    d.input_owned = vec![false, false];
    d.input_seen = vec![false, false];
    let r = Receiver::handle_pj_request(
        psbt,
        100,
        &good_headers(100),
        &d,
        &sample_candidates(),
        p2wpkh_script(0xee),
        1,
        no_fee_params(),
        true,
    );
    assert!(r.is_err());
}

#[test]
fn seen_inputs_and_foreign_payments_are_rejected() {
    let mut seen = accept_all();
    seen.input_seen = vec![true];
    assert!(Receiver::handle_pj_request(
        sample_psbt(),
        100,
        &good_headers(100),
        &seen,
        &sample_candidates(),
        p2wpkh_script(0xee),
        1,
        no_fee_params(),
        true,
    )
    .is_err());
    // A transaction paying the receiver nothing cannot be a payment.
    let mut foreign = accept_all();
    foreign.output_owned = vec![false, false];
    assert!(Receiver::handle_pj_request(
        sample_psbt(),
        100,
        &good_headers(100),
        &foreign,
        &sample_candidates(),
        p2wpkh_script(0xee),
        1,
        no_fee_params(),
        true,
    )
    .is_err());
}

#[test]
fn signing_failure_rejects_the_request() {
    assert!(Receiver::handle_pj_request(
        sample_psbt(),
        100,
        &good_headers(100),
        &accept_all(),
        &sample_candidates(),
        p2wpkh_script(0xee),
        1,
        no_fee_params(),
        false,
    )
    .is_err());
}

fn stage_of(p: &Proposal) -> u32 {
    match p {
        Proposal::Unchecked { .. } => 0,
        Proposal::BroadcastChecked { .. } => 1,
        Proposal::InputsNotOwnedChecked { .. } => 2,
        Proposal::UniformScriptsChecked { .. } => 3,
        Proposal::InputsUnseenChecked { .. } => 4,
        Proposal::OutputsIdentified { .. } => 5,
        Proposal::Provisional { .. } => 6,
        Proposal::Finalized { .. } => 7,
    }
}

#[test]
fn stage_progression_is_monotonic_for_all_verdicts() {
    // Whatever the node answers at each check, an accepted proposal
    // advances exactly one stage at a time and never falls back.
    for verdicts in 0u32..32 {
        let can_broadcast = verdicts & 1 != 0;
        let input_owned = verdicts & 2 != 0;
        let input_seen = verdicts & 4 != 0;
        let output_owned = verdicts & 8 != 0;
        let sign_ok = verdicts & 16 != 0;
        let p = Proposal::from_request(sample_psbt(), 100, &good_headers(100)).unwrap();
        assert_eq!(stage_of(&p), 0);
        let p = match p.check_broadcast_suitability(can_broadcast) {
            Ok(p) => p,
            Err(_) => continue,
        };
        assert_eq!(stage_of(&p), 1);
        let p = match p.check_inputs_not_owned(&vec![input_owned]) {
            Ok(p) => p,
            Err(_) => continue,
        };
        assert_eq!(stage_of(&p), 2);
        let p = match p.check_no_mixed_input_scripts() {
            Ok(p) => p,
            Err(_) => continue,
        };
        assert_eq!(stage_of(&p), 3);
        let p = match p.check_no_inputs_seen_before(&vec![input_seen]) {
            Ok(p) => p,
            Err(_) => continue,
        };
        assert_eq!(stage_of(&p), 4);
        let p = match p.identify_receiver_outputs(&vec![output_owned, false]) {
            Ok(p) => p,
            Err(_) => continue,
        };
        assert_eq!(stage_of(&p), 5);
        let p = p.begin_provisional();
        assert_eq!(stage_of(&p), 6);
        let p = match p.finalize_proposal(1, false, no_fee_params(), sign_ok) {
            Ok(p) => p,
            Err(_) => continue,
        };
        assert_eq!(stage_of(&p), 7);
    }
}

#[test]
fn sender_fee_parameters_shift_part_of_the_fee() {
    // The sender designates its change output and allows up to 50 sats
    // towards the receiver's input fee; the receiver's output bears the
    // remaining 18 of the 68-sat fee.
    let params = SenderFeeParams {
        max_additional_fee_contribution: 50,
        additional_fee_output_index: Some(1),
    };
    let r = Receiver::handle_pj_request(
        sample_psbt(),
        100,
        &good_headers(100),
        &accept_all(),
        &sample_candidates(),
        p2wpkh_script(0xee),
        1,
        params,
        true,
    )
    .unwrap();
    assert_eq!(r.unsigned_tx.output[0].value, 80_000 - 18);
    assert_eq!(r.unsigned_tx.output[1].value, 19_000 - 50);
    // A declared index out of range, or pointing at the receiver's own
    // output, contributes nothing.
    let bad = SenderFeeParams {
        max_additional_fee_contribution: 50,
        additional_fee_output_index: Some(0),
    };
    let r = Receiver::handle_pj_request(
        sample_psbt(),
        100,
        &good_headers(100),
        &accept_all(),
        &sample_candidates(),
        p2wpkh_script(0xee),
        1,
        bad,
        true,
    )
    .unwrap();
    assert_eq!(r.unsigned_tx.output[0].value, 80_000 - 68);
    assert_eq!(r.unsigned_tx.output[1].value, 19_000);
}

#[test]
fn legacy_inputs_enter_the_privacy_minimum() {
    // An input declaring only its previous transaction still counts:
    // its 100,000-sat spent output keeps the smallest input above the
    // smallest output, so the 50,000-sat candidate stays acceptable.
    let mut psbt = sample_psbt();
    psbt.inputs[0] = PsbtInput {
        witness_utxo: None,
        non_witness_utxo: Some(Transaction {
            txid: tid(2),
            input: Vec::new(),
            output: vec![TxOut { value: 100_000, script_pubkey: p2wpkh_script(0xcc) }],
        }),
    };
    let r = Receiver::handle_pj_request(
        psbt,
        100,
        &good_headers(100),
        &accept_all(),
        &sample_candidates(),
        p2wpkh_script(0xee),
        1,
        no_fee_params(),
        true,
    )
    .unwrap();
    assert_eq!(r.unsigned_tx.input.len(), 2);
    assert_eq!(r.unsigned_tx.input[1].previous_output, OutPoint { txid: tid(9), vout: 0 });
}
