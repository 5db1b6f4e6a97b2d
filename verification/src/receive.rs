//! The receiver's validation pipeline.
//!
//! An incoming proposal is untrusted: it may be consensus-invalid, try to
//! make the receiver sign its own coins, probe for the receiver's wallet,
//! or leak the pairing through mixed script types. The pipeline walks the
//! proposal through a fixed sequence of stages; each check either fails
//! closed — with the one generic rejection, whatever went wrong — or
//! advances the proposal exactly one stage, never further and never back.
//!
//! The decisions only the surrounding node can make (can this
//! transaction be broadcast, is this script mine, was this input seen
//! before) are handed in as plain verdicts; the pipeline owns the order
//! of the checks and what each one means.

use vstd::prelude::*;

use crate::error::ProtocolError;
use crate::handler::{first_true, first_true_exec};
use crate::select::{select_spec, try_preserving_privacy, CandidateUtxo, CandidateUtxoV};
use crate::types::{
    dup_bytes, dv_push, dv_set, OutPoint, Psbt, PsbtInput, PsbtInputV, PsbtV, TransactionV, TxIn,
    TxOut, TxOutV,
};
use crate::uri::parse_u64_chars;
use crate::uri::parse_u64_str;

verus! {

/// The largest request body the receiver accepts, in bytes.
pub const MAX_CONTENT_LENGTH: usize = 65536;

/// One protocol header of the incoming request.
#[derive(Debug)]
pub struct HeaderEntry {
    pub name: String,
    pub value: String,
}

/// Mathematical view of a [`HeaderEntry`].
#[verifier::ext_equal]
pub struct HeaderEntryV {
    pub name: Seq<char>,
    pub value: Seq<char>,
}

impl View for HeaderEntry {
    type V = HeaderEntryV;

    open spec fn view(&self) -> HeaderEntryV {
        HeaderEntryV { name: self.name@, value: self.value@ }
    }
}

impl DeepView for HeaderEntry {
    type V = HeaderEntryV;

    open spec fn deep_view(&self) -> HeaderEntryV {
        self.view()
    }
}

/// The protocol headers of an incoming request.
#[derive(Debug)]
pub struct RequestHeaders {
    pub entries: Vec<HeaderEntry>,
}

impl View for RequestHeaders {
    type V = Seq<HeaderEntryV>;

    open spec fn view(&self) -> Seq<HeaderEntryV> {
        self.entries.deep_view()
    }
}

/// The value of the first header with the given name, if any.
pub open spec fn header_lookup(hs: Seq<HeaderEntryV>, name: Seq<char>) -> Option<Seq<char>>
    decreases hs.len(),
{
    if hs.len() == 0 {
        None
    } else if hs[0].name == name {
        Some(hs[0].value)
    } else {
        header_lookup(hs.skip(1), name)
    }
}

impl RequestHeaders {
    /// Looks a header up by name.
    #[verifier::loop_isolation(false)]
    pub fn get_header(&self, key: &String) -> (r: Option<&String>)
        ensures
            match r {
                Some(v) => header_lookup(self@, key@) == Some(v@),
                None => header_lookup(self@, key@) is None,
            },
    {
        let ghost hs = self@;
        proof {
            assert(hs.skip(0) =~= hs);
        }
        let mut i: usize = 0;
        while i < self.entries.len()
            invariant
                0 <= i <= self.entries@.len(),
                hs == self@,
                header_lookup(hs.skip(i as int), key@) == header_lookup(hs, key@),
            decreases self.entries@.len() - i,
        {
            proof {
                assert(hs.skip(i as int)[0] == hs[i as int]);
                assert(hs[i as int] == self.entries@[i as int]@);
                assert(hs.skip(i as int).skip(1) =~= hs.skip(i + 1 as int));
            }
            if self.entries[i].name.eq(key) {
                return Some(&self.entries[i].value);
            }
            i += 1;
        }
        proof {
            assert(hs.skip(self.entries@.len() as int) =~= Seq::<HeaderEntryV>::empty());
        }
        None
    }
}

/// Whether a request's headers announce a body of the given length, with
/// the protocol's content type and within the accepted size.
pub open spec fn headers_ok(hs: Seq<HeaderEntryV>, body_len: usize) -> bool {
    &&& header_lookup(hs, "content-type"@) == Some("text/plain"@)
    &&& match header_lookup(hs, "content-length"@) {
        Some(v) => parse_u64_chars(v) == Some(body_len as u64),
        None => false,
    }
    &&& body_len <= MAX_CONTENT_LENGTH
}

/// The standard script shapes an output can pay to.
#[derive(Clone, Copy, PartialEq, Eq, Structural, Debug)]
pub enum ScriptType {
    P2pkh,
    P2sh,
    P2wpkh,
    P2wsh,
    P2tr,
    Unknown,
}

/// Classifies a script by its shape.
pub open spec fn script_type(s: Seq<u8>) -> ScriptType {
    if s.len() == 25 && s[0] == 0x76 && s[1] == 0xa9 && s[2] == 0x14 && s[23] == 0x88 && s[24]
        == 0xac {
        ScriptType::P2pkh
    } else if s.len() == 23 && s[0] == 0xa9 && s[1] == 0x14 && s[22] == 0x87 {
        ScriptType::P2sh
    } else if s.len() == 22 && s[0] == 0x00 && s[1] == 0x14 {
        ScriptType::P2wpkh
    } else if s.len() == 34 && s[0] == 0x00 && s[1] == 0x20 {
        ScriptType::P2wsh
    } else if s.len() == 34 && s[0] == 0x51 && s[1] == 0x20 {
        ScriptType::P2tr
    } else {
        ScriptType::Unknown
    }
}

/// Classifies a script, at runtime.
pub fn script_type_exec(s: &Vec<u8>) -> (r: ScriptType)
    ensures
        r == script_type(s@),
{
    let n = s.len();
    if n == 25 && s[0] == 0x76 && s[1] == 0xa9 && s[2] == 0x14 && s[23] == 0x88 && s[24] == 0xac {
        ScriptType::P2pkh
    } else if n == 23 && s[0] == 0xa9 && s[1] == 0x14 && s[22] == 0x87 {
        ScriptType::P2sh
    } else if n == 22 && s[0] == 0x00 && s[1] == 0x14 {
        ScriptType::P2wpkh
    } else if n == 34 && s[0] == 0x00 && s[1] == 0x20 {
        ScriptType::P2wsh
    } else if n == 34 && s[0] == 0x51 && s[1] == 0x20 {
        ScriptType::P2tr
    } else {
        ScriptType::Unknown
    }
}

/// The script type an input declares, where it declares one.
pub open spec fn input_script_type(inp: PsbtInputV) -> Option<ScriptType> {
    match inp.witness_utxo {
        Some(o) => Some(script_type(o.script_pubkey)),
        None => None,
    }
}

/// Whether every input that declares a script type declares the same
/// one: mixed types would let an observer split the inputs into the two
/// parties' wallets.
pub open spec fn uniform_scripts(inputs: Seq<PsbtInputV>) -> bool {
    forall|i: int, j: int|
        0 <= i < inputs.len() && 0 <= j < inputs.len() ==> (match (
            #[trigger] input_script_type(inputs[i]),
            #[trigger] input_script_type(inputs[j]),
        ) {
            (Some(a), Some(b)) => a == b,
            _ => true,
        })
}

/// The indexes of the set flags, in order: which outputs the receiver
/// recognised as its own.
pub open spec fn owned_indexes(flags: Seq<bool>) -> Seq<usize>
    decreases flags.len(),
{
    if flags.len() == 0 {
        Seq::empty()
    } else {
        let rest = owned_indexes(flags.drop_last());
        if flags.last() {
            rest.push((flags.len() - 1) as usize)
        } else {
            rest
        }
    }
}

/// Every recorded index is a set flag within range.
pub proof fn lemma_owned_indexes(flags: Seq<bool>)
    requires
        flags.len() <= usize::MAX,
    ensures
        forall|k: int|
            #![trigger owned_indexes(flags)[k]]
            0 <= k < owned_indexes(flags).len() ==> (owned_indexes(flags)[k] as int) < flags.len()
                && flags[owned_indexes(flags)[k] as int],
    decreases flags.len(),
{
    if flags.len() > 0 {
        lemma_owned_indexes(flags.drop_last());
        let rest = owned_indexes(flags.drop_last());
        assert forall|k: int|
            #![trigger owned_indexes(flags)[k]]
            0 <= k < owned_indexes(flags).len() implies (owned_indexes(flags)[k] as int) < flags.len()
            && flags[owned_indexes(flags)[k] as int] by {
            if k < rest.len() {
                assert(owned_indexes(flags)[k] == rest[k]);
                assert(flags.drop_last()[rest[k] as int]);
            }
        }
    }
}

/// An incoming proposal, at one of the stages of its validation.
///
/// A proposal only ever moves forward through these stages, one at a
/// time; each variant carries only what earlier checks established.
#[derive(Debug)]
pub enum Proposal {
    /// Raw material: nothing verified beyond the request's framing.
    Unchecked { psbt: Psbt },
    /// The transaction is consensus-valid and broadcastable.
    BroadcastChecked { psbt: Psbt },
    /// None of the declared inputs belongs to the receiver.
    InputsNotOwnedChecked { psbt: Psbt },
    /// All inputs share one script type.
    UniformScriptsChecked { psbt: Psbt },
    /// No input was seen in an earlier request.
    InputsUnseenChecked { psbt: Psbt },
    /// The receiver's own outputs are identified.
    OutputsIdentified { psbt: Psbt, owned_vouts: Vec<usize> },
    /// The mutable working proposal: inputs may be contributed and one
    /// receiver output substituted.
    Provisional { psbt: Psbt, owned_vouts: Vec<usize> },
    /// Fee-adjusted and signed, ready to serialise as the response.
    Finalized { psbt: Psbt },
}

/// Mathematical view of a [`Proposal`].
#[verifier::ext_equal]
pub enum ProposalV {
    Unchecked { psbt: PsbtV },
    BroadcastChecked { psbt: PsbtV },
    InputsNotOwnedChecked { psbt: PsbtV },
    UniformScriptsChecked { psbt: PsbtV },
    InputsUnseenChecked { psbt: PsbtV },
    OutputsIdentified { psbt: PsbtV, owned_vouts: Seq<usize> },
    Provisional { psbt: PsbtV, owned_vouts: Seq<usize> },
    Finalized { psbt: PsbtV },
}

impl View for Proposal {
    type V = ProposalV;

    open spec fn view(&self) -> ProposalV {
        match self {
            Proposal::Unchecked { psbt } => ProposalV::Unchecked { psbt: psbt@ },
            Proposal::BroadcastChecked { psbt } => ProposalV::BroadcastChecked { psbt: psbt@ },
            Proposal::InputsNotOwnedChecked { psbt } => ProposalV::InputsNotOwnedChecked {
                psbt: psbt@,
            },
            Proposal::UniformScriptsChecked { psbt } => ProposalV::UniformScriptsChecked {
                psbt: psbt@,
            },
            Proposal::InputsUnseenChecked { psbt } => ProposalV::InputsUnseenChecked {
                psbt: psbt@,
            },
            Proposal::OutputsIdentified { psbt, owned_vouts } => ProposalV::OutputsIdentified {
                psbt: psbt@,
                owned_vouts: owned_vouts@,
            },
            Proposal::Provisional { psbt, owned_vouts } => ProposalV::Provisional {
                psbt: psbt@,
                owned_vouts: owned_vouts@,
            },
            Proposal::Finalized { psbt } => ProposalV::Finalized { psbt: psbt@ },
        }
    }
}

impl ProposalV {
    /// The position of a stage in the fixed progression.
    pub open spec fn stage_idx(self) -> int {
        match self {
            ProposalV::Unchecked { .. } => 0,
            ProposalV::BroadcastChecked { .. } => 1,
            ProposalV::InputsNotOwnedChecked { .. } => 2,
            ProposalV::UniformScriptsChecked { .. } => 3,
            ProposalV::InputsUnseenChecked { .. } => 4,
            ProposalV::OutputsIdentified { .. } => 5,
            ProposalV::Provisional { .. } => 6,
            ProposalV::Finalized { .. } => 7,
        }
    }

    /// The proposal's transaction, at any stage.
    pub open spec fn psbt(self) -> PsbtV {
        match self {
            ProposalV::Unchecked { psbt } => psbt,
            ProposalV::BroadcastChecked { psbt } => psbt,
            ProposalV::InputsNotOwnedChecked { psbt } => psbt,
            ProposalV::UniformScriptsChecked { psbt } => psbt,
            ProposalV::InputsUnseenChecked { psbt } => psbt,
            ProposalV::OutputsIdentified { psbt, .. } => psbt,
            ProposalV::Provisional { psbt, .. } => psbt,
            ProposalV::Finalized { psbt } => psbt,
        }
    }
}

impl Proposal {
    /// Accepts an incoming request as raw material for validation, when
    /// its framing is sound: the protocol's content type, and a declared
    /// length that matches the body and respects the size cap.
    pub fn from_request(psbt: Psbt, body_len: usize, headers: &RequestHeaders) -> (r: Result<
        Proposal,
        ProtocolError,
    >)
        ensures
            r is Ok <==> headers_ok(headers@, body_len),
            r matches Ok(p) ==> p@ == (ProposalV::Unchecked { psbt: psbt@ }),
    {
        let content_type = match headers.get_header(&"content-type".to_owned()) {
            Some(v) => v,
            None => {
                return Err(ProtocolError);
            },
        };
        if !content_type.eq(&"text/plain".to_owned()) {
            return Err(ProtocolError);
        }
        let content_length = match headers.get_header(&"content-length".to_owned()) {
            Some(v) => v,
            None => {
                return Err(ProtocolError);
            },
        };
        let declared = match parse_u64_str(content_length.as_str()) {
            Some(n) => n,
            None => {
                return Err(ProtocolError);
            },
        };
        if body_len > MAX_CONTENT_LENGTH || declared != body_len as u64 {
            return Err(ProtocolError);
        }
        Ok(Proposal::Unchecked { psbt })
    }

    /// The first check: is the transaction consensus-valid and worth
    /// broadcasting? The verdict comes from the node's policy.
    pub fn check_broadcast_suitability(self, can_broadcast: bool) -> (r: Result<
        Proposal,
        ProtocolError,
    >)
        requires
            self@ is Unchecked,
        ensures
            r is Ok <==> can_broadcast,
            r matches Ok(p) ==> p@ == (ProposalV::BroadcastChecked { psbt: self@.psbt() })
                && p@.stage_idx() == self@.stage_idx() + 1,
    {
        if !can_broadcast {
            return Err(ProtocolError);
        }
        match self {
            Proposal::Unchecked { psbt } => Ok(Proposal::BroadcastChecked { psbt }),
            _ => Err(ProtocolError),
        }
    }

    /// The second check: is the sender trying to make the receiver sign
    /// its own coins? One verdict per input, from the wallet.
    pub fn check_inputs_not_owned(self, input_owned: &Vec<bool>) -> (r: Result<
        Proposal,
        ProtocolError,
    >)
        requires
            self@ is BroadcastChecked,
            input_owned@.len() == self@.psbt().inputs.len(),
        ensures
            r is Ok <==> first_true(input_owned@) < 0,
            r matches Ok(p) ==> p@ == (ProposalV::InputsNotOwnedChecked { psbt: self@.psbt() })
                && p@.stage_idx() == self@.stage_idx() + 1,
    {
        match first_true_exec(input_owned) {
            Some(_) => Err(ProtocolError),
            None => match self {
                Proposal::BroadcastChecked { psbt } => Ok(
                    Proposal::InputsNotOwnedChecked { psbt },
                ),
                _ => Err(ProtocolError),
            },
        }
    }

    /// The third check: do the inputs mix script types, which would let
    /// an observer split them between the two parties?
    #[verifier::loop_isolation(false)]
    pub fn check_no_mixed_input_scripts(self) -> (r: Result<Proposal, ProtocolError>)
        requires
            self@ is InputsNotOwnedChecked,
        ensures
            r is Ok <==> uniform_scripts(self@.psbt().inputs),
            r matches Ok(p) ==> p@ == (ProposalV::UniformScriptsChecked { psbt: self@.psbt() })
                && p@.stage_idx() == self@.stage_idx() + 1,
    {
        let psbt = match self {
            Proposal::InputsNotOwnedChecked { psbt } => psbt,
            _ => {
                return Err(ProtocolError);
            },
        };
        let ghost dv = psbt.inputs.deep_view();
        let mut seen: Option<ScriptType> = None;
        let mut i: usize = 0;
        while i < psbt.inputs.len()
            invariant
                0 <= i <= psbt.inputs@.len(),
                dv == psbt.inputs.deep_view(),
                match seen {
                    Some(t) => exists|k: int|
                        0 <= k < i && input_script_type(dv[k]) == Some(t),
                    None => forall|k: int| 0 <= k < i ==> input_script_type(dv[k]) is None,
                },
                forall|a: int, b: int|
                    0 <= a < i && 0 <= b < i ==> (match (
                        #[trigger] input_script_type(dv[a]),
                        #[trigger] input_script_type(dv[b]),
                    ) {
                        (Some(x), Some(y)) => x == y,
                        _ => true,
                    }),
                match seen {
                    Some(t) => forall|k: int|
                        0 <= k < i ==> (match #[trigger] input_script_type(dv[k]) {
                            Some(x) => x == t,
                            None => true,
                        }),
                    None => true,
                },
            decreases psbt.inputs@.len() - i,
        {
            proof {
                assert(dv[i as int] == psbt.inputs@[i as int]@);
            }
            match &psbt.inputs[i].witness_utxo {
                Some(o) => {
                    let t = script_type_exec(&o.script_pubkey);
                    match seen {
                        Some(prev) => {
                            if t != prev {
                                return Err(ProtocolError);
                            }
                        },
                        None => {
                            seen = Some(t);
                        },
                    }
                },
                None => {},
            }
            i += 1;
        }
        Ok(Proposal::UniformScriptsChecked { psbt })
    }

    /// The fourth check: was any of these inputs seen in an earlier
    /// request? Answering a sender twice over the same input would let
    /// it collect two different responses and compare the receiver's
    /// contributions.
    pub fn check_no_inputs_seen_before(self, input_seen: &Vec<bool>) -> (r: Result<
        Proposal,
        ProtocolError,
    >)
        requires
            self@ is UniformScriptsChecked,
            input_seen@.len() == self@.psbt().inputs.len(),
        ensures
            r is Ok <==> first_true(input_seen@) < 0,
            r matches Ok(p) ==> p@ == (ProposalV::InputsUnseenChecked { psbt: self@.psbt() })
                && p@.stage_idx() == self@.stage_idx() + 1,
    {
        match first_true_exec(input_seen) {
            Some(_) => Err(ProtocolError),
            None => match self {
                Proposal::UniformScriptsChecked { psbt } => Ok(
                    Proposal::InputsUnseenChecked { psbt },
                ),
                _ => Err(ProtocolError),
            },
        }
    }

    /// The fifth check: which outputs pay the receiver? A transaction
    /// paying the receiver nothing is not a payment and is rejected.
    #[verifier::loop_isolation(false)]
    pub fn identify_receiver_outputs(self, output_owned: &Vec<bool>) -> (r: Result<
        Proposal,
        ProtocolError,
    >)
        requires
            self@ is InputsUnseenChecked,
            output_owned@.len() == self@.psbt().unsigned_tx.output.len(),
        ensures
            r is Ok <==> owned_indexes(output_owned@).len() > 0,
            r matches Ok(p) ==> p@ == (ProposalV::OutputsIdentified {
                psbt: self@.psbt(),
                owned_vouts: owned_indexes(output_owned@),
            }) && p@.stage_idx() == self@.stage_idx() + 1,
    {
        let psbt = match self {
            Proposal::InputsUnseenChecked { psbt } => psbt,
            _ => {
                return Err(ProtocolError);
            },
        };
        let ghost flags = output_owned@;
        let mut owned_vouts: Vec<usize> = Vec::new();
        proof {
            assert(flags.take(0) =~= Seq::<bool>::empty());
            assert(owned_vouts@ =~= owned_indexes(flags.take(0)));
        }
        let mut i: usize = 0;
        while i < output_owned.len()
            invariant
                0 <= i <= flags.len(),
                owned_vouts@ == owned_indexes(flags.take(i as int)),
            decreases flags.len() - i,
        {
            proof {
                assert(flags.take(i + 1 as int).drop_last() =~= flags.take(i as int));
                assert(flags.take(i + 1 as int).last() == flags[i as int]);
            }
            if output_owned[i] {
                owned_vouts.push(i);
            }
            i += 1;
        }
        proof {
            assert(flags.take(flags.len() as int) =~= flags);
        }
        if owned_vouts.len() == 0 {
            return Err(ProtocolError);
        }
        Ok(Proposal::OutputsIdentified { psbt, owned_vouts })
    }

    /// Opens the working stage: from here the receiver may contribute
    /// inputs and substitute its output, before finalising.
    pub fn begin_provisional(self) -> (r: Proposal)
        requires
            self@ is OutputsIdentified,
        ensures
            r@ == (ProposalV::Provisional {
                psbt: self@.psbt(),
                owned_vouts: self@->OutputsIdentified_owned_vouts,
            }),
            r@.stage_idx() == self@.stage_idx() + 1,
    {
        match self {
            Proposal::OutputsIdentified { psbt, owned_vouts } => Proposal::Provisional {
                psbt,
                owned_vouts,
            },
            _ => unreached(),
        }
    }
}


/// The feerate-weight product charged for one contributed input, in
/// virtual bytes: the approximate cost of a segwit key-path spend.
pub const CONTRIBUTED_INPUT_VBYTES: u64 = 68;

/// The fee owed for the receiver's additions, at the configured minimum
/// feerate in satoshis per virtual byte.
pub open spec fn fee_for(min_fee_rate: u64, contributed: bool) -> int {
    if contributed {
        min_fee_rate * CONTRIBUTED_INPUT_VBYTES
    } else {
        0
    }
}

/// The sender-declared fee parameters of a request: the sender may name
/// one of its outputs and allow the receiver to take up to a bounded
/// contribution towards the fee of what the receiver adds.
#[derive(Clone, Copy, PartialEq, Eq, Structural, Debug)]
pub struct SenderFeeParams {
    pub max_additional_fee_contribution: u64,
    pub additional_fee_output_index: Option<usize>,
}

/// The part of the receiver's fee that the sender's designated output
/// bears: the fee, capped by the declared maximum — provided the sender
/// named an output other than the receiver's that exists and can bear
/// that much; otherwise nothing.
pub open spec fn sender_fee_share(p: PsbtV, v0: int, fee: int, params: SenderFeeParams) -> int {
    match params.additional_fee_output_index {
        Some(i) => {
            let cap = if fee < params.max_additional_fee_contribution as int {
                fee
            } else {
                params.max_additional_fee_contribution as int
            };
            if fee > 0 && (i as int) < p.unsigned_tx.output.len() && i as int != v0 && cap
                <= p.unsigned_tx.output[i as int].value {
                cap
            } else {
                0
            }
        },
        None => 0,
    }
}

/// A proposal with the fee split applied: the sender's share taken from
/// its designated output, the remainder from the receiver's output
/// `v0`.
pub open spec fn apply_fee_spec(p: PsbtV, v0: int, fee: int, params: SenderFeeParams) -> PsbtV {
    let share = sender_fee_share(p, v0, fee, params);
    let after_sender = if share > 0 {
        deduct_fee_spec(p, params.additional_fee_output_index->0 as int, share)
    } else {
        p
    };
    deduct_fee_spec(after_sender, v0, fee - share)
}

/// A proposal with one more input: the outpoint spent and the output
/// data a signer needs for it.
pub open spec fn contribute_spec(p: PsbtV, txo: TxOutV, op: OutPoint) -> PsbtV {
    PsbtV {
        unsigned_tx: TransactionV {
            txid: p.unsigned_tx.txid,
            input: p.unsigned_tx.input.push(TxIn { previous_output: op }),
            output: p.unsigned_tx.output,
        },
        inputs: p.inputs.push(PsbtInputV { witness_utxo: Some(txo), non_witness_utxo: None }),
    }
}

/// A proposal with the script of output `v` replaced, its value kept.
pub open spec fn substitute_spec(p: PsbtV, v: int, script: Seq<u8>) -> PsbtV {
    PsbtV {
        unsigned_tx: TransactionV {
            txid: p.unsigned_tx.txid,
            input: p.unsigned_tx.input,
            output: p.unsigned_tx.output.update(
                v,
                TxOutV { value: p.unsigned_tx.output[v].value, script_pubkey: script },
            ),
        },
        inputs: p.inputs,
    }
}

/// A proposal with `fee` deducted from the value of output `v`.
pub open spec fn deduct_fee_spec(p: PsbtV, v: int, fee: int) -> PsbtV {
    PsbtV {
        unsigned_tx: TransactionV {
            txid: p.unsigned_tx.txid,
            input: p.unsigned_tx.input,
            output: p.unsigned_tx.output.update(
                v,
                TxOutV {
                    value: (p.unsigned_tx.output[v].value - fee) as u64,
                    script_pubkey: p.unsigned_tx.output[v].script_pubkey,
                },
            ),
        },
        inputs: p.inputs,
    }
}

impl Proposal {
    /// Contributes one input to the working proposal, to break the
    /// common-input-ownership heuristic.
    pub fn contribute_witness_input(self, txo: TxOut, outpoint: OutPoint) -> (r: Proposal)
        requires
            self@ is Provisional,
        ensures
            r@ == (ProposalV::Provisional {
                psbt: contribute_spec(self@.psbt(), txo@, outpoint),
                owned_vouts: self@->Provisional_owned_vouts,
            }),
            r@.stage_idx() == self@.stage_idx(),
    {
        match self {
            Proposal::Provisional { mut psbt, owned_vouts } => {
                psbt.unsigned_tx.input.push(TxIn { previous_output: outpoint });
                dv_push(
                    &mut psbt.inputs,
                    PsbtInput { witness_utxo: Some(txo), non_witness_utxo: None },
                );
                proof {
                    assert(psbt@ =~= contribute_spec(self@.psbt(), txo@, outpoint));
                }
                Proposal::Provisional { psbt, owned_vouts }
            },
            _ => unreached(),
        }
    }

    /// Substitutes the receiver's output script — a fresh address, or a
    /// consolidation target — keeping the paid value.
    pub fn substitute_output_address(self, script: Vec<u8>) -> (r: Proposal)
        requires
            self@ is Provisional,
            self@->Provisional_owned_vouts.len() > 0,
            (self@->Provisional_owned_vouts[0] as int) < self@.psbt().unsigned_tx.output.len(),
        ensures
            r@ == (ProposalV::Provisional {
                psbt: substitute_spec(
                    self@.psbt(),
                    self@->Provisional_owned_vouts[0] as int,
                    script@,
                ),
                owned_vouts: self@->Provisional_owned_vouts,
            }),
            r@.stage_idx() == self@.stage_idx(),
    {
        match self {
            Proposal::Provisional { mut psbt, owned_vouts } => {
                let v0 = owned_vouts[0];
                let value = psbt.unsigned_tx.output[v0].value;
                dv_set(
                    &mut psbt.unsigned_tx.output,
                    v0,
                    TxOut { value, script_pubkey: script },
                );
                proof {
                    assert(psbt@ =~= substitute_spec(self@.psbt(), v0 as int, script@));
                }
                Proposal::Provisional { psbt, owned_vouts }
            },
            _ => unreached(),
        }
    }

    /// Closes the working stage: charges the receiver's additions at
    /// the configured minimum feerate — taking the sender's declared
    /// fee contribution from its designated output first and the
    /// remainder from the receiver's own output — takes the node's
    /// signing outcome, and, when the receiver's output can bear its
    /// remainder and signing succeeded, yields the finalized proposal.
    pub fn finalize_proposal(
        self,
        min_fee_rate: u64,
        contributed: bool,
        fee_params: SenderFeeParams,
        sign_ok: bool,
    ) -> (r: Result<Proposal, ProtocolError>)
        requires
            self@ is Provisional,
            self@->Provisional_owned_vouts.len() > 0,
            (self@->Provisional_owned_vouts[0] as int) < self@.psbt().unsigned_tx.output.len(),
        ensures
            ({
                let v0 = self@->Provisional_owned_vouts[0] as int;
                let fee = fee_for(min_fee_rate, contributed);
                let share = sender_fee_share(self@.psbt(), v0, fee, fee_params);
                r is Ok <==> sign_ok && fee - share <= self@.psbt().unsigned_tx.output[v0].value
            }),
            r matches Ok(p) ==> p@ == (ProposalV::Finalized {
                psbt: apply_fee_spec(
                    self@.psbt(),
                    self@->Provisional_owned_vouts[0] as int,
                    fee_for(min_fee_rate, contributed),
                    fee_params,
                ),
            }) && p@.stage_idx() == self@.stage_idx() + 1,
    {
        if !sign_ok {
            return Err(ProtocolError);
        }
        match self {
            Proposal::Provisional { mut psbt, owned_vouts } => {
                let v0 = owned_vouts[0];
                let fee128: u128 = if contributed {
                    (min_fee_rate as u128) * (CONTRIBUTED_INPUT_VBYTES as u128)
                } else {
                    0
                };
                let value = psbt.unsigned_tx.output[v0].value;
                // The sender's declared contribution, where it applies.
                let mut share: u64 = 0;
                let mut sidx: usize = 0;
                match fee_params.additional_fee_output_index {
                    Some(i) => {
                        if fee128 > 0 && i < psbt.unsigned_tx.output.len() && i != v0 {
                            let cap: u128 = if fee128 < (
                            fee_params.max_additional_fee_contribution as u128) {
                                fee128
                            } else {
                                fee_params.max_additional_fee_contribution as u128
                            };
                            if cap <= psbt.unsigned_tx.output[i].value as u128 {
                                share = cap as u64;
                                sidx = i;
                            }
                        }
                    },
                    None => {},
                }
                proof {
                    assert(share as int == sender_fee_share(
                        psbt@,
                        v0 as int,
                        fee128 as int,
                        fee_params,
                    ));
                }
                let rshare128 = fee128 - (share as u128);
                if rshare128 > value as u128 {
                    return Err(ProtocolError);
                }
                let rshare: u64 = rshare128 as u64;
                if share > 0 {
                    let sval = psbt.unsigned_tx.output[sidx].value;
                    let sscript = dup_bytes(&psbt.unsigned_tx.output[sidx].script_pubkey);
                    dv_set(
                        &mut psbt.unsigned_tx.output,
                        sidx,
                        TxOut { value: sval - share, script_pubkey: sscript },
                    );
                }
                let value2 = psbt.unsigned_tx.output[v0].value;
                let script_pubkey = dup_bytes(&psbt.unsigned_tx.output[v0].script_pubkey);
                dv_set(
                    &mut psbt.unsigned_tx.output,
                    v0,
                    TxOut { value: value2 - rshare, script_pubkey },
                );
                proof {
                    assert(psbt@ =~= apply_fee_spec(
                        self@.psbt(),
                        v0 as int,
                        fee_for(min_fee_rate, contributed),
                        fee_params,
                    ));
                }
                Ok(Proposal::Finalized { psbt })
            },
            _ => Err(ProtocolError),
        }
    }
}

/// The position of the first candidate spending the given outpoint, or
/// -1 when none does.
pub open spec fn candidate_index(cs: Seq<CandidateUtxoV>, op: OutPoint) -> int
    decreases cs.len(),
{
    if cs.len() == 0 {
        -1
    } else if cs[0].outpoint == op {
        0
    } else {
        let r = candidate_index(cs.skip(1), op);
        if r < 0 {
            -1
        } else {
            r + 1
        }
    }
}

/// `candidate_index` finds the first candidate with the outpoint, and
/// -1 only when no candidate has it.
pub proof fn lemma_candidate_index(cs: Seq<CandidateUtxoV>, op: OutPoint)
    ensures
        candidate_index(cs, op) >= 0 ==> candidate_index(cs, op) < cs.len() && cs[candidate_index(
            cs,
            op,
        )].outpoint == op && forall|k: int|
            0 <= k < candidate_index(cs, op) ==> cs[k].outpoint != op,
        candidate_index(cs, op) < 0 ==> forall|k: int| 0 <= k < cs.len() ==> cs[k].outpoint != op,
    decreases cs.len(),
{
    if cs.len() > 0 && cs[0].outpoint != op {
        lemma_candidate_index(cs.skip(1), op);
        let r = candidate_index(cs.skip(1), op);
        if r < 0 {
            assert forall|k: int| 0 <= k < cs.len() implies cs[k].outpoint != op by {
                if k > 0 {
                    assert(cs.skip(1)[k - 1].outpoint != op);
                }
            }
        } else {
            assert forall|k: int| 0 <= k < r + 1 implies cs[k].outpoint != op by {
                if k > 0 {
                    assert(cs.skip(1)[k - 1].outpoint != op);
                }
            }
        }
    }
}

/// Offers the receiver's spendable outputs to the selector and, when it
/// picks one, contributes that coin to the proposal. A selector that
/// picks nothing is not an error: the proposal goes on without a
/// receiver input, and output substitution alone still breaks address
/// reuse.
#[verifier::loop_isolation(false)]
pub fn try_contributing_inputs(p: Proposal, candidates: &Vec<CandidateUtxo>) -> (r: (
    Proposal,
    bool,
))
    requires
        p@ is Provisional,
        p@.psbt().wf(),
        p@->Provisional_owned_vouts.len() > 0,
        (p@->Provisional_owned_vouts[0] as int) < p@.psbt().unsigned_tx.output.len(),
    ensures
        ({
            let cs = candidates.deep_view();
            let v0 = p@->Provisional_owned_vouts[0] as int;
            match select_spec(p@.psbt(), v0, cs) {
                None => r.0@ == p@ && r.1 == false,
                Some(op) => {
                    let ci = candidate_index(cs, op);
                    &&& r.1 == true
                    &&& ci >= 0
                    &&& r.0@ == (ProposalV::Provisional {
                        psbt: contribute_spec(
                            p@.psbt(),
                            TxOutV {
                                value: cs[ci].value,
                                script_pubkey: cs[ci].script_pubkey,
                            },
                            op,
                        ),
                        owned_vouts: p@->Provisional_owned_vouts,
                    })
                },
            }
        }),
{
    let ghost cs = candidates.deep_view();
    let owned_vout: usize = match &p {
        Proposal::Provisional { owned_vouts, .. } => owned_vouts[0],
        _ => unreached(),
    };
    let selected = match &p {
        Proposal::Provisional { psbt, .. } => try_preserving_privacy(
            psbt,
            owned_vout,
            candidates,
        ),
        _ => unreached(),
    };
    let op = match selected {
        Some(op) => op,
        None => {
            return (p, false);
        },
    };
    proof {
        lemma_candidate_index(cs, op);
        if candidate_index(cs, op) < 0 {
            let w = choose|i: int| 0 <= i < cs.len() && cs[i].outpoint == op;
            assert(cs[w].outpoint == op);
            assert(false);
        }
    }
    let mut i: usize = 0;
    while i < candidates.len() && candidates[i].outpoint != op
        invariant
            0 <= i <= candidates@.len(),
            forall|k: int| 0 <= k < i ==> cs[k].outpoint != op,
            i <= candidate_index(cs, op),
        decreases candidates@.len() - i,
    {
        proof {
            assert(cs[i as int] == candidates@[i as int]@);
            let ci = candidate_index(cs, op);
            if ci == i {
                assert(cs[ci].outpoint == op);
                assert(false);
            }
        }
        i += 1;
    }
    let found: usize = i;
    proof {
        let ci = candidate_index(cs, op);
        assert(found <= ci < candidates@.len());
        assert(cs[found as int] == candidates@[found as int]@);
        if found < ci {
            assert(cs[found as int].outpoint == op);
            assert(cs[found as int].outpoint != op);
            assert(false);
        }
        assert(found == ci);
    }
    let txo = TxOut {
        value: candidates[found].value,
        script_pubkey: dup_bytes(&candidates[found].script_pubkey),
    };
    proof {
        assert(cs[found as int] == candidates@[found as int]@);
        assert(txo@ =~= (TxOutV {
            value: cs[candidate_index(cs, op)].value,
            script_pubkey: cs[candidate_index(cs, op)].script_pubkey,
        }));
    }
    let r = p.contribute_witness_input(txo, op);
    (r, true)
}


/// The verdicts the surrounding node supplies for one incoming request:
/// its broadcast policy's answer, and the wallet's answer for each input
/// (owned? seen before?) and each output (mine?).
#[derive(Debug)]
pub struct ValidationDecisions {
    pub can_broadcast: bool,
    pub input_owned: Vec<bool>,
    pub input_seen: Vec<bool>,
    pub output_owned: Vec<bool>,
}

/// Whether a request passes every validation stage and can be answered
/// with a finalized proposal: sound framing, a broadcastable
/// transaction, no receiver-owned or previously seen input, uniform
/// script types, at least one output paying the receiver, a successful
/// signature, and a receiver output able to bear whatever part of the
/// contribution fee the sender's declared parameters leave to it.
pub open spec fn pipeline_accepts(
    psbt: PsbtV,
    hs: Seq<HeaderEntryV>,
    body_len: usize,
    can_broadcast: bool,
    input_owned: Seq<bool>,
    input_seen: Seq<bool>,
    output_owned: Seq<bool>,
    cs: Seq<CandidateUtxoV>,
    min_fee_rate: u64,
    fee_params: SenderFeeParams,
    sign_ok: bool,
) -> bool {
    &&& headers_ok(hs, body_len)
    &&& can_broadcast
    &&& first_true(input_owned) < 0
    &&& uniform_scripts(psbt.inputs)
    &&& first_true(input_seen) < 0
    &&& owned_indexes(output_owned).len() > 0
    &&& sign_ok
    &&& {
        let v0 = owned_indexes(output_owned)[0] as int;
        let sel = select_spec(psbt, v0, cs);
        let fee = fee_for(min_fee_rate, sel is Some);
        fee - sender_fee_share(psbt, v0, fee, fee_params) <= psbt.unsigned_tx.output[v0].value
    }
}

/// The response to an accepted request: the incoming transaction with
/// the selected coin contributed (when one was), the receiver's first
/// output substituted, and the contribution fee deducted — the sender's
/// declared share from its designated output, the rest from the
/// receiver's.
pub open spec fn pipeline_response(
    psbt: PsbtV,
    output_owned: Seq<bool>,
    cs: Seq<CandidateUtxoV>,
    substitute_script: Seq<u8>,
    min_fee_rate: u64,
    fee_params: SenderFeeParams,
) -> PsbtV {
    let v0 = owned_indexes(output_owned)[0] as int;
    let sel = select_spec(psbt, v0, cs);
    let contributed = match sel {
        Some(op) => contribute_spec(
            psbt,
            TxOutV {
                value: cs[candidate_index(cs, op)].value,
                script_pubkey: cs[candidate_index(cs, op)].script_pubkey,
            },
            op,
        ),
        None => psbt,
    };
    let substituted = substitute_spec(contributed, v0, substitute_script);
    apply_fee_spec(substituted, v0, fee_for(min_fee_rate, sel is Some), fee_params)
}

/// The receiver's endpoint logic: one incoming request in, one signed
/// response — or the one generic rejection — out.
pub struct Receiver;

impl Receiver {
    /// Runs an incoming request through the whole pipeline: framing,
    /// the five checks, coin selection, output substitution, fees and
    /// signing.
    ///
    /// Succeeds exactly on the requests [`pipeline_accepts`] allows,
    /// and then returns the proposal [`pipeline_response`] describes —
    /// in particular, never with more than one input beyond the
    /// sender's. Any failure, at any stage, is the same generic
    /// rejection, so a probing sender learns nothing from the shape of
    /// the refusal.
    pub fn handle_pj_request(
        psbt: Psbt,
        body_len: usize,
        headers: &RequestHeaders,
        decisions: &ValidationDecisions,
        candidates: &Vec<CandidateUtxo>,
        substitute_script: Vec<u8>,
        min_fee_rate: u64,
        fee_params: SenderFeeParams,
        sign_ok: bool,
    ) -> (r: Result<Psbt, ProtocolError>)
        requires
            psbt@.wf(),
            decisions.input_owned@.len() == psbt@.inputs.len(),
            decisions.input_seen@.len() == psbt@.inputs.len(),
            decisions.output_owned@.len() == psbt@.unsigned_tx.output.len(),
        ensures
            r is Ok <==> pipeline_accepts(
                psbt@,
                headers@,
                body_len,
                decisions.can_broadcast,
                decisions.input_owned@,
                decisions.input_seen@,
                decisions.output_owned@,
                candidates.deep_view(),
                min_fee_rate,
                fee_params,
                sign_ok,
            ),
            r matches Ok(resp) ==> resp@ == pipeline_response(
                psbt@,
                decisions.output_owned@,
                candidates.deep_view(),
                substitute_script@,
                min_fee_rate,
                fee_params,
            ) && resp@.unsigned_tx.input.len() <= psbt@.unsigned_tx.input.len() + 1,
    {
        let ghost psbt0 = psbt@;
        let ghost cs = candidates.deep_view();
        let p = match Proposal::from_request(psbt, body_len, headers) {
            Ok(p) => p,
            Err(e) => {
                return Err(e);
            },
        };
        let p = match p.check_broadcast_suitability(decisions.can_broadcast) {
            Ok(p) => p,
            Err(e) => {
                return Err(e);
            },
        };
        let p = match p.check_inputs_not_owned(&decisions.input_owned) {
            Ok(p) => p,
            Err(e) => {
                return Err(e);
            },
        };
        let p = match p.check_no_mixed_input_scripts() {
            Ok(p) => p,
            Err(e) => {
                return Err(e);
            },
        };
        let p = match p.check_no_inputs_seen_before(&decisions.input_seen) {
            Ok(p) => p,
            Err(e) => {
                return Err(e);
            },
        };
        let p = match p.identify_receiver_outputs(&decisions.output_owned) {
            Ok(p) => p,
            Err(e) => {
                return Err(e);
            },
        };
        let p = p.begin_provisional();
        let n_outputs = decisions.output_owned.len();
        proof {
            assert(decisions.output_owned@.len() == n_outputs);
            lemma_owned_indexes(decisions.output_owned@);
            assert(p@->Provisional_owned_vouts == owned_indexes(decisions.output_owned@));
            assert((p@->Provisional_owned_vouts[0] as int) < psbt0.unsigned_tx.output.len());
        }
        let ghost v0 = owned_indexes(decisions.output_owned@)[0] as int;
        let ghost sel = select_spec(psbt0, v0, cs);
        let (p, contributed) = try_contributing_inputs(p, candidates);
        proof {
            assert(contributed == (sel is Some));
            assert(p@.psbt().unsigned_tx.output =~= psbt0.unsigned_tx.output);
        }
        let p = p.substitute_output_address(substitute_script);
        proof {
            assert(p@.psbt().unsigned_tx.output[v0].value == psbt0.unsigned_tx.output[v0].value);
            let fee = fee_for(min_fee_rate, contributed);
            assert forall|i: int|
                0 <= i < p@.psbt().unsigned_tx.output.len() implies #[trigger] p@.psbt()
                .unsigned_tx
                .output[i].value == psbt0.unsigned_tx.output[i].value by {}
            assert(sender_fee_share(p@.psbt(), v0, fee, fee_params) == sender_fee_share(
                psbt0,
                v0,
                fee,
                fee_params,
            ));
        }
        let ghost before_fee = p@.psbt();
        let p = match p.finalize_proposal(min_fee_rate, contributed, fee_params, sign_ok) {
            Ok(p) => p,
            Err(_) => {
                return Err(ProtocolError);
            },
        };
        match p {
            Proposal::Finalized { psbt } => {
                proof {
                    assert(psbt@ == apply_fee_spec(before_fee, v0, fee_for(
                        min_fee_rate,
                        contributed,
                    ), fee_params));
                    assert(psbt@ =~= pipeline_response(
                        psbt0,
                        decisions.output_owned@,
                        cs,
                        substitute_script@,
                        min_fee_rate,
                        fee_params,
                    ));
                }
                Ok(psbt)
            },
            _ => unreached(),
        }
    }
}

} // verus!
