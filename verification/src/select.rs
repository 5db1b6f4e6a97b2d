//! Privacy-preserving coin selection.
//!
//! When the receiver contributes an input to a proposal, a careless
//! choice can give the pair away: an input whose value makes the input
//! sum obviously larger than the payment needs marks the added input as
//! foreign (the unnecessary-input heuristic). The selector therefore
//! only picks a candidate whose value keeps the transaction looking like
//! an ordinary payment with change, and picks none at all otherwise.

use vstd::prelude::*;

use crate::types::{OutPoint, Psbt, PsbtInput, PsbtInputV, PsbtV, TxIn, TxOut, TxOutV};

verus! {

/// A spendable output of the receiver's wallet offered for contribution.
#[derive(Debug)]
pub struct CandidateUtxo {
    pub value: u64,
    pub outpoint: OutPoint,
    pub script_pubkey: Vec<u8>,
}

/// Mathematical view of a [`CandidateUtxo`].
#[verifier::ext_equal]
pub struct CandidateUtxoV {
    pub value: u64,
    pub outpoint: OutPoint,
    pub script_pubkey: Seq<u8>,
}

impl View for CandidateUtxo {
    type V = CandidateUtxoV;

    open spec fn view(&self) -> CandidateUtxoV {
        CandidateUtxoV {
            value: self.value,
            outpoint: self.outpoint,
            script_pubkey: self.script_pubkey@,
        }
    }
}

impl DeepView for CandidateUtxo {
    type V = CandidateUtxoV;

    open spec fn deep_view(&self) -> CandidateUtxoV {
        self.view()
    }
}

/// The smallest output value of a transaction; the largest representable
/// value when it has no outputs, so that any candidate comparison against
/// an absent minimum fails safe.
pub open spec fn min_output_value(s: Seq<TxOutV>) -> int
    decreases s.len(),
{
    if s.len() == 0 {
        u64::MAX as int
    } else {
        let m = min_output_value(s.drop_last());
        if s.last().value < m {
            s.last().value as int
        } else {
            m
        }
    }
}

/// The value an input declares for the output it spends: from its
/// spent output directly for segwit spends, or looked up in the
/// declared previous transaction for legacy spends; nothing when the
/// input declares neither, or the previous transaction has no output
/// at the spent position.
pub open spec fn input_spent_value(txin: TxIn, inp: PsbtInputV) -> Option<u64> {
    match inp.witness_utxo {
        Some(o) => Some(o.value),
        None => match inp.non_witness_utxo {
            Some(prev) => if (txin.previous_output.vout as int) < prev.output.len() {
                Some(prev.output[txin.previous_output.vout as int].value)
            } else {
                None
            },
            None => None,
        },
    }
}

/// The smallest spent-output value declared by a proposal's inputs,
/// ignoring inputs that declare none; the largest representable value
/// when none does.
pub open spec fn min_input_value(txins: Seq<TxIn>, s: Seq<PsbtInputV>) -> int
    recommends
        txins.len() == s.len(),
    decreases s.len(),
{
    if s.len() == 0 {
        u64::MAX as int
    } else {
        let m = min_input_value(txins.drop_last(), s.drop_last());
        match input_spent_value(txins.last(), s.last()) {
            Some(v) => if v < m {
                v as int
            } else {
                m
            },
            None => m,
        }
    }
}

/// Whether contributing a candidate of value `c` keeps the transaction
/// inconspicuous: with the candidate added, the smallest input must
/// still exceed the smallest output — the shape of an ordinary payment
/// whose change output is smaller than every input.
pub open spec fn uih_ok(min_in: int, min_out: int, prior_payment: int, c: int) -> bool {
    let cand_min_out = if prior_payment + c < min_out {
        prior_payment + c
    } else {
        min_out
    };
    let cand_min_in = if c < min_in {
        c
    } else {
        min_in
    };
    cand_min_in > cand_min_out
}

/// The first candidate, in the order offered, that passes the
/// unnecessary-input check.
pub open spec fn avoid_uih_select(
    min_in: int,
    min_out: int,
    prior_payment: int,
    cs: Seq<CandidateUtxoV>,
) -> Option<OutPoint>
    decreases cs.len(),
{
    if cs.len() == 0 {
        None
    } else if uih_ok(min_in, min_out, prior_payment, cs[0].value as int) {
        Some(cs[0].outpoint)
    } else {
        avoid_uih_select(min_in, min_out, prior_payment, cs.skip(1))
    }
}

/// The selector's choice for a proposal: nothing when there is nothing
/// to offer or the transaction's shape would betray any addition (more
/// than two outputs); the first inconspicuous candidate when the
/// transaction has a payment and a change output; and the first
/// candidate offered when the payment is the only output, where no
/// change comparison exists to give the addition away.
pub open spec fn select_spec(psbt: PsbtV, owned_vout: int, cs: Seq<CandidateUtxoV>) -> Option<
    OutPoint,
> {
    if cs.len() == 0 {
        None
    } else if psbt.unsigned_tx.output.len() > 2 {
        None
    } else if psbt.unsigned_tx.output.len() == 2 {
        avoid_uih_select(
            min_input_value(psbt.unsigned_tx.input, psbt.inputs),
            min_output_value(psbt.unsigned_tx.output),
            psbt.unsigned_tx.output[owned_vout].value as int,
            cs,
        )
    } else {
        Some(cs[0].outpoint)
    }
}

/// The selector never invents an input: whatever it picks is one of the
/// candidates it was offered.
pub proof fn lemma_avoid_uih_from_candidates(
    min_in: int,
    min_out: int,
    prior_payment: int,
    cs: Seq<CandidateUtxoV>,
)
    ensures
        avoid_uih_select(min_in, min_out, prior_payment, cs) matches Some(op) ==> exists|i: int|
            0 <= i < cs.len() && cs[i].outpoint == op,
    decreases cs.len(),
{
    if cs.len() > 0 && !uih_ok(min_in, min_out, prior_payment, cs[0].value as int) {
        lemma_avoid_uih_from_candidates(min_in, min_out, prior_payment, cs.skip(1));
        match avoid_uih_select(min_in, min_out, prior_payment, cs) {
            Some(op) => {
                let i = choose|i: int| 0 <= i < cs.skip(1).len() && cs.skip(1)[i].outpoint == op;
                assert(cs[i + 1].outpoint == op);
            },
            None => {},
        }
    }
}

/// The selector never picks an outpoint absent from the candidate set.
pub proof fn lemma_selected_from_candidates(psbt: PsbtV, owned_vout: int, cs: Seq<CandidateUtxoV>)
    ensures
        select_spec(psbt, owned_vout, cs) matches Some(op) ==> exists|i: int|
            0 <= i < cs.len() && cs[i].outpoint == op,
{
    if cs.len() > 0 && psbt.unsigned_tx.output.len() == 2 {
        lemma_avoid_uih_from_candidates(
            min_input_value(psbt.unsigned_tx.input, psbt.inputs),
            min_output_value(psbt.unsigned_tx.output),
            psbt.unsigned_tx.output[owned_vout].value as int,
            cs,
        );
    }
}

/// The smallest output value, over the values a transaction holds.
#[verifier::loop_isolation(false)]
fn min_output_value_exec(outputs: &Vec<TxOut>) -> (r: u64)
    ensures
        r as int == min_output_value(outputs.deep_view()),
{
    let ghost dv = outputs.deep_view();
    let mut m: u64 = u64::MAX;
    let mut i: usize = 0;
    proof {
        assert(dv.take(0) =~= Seq::<TxOutV>::empty());
    }
    while i < outputs.len()
        invariant
            0 <= i <= outputs@.len(),
            m as int == min_output_value(dv.take(i as int)),
        decreases outputs@.len() - i,
    {
        proof {
            assert(dv.take(i + 1 as int).drop_last() =~= dv.take(i as int));
            assert(dv.take(i + 1 as int).last() == dv[i as int]);
            assert(dv[i as int] == outputs@[i as int]@);
        }
        let v = outputs[i].value;
        if v < m {
            m = v;
        }
        i += 1;
    }
    proof {
        assert(dv.take(outputs@.len() as int) =~= dv);
    }
    m
}

/// The smallest declared spent-output value among a proposal's inputs.
#[verifier::loop_isolation(false)]
fn min_input_value_exec(txins: &Vec<TxIn>, inputs: &Vec<PsbtInput>) -> (r: u64)
    requires
        txins@.len() == inputs@.len(),
    ensures
        r as int == min_input_value(txins@, inputs.deep_view()),
{
    let ghost tv = txins@;
    let ghost dv = inputs.deep_view();
    let mut m: u64 = u64::MAX;
    let mut i: usize = 0;
    proof {
        assert(tv.take(0) =~= Seq::<TxIn>::empty());
        assert(dv.take(0) =~= Seq::<PsbtInputV>::empty());
    }
    while i < inputs.len()
        invariant
            0 <= i <= inputs@.len(),
            m as int == min_input_value(tv.take(i as int), dv.take(i as int)),
        decreases inputs@.len() - i,
    {
        proof {
            assert(tv.take(i + 1 as int).drop_last() =~= tv.take(i as int));
            assert(tv.take(i + 1 as int).last() == tv[i as int]);
            assert(dv.take(i + 1 as int).drop_last() =~= dv.take(i as int));
            assert(dv.take(i + 1 as int).last() == dv[i as int]);
            assert(dv[i as int] == inputs@[i as int]@);
        }
        match &inputs[i].witness_utxo {
            Some(o) => {
                if o.value < m {
                    m = o.value;
                }
            },
            None => {
                match &inputs[i].non_witness_utxo {
                    Some(prev) => {
                        let vout = txins[i].previous_output.vout;
                        if (vout as usize) < prev.output.len() {
                            let v = prev.output[vout as usize].value;
                            proof {
                                assert(prev@.output[vout as int] == prev.output@[vout as int]@);
                            }
                            if v < m {
                                m = v;
                            }
                        }
                    },
                    None => {},
                }
            },
        }
        i += 1;
    }
    proof {
        assert(tv.take(txins@.len() as int) =~= tv);
        assert(dv.take(inputs@.len() as int) =~= dv);
    }
    m
}

/// Picks at most one candidate to contribute to a proposal, preserving
/// the receiver's privacy; `None` is not an error, the proposal simply
/// proceeds without a receiver input.
#[verifier::loop_isolation(false)]
pub fn try_preserving_privacy(
    psbt: &Psbt,
    owned_vout: usize,
    candidates: &Vec<CandidateUtxo>,
) -> (r: Option<OutPoint>)
    requires
        psbt@.wf(),
        owned_vout < psbt@.unsigned_tx.output.len(),
    ensures
        r == select_spec(psbt@, owned_vout as int, candidates.deep_view()),
        r matches Some(op) ==> exists|i: int|
            0 <= i < candidates.deep_view().len() && candidates.deep_view()[i].outpoint == op,
{
    proof {
        lemma_selected_from_candidates(psbt@, owned_vout as int, candidates.deep_view());
    }
    let ghost cs = candidates.deep_view();
    if candidates.len() == 0 {
        return None;
    }
    if psbt.unsigned_tx.output.len() > 2 {
        return None;
    }
    if psbt.unsigned_tx.output.len() == 2 {
        proof {
            assert(psbt.unsigned_tx.input@ =~= psbt@.unsigned_tx.input);
        }
        let min_in = min_input_value_exec(&psbt.unsigned_tx.input, &psbt.inputs);
        let min_out = min_output_value_exec(&psbt.unsigned_tx.output);
        let prior_payment = psbt.unsigned_tx.output[owned_vout].value;
        proof {
            assert(cs.skip(0) =~= cs);
        }
        let mut i: usize = 0;
        while i < candidates.len()
            invariant
                0 <= i <= candidates@.len(),
                avoid_uih_select(min_in as int, min_out as int, prior_payment as int, cs.skip(
                    i as int,
                )) == avoid_uih_select(min_in as int, min_out as int, prior_payment as int, cs),
            decreases candidates@.len() - i,
        {
            proof {
                assert(cs.skip(i as int)[0] == cs[i as int]);
                assert(cs[i as int] == candidates@[i as int]@);
                assert(cs.skip(i as int).skip(1) =~= cs.skip(i + 1 as int));
            }
            let c = candidates[i].value;
            let cand_min_out: u128 = if (prior_payment as u128) + (c as u128) < (min_out as u128) {
                (prior_payment as u128) + (c as u128)
            } else {
                min_out as u128
            };
            let cand_min_in: u128 = if (c as u128) < (min_in as u128) {
                c as u128
            } else {
                min_in as u128
            };
            if cand_min_in > cand_min_out {
                proof {
                    assert(uih_ok(min_in as int, min_out as int, prior_payment as int, c as int));
                }
                return Some(candidates[i].outpoint);
            }
            proof {
                assert(!uih_ok(min_in as int, min_out as int, prior_payment as int, c as int));
            }
            i += 1;
        }
        proof {
            assert(cs.skip(candidates@.len() as int) =~= Seq::<CandidateUtxoV>::empty());
        }
        return None;
    }
    Some(candidates[0].outpoint)
}

} // verus!
