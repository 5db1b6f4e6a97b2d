//! Plain-value models of the on-chain data the engine reasons about.
//!
//! The engine never parses or serialises consensus encodings itself; the
//! surrounding node converts between wire formats and these value types at
//! the boundary. Each type that owns heap data has a mathematical view
//! (`TxOutV`, `TransactionV`, ...) over `Seq`, and contracts throughout the
//! crate are stated over those views.

use vstd::prelude::*;

use vstd::pervasive::VecAdditionalExecFns;

verus! {

/// A transaction identifier: a 256-bit hash, held as two halves.
#[derive(Clone, Copy, PartialEq, Eq, Structural, Debug)]
pub struct TxId {
    pub hi: u128,
    pub lo: u128,
}

/// A block identifier: a 256-bit hash, held as two halves.
#[derive(Clone, Copy, PartialEq, Eq, Structural, Debug)]
pub struct BlockHash {
    pub hi: u128,
    pub lo: u128,
}

impl DeepView for TxId {
    type V = TxId;

    open spec fn deep_view(&self) -> TxId {
        *self
    }
}

impl DeepView for BlockHash {
    type V = BlockHash;

    open spec fn deep_view(&self) -> BlockHash {
        *self
    }
}

/// A reference to one output of an earlier transaction.
#[derive(Clone, Copy, PartialEq, Eq, Structural, Debug)]
pub struct OutPoint {
    pub txid: TxId,
    pub vout: u32,
}

/// One input of a transaction: the output it spends.
#[derive(Clone, Copy, PartialEq, Eq, Structural, Debug)]
pub struct TxIn {
    pub previous_output: OutPoint,
}

impl DeepView for OutPoint {
    type V = OutPoint;

    open spec fn deep_view(&self) -> OutPoint {
        *self
    }
}

impl DeepView for TxIn {
    type V = TxIn;

    open spec fn deep_view(&self) -> TxIn {
        *self
    }
}

/// One output of a transaction: an amount in satoshis locked to a script.
#[derive(Debug)]
pub struct TxOut {
    pub value: u64,
    pub script_pubkey: Vec<u8>,
}

/// Mathematical view of a [`TxOut`].
#[verifier::ext_equal]
pub struct TxOutV {
    pub value: u64,
    pub script_pubkey: Seq<u8>,
}

impl View for TxOut {
    type V = TxOutV;

    open spec fn view(&self) -> TxOutV {
        TxOutV { value: self.value, script_pubkey: self.script_pubkey@ }
    }
}

impl DeepView for TxOut {
    type V = TxOutV;

    open spec fn deep_view(&self) -> TxOutV {
        self.view()
    }
}

/// A transaction, as far as the engine reads it: its identifier, the
/// outputs it spends and the outputs it creates. The identifier is the
/// hash of the full consensus encoding; the node computes it when it
/// converts a wire transaction into this model.
#[derive(Debug)]
pub struct Transaction {
    pub txid: TxId,
    pub input: Vec<TxIn>,
    pub output: Vec<TxOut>,
}

/// Mathematical view of a [`Transaction`].
#[verifier::ext_equal]
pub struct TransactionV {
    pub txid: TxId,
    pub input: Seq<TxIn>,
    pub output: Seq<TxOutV>,
}

impl View for Transaction {
    type V = TransactionV;

    open spec fn view(&self) -> TransactionV {
        TransactionV {
            txid: self.txid,
            input: self.input.deep_view(),
            output: self.output.deep_view(),
        }
    }
}

impl DeepView for Transaction {
    type V = TransactionV;

    open spec fn deep_view(&self) -> TransactionV {
        self.view()
    }
}

/// Per-input metadata of a partially signed transaction: the data a
/// signer needs about the output being spent.
#[derive(Debug)]
pub struct PsbtInput {
    /// The spent output itself, for segwit spends.
    pub witness_utxo: Option<TxOut>,
    /// The whole transaction holding the spent output, for legacy
    /// spends.
    pub non_witness_utxo: Option<Transaction>,
}

/// Mathematical view of a [`PsbtInput`].
#[verifier::ext_equal]
pub struct PsbtInputV {
    pub witness_utxo: Option<TxOutV>,
    pub non_witness_utxo: Option<TransactionV>,
}

impl View for PsbtInput {
    type V = PsbtInputV;

    open spec fn view(&self) -> PsbtInputV {
        PsbtInputV {
            witness_utxo: match self.witness_utxo {
                Some(ref o) => Some(o@),
                None => None,
            },
            non_witness_utxo: match self.non_witness_utxo {
                Some(ref t) => Some(t@),
                None => None,
            },
        }
    }
}

impl DeepView for PsbtInput {
    type V = PsbtInputV;

    open spec fn deep_view(&self) -> PsbtInputV {
        self.view()
    }
}

/// A partially signed transaction: the unsigned transaction plus one
/// metadata entry per input.
#[derive(Debug)]
pub struct Psbt {
    pub unsigned_tx: Transaction,
    pub inputs: Vec<PsbtInput>,
}

/// Mathematical view of a [`Psbt`].
#[verifier::ext_equal]
pub struct PsbtV {
    pub unsigned_tx: TransactionV,
    pub inputs: Seq<PsbtInputV>,
}

impl View for Psbt {
    type V = PsbtV;

    open spec fn view(&self) -> PsbtV {
        PsbtV { unsigned_tx: self.unsigned_tx@, inputs: self.inputs.deep_view() }
    }
}

impl DeepView for Psbt {
    type V = PsbtV;

    open spec fn deep_view(&self) -> PsbtV {
        self.view()
    }
}

impl PsbtV {
    /// A partially signed transaction is well formed when it carries
    /// exactly one metadata entry per input.
    pub open spec fn wf(self) -> bool {
        self.inputs.len() == self.unsigned_tx.input.len()
    }
}

impl Psbt {
    /// Exec-side well-formedness, equivalent to the view's.
    pub fn check_wf(&self) -> (r: bool)
        ensures
            r == self@.wf(),
    {
        self.inputs.len() == self.unsigned_tx.input.len()
    }
}

/// Pushes onto a vector, phrased over the deep view, so that callers can
/// track sequences of views without re-deriving the pointwise argument.
pub fn dv_push<T: DeepView>(v: &mut Vec<T>, x: T)
    ensures
        final(v).deep_view() == old(v).deep_view().push(x.deep_view()),
        final(v)@ == old(v)@.push(x),
{
    let ghost pre = v@;
    let ghost pre_dv = v.deep_view();
    let ghost xdv = x.deep_view();
    v.push(x);
    proof {
        let dv = v.deep_view();
        assert forall|k: int| 0 <= k < dv.len() implies dv[k] == pre_dv.push(xdv)[k] by {
            assert(dv[k] == v@[k].deep_view());
            if k < pre.len() {
                assert(v@[k] == pre[k]);
                assert(pre_dv[k] == pre[k].deep_view());
            }
        }
        assert(dv =~= pre_dv.push(xdv));
    }
}

/// Replaces one element of a vector, phrased over the deep view.
pub fn dv_set<T: DeepView>(v: &mut Vec<T>, i: usize, x: T)
    requires
        i < old(v)@.len(),
    ensures
        final(v).deep_view() == old(v).deep_view().update(i as int, x.deep_view()),
        final(v)@ == old(v)@.update(i as int, x),
{
    let ghost pre = v@;
    let ghost pre_dv = v.deep_view();
    let ghost xdv = x.deep_view();
    v.set(i, x);
    proof {
        let dv = v.deep_view();
        assert forall|k: int| 0 <= k < dv.len() implies dv[k] == pre_dv.update(i as int, xdv)[k] by {
            assert(dv[k] == v@[k].deep_view());
            if k != i {
                assert(v@[k] == pre[k]);
                assert(pre_dv[k] == pre[k].deep_view());
            }
        }
        assert(dv =~= pre_dv.update(i as int, xdv));
    }
}

/// Compares two byte strings.
pub fn bytes_eq(a: &Vec<u8>, b: &Vec<u8>) -> (r: bool)
    ensures
        r <==> a@ == b@,
{
    if a.len() != b.len() {
        return false;
    }
    let mut i: usize = 0;
    while i < a.len()
        invariant
            i <= a@.len(),
            a@.len() == b@.len(),
            forall|k: int| 0 <= k < i ==> a@[k] == b@[k],
        decreases a@.len() - i,
    {
        if a[i] != b[i] {
            return false;
        }
        i += 1;
    }
    proof {
        assert(a@ =~= b@);
    }
    true
}

/// Copies a byte string.
pub fn dup_bytes(v: &Vec<u8>) -> (r: Vec<u8>)
    ensures
        r@ == v@,
{
    let mut r: Vec<u8> = Vec::new();
    let mut i: usize = 0;
    while i < v.len()
        invariant
            i <= v@.len(),
            r@ == v@.subrange(0, i as int),
        decreases v@.len() - i,
    {
        r.push(v[i]);
        proof {
            assert(r@ =~= v@.subrange(0, i + 1 as int));
        }
        i += 1;
    }
    proof {
        assert(v@.subrange(0, v@.len() as int) =~= v@);
    }
    r
}

/// Copies an output.
pub fn dup_txout(t: &TxOut) -> (r: TxOut)
    ensures
        r@ == t@,
{
    TxOut { value: t.value, script_pubkey: dup_bytes(&t.script_pubkey) }
}

/// Copies an input metadata entry.
pub fn dup_psbt_input(p: &PsbtInput) -> (r: PsbtInput)
    ensures
        r@ == p@,
{
    let witness_utxo = match &p.witness_utxo {
        Some(o) => Some(dup_txout(o)),
        None => None,
    };
    let non_witness_utxo = match &p.non_witness_utxo {
        Some(t) => Some(dup_transaction(t)),
        None => None,
    };
    PsbtInput { witness_utxo, non_witness_utxo }
}

/// Copies a transaction.
pub fn dup_transaction(t: &Transaction) -> (r: Transaction)
    ensures
        r@ == t@,
{
    let mut output: Vec<TxOut> = Vec::new();
    proof {
        assert(output.deep_view() =~= t.output.deep_view().take(0));
    }
    let mut i: usize = 0;
    while i < t.output.len()
        invariant
            i <= t.output@.len(),
            output@.len() == i,
            output.deep_view() == t.output.deep_view().take(i as int),
        decreases t.output@.len() - i,
    {
        let ghost pre = output@;
        let ghost pre_dv = output.deep_view();
        let x = dup_txout(&t.output[i]);
        output.push(x);
        proof {
            let dv = output.deep_view();
            let tgt = t.output.deep_view().take(i as int + 1);
            assert forall|k: int| 0 <= k < dv.len() implies dv[k] == tgt[k] by {
                assert(dv[k] == output@[k].deep_view());
                if k < i {
                    assert(output@[k] == pre[k]);
                    assert(pre_dv[k] == pre[k].deep_view());
                    assert(pre_dv[k] == t.output.deep_view().take(i as int)[k]);
                } else {
                    assert(output@[k] == x);
                    assert(x.deep_view() == t.output@[i as int].deep_view());
                }
            }
            assert(dv =~= tgt);
        }
        i += 1;
    }
    let mut input: Vec<TxIn> = Vec::new();
    let mut j: usize = 0;
    while j < t.input.len()
        invariant
            j <= t.input@.len(),
            input@ == t.input@.subrange(0, j as int),
        decreases t.input@.len() - j,
    {
        input.push(t.input[j]);
        proof {
            assert(input@ =~= t.input@.subrange(0, j + 1 as int));
        }
        j += 1;
    }
    proof {
        assert(output.deep_view() =~= t.output.deep_view());
        assert(input@ =~= t.input@);
        assert(input.deep_view() =~= t.input.deep_view());
        assert(Transaction { txid: t.txid, input, output }@ =~= t@);
    }
    Transaction { txid: t.txid, input, output }
}

/// Copies a partially signed transaction.
pub fn dup_psbt(p: &Psbt) -> (r: Psbt)
    ensures
        r@ == p@,
{
    let mut inputs: Vec<PsbtInput> = Vec::new();
    proof {
        assert(inputs.deep_view() =~= p.inputs.deep_view().take(0));
    }
    let mut i: usize = 0;
    while i < p.inputs.len()
        invariant
            i <= p.inputs@.len(),
            inputs@.len() == i,
            inputs.deep_view() == p.inputs.deep_view().take(i as int),
        decreases p.inputs@.len() - i,
    {
        let ghost pre = inputs@;
        let ghost pre_dv = inputs.deep_view();
        let x = dup_psbt_input(&p.inputs[i]);
        inputs.push(x);
        proof {
            let dv = inputs.deep_view();
            let tgt = p.inputs.deep_view().take(i as int + 1);
            assert forall|k: int| 0 <= k < dv.len() implies dv[k] == tgt[k] by {
                assert(dv[k] == inputs@[k].deep_view());
                if k < i {
                    assert(inputs@[k] == pre[k]);
                    assert(pre_dv[k] == pre[k].deep_view());
                    assert(pre_dv[k] == p.inputs.deep_view().take(i as int)[k]);
                } else {
                    assert(inputs@[k] == x);
                    assert(x.deep_view() == p.inputs@[i as int].deep_view());
                }
            }
            assert(dv =~= tgt);
        }
        i += 1;
    }
    proof {
        assert(inputs.deep_view() =~= p.inputs.deep_view());
    }
    Psbt { unsigned_tx: dup_transaction(&p.unsigned_tx), inputs }
}

} // verus!
