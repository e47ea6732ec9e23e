use vstd::prelude::*;
use crate::bytes::{framed, le32, le64, push_framed, push_u32, push_u64, copy_bytes};
use crate::crypto::{double_sha256, double_sha256_of};

verus! {

/// What an input is, as plain values.
pub struct InputV {
    pub txid: Seq<u8>,
    pub index: u32,
    pub signature: Seq<u8>,
    pub pubkey: Seq<u8>,
}

/// What an output is, as plain values.
pub struct OutputV {
    pub value: u64,
    pub pubkey_hash: Seq<u8>,
}

/// What a transaction is, as plain values.
pub struct TxV {
    pub inputs: Seq<InputV>,
    pub outputs: Seq<OutputV>,
}

/// A reference to an earlier output, with the key that unlocks it.
pub struct TxInput {
    pub txid: Vec<u8>,
    pub index: u32,
    pub signature: Vec<u8>,
    pub pubkey: Vec<u8>,
}

/// An amount locked to the hash of a public key.
pub struct TxOutput {
    pub value: u64,
    pub pubkey_hash: Vec<u8>,
}

/// A value transfer: it spends `inputs` and creates `outputs`. With no
/// inputs it is a coinbase.
pub struct Transaction {
    pub inputs: Vec<TxInput>,
    pub outputs: Vec<TxOutput>,
}

impl View for TxInput {
    type V = InputV;

    open spec fn view(&self) -> InputV {
        InputV {
            txid: self.txid@,
            index: self.index,
            signature: self.signature@,
            pubkey: self.pubkey@,
        }
    }
}

impl View for TxOutput {
    type V = OutputV;

    open spec fn view(&self) -> OutputV {
        OutputV { value: self.value, pubkey_hash: self.pubkey_hash@ }
    }
}

impl View for Transaction {
    type V = TxV;

    open spec fn view(&self) -> TxV {
        TxV {
            inputs: self.inputs@.map_values(|i: TxInput| i@),
            outputs: self.outputs@.map_values(|o: TxOutput| o@),
        }
    }
}

impl Clone for TxInput {
    fn clone(&self) -> (r: Self)
        ensures
            r@ == self@,
    {
        TxInput {
            txid: copy_bytes(&self.txid),
            index: self.index,
            signature: copy_bytes(&self.signature),
            pubkey: copy_bytes(&self.pubkey),
        }
    }
}

impl Clone for TxOutput {
    fn clone(&self) -> (r: Self)
        ensures
            r@ == self@,
    {
        TxOutput { value: self.value, pubkey_hash: copy_bytes(&self.pubkey_hash) }
    }
}

impl Clone for Transaction {
    fn clone(&self) -> (r: Self)
        ensures
            r@ == self@,
    {
        let mut inputs: Vec<TxInput> = Vec::new();
        let mut i: usize = 0;
        while i < self.inputs.len()
            invariant
                0 <= i <= self.inputs@.len(),
                inputs@.len() == i,
                forall|j: int| 0 <= j < i ==> #[trigger] inputs@[j]@ == self.inputs@[j]@,
            decreases self.inputs@.len() - i,
        {
            inputs.push(self.inputs[i].clone());
            i = i + 1;
        }
        let mut outputs: Vec<TxOutput> = Vec::new();
        let mut k: usize = 0;
        while k < self.outputs.len()
            invariant
                0 <= k <= self.outputs@.len(),
                outputs@.len() == k,
                forall|j: int| 0 <= j < k ==> #[trigger] outputs@[j]@ == self.outputs@[j]@,
            decreases self.outputs@.len() - k,
        {
            outputs.push(self.outputs[k].clone());
            k = k + 1;
        }
        let r = Transaction { inputs, outputs };
        assert(r@.inputs =~= self@.inputs);
        assert(r@.outputs =~= self@.outputs);
        r
    }
}

/// Canonical bytes of an input; with `with_sig` false the signature is
/// written as empty.
pub open spec fn input_bytes(i: InputV, with_sig: bool) -> Seq<u8> {
    framed(i.txid) + le32(i.index) + framed(if with_sig { i.signature } else { Seq::empty() })
        + framed(i.pubkey)
}

/// Canonical bytes of an output.
pub open spec fn output_bytes(o: OutputV) -> Seq<u8> {
    le64(o.value) + framed(o.pubkey_hash)
}

pub open spec fn inputs_bytes(s: Seq<InputV>, with_sig: bool) -> Seq<u8>
    decreases s.len(),
{
    if s.len() == 0 {
        Seq::empty()
    } else {
        inputs_bytes(s.drop_last(), with_sig) + input_bytes(s.last(), with_sig)
    }
}

pub open spec fn outputs_bytes(s: Seq<OutputV>) -> Seq<u8>
    decreases s.len(),
{
    if s.len() == 0 {
        Seq::empty()
    } else {
        outputs_bytes(s.drop_last()) + output_bytes(s.last())
    }
}

/// Canonical serialization of a transaction: the input count, the inputs,
/// the output count, the outputs.
pub open spec fn tx_bytes(t: TxV, with_sig: bool) -> Seq<u8> {
    le64(t.inputs.len() as u64) + inputs_bytes(t.inputs, with_sig) + le64(t.outputs.len() as u64)
        + outputs_bytes(t.outputs)
}

/// The transaction id: double SHA-256 of the full serialization.
pub open spec fn txid_of(t: TxV) -> Seq<u8> {
    double_sha256_of(tx_bytes(t, true))
}

/// The digest each input signs: double SHA-256 of the serialization with
/// every signature left empty, so that a signature never covers itself.
pub open spec fn sighash_of(t: TxV) -> Seq<u8> {
    double_sha256_of(tx_bytes(t, false))
}

/// The size estimate used by policy limits.
pub open spec fn size_estimate(t: TxV) -> int {
    (t.inputs.len() * 148 + t.outputs.len() * 34 + 10) as int
}

/// The outpoint that an input spends.
pub open spec fn outpoint_of(i: InputV) -> (Seq<u8>, u32) {
    (i.txid, i.index)
}

impl Transaction {
    /// Appends the canonical serialization.
    pub fn encode(&self, out: &mut Vec<u8>, with_sig: bool)
        ensures
            final(out)@ == old(out)@ + tx_bytes(self@, with_sig),
    {
        let ghost start = out@;
        let ghost t = self@;
        push_u64(out, self.inputs.len() as u64);
        let mut i: usize = 0;
        while i < self.inputs.len()
            invariant
                0 <= i <= self.inputs@.len(),
                t == self@,
                out@ == start + le64(t.inputs.len() as u64) + inputs_bytes(
                    t.inputs.take(i as int),
                    with_sig,
                ),
            decreases self.inputs@.len() - i,
        {
            let inp = &self.inputs[i];
            push_framed(out, inp.txid.as_slice());
            push_u32(out, inp.index);
            if with_sig {
                push_framed(out, inp.signature.as_slice());
            } else {
                let empty: Vec<u8> = Vec::new();
                push_framed(out, empty.as_slice());
                assert(empty@ =~= Seq::<u8>::empty());
            }
            push_framed(out, inp.pubkey.as_slice());
            assert(t.inputs.take(i + 1).drop_last() =~= t.inputs.take(i as int));
            assert(t.inputs[i as int] == inp@);
            i = i + 1;
        }
        assert(t.inputs.take(t.inputs.len() as int) =~= t.inputs);
        push_u64(out, self.outputs.len() as u64);
        let mut k: usize = 0;
        while k < self.outputs.len()
            invariant
                0 <= k <= self.outputs@.len(),
                t == self@,
                out@ == start + le64(t.inputs.len() as u64) + inputs_bytes(t.inputs, with_sig)
                    + le64(t.outputs.len() as u64) + outputs_bytes(t.outputs.take(k as int)),
            decreases self.outputs@.len() - k,
        {
            let o = &self.outputs[k];
            push_u64(out, o.value);
            push_framed(out, o.pubkey_hash.as_slice());
            assert(t.outputs.take(k + 1).drop_last() =~= t.outputs.take(k as int));
            assert(t.outputs[k as int] == o@);
            k = k + 1;
        }
        assert(t.outputs.take(t.outputs.len() as int) =~= t.outputs);
        assert(out@ =~= start + tx_bytes(t, with_sig));
    }

    /// Double SHA-256 of the full serialization.
    pub fn txid(&self) -> (r: Vec<u8>)
        ensures
            r@ == txid_of(self@),
            r@.len() == 32,
    {
        let mut buf: Vec<u8> = Vec::new();
        self.encode(&mut buf, true);
        assert(buf@ =~= tx_bytes(self@, true));
        double_sha256(buf.as_slice())
    }

    /// The digest that every input's signature commits to.
    pub fn sighash(&self) -> (r: Vec<u8>)
        ensures
            r@ == sighash_of(self@),
            r@.len() == 32,
    {
        let mut buf: Vec<u8> = Vec::new();
        self.encode(&mut buf, false);
        assert(buf@ =~= tx_bytes(self@, false));
        double_sha256(buf.as_slice())
    }

    /// The policy size estimate, saturated at `usize::MAX`.
    pub fn serialized_size(&self) -> (r: usize)
        ensures
            r as int == if size_estimate(self@) <= usize::MAX {
                size_estimate(self@)
            } else {
                usize::MAX as int
            },
    {
        let n_in = self.inputs.len();
        let n_out = self.outputs.len();
        if n_in > (usize::MAX - 10) / 148 {
            return usize::MAX;
        }
        let a = n_in * 148;
        if n_out > (usize::MAX - 10 - a) / 34 {
            return usize::MAX;
        }
        a + n_out * 34 + 10
    }
}

} // verus!
