use vstd::prelude::*;
use crate::bytes::bytes_eq;
use crate::crypto::{pubkey_hash, pubkey_hash_of, signature_valid, verify_signature};
use crate::params::COINBASE_MATURITY;
use crate::transaction::{outpoint_of, sighash_of, InputV, OutputV, Transaction, TxInput, TxV};
use crate::utxo::{OutKey, UtxoSet, UtxoV};

verus! {

/// Addition that stops at `u64::MAX`.
pub open spec fn sat_add(a: u64, b: u64) -> u64 {
    if a as int + b as int > u64::MAX as int {
        u64::MAX
    } else {
        (a + b) as u64
    }
}

pub fn saturating_add_u64(a: u64, b: u64) -> (r: u64)
    ensures
        r == sat_add(a, b),
{
    if a > u64::MAX - b {
        u64::MAX
    } else {
        a + b
    }
}

/// An output can be spent at `height`: a coinbase output only once it has matured.
pub open spec fn mature(u: UtxoV, height: u64) -> bool {
    u.is_coinbase ==> u.height as int + COINBASE_MATURITY as int <= height as int
}

/// The rules one input of a transaction with digest `sighash` must meet.
pub open spec fn input_ok(i: InputV, utxos: Map<OutKey, UtxoV>, height: u64, sighash: Seq<u8>) -> bool {
    &&& utxos.contains_key(outpoint_of(i))
    &&& mature(utxos[outpoint_of(i)], height)
    &&& pubkey_hash_of(i.pubkey) == utxos[outpoint_of(i)].pubkey_hash
    &&& signature_valid(sighash, i.signature, i.pubkey)
}

/// No outpoint is spent twice by the inputs.
pub open spec fn distinct_outpoints(s: Seq<InputV>) -> bool {
    forall|a: int, b: int|
        0 <= a < b < s.len() ==> outpoint_of(#[trigger] s[a]) != outpoint_of(#[trigger] s[b])
}

/// Saturating sum of the values the inputs spend.
pub open spec fn input_sum(s: Seq<InputV>, utxos: Map<OutKey, UtxoV>) -> u64
    decreases s.len(),
{
    if s.len() == 0 {
        0
    } else {
        sat_add(input_sum(s.drop_last(), utxos), utxos[outpoint_of(s.last())].value)
    }
}

/// Saturating sum of the output values.
pub open spec fn output_sum(s: Seq<OutputV>) -> u64
    decreases s.len(),
{
    if s.len() == 0 {
        0
    } else {
        sat_add(output_sum(s.drop_last()), s.last().value)
    }
}

/// Exact sum of the values the inputs spend.
pub open spec fn input_total(s: Seq<InputV>, utxos: Map<OutKey, UtxoV>) -> int
    decreases s.len(),
{
    if s.len() == 0 {
        0
    } else {
        input_total(s.drop_last(), utxos) + utxos[outpoint_of(s.last())].value
    }
}

/// Exact sum of the output values.
pub open spec fn output_total(s: Seq<OutputV>) -> int
    decreases s.len(),
{
    if s.len() == 0 {
        0
    } else {
        output_total(s.drop_last()) + s.last().value
    }
}

/// Every input refers to a known output.
pub open spec fn inputs_known(s: Seq<InputV>, utxos: Map<OutKey, UtxoV>) -> bool {
    forall|j: int| 0 <= j < s.len() ==> utxos.contains_key(outpoint_of(#[trigger] s[j]))
}

/// The consensus rules on a transaction against an unspent set at a height.
/// A transaction without inputs passes: the block rules judge a coinbase.
pub open spec fn tx_valid(t: TxV, utxos: Map<OutKey, UtxoV>, height: u64) -> bool {
    t.inputs.len() == 0 || {
        &&& distinct_outpoints(t.inputs)
        &&& forall|j: int|
            0 <= j < t.inputs.len() ==> input_ok(#[trigger] t.inputs[j], utxos, height, sighash_of(t))
        &&& input_sum(t.inputs, utxos) >= output_sum(t.outputs)
    }
}

/// Whether one of the first `upto` inputs spends `(txid, index)`.
fn spends_before(inputs: &Vec<TxInput>, upto: usize, txid: &[u8], index: u32) -> (r: bool)
    requires
        upto <= inputs@.len(),
    ensures
        r == exists|j: int| 0 <= j < upto && #[trigger] outpoint_of(inputs@[j]@) == (txid@, index),
{
    let mut j: usize = 0;
    while j < upto
        invariant
            upto <= inputs@.len(),
            0 <= j <= upto,
            forall|k: int| 0 <= k < j ==> #[trigger] outpoint_of(inputs@[k]@) != (txid@, index),
        decreases upto - j,
    {
        if inputs[j].index == index && bytes_eq(inputs[j].txid.as_slice(), txid) {
            assert(outpoint_of(inputs@[j as int]@) == (txid@, index));
            return true;
        }
        j = j + 1;
    }
    false
}

/// Saturating sum of the output values of `tx`.
pub fn sum_outputs(tx: &Transaction) -> (r: u64)
    ensures
        r == output_sum(tx@.outputs),
{
    let ghost outs = tx@.outputs;
    let mut sum: u64 = 0;
    let mut k: usize = 0;
    while k < tx.outputs.len()
        invariant
            outs == tx@.outputs,
            0 <= k <= outs.len(),
            sum == output_sum(outs.take(k as int)),
        decreases outs.len() - k,
    {
        assert(outs.take(k + 1).drop_last() =~= outs.take(k as int));
        sum = saturating_add_u64(sum, tx.outputs[k].value);
        k = k + 1;
    }
    assert(outs.take(outs.len() as int) =~= outs);
    sum
}

/// The consensus rules of a transaction: distinct outpoints, each known, mature,
/// owned by the signing key and signed over the sighash, and no more value out
/// than in. It reads the unspent set and never changes it.
pub fn validate_transaction(tx: &Transaction, utxos: &UtxoSet, current_height: u64) -> (r: bool)
    requires
        utxos.wf(),
    ensures
        r == tx_valid(tx@, utxos@, current_height),
{
    if tx.inputs.len() == 0 {
        return true;
    }
    let ghost t = tx@;
    let ghost m = utxos@;
    let sighash = tx.sighash();
    let mut input_sum_acc: u64 = 0;
    let mut i: usize = 0;
    while i < tx.inputs.len()
        invariant
            utxos.wf(),
            t == tx@,
            m == utxos@,
            sighash@ == sighash_of(t),
            0 <= i <= t.inputs.len(),
            distinct_outpoints(t.inputs.take(i as int)),
            forall|j: int| 0 <= j < i ==> input_ok(#[trigger] t.inputs[j], m, current_height, sighash_of(t)),
            input_sum_acc == input_sum(t.inputs.take(i as int), m),
        decreases t.inputs.len() - i,
    {
        let input = &tx.inputs[i];
        assert(t.inputs[i as int] == input@);
        if spends_before(&tx.inputs, i, input.txid.as_slice(), input.index) {
            assert(!distinct_outpoints(t.inputs)) by {
                let j = choose|j: int| 0 <= j < i && #[trigger] outpoint_of(tx.inputs@[j]@) == (input.txid@, input.index);
                assert(t.inputs[j] == tx.inputs@[j]@);
            }
            return false;
        }
        let utxo = match utxos.get(input.txid.as_slice(), input.index) {
            Some(u) => u,
            None => {
                assert(!input_ok(t.inputs[i as int], m, current_height, sighash_of(t)));
                return false;
            },
        };
        if utxo.is_coinbase && (utxo.height > current_height || current_height - utxo.height
            < COINBASE_MATURITY) {
            assert(!input_ok(t.inputs[i as int], m, current_height, sighash_of(t)));
            return false;
        }
        let owner = pubkey_hash(input.pubkey.as_slice());
        if !bytes_eq(owner.as_slice(), utxo.pubkey_hash.as_slice()) {
            assert(!input_ok(t.inputs[i as int], m, current_height, sighash_of(t)));
            return false;
        }
        if !verify_signature(sighash.as_slice(), input.signature.as_slice(), input.pubkey.as_slice()) {
            assert(!input_ok(t.inputs[i as int], m, current_height, sighash_of(t)));
            return false;
        }
        assert(t.inputs.take(i + 1).drop_last() =~= t.inputs.take(i as int));
        assert forall|a: int, b: int| 0 <= a < b < t.inputs.take(i + 1).len() implies outpoint_of(
            #[trigger] t.inputs.take(i + 1)[a],
        ) != outpoint_of(#[trigger] t.inputs.take(i + 1)[b]) by {
            if b == i {
                assert(t.inputs[a] == tx.inputs@[a]@);
            } else {
                assert(t.inputs.take(i as int)[a] == t.inputs.take(i + 1)[a]);
                assert(t.inputs.take(i as int)[b] == t.inputs.take(i + 1)[b]);
            }
        }
        input_sum_acc = saturating_add_u64(input_sum_acc, utxo.value);
        i = i + 1;
    }
    assert(t.inputs.take(t.inputs.len() as int) =~= t.inputs);
    let output_sum_acc = sum_outputs(tx);
    input_sum_acc >= output_sum_acc
}

} // verus!
