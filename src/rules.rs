use vstd::prelude::*;
use crate::block::{block_bytes, block_pow_ok, merkle_root, merkle_spec, Block, BlockV};
use crate::bytes::{bytes_eq, copy_bytes};
use crate::difficulty::{calculate_next_target, expected_target, median_time_past, mtp_spec};
use crate::params::{block_reward, block_reward_spec, MAX_BLOCK_SIZE, MAX_FUTURE_DRIFT};
use crate::transaction::{outpoint_of, txid_of, InputV, OutputV, Transaction, TxV};
use crate::utxo::{OutKey, UtxoSet, UtxoV, UTXO};
use crate::validation::{
    input_sum, inputs_known, output_sum, sat_add, saturating_add_u64, sum_outputs, tx_valid,
    validate_transaction,
};

verus! {

/// The unspent entry an output becomes in a block at `height`.
pub open spec fn utxo_of(o: OutputV, height: u64, is_coinbase: bool) -> UtxoV {
    UtxoV { value: o.value, pubkey_hash: o.pubkey_hash, height, is_coinbase }
}

/// `m` with the outpoints of `ins` removed, in order.
pub open spec fn spend_inputs(m: Map<OutKey, UtxoV>, ins: Seq<InputV>) -> Map<OutKey, UtxoV>
    decreases ins.len(),
{
    if ins.len() == 0 {
        m
    } else {
        spend_inputs(m, ins.drop_last()).remove(outpoint_of(ins.last()))
    }
}

/// `m` with the outputs of transaction `txid` inserted, in order.
pub open spec fn add_outputs(
    m: Map<OutKey, UtxoV>,
    txid: Seq<u8>,
    outs: Seq<OutputV>,
    height: u64,
    is_coinbase: bool,
) -> Map<OutKey, UtxoV>
    decreases outs.len(),
{
    if outs.len() == 0 {
        m
    } else {
        add_outputs(m, txid, outs.drop_last(), height, is_coinbase).insert(
            (txid, (outs.len() - 1) as u32),
            utxo_of(outs.last(), height, is_coinbase),
        )
    }
}

/// The unspent set after one transaction.
pub open spec fn apply_tx(m: Map<OutKey, UtxoV>, t: TxV, height: u64, is_coinbase: bool) -> Map<
    OutKey,
    UtxoV,
> {
    add_outputs(spend_inputs(m, t.inputs), txid_of(t), t.outputs, height, is_coinbase)
}

/// The unspent set after a block's transactions, in order; only a first
/// transaction without inputs makes coinbase entries.
pub open spec fn apply_txs(m: Map<OutKey, UtxoV>, txs: Seq<TxV>, height: u64) -> Map<OutKey, UtxoV>
    decreases txs.len(),
{
    if txs.len() == 0 {
        m
    } else {
        apply_tx(
            apply_txs(m, txs.drop_last(), height),
            txs.last(),
            height,
            txs.len() == 1 && txs.last().inputs.len() == 0,
        )
    }
}

/// The unspent set that replaying `blocks` from nothing gives.
pub open spec fn replay(blocks: Seq<BlockV>) -> Map<OutKey, UtxoV>
    decreases blocks.len(),
{
    if blocks.len() == 0 {
        Map::empty()
    } else {
        apply_txs(replay(blocks.drop_last()), blocks.last().transactions, blocks.last().header.height)
    }
}

/// The fee a transaction pays: what it spends less what it creates, or
/// nothing if an input is unknown or it creates more than it spends.
pub open spec fn fee_spec(t: TxV, m: Map<OutKey, UtxoV>) -> u64 {
    if inputs_known(t.inputs, m) && input_sum(t.inputs, m) >= output_sum(t.outputs) {
        (input_sum(t.inputs, m) - output_sum(t.outputs)) as u64
    } else {
        0
    }
}

/// Saturating sum of the fees of every transaction but the first.
pub open spec fn fees_sum(txs: Seq<TxV>, m: Map<OutKey, UtxoV>) -> u64
    decreases txs.len(),
{
    if txs.len() <= 1 {
        0
    } else {
        sat_add(fees_sum(txs.drop_last(), m), fee_spec(txs.last(), m))
    }
}

/// The block has a coinbase first, no other transaction without inputs, and
/// the coinbase creates at most the reward plus the fees.
pub open spec fn coinbase_ok(b: BlockV, m: Map<OutKey, UtxoV>) -> bool {
    &&& b.transactions.len() > 0
    &&& b.transactions[0].inputs.len() == 0
    &&& forall|i: int| 1 <= i < b.transactions.len() ==> #[trigger] b.transactions[i].inputs.len() > 0
    &&& output_sum(b.transactions[0].outputs) <= sat_add(
        block_reward_spec(b.header.height),
        fees_sum(b.transactions, m),
    )
}

/// No outpoint is spent by two different transactions of the list.
pub open spec fn spends_distinct(txs: Seq<TxV>) -> bool {
    forall|a: int, b: int, i: int, j: int|
        0 <= a < b < txs.len() && 0 <= i < txs[a].inputs.len() && 0 <= j < txs[b].inputs.len()
            ==> outpoint_of(#[trigger] txs[a].inputs[i]) != outpoint_of(#[trigger] txs[b].inputs[j])
}

/// Height and link to the previous block.
pub open spec fn link_ok(prefix: Seq<BlockV>, b: BlockV) -> bool {
    if prefix.len() == 0 {
        b.header.height == 0
    } else {
        b.header.height == prefix.len() && b.header.prev_hash == prefix.last().hash
    }
}

/// The rules a block must meet to follow `prefix`, whose unspent set is `m`;
/// all but the bound against the local clock.
#[verifier::opaque]
pub open spec fn block_rules(prefix: Seq<BlockV>, m: Map<OutKey, UtxoV>, b: BlockV) -> bool {
    &&& link_ok(prefix, b)
    &&& prefix.len() > 0 ==> b.header.timestamp > mtp_spec(prefix)
    &&& b.header.target == expected_target(prefix)
    &&& block_pow_ok(b)
    &&& merkle_spec(b.transactions) == b.header.merkle_root
    &&& block_bytes(b).len() <= MAX_BLOCK_SIZE
    &&& coinbase_ok(b, m)
    &&& spends_distinct(b.transactions)
    &&& forall|i: int|
        0 <= i < b.transactions.len() ==> tx_valid(#[trigger] b.transactions[i], m, b.header.height)
}

/// A block after the first is at most `MAX_FUTURE_DRIFT` seconds ahead of `now`.
pub open spec fn time_ok(prefix: Seq<BlockV>, b: BlockV, now: i64) -> bool {
    prefix.len() > 0 ==> b.header.timestamp as int <= now as int + MAX_FUTURE_DRIFT as int
}

/// Every block meets the rules against the blocks before it.
pub open spec fn chain_valid(blocks: Seq<BlockV>) -> bool {
    forall|i: int|
        0 <= i < blocks.len() ==> block_rules(
            #[trigger] blocks.take(i),
            replay(blocks.take(i)),
            blocks[i],
        )
}

/// A prefix of a valid chain is valid.
pub proof fn lemma_chain_valid_prefix(s: Seq<BlockV>, k: int)
    requires
        chain_valid(s),
        0 <= k <= s.len(),
    ensures
        chain_valid(s.take(k)),
{
    assert forall|i: int| 0 <= i < s.take(k).len() implies block_rules(
        #[trigger] s.take(k).take(i),
        replay(s.take(k).take(i)),
        s.take(k)[i],
    ) by {
        assert(s.take(k).take(i) =~= s.take(i));
        assert(s.take(k)[i] == s[i]);
        assert(block_rules(s.take(i), replay(s.take(i)), s[i]));
    }
}

/// A valid chain stays valid when a block that meets the rules after it is appended.
pub proof fn lemma_chain_valid_push(s: Seq<BlockV>, b: BlockV)
    requires
        chain_valid(s),
        block_rules(s, replay(s), b),
    ensures
        chain_valid(s.push(b)),
{
    let t = s.push(b);
    assert forall|i: int| 0 <= i < t.len() implies block_rules(
        #[trigger] t.take(i),
        replay(t.take(i)),
        t[i],
    ) by {
        if i < s.len() {
            assert(t.take(i) =~= s.take(i));
            assert(t[i] == s[i]);
            assert(block_rules(s.take(i), replay(s.take(i)), s[i]));
        } else {
            assert(t.take(i) =~= s);
        }
    }
}

pub open spec fn view_blocks(s: Seq<Block>) -> Seq<BlockV> {
    s.map_values(|b: Block| b@)
}

pub open spec fn view_txs(s: Seq<Transaction>) -> Seq<TxV> {
    s.map_values(|t: Transaction| t@)
}

/// The fee that `tx` pays against `utxos`.
pub fn calculate_fee(tx: &Transaction, utxos: &UtxoSet) -> (r: u64)
    requires
        utxos.wf(),
    ensures
        r == fee_spec(tx@, utxos@),
{
    let ghost ins = tx@.inputs;
    let ghost m = utxos@;
    let mut acc: u64 = 0;
    let mut k: usize = 0;
    while k < tx.inputs.len()
        invariant
            utxos.wf(),
            ins == tx@.inputs,
            m == utxos@,
            0 <= k <= ins.len(),
            inputs_known(ins.take(k as int), m),
            acc == input_sum(ins.take(k as int), m),
        decreases ins.len() - k,
    {
        let inp = &tx.inputs[k];
        assert(ins[k as int] == inp@);
        match utxos.get(inp.txid.as_slice(), inp.index) {
            Some(u) => {
                acc = saturating_add_u64(acc, u.value);
            },
            None => {
                return 0;
            },
        }
        assert(ins.take(k + 1).drop_last() =~= ins.take(k as int));
        assert forall|j: int| 0 <= j < ins.take(k + 1).len() implies m.contains_key(
            outpoint_of(#[trigger] ins.take(k + 1)[j]),
        ) by {
            if j < k {
                assert(ins.take(k as int)[j] == ins.take(k + 1)[j]);
            }
        }
        k = k + 1;
    }
    assert(ins.take(ins.len() as int) =~= ins);
    let out = sum_outputs(tx);
    if acc >= out {
        acc - out
    } else {
        0
    }
}

/// Whether any input of `tx` spends `(txid, index)`.
fn tx_spends(tx: &Transaction, txid: &[u8], index: u32) -> (r: bool)
    ensures
        r == exists|j: int|
            0 <= j < tx@.inputs.len() && #[trigger] outpoint_of(tx@.inputs[j]) == (txid@, index),
{
    let mut j: usize = 0;
    while j < tx.inputs.len()
        invariant
            0 <= j <= tx@.inputs.len(),
            forall|k: int| 0 <= k < j ==> #[trigger] outpoint_of(tx@.inputs[k]) != (txid@, index),
        decreases tx@.inputs.len() - j,
    {
        assert(tx@.inputs[j as int] == tx.inputs@[j as int]@);
        if tx.inputs[j].index == index && bytes_eq(tx.inputs[j].txid.as_slice(), txid) {
            assert(outpoint_of(tx@.inputs[j as int]) == (txid@, index));
            return true;
        }
        j = j + 1;
    }
    false
}

/// Whether no outpoint is spent by two transactions of `txs`.
pub fn check_spends_distinct(txs: &Vec<Transaction>) -> (r: bool)
    ensures
        r == spends_distinct(view_txs(txs@)),
{
    let ghost tv = view_txs(txs@);
    let mut b: usize = 0;
    while b < txs.len()
        invariant
            tv == view_txs(txs@),
            0 <= b <= tv.len(),
            forall|a: int, c: int, i: int, j: int|
                0 <= a < c < b && 0 <= i < tv[a].inputs.len() && 0 <= j < tv[c].inputs.len()
                    ==> outpoint_of(#[trigger] tv[a].inputs[i]) != outpoint_of(
                    #[trigger] tv[c].inputs[j],
                ),
        decreases tv.len() - b,
    {
        let txb = &txs[b];
        assert(tv[b as int] == txb@);
        let mut j: usize = 0;
        while j < txb.inputs.len()
            invariant
                tv == view_txs(txs@),
                b < tv.len(),
                tv[b as int] == txb@,
                0 <= j <= txb@.inputs.len(),
                forall|a: int, c: int, i: int, k: int|
                    0 <= a < c < b && 0 <= i < tv[a].inputs.len() && 0 <= k < tv[c].inputs.len()
                        ==> outpoint_of(#[trigger] tv[a].inputs[i]) != outpoint_of(
                        #[trigger] tv[c].inputs[k],
                    ),
                forall|a: int, i: int, k: int|
                    0 <= a < b && 0 <= i < tv[a].inputs.len() && 0 <= k < j ==> outpoint_of(
                        #[trigger] tv[a].inputs[i],
                    ) != outpoint_of(#[trigger] tv[b as int].inputs[k]),
            decreases txb@.inputs.len() - j,
        {
            let inp = &txb.inputs[j];
            assert(txb@.inputs[j as int] == inp@);
            let mut a: usize = 0;
            while a < b
                invariant
                    tv == view_txs(txs@),
                    b < tv.len(),
                    tv[b as int] == txb@,
                    j < txb@.inputs.len(),
                    txb@.inputs[j as int] == inp@,
                    0 <= a <= b,
                    forall|a2: int, i: int|
                        0 <= a2 < a && 0 <= i < tv[a2].inputs.len() ==> outpoint_of(
                            #[trigger] tv[a2].inputs[i],
                        ) != outpoint_of(inp@),
                decreases b - a,
            {
                assert(tv[a as int] == txs[a as int]@);
                if tx_spends(&txs[a], inp.txid.as_slice(), inp.index) {
                    return false;
                }
                a = a + 1;
            }
            j = j + 1;
        }
        b = b + 1;
    }
    true
}

/// Whether `block` meets the rules after `prefix`, whose unspent set is `utxos`.
pub fn check_block(prefix: &[Block], utxos: &UtxoSet, block: &Block) -> (r: bool)
    requires
        utxos.wf(),
    ensures
        r == block_rules(view_blocks(prefix@), utxos@, block@),
{
    reveal(block_rules);
    let ghost pv = view_blocks(prefix@);
    let ghost b = block@;
    let ghost m = utxos@;
    let n = prefix.len();
    if n == 0 {
        if block.header.height != 0 {
            return false;
        }
    } else {
        let prev = &prefix[n - 1];
        assert(pv.last() == prev@);
        if block.header.height != n as u64 {
            return false;
        }
        if !bytes_eq(block.header.prev_hash.as_slice(), prev.hash.as_slice()) {
            return false;
        }
        let mtp = median_time_past(prefix);
        if block.header.timestamp <= mtp {
            return false;
        }
    }
    let expected = calculate_next_target(prefix);
    if !bytes_eq(&block.header.target, &expected) {
        return false;
    }
    if !block.verify_pow() {
        return false;
    }
    let root = merkle_root(block.transactions.as_slice());
    if !bytes_eq(root.as_slice(), block.header.merkle_root.as_slice()) {
        return false;
    }
    if block.serialized_len() > MAX_BLOCK_SIZE {
        return false;
    }
    let ntx = block.transactions.len();
    if ntx == 0 {
        return false;
    }
    assert(b.transactions[0] == block.transactions[0]@);
    if block.transactions[0].inputs.len() != 0 {
        return false;
    }
    let mut fees: u64 = 0;
    let mut i: usize = 1;
    assert(b.transactions.take(1).len() == 1);
    while i < ntx
        invariant
            utxos.wf(),
            m == utxos@,
            b == block@,
            ntx == b.transactions.len(),
            1 <= i <= ntx,
            forall|k: int| 1 <= k < i ==> #[trigger] b.transactions[k].inputs.len() > 0,
            fees == fees_sum(b.transactions.take(i as int), m),
        decreases ntx - i,
    {
        proof {
            reveal(block_rules);
        }
        assert(b.transactions[i as int] == block.transactions[i as int]@);
        if block.transactions[i].inputs.len() == 0 {
            return false;
        }
        let f = calculate_fee(&block.transactions[i], utxos);
        assert(b.transactions.take(i + 1).drop_last() =~= b.transactions.take(i as int));
        fees = saturating_add_u64(fees, f);
        i = i + 1;
    }
    assert(b.transactions.take(ntx as int) =~= b.transactions);
    let minted = sum_outputs(&block.transactions[0]);
    if minted > saturating_add_u64(block_reward(block.header.height), fees) {
        return false;
    }
    if !check_spends_distinct(&block.transactions) {
        return false;
    }
    let mut k: usize = 0;
    while k < ntx
        invariant
            utxos.wf(),
            m == utxos@,
            b == block@,
            ntx == b.transactions.len(),
            0 <= k <= ntx,
            forall|j: int| 0 <= j < k ==> tx_valid(#[trigger] b.transactions[j], m, b.header.height),
        decreases ntx - k,
    {
        proof {
            reveal(block_rules);
        }
        assert(b.transactions[k as int] == block.transactions[k as int]@);
        if !validate_transaction(&block.transactions[k], utxos, block.header.height) {
            return false;
        }
        k = k + 1;
    }
    true
}

/// Removes the outpoints that `tx` spends from `utxos`.
pub fn spend_all_inputs(utxos: &mut UtxoSet, tx: &Transaction)
    requires
        old(utxos).wf(),
    ensures
        final(utxos).wf(),
        final(utxos)@ == spend_inputs(old(utxos)@, tx@.inputs),
{
    let ghost t = tx@;
    let ghost m0 = utxos@;
    let mut k: usize = 0;
    assert(t.inputs.take(0) =~= Seq::<InputV>::empty());
    while k < tx.inputs.len()
        invariant
            utxos.wf(),
            t == tx@,
            0 <= k <= t.inputs.len(),
            utxos@ == spend_inputs(m0, t.inputs.take(k as int)),
        decreases t.inputs.len() - k,
    {
        let inp = &tx.inputs[k];
        assert(t.inputs[k as int] == inp@);
        utxos.remove(inp.txid.as_slice(), inp.index);
        assert(t.inputs.take(k + 1).drop_last() =~= t.inputs.take(k as int));
        k = k + 1;
    }
    assert(t.inputs.take(t.inputs.len() as int) =~= t.inputs);
}

/// Applies one transaction to `utxos`: its inputs leave, its outputs enter.
pub fn apply_transaction(utxos: &mut UtxoSet, tx: &Transaction, height: u64, is_coinbase: bool)
    requires
        old(utxos).wf(),
    ensures
        final(utxos).wf(),
        final(utxos)@ == apply_tx(old(utxos)@, tx@, height, is_coinbase),
{
    let ghost t = tx@;
    spend_all_inputs(utxos, tx);
    let ghost m1 = utxos@;
    let id = tx.txid();
    let mut o: usize = 0;
    assert(t.outputs.take(0) =~= Seq::<OutputV>::empty());
    while o < tx.outputs.len()
        invariant
            utxos.wf(),
            t == tx@,
            id@ == txid_of(t),
            0 <= o <= t.outputs.len(),
            utxos@ == add_outputs(m1, id@, t.outputs.take(o as int), height, is_coinbase),
        decreases t.outputs.len() - o,
    {
        let out = &tx.outputs[o];
        assert(t.outputs[o as int] == out@);
        let u = UTXO {
            value: out.value,
            pubkey_hash: copy_bytes(&out.pubkey_hash),
            height,
            is_coinbase,
        };
        utxos.insert(copy_bytes(&id), o as u32, u);
        assert(t.outputs.take(o + 1).drop_last() =~= t.outputs.take(o as int));
        o = o + 1;
    }
    assert(t.outputs.take(t.outputs.len() as int) =~= t.outputs);
}

/// Applies every transaction of `block` to `utxos`, in order.
pub fn apply_block(utxos: &mut UtxoSet, block: &Block)
    requires
        old(utxos).wf(),
    ensures
        final(utxos).wf(),
        final(utxos)@ == apply_txs(old(utxos)@, block@.transactions, block@.header.height),
{
    let ghost tv = block@.transactions;
    let ghost m0 = utxos@;
    let h = block.header.height;
    let mut i: usize = 0;
    assert(tv.take(0) =~= Seq::<TxV>::empty());
    while i < block.transactions.len()
        invariant
            utxos.wf(),
            tv == block@.transactions,
            h == block@.header.height,
            0 <= i <= tv.len(),
            utxos@ == apply_txs(m0, tv.take(i as int), h),
        decreases tv.len() - i,
    {
        let tx = &block.transactions[i];
        assert(tv[i as int] == tx@);
        let cb = i == 0 && tx.inputs.len() == 0;
        apply_transaction(utxos, tx, h, cb);
        assert(tv.take(i + 1).drop_last() =~= tv.take(i as int));
        i = i + 1;
    }
    assert(tv.take(tv.len() as int) =~= tv);
}

/// Whether a block after the first is at most `MAX_FUTURE_DRIFT` seconds ahead of `now`.
pub fn check_time(prefix_len: usize, block: &Block, now: i64) -> (r: bool)
    ensures
        r == (prefix_len > 0 ==> block@.header.timestamp as int <= now as int
            + MAX_FUTURE_DRIFT as int),
{
    if prefix_len == 0 {
        return true;
    }
    block.header.timestamp as i128 <= now as i128 + MAX_FUTURE_DRIFT as i128
}

} // verus!
