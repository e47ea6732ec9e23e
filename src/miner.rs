use vstd::prelude::*;
use crate::block::{
    block_pow_ok, merkle_root, merkle_spec, mine, nonce_works, Block, BlockHeader, BlockV, HeaderV,
};
use crate::bytes::copy_bytes;
use crate::chain::unix_now;
use crate::difficulty::{calculate_next_target, expected_target, median_time_past, mtp_spec};
use crate::params::{block_reward, block_reward_spec, MAX_BLOCK_TXS, MAX_BLOCK_TX_BYTES};
use crate::rules::{calculate_fee, fee_spec, spend_all_inputs, spend_inputs, view_blocks, view_txs};
use crate::transaction::{outpoint_of, size_estimate, OutputV, Transaction, TxOutput, TxV};
use crate::utxo::{OutKey, UtxoSet, UtxoV};
use crate::validation::{sat_add, saturating_add_u64, tx_valid, validate_transaction};

verus! {

/// Size estimate of a coinbase with one output.
pub const COINBASE_SIZE: usize = 44;

/// What greedy packing has chosen so far, and the unspent set with the
/// chosen transactions' inputs spent.
pub struct Packing {
    pub txs: Seq<TxV>,
    pub bytes: int,
    pub fees: u64,
    pub stopped: bool,
    pub provisional: Map<OutKey, UtxoV>,
}

/// Greedy packing of `cands` in order: stop at the first candidate that would
/// exceed the count or byte limit; skip one that is a coinbase or fails the
/// consensus rules at `height` against the provisional set, that is `m` with
/// the inputs of the earlier choices spent. Outputs of earlier choices are not
/// added to it: the block rules judge every transaction against the unspent
/// set before the block.
pub open spec fn pack(cands: Seq<TxV>, m: Map<OutKey, UtxoV>, height: u64) -> Packing
    decreases cands.len(),
{
    if cands.len() == 0 {
        Packing { txs: Seq::empty(), bytes: COINBASE_SIZE as int, fees: 0, stopped: false, provisional: m }
    } else {
        let s = pack(cands.drop_last(), m, height);
        let t = cands.last();
        if s.stopped {
            s
        } else if s.txs.len() + 1 >= MAX_BLOCK_TXS {
            Packing { stopped: true, ..s }
        } else if s.bytes + size_estimate(t) > MAX_BLOCK_TX_BYTES {
            Packing { stopped: true, ..s }
        } else if t.inputs.len() > 0 && tx_valid(t, s.provisional, height) {
            Packing {
                txs: s.txs.push(t),
                bytes: s.bytes + size_estimate(t),
                fees: sat_add(s.fees, fee_spec(t, s.provisional)),
                stopped: false,
                provisional: spend_inputs(s.provisional, t.inputs),
            }
        } else {
            s
        }
    }
}

/// The transactions of the candidate block: the coinbase, then the packing.
pub open spec fn candidate_txs(cands: Seq<TxV>, m: Map<OutKey, UtxoV>, height: u64, miner: Seq<u8>) -> Seq<TxV> {
    let p = pack(cands, m, height);
    seq![coinbase_spec(sat_add(block_reward_spec(height), p.fees), miner)] + p.txs
}

/// The candidate's timestamp: `now`, but at least one second past the median time past.
pub open spec fn candidate_timestamp(chain: Seq<BlockV>, now: i64) -> i64 {
    if chain.len() > 0 && now <= mtp_spec(chain) {
        (mtp_spec(chain) + 1) as i64
    } else {
        now
    }
}

/// The candidate header before the nonce search.
pub open spec fn candidate_header(prev: BlockV, chain: Seq<BlockV>, now: i64, txs: Seq<TxV>) -> HeaderV {
    HeaderV {
        height: (prev.header.height + 1) as u64,
        timestamp: candidate_timestamp(chain, now),
        prev_hash: prev.hash,
        nonce: 0,
        target: expected_target(chain),
        merkle_root: merkle_spec(txs),
    }
}

/// The coinbase that pays `value` to `pubkey_hash`.
pub open spec fn coinbase_spec(value: u64, pubkey_hash: Seq<u8>) -> TxV {
    TxV { inputs: Seq::empty(), outputs: seq![OutputV { value, pubkey_hash }] }
}

/// Greedy packing of `mempool_txs` for a block at `height`, with the fees of the chosen.
pub fn pack_transactions(utxos: &UtxoSet, mempool_txs: &Vec<Transaction>, height: u64) -> (r: (
    Vec<Transaction>,
    u64,
))
    requires
        utxos.wf(),
    ensures
        view_txs(r.0@) == pack(view_txs(mempool_txs@), utxos@, height).txs,
        r.1 == pack(view_txs(mempool_txs@), utxos@, height).fees,
{
    let ghost cands = view_txs(mempool_txs@);
    let ghost m = utxos@;
    let mut provisional = utxos.duplicate();
    let mut selected: Vec<Transaction> = Vec::new();
    let mut total_bytes: usize = COINBASE_SIZE;
    let mut fees: u64 = 0;
    let mut k: usize = 0;
    assert(cands.take(0) =~= Seq::<TxV>::empty());
    assert(cands.take(cands.len() as int) =~= cands);
    while k < mempool_txs.len()
        invariant
            utxos.wf(),
            m == utxos@,
            provisional.wf(),
            provisional@ == pack(cands.take(k as int), m, height).provisional,
            cands == view_txs(mempool_txs@),
            0 <= k <= cands.len(),
            !pack(cands.take(k as int), m, height).stopped,
            view_txs(selected@) == pack(cands.take(k as int), m, height).txs,
            total_bytes == pack(cands.take(k as int), m, height).bytes,
            fees == pack(cands.take(k as int), m, height).fees,
            total_bytes <= MAX_BLOCK_TX_BYTES,
            cands.take(cands.len() as int) == cands,
        ensures
            view_txs(selected@) == pack(cands, m, height).txs,
            fees == pack(cands, m, height).fees,
        decreases cands.len() - k,
    {
        let tx = &mempool_txs[k];
        assert(cands[k as int] == tx@);
        assert(cands.take(k + 1).drop_last() =~= cands.take(k as int));
        if selected.len() >= MAX_BLOCK_TXS - 1 {
            proof {
                lemma_pack_stays_stopped(cands, m, height, k as int + 1);
                assert(pack(cands.take(k + 1), m, height).txs == pack(cands.take(k as int), m, height).txs);
            }
            break;
        }
        let size = tx.serialized_size();
        if size > MAX_BLOCK_TX_BYTES - total_bytes {
            proof {
                lemma_pack_stays_stopped(cands, m, height, k as int + 1);
                assert(pack(cands.take(k + 1), m, height).txs == pack(cands.take(k as int), m, height).txs);
            }
            break;
        }
        if tx.inputs.len() > 0 && validate_transaction(tx, &provisional, height) {
            let f = calculate_fee(tx, &provisional);
            spend_all_inputs(&mut provisional, tx);
            fees = saturating_add_u64(fees, f);
            total_bytes = total_bytes + size;
            let ghost before = selected@;
            selected.push(tx.clone());
            assert(view_txs(selected@) =~= view_txs(before).push(tx@));
        }
        k = k + 1;
    }
    (selected, fees)
}

/// Builds and mines the block after `prev` at local time `now`: a coinbase
/// paying the reward plus the packed transactions' fees to `miner_pubkey_hash`,
/// then the greedy packing of `mempool_txs`. `chain` is the chain that ends in
/// `prev`. `None` if the height would overflow, no timestamp after the median
/// exists, or no nonce meets the target.
pub fn mine_block_at(
    prev_block: &Block,
    utxos: &UtxoSet,
    mempool_txs: Vec<Transaction>,
    miner_pubkey_hash: Vec<u8>,
    chain: &[Block],
    now: i64,
) -> (r: Option<Block>)
    requires
        utxos.wf(),
    ensures
        r is Some ==> prev_block.header.height < u64::MAX,
        r is None <==> (prev_block.header.height == u64::MAX || (chain@.len() > 0 && mtp_spec(
            view_blocks(chain@),
        ) == i64::MAX) || forall|n: u64|
            !#[trigger] nonce_works(
                candidate_header(
                    prev_block@,
                    view_blocks(chain@),
                    now,
                    candidate_txs(
                        view_txs(mempool_txs@),
                        utxos@,
                        (prev_block.header.height + 1) as u64,
                        miner_pubkey_hash@,
                    ),
                ),
                n,
            )),
        r matches Some(b) ==> {
            let h = (prev_block.header.height + 1) as u64;
            let txs = candidate_txs(view_txs(mempool_txs@), utxos@, h, miner_pubkey_hash@);
            &&& b@.transactions == txs
            &&& b@.header == (HeaderV {
                nonce: b@.header.nonce,
                ..candidate_header(prev_block@, view_blocks(chain@), now, txs)
            })
            &&& b@.header.height == h
            &&& b@.header.prev_hash == prev_block@.hash
            &&& b@.header.target == expected_target(view_blocks(chain@))
            &&& b@.header.merkle_root == merkle_spec(b@.transactions)
            &&& b@.header.timestamp == candidate_timestamp(view_blocks(chain@), now)
            &&& block_pow_ok(b@)
        },
{
    if prev_block.header.height == u64::MAX {
        return None;
    }
    let height = prev_block.header.height + 1;
    let (selected, fees) = pack_transactions(utxos, &mempool_txs, height);
    let reward = saturating_add_u64(block_reward(height), fees);
    let mut cb_outputs: Vec<TxOutput> = Vec::new();
    cb_outputs.push(TxOutput { value: reward, pubkey_hash: miner_pubkey_hash });
    let coinbase = Transaction { inputs: Vec::new(), outputs: cb_outputs };
    assert(coinbase@.inputs =~= Seq::empty());
    assert(coinbase@.outputs =~= seq![OutputV { value: reward, pubkey_hash: miner_pubkey_hash@ }]);
    assert(coinbase@ == coinbase_spec(reward, miner_pubkey_hash@));
    let mut txs: Vec<Transaction> = Vec::new();
    txs.push(coinbase);
    let mut j: usize = 0;
    while j < selected.len()
        invariant
            0 <= j <= selected@.len(),
            txs@.len() == j + 1,
            txs@[0]@ == coinbase_spec(reward, miner_pubkey_hash@),
            forall|y: int| 0 <= y < j ==> #[trigger] txs@[y + 1]@ == selected@[y]@,
        decreases selected@.len() - j,
    {
        txs.push(selected[j].clone());
        j = j + 1;
    }
    assert forall|y: int| 0 <= y < txs@.len() implies view_txs(txs@)[y] == (seq![
        coinbase_spec(reward, miner_pubkey_hash@),
    ] + view_txs(selected@))[y] by {
        if y > 0 {
            assert(txs@[(y - 1) + 1]@ == selected@[y - 1]@);
        }
    }
    assert(view_txs(txs@) =~= seq![coinbase_spec(reward, miner_pubkey_hash@)] + view_txs(selected@));
    let mut timestamp: i64 = now;
    if chain.len() > 0 {
        let mtp = median_time_past(chain);
        if mtp == i64::MAX {
            return None;
        }
        if timestamp <= mtp {
            timestamp = mtp + 1;
        }
    }
    let target = calculate_next_target(chain);
    let root = merkle_root(txs.as_slice());
    let mut block = Block {
        header: BlockHeader {
            height,
            timestamp,
            prev_hash: copy_bytes(&prev_block.hash),
            nonce: 0,
            target,
            merkle_root: root,
        },
        transactions: txs,
        hash: Vec::new(),
    };
    assert(block@.header == candidate_header(
        prev_block@,
        view_blocks(chain@),
        now,
        candidate_txs(view_txs(mempool_txs@), utxos@, height, miner_pubkey_hash@),
    ));
    let ghost cand = block@.header;
    if mine(&mut block) {
        assert(nonce_works(cand, block.header.nonce));
        Some(block)
    } else {
        assert forall|n: u64| !#[trigger] nonce_works(cand, n) by {
            assert(n >= 0);
        }
        None
    }
}

/// Once packing stops, later candidates change nothing.
proof fn lemma_pack_stays_stopped(cands: Seq<TxV>, m: Map<OutKey, UtxoV>, height: u64, k: int)
    requires
        0 <= k <= cands.len(),
        pack(cands.take(k), m, height).stopped,
    ensures
        pack(cands, m, height) == pack(cands.take(k), m, height),
    decreases cands.len() - k,
{
    if k < cands.len() {
        assert(cands.take(k + 1).drop_last() =~= cands.take(k));
        lemma_pack_stays_stopped(cands, m, height, k + 1);
    } else {
        assert(cands.take(k) =~= cands);
    }
}

/// Builds and mines the block after `prev` with the local clock.
pub fn mine_block(
    prev_block: &Block,
    utxos: &UtxoSet,
    mempool_txs: Vec<Transaction>,
    miner_pubkey_hash: Vec<u8>,
    chain: &[Block],
) -> (r: Option<Block>)
    requires
        utxos.wf(),
    ensures
        r matches Some(b) ==> block_pow_ok(b@) && b@.header.height == prev_block.header.height + 1
            && b@.header.prev_hash == prev_block@.hash && b@.transactions == candidate_txs(
            view_txs(mempool_txs@),
            utxos@,
            (prev_block.header.height + 1) as u64,
            miner_pubkey_hash@,
        ),
{
    let now = unix_now();
    mine_block_at(prev_block, utxos, mempool_txs, miner_pubkey_hash, chain, now)
}

} // verus!
