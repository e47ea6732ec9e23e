use vstd::prelude::*;
use crate::block::{header_hash_of, merkle_spec, pow_ok};
use crate::chain::Blockchain;
use crate::params::{block_reward_spec, COINBASE_MATURITY};
use crate::rules::{block_rules, fees_sum, replay};
use crate::transaction::{outpoint_of, TxV};
use crate::validation::{input_ok, input_sum, output_sum, sat_add, tx_valid};

verus! {

/// Every accepted block's hash is the double SHA-256 of its header and meets
/// the header's target.
pub proof fn lemma_hash_commitment(chain: &Blockchain, i: int)
    requires
        chain.wf(),
        0 <= i < chain.blocks_view().len(),
    ensures
        chain.blocks_view()[i].hash == header_hash_of(chain.blocks_view()[i].header),
        pow_ok(chain.blocks_view()[i].hash, chain.blocks_view()[i].header.target),
{
    let s = chain.blocks_view();
    reveal(block_rules);
    assert(block_rules(s.take(i), replay(s.take(i)), s[i]));
}

/// Each accepted block after the first names its predecessor's hash and is
/// one higher; the first is at height 0.
pub proof fn lemma_linkage(chain: &Blockchain, i: int)
    requires
        chain.wf(),
        0 <= i < chain.blocks_view().len(),
    ensures
        chain.blocks_view()[i].header.height == i,
        i > 0 ==> chain.blocks_view()[i].header.prev_hash == chain.blocks_view()[i - 1].hash,
        i > 0 ==> chain.blocks_view()[i].header.height == chain.blocks_view()[i - 1].header.height + 1,
{
    let s = chain.blocks_view();
    reveal(block_rules);
    assert(block_rules(s.take(i), replay(s.take(i)), s[i]));
    if i > 0 {
        assert(block_rules(s.take(i - 1), replay(s.take(i - 1)), s[i - 1]));
        assert(s.take(i).last() == s[i - 1]);
    }
}

/// Every accepted block's header commits to the merkle root of its
/// transactions; the root of no transactions is 32 zero bytes.
pub proof fn lemma_merkle_commitment(chain: &Blockchain, i: int)
    requires
        chain.wf(),
        0 <= i < chain.blocks_view().len(),
    ensures
        merkle_spec(chain.blocks_view()[i].transactions) == chain.blocks_view()[i].header.merkle_root,
        merkle_spec(Seq::<TxV>::empty()) == Seq::new(32, |j: int| 0u8),
{
    let s = chain.blocks_view();
    reveal(block_rules);
    assert(block_rules(s.take(i), replay(s.take(i)), s[i]));
}

/// The unspent set kept alongside the chain is exactly the one that
/// replaying the chain from its first block gives.
pub proof fn lemma_utxo_is_replay(chain: &Blockchain)
    requires
        chain.wf(),
    ensures
        chain.utxos@ == replay(chain.blocks_view()),
{
}

/// No transaction with inputs in an accepted block creates more than it
/// spends (sums saturate at `u64::MAX`).
pub proof fn lemma_conservation(chain: &Blockchain, i: int, j: int)
    requires
        chain.wf(),
        0 <= i < chain.blocks_view().len(),
        0 <= j < chain.blocks_view()[i].transactions.len(),
        chain.blocks_view()[i].transactions[j].inputs.len() > 0,
    ensures
        input_sum(
            chain.blocks_view()[i].transactions[j].inputs,
            replay(chain.blocks_view().take(i)),
        ) >= output_sum(chain.blocks_view()[i].transactions[j].outputs),
{
    let s = chain.blocks_view();
    reveal(block_rules);
    assert(block_rules(s.take(i), replay(s.take(i)), s[i]));
    assert(tx_valid(s[i].transactions[j], replay(s.take(i)), s[i].header.height));
}

/// The coinbase of an accepted block creates at most the block reward plus
/// the fees of the block's other transactions.
pub proof fn lemma_coinbase_cap(chain: &Blockchain, i: int)
    requires
        chain.wf(),
        0 <= i < chain.blocks_view().len(),
    ensures
        chain.blocks_view()[i].transactions.len() > 0,
        chain.blocks_view()[i].transactions[0].inputs.len() == 0,
        output_sum(chain.blocks_view()[i].transactions[0].outputs) <= sat_add(
            block_reward_spec(chain.blocks_view()[i].header.height),
            fees_sum(chain.blocks_view()[i].transactions, replay(chain.blocks_view().take(i))),
        ),
{
    let s = chain.blocks_view();
    reveal(block_rules);
    assert(block_rules(s.take(i), replay(s.take(i)), s[i]));
}

/// No input of an accepted block spends a coinbase output less than
/// `COINBASE_MATURITY` blocks old.
pub proof fn lemma_maturity(chain: &Blockchain, i: int, j: int, k: int)
    requires
        chain.wf(),
        0 <= i < chain.blocks_view().len(),
        0 <= j < chain.blocks_view()[i].transactions.len(),
        0 <= k < chain.blocks_view()[i].transactions[j].inputs.len(),
    ensures
        ({
            let u = replay(chain.blocks_view().take(i))[outpoint_of(
                chain.blocks_view()[i].transactions[j].inputs[k],
            )];
            u.is_coinbase ==> chain.blocks_view()[i].header.height - u.height >= COINBASE_MATURITY
        }),
{
    let s = chain.blocks_view();
    let t = s[i].transactions[j];
    reveal(block_rules);
    assert(block_rules(s.take(i), replay(s.take(i)), s[i]));
    assert(tx_valid(t, replay(s.take(i)), s[i].header.height));
    assert(input_ok(t.inputs[k], replay(s.take(i)), s[i].header.height, crate::transaction::sighash_of(t)));
}

} // verus!
