use vstd::prelude::*;
use crate::block::{
    block_pow_ok, header_hash_of, merkle_root, merkle_spec, pow_ok, valid_pow, Block, BlockHeader,
    BlockV, HeaderV,
};
use crate::bytes::bytes_eq;
use crate::rules::block_rules;
use crate::utxo::{OutKey, UtxoV};
use crate::chain::Blockchain;
use crate::crypto::{sha256, sha256_of};
use crate::params::{GENESIS_HASH, GENESIS_NONCE, GENESIS_TIMESTAMP, MAX_TARGET};
use crate::transaction::{OutputV, Transaction, TxOutput, TxV};
use vstd::string::StringSliceAdditionalSpecFns;

verus! {

/// The message that the genesis transaction's only output is locked to.
pub const REVELATION_TEXT: &'static str = "REVELATION BLOCK 0 \u{2014} WEF Agenda 2030 sealed into Proof-of-Work time. No authority. No reversal. No governance. Truth revealed by computation.";

/// The genesis transaction: no inputs, one output of value zero locked to
/// SHA-256 of the revelation message.
pub open spec fn revelation_spec() -> TxV {
    TxV {
        inputs: Seq::empty(),
        outputs: seq![OutputV { value: 0, pubkey_hash: sha256_of(REVELATION_TEXT.spec_bytes()) }],
    }
}

/// The genesis transaction.
pub fn revelation_tx() -> (r: Transaction)
    ensures
        r@ == revelation_spec(),
{
    let msg = REVELATION_TEXT.as_bytes();
    let mut outputs: Vec<TxOutput> = Vec::new();
    outputs.push(TxOutput { value: 0, pubkey_hash: sha256(msg) });
    let r = Transaction { inputs: Vec::new(), outputs };
    assert(r@.inputs =~= revelation_spec().inputs);
    assert(r@.outputs =~= revelation_spec().outputs);
    r
}

/// The genesis header: height 0, the fixed timestamp, a zero previous hash,
/// the pinned nonce, the easiest target and the root of the genesis transaction.
pub open spec fn genesis_header_spec() -> HeaderV {
    HeaderV {
        height: 0,
        timestamp: GENESIS_TIMESTAMP,
        prev_hash: Seq::new(32, |i: int| 0u8),
        nonce: GENESIS_NONCE,
        target: MAX_TARGET@,
        merkle_root: merkle_spec(seq![revelation_spec()]),
    }
}

/// The genesis block with its pinned hash.
pub open spec fn genesis_spec() -> BlockV {
    BlockV { header: genesis_header_spec(), transactions: seq![revelation_spec()], hash: GENESIS_HASH@ }
}

/// The recomputed genesis hash is the pinned one, and it meets the easiest target.
pub open spec fn genesis_ok() -> bool {
    header_hash_of(genesis_header_spec()) == GENESIS_HASH@ && pow_ok(GENESIS_HASH@, MAX_TARGET@)
}

/// The genesis block. Its hash is recomputed and checked against the pinned
/// `GENESIS_HASH`; `None` means the two differ (or the pinned hash misses the
/// target), which marks a broken build.
pub fn genesis_block() -> (r: Option<Block>)
    ensures
        r is Some <==> genesis_ok(),
        r matches Some(b) ==> b@ == genesis_spec() && block_pow_ok(b@),
{
    let mut txs: Vec<Transaction> = Vec::new();
    txs.push(revelation_tx());
    let root = merkle_root(txs.as_slice());
    let mut prev_hash: Vec<u8> = Vec::new();
    let mut k: usize = 0;
    while k < 32
        invariant
            0 <= k <= 32,
            prev_hash@.len() == k,
            forall|j: int| 0 <= j < k ==> prev_hash@[j] == 0u8,
        decreases 32 - k,
    {
        prev_hash.push(0u8);
        k = k + 1;
    }
    assert(prev_hash@ =~= Seq::new(32, |i: int| 0u8));
    let mut block = Block {
        header: BlockHeader {
            height: 0,
            timestamp: GENESIS_TIMESTAMP,
            prev_hash,
            nonce: GENESIS_NONCE,
            target: MAX_TARGET,
            merkle_root: root,
        },
        transactions: txs,
        hash: Vec::new(),
    };
    assert(block@.transactions =~= seq![revelation_spec()]);
    assert(block@.header == genesis_header_spec());
    let h = block.hash_header();
    if !bytes_eq(h.as_slice(), &GENESIS_HASH) || !valid_pow(&GENESIS_HASH, &MAX_TARGET) {
        return None;
    }
    block.hash = h;
    Some(block)
}

impl Blockchain {
    /// On an empty chain, builds the genesis block and accepts it through the
    /// same rules as every other block. On a non-empty chain, changes nothing.
    /// Returns whether the chain has a block afterwards.
    pub fn initialize_genesis(&mut self) -> (r: bool)
        requires
            old(self).wf(),
        ensures
            final(self).wf(),
            r == (final(self).blocks_view().len() > 0),
            old(self).blocks_view().len() > 0 ==> final(self).blocks_view() == old(self).blocks_view(),
            old(self).blocks_view().len() == 0 ==> (r == (genesis_ok() && block_rules(
                Seq::empty(),
                Map::empty(),
                genesis_spec(),
            ))),
            old(self).blocks_view().len() == 0 && r ==> final(self).blocks_view() == seq![genesis_spec()],
    {
        if self.blocks.len() > 0 {
            return true;
        }
        let ghost ov = self.blocks_view();
        assert(ov =~= Seq::<BlockV>::empty());
        assert(self.utxos@ =~= Map::<OutKey, UtxoV>::empty());
        match genesis_block() {
            Some(g) => {
                let ghost gv = g@;
                let ok = self.validate_and_add_block_at(g, GENESIS_TIMESTAMP);
                proof {
                    if ok {
                        assert(self.blocks_view() =~= seq![genesis_spec()]);
                    }
                }
                ok
            },
            None => false,
        }
    }
}

} // verus!
