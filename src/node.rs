use vstd::prelude::*;
use crate::block::{Block, BlockV};
use crate::chain::Blockchain;
use crate::fork_choice::chain_work;
use crate::mempool::{admits, Mempool};
use crate::params::PROTOCOL_VERSION;
use crate::rules::{block_rules, chain_valid, time_ok};
use crate::transaction::Transaction;

verus! {

/// Most blocks kept for a side branch that does not extend the tip.
pub const MAX_PENDING_BLOCKS: usize = 2_000;

/// A typed message between peers.
pub enum P2PMessage {
    Hello { version: u32, height: u64 },
    SyncRequest { from_height: u64 },
    Block(Block),
    Transaction(Transaction),
    Ping,
    Pong,
}

/// What a reply is, as plain values.
pub enum ReplyV {
    SyncRequest { from_height: u64 },
    Block(BlockV),
    Pong,
    Other,
}

pub open spec fn reply_view(m: P2PMessage) -> ReplyV {
    match m {
        P2PMessage::SyncRequest { from_height } => ReplyV::SyncRequest { from_height },
        P2PMessage::Block(b) => ReplyV::Block(b@),
        P2PMessage::Pong => ReplyV::Pong,
        _ => ReplyV::Other,
    }
}

pub open spec fn replies_view(s: Seq<P2PMessage>) -> Seq<ReplyV> {
    s.map_values(|m: P2PMessage| reply_view(m))
}

/// A node's state: the chain, the mempool, and blocks of a side branch that
/// may later outweigh the chain.
pub struct Node {
    pub chain: Blockchain,
    pub mempool: Mempool,
    pub pending: Vec<Block>,
}

impl Node {
    pub open spec fn wf(&self) -> bool {
        self.chain.wf() && self.mempool.wf()
    }

    /// A node with an empty chain and mempool.
    pub fn new() -> (r: Self)
        ensures
            r.wf(),
            r.chain.blocks_view().len() == 0,
            r.mempool.entries_view().len() == 0,
    {
        Node { chain: Blockchain::new(), mempool: Mempool::new(), pending: Vec::new() }
    }

    /// A node around an existing chain, with an empty mempool.
    pub fn with_chain(chain: Blockchain) -> (r: Self)
        requires
            chain.wf(),
        ensures
            r.wf(),
            r.chain == chain,
            r.mempool.entries_view().len() == 0,
    {
        Node { chain, mempool: Mempool::new(), pending: Vec::new() }
    }

    /// The replies to a handshake: none for another protocol version, a
    /// request for the missing blocks from a taller peer.
    pub fn on_hello(&self, version: u32, height: u64) -> (r: Vec<P2PMessage>)
        ensures
            replies_view(r@) == if version != PROTOCOL_VERSION || height <= self.chain.blocks@.len() {
                Seq::<ReplyV>::empty()
            } else {
                seq![ReplyV::SyncRequest { from_height: self.chain.blocks@.len() as u64 }]
            },
    {
        let mut out: Vec<P2PMessage> = Vec::new();
        let local = self.chain.height();
        if version == PROTOCOL_VERSION && height > local {
            out.push(P2PMessage::SyncRequest { from_height: local });
            assert(replies_view(out@) =~= seq![ReplyV::SyncRequest { from_height: local }]);
        } else {
            assert(replies_view(out@) =~= Seq::<ReplyV>::empty());
        }
        out
    }

    /// The blocks at heights `from_height` and above, as messages, oldest first.
    pub fn on_sync_request(&self, from_height: u64) -> (r: Vec<P2PMessage>)
        ensures
            replies_view(r@) == if from_height as int >= self.chain.blocks@.len() {
                Seq::<ReplyV>::empty()
            } else {
                self.chain.blocks_view().skip(from_height as int).map_values(|b: BlockV| ReplyV::Block(b))
            },
    {
        let mut out: Vec<P2PMessage> = Vec::new();
        let n = self.chain.blocks.len();
        if from_height as u128 >= n as u128 {
            assert(replies_view(out@) =~= Seq::<ReplyV>::empty());
            return out;
        }
        let start = from_height as usize;
        let ghost want = self.chain.blocks_view().skip(start as int).map_values(|b: BlockV| ReplyV::Block(b));
        let mut i: usize = start;
        while i < n
            invariant
                n == self.chain.blocks@.len(),
                start <= i <= n,
                want == self.chain.blocks_view().skip(start as int).map_values(|b: BlockV| ReplyV::Block(b)),
                replies_view(out@) == want.take(i - start),
            decreases n - i,
        {
            let b = self.chain.blocks[i].clone();
            let ghost before = out@;
            out.push(P2PMessage::Block(b));
            proof {
                assert(replies_view(out@) =~= replies_view(before).push(ReplyV::Block(self.chain.blocks@[i as int]@)));
                assert(want[i - start] == ReplyV::Block(self.chain.blocks_view()[i as int]));
                assert(want.take(i + 1 - start) =~= want.take(i - start).push(want[i - start]));
            }
            i = i + 1;
        }
        assert(want.take(n - start) =~= want);
        out
    }

    /// Offers a relayed transaction to the mempool; a refusal is ignored.
    pub fn on_transaction(&mut self, tx: Transaction)
        requires
            old(self).wf(),
        ensures
            final(self).wf(),
            final(self).chain == old(self).chain,
            final(self).mempool.txs() == if admits(
                old(self).mempool.txs(),
                tx@,
                old(self).chain.utxos@,
                old(self).chain.blocks@.len() as u64,
            ) {
                old(self).mempool.txs().push(tx@)
            } else {
                old(self).mempool.txs()
            },
    {
        let h = self.chain.height();
        let _ = self.mempool.add_transaction(tx, &self.chain.utxos, h);
    }

    /// Handles a relayed block at local time `now`: it extends the chain if it
    /// meets the rules, and its transactions leave the mempool. Otherwise it
    /// joins the side branch, and the chain is replaced when the branch, on
    /// the common blocks, outweighs it; the dropped blocks' transactions are
    /// then offered to the mempool again.
    pub fn on_block(&mut self, block: Block, now: i64)
        requires
            old(self).wf(),
        ensures
            final(self).wf(),
            block_rules(old(self).chain.blocks_view(), old(self).chain.utxos@, block@) && time_ok(
                old(self).chain.blocks_view(),
                block@,
                now,
            ) ==> final(self).chain.blocks_view() == old(self).chain.blocks_view().push(block@),
            final(self).chain.blocks_view() == old(self).chain.blocks_view()
                || final(self).chain.blocks_view() == old(self).chain.blocks_view().push(block@)
                || (chain_valid(
                final(self).chain.blocks_view(),
            ) && chain_work(final(self).chain.blocks_view()) > chain_work(
                old(self).chain.blocks_view(),
            )),
    {
        let ghost ov = self.chain.blocks_view();
        let bh = block.header.height;
        let copy = block.clone();
        if self.chain.validate_and_add_block_at(block, now) {
            self.mempool.remove_confirmed(copy.transactions.as_slice());
            return;
        }
        let np = self.pending.len();
        if np > 0 && np < MAX_PENDING_BLOCKS && self.pending[np - 1].header.height < u64::MAX
            && bh == self.pending[np - 1].header.height + 1 {
            self.pending.push(copy);
        } else {
            self.pending = Vec::new();
            self.pending.push(copy);
        }
        let first = self.pending[0].header.height;
        if first as u128 > self.chain.blocks.len() as u128 {
            return;
        }
        let s = first as usize;
        let mut candidate: Vec<Block> = Vec::new();
        let mut i: usize = 0;
        while i < s
            invariant
                s <= self.chain.blocks@.len(),
                0 <= i <= s,
                self.chain.blocks_view() == ov,
                self.wf(),
            decreases s - i,
        {
            candidate.push(self.chain.blocks[i].clone());
            i = i + 1;
        }
        let mut j: usize = 0;
        while j < self.pending.len()
            invariant
                0 <= j <= self.pending@.len(),
                self.chain.blocks_view() == ov,
                self.wf(),
            decreases self.pending@.len() - j,
        {
            candidate.push(self.pending[j].clone());
            j = j + 1;
        }
        match self.chain.maybe_reorg(candidate) {
            Some(orphans) => {
                self.pending = Vec::new();
                let h = self.chain.height();
                self.mempool.resurrect_from_orphans(orphans, &self.chain.utxos, h);
            },
            None => {},
        }
    }

    /// Handles one message and returns the replies to send back.
    pub fn handle_message(&mut self, msg: P2PMessage, now: i64) -> (r: Vec<P2PMessage>)
        requires
            old(self).wf(),
        ensures
            final(self).wf(),
            msg is Hello || msg is SyncRequest || msg is Ping || msg is Pong ==> final(self).chain
                == old(self).chain && final(self).mempool == old(self).mempool,
            msg is Ping ==> replies_view(r@) == seq![ReplyV::Pong],
            msg is Pong || msg is Block || msg is Transaction ==> r@.len() == 0,
            msg matches P2PMessage::Hello { version, height } ==> replies_view(r@) == if version
                != PROTOCOL_VERSION || height <= old(self).chain.blocks@.len() {
                Seq::<ReplyV>::empty()
            } else {
                seq![ReplyV::SyncRequest { from_height: old(self).chain.blocks@.len() as u64 }]
            },
            msg matches P2PMessage::SyncRequest { from_height } ==> replies_view(r@) == if from_height as int
                >= old(self).chain.blocks@.len() {
                Seq::<ReplyV>::empty()
            } else {
                old(self).chain.blocks_view().skip(from_height as int).map_values(|b: BlockV| ReplyV::Block(b))
            },
    {
        match msg {
            P2PMessage::Hello { version, height } => self.on_hello(version, height),
            P2PMessage::SyncRequest { from_height } => self.on_sync_request(from_height),
            P2PMessage::Block(b) => {
                self.on_block(b, now);
                Vec::new()
            },
            P2PMessage::Transaction(tx) => {
                self.on_transaction(tx);
                Vec::new()
            },
            P2PMessage::Ping => {
                let mut out: Vec<P2PMessage> = Vec::new();
                out.push(P2PMessage::Pong);
                assert(replies_view(out@) =~= seq![ReplyV::Pong]);
                out
            },
            P2PMessage::Pong => Vec::new(),
        }
    }
}

} // verus!
