use vstd::prelude::*;
use crate::block::{Block, BlockV};
use crate::bytes::bytes_eq;
use crate::fork_choice::{chain_work, cumulative_work, work_greater};
use crate::rules::{
    apply_block, block_rules, chain_valid, lemma_chain_valid_prefix, lemma_chain_valid_push, check_block, check_time, replay, time_ok, view_blocks,
};
use crate::transaction::Transaction;
use crate::utxo::{UtxoEntry, UtxoSet};
use crate::transaction::{OutputV, TxInput, TxOutput};
use crate::validation::{distinct_outpoints, input_total};
use crate::bytes::copy_bytes;

verus! {

/// Relies on the time crate's `OffsetDateTime::now_utc` and `unix_timestamp`:
/// the wall clock in seconds since the epoch, about which nothing can be promised.
#[verifier::external_body]
pub(crate) fn unix_now() -> (r: i64) {
    time::OffsetDateTime::now_utc().unix_timestamp()
}

/// The largest index below `n` at which `a` and `b` hold blocks with the same
/// hash, or -1 if there is none.
pub open spec fn last_agreeing(a: Seq<BlockV>, b: Seq<BlockV>, n: int) -> int
    decreases n,
{
    if n <= 0 {
        -1
    } else if a[n - 1].hash == b[n - 1].hash {
        n - 1
    } else {
        last_agreeing(a, b, n - 1)
    }
}

/// The fork height: the largest index at which both chains hold the same
/// block hash, or -1 if they share none.
pub open spec fn fork_index(a: Seq<BlockV>, b: Seq<BlockV>) -> int {
    last_agreeing(a, b, if a.len() < b.len() { a.len() as int } else { b.len() as int })
}

/// The blocks of `s` from index `h` on, newest first.
pub open spec fn suffix_newest_first(s: Seq<BlockV>, h: int) -> Seq<BlockV> {
    Seq::new((s.len() - h) as nat, |k: int| s[s.len() - 1 - k])
}

/// The accepted chain, its unspent set, and the transactions the wallet layer queued.
pub struct Blockchain {
    pub blocks: Vec<Block>,
    pub utxos: UtxoSet,
    pub mempool: Vec<Transaction>,
}

impl Blockchain {
    pub open spec fn blocks_view(&self) -> Seq<BlockV> {
        view_blocks(self.blocks@)
    }

    /// Every block follows the rules, and the unspent set is the replay of the chain.
    pub open spec fn wf(&self) -> bool {
        &&& chain_valid(self.blocks_view())
        &&& self.utxos.wf()
        &&& self.utxos@ == replay(self.blocks_view())
    }

    /// An empty chain.
    pub fn new() -> (r: Self)
        ensures
            r.wf(),
            r.blocks_view().len() == 0,
            r.mempool@.len() == 0,
    {
        let r = Blockchain { blocks: Vec::new(), utxos: UtxoSet::new(), mempool: Vec::new() };
        assert(r.blocks_view() =~= Seq::<BlockV>::empty());
        r
    }

    /// Number of blocks.
    pub fn height(&self) -> (r: u64)
        ensures
            r == self.blocks@.len(),
    {
        self.blocks.len() as u64
    }

    /// Queues a transaction for the wallet layer.
    pub fn add_to_mempool(&mut self, tx: Transaction)
        ensures
            final(self).mempool@ == old(self).mempool@.push(tx),
            final(self).blocks@ == old(self).blocks@,
            final(self).utxos == old(self).utxos,
    {
        self.mempool.push(tx);
    }

    /// Takes every queued transaction, leaving the queue empty.
    pub fn drain_mempool(&mut self) -> (r: Vec<Transaction>)
        ensures
            r@ == old(self).mempool@,
            final(self).mempool@.len() == 0,
            final(self).blocks@ == old(self).blocks@,
            final(self).utxos == old(self).utxos,
    {
        let mut out: Vec<Transaction> = Vec::new();
        std::mem::swap(&mut out, &mut self.mempool);
        out
    }

    /// Recomputes the unspent set by replaying every block from the first.
    pub fn rebuild_utxos(&mut self)
        requires
            old(self).utxos.wf(),
        ensures
            final(self).utxos.wf(),
            final(self).utxos@ == replay(old(self).blocks_view()),
            final(self).blocks@ == old(self).blocks@,
            final(self).mempool@ == old(self).mempool@,
    {
        let ghost bv = self.blocks_view();
        self.utxos.clear();
        let mut i: usize = 0;
        assert(bv.take(0) =~= Seq::<BlockV>::empty());
        while i < self.blocks.len()
            invariant
                bv == self.blocks_view(),
                self.blocks@ == old(self).blocks@,
                self.mempool@ == old(self).mempool@,
                0 <= i <= bv.len(),
                self.utxos.wf(),
                self.utxos@ == replay(bv.take(i as int)),
            decreases bv.len() - i,
        {
            apply_block(&mut self.utxos, &self.blocks[i]);
            assert(bv[i as int] == self.blocks@[i as int]@);
            assert(bv.take(i + 1).drop_last() =~= bv.take(i as int));
            i = i + 1;
        }
        assert(bv.take(bv.len() as int) =~= bv);
    }

    /// Checks `block` against every rule, with `now` as the local clock, and
    /// appends it and applies it to the unspent set if it passes. On refusal
    /// nothing changes.
    pub fn validate_and_add_block_at(&mut self, block: Block, now: i64) -> (r: bool)
        requires
            old(self).wf(),
        ensures
            final(self).wf(),
            r == (block_rules(old(self).blocks_view(), old(self).utxos@, block@) && time_ok(
                old(self).blocks_view(),
                block@,
                now,
            )),
            r ==> final(self).blocks_view() == old(self).blocks_view().push(block@),
            !r ==> final(self).blocks_view() == old(self).blocks_view(),
            final(self).utxos@ == replay(final(self).blocks_view()),
            final(self).mempool@ == old(self).mempool@,
    {
        let ghost bv = self.blocks_view();
        if !check_time(self.blocks.len(), &block, now) {
            return false;
        }
        if !check_block(self.blocks.as_slice(), &self.utxos, &block) {
            return false;
        }
        apply_block(&mut self.utxos, &block);
        self.blocks.push(block);
        proof {
            assert(self.blocks_view() =~= bv.push(block@));
            assert(self.blocks_view().drop_last() =~= bv);
            lemma_chain_valid_push(bv, block@);
        }
        true
    }

    /// Checks `block` against every rule with the local clock, and appends it
    /// if it passes; on refusal nothing changes.
    pub fn validate_and_add_block(&mut self, block: Block) -> (r: bool)
        requires
            old(self).wf(),
        ensures
            final(self).wf(),
            r ==> block_rules(old(self).blocks_view(), old(self).utxos@, block@),
            old(self).blocks_view().len() == 0 ==> r == block_rules(
                old(self).blocks_view(),
                old(self).utxos@,
                block@,
            ),
            r ==> final(self).blocks_view() == old(self).blocks_view().push(block@),
            !r ==> final(self).blocks_view() == old(self).blocks_view(),
            final(self).mempool@ == old(self).mempool@,
    {
        let now = unix_now();
        self.validate_and_add_block_at(block, now)
    }

    /// Whether `chain` is non-empty and every block follows the rules against
    /// the blocks before it, starting from its own first block.
    pub fn validate_chain(&self, chain: &[Block]) -> (r: bool)
        ensures
            r == (chain@.len() > 0 && chain_valid(view_blocks(chain@))),
    {
        if chain.len() == 0 {
            return false;
        }
        let ghost cv = view_blocks(chain@);
        let mut utxos = UtxoSet::new();
        let mut i: usize = 0;
        assert(cv.take(0) =~= Seq::<BlockV>::empty());
        while i < chain.len()
            invariant
                cv == view_blocks(chain@),
                0 <= i <= cv.len(),
                utxos.wf(),
                utxos@ == replay(cv.take(i as int)),
                forall|j: int|
                    0 <= j < i ==> block_rules(#[trigger] cv.take(j), replay(cv.take(j)), cv[j]),
            decreases cv.len() - i,
        {
            let prefix = vstd::slice::slice_subrange(chain, 0, i);
            assert(view_blocks(prefix@) =~= cv.take(i as int));
            assert(cv[i as int] == chain@[i as int]@);
            if !check_block(prefix, &utxos, &chain[i]) {
                return false;
            }
            apply_block(&mut utxos, &chain[i]);
            assert(cv.take(i + 1).drop_last() =~= cv.take(i as int));
            i = i + 1;
        }
        true
    }

    /// Removes the blocks from index `height` on and returns them newest first.
    #[verifier::rlimit(40)]
    pub fn disconnect_to_height(&mut self, height: u64) -> (r: Vec<Block>)
        requires
            old(self).wf(),
        ensures
            final(self).wf(),
            final(self).blocks_view() == old(self).blocks_view().take(
                if height < old(self).blocks@.len() {
                    height as int
                } else {
                    old(self).blocks@.len() as int
                },
            ),
            view_blocks(r@) == suffix_newest_first(
                old(self).blocks_view(),
                if height < old(self).blocks@.len() {
                    height as int
                } else {
                    old(self).blocks@.len() as int
                },
            ),
            final(self).mempool@ == old(self).mempool@,
    {
        let ghost ov = self.blocks_view();
        let ghost n = ov.len();
        let mut orphaned: Vec<Block> = Vec::new();
        assert(view_blocks(orphaned@) =~= suffix_newest_first(ov, n as int));
        assert(self.blocks_view() =~= ov.take(n as int));
        while self.blocks.len() as u64 > height
            invariant
                ov == old(self).blocks_view(),
                n == ov.len(),
                self.blocks@.len() <= n,
                self.blocks@.len() >= (if height < n { height as int } else { n as int }),
                self.blocks_view() == ov.take(self.blocks@.len() as int),
                view_blocks(orphaned@) == suffix_newest_first(ov, self.blocks@.len() as int),
                self.utxos.wf(),
                self.mempool@ == old(self).mempool@,
            decreases self.blocks@.len(),
        {
            let ghost pre = self.blocks@;
            let ghost len0 = pre.len();
            assert(ov.take(len0 as int)[len0 - 1] == ov[len0 - 1]);
            assert(view_blocks(pre)[len0 - 1] == pre[len0 - 1]@);
            let b = self.blocks.pop().unwrap();
            assert(b == pre[len0 - 1]);
            let ghost oldo = view_blocks(orphaned@);
            orphaned.push(b);
            assert(view_blocks(orphaned@) =~= oldo.push(ov[len0 - 1]));
            assert(self.blocks_view() =~= ov.take(self.blocks@.len() as int));
            assert(view_blocks(orphaned@) =~= suffix_newest_first(ov, self.blocks@.len() as int));
        }
        let ghost kept = self.blocks_view();
        self.rebuild_utxos();
        proof {
            lemma_chain_valid_prefix(ov, kept.len() as int);
        }
        orphaned
    }

    /// Replaces the chain by `candidate` if it is valid from its first block
    /// and has strictly more cumulative work. Returns the blocks that left the
    /// chain, newest first; on refusal nothing changes.
    pub fn maybe_reorg(&mut self, candidate: Vec<Block>) -> (r: Option<Vec<Block>>)
        requires
            old(self).wf(),
        ensures
            final(self).wf(),
            r is Some <==> (candidate@.len() > 0 && chain_valid(view_blocks(candidate@))
                && chain_work(view_blocks(candidate@)) > chain_work(old(self).blocks_view())),
            r is Some ==> final(self).blocks_view() == view_blocks(candidate@),
            r matches Some(orphans) ==> view_blocks(orphans@) == suffix_newest_first(
                old(self).blocks_view(),
                fork_index(old(self).blocks_view(), view_blocks(candidate@)) + 1,
            ),
            r is None ==> final(self).blocks_view() == old(self).blocks_view() && final(self).utxos@
                == old(self).utxos@,
            final(self).mempool@ == old(self).mempool@,
    {
        if !self.validate_chain(candidate.as_slice()) {
            return None;
        }
        let cw = cumulative_work(candidate.as_slice());
        let ow = cumulative_work(self.blocks.as_slice());
        if !work_greater(cw.as_slice(), ow.as_slice()) {
            return None;
        }
        let fork = blocks_before_fork(self.blocks.as_slice(), candidate.as_slice());
        let orphaned = self.disconnect_to_height(fork as u64);
        self.blocks = candidate;
        self.rebuild_utxos();
        Some(orphaned)
    }
}

/// One more than the fork height of `a` and `b`: how many blocks of `a` stay.
pub fn blocks_before_fork(a: &[Block], b: &[Block]) -> (r: usize)
    ensures
        r == fork_index(view_blocks(a@), view_blocks(b@)) + 1,
        r <= a@.len(),
{
    let ghost av = view_blocks(a@);
    let ghost bv = view_blocks(b@);
    let n = if a.len() < b.len() { a.len() } else { b.len() };
    let mut j: usize = n;
    while j > 0
        invariant
            av == view_blocks(a@),
            bv == view_blocks(b@),
            n <= a@.len(),
            n <= b@.len(),
            0 <= j <= n,
            fork_index(av, bv) == last_agreeing(av, bv, j as int),
        decreases j,
    {
        assert(av[j - 1] == a@[j - 1]@);
        assert(bv[j - 1] == b@[j - 1]@);
        if bytes_eq(a[j - 1].hash.as_slice(), b[j - 1].hash.as_slice()) {
            return j;
        }
        j = j - 1;
    }
    0
}

/// Why the wallet layer could not build a transaction.
#[derive(PartialEq, Eq, Structural, Clone, Copy, Debug)]
pub enum TxBuildError {
    /// The sender's unspent outputs add up to less than the amount.
    InsufficientFunds,
}

/// Total value of the entries locked to `owner`.
pub open spec fn owned_total(es: Seq<UtxoEntry>, owner: Seq<u8>) -> int
    decreases es.len(),
{
    if es.len() == 0 {
        0
    } else {
        owned_total(es.drop_last(), owner) + if es.last().utxo.pubkey_hash@ == owner {
            es.last().utxo.value as int
        } else {
            0
        }
    }
}

proof fn lemma_owned_total_monotone(es: Seq<UtxoEntry>, owner: Seq<u8>, i: int)
    requires
        0 <= i <= es.len(),
    ensures
        owned_total(es.take(i), owner) <= owned_total(es, owner),
    decreases es.len() - i,
{
    if i < es.len() {
        lemma_owned_total_monotone(es, owner, i + 1);
        assert(es.take(i + 1).drop_last() =~= es.take(i));
    } else {
        assert(es.take(i) =~= es);
    }
}

impl Blockchain {
    /// Builds an unsigned transfer of `amount` from the outputs locked to
    /// `from`, taken in storage order until they cover it, with change back to
    /// `from` when they exceed it.
    pub fn create_transaction(&self, from: Vec<u8>, to: Vec<u8>, amount: u64) -> (r: Result<
        Transaction,
        TxBuildError,
    >)
        requires
            self.utxos.wf(),
        ensures
            r is Err <==> owned_total(self.utxos.entries_view(), from@) < amount,
            r matches Ok(tx) ==> {
                &&& tx@.outputs.len() >= 1
                &&& tx@.outputs[0] == (OutputV { value: amount, pubkey_hash: to@ })
                &&& input_total(tx@.inputs, self.utxos@) >= amount
                &&& tx@.outputs.len() == 1 ==> input_total(tx@.inputs, self.utxos@) == amount
                &&& tx@.outputs.len() == 2 ==> tx@.outputs[1] == (OutputV {
                    value: (input_total(tx@.inputs, self.utxos@) - amount) as u64,
                    pubkey_hash: from@,
                }) && input_total(tx@.inputs, self.utxos@) > amount
                &&& tx@.outputs.len() <= 2
                &&& distinct_outpoints(tx@.inputs)
                &&& forall|i: int|
                    0 <= i < tx@.inputs.len() ==> self.utxos@.contains_key(
                        crate::transaction::outpoint_of(#[trigger] tx@.inputs[i]),
                    ) && self.utxos@[crate::transaction::outpoint_of(tx@.inputs[i])].pubkey_hash
                        == from@
            },
    {
        let ghost es = self.utxos.entries_view();
        let ghost m = self.utxos@;
        proof {
            self.utxos.lemma_entries_match();
        }
        let entries = self.utxos.entries();
        let mut accumulated: u128 = 0;
        let mut inputs: Vec<TxInput> = Vec::new();
        let mut i: usize = 0;
        let mut done = false;
        assert(es.take(0) =~= Seq::<UtxoEntry>::empty());
        while i < entries.len() && !done
            invariant
                es == self.utxos.entries_view(),
                m == self.utxos@,
                entries@ == es,
                self.utxos.wf(),
                forall|j: int|
                    0 <= j < es.len() ==> m.contains_key(#[trigger] es[j].key()) && m[es[j].key()]
                        == es[j].utxo@,
                0 <= i <= es.len(),
                accumulated == owned_total(es.take(i as int), from@),
                done ==> accumulated >= amount,
                !done ==> accumulated < amount || inputs@.len() == 0,
                !done ==> accumulated <= u64::MAX,
                done ==> accumulated - amount <= u64::MAX,
                accumulated == input_total(inputs@.map_values(|x: TxInput| x@), m),
                distinct_outpoints(inputs@.map_values(|x: TxInput| x@)),
                forall|a: int, b: int|
                    0 <= a < b < es.len() ==> #[trigger] es[a].key() != #[trigger] es[b].key(),
                forall|j: int|
                    0 <= j < inputs@.len() ==> exists|e: int|
                        0 <= e < i && #[trigger] es[e].key() == crate::transaction::outpoint_of(
                            #[trigger] inputs@[j]@,
                        ),
                forall|j: int|
                    0 <= j < inputs@.len() ==> m.contains_key(
                        crate::transaction::outpoint_of(#[trigger] inputs@[j]@),
                    ) && m[crate::transaction::outpoint_of(inputs@[j]@)].pubkey_hash == from@,
            decreases es.len() - i,
        {
            let e = &entries[i];
            assert(es.take(i + 1).drop_last() =~= es.take(i as int));
            if crate::bytes::bytes_eq(e.utxo.pubkey_hash.as_slice(), from.as_slice()) {
                accumulated = accumulated + e.utxo.value as u128;
                let ghost before = inputs@;
                inputs.push(
                    TxInput {
                        txid: copy_bytes(&e.txid),
                        index: e.index,
                        signature: Vec::new(),
                        pubkey: Vec::new(),
                    },
                );
                proof {
                    let iv = inputs@.map_values(|x: TxInput| x@);
                    let bv = before.map_values(|x: TxInput| x@);
                    assert(iv.drop_last() =~= bv);
                    assert(crate::transaction::outpoint_of(iv.last()) == e.key());
                    assert(es[i as int] == *e);
                    assert forall|a: int, b: int| 0 <= a < b < iv.len() implies crate::transaction::outpoint_of(
                        #[trigger] iv[a],
                    ) != crate::transaction::outpoint_of(#[trigger] iv[b]) by {
                        assert(iv[a] == before[a]@);
                        if b < bv.len() {
                            assert(iv[b] == before[b]@);
                            assert(bv[a] == iv[a] && bv[b] == iv[b]);
                        } else {
                            let ea = choose|ea: int|
                                0 <= ea < i && #[trigger] es[ea].key() == crate::transaction::outpoint_of(
                                    before[a]@,
                                );
                            assert(es[ea].key() != es[i as int].key());
                        }
                    }
                    assert forall|j: int| 0 <= j < inputs@.len() implies exists|ee: int|
                        0 <= ee < i + 1 && #[trigger] es[ee].key() == crate::transaction::outpoint_of(
                            #[trigger] inputs@[j]@,
                        ) by {
                        if j < before.len() {
                            assert(inputs@[j] == before[j]);
                            let ea = choose|ea: int|
                                0 <= ea < i && #[trigger] es[ea].key() == crate::transaction::outpoint_of(
                                    before[j]@,
                                );
                            assert(es[ea].key() == crate::transaction::outpoint_of(inputs@[j]@));
                        } else {
                            assert(es[i as int].key() == crate::transaction::outpoint_of(inputs@[j]@));
                        }
                    }
                }
                if accumulated >= amount as u128 {
                    done = true;
                }
            }
            i = i + 1;
        }
        proof {
            if !done {
                assert(es.take(es.len() as int) =~= es);
            } else {
                lemma_owned_total_monotone(es, from@, i as int);
            }
        }
        if accumulated < amount as u128 {
            return Err(TxBuildError::InsufficientFunds);
        }
        let mut outputs: Vec<TxOutput> = Vec::new();
        outputs.push(TxOutput { value: amount, pubkey_hash: to });
        if accumulated > amount as u128 {
            let change = (accumulated - amount as u128) as u64;
            outputs.push(TxOutput { value: change, pubkey_hash: from });
        }
        let tx = Transaction { inputs, outputs };
        assert(tx@.inputs == inputs@.map_values(|x: TxInput| x@));
        assert(tx@.outputs[0] == outputs@[0]@);
        Ok(tx)
    }
}

impl Blockchain {
    /// Total value of the unspent outputs locked to `pubkey_hash`.
    pub fn balance_of(&self, pubkey_hash: &[u8]) -> (r: u128)
        requires
            self.utxos.wf(),
        ensures
            r == owned_total(self.utxos.entries_view(), pubkey_hash@),
    {
        let ghost es = self.utxos.entries_view();
        let entries = self.utxos.entries();
        let mut total: u128 = 0;
        let mut i: usize = 0;
        assert(es.take(0) =~= Seq::<UtxoEntry>::empty());
        while i < entries.len()
            invariant
                es == self.utxos.entries_view(),
                entries@ == es,
                0 <= i <= es.len(),
                total == owned_total(es.take(i as int), pubkey_hash@),
                total <= i * 0xffff_ffff_ffff_ffffu128,
            decreases es.len() - i,
        {
            let e = &entries[i];
            assert(es.take(i + 1).drop_last() =~= es.take(i as int));
            if crate::bytes::bytes_eq(e.utxo.pubkey_hash.as_slice(), pubkey_hash) {
                assert(total + e.utxo.value <= (i + 1) * 0xffff_ffff_ffff_ffffu128) by (nonlinear_arith)
                    requires
                        total <= i * 0xffff_ffff_ffff_ffffu128,
                        e.utxo.value <= 0xffff_ffff_ffff_ffffu64,
                ;
                assert((i + 1) * 0xffff_ffff_ffff_ffffu128 <= 0xffff_ffff_ffff_ffff_0000_0000_0000_0000u128) by (nonlinear_arith)
                    requires
                        i < 0xffff_ffff_ffff_ffffu128,
                ;
                total = total + e.utxo.value as u128;
            } else {
                assert(total <= (i + 1) * 0xffff_ffff_ffff_ffffu128) by (nonlinear_arith)
                    requires
                        total <= i * 0xffff_ffff_ffff_ffffu128,
                ;
            }
            i = i + 1;
        }
        assert(es.take(es.len() as int) =~= es);
        total
    }
}

} // verus!
