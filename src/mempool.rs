use vstd::prelude::*;
use vstd::relations::sorted_by;
use crate::block::{Block, BlockV};
use crate::bytes::{bytes_eq, copy_bytes};
use crate::chain::unix_now;
use crate::params::MAX_TX_SIZE;
use crate::rules::{fee_spec, calculate_fee, view_blocks, view_txs};
use crate::transaction::{outpoint_of, size_estimate, txid_of, Transaction, TxV};
use crate::utxo::{OutKey, UtxoSet, UtxoV};
use crate::validation::{tx_valid, validate_transaction};

verus! {

/// What a mempool entry is, as plain values.
pub struct EntryV {
    pub tx: TxV,
    pub fee: u64,
    pub size: usize,
    pub timestamp: i64,
}

/// An admitted transaction with its fee, size estimate and admission time.
pub struct MempoolEntry {
    pub tx: Transaction,
    pub fee: u64,
    pub size: usize,
    pub timestamp: i64,
}

impl View for MempoolEntry {
    type V = EntryV;

    open spec fn view(&self) -> EntryV {
        EntryV { tx: self.tx@, fee: self.fee, size: self.size, timestamp: self.timestamp }
    }
}

impl Clone for MempoolEntry {
    fn clone(&self) -> (r: Self)
        ensures
            r@ == self@,
    {
        MempoolEntry { tx: self.tx.clone(), fee: self.fee, size: self.size, timestamp: self.timestamp }
    }
}

/// Whether `t` has an input that spends `k`.
pub open spec fn tx_spends_key(t: TxV, k: OutKey) -> bool {
    exists|i: int| 0 <= i < t.inputs.len() && outpoint_of(#[trigger] t.inputs[i]) == k
}

/// Whether a transaction of `pool` spends `k`.
pub open spec fn pool_spends(pool: Seq<TxV>, k: OutKey) -> bool {
    exists|x: int| 0 <= x < pool.len() && tx_spends_key(#[trigger] pool[x], k)
}

/// No outpoint is spent by two transactions of `pool`.
pub open spec fn pool_disjoint(pool: Seq<TxV>) -> bool {
    forall|a: int, b: int, k: OutKey|
        0 <= a < b < pool.len() ==> !(#[trigger] tx_spends_key(pool[a], k) && #[trigger] tx_spends_key(
            pool[b],
            k,
        ))
}

/// The admission policy: not a coinbase, within the size limit, valid by the
/// consensus rules, spending nothing the pool already spends, and paying a fee.
pub open spec fn admits(pool: Seq<TxV>, tx: TxV, m: Map<OutKey, UtxoV>, height: u64) -> bool {
    &&& tx.inputs.len() > 0
    &&& size_estimate(tx) <= MAX_TX_SIZE
    &&& tx_valid(tx, m, height)
    &&& forall|i: int| 0 <= i < tx.inputs.len() ==> !pool_spends(pool, outpoint_of(#[trigger] tx.inputs[i]))
    &&& fee_spec(tx, m) > 0
}

/// The pool's transactions after offering each of `cands` in turn.
pub open spec fn admit_all(pool: Seq<TxV>, cands: Seq<TxV>, m: Map<OutKey, UtxoV>, height: u64) -> Seq<TxV>
    decreases cands.len(),
{
    if cands.len() == 0 {
        pool
    } else {
        let p = admit_all(pool, cands.drop_last(), m, height);
        if admits(p, cands.last(), m, height) {
            p.push(cands.last())
        } else {
            p
        }
    }
}

/// The transactions of the blocks, in order, each block's first one left out.
pub open spec fn non_coinbase_txs(blocks: Seq<BlockV>) -> Seq<TxV>
    decreases blocks.len(),
{
    if blocks.len() == 0 {
        Seq::empty()
    } else {
        let txs = blocks.last().transactions;
        non_coinbase_txs(blocks.drop_last()) + if txs.len() == 0 {
            Seq::empty()
        } else {
            txs.skip(1)
        }
    }
}

/// Fee rate of `a` is at least that of `b`, compared without division.
pub open spec fn rate_ge(a: EntryV, b: EntryV) -> bool {
    a.fee as int * b.size as int >= b.fee as int * a.size as int
}

pub open spec fn rate_order() -> spec_fn(EntryV, EntryV) -> bool {
    |a: EntryV, b: EntryV| rate_ge(a, b)
}

pub open spec fn keys_have(s: Seq<(Vec<u8>, u32)>, k: OutKey) -> bool {
    exists|i: int| 0 <= i < s.len() && (#[trigger] s[i].0@, s[i].1) == k
}

/// Admitted transactions waiting for a block, and the outpoints they spend.
pub struct Mempool {
    entries: Vec<MempoolEntry>,
    spent_outpoints: Vec<(Vec<u8>, u32)>,
}

impl Mempool {
    pub closed spec fn entries_view(&self) -> Seq<EntryV> {
        self.entries@.map_values(|e: MempoolEntry| e@)
    }

    /// The pool's transactions, in admission order.
    pub open spec fn txs(&self) -> Seq<TxV> {
        self.entries_view().map_values(|e: EntryV| e.tx)
    }

    /// Whether `k` is among the reserved outpoints.
    pub closed spec fn reserved_has(&self, k: OutKey) -> bool {
        keys_have(self.spent_outpoints@, k)
    }

    /// The reserved outpoints.
    pub open spec fn reserved(&self) -> Set<OutKey> {
        Set::new(|k: OutKey| self.reserved_has(k))
    }

    /// Every entry has a positive fee and a size of at least one byte, the
    /// reserved outpoints are exactly those the entries spend, and no two
    /// entries spend the same outpoint.
    pub open spec fn wf(&self) -> bool {
        &&& forall|k: OutKey| self.reserved_has(k) <==> pool_spends(self.txs(), k)
        &&& pool_disjoint(self.txs())
        &&& forall|x: int|
            0 <= x < self.entries_view().len() ==> (#[trigger] self.entries_view()[x]).fee > 0
                && self.entries_view()[x].size > 0
    }

    /// An empty pool.
    pub fn new() -> (r: Self)
        ensures
            r.wf(),
            r.entries_view().len() == 0,
    {
        let r = Mempool { entries: Vec::new(), spent_outpoints: Vec::new() };
        assert(r.txs() =~= Seq::<TxV>::empty());
        r
    }

    /// Number of entries.
    pub fn size(&self) -> (r: usize)
        ensures
            r == self.entries_view().len(),
    {
        self.entries.len()
    }

    /// The entries, in admission order.
    pub fn entries(&self) -> (r: &Vec<MempoolEntry>)
        ensures
            r@.map_values(|e: MempoolEntry| e@) == self.entries_view(),
    {
        &self.entries
    }

    fn is_reserved(&self, txid: &[u8], index: u32) -> (r: bool)
        ensures
            r == self.reserved_has((txid@, index)),
    {
        let mut i: usize = 0;
        while i < self.spent_outpoints.len()
            invariant
                0 <= i <= self.spent_outpoints@.len(),
                forall|j: int|
                    0 <= j < i ==> (#[trigger] self.spent_outpoints@[j].0@, self.spent_outpoints@[j].1)
                        != (txid@, index),
            decreases self.spent_outpoints@.len() - i,
        {
            if self.spent_outpoints[i].1 == index && bytes_eq(self.spent_outpoints[i].0.as_slice(), txid) {
                assert((self.spent_outpoints@[i as int].0@, self.spent_outpoints@[i as int].1) == (txid@, index));
                return true;
            }
            i = i + 1;
        }
        false
    }

    /// Admits `tx` if the policy allows it against `utxos` at `chain_height`,
    /// reserving its outpoints; otherwise nothing changes.
    pub fn add_transaction(&mut self, tx: Transaction, utxos: &UtxoSet, chain_height: u64) -> (r: bool)
        requires
            old(self).wf(),
            utxos.wf(),
        ensures
            final(self).wf(),
            r == admits(old(self).txs(), tx@, utxos@, chain_height),
            r ==> final(self).txs() == old(self).txs().push(tx@),
            r ==> final(self).entries_view().drop_last() == old(self).entries_view(),
            r ==> final(self).entries_view().last().fee == fee_spec(tx@, utxos@),
            r ==> final(self).entries_view().last().size == size_estimate(tx@),
            !r ==> final(self).entries_view() == old(self).entries_view(),
    {
        let now = unix_now();
        self.add_transaction_at(tx, utxos, chain_height, now)
    }

    /// Same as `add_transaction`, with `now` as the admission time.
    pub fn add_transaction_at(&mut self, tx: Transaction, utxos: &UtxoSet, chain_height: u64, now: i64) -> (r: bool)
        requires
            old(self).wf(),
            utxos.wf(),
        ensures
            final(self).wf(),
            r == admits(old(self).txs(), tx@, utxos@, chain_height),
            r ==> final(self).txs() == old(self).txs().push(tx@),
            r ==> final(self).entries_view().drop_last() == old(self).entries_view(),
            r ==> final(self).entries_view().last().fee == fee_spec(tx@, utxos@),
            r ==> final(self).entries_view().last().size == size_estimate(tx@),
            r ==> final(self).entries_view().last().timestamp == now,
            !r ==> final(self).entries_view() == old(self).entries_view(),
    {
        let ghost t = tx@;
        let ghost pool = self.txs();
        if tx.inputs.len() == 0 {
            return false;
        }
        let size = tx.serialized_size();
        if size > MAX_TX_SIZE {
            return false;
        }
        if !validate_transaction(&tx, utxos, chain_height) {
            return false;
        }
        let mut i: usize = 0;
        while i < tx.inputs.len()
            invariant
                t == tx@,
                pool == self.txs(),
                self.wf(),
                self.entries@ == old(self).entries@,
                self.spent_outpoints@ == old(self).spent_outpoints@,
                0 <= i <= t.inputs.len(),
                forall|j: int| 0 <= j < i ==> !pool_spends(pool, outpoint_of(#[trigger] t.inputs[j])),
            decreases t.inputs.len() - i,
        {
            assert(t.inputs[i as int] == tx.inputs@[i as int]@);
            if self.is_reserved(tx.inputs[i].txid.as_slice(), tx.inputs[i].index) {
                return false;
            }
            i = i + 1;
        }
        let fee = calculate_fee(&tx, utxos);
        if fee == 0 {
            return false;
        }
        let ghost res0 = self.spent_outpoints@;
        let mut k: usize = 0;
        while k < tx.inputs.len()
            invariant
                t == tx@,
                pool == self.txs(),
                self.entries@ == old(self).entries@,
                0 <= k <= t.inputs.len(),
                self.spent_outpoints@.len() == res0.len() + k,
                forall|j: int| 0 <= j < res0.len() ==> self.spent_outpoints@[j] == res0[j],
                forall|j: int|
                    0 <= j < k ==> (#[trigger] self.spent_outpoints@[res0.len() + j].0@, self.spent_outpoints@[res0.len() + j].1)
                        == outpoint_of(t.inputs[j]),
            decreases t.inputs.len() - k,
        {
            let inp = &tx.inputs[k];
            assert(t.inputs[k as int] == inp@);
            self.spent_outpoints.push((copy_bytes(&inp.txid), inp.index));
            k = k + 1;
        }
        let ghost old_self = *old(self);
        self.entries.push(MempoolEntry { tx, fee, size, timestamp: now });
        proof {
            assert(self.entries_view().drop_last() =~= old_self.entries_view());
            assert(self.txs() =~= pool.push(t));
            assert forall|key: OutKey| self.reserved_has(key) <==> pool_spends(self.txs(), key) by {
                if self.reserved_has(key) {
                    let j = choose|j: int|
                        0 <= j < self.spent_outpoints@.len() && (#[trigger] self.spent_outpoints@[j].0@, self.spent_outpoints@[j].1) == key;
                    if j < res0.len() {
                        assert(old_self.reserved_has(key)) by {
                            assert(old_self.spent_outpoints@[j] == self.spent_outpoints@[j]);
                        }
                        let x = choose|x: int| 0 <= x < pool.len() && tx_spends_key(#[trigger] pool[x], key);
                        assert(self.txs()[x] == pool[x]);
                    } else {
                        let jj = j - res0.len();
                        assert((self.spent_outpoints@[res0.len() + jj].0@, self.spent_outpoints@[res0.len() + jj].1) == outpoint_of(t.inputs[jj]));
                        assert(tx_spends_key(t, key));
                        assert(self.txs()[pool.len() as int] == t);
                    }
                }
                if pool_spends(self.txs(), key) {
                    let x = choose|x: int| 0 <= x < self.txs().len() && tx_spends_key(#[trigger] self.txs()[x], key);
                    if x < pool.len() {
                        assert(self.txs()[x] == pool[x]);
                        assert(pool_spends(pool, key));
                        assert(old_self.reserved_has(key));
                        let j = choose|j: int|
                            0 <= j < old_self.spent_outpoints@.len() && (#[trigger] old_self.spent_outpoints@[j].0@, old_self.spent_outpoints@[j].1) == key;
                        assert(self.spent_outpoints@[j] == res0[j]);
                    } else {
                        assert(self.txs()[x] == t);
                        let i = choose|i: int| 0 <= i < t.inputs.len() && outpoint_of(#[trigger] t.inputs[i]) == key;
                        assert((self.spent_outpoints@[res0.len() + i].0@, self.spent_outpoints@[res0.len() + i].1) == outpoint_of(t.inputs[i]));
                    }
                }
            }
            assert forall|a: int, b: int, key: OutKey|
                0 <= a < b < self.txs().len() implies !(#[trigger] tx_spends_key(self.txs()[a], key) && #[trigger] tx_spends_key(
                    self.txs()[b],
                    key,
                )) by {
                if b < pool.len() {
                    assert(self.txs()[a] == pool[a]);
                    assert(self.txs()[b] == pool[b]);
                } else if tx_spends_key(self.txs()[a], key) && tx_spends_key(self.txs()[b], key) {
                    assert(self.txs()[b] == t);
                    assert(self.txs()[a] == pool[a]);
                    let i = choose|i: int| 0 <= i < t.inputs.len() && outpoint_of(#[trigger] t.inputs[i]) == key;
                    assert(!pool_spends(pool, outpoint_of(t.inputs[i])));
                }
            }
            assert forall|x: int| 0 <= x < self.entries_view().len() implies (#[trigger] self.entries_view()[x]).fee > 0
                && self.entries_view()[x].size > 0 by {
                if x < old_self.entries_view().len() {
                    assert(self.entries_view()[x] == old_self.entries_view()[x]);
                }
            }
        }
        true
    }

    /// Rebuilds the reserved outpoints from the entries.
    fn rebuild_spent_outpoints(&mut self)
        requires
            pool_disjoint(old(self).txs()),
            forall|x: int|
                0 <= x < old(self).entries_view().len() ==> (#[trigger] old(self).entries_view()[x]).fee > 0
                    && old(self).entries_view()[x].size > 0,
        ensures
            final(self).wf(),
            final(self).entries_view() == old(self).entries_view(),
    {
        let ghost pool = self.txs();
        self.spent_outpoints = Vec::new();
        let mut x: usize = 0;
        assert(pool.take(0) =~= Seq::<TxV>::empty());
        assert forall|k: OutKey| self.reserved_has(k) <==> pool_spends(pool.take(0), k) by {
            assert(self.spent_outpoints@.len() == 0);
        }
        while x < self.entries.len()
            invariant
                pool == self.txs(),
                self.entries@ == old(self).entries@,
                0 <= x <= pool.len(),
                forall|k: OutKey| self.reserved_has(k) <==> pool_spends(pool.take(x as int), k),
            decreases pool.len() - x,
        {
            let ghost res0 = self.spent_outpoints@;
            assert forall|k: OutKey| keys_have(res0, k) <==> pool_spends(pool.take(x as int), k) by {
                assert(self.reserved_has(k) == keys_have(res0, k));
            }
            let ghost t = pool[x as int];
            assert(t == self.entries@[x as int].tx@);
            let mut i: usize = 0;
            while i < self.entries[x].tx.inputs.len()
                invariant
                    pool == self.txs(),
                    self.entries@ == old(self).entries@,
                    x < pool.len(),
                    t == pool[x as int],
                    t == self.entries@[x as int].tx@,
                    0 <= i <= t.inputs.len(),
                    self.spent_outpoints@.len() == res0.len() + i,
                    forall|j: int| 0 <= j < res0.len() ==> self.spent_outpoints@[j] == res0[j],
                    forall|j: int|
                        0 <= j < i ==> (#[trigger] self.spent_outpoints@[res0.len() + j].0@, self.spent_outpoints@[res0.len() + j].1)
                            == outpoint_of(t.inputs[j]),
                decreases t.inputs.len() - i,
            {
                let inp = &self.entries[x].tx.inputs[i];
                assert(t.inputs[i as int] == inp@);
                let item = (copy_bytes(&inp.txid), inp.index);
                self.spent_outpoints.push(item);
                i = i + 1;
            }
            proof {
                assert(pool.take(x + 1).drop_last() =~= pool.take(x as int));
                assert forall|k: OutKey| self.reserved_has(k) <==> pool_spends(pool.take(x + 1), k) by {
                    if self.reserved_has(k) {
                        let j = choose|j: int|
                            0 <= j < self.spent_outpoints@.len() && (#[trigger] self.spent_outpoints@[j].0@, self.spent_outpoints@[j].1) == k;
                        if j < res0.len() {
                            assert(self.spent_outpoints@[j] == res0[j]);
                            assert(pool_spends(pool.take(x as int), k)) by {
                                assert((res0[j].0@, res0[j].1) == k);
                                assert(keys_have(res0, k));
                            }
                            let y = choose|y: int| 0 <= y < pool.take(x as int).len() && tx_spends_key(#[trigger] pool.take(x as int)[y], k);
                            assert(pool.take(x + 1)[y] == pool.take(x as int)[y]);
                        } else {
                            let jj = j - res0.len();
                            assert((self.spent_outpoints@[res0.len() + jj].0@, self.spent_outpoints@[res0.len() + jj].1) == outpoint_of(t.inputs[jj]));
                            assert(tx_spends_key(t, k));
                            assert(pool.take(x + 1)[x as int] == t);
                        }
                    }
                    if pool_spends(pool.take(x + 1), k) {
                        let y = choose|y: int| 0 <= y < pool.take(x + 1).len() && tx_spends_key(#[trigger] pool.take(x + 1)[y], k);
                        if y < x {
                            assert(pool.take(x as int)[y] == pool.take(x + 1)[y]);
                            assert(pool_spends(pool.take(x as int), k));
                            assert(keys_have(res0, k));
                            let j2 = choose|j2: int| 0 <= j2 < res0.len() && (#[trigger] res0[j2].0@, res0[j2].1) == k;
                            assert(self.spent_outpoints@[j2] == res0[j2]);
                        } else {
                            assert(pool.take(x + 1)[y] == t);
                            let i2 = choose|i2: int| 0 <= i2 < t.inputs.len() && outpoint_of(#[trigger] t.inputs[i2]) == k;
                            assert((self.spent_outpoints@[res0.len() + i2].0@, self.spent_outpoints@[res0.len() + i2].1) == outpoint_of(t.inputs[i2]));
                        }
                    }
                }
            }
            x = x + 1;
        }
        assert(pool.take(pool.len() as int) =~= pool);
    }

    /// Drops every entry whose transaction id is that of a confirmed
    /// transaction, then rebuilds the reserved outpoints.
    #[verifier::rlimit(80)]
    pub fn remove_confirmed(&mut self, confirmed: &[Transaction])
        requires
            old(self).wf(),
        ensures
            final(self).wf(),
            final(self).entries_view() == old(self).entries_view().filter(
                unconfirmed(view_txs(confirmed@)),
            ),
    {
        let ghost ev = self.entries_view();
        let ghost pred = unconfirmed(view_txs(confirmed@));
        let mut ids: Vec<Vec<u8>> = Vec::new();
        let mut c: usize = 0;
        while c < confirmed.len()
            invariant
                0 <= c <= confirmed@.len(),
                ids@.len() == c,
                forall|j: int| 0 <= j < c ==> #[trigger] ids@[j]@ == txid_of(confirmed@[j]@),
            decreases confirmed@.len() - c,
        {
            ids.push(confirmed[c].txid());
            c = c + 1;
        }
        let mut kept: Vec<MempoolEntry> = Vec::new();
        let mut i: usize = 0;
        assert(ev.take(0) =~= Seq::<EntryV>::empty());
        assert(ev.take(0).filter(pred) =~= Seq::<EntryV>::empty()) by {
            reveal(Seq::filter);
        }
        while i < self.entries.len()
            invariant
                ev == self.entries_view(),
                ev == old(self).entries_view(),
                self.wf(),
                pred == unconfirmed(view_txs(confirmed@)),
                ids@.len() == confirmed@.len(),
                forall|j: int| 0 <= j < ids@.len() ==> #[trigger] ids@[j]@ == txid_of(confirmed@[j]@),
                0 <= i <= ev.len(),
                kept@.map_values(|e: MempoolEntry| e@) == ev.take(i as int).filter(pred),
                forall|y: int|
                    0 <= y < kept@.len() ==> exists|j: int| 0 <= j < i && (#[trigger] kept@[y])@ == ev[j],
                forall|a: int, b: int, k: OutKey|
                    0 <= a < b < kept@.len() ==> !(#[trigger] tx_spends_key(kept@[a]@.tx, k) && #[trigger] tx_spends_key(kept@[b]@.tx, k)),
                forall|y: int| 0 <= y < kept@.len() ==> (#[trigger] kept@[y]).fee > 0 && kept@[y].size > 0,
            decreases ev.len() - i,
        {
            let e = &self.entries[i];
            assert(ev[i as int] == e@);
            let id = e.tx.txid();
            let mut found = false;
            let mut c2: usize = 0;
            while c2 < ids.len()
                invariant
                    0 <= c2 <= ids@.len(),
                    found == exists|j: int| 0 <= j < c2 && (#[trigger] ids@[j])@ == id@,
                decreases ids@.len() - c2,
            {
                if bytes_eq(ids[c2].as_slice(), id.as_slice()) {
                    found = true;
                }
                c2 = c2 + 1;
            }
            proof {
                assert(ev.take(i + 1).drop_last() =~= ev.take(i as int));
                assert(ev.take(i + 1).last() == e@);
                reveal(Seq::filter);
                assert(ev.take(i + 1).filter(pred) == if pred(e@) {
                    ev.take(i as int).filter(pred).push(e@)
                } else {
                    ev.take(i as int).filter(pred)
                });
                if found {
                    let j = choose|j: int| 0 <= j < ids@.len() && (#[trigger] ids@[j])@ == id@;
                    assert(view_txs(confirmed@)[j] == confirmed@[j]@);
                    assert(!pred(e@));
                } else {
                    assert forall|j: int| 0 <= j < view_txs(confirmed@).len() implies txid_of(
                        #[trigger] view_txs(confirmed@)[j],
                    ) != txid_of(e@.tx) by {
                        assert(view_txs(confirmed@)[j] == confirmed@[j]@);
                        assert(ids@[j]@ == txid_of(confirmed@[j]@));
                    }
                    assert(pred(e@));
                }
            }
            if !found {
                let ghost before = kept@;
                kept.push(e.clone());
                proof {
                    assert(kept@.map_values(|e: MempoolEntry| e@) =~= before.map_values(|e: MempoolEntry| e@).push(e@));
                    assert forall|y: int| 0 <= y < kept@.len() implies exists|j: int| 0 <= j < i + 1 && (#[trigger] kept@[y])@ == ev[j] by {
                        if y < before.len() {
                            assert(kept@[y] == before[y]);
                        } else {
                            assert(kept@[y]@ == ev[i as int]);
                        }
                    }
                    assert forall|a: int, b: int, k: OutKey|
                        0 <= a < b < kept@.len() implies !(#[trigger] tx_spends_key(kept@[a]@.tx, k) && #[trigger] tx_spends_key(kept@[b]@.tx, k)) by {
                        if b < before.len() {
                            assert(kept@[a] == before[a]);
                            assert(kept@[b] == before[b]);
                        } else {
                            assert(kept@[a] == before[a]);
                            let j = choose|j: int| 0 <= j < i && (#[trigger] before[a])@ == ev[j];
                            assert(self.txs()[j] == ev[j].tx);
                            assert(self.txs()[i as int] == ev[i as int].tx);
                            assert(kept@[b]@ == ev[i as int]);
                            assert(!(tx_spends_key(self.txs()[j], k) && tx_spends_key(self.txs()[i as int], k)));
                        }
                    }
                    assert forall|y: int| 0 <= y < kept@.len() implies (#[trigger] kept@[y]).fee > 0 && kept@[y].size > 0 by {
                        if y < before.len() {
                            assert(kept@[y] == before[y]);
                        } else {
                            assert(ev[i as int] == self.entries_view()[i as int]);
                        }
                    }
                }
            }
            i = i + 1;
        }
        assert(ev.take(ev.len() as int) =~= ev);
        self.entries = kept;
        proof {
            assert forall|a: int, b: int, k: OutKey|
                0 <= a < b < self.txs().len() implies !(#[trigger] tx_spends_key(self.txs()[a], k) && #[trigger] tx_spends_key(self.txs()[b], k)) by {
                assert(self.txs()[a] == self.entries@[a]@.tx);
                assert(self.txs()[b] == self.entries@[b]@.tx);
            }
            assert forall|x: int| 0 <= x < self.entries_view().len() implies (#[trigger] self.entries_view()[x]).fee > 0
                && self.entries_view()[x].size > 0 by {
                assert(self.entries_view()[x] == self.entries@[x]@);
            }
        }
        self.rebuild_spent_outpoints();
    }

    /// Offers again, through the normal admission, every transaction of the
    /// orphaned blocks but each block's first; refusals are dropped.
    pub fn resurrect_from_orphans(&mut self, orphaned: Vec<Block>, utxos: &UtxoSet, chain_height: u64)
        requires
            old(self).wf(),
            utxos.wf(),
        ensures
            final(self).wf(),
            final(self).txs() == admit_all(
                old(self).txs(),
                non_coinbase_txs(view_blocks(orphaned@)),
                utxos@,
                chain_height,
            ),
            final(self).entries_view().take(old(self).entries_view().len() as int) == old(
                self,
            ).entries_view(),
            forall|x: int|
                old(self).entries_view().len() <= x < final(self).entries_view().len() ==> (
                #[trigger] final(self).entries_view()[x]).fee == fee_spec(
                    final(self).entries_view()[x].tx,
                    utxos@,
                ) && final(self).entries_view()[x].size == size_estimate(
                    final(self).entries_view()[x].tx,
                ),
    {
        let ghost e0 = self.entries_view();
        let ghost bv = view_blocks(orphaned@);
        let ghost p0 = self.txs();
        let mut b: usize = 0;
        assert(bv.take(0) =~= Seq::<BlockV>::empty());
        while b < orphaned.len()
            invariant
                bv == view_blocks(orphaned@),
                self.wf(),
                utxos.wf(),
                0 <= b <= bv.len(),
                self.txs() == admit_all(p0, non_coinbase_txs(bv.take(b as int)), utxos@, chain_height),
                self.entries_view().len() >= e0.len(),
                self.entries_view().take(e0.len() as int) == e0,
                forall|x: int|
                    e0.len() <= x < self.entries_view().len() ==> (#[trigger] self.entries_view()[x]).fee
                        == fee_spec(self.entries_view()[x].tx, utxos@) && self.entries_view()[x].size
                        == size_estimate(self.entries_view()[x].tx),
            decreases bv.len() - b,
        {
            let blk = &orphaned[b];
            assert(bv[b as int] == blk@);
            let ghost txs = blk@.transactions;
            let ghost before = non_coinbase_txs(bv.take(b as int));
            assert(bv.take(b + 1).drop_last() =~= bv.take(b as int));
            let mut j: usize = 1;
            proof {
                if txs.len() > 0 {
                    assert(before + txs.subrange(1, 1) =~= before);
                }
            }
            while j < blk.transactions.len()
                invariant
                    bv == view_blocks(orphaned@),
                    b < bv.len(),
                    blk@ == bv[b as int],
                    txs == blk@.transactions,
                    self.wf(),
                    utxos.wf(),
                    1 <= j,
                    j <= txs.len() || txs.len() == 0,
                    txs.len() > 0 ==> self.txs() == admit_all(p0, before + txs.subrange(1, j as int), utxos@, chain_height),
                    txs.len() == 0 ==> self.txs() == admit_all(p0, before, utxos@, chain_height),
                self.entries_view().len() >= e0.len(),
                self.entries_view().take(e0.len() as int) == e0,
                forall|x: int|
                    e0.len() <= x < self.entries_view().len() ==> (#[trigger] self.entries_view()[x]).fee
                        == fee_spec(self.entries_view()[x].tx, utxos@) && self.entries_view()[x].size
                        == size_estimate(self.entries_view()[x].tx),
                decreases txs.len() - j,
            {
                let tx = blk.transactions[j].clone();
                assert(tx@ == txs[j as int]);
                assert((before + txs.subrange(1, j + 1)).drop_last() =~= before + txs.subrange(1, j as int));
                let ghost ev0 = self.entries_view();
                let ok = self.add_transaction(tx, utxos, chain_height);
                proof {
                    if ok {
                        let ev1 = self.entries_view();
                        assert(self.txs().len() == ev1.len());
                        assert(ev1.len() == ev0.len() + 1);
                        assert(ev1.drop_last() == ev0);
                        assert forall|i: int| 0 <= i < ev0.len() implies ev1[i] == ev0[i] by {
                            assert(ev1.drop_last()[i] == ev1[i]);
                        }
                        assert(ev1.take(e0.len() as int) =~= ev0.take(e0.len() as int));
                        assert forall|x: int|
                            e0.len() <= x < ev1.len() implies (#[trigger] ev1[x]).fee == fee_spec(ev1[x].tx, utxos@)
                                && ev1[x].size == size_estimate(ev1[x].tx) by {
                            if x < ev0.len() {
                                assert(ev1[x] == ev0[x]);
                            } else {
                                assert(ev1.last().tx == self.txs().last());
                            }
                        }
                    }
                }
                j = j + 1;
            }
            proof {
                if txs.len() > 0 {
                    assert(txs.subrange(1, txs.len() as int) =~= txs.skip(1));
                    assert(non_coinbase_txs(bv.take(b + 1)) == before + txs.skip(1));
                } else {
                    assert(non_coinbase_txs(bv.take(b + 1)) =~= before);
                }
            }
            b = b + 1;
        }
        assert(bv.take(bv.len() as int) =~= bv);
    }

    /// The pool's transactions ordered by fee rate, highest first.
    pub fn sorted_for_mining(&self) -> (r: Vec<Transaction>)
        requires
            self.wf(),
        ensures
            exists|s: Seq<EntryV>, idx: Seq<int>|
                #[trigger] stable_rate_order(s, idx, self.entries_view()) && view_txs(r@)
                    == s.map_values(|e: EntryV| e.tx),
    {
        let ghost ev = self.entries_view();
        let mut sorted: Vec<MempoolEntry> = Vec::new();
        let ghost mut idx: Seq<int> = Seq::empty();
        let mut k: usize = 0;
        assert(sorted@.map_values(|e: MempoolEntry| e@) =~= ev.take(0));
        while k < self.entries.len()
            invariant
                ev == self.entries_view(),
                self.wf(),
                0 <= k <= ev.len(),
                sorted_by(sorted@.map_values(|e: MempoolEntry| e@), rate_order()),
                sorted@.map_values(|e: MempoolEntry| e@).to_multiset() == ev.take(k as int).to_multiset(),
                forall|y: int| 0 <= y < sorted@.len() ==> (#[trigger] sorted@[y]).size > 0,
                idx.len() == sorted@.len(),
                forall|y: int|
                    0 <= y < sorted@.len() ==> 0 <= #[trigger] idx[y] < k && sorted@[y]@ == ev[idx[y]],
                forall|a: int, b: int|
                    0 <= a < b < sorted@.len() && rate_ge(sorted@[b]@, sorted@[a]@) ==> #[trigger] idx[a]
                        < #[trigger] idx[b],
            decreases ev.len() - k,
        {
            let e = self.entries[k].clone();
            assert(ev[k as int] == e@);
            assert(e.size > 0);
            let ghost sv = sorted@.map_values(|x: MempoolEntry| x@);
            let ghost old_idx = idx;
            let ghost old_sorted = sorted@;
            let mut p: usize = 0;
            while p < sorted.len() && rate_at_least(&sorted[p], &e)
                invariant
                    sv == sorted@.map_values(|x: MempoolEntry| x@),
                    0 <= p <= sorted@.len(),
                    forall|j: int| 0 <= j < p ==> rate_ge(#[trigger] sv[j], e@),
                decreases sorted@.len() - p,
            {
                assert(sv[p as int] == sorted@[p as int]@);
                p = p + 1;
            }
            proof {
                if p < sorted@.len() {
                    assert(sv[p as int] == sorted@[p as int]@);
                    assert(!rate_ge(sv[p as int], e@));
                }
            }
            sorted.insert(p, e);
            proof {
                idx = old_idx.insert(p as int, k as int);
                let nv = sorted@.map_values(|x: MempoolEntry| x@);
                assert forall|y: int| 0 <= y < sorted@.len() implies 0 <= #[trigger] idx[y] < k + 1
                    && sorted@[y]@ == ev[idx[y]] by {
                    if y < p {
                        assert(sorted@[y] == old_sorted[y]);
                    } else if y > p {
                        assert(sorted@[y] == old_sorted[y - 1]);
                    }
                }
                assert forall|a: int, b: int|
                    0 <= a < b < sorted@.len() && rate_ge(sorted@[b]@, sorted@[a]@) implies #[trigger] idx[a]
                        < #[trigger] idx[b] by {
                    if b < p {
                        assert(sorted@[a] == old_sorted[a] && sorted@[b] == old_sorted[b]);
                    } else if b == p {
                        assert(sorted@[a] == old_sorted[a]);
                    } else if a < p {
                        assert(sorted@[a] == old_sorted[a] && sorted@[b] == old_sorted[b - 1]);
                    } else if a == p {
                        assert(sorted@[b] == old_sorted[b - 1]);
                        assert(sv[b - 1] == old_sorted[b - 1]@);
                        assert(sv[p as int] == old_sorted[p as int]@);
                        assert(old_sorted[b - 1].size > 0 && old_sorted[p as int].size > 0);
                        if b - 1 > p {
                            assert((rate_order())(sv[p as int], sv[b - 1]));
                            if rate_ge(sv[b - 1], e@) {
                                lemma_rate_trans(sv[p as int], sv[b - 1], e@);
                            }
                        }
                    } else {
                        assert(sorted@[a] == old_sorted[a - 1] && sorted@[b] == old_sorted[b - 1]);
                    }
                }
                assert(nv =~= sv.insert(p as int, e@));
                vstd::seq_lib::to_multiset_insert(sv, p as int, e@);
                assert(ev.take(k + 1) =~= ev.take(k as int).push(e@));
                vstd::seq_lib::to_multiset_build(ev.take(k as int), e@);
                assert forall|a: int, b: int| 0 <= a < b < nv.len() implies #[trigger] (rate_order())(nv[a], nv[b]) by {
                    if b < p {
                        assert((rate_order())(sv[a], sv[b]));
                    } else if b == p {
                    } else if a < p {
                        assert((rate_order())(sv[a], sv[b - 1]));
                    } else if a == p {
                        assert(!rate_ge(sv[p as int], e@));
                        if b - 1 > p {
                            assert((rate_order())(sv[p as int], sv[b - 1]));
                        }
                        lemma_rate_step(e@, sv[p as int], sv[b - 1]);
                    } else {
                        assert((rate_order())(sv[a - 1], sv[b - 1]));
                    }
                }
                assert forall|y: int| 0 <= y < sorted@.len() implies (#[trigger] sorted@[y]).size > 0 by {
                    assert(sorted@[y]@ == nv[y]);
                    if y < p {
                        assert(nv[y] == sv[y]);
                    }
                }
            }
            k = k + 1;
        }
        let mut out: Vec<Transaction> = Vec::new();
        let mut i: usize = 0;
        while i < sorted.len()
            invariant
                0 <= i <= sorted@.len(),
                out@.len() == i,
                forall|j: int| 0 <= j < i ==> #[trigger] out@[j]@ == sorted@[j]@.tx,
            decreases sorted@.len() - i,
        {
            out.push(sorted[i].tx.clone());
            i = i + 1;
        }
        proof {
            assert(ev.take(ev.len() as int) =~= ev);
            let s = sorted@.map_values(|x: MempoolEntry| x@);
            assert(view_txs(out@) =~= s.map_values(|e: EntryV| e.tx));
            assert(stable_rate_order(s, idx, ev));
        }
        out
    }
}

/// Whether `a` pays at least the fee rate of `b`.
pub fn rate_at_least(a: &MempoolEntry, b: &MempoolEntry) -> (r: bool)
    ensures
        r == rate_ge(a@, b@),
{
    let x = a.fee as u128;
    let y = b.size as u128;
    let z = b.fee as u128;
    let w = a.size as u128;
    assert(x * y <= 0xffff_ffff_ffff_ffff_u128 * 0xffff_ffff_ffff_ffff_u128) by (nonlinear_arith)
        requires x <= 0xffff_ffff_ffff_ffff_u128, y <= 0xffff_ffff_ffff_ffff_u128;
    assert(z * w <= 0xffff_ffff_ffff_ffff_u128 * 0xffff_ffff_ffff_ffff_u128) by (nonlinear_arith)
        requires z <= 0xffff_ffff_ffff_ffff_u128, w <= 0xffff_ffff_ffff_ffff_u128;
    x * y >= z * w
}

/// `s` holds the entries of `ev` (at admission indices `idx`), ordered by fee
/// rate from highest to lowest, with entries of equal rate in admission order.
pub open spec fn stable_rate_order(s: Seq<EntryV>, idx: Seq<int>, ev: Seq<EntryV>) -> bool {
    &&& s.len() == idx.len()
    &&& s.to_multiset() == ev.to_multiset()
    &&& sorted_by(s, rate_order())
    &&& forall|y: int| 0 <= y < s.len() ==> 0 <= #[trigger] idx[y] < ev.len() && s[y] == ev[idx[y]]
    &&& forall|a: int, b: int|
        0 <= a < b < s.len() && rate_ge(s[b], s[a]) ==> #[trigger] idx[a] < #[trigger] idx[b]
}

/// The fee-rate order is transitive on entries of positive size.
proof fn lemma_rate_trans(a: EntryV, b: EntryV, c: EntryV)
    requires
        a.size > 0,
        b.size > 0,
        c.size > 0,
        rate_ge(a, b),
        rate_ge(b, c),
    ensures
        rate_ge(a, c),
{
    let (af, asz) = (a.fee as int, a.size as int);
    let (bf, bsz) = (b.fee as int, b.size as int);
    let (cf, csz) = (c.fee as int, c.size as int);
    assert(af * csz >= cf * asz) by (nonlinear_arith)
        requires
            asz > 0, bsz > 0, csz > 0, af >= 0, bf >= 0, cf >= 0,
            af * bsz >= bf * asz,
            bf * csz >= cf * bsz,
    {
        assert(af * bsz * csz >= bf * asz * csz);
        assert(bf * csz * asz >= cf * bsz * asz);
        assert(af * csz * bsz >= cf * asz * bsz);
    }
}

/// Keeps an entry whose transaction id is none of those of `confirmed`.
pub open spec fn unconfirmed(confirmed: Seq<TxV>) -> spec_fn(EntryV) -> bool {
    |e: EntryV| forall|j: int| 0 <= j < confirmed.len() ==> txid_of(#[trigger] confirmed[j]) != txid_of(e.tx)
}

/// If `a` pays a strictly higher rate than `b`, and `b` at least the rate of
/// `c`, then `a` pays at least the rate of `c`.
proof fn lemma_rate_step(a: EntryV, b: EntryV, c: EntryV)
    requires
        a.size > 0,
        b.size > 0,
        c.size > 0,
        !rate_ge(b, a),
        rate_ge(b, c),
    ensures
        rate_ge(a, c),
{
    let (af, asz) = (a.fee as int, a.size as int);
    let (bf, bsz) = (b.fee as int, b.size as int);
    let (cf, csz) = (c.fee as int, c.size as int);
    assert(af * csz >= cf * asz) by (nonlinear_arith)
        requires
            asz > 0, bsz > 0, csz > 0, af >= 0, bf >= 0, cf >= 0,
            bf * asz < af * bsz,
            bf * csz >= cf * bsz,
    {
        assert(bf * asz * csz <= af * bsz * csz);
        assert(bf * csz * asz >= cf * bsz * asz);
        assert(af * csz * bsz >= cf * asz * bsz);
    }
}

/// Offering a transaction a second time, right after it was admitted, is
/// refused: its own outpoints are now taken.
pub proof fn lemma_admission_idempotent(pool: Seq<TxV>, tx: TxV, m: Map<OutKey, UtxoV>, height: u64)
    requires
        admits(pool, tx, m, height),
    ensures
        !admits(pool.push(tx), tx, m, height),
{
    let p = pool.push(tx);
    assert(p[pool.len() as int] == tx);
    assert(tx_spends_key(tx, outpoint_of(tx.inputs[0])));
    assert(pool_spends(p, outpoint_of(tx.inputs[0])));
}

/// In a well-formed pool the reserved outpoints are exactly those its
/// transactions spend, and no two of them spend the same one.
pub proof fn lemma_reserved_is_union(pool: &Mempool)
    requires
        pool.wf(),
    ensures
        pool.reserved() == Set::new(|k: OutKey| pool_spends(pool.txs(), k)),
        pool_disjoint(pool.txs()),
{
    assert(pool.reserved() =~= Set::new(|k: OutKey| pool_spends(pool.txs(), k)));
}

} // verus!
