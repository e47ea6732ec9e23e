use vstd::prelude::*;
use crate::bytes::{bytes_eq, copy_bytes};

verus! {

/// The key of an output: the id of the transaction that made it, and its index.
pub type OutKey = (Seq<u8>, u32);

/// What an unspent output is, as plain values.
pub struct UtxoV {
    pub value: u64,
    pub pubkey_hash: Seq<u8>,
    pub height: u64,
    pub is_coinbase: bool,
}

/// An unspent output with the height of the block that created it.
#[allow(non_camel_case_types)]
pub struct UTXO {
    pub value: u64,
    pub pubkey_hash: Vec<u8>,
    pub height: u64,
    pub is_coinbase: bool,
}

impl View for UTXO {
    type V = UtxoV;

    open spec fn view(&self) -> UtxoV {
        UtxoV {
            value: self.value,
            pubkey_hash: self.pubkey_hash@,
            height: self.height,
            is_coinbase: self.is_coinbase,
        }
    }
}

impl Clone for UTXO {
    fn clone(&self) -> (r: Self)
        ensures
            r@ == self@,
    {
        UTXO {
            value: self.value,
            pubkey_hash: copy_bytes(&self.pubkey_hash),
            height: self.height,
            is_coinbase: self.is_coinbase,
        }
    }
}

/// One unspent output under its key.
pub struct UtxoEntry {
    pub txid: Vec<u8>,
    pub index: u32,
    pub utxo: UTXO,
}

impl UtxoEntry {
    pub open spec fn key(&self) -> OutKey {
        (self.txid@, self.index)
    }
}

/// The set of unspent outputs, keyed by outpoint.
pub struct UtxoSet {
    entries: Vec<UtxoEntry>,
    map: Ghost<Map<OutKey, UtxoV>>,
}

impl View for UtxoSet {
    type V = Map<OutKey, UtxoV>;

    closed spec fn view(&self) -> Map<OutKey, UtxoV> {
        self.map@
    }
}

impl UtxoSet {
    /// The entries hold each key once, and the map is what they hold.
    pub closed spec fn wf(&self) -> bool {
        &&& forall|i: int, j: int|
            0 <= i < j < self.entries@.len() ==> #[trigger] self.entries@[i].key()
                != #[trigger] self.entries@[j].key()
        &&& forall|i: int|
            0 <= i < self.entries@.len() ==> self.map@.contains_key(
                #[trigger] self.entries@[i].key(),
            ) && self.map@[self.entries@[i].key()] == self.entries@[i].utxo@
        &&& forall|k: OutKey|
            #[trigger] self.map@.contains_key(k) ==> exists|i: int|
                0 <= i < self.entries@.len() && #[trigger] self.entries@[i].key() == k
    }

    /// The entries, in storage order.
    pub closed spec fn entries_view(&self) -> Seq<UtxoEntry> {
        self.entries@
    }

    pub proof fn lemma_entries_match(&self)
        requires
            self.wf(),
        ensures
            forall|i: int, j: int|
                0 <= i < j < self.entries_view().len() ==> #[trigger] self.entries_view()[i].key()
                    != #[trigger] self.entries_view()[j].key(),
            forall|i: int|
                0 <= i < self.entries_view().len() ==> self@.contains_key(
                    #[trigger] self.entries_view()[i].key(),
                ) && self@[self.entries_view()[i].key()] == self.entries_view()[i].utxo@,
            forall|k: OutKey|
                #[trigger] self@.contains_key(k) ==> exists|i: int|
                    0 <= i < self.entries_view().len() && #[trigger] self.entries_view()[i].key()
                        == k,
    {
        assert forall|k: OutKey| #[trigger] self@.contains_key(k) implies exists|i: int|
            0 <= i < self.entries_view().len() && #[trigger] self.entries_view()[i].key() == k by {
            let i = choose|i: int| 0 <= i < self.entries@.len() && #[trigger] self.entries@[i].key() == k;
            assert(self.entries_view()[i].key() == k);
        }
    }

    /// The empty set.
    pub fn new() -> (r: Self)
        ensures
            r.wf(),
            r@ == Map::<OutKey, UtxoV>::empty(),
    {
        UtxoSet { entries: Vec::new(), map: Ghost(Map::empty()) }
    }

    /// A copy of the set.
    pub fn duplicate(&self) -> (r: Self)
        requires
            self.wf(),
        ensures
            r.wf(),
            r@ == self@,
    {
        let mut entries: Vec<UtxoEntry> = Vec::new();
        let mut i: usize = 0;
        while i < self.entries.len()
            invariant
                self.wf(),
                0 <= i <= self.entries@.len(),
                entries@.len() == i,
                forall|j: int|
                    0 <= j < i ==> (#[trigger] entries@[j]).key() == self.entries@[j].key()
                        && entries@[j].utxo@ == self.entries@[j].utxo@,
            decreases self.entries@.len() - i,
        {
            let e = &self.entries[i];
            entries.push(UtxoEntry { txid: copy_bytes(&e.txid), index: e.index, utxo: e.utxo.clone() });
            i = i + 1;
        }
        let r = UtxoSet { entries, map: Ghost(self.map@) };
        assert forall|k: OutKey| #[trigger] r.map@.contains_key(k) implies exists|i: int|
            0 <= i < r.entries@.len() && #[trigger] r.entries@[i].key() == k by {
            let i = choose|i: int| 0 <= i < self.entries@.len() && #[trigger] self.entries@[i].key() == k;
            assert(r.entries@[i].key() == k);
        }
        assert forall|i: int, j: int|
            0 <= i < j < r.entries@.len() implies #[trigger] r.entries@[i].key() != #[trigger] r.entries@[j].key() by {
            assert(self.entries@[i].key() != self.entries@[j].key());
        }
        assert forall|i: int| 0 <= i < r.entries@.len() implies r.map@.contains_key(
            #[trigger] r.entries@[i].key(),
        ) && r.map@[r.entries@[i].key()] == r.entries@[i].utxo@ by {
            assert(r.entries@[i].key() == self.entries@[i].key());
        }
        r
    }

    /// All entries, in storage order.
    pub fn entries(&self) -> (r: &Vec<UtxoEntry>)
        ensures
            r@ == self.entries_view(),
    {
        &self.entries
    }

    /// Number of unspent outputs.
    pub fn len(&self) -> (r: usize)
        requires
            self.wf(),
        ensures
            r == self.entries_view().len(),
            r == self@.dom().len(),
    {
        proof {
            let keys = self.entries@.map_values(|e: UtxoEntry| e.key());
            assert(keys.no_duplicates()) by {
                assert forall|i: int, j: int| 0 <= i < keys.len() && 0 <= j < keys.len() && i != j implies keys[i]
                    != keys[j] by {
                    if i < j {
                        assert(self.entries@[i].key() != self.entries@[j].key());
                    } else {
                        assert(self.entries@[j].key() != self.entries@[i].key());
                    }
                }
            }
            keys.unique_seq_to_set();
            assert forall|k: OutKey| keys.to_set().contains(k) <==> self.map@.dom().contains(k) by {
                if self.map@.contains_key(k) {
                    let i = choose|i: int| 0 <= i < self.entries@.len() && #[trigger] self.entries@[i].key() == k;
                    assert(keys[i] == k);
                }
                if keys.to_set().contains(k) {
                    let i = choose|i: int| 0 <= i < keys.len() && keys[i] == k;
                    assert(self.entries@[i].key() == k);
                }
            }
            assert(keys.to_set() =~= self.map@.dom());
        }
        self.entries.len()
    }

    fn find(&self, txid: &[u8], index: u32) -> (r: Option<usize>)
        requires
            self.wf(),
        ensures
            r is Some <==> self@.contains_key((txid@, index)),
            r matches Some(i) ==> i < self.entries@.len() && self.entries@[i as int].key() == (
                txid@,
                index,
            ),
    {
        let mut i: usize = 0;
        while i < self.entries.len()
            invariant
                self.wf(),
                0 <= i <= self.entries@.len(),
                forall|j: int| 0 <= j < i ==> #[trigger] self.entries@[j].key() != (txid@, index),
            decreases self.entries@.len() - i,
        {
            let e = &self.entries[i];
            if e.index == index && bytes_eq(e.txid.as_slice(), txid) {
                assert(self.entries@[i as int].key() == (txid@, index));
                return Some(i);
            }
            i = i + 1;
        }
        None
    }

    /// The unspent output at `(txid, index)`, if any.
    pub fn get(&self, txid: &[u8], index: u32) -> (r: Option<&UTXO>)
        requires
            self.wf(),
        ensures
            r is Some <==> self@.contains_key((txid@, index)),
            r matches Some(u) ==> u@ == self@[(txid@, index)],
    {
        match self.find(txid, index) {
            Some(i) => Some(&self.entries[i].utxo),
            None => None,
        }
    }

    /// Whether `(txid, index)` is unspent.
    pub fn contains(&self, txid: &[u8], index: u32) -> (r: bool)
        requires
            self.wf(),
        ensures
            r == self@.contains_key((txid@, index)),
    {
        self.find(txid, index).is_some()
    }

    /// Puts `u` under `(txid, index)`, replacing what was there.
    pub fn insert(&mut self, txid: Vec<u8>, index: u32, u: UTXO)
        requires
            old(self).wf(),
        ensures
            final(self).wf(),
            final(self)@ == old(self)@.insert((txid@, index), u@),
    {
        let ghost k = (txid@, index);
        let ghost uv = u@;
        match self.find(txid.as_slice(), index) {
            Some(i) => {
                self.entries.set(i, UtxoEntry { txid, index, utxo: u });
                self.map = Ghost(self.map@.insert(k, uv));
                assert forall|k2: OutKey| #[trigger] self.map@.contains_key(k2) implies exists|
                    j: int,
                | 0 <= j < self.entries@.len() && #[trigger] self.entries@[j].key() == k2 by {
                    if k2 == k {
                        assert(self.entries@[i as int].key() == k2);
                    } else {
                        let j = choose|j: int|
                            0 <= j < old(self).entries@.len() && #[trigger] old(
                                self,
                            ).entries@[j].key() == k2;
                        assert(self.entries@[j].key() == k2);
                    }
                }
            },
            None => {
                self.entries.push(UtxoEntry { txid, index, utxo: u });
                self.map = Ghost(self.map@.insert(k, uv));
                let ghost n = self.entries@.len() - 1;
                assert forall|k2: OutKey| #[trigger] self.map@.contains_key(k2) implies exists|
                    j: int,
                | 0 <= j < self.entries@.len() && #[trigger] self.entries@[j].key() == k2 by {
                    if k2 == k {
                        assert(self.entries@[n].key() == k2);
                    } else {
                        let j = choose|j: int|
                            0 <= j < old(self).entries@.len() && #[trigger] old(
                                self,
                            ).entries@[j].key() == k2;
                        assert(self.entries@[j].key() == k2);
                    }
                }
            },
        }
    }

    /// Removes whatever is under `(txid, index)`.
    pub fn remove(&mut self, txid: &[u8], index: u32)
        requires
            old(self).wf(),
        ensures
            final(self).wf(),
            final(self)@ == old(self)@.remove((txid@, index)),
    {
        let ghost k = (txid@, index);
        match self.find(txid, index) {
            Some(i) => {
                self.entries.remove(i);
                self.map = Ghost(self.map@.remove(k));
                assert forall|k2: OutKey| #[trigger] self.map@.contains_key(k2) implies exists|
                    j: int,
                | 0 <= j < self.entries@.len() && #[trigger] self.entries@[j].key() == k2 by {
                    let j = choose|j: int|
                        0 <= j < old(self).entries@.len() && #[trigger] old(self).entries@[j].key()
                            == k2;
                    if j < i {
                        assert(self.entries@[j].key() == k2);
                    } else {
                        assert(self.entries@[j - 1].key() == k2);
                    }
                }
            },
            None => {
                assert(self.map@.remove(k) =~= self.map@);
            },
        }
    }

    /// Removes every entry.
    pub fn clear(&mut self)
        ensures
            final(self).wf(),
            final(self)@ == Map::<OutKey, UtxoV>::empty(),
    {
        self.entries = Vec::new();
        self.map = Ghost(Map::empty());
    }
}

} // verus!
