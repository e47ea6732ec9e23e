use vstd::prelude::*;
use crate::bytes::{
    be_value, framed, le64, lex_le, lemma_lex_le_is_numeric, push_framed, push_raw, push_u64,
    copy_bytes,
};
use crate::crypto::{double_sha256, double_sha256_of, sha256, sha256_of};
use crate::params::{MAX_BLOCK_TXS, MAX_BLOCK_TX_BYTES};
use crate::transaction::{size_estimate, tx_bytes, txid_of, Transaction, TxV};

verus! {

/// What a block header is, as plain values.
pub struct HeaderV {
    pub height: u64,
    pub timestamp: i64,
    pub prev_hash: Seq<u8>,
    pub nonce: u64,
    pub target: Seq<u8>,
    pub merkle_root: Seq<u8>,
}

/// What a block is, as plain values.
pub struct BlockV {
    pub header: HeaderV,
    pub transactions: Seq<TxV>,
    pub hash: Seq<u8>,
}

/// The fields that the block hash commits to.
pub struct BlockHeader {
    pub height: u64,
    pub timestamp: i64,
    pub prev_hash: Vec<u8>,
    pub nonce: u64,
    pub target: [u8; 32],
    pub merkle_root: Vec<u8>,
}

/// A header, its transactions, and the cached header hash.
pub struct Block {
    pub header: BlockHeader,
    pub transactions: Vec<Transaction>,
    pub hash: Vec<u8>,
}

impl View for BlockHeader {
    type V = HeaderV;

    open spec fn view(&self) -> HeaderV {
        HeaderV {
            height: self.height,
            timestamp: self.timestamp,
            prev_hash: self.prev_hash@,
            nonce: self.nonce,
            target: self.target@,
            merkle_root: self.merkle_root@,
        }
    }
}

impl View for Block {
    type V = BlockV;

    open spec fn view(&self) -> BlockV {
        BlockV {
            header: self.header@,
            transactions: self.transactions@.map_values(|t: Transaction| t@),
            hash: self.hash@,
        }
    }
}

impl Clone for BlockHeader {
    fn clone(&self) -> (r: Self)
        ensures
            r@ == self@,
    {
        BlockHeader {
            height: self.height,
            timestamp: self.timestamp,
            prev_hash: copy_bytes(&self.prev_hash),
            nonce: self.nonce,
            target: self.target,
            merkle_root: copy_bytes(&self.merkle_root),
        }
    }
}

impl Clone for Block {
    fn clone(&self) -> (r: Self)
        ensures
            r@ == self@,
    {
        let txs = clone_txs(&self.transactions);
        Block { header: self.header.clone(), transactions: txs, hash: copy_bytes(&self.hash) }
    }
}

/// Copies a list of transactions.
pub fn clone_txs(txs: &Vec<Transaction>) -> (r: Vec<Transaction>)
    ensures
        r@.map_values(|t: Transaction| t@) == txs@.map_values(|t: Transaction| t@),
{
    let mut out: Vec<Transaction> = Vec::new();
    let mut i: usize = 0;
    while i < txs.len()
        invariant
            0 <= i <= txs@.len(),
            out@.len() == i,
            forall|j: int| 0 <= j < i ==> #[trigger] out@[j]@ == txs@[j]@,
        decreases txs@.len() - i,
    {
        out.push(txs[i].clone());
        i = i + 1;
    }
    assert(out@.map_values(|t: Transaction| t@) =~= txs@.map_values(|t: Transaction| t@));
    out
}

/// Canonical serialization of a header.
pub open spec fn header_bytes(h: HeaderV) -> Seq<u8> {
    le64(h.height) + le64(h.timestamp as u64) + framed(h.prev_hash) + le64(h.nonce) + h.target
        + framed(h.merkle_root)
}

pub open spec fn txs_bytes(s: Seq<TxV>) -> Seq<u8>
    decreases s.len(),
{
    if s.len() == 0 {
        Seq::empty()
    } else {
        txs_bytes(s.drop_last()) + tx_bytes(s.last(), true)
    }
}

/// Canonical serialization of a whole block.
pub open spec fn block_bytes(b: BlockV) -> Seq<u8> {
    header_bytes(b.header) + le64(b.transactions.len() as u64) + txs_bytes(b.transactions)
        + framed(b.hash)
}

/// The header hash: double SHA-256 of the serialized header.
pub open spec fn header_hash_of(h: HeaderV) -> Seq<u8> {
    double_sha256_of(header_bytes(h))
}

/// A 32-byte hash read as a big-endian number is at most the target.
pub open spec fn pow_ok(hash: Seq<u8>, target: Seq<u8>) -> bool {
    hash.len() == 32 && be_value(hash) <= be_value(target)
}

/// The hash is the header's and meets the header's target.
pub open spec fn block_pow_ok(b: BlockV) -> bool {
    b.hash == header_hash_of(b.header) && pow_ok(b.hash, b.header.target)
}

/// One level of the merkle tree: an odd last hash is paired with itself.
pub open spec fn merkle_level(hs: Seq<Seq<u8>>) -> Seq<Seq<u8>> {
    Seq::new(
        ((hs.len() + 1) / 2) as nat,
        |i: int|
            sha256_of(
                hs[2 * i] + if 2 * i + 1 < hs.len() {
                    hs[2 * i + 1]
                } else {
                    hs[2 * i]
                },
            ),
    )
}

/// Reduces a non-empty list of hashes to the merkle root.
pub open spec fn merkle_fold(hs: Seq<Seq<u8>>) -> Seq<u8>
    decreases hs.len(),
{
    if hs.len() <= 1 {
        hs[0]
    } else {
        merkle_fold(merkle_level(hs))
    }
}

/// The merkle root of a transaction list; the empty list gives 32 zero bytes.
pub open spec fn merkle_spec(txs: Seq<TxV>) -> Seq<u8> {
    if txs.len() == 0 {
        Seq::new(32, |i: int| 0u8)
    } else {
        merkle_fold(txs.map_values(|t: TxV| txid_of(t)))
    }
}

/// Whether a 32-byte `hash`, read as a big-endian number, is at most `target`.
pub fn valid_pow(hash: &[u8], target: &[u8; 32]) -> (r: bool)
    ensures
        r == pow_ok(hash@, target@),
{
    if hash.len() != 32 {
        return false;
    }
    let ghost a = hash@;
    let ghost b = target@;
    assert(a.skip(0) =~= a);
    assert(b.skip(0) =~= b);
    let mut i: usize = 0;
    while i < 32
        invariant
            a == hash@,
            b == target@,
            a.len() == 32,
            b.len() == 32,
            0 <= i <= 32,
            lex_le(a, b) == lex_le(a.skip(i as int), b.skip(i as int)),
        decreases 32 - i,
    {
        assert(a.skip(i as int)[0] == a[i as int]);
        assert(b.skip(i as int)[0] == b[i as int]);
        if hash[i] != target[i] {
            proof {
                lemma_lex_le_is_numeric(a, b);
            }
            return hash[i] < target[i];
        }
        assert(a.skip(i as int).drop_first() =~= a.skip(i + 1));
        assert(b.skip(i as int).drop_first() =~= b.skip(i + 1));
        i = i + 1;
    }
    proof {
        lemma_lex_le_is_numeric(a, b);
    }
    true
}

/// The merkle root of `txs`.
pub fn merkle_root(txs: &[Transaction]) -> (r: Vec<u8>)
    ensures
        r@ == merkle_spec(txs@.map_values(|t: Transaction| t@)),
        r@.len() == 32,
{
    let ghost tv = txs@.map_values(|t: Transaction| t@);
    if txs.len() == 0 {
        let mut z: Vec<u8> = Vec::new();
        let mut k: usize = 0;
        while k < 32
            invariant
                0 <= k <= 32,
                z@.len() == k,
                forall|j: int| 0 <= j < k ==> z@[j] == 0u8,
            decreases 32 - k,
        {
            z.push(0u8);
            k = k + 1;
        }
        assert(z@ =~= Seq::new(32, |i: int| 0u8));
        return z;
    }
    let ghost ids = tv.map_values(|t: TxV| txid_of(t));
    let mut hashes: Vec<Vec<u8>> = Vec::new();
    let mut i: usize = 0;
    while i < txs.len()
        invariant
            0 <= i <= txs@.len(),
            tv == txs@.map_values(|t: Transaction| t@),
            ids == tv.map_values(|t: TxV| txid_of(t)),
            hashes@.len() == i,
            forall|j: int| 0 <= j < i ==> #[trigger] hashes@[j]@ == ids[j],
            forall|j: int| 0 <= j < i ==> (#[trigger] hashes@[j])@.len() == 32,
        decreases txs@.len() - i,
    {
        hashes.push(txs[i].txid());
        i = i + 1;
    }
    assert(hashes@.map_values(|h: Vec<u8>| h@) =~= ids);
    while hashes.len() > 1
        invariant
            hashes@.len() >= 1,
            merkle_fold(hashes@.map_values(|h: Vec<u8>| h@)) == merkle_fold(ids),
            forall|j: int| 0 <= j < hashes@.len() ==> (#[trigger] hashes@[j])@.len() == 32,
        decreases hashes@.len(),
    {
        let ghost cur = hashes@.map_values(|h: Vec<u8>| h@);
        let n = hashes.len();
        let mut next: Vec<Vec<u8>> = Vec::new();
        let m = (n - 1) / 2 + 1;
        let mut q: usize = 0;
        while q < m
            invariant
                n == hashes@.len(),
                n > 1,
                m == (n - 1) / 2 + 1,
                cur == hashes@.map_values(|h: Vec<u8>| h@),
                0 <= q <= m,
                next@.len() == q,
                forall|j: int| 0 <= j < q ==> #[trigger] next@[j]@ == merkle_level(cur)[j],
                forall|j: int| 0 <= j < q ==> (#[trigger] next@[j])@.len() == 32,
            decreases m - q,
        {
            let p = 2 * q;
            let mut buf: Vec<u8> = Vec::new();
            push_raw(&mut buf, hashes[p].as_slice());
            if p + 1 < n {
                push_raw(&mut buf, hashes[p + 1].as_slice());
            } else {
                push_raw(&mut buf, hashes[p].as_slice());
            }
            next.push(sha256(buf.as_slice()));
            q = q + 1;
        }
        assert(next@.map_values(|h: Vec<u8>| h@) =~= merkle_level(cur));
        hashes = next;
    }
    let r = copy_bytes(&hashes[0]);
    r
}

impl Block {
    /// Appends the canonical serialization of the header.
    pub fn encode_header(&self, out: &mut Vec<u8>)
        ensures
            final(out)@ == old(out)@ + header_bytes(self.header@),
    {
        push_u64(out, self.header.height);
        push_u64(out, self.header.timestamp as u64);
        push_framed(out, self.header.prev_hash.as_slice());
        push_u64(out, self.header.nonce);
        push_raw(out, &self.header.target);
        push_framed(out, self.header.merkle_root.as_slice());
        assert(final(out)@ =~= old(out)@ + header_bytes(self.header@));
    }

    /// Double SHA-256 of the serialized header.
    pub fn hash_header(&self) -> (r: Vec<u8>)
        ensures
            r@ == header_hash_of(self.header@),
            r@.len() == 32,
    {
        let mut buf: Vec<u8> = Vec::new();
        self.encode_header(&mut buf);
        assert(buf@ =~= header_bytes(self.header@));
        double_sha256(buf.as_slice())
    }

    /// The cached hash is the header's hash and meets the header's target.
    pub fn verify_pow(&self) -> (r: bool)
        ensures
            r == block_pow_ok(self@),
    {
        let h = self.hash_header();
        crate::bytes::bytes_eq(self.hash.as_slice(), h.as_slice()) && valid_pow(
            self.hash.as_slice(),
            &self.header.target,
        )
    }

    /// The merkle root of this block's transactions.
    pub fn calculate_merkle_root(&self) -> (r: Vec<u8>)
        ensures
            r@ == merkle_spec(self@.transactions),
    {
        merkle_root(self.transactions.as_slice())
    }

    /// Length of the canonical serialization of the whole block.
    pub fn serialized_len(&self) -> (r: usize)
        ensures
            r == block_bytes(self@).len(),
    {
        let mut buf: Vec<u8> = Vec::new();
        self.encode_header(&mut buf);
        push_u64(&mut buf, self.transactions.len() as u64);
        let ghost tv = self@.transactions;
        let mut i: usize = 0;
        while i < self.transactions.len()
            invariant
                0 <= i <= self.transactions@.len(),
                tv == self@.transactions,
                buf@ == header_bytes(self.header@) + le64(tv.len() as u64) + txs_bytes(
                    tv.take(i as int),
                ),
            decreases self.transactions@.len() - i,
        {
            self.transactions[i].encode(&mut buf, true);
            assert(tv.take(i + 1).drop_last() =~= tv.take(i as int));
            i = i + 1;
        }
        assert(tv.take(tv.len() as int) =~= tv);
        push_framed(&mut buf, self.hash.as_slice());
        assert(buf@ =~= block_bytes(self@));
        buf.len()
    }
}

/// The header with nonce `n` hashes to a value within its target.
pub open spec fn nonce_works(h: HeaderV, n: u64) -> bool {
    pow_ok(header_hash_of(HeaderV { nonce: n, ..h }), h.target)
}

/// Searches nonces upward from the header's own until the header hash meets
/// the target, then caches that hash. Returns `false`, with the nonce at its
/// largest value, if no nonce from there on succeeds.
pub fn mine(block: &mut Block) -> (r: bool)
    ensures
        r ==> block_pow_ok(final(block)@),
        final(block).header.nonce >= old(block).header.nonce,
        final(block)@.header == (HeaderV { nonce: final(block).header.nonce, ..old(block)@.header }),
        final(block)@.transactions == old(block)@.transactions,
        !r ==> final(block)@.hash == old(block)@.hash,
        !r ==> forall|n: u64|
            n >= old(block).header.nonce ==> !#[trigger] nonce_works(old(block)@.header, n),
{
    loop
        invariant
            block.header.nonce >= old(block).header.nonce,
            forall|n: u64|
                old(block).header.nonce <= n < block.header.nonce ==> !#[trigger] nonce_works(
                    old(block)@.header,
                    n,
                ),
            block@.header == (HeaderV { nonce: block.header.nonce, ..old(block)@.header }),
            block@.transactions == old(block)@.transactions,
            block@.hash == old(block)@.hash,
        decreases u64::MAX - block.header.nonce,
    {
        let h = block.hash_header();
        if valid_pow(h.as_slice(), &block.header.target) {
            block.hash = h;
            return true;
        }
        assert(!nonce_works(old(block)@.header, block.header.nonce)) by {
            assert(HeaderV { nonce: block.header.nonce, ..old(block)@.header } == block@.header);
        }
        if block.header.nonce == u64::MAX {
            return false;
        }
        block.header.nonce = block.header.nonce + 1;
    }
}

/// The size estimate of a transaction as `serialized_size` reports it.
pub open spec fn capped_size(t: TxV) -> int {
    if size_estimate(t) <= usize::MAX {
        size_estimate(t)
    } else {
        usize::MAX as int
    }
}

/// Total reported size of a list of transactions.
pub open spec fn sizes_sum(s: Seq<TxV>) -> int
    decreases s.len(),
{
    if s.len() == 0 {
        0
    } else {
        sizes_sum(s.drop_last()) + capped_size(s.last())
    }
}

/// The first `k` transactions fit in a block's count and byte limits.
pub open spec fn prefix_fits(s: Seq<TxV>, k: int) -> bool {
    k <= MAX_BLOCK_TXS && sizes_sum(s.take(k)) <= MAX_BLOCK_TX_BYTES
}

impl Block {
    /// A block candidate at `height` after `prev_hash`, not yet mined: the
    /// longest prefix of `transactions` within the block limits, the local
    /// time, nonce 0, `target`, and the merkle root of what was kept.
    pub fn new(prev_hash: Vec<u8>, transactions: Vec<Transaction>, target: [u8; 32], height: u64) -> (r: Block)
        ensures
            exists|k: int|
                0 <= k <= transactions@.len() && #[trigger] prefix_fits(crate::rules::view_txs(transactions@), k)
                    && (k < transactions@.len() ==> !prefix_fits(crate::rules::view_txs(transactions@), k + 1))
                    && r@.transactions == crate::rules::view_txs(transactions@).take(k),
            r@.header.height == height,
            r@.header.prev_hash == prev_hash@,
            r@.header.nonce == 0,
            r@.header.target == target@,
            r@.header.merkle_root == merkle_spec(r@.transactions),
            r@.hash.len() == 0,
    {
        let now = crate::chain::unix_now();
        Block::new_at(prev_hash, transactions, target, height, now)
    }

    /// Same as `new`, with `timestamp` as the local time.
    pub fn new_at(
        prev_hash: Vec<u8>,
        transactions: Vec<Transaction>,
        target: [u8; 32],
        height: u64,
        timestamp: i64,
    ) -> (r: Block)
        ensures
            r@.header.timestamp == timestamp,
            exists|k: int|
                0 <= k <= transactions@.len() && #[trigger] prefix_fits(crate::rules::view_txs(transactions@), k)
                    && (k < transactions@.len() ==> !prefix_fits(crate::rules::view_txs(transactions@), k + 1))
                    && r@.transactions == crate::rules::view_txs(transactions@).take(k),
            r@.header.height == height,
            r@.header.prev_hash == prev_hash@,
            r@.header.nonce == 0,
            r@.header.target == target@,
            r@.header.merkle_root == merkle_spec(r@.transactions),
            r@.hash.len() == 0,
    {
        let ghost tv = transactions@.map_values(|t: Transaction| t@);
        let mut selected: Vec<Transaction> = Vec::new();
        let mut total_bytes: usize = 0;
        let mut k: usize = 0;
        let n = transactions.len();
        assert(tv.take(0) =~= Seq::<TxV>::empty());
        while k < n
            invariant
                n == transactions@.len(),
                tv == transactions@.map_values(|t: Transaction| t@),
                0 <= k <= n,
                selected@.map_values(|t: Transaction| t@) == tv.take(k as int),
                total_bytes == sizes_sum(tv.take(k as int)),
                prefix_fits(tv, k as int),
            ensures
                0 <= k <= n,
                selected@.map_values(|t: Transaction| t@) == tv.take(k as int),
                prefix_fits(tv, k as int),
                k < n ==> !prefix_fits(tv, k + 1),
            decreases n - k,
        {
            let size = transactions[k].serialized_size();
            assert(tv[k as int] == transactions@[k as int]@);
            assert(tv.take(k + 1).drop_last() =~= tv.take(k as int));
            if selected.len() >= MAX_BLOCK_TXS {
                break;
            }
            if size > MAX_BLOCK_TX_BYTES - total_bytes {
                break;
            }
            total_bytes = total_bytes + size;
            let ghost before = selected@;
            selected.push(transactions[k].clone());
            assert(selected@.map_values(|t: Transaction| t@) =~= before.map_values(|t: Transaction| t@).push(tv[k as int]));
            k = k + 1;
        }
        let root = merkle_root(selected.as_slice());
        let r = Block {
            header: BlockHeader {
                height,
                timestamp,
                prev_hash,
                nonce: 0,
                target,
                merkle_root: root,
            },
            transactions: selected,
            hash: Vec::new(),
        };
        assert(tv == crate::rules::view_txs(transactions@));
        assert(prefix_fits(crate::rules::view_txs(transactions@), k as int));
        r
    }
}

} // verus!
