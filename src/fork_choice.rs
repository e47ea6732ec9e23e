use vstd::prelude::*;
use crate::block::{Block, BlockV};
use crate::bytes::{be_value, bytes_eq, pow256};

verus! {

/// Relies on num-bigint: `BigUint::from_bytes_be`, `BigUint + BigUint` and
/// `BigUint::to_bytes_be`, which keep the number that big-endian bytes denote.
#[verifier::external_body]
fn big_add(a: &[u8], b: &[u8]) -> (r: Vec<u8>)
    ensures
        be_value(r@) == be_value(a@) + be_value(b@),
{
    let x = num_bigint::BigUint::from_bytes_be(a);
    let y = num_bigint::BigUint::from_bytes_be(b);
    (x + y).to_bytes_be()
}

/// Relies on num-bigint: `BigUint / BigUint` (truncating division, which panics
/// on a zero divisor) between `from_bytes_be` and `to_bytes_be`.
#[verifier::external_body]
fn big_div(a: &[u8], b: &[u8]) -> (r: Vec<u8>)
    requires
        be_value(b@) > 0,
    ensures
        be_value(r@) == be_value(a@) / be_value(b@),
{
    let x = num_bigint::BigUint::from_bytes_be(a);
    let y = num_bigint::BigUint::from_bytes_be(b);
    (x / y).to_bytes_be()
}

/// Relies on num-bigint: the order of `BigUint` (`<=`) after `from_bytes_be`.
#[verifier::external_body]
fn big_le(a: &[u8], b: &[u8]) -> (r: bool)
    ensures
        r == (be_value(a@) <= be_value(b@)),
{
    num_bigint::BigUint::from_bytes_be(a) <= num_bigint::BigUint::from_bytes_be(b)
}

/// The work a block proves: `2^256 / (target + 1)`, and none for a zero target.
pub open spec fn work_of(target: Seq<u8>) -> nat {
    if be_value(target) == 0 {
        0
    } else {
        pow256(32) / (be_value(target) + 1)
    }
}

/// The work of a whole chain.
pub open spec fn chain_work(chain: Seq<BlockV>) -> nat
    decreases chain.len(),
{
    if chain.len() == 0 {
        0
    } else {
        chain_work(chain.drop_last()) + work_of(chain.last().header.target)
    }
}

proof fn lemma_zeros_value(n: nat)
    ensures
        be_value(Seq::new(n, |i: int| 0u8)) == 0,
    decreases n,
{
    if n > 0 {
        let s = Seq::new(n, |i: int| 0u8);
        lemma_zeros_value((n - 1) as nat);
        assert(s.drop_first() =~= Seq::new((n - 1) as nat, |i: int| 0u8));
        assert(s[0] == 0u8);
        assert(be_value(s) == s[0] as nat * pow256((s.len() - 1) as nat) + be_value(s.drop_first()));
    }
}

/// The work of one block, as big-endian bytes.
pub fn block_work(block: &Block) -> (r: Vec<u8>)
    ensures
        be_value(r@) == work_of(block@.header.target),
{
    let zero: Vec<u8> = Vec::new();
    let t: &[u8] = &block.header.target;
    if big_le(t, zero.as_slice()) {
        return zero;
    }
    let one: Vec<u8> = vec![1u8];
    assert(be_value(one@) == 1) by {
        assert(one@.drop_first() =~= Seq::<u8>::empty());
    }
    let denom = big_add(t, one.as_slice());
    let mut num: Vec<u8> = vec![1u8];
    let mut k: usize = 0;
    while k < 32
        invariant
            0 <= k <= 32,
            num@.len() == k + 1,
            num@[0] == 1u8,
            forall|j: int| 1 <= j <= k ==> num@[j] == 0u8,
        decreases 32 - k,
    {
        num.push(0u8);
        k = k + 1;
    }
    proof {
        assert(num@.drop_first() =~= Seq::new(32, |i: int| 0u8));
        lemma_zeros_value(32);
    }
    big_div(num.as_slice(), denom.as_slice())
}

/// The work of a whole chain, as big-endian bytes.
pub fn cumulative_work(chain: &[Block]) -> (r: Vec<u8>)
    ensures
        be_value(r@) == chain_work(chain@.map_values(|b: Block| b@)),
{
    let ghost cv = chain@.map_values(|b: Block| b@);
    let mut total: Vec<u8> = Vec::new();
    let mut i: usize = 0;
    while i < chain.len()
        invariant
            cv == chain@.map_values(|b: Block| b@),
            0 <= i <= chain@.len(),
            be_value(total@) == chain_work(cv.take(i as int)),
        decreases chain@.len() - i,
    {
        let w = block_work(&chain[i]);
        total = big_add(total.as_slice(), w.as_slice());
        assert(cv.take(i + 1).drop_last() =~= cv.take(i as int));
        i = i + 1;
    }
    assert(cv.take(chain@.len() as int) =~= cv);
    total
}

/// Whether `a` denotes a strictly larger number than `b`.
pub fn work_greater(a: &[u8], b: &[u8]) -> (r: bool)
    ensures
        r == (be_value(a@) > be_value(b@)),
{
    !big_le(a, b)
}

/// Index of the last block of `s` whose hash is `h`, or -1 if none is.
pub open spec fn last_with_hash(s: Seq<BlockV>, h: Seq<u8>) -> int
    decreases s.len(),
{
    if s.len() == 0 {
        -1
    } else if s.last().hash == h {
        s.len() - 1
    } else {
        last_with_hash(s.drop_last(), h)
    }
}

proof fn lemma_last_with_hash_range(s: Seq<BlockV>, h: Seq<u8>)
    ensures
        -1 <= last_with_hash(s, h) < s.len(),
        last_with_hash(s, h) >= 0 ==> s[last_with_hash(s, h)].hash == h,
    decreases s.len(),
{
    if s.len() > 0 && s.last().hash != h {
        lemma_last_with_hash_range(s.drop_last(), h);
    }
}

/// For each block, the work of the branch it ends: its own work plus that of
/// the last earlier block whose hash it names as previous (none at height 0
/// or when no such block precedes it).
pub open spec fn branch_totals(blocks: Seq<BlockV>) -> Seq<nat>
    decreases blocks.len(),
{
    if blocks.len() == 0 {
        Seq::empty()
    } else {
        let prev = branch_totals(blocks.drop_last());
        let b = blocks.last();
        let p = last_with_hash(blocks.drop_last(), b.header.prev_hash);
        prev.push(
            work_of(b.header.target) + if b.header.height == 0 || p < 0 {
                0
            } else {
                prev[p]
            },
        )
    }
}

proof fn lemma_branch_totals_len(blocks: Seq<BlockV>)
    ensures
        branch_totals(blocks).len() == blocks.len(),
    decreases blocks.len(),
{
    if blocks.len() > 0 {
        lemma_branch_totals_len(blocks.drop_last());
    }
}

/// The work of the branch that ends in each block, as big-endian bytes, in
/// the order of `blocks`.
pub fn compute_cumulative_work(blocks: &[Block]) -> (r: Vec<Vec<u8>>)
    ensures
        r@.len() == blocks@.len(),
        forall|i: int|
            0 <= i < r@.len() ==> be_value(#[trigger] r@[i]@) == branch_totals(
                crate::rules::view_blocks(blocks@),
            )[i],
{
    let ghost bv = crate::rules::view_blocks(blocks@);
    let mut totals: Vec<Vec<u8>> = Vec::new();
    let mut i: usize = 0;
    proof {
        assert(bv.take(0) =~= Seq::<BlockV>::empty());
    }
    while i < blocks.len()
        invariant
            bv == crate::rules::view_blocks(blocks@),
            0 <= i <= bv.len(),
            totals@.len() == i,
            branch_totals(bv.take(i as int)).len() == i,
            forall|k: int|
                0 <= k < i ==> be_value(#[trigger] totals@[k]@) == branch_totals(bv.take(i as int))[k],
        decreases bv.len() - i,
    {
        let b = &blocks[i];
        assert(bv[i as int] == b@);
        let ghost pre = bv.take(i as int);
        assert(bv.take(i + 1).drop_last() =~= pre);
        let w = block_work(b);
        let mut found: Option<usize> = None;
        let mut j: usize = i;
        assert(pre.take(i as int) =~= pre);
        while j > 0
            invariant_except_break
                found is None,
            invariant
                bv == crate::rules::view_blocks(blocks@),
                i < bv.len(),
                0 <= j <= i,
                pre == bv.take(i as int),
                last_with_hash(pre, b@.header.prev_hash) == last_with_hash(pre.take(j as int), b@.header.prev_hash),
            ensures
                found matches Some(p) ==> p < i && p as int == last_with_hash(pre, b@.header.prev_hash),
                found is None ==> last_with_hash(pre, b@.header.prev_hash) == -1,
            decreases j,
        {
            assert(pre.take(j as int).drop_last() =~= pre.take(j - 1));
            assert(pre.take(j as int).last() == blocks@[j - 1]@);
            if bytes_eq(blocks[j - 1].hash.as_slice(), b.header.prev_hash.as_slice()) {
                found = Some(j - 1);
                break;
            }
            j = j - 1;
        }
        proof {
            if j == 0 && found is None {
                assert(pre.take(0) =~= Seq::<BlockV>::empty());
            }
        }
        let total = if b.header.height == 0 {
            w
        } else {
            match found {
                Some(p) => big_add(w.as_slice(), totals[p].as_slice()),
                None => w,
            }
        };
        let ghost before = totals@;
        totals.push(total);
        proof {
            lemma_branch_totals_len(bv.take(i + 1));
            assert forall|k: int| 0 <= k < i + 1 implies be_value(#[trigger] totals@[k]@) == branch_totals(
                bv.take(i + 1),
            )[k] by {
                if k < i {
                    assert(totals@[k] == before[k]);
                }
            }
        }
        i = i + 1;
    }
    assert(bv.take(bv.len() as int) =~= bv);
    totals
}

/// The hash of a block whose branch has the most work (the first such in
/// `blocks`), or `None` for no blocks.
pub fn best_tip(blocks: &[Block]) -> (r: Option<Vec<u8>>)
    ensures
        r is None <==> blocks@.len() == 0,
        r matches Some(h) ==> exists|i: int|
            0 <= i < blocks@.len() && h@ == blocks@[i]@.hash && forall|j: int|
                0 <= j < blocks@.len() ==> #[trigger] branch_totals(crate::rules::view_blocks(blocks@))[j]
                    <= branch_totals(crate::rules::view_blocks(blocks@))[i],
{
    if blocks.len() == 0 {
        return None;
    }
    let ghost t = branch_totals(crate::rules::view_blocks(blocks@));
    let totals = compute_cumulative_work(blocks);
    let mut best: usize = 0;
    let mut k: usize = 1;
    while k < totals.len()
        invariant
            t == branch_totals(crate::rules::view_blocks(blocks@)),
            totals@.len() == blocks@.len(),
            forall|i: int| 0 <= i < totals@.len() ==> be_value(#[trigger] totals@[i]@) == t[i],
            1 <= k <= totals@.len(),
            best < k,
            forall|j: int| 0 <= j < k ==> #[trigger] t[j] <= t[best as int],
        decreases totals@.len() - k,
    {
        assert(be_value(totals@[k as int]@) == t[k as int]);
        assert(be_value(totals@[best as int]@) == t[best as int]);
        if work_greater(totals[k].as_slice(), totals[best].as_slice()) {
            best = k;
        }
        k = k + 1;
    }
    Some(crate::bytes::copy_bytes(&blocks[best].hash))
}

} // verus!
