use vstd::prelude::*;
use vstd::relations::{sorted_by, total_ordering};
use crate::block::{valid_pow, Block, BlockV};
use crate::bytes::be_value;
use crate::params::{DIFFICULTY_ADJUSTMENT_INTERVAL, MAX_TARGET, MIN_TARGET, MTP_WINDOW, TARGET_BLOCK_TIME};

verus! {

/// `t` held within `[MIN_TARGET, MAX_TARGET]`.
pub open spec fn clamp_spec(t: Seq<u8>) -> Seq<u8> {
    if be_value(t) > be_value(MAX_TARGET@) {
        MAX_TARGET@
    } else if be_value(t) < be_value(MIN_TARGET@) {
        MIN_TARGET@
    } else {
        t
    }
}

/// One target byte scaled by `actual / expected`, truncated and kept in a byte.
pub open spec fn scale_byte(b: u8, actual: int, expected: int) -> u8 {
    let prod = b as int * actual;
    if prod <= 0 {
        0
    } else if prod / expected > 255 {
        255
    } else {
        (prod / expected) as u8
    }
}

/// Every byte of `t` scaled by `actual / expected`.
pub open spec fn scale_target(t: Seq<u8>, actual: int, expected: int) -> Seq<u8> {
    Seq::new(t.len(), |i: int| scale_byte(t[i], actual, expected))
}

/// The target the next block after `chain` must carry.
pub open spec fn expected_target(chain: Seq<BlockV>) -> Seq<u8> {
    let h = chain.len() as int;
    let n = DIFFICULTY_ADJUSTMENT_INTERVAL as int;
    if h == 0 {
        MAX_TARGET@
    } else if h < n + 1 || h % n != 0 {
        chain.last().header.target
    } else {
        let first = chain[h - n - 1];
        let last = chain.last();
        clamp_spec(
            scale_target(
                last.header.target,
                last.header.timestamp - first.header.timestamp,
                TARGET_BLOCK_TIME * n,
            ),
        )
    }
}

pub open spec fn ts_leq() -> spec_fn(i64, i64) -> bool {
    |a: i64, b: i64| a <= b
}

/// The timestamps of the last `MTP_WINDOW` blocks (fewer if the chain is shorter).
pub open spec fn mtp_window(chain: Seq<BlockV>) -> Seq<i64> {
    let w = if chain.len() < MTP_WINDOW { chain.len() } else { MTP_WINDOW as nat };
    chain.subrange(chain.len() - w, chain.len() as int).map_values(|b: BlockV| b.header.timestamp)
}

/// Median time past: the middle of the window's timestamps in sorted order.
pub open spec fn mtp_spec(chain: Seq<BlockV>) -> i64 {
    let s = mtp_window(chain).sort_by(ts_leq());
    s[(s.len() / 2) as int]
}

/// Holds `target` within `[MIN_TARGET, MAX_TARGET]`.
pub fn clamp_target(target: [u8; 32]) -> (r: [u8; 32])
    ensures
        r@ == clamp_spec(target@),
{
    if !valid_pow(&target, &MAX_TARGET) {
        MAX_TARGET
    } else if !valid_pow(&MIN_TARGET, &target) {
        MIN_TARGET
    } else {
        target
    }
}

/// The target that the block after `chain` must carry: the last target, but at
/// every adjustment boundary the last target scaled byte by byte by the ratio
/// of the interval's actual time to its intended time, then clamped.
pub fn calculate_next_target(chain: &[Block]) -> (r: [u8; 32])
    ensures
        r@ == expected_target(chain@.map_values(|b: Block| b@)),
{
    let ghost cv = chain@.map_values(|b: Block| b@);
    let height = chain.len();
    if height == 0 {
        return MAX_TARGET;
    }
    let last = &chain[height - 1];
    assert(cv.last() == last@);
    if height < DIFFICULTY_ADJUSTMENT_INTERVAL + 1 || height % DIFFICULTY_ADJUSTMENT_INTERVAL != 0 {
        return last.header.target;
    }
    let first = &chain[height - DIFFICULTY_ADJUSTMENT_INTERVAL - 1];
    assert(cv[height - DIFFICULTY_ADJUSTMENT_INTERVAL - 1] == first@);
    let actual: i128 = last.header.timestamp as i128 - first.header.timestamp as i128;
    let expected: i128 = TARGET_BLOCK_TIME as i128 * DIFFICULTY_ADJUSTMENT_INTERVAL as i128;
    let mut new_target: [u8; 32] = last.header.target;
    let mut i: usize = 0;
    while i < 32
        invariant
            0 <= i <= 32,
            expected == 600,
            -0x1_0000_0000_0000_0000i128 < actual < 0x1_0000_0000_0000_0000i128,
            forall|j: int| i <= j < 32 ==> new_target@[j] == last.header.target@[j],
            forall|j: int|
                0 <= j < i ==> new_target@[j] == scale_byte(
                    last.header.target@[j],
                    actual as int,
                    expected as int,
                ),
        decreases 32 - i,
    {
        let b = new_target[i] as i128;
        assert(-0x100_0000_0000_0000_0000i128 < b * actual < 0x100_0000_0000_0000_0000i128) by (nonlinear_arith)
            requires
                0 <= b <= 255,
                -0x1_0000_0000_0000_0000i128 < actual < 0x1_0000_0000_0000_0000i128,
        ;
        let prod = b * actual;
        let scaled: u8 = if prod <= 0 {
            0
        } else if prod / expected > 255 {
            255
        } else {
            (prod / expected) as u8
        };
        new_target[i] = scaled;
        i = i + 1;
    }
    assert(new_target@ =~= scale_target(
        last.header.target@,
        last.header.timestamp - first.header.timestamp,
        TARGET_BLOCK_TIME * DIFFICULTY_ADJUSTMENT_INTERVAL as int,
    ));
    clamp_target(new_target)
}

proof fn lemma_ts_leq_total()
    ensures
        total_ordering(ts_leq()),
{
    reveal(vstd::relations::total_ordering);
    reveal(vstd::relations::reflexive);
    reveal(vstd::relations::antisymmetric);
    reveal(vstd::relations::transitive);
    reveal(vstd::relations::strongly_connected);
}

/// Median of the last `MTP_WINDOW` timestamps of a non-empty chain.
pub fn median_time_past(chain: &[Block]) -> (r: i64)
    requires
        chain@.len() > 0,
    ensures
        r == mtp_spec(chain@.map_values(|b: Block| b@)),
{
    let ghost cv = chain@.map_values(|b: Block| b@);
    let ghost win = mtp_window(cv);
    let n = chain.len();
    let w = if n < MTP_WINDOW { n } else { MTP_WINDOW };
    let start = n - w;
    let mut sorted: Vec<i64> = Vec::new();
    assert(sorted@ =~= win.take(0));
    let mut k: usize = 0;
    while k < w
        invariant
            n == chain@.len(),
            w <= n,
            start == n - w,
            win == mtp_window(cv),
            cv == chain@.map_values(|b: Block| b@),
            win.len() == w,
            0 <= k <= w,
            sorted_by(sorted@, ts_leq()),
            sorted@.to_multiset() == win.take(k as int).to_multiset(),
            sorted@.len() == k,
        decreases w - k,
    {
        let t = chain[start + k].header.timestamp;
        assert(win[k as int] == t);
        let mut p: usize = 0;
        while p < sorted.len() && sorted[p] <= t
            invariant
                0 <= p <= sorted@.len(),
                forall|j: int| 0 <= j < p ==> sorted@[j] <= t,
            decreases sorted@.len() - p,
        {
            p = p + 1;
        }
        let ghost before = sorted@;
        sorted.insert(p, t);
        proof {
            vstd::seq_lib::to_multiset_insert(before, p as int, t);
            assert(win.take(k + 1) =~= win.take(k as int).push(t));
            vstd::seq_lib::to_multiset_build(win.take(k as int), t);
            assert forall|a: int, b: int| 0 <= a < b < sorted@.len() implies #[trigger] (ts_leq())(
                sorted@[a],
                sorted@[b],
            ) by {
                if a < p && b < p {
                    assert((ts_leq())(before[a], before[b]));
                } else if a < p && b == p {
                } else if a < p {
                    assert((ts_leq())(before[a], before[b - 1]));
                } else if a == p {
                    assert(p < before.len());
                    assert(before[p as int] > t);
                    if b - 1 > p {
                        assert((ts_leq())(before[p as int], before[b - 1]));
                    }
                } else {
                    assert((ts_leq())(before[a - 1], before[b - 1]));
                }
            }
        }
        k = k + 1;
    }
    proof {
        assert(win.take(w as int) =~= win);
        lemma_ts_leq_total();
        win.lemma_sort_by_ensures(ts_leq());
        vstd::seq_lib::lemma_sorted_unique(sorted@, win.sort_by(ts_leq()), ts_leq());
    }
    sorted[w / 2]
}

} // verus!
