use vstd::prelude::*;

verus! {

/// Largest serialized block, in bytes.
pub const MAX_BLOCK_SIZE: usize = 1_000_000;
/// Most transactions a miner puts in one block.
pub const MAX_BLOCK_TXS: usize = 2_000;
/// Room for transactions in a block, leaving space for the header.
pub const MAX_BLOCK_TX_BYTES: usize = 999_000;
/// Largest transaction the mempool admits (policy, not consensus).
pub const MAX_TX_SIZE: usize = 100_000;
/// Intended seconds between blocks.
pub const TARGET_BLOCK_TIME: i64 = 60;
/// Blocks between two target adjustments.
pub const DIFFICULTY_ADJUSTMENT_INTERVAL: usize = 10;
/// Number of recent timestamps whose median bounds the next one.
pub const MTP_WINDOW: usize = 11;
/// How far ahead of the local clock a block's timestamp may be, in seconds.
pub const MAX_FUTURE_DRIFT: i64 = 7_200;
/// Blocks that must follow a coinbase before its outputs can be spent.
pub const COINBASE_MATURITY: u64 = 100;
/// Version carried by the handshake message.
pub const PROTOCOL_VERSION: u32 = 3;
/// Reward of the first halving period, in atomic units.
pub const INITIAL_REWARD: u64 = 5_000_000_000;
/// Blocks between two halvings of the reward.
pub const HALVING_INTERVAL: u64 = 210_000;
/// Timestamp of the genesis block.
pub const GENESIS_TIMESTAMP: i64 = 1_730_000_000;

/// The nonce that makes the genesis header meet `MAX_TARGET`.
pub const GENESIS_NONCE: u64 = 32;

/// The genesis block's hash: double SHA-256 of its header.
pub const GENESIS_HASH: [u8; 32] = [
    0x00, 0x68, 0x73, 0x16, 0x55, 0x28, 0xca, 0xe8,
    0xdf, 0x0c, 0x01, 0x27, 0x1c, 0xee, 0xa5, 0x99,
    0xd7, 0x01, 0xdd, 0x81, 0xc9, 0xf5, 0x85, 0x01,
    0x5c, 0x35, 0xba, 0x5a, 0x12, 0xff, 0xe9, 0x0d,
];

/// The easiest target: the genesis block is mined against it.
pub const MAX_TARGET: [u8; 32] = [
    0x00, 0xff, 0xff, 0xff, 0xff, 0xff, 0xff, 0xff,
    0xff, 0xff, 0xff, 0xff, 0xff, 0xff, 0xff, 0xff,
    0xff, 0xff, 0xff, 0xff, 0xff, 0xff, 0xff, 0xff,
    0xff, 0xff, 0xff, 0xff, 0xff, 0xff, 0xff, 0xff,
];

/// The hardest target that retargeting may reach.
pub const MIN_TARGET: [u8; 32] = [
    0x00, 0x00, 0x00, 0x00, 0x00, 0x00, 0x00, 0xff,
    0xff, 0xff, 0xff, 0xff, 0xff, 0xff, 0xff, 0xff,
    0xff, 0xff, 0xff, 0xff, 0xff, 0xff, 0xff, 0xff,
    0xff, 0xff, 0xff, 0xff, 0xff, 0xff, 0xff, 0xff,
];

/// The block subsidy at `height`: the initial reward halved once per period.
pub open spec fn block_reward_spec(height: u64) -> u64 {
    if height / HALVING_INTERVAL >= 64 {
        0
    } else {
        INITIAL_REWARD >> (height / HALVING_INTERVAL)
    }
}

/// The block subsidy at `height`.
pub fn block_reward(height: u64) -> (r: u64)
    ensures
        r == block_reward_spec(height),
{
    let halvings = height / HALVING_INTERVAL;
    if halvings >= 64 {
        0
    } else {
        INITIAL_REWARD >> halvings
    }
}

} // verus!
