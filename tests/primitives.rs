use revelation_chain::block::{merkle_root, valid_pow, Block, BlockHeader};
use revelation_chain::bytes::push_u64;
use revelation_chain::crypto::{double_sha256, pubkey_hash, sha256, verify_signature};
use revelation_chain::difficulty::{calculate_next_target, clamp_target, median_time_past};
use revelation_chain::fork_choice::{block_work, cumulative_work};
use revelation_chain::params::{block_reward, MAX_TARGET, MIN_TARGET};
use revelation_chain::transaction::{Transaction, TxInput, TxOutput};

fn synthetic_block(timestamp: i64, target: [u8; 32]) -> Block {
    Block {
        header: BlockHeader {
            height: 0,
            timestamp,
            prev_hash: vec![0u8; 32],
            nonce: 0,
            target,
            merkle_root: vec![0u8; 32],
        },
        transactions: vec![],
        hash: vec![],
    }
}

fn sample_tx(sig: Vec<u8>) -> Transaction {
    Transaction {
        inputs: vec![TxInput { txid: vec![7u8; 32], index: 1, signature: sig, pubkey: vec![2u8; 33] }],
        outputs: vec![
            TxOutput { value: 10, pubkey_hash: vec![1u8; 32] },
            TxOutput { value: 20, pubkey_hash: vec![3u8; 32] },
        ],
    }
}

#[test]
fn sha256_of_empty_input() {
    let d = sha256(&[]);
    assert_eq!(d[0], 0xe3);
    assert_eq!(d[1], 0xb0);
    assert_eq!(d[31], 0x55);
    assert_eq!(d.len(), 32);
}

#[test]
fn double_sha256_is_sha256_twice() {
    let once = sha256(b"abc");
    assert_eq!(double_sha256(b"abc"), sha256(&once));
    assert_ne!(double_sha256(b"abc"), once);
}

#[test]
fn pubkey_hash_is_sha256_of_key() {
    let key = vec![2u8; 33];
    assert_eq!(pubkey_hash(&key), sha256(&key));
}

#[test]
fn malformed_signature_is_refused() {
    assert!(!verify_signature(b"msg", &[0u8; 10], &[2u8; 33]));
    assert!(!verify_signature(b"msg", &[1u8; 64], &[]));
}

#[test]
fn little_endian_words() {
    let mut out = vec![9u8];
    push_u64(&mut out, 0x0102030405060708);
    assert_eq!(out, vec![9, 8, 7, 6, 5, 4, 3, 2, 1]);
}

#[test]
fn merkle_root_of_nothing_is_zero() {
    assert_eq!(merkle_root(&[]), vec![0u8; 32]);
}

#[test]
fn merkle_root_of_one_is_its_txid() {
    let tx = sample_tx(vec![]);
    assert_eq!(merkle_root(&[tx.clone()]), tx.txid());
}

#[test]
fn merkle_root_pairs_and_duplicates_last() {
    let a = sample_tx(vec![]);
    let b = sample_tx(vec![1u8; 64]);
    let c = sample_tx(vec![2u8; 64]);
    let ab = sha256(&[a.txid(), b.txid()].concat());
    assert_eq!(merkle_root(&[a.clone(), b.clone()]), ab);
    let cc = sha256(&[c.txid(), c.txid()].concat());
    let root = sha256(&[ab.clone(), cc].concat());
    assert_eq!(merkle_root(&[a, b, c]), root);
}

#[test]
fn sighash_ignores_signatures_but_txid_does_not() {
    let unsigned = sample_tx(vec![]);
    let signed = sample_tx(vec![5u8; 64]);
    assert_eq!(unsigned.sighash(), signed.sighash());
    assert_ne!(unsigned.txid(), signed.txid());
    assert_eq!(unsigned.txid(), unsigned.sighash());
}

#[test]
fn size_estimate_formula() {
    assert_eq!(sample_tx(vec![]).serialized_size(), 148 + 2 * 34 + 10);
    let empty = Transaction { inputs: vec![], outputs: vec![] };
    assert_eq!(empty.serialized_size(), 10);
}

#[test]
fn pow_compares_as_big_endian_numbers() {
    let mut target = [0u8; 32];
    target[1] = 0x10;
    let mut hash = vec![0u8; 32];
    hash[1] = 0x10;
    assert!(valid_pow(&hash, &target));
    hash[31] = 1;
    assert!(!valid_pow(&hash, &target));
    hash[1] = 0x0f;
    hash[2] = 0xff;
    assert!(valid_pow(&hash, &target));
    assert!(!valid_pow(&hash[..31], &target));
}

#[test]
fn block_reward_halves() {
    assert_eq!(block_reward(0), 5_000_000_000);
    assert_eq!(block_reward(209_999), 5_000_000_000);
    assert_eq!(block_reward(210_000), 2_500_000_000);
    assert_eq!(block_reward(64 * 210_000), 0);
}

#[test]
fn median_of_recent_timestamps() {
    let chain: Vec<Block> = [5i64, 1, 4, 2, 3].iter().map(|t| synthetic_block(*t, MAX_TARGET)).collect();
    assert_eq!(median_time_past(&chain), 3);
    let long: Vec<Block> = (0..20i64).map(|t| synthetic_block(t * 10, MAX_TARGET)).collect();
    assert_eq!(median_time_past(&long), 140);
}

#[test]
fn next_target_of_empty_chain_is_easiest() {
    assert_eq!(calculate_next_target(&[]), MAX_TARGET);
}

#[test]
fn next_target_keeps_last_between_boundaries() {
    let mut t = MAX_TARGET;
    t[1] = 0x42;
    let chain: Vec<Block> = (0..5i64).map(|i| synthetic_block(i * 60, t)).collect();
    assert_eq!(calculate_next_target(&chain), t);
}

#[test]
fn next_target_scales_at_boundary() {
    let chain: Vec<Block> = (0..11i64).map(|i| synthetic_block(i * 30, MAX_TARGET)).collect();
    let chain = &chain[..10];
    assert_eq!(calculate_next_target(chain), MAX_TARGET);
    let fast: Vec<Block> = (0..20i64).map(|i| synthetic_block(i * 30, MAX_TARGET)).collect();
    let mut expected = [0x7fu8; 32];
    expected[0] = 0;
    assert_eq!(calculate_next_target(&fast), expected);
    let slow: Vec<Block> = (0..20i64).map(|i| synthetic_block(i * 600, MAX_TARGET)).collect();
    assert_eq!(calculate_next_target(&slow), MAX_TARGET);
}

#[test]
fn clamp_keeps_target_in_range() {
    assert_eq!(clamp_target([0xffu8; 32]), MAX_TARGET);
    assert_eq!(clamp_target([0u8; 32]), MIN_TARGET);
    let mut mid = [0u8; 32];
    mid[3] = 1;
    assert_eq!(clamp_target(mid), mid);
}

#[test]
fn work_of_targets() {
    let easy = synthetic_block(0, MAX_TARGET);
    assert_eq!(block_work(&easy), vec![1u8, 0]);
    let zero = synthetic_block(0, [0u8; 32]);
    let w = block_work(&zero);
    assert!(w.iter().all(|b| *b == 0));
    let total = cumulative_work(&[easy.clone(), easy.clone(), easy]);
    assert_eq!(total, vec![3u8, 0]);
}

#[test]
fn block_candidate_keeps_what_fits() {
    let txs = vec![sample_tx(vec![]), sample_tx(vec![1u8; 64])];
    let b = Block::new(vec![4u8; 32], txs.clone(), MAX_TARGET, 5);
    assert_eq!(b.header.height, 5);
    assert_eq!(b.header.nonce, 0);
    assert_eq!(b.header.prev_hash, vec![4u8; 32]);
    assert_eq!(b.header.target, MAX_TARGET);
    assert_eq!(b.transactions.len(), 2);
    assert_eq!(b.header.merkle_root, merkle_root(&txs));
    assert!(b.hash.is_empty());
    let many: Vec<Transaction> = (0..2_100).map(|_| Transaction { inputs: vec![], outputs: vec![] }).collect();
    assert_eq!(Block::new(vec![], many, MAX_TARGET, 1).transactions.len(), 2_000);
}
