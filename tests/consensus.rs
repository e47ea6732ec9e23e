use revelation_chain::block::{valid_pow, Block};
use revelation_chain::chain::{Blockchain, TxBuildError};
use revelation_chain::crypto::{pubkey_hash, sha256};
use revelation_chain::fork_choice::{best_tip, compute_cumulative_work};
use revelation_chain::genesis::{genesis_block, revelation_tx, REVELATION_TEXT};
use revelation_chain::mempool::Mempool;
use revelation_chain::miner::mine_block_at;
use revelation_chain::node::{Node, P2PMessage};
use revelation_chain::params::{
    block_reward, GENESIS_HASH, GENESIS_NONCE, GENESIS_TIMESTAMP, MAX_TARGET, PROTOCOL_VERSION,
};
use revelation_chain::transaction::{Transaction, TxInput, TxOutput};
use revelation_chain::validation::validate_transaction;

use secp256k1::{Message, PublicKey, Secp256k1, SecretKey};

struct Wallet {
    sk: SecretKey,
    pk: Vec<u8>,
}

fn wallet(seed: u8) -> Wallet {
    let secp = Secp256k1::new();
    let sk = SecretKey::from_slice(&[seed; 32]).unwrap();
    let pk = PublicKey::from_secret_key(&secp, &sk).serialize().to_vec();
    Wallet { sk, pk }
}

impl Wallet {
    fn owner(&self) -> Vec<u8> {
        pubkey_hash(&self.pk)
    }

    fn sign(&self, tx: &mut Transaction) {
        for inp in tx.inputs.iter_mut() {
            inp.pubkey = self.pk.clone();
        }
        let digest = sha256(&tx.sighash());
        let msg = Message::from_digest_slice(&digest).unwrap();
        let sig = Secp256k1::new().sign_ecdsa(&msg, &self.sk).serialize_compact().to_vec();
        for inp in tx.inputs.iter_mut() {
            inp.signature = sig.clone();
        }
    }
}

fn started_chain() -> Blockchain {
    let mut chain = Blockchain::new();
    assert!(chain.initialize_genesis());
    chain
}

fn mine_next(chain: &Blockchain, txs: Vec<Transaction>, miner: &[u8]) -> (Block, i64) {
    let prev = chain.blocks.last().unwrap().clone();
    let now = prev.header.timestamp + 60;
    let b = mine_block_at(&prev, &chain.utxos, txs, miner.to_vec(), &chain.blocks, now).unwrap();
    (b, now)
}

fn grow(chain: &mut Blockchain, n: usize, miner: &[u8]) {
    for _ in 0..n {
        let (b, now) = mine_next(chain, vec![], miner);
        assert!(chain.validate_and_add_block_at(b, now));
    }
}

fn spend(from: &Wallet, txid: Vec<u8>, outputs: Vec<(u64, Vec<u8>)>) -> Transaction {
    let mut tx = Transaction {
        inputs: vec![TxInput { txid, index: 0, signature: vec![], pubkey: vec![] }],
        outputs: outputs.into_iter().map(|(value, pubkey_hash)| TxOutput { value, pubkey_hash }).collect(),
    };
    from.sign(&mut tx);
    tx
}

#[test]
fn genesis_block_starts_the_chain() {
    let chain = started_chain();
    assert_eq!(chain.blocks.len(), 1);
    let g = &chain.blocks[0];
    assert_eq!(g.header.height, 0);
    assert_eq!(g.header.prev_hash, vec![0u8; 32]);
    assert_eq!(g.transactions.len(), 1);
    assert_eq!(g.transactions[0].outputs[0].value, 0);
    assert_eq!(g.transactions[0].outputs[0].pubkey_hash, sha256(REVELATION_TEXT.as_bytes()));
    assert!(valid_pow(&g.hash, &MAX_TARGET));
    assert_eq!(g.hash, g.hash_header());
    assert!(g.verify_pow());
    assert_eq!(g.header.merkle_root, revelation_tx().txid());
    let again = genesis_block().unwrap();
    assert_eq!(again.hash, g.hash);
}

#[test]
fn accepted_blocks_are_linked_and_committed() {
    let w = wallet(1);
    let mut chain = started_chain();
    grow(&mut chain, 4, &w.owner());
    for i in 1..chain.blocks.len() {
        let (prev, cur) = (&chain.blocks[i - 1], &chain.blocks[i]);
        assert_eq!(cur.header.prev_hash, prev.hash);
        assert_eq!(cur.header.height, prev.header.height + 1);
        assert_eq!(cur.hash, cur.hash_header());
        assert!(valid_pow(&cur.hash, &cur.header.target));
        assert_eq!(cur.header.merkle_root, cur.calculate_merkle_root());
    }
}

#[test]
fn genesis_is_not_added_twice() {
    let mut chain = started_chain();
    assert!(chain.initialize_genesis());
    assert_eq!(chain.height(), 1);
}

#[test]
fn single_block_mine_and_accept() {
    let w = wallet(1);
    let mut chain = started_chain();
    let (b, now) = mine_next(&chain, vec![], &w.owner());
    assert_eq!(b.transactions.len(), 1);
    assert_eq!(b.transactions[0].outputs[0].value, block_reward(1));
    assert_eq!(b.transactions[0].outputs[0].pubkey_hash, w.owner());
    let cb = b.transactions[0].txid();
    assert!(chain.validate_and_add_block_at(b, now));
    assert_eq!(chain.height(), 2);
    let u = chain.utxos.get(&cb, 0).unwrap();
    assert_eq!(u.value, block_reward(1));
    assert!(u.is_coinbase);
    assert_eq!(u.height, 1);
    assert_eq!(chain.balance_of(&w.owner()), block_reward(1) as u128);
}

#[test]
fn block_with_wrong_link_or_height_is_refused() {
    let w = wallet(1);
    let mut chain = started_chain();
    let (mut b, now) = mine_next(&chain, vec![], &w.owner());
    b.header.prev_hash = vec![1u8; 32];
    assert!(!chain.validate_and_add_block_at(b.clone(), now));
    let (b2, now2) = mine_next(&chain, vec![], &w.owner());
    assert!(chain.validate_and_add_block_at(b2.clone(), now2));
    assert!(!chain.validate_and_add_block_at(b2, now2));
    assert_eq!(chain.height(), 2);
}

#[test]
fn block_too_far_in_future_is_refused() {
    let w = wallet(1);
    let mut chain = started_chain();
    let (b, now) = mine_next(&chain, vec![], &w.owner());
    assert!(!chain.validate_and_add_block_at(b.clone(), now - 7_300));
    assert!(chain.validate_and_add_block_at(b, now));
}

#[test]
fn spend_to_recipient_pays_fee_to_miner() {
    let w = wallet(1);
    let r = wallet(2);
    let mut chain = started_chain();
    let (b1, now) = mine_next(&chain, vec![], &w.owner());
    let cb = b1.transactions[0].txid();
    assert!(chain.validate_and_add_block_at(b1, now));
    grow(&mut chain, 100, &r.owner());
    assert_eq!(chain.height(), 102);

    let v = block_reward(1);
    let tx = spend(&w, cb.clone(), vec![(v - 1, r.owner()), (0, w.owner())]);
    let mut pool = Mempool::new();
    assert!(pool.add_transaction(tx.clone(), &chain.utxos, chain.height()));
    assert_eq!(pool.size(), 1);
    assert_eq!(pool.entries()[0].fee, 1);

    let before_r = chain.balance_of(&r.owner());
    let (b, now) = mine_next(&chain, pool.sorted_for_mining(), &[9u8; 32]);
    assert_eq!(b.transactions.len(), 2);
    assert_eq!(b.transactions[0].outputs[0].value, block_reward(102) + 1);
    assert_eq!(b.transactions[1].txid(), tx.txid());
    let confirmed = b.transactions.clone();
    assert!(chain.validate_and_add_block_at(b, now));
    assert!(chain.utxos.get(&cb, 0).is_none());
    assert_eq!(chain.utxos.get(&tx.txid(), 0).unwrap().value, v - 1);
    assert_eq!(chain.balance_of(&r.owner()), before_r + (v - 1) as u128);
    pool.remove_confirmed(&confirmed);
    assert_eq!(pool.size(), 0);
}

#[test]
fn immature_coinbase_cannot_be_spent() {
    let w = wallet(1);
    let r = wallet(2);
    let mut chain = started_chain();
    let (b1, now) = mine_next(&chain, vec![], &w.owner());
    let cb = b1.transactions[0].txid();
    assert!(chain.validate_and_add_block_at(b1, now));
    grow(&mut chain, 5, &r.owner());
    let tx = spend(&w, cb, vec![(10, r.owner())]);
    assert!(!validate_transaction(&tx, &chain.utxos, chain.height()));
    assert!(validate_transaction(&tx, &chain.utxos, 101));
    let mut pool = Mempool::new();
    assert!(!pool.add_transaction(tx, &chain.utxos, chain.height()));
}

fn matured_chain(w: &Wallet, r: &Wallet) -> (Blockchain, Vec<u8>) {
    let mut chain = started_chain();
    let (b1, now) = mine_next(&chain, vec![], &w.owner());
    let cb = b1.transactions[0].txid();
    assert!(chain.validate_and_add_block_at(b1, now));
    grow(&mut chain, 100, &r.owner());
    (chain, cb)
}

#[test]
fn overspend_and_bad_signature_are_refused() {
    let w = wallet(1);
    let r = wallet(2);
    let (mut chain, cb) = matured_chain(&w, &r);
    let v = block_reward(1);
    let mut pool = Mempool::new();

    let over = spend(&w, cb.clone(), vec![(v + 1, r.owner())]);
    assert!(!validate_transaction(&over, &chain.utxos, chain.height()));
    assert!(!pool.add_transaction(over.clone(), &chain.utxos, chain.height()));

    let mut forged = spend(&w, cb.clone(), vec![(v - 5, r.owner())]);
    forged.inputs[0].signature[10] ^= 1;
    assert!(!pool.add_transaction(forged.clone(), &chain.utxos, chain.height()));

    let no_fee = spend(&w, cb.clone(), vec![(v, r.owner())]);
    assert!(validate_transaction(&no_fee, &chain.utxos, chain.height()));
    assert!(!pool.add_transaction(no_fee, &chain.utxos, chain.height()));

    let h = chain.height();
    for bad in [over, forged] {
        let (mut b, now) = mine_next(&chain, vec![], &w.owner());
        b.transactions.push(bad);
        b.header.merkle_root = b.calculate_merkle_root();
        b.header.nonce = 0;
        assert!(revelation_chain::block::mine(&mut b));
        assert!(!chain.validate_and_add_block_at(b, now));
        assert_eq!(chain.height(), h);
    }
}

#[test]
fn coinbase_above_reward_is_refused() {
    let w = wallet(1);
    let mut chain = started_chain();
    let (mut b, now) = mine_next(&chain, vec![], &w.owner());
    b.transactions[0].outputs[0].value = block_reward(1) + 1;
    b.header.merkle_root = b.calculate_merkle_root();
    assert!(revelation_chain::block::mine(&mut b));
    assert!(!chain.validate_and_add_block_at(b, now));
}

#[test]
fn idempotent_admission_and_reserved_outpoints() {
    let w = wallet(1);
    let r = wallet(2);
    let (chain, cb) = matured_chain(&w, &r);
    let v = block_reward(1);
    let tx = spend(&w, cb.clone(), vec![(v - 3, r.owner())]);
    let mut pool = Mempool::new();
    assert!(pool.add_transaction(tx.clone(), &chain.utxos, chain.height()));
    assert!(!pool.add_transaction(tx.clone(), &chain.utxos, chain.height()));
    assert_eq!(pool.size(), 1);
    let rival = spend(&w, cb, vec![(v - 7, w.owner())]);
    assert!(!pool.add_transaction(rival, &chain.utxos, chain.height()));
    assert_eq!(pool.size(), 1);
    pool.remove_confirmed(&[tx.clone()]);
    assert_eq!(pool.size(), 0);
    assert!(pool.add_transaction(tx, &chain.utxos, chain.height()));
}

#[test]
fn coinbase_is_never_admitted() {
    let chain = started_chain();
    let mut pool = Mempool::new();
    assert!(!pool.add_transaction(revelation_tx(), &chain.utxos, chain.height()));
}

#[test]
fn mining_order_follows_fee_rate() {
    let w = wallet(1);
    let w2 = wallet(3);
    let r = wallet(2);
    let mut chain = started_chain();
    let (b1, now1) = mine_next(&chain, vec![], &w.owner());
    let cb1 = b1.transactions[0].txid();
    assert!(chain.validate_and_add_block_at(b1, now1));
    let (b2, now2) = mine_next(&chain, vec![], &w2.owner());
    let cb2 = b2.transactions[0].txid();
    assert!(chain.validate_and_add_block_at(b2, now2));
    grow(&mut chain, 100, &r.owner());
    let v = block_reward(1);
    let cheap = spend(&w, cb1, vec![(v - 2, r.owner())]);
    let dear = spend(&w2, cb2, vec![(v - 50, r.owner())]);
    let mut pool = Mempool::new();
    assert!(pool.add_transaction(cheap.clone(), &chain.utxos, chain.height()));
    assert!(pool.add_transaction(dear.clone(), &chain.utxos, chain.height()));
    let order = pool.sorted_for_mining();
    assert_eq!(order[0].txid(), dear.txid());
    assert_eq!(order[1].txid(), cheap.txid());
}

#[test]
fn reorg_to_heavier_branch() {
    let a = wallet(1);
    let b = wallet(2);
    let mut chain = started_chain();
    grow(&mut chain, 4, &a.owner());
    assert_eq!(chain.height(), 5);
    let old_blocks = chain.blocks.clone();

    let mut other = started_chain();
    grow(&mut other, 5, &b.owner());
    let candidate = other.blocks.clone();

    let same = chain.maybe_reorg(old_blocks.clone());
    assert!(same.is_none());
    assert_eq!(chain.height(), 5);

    let orphans = chain.maybe_reorg(candidate.clone()).unwrap();
    assert_eq!(chain.height(), 6);
    assert_eq!(chain.blocks.last().unwrap().hash, candidate.last().unwrap().hash);
    assert_eq!(orphans.len(), 4);
    assert_eq!(orphans[0].hash, old_blocks[4].hash);
    assert_eq!(orphans[3].hash, old_blocks[1].hash);
    let mut rebuilt = Blockchain::new();
    for blk in candidate.iter() {
        assert!(rebuilt.validate_and_add_block_at(blk.clone(), blk.header.timestamp));
    }
    assert_eq!(rebuilt.utxos.len(), chain.utxos.len());
    for e in rebuilt.utxos.entries() {
        let u = chain.utxos.get(&e.txid, e.index).unwrap();
        assert_eq!(u.value, e.utxo.value);
        assert_eq!(u.height, e.utxo.height);
    }
    assert_eq!(chain.balance_of(&a.owner()), 0);

    let mut pool = Mempool::new();
    pool.resurrect_from_orphans(orphans, &chain.utxos, chain.height());
    assert_eq!(pool.size(), 0);

    let shorter = old_blocks.clone();
    assert!(chain.maybe_reorg(shorter).is_none());
    assert_eq!(chain.height(), 6);
}

#[test]
fn validate_chain_checks_every_block() {
    let a = wallet(1);
    let mut chain = started_chain();
    grow(&mut chain, 3, &a.owner());
    let blocks = chain.blocks.clone();
    assert!(chain.validate_chain(&blocks));
    assert!(!chain.validate_chain(&[]));
    let mut broken = blocks.clone();
    broken[2].header.nonce += 1;
    assert!(!chain.validate_chain(&broken));
}

#[test]
fn disconnect_returns_newest_first() {
    let a = wallet(1);
    let mut chain = started_chain();
    grow(&mut chain, 3, &a.owner());
    let hashes: Vec<Vec<u8>> = chain.blocks.iter().map(|b| b.hash.clone()).collect();
    let orphans = chain.disconnect_to_height(2);
    assert_eq!(chain.height(), 2);
    assert_eq!(orphans.len(), 2);
    assert_eq!(orphans[0].hash, hashes[3]);
    assert_eq!(orphans[1].hash, hashes[2]);
    assert_eq!(chain.balance_of(&a.owner()), block_reward(1) as u128);
}

#[test]
fn wallet_layer_builds_transfers() {
    let w = wallet(1);
    let r = wallet(2);
    let mut chain = started_chain();
    grow(&mut chain, 1, &w.owner());
    grow(&mut chain, 1, &r.owner());
    let total = block_reward(1);
    assert_eq!(
        chain.create_transaction(w.owner(), r.owner(), total + 1).err(),
        Some(TxBuildError::InsufficientFunds)
    );
    let tx = chain.create_transaction(w.owner(), r.owner(), 100).unwrap();
    assert_eq!(tx.inputs.len(), 1);
    assert_eq!(tx.outputs.len(), 2);
    assert_eq!(tx.outputs[0].value, 100);
    assert_eq!(tx.outputs[0].pubkey_hash, r.owner());
    assert_eq!(tx.outputs[1].value, block_reward(1) - 100);
    assert_eq!(tx.outputs[1].pubkey_hash, w.owner());
    let exact = chain.create_transaction(w.owner(), r.owner(), total).unwrap();
    assert_eq!(exact.inputs.len(), 1);
    assert_eq!(exact.outputs.len(), 1);
    chain.add_to_mempool(exact);
    assert_eq!(chain.drain_mempool().len(), 1);
    assert_eq!(chain.mempool.len(), 0);
}

#[test]
fn identical_coinbases_share_an_outpoint() {
    let w = wallet(1);
    let mut chain = started_chain();
    grow(&mut chain, 2, &w.owner());
    assert_eq!(chain.blocks[1].transactions[0].txid(), chain.blocks[2].transactions[0].txid());
    assert_eq!(chain.balance_of(&w.owner()), block_reward(1) as u128);
    assert_eq!(chain.utxos.len(), 2);
}

#[test]
fn node_answers_messages() {
    let a = wallet(1);
    let mut chain = started_chain();
    grow(&mut chain, 2, &a.owner());
    let mut node = Node::with_chain(chain);
    let pong = node.handle_message(P2PMessage::Ping, 0);
    assert!(matches!(pong.as_slice(), [P2PMessage::Pong]));
    assert!(node.handle_message(P2PMessage::Pong, 0).is_empty());
    assert!(node.handle_message(P2PMessage::Hello { version: PROTOCOL_VERSION + 1, height: 99 }, 0).is_empty());
    assert!(node.handle_message(P2PMessage::Hello { version: PROTOCOL_VERSION, height: 3 }, 0).is_empty());
    let ask = node.handle_message(P2PMessage::Hello { version: PROTOCOL_VERSION, height: 9 }, 0);
    assert!(matches!(ask.as_slice(), [P2PMessage::SyncRequest { from_height: 3 }]));
    let sent = node.handle_message(P2PMessage::SyncRequest { from_height: 1 }, 0);
    assert_eq!(sent.len(), 2);
    match &sent[0] {
        P2PMessage::Block(b) => assert_eq!(b.header.height, 1),
        _ => panic!("expected a block"),
    }
    assert!(node.handle_message(P2PMessage::SyncRequest { from_height: 7 }, 0).is_empty());
}

#[test]
fn node_extends_chain_and_switches_branch() {
    let a = wallet(1);
    let b = wallet(2);
    let mut chain = started_chain();
    grow(&mut chain, 1, &a.owner());
    let mut node = Node::with_chain(chain);
    let mut other = started_chain();
    grow(&mut other, 3, &b.owner());
    for blk in other.blocks[1..].iter() {
        node.handle_message(P2PMessage::Block(blk.clone()), blk.header.timestamp);
    }
    assert_eq!(node.chain.height(), 4);
    assert_eq!(node.chain.blocks[3].hash, other.blocks[3].hash);
    let (next, now) = mine_next(&node.chain, vec![], &a.owner());
    node.handle_message(P2PMessage::Block(next), now);
    assert_eq!(node.chain.height(), 5);
}

#[test]
fn best_tip_follows_heaviest_branch() {
    let a = wallet(1);
    let b = wallet(2);
    let mut one = started_chain();
    grow(&mut one, 1, &a.owner());
    let mut two = started_chain();
    grow(&mut two, 2, &b.owner());
    let blocks = vec![one.blocks[0].clone(), one.blocks[1].clone(), two.blocks[1].clone(), two.blocks[2].clone()];
    let totals = compute_cumulative_work(&blocks);
    assert_eq!(totals, vec![vec![1u8, 0], vec![2u8, 0], vec![2u8, 0], vec![3u8, 0]]);
    assert_eq!(best_tip(&blocks), Some(two.blocks[2].hash.clone()));
    assert_eq!(best_tip(&[]), None);
}

#[test]
fn genesis_hash_is_pinned() {
    let g = genesis_block().unwrap();
    assert_eq!(g.hash, GENESIS_HASH.to_vec());
    assert_eq!(g.header.nonce, GENESIS_NONCE);
    assert_eq!(g.header.timestamp, GENESIS_TIMESTAMP);
    assert_eq!(g.hash_header(), g.hash);
}

#[test]
fn admission_time_and_equal_rates_keep_order() {
    let w = wallet(1);
    let w2 = wallet(3);
    let r = wallet(2);
    let mut chain = started_chain();
    let (b1, now1) = mine_next(&chain, vec![], &w.owner());
    let cb1 = b1.transactions[0].txid();
    assert!(chain.validate_and_add_block_at(b1, now1));
    let (b2, now2) = mine_next(&chain, vec![], &w2.owner());
    let cb2 = b2.transactions[0].txid();
    assert!(chain.validate_and_add_block_at(b2, now2));
    grow(&mut chain, 100, &r.owner());
    let v = block_reward(1);
    let first = spend(&w, cb1, vec![(v - 5, r.owner())]);
    let second = spend(&w2, cb2, vec![(v - 5, r.owner())]);
    let mut pool = Mempool::new();
    assert!(pool.add_transaction_at(first.clone(), &chain.utxos, chain.height(), 1234));
    assert!(pool.add_transaction_at(second.clone(), &chain.utxos, chain.height(), 1240));
    assert_eq!(pool.entries()[0].timestamp, 1234);
    let order = pool.sorted_for_mining();
    assert_eq!(order[0].txid(), first.txid());
    assert_eq!(order[1].txid(), second.txid());
}

#[test]
fn candidate_timestamp_follows_median() {
    let w = wallet(1);
    let mut chain = started_chain();
    grow(&mut chain, 2, &w.owner());
    let prev = chain.blocks.last().unwrap().clone();
    let late = mine_block_at(&prev, &chain.utxos, vec![], w.owner(), &chain.blocks, prev.header.timestamp + 500).unwrap();
    assert_eq!(late.header.timestamp, prev.header.timestamp + 500);
    let early = mine_block_at(&prev, &chain.utxos, vec![], w.owner(), &chain.blocks, 0).unwrap();
    let mtp = revelation_chain::difficulty::median_time_past(&chain.blocks);
    assert_eq!(early.header.timestamp, mtp + 1);
}

#[test]
fn packing_skips_double_spends_and_in_block_outputs() {
    let w = wallet(1);
    let r = wallet(2);
    let (chain, cb) = matured_chain(&w, &r);
    let v = block_reward(1);
    let a = spend(&w, cb.clone(), vec![(v - 10, r.owner())]);
    let b = spend(&w, cb, vec![(v - 20, w.owner())]);
    let child = spend(&r, a.txid(), vec![(v - 30, w.owner())]);
    let (blk, now) = mine_next(&chain, vec![a.clone(), b, child], &[7u8; 32]);
    assert_eq!(blk.transactions.len(), 2);
    assert_eq!(blk.transactions[1].txid(), a.txid());
    assert_eq!(blk.transactions[0].outputs[0].value, block_reward(102) + 10);
    let mut chain = chain;
    assert!(chain.validate_and_add_block_at(blk, now));
}
