//! Consensus and state-transition engine of a small proof-of-work chain:
//! canonical encoding and hashing, transaction and block rules, the unspent
//! output set, difficulty retargeting, fork choice with reorganisation, the
//! mempool, block assembly and peer message handling.
use vstd::prelude::*;

pub mod block;
pub mod bytes;
pub mod chain;
pub mod crypto;
pub mod difficulty;
pub mod fork_choice;
pub mod genesis;
pub mod laws;
pub mod mempool;
pub mod miner;
pub mod node;
pub mod params;
pub mod rules;
pub mod runtime;
pub mod transaction;
pub mod utxo;
pub mod validation;

pub use crypto::{pubkey_hash, sha256, verify_signature};

verus! {

/// Version string of this client and of the rules it enforces.
pub const CLIENT_VERSION: &'static str = "0.3.0-consensus-v3";

} // verus!
