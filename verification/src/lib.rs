//! ArcNet: a UTXO blockchain library with verified block, transaction and
//! mempool rules, Merkle roots, proof-of-work targets and wallet coin selection.

pub mod cbor;
pub mod cli;
pub mod crypto;
pub mod error;
pub mod miner;
pub mod network;
pub mod node;
pub mod sha256;
pub mod timestamp;
pub mod types;
pub mod u256;
pub mod util;
pub mod wallet;

use vstd::prelude::*;

verus! {

/// Initial block reward in whole coins; multiply by 10^8 for satoshis.
pub const INITIAL_BLOCK_REWARD: u64 = 50;

/// Number of blocks between two halvings of the block reward.
pub const HALVING_INTERVAL: u64 = 240;

/// Ideal time between two blocks, in seconds.
pub const IDEAL_BLOCK_TIME: u64 = 10;

/// Number of blocks between two adjustments of the proof-of-work target.
pub const DIFFICULTY_UPDATE_INTERVAL: u64 = 50;

/// Age in seconds after which a mempool transaction is dropped.
pub const MAX_MEMPOOL_TRANSACTION_AGE: u64 = 600;

/// Maximum number of mempool transactions taken into a block template.
pub const BLOCK_TRANSACTION_CAP: usize = 20;

} // verus!
