//! An in-memory proof-of-work ledger: a chain of blocks, a pool of
//! unconfirmed transactions, the set of spendable outputs, and the
//! template/submit protocol that lets an external miner request work
//! and submit a solved block.
use vstd::prelude::*;

pub mod block;
pub mod chain;
pub mod digest;
pub mod ledger;
pub mod utxo;
pub mod encode;
pub mod select;
pub mod tx;
pub mod validate;
pub mod wallet;

verus! {

/// Default number of leading zero hex digits a block hash must have.
pub const DEFAULT_DIFFICULTY: u32 = 3;

/// Base block subsidy paid to the miner by the coinbase transaction.
pub const BASE_REWARD: u64 = 50;

/// Target seconds per block for difficulty retargeting.
pub const TARGET_BLOCK_TIME_SECS: i64 = 60;

/// How many recent intervals are averaged when retargeting.
pub const DIFF_ADJUST_WINDOW: usize = 10;

/// Tolerance around the target before difficulty moves, in tenths (2 = 20%).
pub const DIFF_ADJUST_THRESHOLD_TENTHS: i64 = 2;

/// Lower bound on difficulty.
pub const DIFF_MIN: u32 = 1;

/// Upper bound on difficulty.
pub const DIFF_MAX: u32 = 6;

/// Most transactions a block may carry, coinbase excluded.
pub const MAX_TXS_PER_BLOCK: usize = 100;

/// Most bytes of serialized transactions a block may carry, coinbase excluded.
pub const MAX_BLOCK_BYTES: usize = 1000000;

} // verus!
