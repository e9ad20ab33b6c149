//! The chain: an append-only ordered sequence of blocks with linkage
//! rules, plus difficulty retargeting toward a target block interval.
use vstd::prelude::*;

verus! {

use crate::block::{Block, BlockV, block_digest, block_valid, meets_difficulty};
use crate::tx::{Transaction, txs_view};
use vstd::string::StrSliceExecFns;
use crate::{DIFF_ADJUST_WINDOW, DIFF_ADJUST_THRESHOLD_TENTHS, DIFF_MAX, DIFF_MIN,
    TARGET_BLOCK_TIME_SECS};

/// The views of a sequence of blocks.
pub open spec fn blocks_view(s: Seq<Block>) -> Seq<BlockV> {
    s.map_values(|b: Block| b@)
}

/// Why a pre-mined block was refused.
#[derive(Debug, Clone, Copy, PartialEq, Eq)]
pub enum ChainError {
    /// The block no longer links to the chain head.
    StaleTemplate,
    /// The block's hash does not match its content or does not meet the
    /// chain's current difficulty.
    InvalidProofOfWork,
}

/// A canonical genesis block: index 0, previous hash `"0"`, and a
/// self-consistent cached hash.
pub open spec fn genesis_ok(b: BlockV) -> bool {
    b.index == 0 && b.previous_hash == "0"@ && b.hash == block_digest(b)
}

/// Chain validity at difficulty `d`: the genesis block is canonical and
/// every later block links to its predecessor's hash and is valid at `d`.
pub open spec fn chain_valid(blocks: Seq<BlockV>, d: u32) -> bool {
    &&& blocks.len() > 0
    &&& genesis_ok(blocks[0])
    &&& forall|i: int|
        1 <= i < blocks.len() ==> (#[trigger] blocks[i]).previous_hash == blocks[i - 1].hash
            && block_valid(blocks[i], d)
}

/// The interval between two timestamps, clamped below by one second to
/// guard against non-monotonic clocks.
pub open spec fn clamped_gap(older: i64, newer: i64) -> int {
    if newer - older < 1 {
        1
    } else {
        newer - older
    }
}

/// Sum of the clamped intervals between consecutive blocks at positions
/// `lo < i <= hi`.
pub open spec fn gaps_total(blocks: Seq<BlockV>, lo: int, hi: int) -> int
    decreases hi - lo,
{
    if hi <= lo {
        0
    } else {
        gaps_total(blocks, lo, hi - 1) + clamped_gap(blocks[hi - 1].timestamp, blocks[hi].timestamp)
    }
}

/// The difficulty after one retargeting step on this chain: with at
/// least a full window of intervals, difficulty moves up when the
/// average interval is below target minus tolerance (capped), down when
/// above target plus tolerance (floored), and otherwise stays.
pub open spec fn retargeted(d: u32, blocks: Seq<BlockV>) -> u32 {
    if blocks.len() < DIFF_ADJUST_WINDOW + 1 {
        d
    } else {
        let total = gaps_total(
            blocks,
            blocks.len() - (DIFF_ADJUST_WINDOW + 1),
            blocks.len() - 1,
        );
        if total * 10 < (TARGET_BLOCK_TIME_SECS as int) * (DIFF_ADJUST_WINDOW as int) * (10
            - DIFF_ADJUST_THRESHOLD_TENTHS) && d < DIFF_MAX {
            (d + 1) as u32
        } else if total * 10 > (TARGET_BLOCK_TIME_SECS as int) * (DIFF_ADJUST_WINDOW as int) * (10
            + DIFF_ADJUST_THRESHOLD_TENTHS) && d > DIFF_MIN {
            (d - 1) as u32
        } else {
            d
        }
    }
}

/// An in-memory blockchain with proof-of-work: the block sequence and
/// the difficulty required of the next block.
pub struct Blockchain {
    pub chain: Vec<Block>,
    pub difficulty: u32,
}

impl Blockchain {
    /// The chain always carries at least the genesis block.
    pub open spec fn wf(&self) -> bool {
        self.chain@.len() >= 1
    }

    /// A new blockchain holding exactly a canonical genesis block.
    pub fn new(difficulty: u32) -> (r: Blockchain)
        ensures
            r.wf(),
            r.chain@.len() == 1,
            r.difficulty == difficulty,
            genesis_ok(r.chain@[0]@),
            r.chain@[0]@.transactions.len() == 0,
            chain_valid(blocks_view(r.chain@), difficulty),
    {
        let mut chain: Vec<Block> = Vec::new();
        chain.push(Block::genesis());
        let r = Blockchain { chain, difficulty };
        proof {
            assert(blocks_view(r.chain@).len() == 1);
            assert(blocks_view(r.chain@)[0] == r.chain@[0]@);
        }
        r
    }

    /// The most recent block.
    pub fn last_block(&self) -> (r: &Block)
        requires
            self.wf(),
        ensures
            *r == self.chain@[self.chain@.len() - 1],
    {
        &self.chain[self.chain.len() - 1]
    }

    /// Number of blocks in the chain.
    pub fn len(&self) -> (r: usize)
        ensures
            r == self.chain@.len(),
    {
        self.chain.len()
    }

    /// The difficulty required of the next block.
    pub fn difficulty(&self) -> (r: u32)
        ensures
            r == self.difficulty,
    {
        self.difficulty
    }

    /// Sets the difficulty for blocks not yet mined.
    pub fn set_difficulty(&mut self, difficulty: u32)
        ensures
            final(self).chain == old(self).chain,
            final(self).difficulty == difficulty,
    {
        self.difficulty = difficulty;
    }

    /// One retargeting step after an append; the chain itself is
    /// untouched.
    fn maybe_adjust_difficulty(&mut self)
        ensures
            final(self).chain == old(self).chain,
            final(self).difficulty == retargeted(old(self).difficulty, blocks_view(old(self).chain@)),
    {
        let len = self.chain.len();
        if len < DIFF_ADJUST_WINDOW + 1 {
            return;
        }
        let start = len - (DIFF_ADJUST_WINDOW + 1);
        let ghost bv = blocks_view(self.chain@);
        let mut total: i128 = 0;
        let mut i: usize = start + 1;
        while i < start + 1 + DIFF_ADJUST_WINDOW
            invariant
                start + 1 <= i <= start + 1 + DIFF_ADJUST_WINDOW,
                start + 1 + DIFF_ADJUST_WINDOW == len,
                len == self.chain@.len(),
                bv == blocks_view(self.chain@),
                total == gaps_total(bv, start as int, i - 1),
                0 <= total <= (i - start - 1) * 0x2_0000_0000_0000_0000,
            decreases len - i,
        {
            let newer = self.chain[i].timestamp;
            let older = self.chain[i - 1].timestamp;
            let dt: i128 = (newer as i128) - (older as i128);
            let g: i128 = if dt < 1 {
                1
            } else {
                dt
            };
            proof {
                assert(bv[i as int] == self.chain@[i as int]@);
                assert(bv[i - 1] == self.chain@[i - 1]@);
                assert(g as int == clamped_gap(older, newer));
                assert(gaps_total(bv, start as int, i as int) == gaps_total(bv, start as int, i - 1)
                    + clamped_gap(bv[i - 1].timestamp, bv[i as int].timestamp));
            }
            total = total + g;
            i = i + 1;
        }
        let lower: i128 = (TARGET_BLOCK_TIME_SECS as i128) * (DIFF_ADJUST_WINDOW as i128) * ((10
            - DIFF_ADJUST_THRESHOLD_TENTHS) as i128);
        let upper: i128 = (TARGET_BLOCK_TIME_SECS as i128) * (DIFF_ADJUST_WINDOW as i128) * ((10
            + DIFF_ADJUST_THRESHOLD_TENTHS) as i128);
        if total * 10 < lower && self.difficulty < DIFF_MAX {
            self.difficulty = self.difficulty + 1;
        } else if total * 10 > upper && self.difficulty > DIFF_MIN {
            self.difficulty = self.difficulty - 1;
        }
    }

    /// Mines a block over the given transactions at the chain's current
    /// difficulty, appends it, then retargets the difficulty for future
    /// blocks.  The appended block links to the old head; its hash is
    /// the digest of its content and meets the old difficulty unless no
    /// nonce at all could seal this content.
    pub fn mine_block(&mut self, transactions: Vec<Transaction>)
        requires
            old(self).wf(),
        ensures
            final(self).wf(),
            final(self).chain@.len() == old(self).chain@.len() + 1,
            forall|i: int|
                0 <= i < old(self).chain@.len() ==> final(self).chain@[i] == old(self).chain@[i],
            final(self).chain@.last()@.index == old(self).chain@.len() as u64,
            final(self).chain@.last()@.previous_hash == old(self).chain@.last()@.hash,
            final(self).chain@.last()@.transactions == txs_view(transactions@),
            final(self).chain@.last()@.hash == block_digest(final(self).chain@.last()@),
            meets_difficulty(final(self).chain@.last()@.hash, old(self).difficulty as nat) || (
            forall|m: u64|
                !meets_difficulty(
                    #[trigger] crate::block::digest_with_nonce(final(self).chain@.last()@, m),
                    old(self).difficulty as nat,
                )),
            final(self).difficulty == retargeted(old(self).difficulty, blocks_view(final(self).chain@)),
    {
        let index = self.chain.len() as u64;
        let prev_hash = self.last_block().hash.clone();
        let mut block = Block::new(index, prev_hash, transactions);
        block.mine(self.difficulty);
        self.chain.push(block);
        self.maybe_adjust_difficulty();
    }

    /// Whole-chain validation: canonical genesis, linkage, and
    /// proof-of-work of every later block at the chain's current
    /// difficulty.
    pub fn is_valid_chain(&self) -> (r: bool)
        ensures
            r == chain_valid(blocks_view(self.chain@), self.difficulty),
    {
        let ghost bv = blocks_view(self.chain@);
        if self.chain.len() == 0 {
            return false;
        }
        let genesis = &self.chain[0];
        if genesis.index != 0 {
            return false;
        }
        if !is_zero_string(genesis.previous_hash.as_str()) {
            return false;
        }
        let expected = genesis.compute_hash();
        if !genesis.hash.eq(&expected) {
            return false;
        }
        let mut i: usize = 1;
        while i < self.chain.len()
            invariant
                1 <= i <= self.chain@.len(),
                bv == blocks_view(self.chain@),
                genesis_ok(bv[0]),
                forall|j: int|
                    1 <= j < i ==> (#[trigger] bv[j]).previous_hash == bv[j - 1].hash
                        && block_valid(bv[j], self.difficulty),
            decreases self.chain@.len() - i,
        {
            let current = &self.chain[i];
            let prev = &self.chain[i - 1];
            proof {
                assert(bv[i as int] == self.chain@[i as int]@);
                assert(bv[i - 1] == self.chain@[i - 1]@);
            }
            if !current.previous_hash.eq(&prev.hash) {
                proof {
                    assert(bv[i as int].previous_hash != bv[i - 1].hash);
                    assert(!chain_valid(bv, self.difficulty));
                }
                return false;
            }
            if !current.is_valid(self.difficulty) {
                proof {
                    assert(!block_valid(bv[i as int], self.difficulty));
                    assert(!chain_valid(bv, self.difficulty));
                }
                return false;
            }
            i = i + 1;
        }
        true
    }

    /// Appends a block whose nonce and hash were found elsewhere, after
    /// checking linkage against the head and proof-of-work at the
    /// chain's current difficulty; on success the difficulty is
    /// retargeted.  On failure the chain is left exactly as it was.
    pub fn append_premined_block(&mut self, block: Block) -> (r: Result<(), ChainError>)
        requires
            old(self).wf(),
        ensures
            final(self).wf(),
            r == Err::<(), ChainError>(ChainError::StaleTemplate) <==> block@.previous_hash
                != old(self).chain@.last()@.hash,
            r == Err::<(), ChainError>(ChainError::InvalidProofOfWork) <==> (block@.previous_hash
                == old(self).chain@.last()@.hash && !block_valid(block@, old(self).difficulty)),
            r.is_err() ==> *final(self) == *old(self),
            r.is_ok() ==> {
                &&& final(self).chain@ == old(self).chain@.push(block)
                &&& block_valid(block@, old(self).difficulty)
                &&& final(self).difficulty == retargeted(
                    old(self).difficulty,
                    blocks_view(final(self).chain@),
                )
            },
    {
        let linked = block.previous_hash.eq(&self.last_block().hash);
        if !linked {
            return Err(ChainError::StaleTemplate);
        }
        if !block.is_valid(self.difficulty) {
            return Err(ChainError::InvalidProofOfWork);
        }
        self.chain.push(block);
        self.maybe_adjust_difficulty();
        Ok(())
    }
}

/// Decides whether a string is exactly `"0"`, the canonical previous
/// hash of a genesis block.
fn is_zero_string(s: &str) -> (r: bool)
    ensures
        r == (s@ == "0"@),
{
    proof {
        reveal_strlit("0");
    }
    if s.unicode_len() != 1 {
        proof {
            assert(s@ != "0"@);
        }
        return false;
    }
    let c = s.get_char(0);
    if c == '0' {
        proof {
            assert(s@ =~= "0"@);
        }
        true
    } else {
        proof {
            assert(s@ != "0"@);
        }
        false
    }
}

} // verus!
