//! Blocks: an ordered list of transactions under a proof-of-work seal.
//! The block hash is a digest over every field except the hash itself.
use vstd::prelude::*;

verus! {

use crate::encode::{dec_of, int_str_of, nstr_of, dec_u64_string, dec_i64_string, append_nstr};
use crate::digest::{sha256_of, hex_of, sha256_hex};
use crate::tx::{Transaction, TxV, txs_view, enc_txs, append_txs};
use vstd::string::StrSliceExecFns;
use vstd::string::StringExecFns;

/// Mathematical value of a block.
pub struct BlockV {
    pub index: u64,
    pub timestamp: i64,
    pub previous_hash: Seq<char>,
    pub nonce: u64,
    pub hash: Seq<char>,
    pub transactions: Seq<TxV>,
}

/// A single block in the chain.
pub struct Block {
    pub index: u64,
    /// Unix timestamp, in seconds.
    pub timestamp: i64,
    pub previous_hash: String,
    /// Proof-of-work nonce.
    pub nonce: u64,
    /// Cached digest of the block's content.
    pub hash: String,
    pub transactions: Vec<Transaction>,
}

impl View for Block {
    type V = BlockV;

    open spec fn view(&self) -> BlockV {
        BlockV {
            index: self.index,
            timestamp: self.timestamp,
            previous_hash: self.previous_hash@,
            nonce: self.nonce,
            hash: self.hash@,
            transactions: txs_view(self.transactions@),
        }
    }
}

impl Clone for Block {
    fn clone(&self) -> (r: Self)
        ensures
            r@ == self@,
    {
        let mut txs: Vec<Transaction> = Vec::new();
        let mut i: usize = 0;
        while i < self.transactions.len()
            invariant
                i <= self.transactions.len(),
                txs@.len() == i,
                forall|j: int| 0 <= j < i ==> txs@[j]@ == self.transactions@[j]@,
            decreases self.transactions.len() - i,
        {
            txs.push(self.transactions[i].clone());
            i = i + 1;
        }
        let r = Block {
            index: self.index,
            timestamp: self.timestamp,
            previous_hash: self.previous_hash.clone(),
            nonce: self.nonce,
            hash: self.hash.clone(),
            transactions: txs,
        };
        proof {
            assert(txs_view(r.transactions@) =~= txs_view(self.transactions@));
        }
        r
    }
}

/// The hash preimage of a block: every field except the cached hash,
/// with the transactions in their canonical order-preserving encoding.
pub open spec fn block_preimage(
    index: u64,
    timestamp: i64,
    previous_hash: Seq<char>,
    nonce: u64,
    txs: Seq<TxV>,
) -> Seq<char> {
    dec_of(index as nat) + ":"@ + int_str_of(timestamp as int) + ":"@ + nstr_of(previous_hash)
        + ":"@ + dec_of(nonce as nat) + ":"@ + enc_txs(txs)
}

/// The digest of a block's content; the cached `hash` field plays no
/// part in it.
pub open spec fn block_digest(b: BlockV) -> Seq<char> {
    hex_of(sha256_of(block_preimage(b.index, b.timestamp, b.previous_hash, b.nonce, b.transactions)))
}

/// A hash meets difficulty `d` when each of its first `d` characters
/// (as far as the hash reaches) is the zero digit.
pub open spec fn meets_difficulty(h: Seq<char>, d: nat) -> bool {
    forall|i: int| 0 <= i < d && i < h.len() ==> h[i] == '0'
}

/// The digest this block's content would have under nonce `m`.
pub open spec fn digest_with_nonce(b: BlockV, m: u64) -> Seq<char> {
    block_digest(BlockV { nonce: m, ..b })
}

/// A block is valid at difficulty `d` when its cached hash equals the
/// digest of its content and meets the difficulty.
pub open spec fn block_valid(b: BlockV, d: u32) -> bool {
    b.hash == block_digest(b) && meets_difficulty(b.hash, d as nat)
}

/// The digest of a block depends on its content alone, never on the
/// cached hash: two blocks that agree on index, timestamp, previous
/// hash, nonce and transactions have the same digest.
pub proof fn lemma_digest_depends_on_content_only(a: BlockV, b: BlockV)
    requires
        a.index == b.index,
        a.timestamp == b.timestamp,
        a.previous_hash == b.previous_hash,
        a.nonce == b.nonce,
        a.transactions == b.transactions,
    ensures
        block_digest(a) == block_digest(b),
{
}

/// Relies on chrono::Utc::now: the current Unix timestamp in seconds.
/// Nothing is assumed of the value.
#[verifier::external_body]
pub(crate) fn now_timestamp() -> i64 {
    chrono::Utc::now().timestamp()
}

/// Decides whether the first `d` characters of `h` (as far as `h`
/// reaches) are all the zero digit.
fn has_leading_zeros(h: &str, d: u32) -> (r: bool)
    ensures
        r == meets_difficulty(h@, d as nat),
{
    let len = h.unicode_len();
    let bound: usize = if (d as usize) < len {
        d as usize
    } else {
        len
    };
    let mut i: usize = 0;
    while i < bound
        invariant
            i <= bound,
            bound <= len,
            bound <= d as nat,
            len == h@.len(),
            bound == if (d as nat) < len { d as nat } else { len as nat },
            forall|j: int| 0 <= j < i ==> h@[j] == '0',
        decreases bound - i,
    {
        if h.get_char(i) != '0' {
            return false;
        }
        i = i + 1;
    }
    true
}

impl Block {
    /// The digest of this block's content, recomputed from its fields;
    /// identical content always yields an identical digest.
    pub fn compute_hash(&self) -> (r: String)
        ensures
            r@ == block_digest(self@),
    {
        let mut s = String::new();
        let d = dec_u64_string(self.index);
        s.append(d.as_str());
        s.append(":");
        let t = dec_i64_string(self.timestamp);
        s.append(t.as_str());
        s.append(":");
        append_nstr(&mut s, self.previous_hash.as_str());
        s.append(":");
        let n = dec_u64_string(self.nonce);
        s.append(n.as_str());
        s.append(":");
        append_txs(&mut s, &self.transactions);
        proof {
            assert(s@ =~= block_preimage(
                self.index,
                self.timestamp,
                self.previous_hash@,
                self.nonce,
                txs_view(self.transactions@),
            ));
        }
        sha256_hex(s.as_str())
    }

    /// The genesis block: index 0, previous hash `"0"`, no transactions.
    /// Its timestamp is taken from the clock.
    pub fn genesis() -> (r: Block)
        ensures
            r.index == 0,
            r.previous_hash@ == "0"@,
            r.nonce == 0,
            r.transactions@.len() == 0,
            r@.hash == block_digest(r@),
    {
        let ts = now_timestamp();
        let mut b = Block {
            index: 0,
            timestamp: ts,
            previous_hash: String::from_str("0"),
            nonce: 0,
            hash: String::new(),
            transactions: Vec::new(),
        };
        b.hash = b.compute_hash();
        b
    }

    /// A fresh, not yet mined block with the given content and a clock
    /// timestamp; the cached hash is consistent from the start.
    pub fn new(index: u64, previous_hash: String, transactions: Vec<Transaction>) -> (r: Block)
        ensures
            r.index == index,
            r.previous_hash@ == previous_hash@,
            r.nonce == 0,
            txs_view(r.transactions@) == txs_view(transactions@),
            r@.hash == block_digest(r@),
    {
        let ts = now_timestamp();
        Block::new_with_timestamp(index, previous_hash, transactions, ts)
    }

    /// A fresh block with every field fixed by the caller; the
    /// template/submit protocol rebuilds blocks through this, so that
    /// the solver and the ledger hash exactly the same content.
    pub fn new_with_timestamp(
        index: u64,
        previous_hash: String,
        transactions: Vec<Transaction>,
        timestamp: i64,
    ) -> (r: Block)
        ensures
            r.index == index,
            r.timestamp == timestamp,
            r.previous_hash@ == previous_hash@,
            r.nonce == 0,
            txs_view(r.transactions@) == txs_view(transactions@),
            r@.hash == block_digest(r@),
    {
        let mut b = Block {
            index,
            timestamp,
            previous_hash,
            nonce: 0,
            hash: String::new(),
            transactions,
        };
        b.hash = b.compute_hash();
        b
    }

    /// Proof-of-work: walks the nonce space until the recomputed hash
    /// meets the difficulty.  Every other field is left as it was.  The
    /// search is exhaustive: if it comes back without a seal, no nonce
    /// at all yields one for this content.
    pub fn mine(&mut self, difficulty: u32)
        ensures
            final(self).index == old(self).index,
            final(self).timestamp == old(self).timestamp,
            final(self).previous_hash@ == old(self).previous_hash@,
            txs_view(final(self).transactions@) == txs_view(old(self).transactions@),
            final(self)@.hash == block_digest(final(self)@),
            meets_difficulty(final(self)@.hash, difficulty as nat) || (forall|m: u64|
                !meets_difficulty(
                    #[trigger] digest_with_nonce(final(self)@, m),
                    difficulty as nat,
                )),
    {
        let mut n: u64 = 0;
        while n < u64::MAX
            invariant
                self.index == old(self).index,
                self.timestamp == old(self).timestamp,
                self.previous_hash@ == old(self).previous_hash@,
                txs_view(self.transactions@) == txs_view(old(self).transactions@),
                forall|m: u64|
                    m < n ==> !meets_difficulty(
                        #[trigger] digest_with_nonce(old(self)@, m),
                        difficulty as nat,
                    ),
            decreases u64::MAX - n,
        {
            self.nonce = n;
            self.hash = self.compute_hash();
            if has_leading_zeros(self.hash.as_str(), difficulty) {
                return;
            }
            proof {
                assert(block_digest(self@) == digest_with_nonce(old(self)@, n));
            }
            n = n + 1;
        }
        self.nonce = n;
        self.hash = self.compute_hash();
        if has_leading_zeros(self.hash.as_str(), difficulty) {
            return;
        }
        proof {
            assert(block_digest(self@) == digest_with_nonce(old(self)@, n));
            assert forall|m: u64|
                !meets_difficulty(
                    #[trigger] digest_with_nonce(self@, m),
                    difficulty as nat,
                ) by {
                assert(digest_with_nonce(self@, m) == digest_with_nonce(old(self)@, m));
            }
        }
    }

    /// Whether the cached hash matches the block's content and meets
    /// the difficulty.  Chain linkage is not checked here.
    pub fn is_valid(&self, difficulty: u32) -> (r: bool)
        ensures
            r == block_valid(self@, difficulty),
    {
        let expected = self.compute_hash();
        if !self.hash.eq(&expected) {
            return false;
        }
        has_leading_zeros(self.hash.as_str(), difficulty)
    }
}

} // verus!
