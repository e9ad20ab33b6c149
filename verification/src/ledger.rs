//! The ledger context: the chain, the mempool, the UTXO set and the
//! template store, with the operations the protocol exposes —
//! transaction admission, the developer faucet, direct mining, and the
//! two-phase template/submit protocol that decouples hash search from
//! ledger mutation.
use vstd::prelude::*;

verus! {

use crate::block::{Block, BlockV, block_digest, block_valid, meets_difficulty};
use crate::chain::{Blockchain, ChainError, blocks_view, retargeted};
use crate::select::{select_transactions, selection_spec};
use crate::tx::{
    Transaction, TxInput, TxOutput, OutPoint, TxV, TxInV, OutPointV, TxOutV, txs_view,
    inputs_view, outputs_view, txid_of, clone_transactions,
};
use crate::utxo::{UtxoSet, with_tx_outputs};
use crate::validate::{ValidationError, validate_spec, validate_transaction};
use crate::BASE_REWARD;
use vstd::string::StrSliceExecFns;
use vstd::string::StringExecFns;

/// What the trimming of a string yields: the string without leading and
/// trailing whitespace.  A deterministic function of the characters
/// alone.
pub uninterp spec fn trim_of(s: Seq<char>) -> Seq<char>;

/// Relies on str::trim: the input without leading and trailing
/// whitespace, a function of the characters alone.
#[verifier::external_body]
fn trimmed(s: &str) -> (r: &str)
    ensures
        r@ == trim_of(s@),
{
    s.trim()
}

/// Relies on uuid::Uuid::new_v4 (and its Display rendering): a freshly
/// generated opaque identifier.  Nothing is assumed of the value.
#[verifier::external_body]
fn fresh_template_id() -> String {
    uuid::Uuid::new_v4().to_string()
}

/// Mathematical value of a stored mining template.
pub struct TemplateV {
    pub template_id: Seq<char>,
    pub index: u64,
    pub previous_hash: Seq<char>,
    pub timestamp: i64,
    pub difficulty: u32,
    pub miner_address: Seq<char>,
    pub transactions: Seq<TxV>,
}

/// An unmined candidate block handed to an external solver, kept under
/// a single-use identifier; the solver must reuse the recorded
/// timestamp, so the hash it finds matches what the ledger recomputes.
pub struct MiningTemplate {
    pub template_id: String,
    pub index: u64,
    pub previous_hash: String,
    pub timestamp: i64,
    pub difficulty: u32,
    pub miner_address: String,
    /// Coinbase first.
    pub transactions: Vec<Transaction>,
}

impl View for MiningTemplate {
    type V = TemplateV;

    open spec fn view(&self) -> TemplateV {
        TemplateV {
            template_id: self.template_id@,
            index: self.index,
            previous_hash: self.previous_hash@,
            timestamp: self.timestamp,
            difficulty: self.difficulty,
            miner_address: self.miner_address@,
            transactions: txs_view(self.transactions@),
        }
    }
}

/// The map a template entry list stands for.
pub open spec fn template_map_of(s: Seq<(String, MiningTemplate)>) -> Map<Seq<char>, TemplateV>
    decreases s.len(),
{
    if s.len() == 0 {
        Map::empty()
    } else {
        template_map_of(s.drop_last()).insert(s.last().0@, s.last().1@)
    }
}

/// Pairwise distinct template identifiers.
pub open spec fn distinct_ids(s: Seq<(String, MiningTemplate)>) -> bool {
    forall|i: int, j: int|
        0 <= i < j < s.len() ==> (#[trigger] s[i]).0@ != (#[trigger] s[j]).0@
}

proof fn lemma_tmap_contains(s: Seq<(String, MiningTemplate)>, k: Seq<char>)
    ensures
        template_map_of(s).contains_key(k) <==> exists|i: int|
            0 <= i < s.len() && (#[trigger] s[i]).0@ == k,
    decreases s.len(),
{
    if s.len() > 0 {
        lemma_tmap_contains(s.drop_last(), k);
        if template_map_of(s).contains_key(k) {
            if s.last().0@ == k {
                assert(s[s.len() - 1].0@ == k);
            } else {
                let i = choose|i: int|
                    0 <= i < s.drop_last().len() && (#[trigger] s.drop_last()[i]).0@ == k;
                assert(s[i].0@ == k);
            }
        }
        if exists|i: int| 0 <= i < s.len() && (#[trigger] s[i]).0@ == k {
            let i = choose|i: int| 0 <= i < s.len() && (#[trigger] s[i]).0@ == k;
            if i < s.len() - 1 {
                assert(s.drop_last()[i].0@ == k);
            }
        }
    }
}

proof fn lemma_tmap_value(s: Seq<(String, MiningTemplate)>, i: int)
    requires
        distinct_ids(s),
        0 <= i < s.len(),
    ensures
        template_map_of(s).contains_key(s[i].0@),
        template_map_of(s)[s[i].0@] == s[i].1@,
    decreases s.len(),
{
    if i == s.len() - 1 {
    } else {
        lemma_tmap_value(s.drop_last(), i);
        assert(s.drop_last()[i] == s[i]);
        assert(s[i].0@ != s.last().0@);
    }
}

proof fn lemma_tmap_remove(s: Seq<(String, MiningTemplate)>, i: int)
    requires
        distinct_ids(s),
        0 <= i < s.len(),
    ensures
        template_map_of(s.remove(i)) =~= template_map_of(s).remove(s[i].0@),
    decreases s.len(),
{
    lemma_tmap_value(s, i);
    if i == s.len() - 1 {
        assert(s.remove(i) =~= s.drop_last());
        lemma_tmap_contains(s.drop_last(), s[i].0@);
        assert(forall|j: int|
            0 <= j < s.drop_last().len() ==> (#[trigger] s.drop_last()[j]).0@ != s[i].0@);
        assert(!template_map_of(s.drop_last()).contains_key(s[i].0@));
        assert(template_map_of(s.drop_last()).remove(s[i].0@) =~= template_map_of(s.drop_last()));
        assert(template_map_of(s).remove(s[i].0@) =~= template_map_of(s.drop_last()));
    } else {
        lemma_tmap_remove(s.drop_last(), i);
        assert(s.remove(i).drop_last() =~= s.drop_last().remove(i));
        assert(s.remove(i).last() == s.last());
        assert(s[i].0@ != s.last().0@);
    }
}

/// The store of issued, not yet consumed templates, keyed by their
/// single-use identifiers.
pub struct TemplateStore {
    entries: Vec<(String, MiningTemplate)>,
}

impl View for TemplateStore {
    type V = Map<Seq<char>, TemplateV>;

    closed spec fn view(&self) -> Map<Seq<char>, TemplateV> {
        template_map_of(self.entries@)
    }
}

impl TemplateStore {
    /// Identifiers are unique; every operation preserves this.
    pub closed spec fn wf(&self) -> bool {
        distinct_ids(self.entries@)
    }

    /// An empty store.
    pub fn new() -> (r: TemplateStore)
        ensures
            r.wf(),
            r@ == Map::<Seq<char>, TemplateV>::empty(),
    {
        TemplateStore { entries: Vec::new() }
    }

    fn find(&self, id: &str) -> (r: Option<usize>)
        ensures
            match r {
                Some(i) => i < self.entries@.len() && self.entries@[i as int].0@ == id@,
                None => forall|i: int|
                    0 <= i < self.entries@.len() ==> (#[trigger] self.entries@[i]).0@ != id@,
            },
    {
        let mut i: usize = 0;
        while i < self.entries.len()
            invariant
                i <= self.entries@.len(),
                forall|j: int| 0 <= j < i ==> (#[trigger] self.entries@[j]).0@ != id@,
            decreases self.entries@.len() - i,
        {
            if crate::encode::str_eq(self.entries[i].0.as_str(), id) {
                return Some(i);
            }
            i = i + 1;
        }
        None
    }

    /// Stores a template under its identifier (replacing any template
    /// already stored under it).
    pub fn insert(&mut self, id: String, t: MiningTemplate)
        requires
            old(self).wf(),
        ensures
            final(self).wf(),
            final(self)@ == old(self)@.insert(id@, t@),
    {
        let ghost pre = self.entries@;
        match self.find(id.as_str()) {
            Some(i) => {
                proof {
                    lemma_tmap_remove(pre, i as int);
                }
                let _ = self.entries.remove(i);
                proof {
                    assert(distinct_ids(self.entries@));
                    assert(forall|j: int|
                        0 <= j < self.entries@.len() ==> (#[trigger] self.entries@[j]).0@
                            != id@) by {
                        assert(forall|j: int|
                            0 <= j < self.entries@.len() ==> #[trigger] self.entries@[j] == (if j
                                < i as int {
                                pre[j]
                            } else {
                                pre[j + 1]
                            }));
                    }
                }
                let ghost removed = self.entries@;
                self.entries.push((id, t));
                proof {
                    assert(distinct_ids(self.entries@));
                    assert(self.entries@.drop_last() =~= removed);
                    assert(self@ =~= old(self)@.insert(
                        self.entries@.last().0@,
                        self.entries@.last().1@,
                    ));
                }
            },
            None => {
                self.entries.push((id, t));
                proof {
                    assert(distinct_ids(self.entries@));
                    assert(self.entries@.drop_last() =~= pre);
                    assert(self@ =~= old(self)@.insert(
                        self.entries@.last().0@,
                        self.entries@.last().1@,
                    ));
                }
            },
        }
    }

    /// Consumes the template stored under `id`: a template is removed
    /// by the same step that reads it, so it can never be applied
    /// twice.
    pub fn take(&mut self, id: &str) -> (r: Option<MiningTemplate>)
        requires
            old(self).wf(),
        ensures
            final(self).wf(),
            match r {
                Some(t) => old(self)@.contains_key(id@) && t@ == old(self)@[id@] && final(self)@
                    == old(self)@.remove(id@),
                None => !old(self)@.contains_key(id@) && *final(self) == *old(self),
            },
    {
        proof {
            lemma_tmap_contains(self.entries@, id@);
        }
        match self.find(id) {
            Some(i) => {
                proof {
                    lemma_tmap_value(self.entries@, i as int);
                    lemma_tmap_remove(self.entries@, i as int);
                }
                let e = self.entries.remove(i);
                proof {
                    assert(distinct_ids(self.entries@));
                }
                Some(e.1)
            },
            None => None,
        }
    }
}

// ------------------------------------------------------------------
// Request and response shapes of the protocol.
// ------------------------------------------------------------------

/// A request for mining work.
pub struct TemplateRequest {
    pub miner_address: String,
}

/// An issued template, as handed to the solver: the identifier to
/// submit against, the unmined block content, and the timestamp the
/// solver must reuse.
#[derive(Debug, PartialEq, Eq)]
pub struct TemplateResponse {
    pub template_id: String,
    pub index: u64,
    pub previous_hash: String,
    pub timestamp: i64,
    pub difficulty: u32,
    /// Coinbase first.
    pub transactions: Vec<Transaction>,
}

/// A solved template: the identifier, the nonce found, and the hash the
/// solver claims for it.
pub struct SubmitRequest {
    pub template_id: String,
    pub nonce: u64,
    pub hash: String,
}

/// The outcome of a submission that was accepted.
#[derive(Debug, PartialEq, Eq)]
pub struct SubmitResponse {
    pub accepted: bool,
    pub mined_index: Option<u64>,
    pub hash: Option<String>,
    pub difficulty: Option<u32>,
}

/// A request to mine directly over the current mempool.
pub struct MineRequest {
    pub miner_address: String,
}

/// The block sealed by a direct mining request.
#[derive(Debug, PartialEq, Eq)]
pub struct MineResponse {
    pub mined_index: u64,
    pub hash: String,
    pub nonce: u64,
    pub difficulty: u32,
}

/// The current difficulty.
#[derive(Debug, PartialEq, Eq)]
pub struct DifficultyResponse {
    pub difficulty: u32,
}

/// A request to change the difficulty of future blocks.
pub struct SetDifficultyRequest {
    pub difficulty: u32,
}

/// A submitted transfer: inputs and outputs; the ledger derives the
/// identifier.
pub struct NewTxRequest {
    pub inputs: Vec<TxInput>,
    pub outputs: Vec<TxOutput>,
}

/// The identifier of an admitted transaction.
#[derive(Debug, PartialEq, Eq)]
pub struct NewTxResponse {
    pub txid: String,
}

/// The unconfirmed transactions, by identifier.
#[derive(Debug, PartialEq, Eq)]
pub struct MempoolResponse {
    pub size: usize,
    pub transactions: Vec<String>,
}

/// A request to mint a spendable output directly.
pub struct FaucetRequest {
    pub address: String,
    pub amount: u64,
}

/// The outpoint a faucet request created.
#[derive(Debug, PartialEq, Eq)]
pub struct FaucetResponse {
    pub txid: String,
    pub outpoints: Vec<OutPoint>,
}

/// The verdict of whole-chain validation.
#[derive(Debug, PartialEq, Eq)]
pub struct ValidateResponse {
    pub valid: bool,
    pub length: usize,
    pub difficulty: u32,
}

/// The spendable value an address owns.
#[derive(Debug, PartialEq, Eq)]
pub struct BalanceResponse {
    pub address: String,
    pub balance: u128,
    pub utxos: usize,
}

// ------------------------------------------------------------------
// Errors of the protocol.
// ------------------------------------------------------------------

/// Why a submitted transaction was not admitted to the mempool.
#[derive(Debug, Clone, Copy, PartialEq, Eq)]
pub enum AdmitError {
    /// No outputs at all.
    NoOutputs,
    /// An output of amount zero.
    ZeroAmountOutput,
    /// The validator refused it.
    Rejected(ValidationError),
}

/// Why a faucet request was refused.
#[derive(Debug, Clone, Copy, PartialEq, Eq)]
pub enum FaucetError {
    /// The amount must be positive.
    ZeroAmount,
}

/// Why a difficulty change was refused.
#[derive(Debug, Clone, Copy, PartialEq, Eq)]
pub enum DifficultyError {
    /// Above the configured maximum.
    TooHigh,
}

/// Why a mining request or submission failed.  A failed submission has
/// already consumed its template; the caller must request a new one.
#[derive(Debug, Clone, Copy, PartialEq, Eq)]
pub enum MiningError {
    /// The miner address is blank.
    MinerAddressRequired,
    /// No template is stored under this identifier (possibly consumed
    /// by an earlier submission).
    UnknownTemplate,
    /// The chain head no longer matches the template.
    StaleTemplate,
    /// The recomputed hash differs from the one the solver claimed.
    HashMismatch,
    /// The hash does not meet the chain's current difficulty.
    InsufficientWork,
}

// ------------------------------------------------------------------
// The outcomes and effects of the flows, as functions of the state.
// ------------------------------------------------------------------

/// Some output declares amount zero.
pub open spec fn has_zero_output(outs: Seq<TxOutV>) -> bool {
    exists|i: int| 0 <= i < outs.len() && (#[trigger] outs[i]).amount == 0
}

/// The admission verdict on a submitted transfer: it must have outputs,
/// none of amount zero, and pass validation against the UTXO snapshot.
pub open spec fn admit_outcome(
    inputs: Seq<TxInV>,
    outputs: Seq<TxOutV>,
    u: Map<OutPointV, TxOutV>,
) -> Result<(), AdmitError> {
    if outputs.len() == 0 {
        Err(AdmitError::NoOutputs)
    } else if has_zero_output(outputs) {
        Err(AdmitError::ZeroAmountOutput)
    } else {
        match validate_spec(
            TxV { txid: txid_of(inputs, outputs), inputs, outputs },
            u,
        ) {
            Ok(_) => Ok(()),
            Err(e) => Err(AdmitError::Rejected(e)),
        }
    }
}

/// `m` with the outpoints of the first `n` inputs removed.
pub open spec fn without_inputs_upto(
    m: Map<OutPointV, TxOutV>,
    inputs: Seq<TxInV>,
    n: int,
) -> Map<OutPointV, TxOutV>
    decreases n,
{
    if n <= 0 {
        m
    } else {
        without_inputs_upto(m, inputs, n - 1).remove(inputs[n - 1].outpoint)
    }
}

/// `m` with everything `t` spends removed.
pub open spec fn without_tx_inputs(m: Map<OutPointV, TxOutV>, t: TxV) -> Map<OutPointV, TxOutV> {
    without_inputs_upto(m, t.inputs, t.inputs.len() as int)
}

/// `m` after the non-coinbase transactions among the first `n` have
/// spent their inputs.
pub open spec fn spends_applied(m: Map<OutPointV, TxOutV>, txs: Seq<TxV>, n: int) -> Map<
    OutPointV,
    TxOutV,
>
    decreases n,
{
    if n <= 1 {
        m
    } else {
        without_tx_inputs(spends_applied(m, txs, n - 1), txs[n - 1])
    }
}

/// `m` after the non-coinbase transactions among the first `n` have
/// added their outputs.
pub open spec fn outputs_applied(m: Map<OutPointV, TxOutV>, txs: Seq<TxV>, n: int) -> Map<
    OutPointV,
    TxOutV,
>
    decreases n,
{
    if n <= 1 {
        m
    } else {
        with_tx_outputs(outputs_applied(m, txs, n - 1), txs[n - 1])
    }
}

/// The UTXO set after a confirmed block of transactions (coinbase
/// first) is applied: the non-coinbase transactions spend their inputs
/// and add their outputs, then the coinbase adds its outputs.
pub open spec fn block_applied(m: Map<OutPointV, TxOutV>, txs: Seq<TxV>) -> Map<
    OutPointV,
    TxOutV,
> {
    if txs.len() == 0 {
        m
    } else {
        with_tx_outputs(
            outputs_applied(spends_applied(m, txs, txs.len() as int), txs, txs.len() as int),
            txs[0],
        )
    }
}

/// Whether a non-coinbase transaction of the block carries this
/// identifier.
pub open spec fn included_txid(txs: Seq<TxV>, id: Seq<char>) -> bool {
    exists|i: int| 1 <= i < txs.len() && (#[trigger] txs[i]).txid == id
}

/// The mempool after a block of transactions is confirmed: everything
/// the block included is gone, by identifier.
pub open spec fn mempool_after(mempool: Seq<TxV>, txs: Seq<TxV>) -> Seq<TxV> {
    mempool.filter(|t: TxV| !included_txid(txs, t.txid))
}

/// The fee total a coinbase may carry, capped so that adding the base
/// reward cannot overflow the amount type.
pub open spec fn capped_fee(fees: int) -> int {
    if fees > u64::MAX - BASE_REWARD {
        u64::MAX - BASE_REWARD
    } else {
        fees
    }
}

/// The coinbase transaction paying `addr` the base reward plus `fees`
/// (capped).
pub open spec fn coinbase_view(addr: Seq<char>, fees: int) -> TxV {
    let outs = seq![
        TxOutV { address: addr, amount: (BASE_REWARD + capped_fee(fees)) as u64 },
    ];
    TxV { txid: txid_of(Seq::empty(), outs), inputs: Seq::empty(), outputs: outs }
}

/// The transactions a block assembled from this state carries: the
/// coinbase first, then the selection.
pub open spec fn template_txs(mempool: Seq<TxV>, u: Map<OutPointV, TxOutV>, addr: Seq<char>) -> Seq<
    TxV,
> {
    let sel = selection_spec(mempool, u);
    seq![coinbase_view(addr, sel.1)] + sel.0.map_values(|i: int| mempool[i])
}

/// The digest a template's content has under `nonce`.
pub open spec fn rebuilt_digest(t: TemplateV, nonce: u64) -> Seq<char> {
    block_digest(
        BlockV {
            index: t.index,
            timestamp: t.timestamp,
            previous_hash: t.previous_hash,
            nonce,
            hash: Seq::empty(),
            transactions: t.transactions,
        },
    )
}

/// The verdict on a submitted solution, from the template store, the
/// chain head and the current difficulty: the template must exist (it
/// is consumed either way), still link to the head, hash to what the
/// solver claimed, and meet the current difficulty.
pub open spec fn submit_outcome(
    templates: Map<Seq<char>, TemplateV>,
    head_hash: Seq<char>,
    difficulty: u32,
    id: Seq<char>,
    nonce: u64,
    claimed: Seq<char>,
) -> Result<(), MiningError> {
    if !templates.contains_key(id) {
        Err(MiningError::UnknownTemplate)
    } else {
        let t = templates[id];
        if t.previous_hash != head_hash {
            Err(MiningError::StaleTemplate)
        } else {
            let d = rebuilt_digest(t, nonce);
            if d != claimed {
                Err(MiningError::HashMismatch)
            } else if !meets_difficulty(d, difficulty as nat) {
                Err(MiningError::InsufficientWork)
            } else {
                Ok(())
            }
        }
    }
}

/// Mining-template staleness: once the chain head no longer matches a
/// template's recorded previous hash, a submission against it fails
/// with the stale-template error, whatever nonce and hash the solver
/// supplies.
pub proof fn lemma_stale_template_rejected(
    templates: Map<Seq<char>, TemplateV>,
    head_hash: Seq<char>,
    difficulty: u32,
    id: Seq<char>,
    nonce: u64,
    claimed: Seq<char>,
)
    ensures
        templates.contains_key(id) && templates[id].previous_hash != head_hash ==> submit_outcome(
            templates,
            head_hash,
            difficulty,
            id,
            nonce,
            claimed,
        ) == Err::<(), MiningError>(MiningError::StaleTemplate),
{
}

/// Whether a non-coinbase transaction of `txs` carries `t`'s
/// identifier.
fn is_included(t: &Transaction, txs: &Vec<Transaction>) -> (r: bool)
    ensures
        r == included_txid(txs_view(txs@), t@.txid),
{
    let mut j: usize = 1;
    while j < txs.len()
        invariant
            1 <= j <= txs@.len() || (txs@.len() < 1 && j == 1),
            forall|q: int| 1 <= q < j ==> (#[trigger] txs_view(txs@)[q]).txid != t@.txid,
        decreases txs@.len() - j,
    {
        proof {
            assert(txs_view(txs@)[j as int] == txs@[j as int]@);
        }
        if crate::encode::str_eq(txs[j].txid.as_str(), t.txid.as_str()) {
            proof {
                assert(txs_view(txs@)[j as int].txid == t@.txid);
            }
            return true;
        }
        j = j + 1;
    }
    false
}

/// Applies a confirmed block of transactions (coinbase first) to the
/// UTXO set, and removes everything it included from the mempool.
fn apply_confirmed(utxo: &mut UtxoSet, mempool: &mut Vec<Transaction>, txs: &Vec<Transaction>)
    requires
        old(utxo).wf(),
    ensures
        final(utxo).wf(),
        final(utxo)@ == block_applied(old(utxo)@, txs_view(txs@)),
        txs_view(final(mempool)@) == mempool_after(txs_view(old(mempool)@), txs_view(txs@)),
{
    let ghost u0 = utxo@;
    let ghost tv = txs_view(txs@);
    if txs.len() > 0 {
        // Non-coinbase transactions spend their inputs.
        let mut ti: usize = 1;
        while ti < txs.len()
            invariant
                1 <= ti <= tv.len(),
                tv == txs_view(txs@),
                utxo.wf(),
                utxo@ == spends_applied(u0, tv, ti as int),
            decreases tv.len() - ti,
        {
            let t = &txs[ti];
            proof {
                assert(t@ == tv[ti as int]);
            }
            let ghost m0 = utxo@;
            let mut ii: usize = 0;
            while ii < t.inputs.len()
                invariant
                    ii <= t@.inputs.len(),
                    utxo.wf(),
                    utxo@ == without_inputs_upto(m0, t@.inputs, ii as int),
                decreases t@.inputs.len() - ii,
            {
                let ghost before = utxo@;
                let spent = utxo.spend(&t.inputs[ii].outpoint);
                proof {
                    assert(t@.inputs[ii as int] == t.inputs@[ii as int]@);
                    if spent is None {
                        assert(utxo@ =~= before.remove(t@.inputs[ii as int].outpoint));
                    }
                    assert(utxo@ == without_inputs_upto(m0, t@.inputs, ii + 1));
                }
                ii = ii + 1;
            }
            proof {
                assert(utxo@ == without_tx_inputs(m0, tv[ti as int]));
                assert(utxo@ == spends_applied(u0, tv, ti + 1));
            }
            ti = ti + 1;
        }
        let ghost spent_all = utxo@;
        proof {
            assert(spent_all == spends_applied(u0, tv, tv.len() as int));
        }
        // Non-coinbase transactions add their outputs.
        let mut to: usize = 1;
        while to < txs.len()
            invariant
                1 <= to <= tv.len(),
                tv == txs_view(txs@),
                utxo.wf(),
                utxo@ == outputs_applied(spent_all, tv, to as int),
            decreases tv.len() - to,
        {
            proof {
                assert(txs@[to as int]@ == tv[to as int]);
            }
            utxo.add_tx_outputs(&txs[to]);
            proof {
                assert(utxo@ == outputs_applied(spent_all, tv, to + 1));
            }
            to = to + 1;
        }
        // The coinbase adds its outputs.
        proof {
            assert(txs@[0]@ == tv[0]);
        }
        utxo.add_tx_outputs(&txs[0]);
        proof {
            assert(utxo@ == block_applied(u0, tv));
        }
    }
    // Everything the block included leaves the mempool, by identifier.
    let ghost mv = txs_view(mempool@);
    let mut kept: Vec<Transaction> = Vec::new();
    proof {
        reveal(Seq::filter);
        assert(txs_view(kept@) =~= Seq::<TxV>::empty());
        assert(mv.take(0) =~= Seq::<TxV>::empty());
    }
    let mut mi: usize = 0;
    while mi < mempool.len()
        invariant
            mi <= mv.len(),
            mv == txs_view(mempool@),
            tv == txs_view(txs@),
            txs_view(kept@) == mempool_after(mv.take(mi as int), tv),
        decreases mv.len() - mi,
    {
        proof {
            reveal(Seq::filter);
            assert(mempool@[mi as int]@ == mv[mi as int]);
            assert(mv.take(mi + 1 as int).drop_last() =~= mv.take(mi as int));
            assert(mv.take(mi + 1 as int).last() == mv[mi as int]);
        }
        if !is_included(&mempool[mi], txs) {
            kept.push(mempool[mi].clone());
            proof {
                assert(txs_view(kept@) =~= mempool_after(mv.take(mi as int), tv).push(
                    mv[mi as int],
                ));
                assert(txs_view(kept@) == mempool_after(mv.take(mi + 1 as int), tv));
            }
        } else {
            proof {
                assert(txs_view(kept@) == mempool_after(mv.take(mi + 1 as int), tv));
            }
        }
        mi = mi + 1;
    }
    proof {
        reveal(Seq::filter);
        assert(mv.take(mv.len() as int) =~= mv);
    }
    *mempool = kept;
}

/// The ledger context: the four independently owned containers and the
/// operations of the protocol.  Every failure leaves the shared state
/// unmodified, except that a submission always consumes its template.
pub struct Ledger {
    pub chain: Blockchain,
    pub mempool: Vec<Transaction>,
    pub utxo: UtxoSet,
    pub templates: TemplateStore,
}

impl Ledger {
    /// The containers are well formed.
    pub open spec fn wf(&self) -> bool {
        self.chain.wf() && self.utxo.wf() && self.templates.wf()
    }

    /// A fresh ledger: a genesis-only chain at the given difficulty,
    /// and empty mempool, UTXO set and template store.
    pub fn new(difficulty: u32) -> (r: Ledger)
        ensures
            r.wf(),
            r.chain.chain@.len() == 1,
            r.chain.difficulty == difficulty,
            crate::chain::chain_valid(blocks_view(r.chain.chain@), difficulty),
            r.mempool@.len() == 0,
            r.utxo@ == Map::<OutPointV, TxOutV>::empty(),
            r.templates@ == Map::<Seq<char>, TemplateV>::empty(),
    {
        Ledger {
            chain: Blockchain::new(difficulty),
            mempool: Vec::new(),
            utxo: UtxoSet::new(),
            templates: TemplateStore::new(),
        }
    }

    /// Admits a submitted transfer to the mempool: it must declare
    /// outputs, none of amount zero, and validate against the current
    /// UTXO set.  On success the built transaction (with its derived
    /// identifier) joins the mempool; on failure nothing changes.
    pub fn submit_transaction(&mut self, inputs: Vec<TxInput>, outputs: Vec<TxOutput>) -> (r:
        Result<NewTxResponse, AdmitError>)
        requires
            old(self).wf(),
        ensures
            final(self).wf(),
            final(self).chain == old(self).chain,
            final(self).utxo == old(self).utxo,
            final(self).templates == old(self).templates,
            match r {
                Ok(resp) => {
                    &&& admit_outcome(inputs_view(inputs@), outputs_view(outputs@), old(self).utxo@)
                        == Ok::<(), AdmitError>(())
                    &&& resp.txid@ == txid_of(inputs_view(inputs@), outputs_view(outputs@))
                    &&& txs_view(final(self).mempool@) == txs_view(old(self).mempool@).push(
                        TxV {
                            txid: txid_of(inputs_view(inputs@), outputs_view(outputs@)),
                            inputs: inputs_view(inputs@),
                            outputs: outputs_view(outputs@),
                        },
                    )
                },
                Err(e) => {
                    &&& admit_outcome(inputs_view(inputs@), outputs_view(outputs@), old(self).utxo@)
                        == Err::<(), AdmitError>(e)
                    &&& final(self).mempool == old(self).mempool
                },
            },
    {
        let ghost iv = inputs_view(inputs@);
        let ghost ov = outputs_view(outputs@);
        if outputs.len() == 0 {
            return Err(AdmitError::NoOutputs);
        }
        let mut i: usize = 0;
        while i < outputs.len()
            invariant
                i <= ov.len(),
                ov == outputs_view(outputs@),
                *self == *old(self),
                old(self).wf(),
                ov.len() > 0,
                forall|j: int| 0 <= j < i ==> (#[trigger] ov[j]).amount != 0,
            decreases ov.len() - i,
        {
            if outputs[i].amount == 0 {
                proof {
                    assert(ov[i as int].amount == 0);
                    assert(has_zero_output(ov));
                }
                return Err(AdmitError::ZeroAmountOutput);
            }
            proof {
                assert(ov[i as int] == outputs@[i as int]@);
            }
            i = i + 1;
        }
        proof {
            assert(!has_zero_output(ov));
        }
        let tx = Transaction::new(inputs, outputs);
        proof {
            assert(tx@ == TxV { txid: txid_of(iv, ov), inputs: iv, outputs: ov });
        }
        match validate_transaction(&tx, &self.utxo) {
            Ok(_) => {},
            Err(e) => {
                return Err(AdmitError::Rejected(e));
            },
        }
        let txid = tx.txid.clone();
        let ghost pre = self.mempool@;
        self.mempool.push(tx);
        proof {
            assert(txs_view(self.mempool@) =~= txs_view(pre).push(
                TxV { txid: txid_of(iv, ov), inputs: iv, outputs: ov },
            ));
        }
        Ok(NewTxResponse { txid })
    }

    /// The current mempool, as identifiers.
    pub fn mempool_snapshot(&self) -> (r: MempoolResponse)
        ensures
            r.size == self.mempool@.len(),
            r.transactions@.len() == self.mempool@.len(),
            forall|i: int|
                0 <= i < self.mempool@.len() ==> (#[trigger] r.transactions@[i])@
                    == self.mempool@[i]@.txid,
    {
        let mut ids: Vec<String> = Vec::new();
        let mut i: usize = 0;
        while i < self.mempool.len()
            invariant
                i <= self.mempool@.len(),
                ids@.len() == i,
                forall|j: int|
                    0 <= j < i ==> (#[trigger] ids@[j])@ == self.mempool@[j]@.txid,
            decreases self.mempool@.len() - i,
        {
            ids.push(self.mempool[i].txid.clone());
            i = i + 1;
        }
        MempoolResponse { size: self.mempool.len(), transactions: ids }
    }

    /// Developer faucet: mints a spendable output directly into the
    /// UTXO set, bypassing mempool and chain.  The output is recorded
    /// under a coinbase-shaped transaction's identifier at position 0.
    pub fn faucet(&mut self, address: String, amount: u64) -> (r: Result<
        FaucetResponse,
        FaucetError,
    >)
        requires
            old(self).wf(),
        ensures
            final(self).wf(),
            final(self).chain == old(self).chain,
            final(self).mempool == old(self).mempool,
            final(self).templates == old(self).templates,
            match r {
                Ok(resp) => {
                    let outs = seq![TxOutV { address: address@, amount }];
                    let id = txid_of(Seq::empty(), outs);
                    &&& amount != 0
                    &&& resp.txid@ == id
                    &&& resp.outpoints@.len() == 1
                    &&& resp.outpoints@[0]@ == OutPointV { txid: id, vout: 0 }
                    &&& final(self).utxo@ == old(self).utxo@.insert(
                        OutPointV { txid: id, vout: 0 },
                        TxOutV { address: address@, amount },
                    )
                },
                Err(e) => e == FaucetError::ZeroAmount && amount == 0 && final(self).utxo == old(
                    self,
                ).utxo,
            },
    {
        if amount == 0 {
            return Err(FaucetError::ZeroAmount);
        }
        let ghost addrv = address@;
        let mut outs: Vec<TxOutput> = Vec::new();
        outs.push(TxOutput { address, amount });
        proof {
            assert(outputs_view(outs@) =~= seq![TxOutV { address: addrv, amount }]);
            assert(inputs_view(Seq::<TxInput>::empty()) =~= Seq::<TxInV>::empty());
        }
        let tx = Transaction::new(Vec::new(), outs);
        proof {
            assert(inputs_view(tx.inputs@).len() == 0);
        }
        let outpoint = OutPoint { txid: tx.txid.clone(), vout: 0 };
        let output = tx.outputs[0].clone();
        self.utxo.insert(outpoint.clone(), output);
        let mut outpoints: Vec<OutPoint> = Vec::new();
        outpoints.push(outpoint);
        Ok(FaucetResponse { txid: tx.txid, outpoints })
    }

    /// The spendable value an address owns, with the entry count.
    pub fn balance(&self, address: String) -> (r: BalanceResponse)
        requires
            self.wf(),
        ensures
            r.address@ == address@,
            r.balance as int == crate::utxo::address_funds(self.utxo.entries_seq(), address@),
            r.utxos as int == crate::utxo::address_utxo_count(self.utxo.entries_seq(), address@),
    {
        let entries = self.utxo.iter();
        let (balance, utxos) = crate::utxo::address_balance(entries, address.as_str());
        BalanceResponse { address, balance, utxos }
    }

    /// Sets the difficulty of blocks not yet mined; refuses anything
    /// above the configured maximum.
    pub fn set_difficulty(&mut self, difficulty: u32) -> (r: Result<
        DifficultyResponse,
        DifficultyError,
    >)
        ensures
            final(self).mempool == old(self).mempool,
            final(self).utxo == old(self).utxo,
            final(self).templates == old(self).templates,
            final(self).chain.chain == old(self).chain.chain,
            match r {
                Ok(resp) => difficulty <= crate::DIFF_MAX && resp.difficulty == difficulty
                    && final(self).chain.difficulty == difficulty,
                Err(e) => e == DifficultyError::TooHigh && difficulty > crate::DIFF_MAX
                    && final(self).chain.difficulty == old(self).chain.difficulty,
            },
    {
        if difficulty > crate::DIFF_MAX {
            return Err(DifficultyError::TooHigh);
        }
        self.chain.set_difficulty(difficulty);
        Ok(DifficultyResponse { difficulty })
    }

    /// Whole-chain validation at the current difficulty.
    pub fn validate_chain(&self) -> (r: ValidateResponse)
        ensures
            r.valid == crate::chain::chain_valid(blocks_view(self.chain.chain@), self.chain.difficulty),
            r.length == self.chain.chain@.len(),
            r.difficulty == self.chain.difficulty,
    {
        ValidateResponse {
            valid: self.chain.is_valid_chain(),
            length: self.chain.len(),
            difficulty: self.chain.difficulty(),
        }
    }

    /// Assembles the transactions of a candidate block for `miner`
    /// (already trimmed, not blank): the coinbase paying the base
    /// reward plus the selection's fees, then the selected
    /// transactions.
    fn assemble_block_txs(&self, miner: &str) -> (r: Vec<Transaction>)
        requires
            self.wf(),
        ensures
            txs_view(r@) == template_txs(txs_view(self.mempool@), self.utxo@, miner@),
    {
        let ghost mv = txs_view(self.mempool@);
        let ghost u = self.utxo@;
        let (selected, total_fees) = select_transactions(&self.mempool, &self.utxo);
        let cap: u128 = ((u64::MAX - BASE_REWARD) as u128);
        let fees64: u64 = if total_fees > cap {
            u64::MAX - BASE_REWARD
        } else {
            total_fees as u64
        };
        let coinbase_amount: u64 = BASE_REWARD + fees64;
        proof {
            assert(coinbase_amount as int == BASE_REWARD + capped_fee(selection_spec(mv, u).1));
        }
        let mut outs: Vec<TxOutput> = Vec::new();
        outs.push(TxOutput { address: String::from_str(miner), amount: coinbase_amount });
        proof {
            assert(outputs_view(outs@) =~= coinbase_view(miner@, selection_spec(mv, u).1).outputs);
            assert(inputs_view(Seq::<TxInput>::empty()) =~= Seq::<TxInV>::empty());
        }
        let coinbase = Transaction::new(Vec::new(), outs);
        proof {
            assert(inputs_view(coinbase.inputs@) =~= Seq::<TxInV>::empty());
            assert(coinbase@ == coinbase_view(miner@, selection_spec(mv, u).1));
        }
        let mut txs: Vec<Transaction> = Vec::new();
        txs.push(coinbase);
        let mut selected = selected;
        txs.append(&mut selected);
        proof {
            assert forall|i: int|
                0 <= i < txs_view(txs@).len() implies #[trigger] txs_view(txs@)[i] == template_txs(
                mv,
                u,
                miner@,
            )[i] by {
                assert(txs_view(txs@)[i] == txs@[i]@);
                if i > 0 {
                    assert(txs@[i]@ == mv[selection_spec(mv, u).0[i - 1]]);
                    assert(selection_spec(mv, u).0.map_values(|q: int| mv[q])[i - 1] == mv[
                        selection_spec(mv, u).0[i - 1]]);
                }
            }
            assert(txs_view(txs@) =~= template_txs(mv, u, miner@));
        }
        txs
    }

    /// Issues a mining template: a snapshot of the head, a selection
    /// over the current mempool and UTXO set, a coinbase paying the
    /// miner, and one fixed timestamp the solver must reuse; the
    /// template is stored under a fresh single-use identifier.  Fails
    /// exactly when the miner address is blank, and then changes
    /// nothing.
    pub fn request_template(&mut self, miner_address: &str) -> (r: Result<
        TemplateResponse,
        MiningError,
    >)
        requires
            old(self).wf(),
        ensures
            final(self).wf(),
            final(self).chain == old(self).chain,
            final(self).mempool == old(self).mempool,
            final(self).utxo == old(self).utxo,
            match r {
                Ok(resp) => {
                    &&& trim_of(miner_address@).len() > 0
                    &&& resp.index == old(self).chain.chain@.len()
                    &&& resp.previous_hash@ == old(self).chain.chain@.last()@.hash
                    &&& resp.difficulty == old(self).chain.difficulty
                    &&& txs_view(resp.transactions@) == template_txs(
                        txs_view(old(self).mempool@),
                        old(self).utxo@,
                        trim_of(miner_address@),
                    )
                    &&& final(self).templates@ == old(self).templates@.insert(
                        resp.template_id@,
                        TemplateV {
                            template_id: resp.template_id@,
                            index: resp.index,
                            previous_hash: resp.previous_hash@,
                            timestamp: resp.timestamp,
                            difficulty: resp.difficulty,
                            miner_address: trim_of(miner_address@),
                            transactions: txs_view(resp.transactions@),
                        },
                    )
                },
                Err(e) => {
                    &&& e == MiningError::MinerAddressRequired
                    &&& trim_of(miner_address@).len() == 0
                    &&& final(self).templates == old(self).templates
                },
            },
    {
        let miner = trimmed(miner_address);
        if miner.is_empty() {
            return Err(MiningError::MinerAddressRequired);
        }
        let index = self.chain.len() as u64;
        let previous_hash = self.chain.last_block().hash.clone();
        let difficulty = self.chain.difficulty();
        let txs = self.assemble_block_txs(miner);
        let timestamp = crate::block::now_timestamp();
        let template_id = fresh_template_id();
        let template = MiningTemplate {
            template_id: template_id.clone(),
            index,
            previous_hash: previous_hash.clone(),
            timestamp,
            difficulty,
            miner_address: String::from_str(miner),
            transactions: clone_transactions(&txs),
        };
        let resp = TemplateResponse {
            template_id: template_id.clone(),
            index,
            previous_hash,
            timestamp,
            difficulty,
            transactions: txs,
        };
        proof {
            assert(template@ == TemplateV {
                template_id: resp.template_id@,
                index: resp.index,
                previous_hash: resp.previous_hash@,
                timestamp: resp.timestamp,
                difficulty: resp.difficulty,
                miner_address: trim_of(miner_address@),
                transactions: txs_view(resp.transactions@),
            });
        }
        self.templates.insert(template_id, template);
        Ok(resp)
    }

    /// Validates and applies a solved template.  The template is
    /// consumed whatever happens; the head must still match its
    /// recorded previous hash, the recomputed hash must equal the one
    /// the solver claimed, and it must meet the chain's current
    /// difficulty.  On success the block joins the chain, the UTXO set
    /// takes the block's spends and outputs, and the included
    /// transactions leave the mempool.
    pub fn submit_solution(&mut self, template_id: &str, nonce: u64, claimed_hash: &str) -> (r:
        Result<SubmitResponse, MiningError>)
        requires
            old(self).wf(),
        ensures
            final(self).wf(),
            submit_outcome(
                old(self).templates@,
                old(self).chain.chain@.last()@.hash,
                old(self).chain.difficulty,
                template_id@,
                nonce,
                claimed_hash@,
            ) == (match r {
                Ok(_) => Ok::<(), MiningError>(()),
                Err(e) => Err::<(), MiningError>(e),
            }),
            final(self).templates@ == (if old(self).templates@.contains_key(template_id@) {
                old(self).templates@.remove(template_id@)
            } else {
                old(self).templates@
            }),
            r.is_err() ==> final(self).chain == old(self).chain && final(self).mempool == old(
                self,
            ).mempool && final(self).utxo == old(self).utxo,
            match r {
                Ok(resp) => {
                    let t = old(self).templates@[template_id@];
                    &&& resp.accepted == true
                    &&& final(self).chain.chain@.len() == old(self).chain.chain@.len() + 1
                    &&& (forall|i: int|
                        0 <= i < old(self).chain.chain@.len() ==> final(self).chain.chain@[i]
                            == old(self).chain.chain@[i])
                    &&& final(self).chain.chain@.last()@ == BlockV {
                        index: t.index,
                        timestamp: t.timestamp,
                        previous_hash: t.previous_hash,
                        nonce,
                        hash: rebuilt_digest(t, nonce),
                        transactions: t.transactions,
                    }
                    &&& final(self).chain.difficulty == retargeted(
                        old(self).chain.difficulty,
                        blocks_view(final(self).chain.chain@),
                    )
                    &&& final(self).utxo@ == block_applied(old(self).utxo@, t.transactions)
                    &&& txs_view(final(self).mempool@) == mempool_after(
                        txs_view(old(self).mempool@),
                        t.transactions,
                    )
                    &&& resp.mined_index == Some((final(self).chain.chain@.len() - 1) as u64)
                    &&& (resp.hash matches Some(h) && h@ == claimed_hash@)
                    &&& resp.difficulty == Some(final(self).chain.difficulty)
                },
                Err(_) => true,
            },
    {
        let template = match self.templates.take(template_id) {
            Some(t) => t,
            None => {
                return Err(MiningError::UnknownTemplate);
            },
        };
        let linked = template.previous_hash.eq(&self.last_chain_hash());
        if !linked {
            return Err(MiningError::StaleTemplate);
        }
        let txs = clone_transactions(&template.transactions);
        let mut block = Block::new_with_timestamp(
            template.index,
            template.previous_hash.clone(),
            txs,
            template.timestamp,
        );
        block.nonce = nonce;
        block.hash = block.compute_hash();
        proof {
            assert(block@.hash == rebuilt_digest(template@, nonce));
        }
        if !crate::encode::str_eq(block.hash.as_str(), claimed_hash) {
            return Err(MiningError::HashMismatch);
        }
        let ghost blockv = block@;
        proof {
            assert(blockv.previous_hash == template@.previous_hash);
            assert(blockv.previous_hash == old(self).chain.chain@.last()@.hash);
            assert(blockv.hash == block_digest(blockv));
        }
        let appended = self.chain.append_premined_block(block);
        match appended {
            Err(e) => {
                proof {
                    if e == ChainError::StaleTemplate {
                        assert(appended == Err::<(), ChainError>(ChainError::StaleTemplate));
                        assert(false);
                    }
                    assert(appended == Err::<(), ChainError>(ChainError::InvalidProofOfWork));
                    assert(!block_valid(blockv, old(self).chain.difficulty));
                    assert(!meets_difficulty(
                        rebuilt_digest(template@, nonce),
                        old(self).chain.difficulty as nat,
                    ));
                }
                return Err(MiningError::InsufficientWork);
            },
            Ok(_) => {},
        }
        apply_confirmed(&mut self.utxo, &mut self.mempool, &template.transactions);
        let difficulty = self.chain.difficulty();
        let len = self.chain.len();
        Ok(
            SubmitResponse {
                accepted: true,
                mined_index: Some((len - 1) as u64),
                hash: Some(String::from_str(claimed_hash)),
                difficulty: Some(difficulty),
            },
        )
    }

    fn last_chain_hash(&self) -> (r: String)
        requires
            self.chain.wf(),
        ensures
            r@ == self.chain.chain@.last()@.hash,
    {
        self.chain.last_block().hash.clone()
    }

    /// Mines a block directly over the current mempool: selects
    /// transactions, prepends a coinbase paying the miner, performs the
    /// proof-of-work search, appends the block, retargets, applies the
    /// block to the UTXO set, and removes the included transactions
    /// from the mempool.  Fails exactly when the miner address is
    /// blank, and then changes nothing.
    pub fn mine_block(&mut self, miner_address: &str) -> (r: Result<MineResponse, MiningError>)
        requires
            old(self).wf(),
        ensures
            final(self).wf(),
            match r {
                Ok(resp) => {
                    let txsv = template_txs(
                        txs_view(old(self).mempool@),
                        old(self).utxo@,
                        trim_of(miner_address@),
                    );
                    &&& trim_of(miner_address@).len() > 0
                    &&& final(self).chain.chain@.len() == old(self).chain.chain@.len() + 1
                    &&& (forall|i: int|
                        0 <= i < old(self).chain.chain@.len() ==> final(self).chain.chain@[i]
                            == old(self).chain.chain@[i])
                    &&& final(self).chain.chain@.last()@.index == old(self).chain.chain@.len() as u64
                    &&& final(self).chain.chain@.last()@.previous_hash == old(
                        self,
                    ).chain.chain@.last()@.hash
                    &&& final(self).chain.chain@.last()@.transactions == txsv
                    &&& final(self).chain.chain@.last()@.hash == block_digest(
                        final(self).chain.chain@.last()@,
                    )
                    &&& final(self).chain.difficulty == retargeted(
                        old(self).chain.difficulty,
                        blocks_view(final(self).chain.chain@),
                    )
                    &&& final(self).utxo@ == block_applied(old(self).utxo@, txsv)
                    &&& txs_view(final(self).mempool@) == mempool_after(
                        txs_view(old(self).mempool@),
                        txsv,
                    )
                    &&& resp.mined_index == old(self).chain.chain@.len() as u64
                    &&& resp.hash@ == final(self).chain.chain@.last()@.hash
                    &&& resp.nonce == final(self).chain.chain@.last()@.nonce
                    &&& resp.difficulty == final(self).chain.difficulty
                },
                Err(e) => {
                    &&& e == MiningError::MinerAddressRequired
                    &&& trim_of(miner_address@).len() == 0
                    &&& *final(self) == *old(self)
                },
            },
    {
        let miner = trimmed(miner_address);
        if miner.is_empty() {
            return Err(MiningError::MinerAddressRequired);
        }
        let txs = self.assemble_block_txs(miner);
        self.chain.mine_block(txs);
        let mined_index = self.chain.len() - 1;
        let hash = self.chain.last_block().hash.clone();
        let nonce = self.chain.last_block().nonce;
        apply_confirmed(
            &mut self.utxo,
            &mut self.mempool,
            &self.chain.chain[mined_index].transactions,
        );
        let difficulty = self.chain.difficulty();
        Ok(
            MineResponse {
                mined_index: mined_index as u64,
                hash,
                nonce,
                difficulty,
            },
        )
    }
}

} // verus!
