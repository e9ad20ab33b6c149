//! Block assembly: given a mempool snapshot and a UTXO snapshot, pick a
//! valid, non-conflicting subset of transactions, highest fee rate
//! first, within the block's count and byte budgets.  Read-only and a
//! pure function of the two snapshots.
use vstd::prelude::*;

verus! {

use crate::tx::{Transaction, TxV, TxInV, OutPoint, OutPointV, output_sum, enc_tx, txs_view, outpoints_view};
use crate::validate::input_sum;
use crate::utxo::UtxoSet;
use crate::encode::{lex_lt, str_lex_lt};
use crate::{MAX_TXS_PER_BLOCK, MAX_BLOCK_BYTES};

/// Mathematical value of a selection candidate: the position of the
/// transaction in the mempool snapshot, its fee, and its serialized
/// size.
pub struct CandV {
    pub idx: int,
    pub fee: int,
    pub size: int,
}

/// A selection candidate.
pub struct Cand {
    pub idx: usize,
    pub fee: u128,
    pub size: usize,
}

impl View for Cand {
    type V = CandV;

    open spec fn view(&self) -> CandV {
        CandV { idx: self.idx as int, fee: self.fee as int, size: self.size as int }
    }
}

/// The views of a sequence of candidates.
pub open spec fn cands_view(s: Seq<Cand>) -> Seq<CandV> {
    s.map_values(|c: Cand| c@)
}

/// Every outpoint the transaction references is in the snapshot.
pub open spec fn all_inputs_known(t: TxV, u: Map<OutPointV, crate::tx::TxOutV>) -> bool {
    forall|i: int| 0 <= i < t.inputs.len() ==> u.contains_key((#[trigger] t.inputs[i]).outpoint)
}

/// A mempool transaction is a candidate when it has inputs, every
/// referenced outpoint is spendable, and its inputs cover its outputs.
pub open spec fn cand_ok(t: TxV, u: Map<OutPointV, crate::tx::TxOutV>) -> bool {
    t.inputs.len() > 0 && all_inputs_known(t, u) && input_sum(t.inputs, u) >= output_sum(t.outputs)
}

/// The candidate record of the transaction at position `i`.
pub open spec fn cand_of(m: Seq<TxV>, u: Map<OutPointV, crate::tx::TxOutV>, i: int) -> CandV {
    CandV {
        idx: i,
        fee: input_sum(m[i].inputs, u) - output_sum(m[i].outputs),
        size: enc_tx(m[i]).len() as int,
    }
}

/// The candidates among the first `n` mempool entries, in mempool
/// order.
pub open spec fn candidates_upto(m: Seq<TxV>, u: Map<OutPointV, crate::tx::TxOutV>, n: int) -> Seq<
    CandV,
>
    decreases n,
{
    if n <= 0 {
        Seq::empty()
    } else if cand_ok(m[n - 1], u) {
        candidates_upto(m, u, n - 1).push(cand_of(m, u, n - 1))
    } else {
        candidates_upto(m, u, n - 1)
    }
}

/// The strict priority order of block assembly: higher fee rate first
/// (compared exactly, by cross-multiplication), ties broken by higher
/// absolute fee, remaining ties by transaction identifier ascending.
pub open spec fn cand_before(m: Seq<TxV>, a: CandV, b: CandV) -> bool {
    let l = a.fee * b.size;
    let r = b.fee * a.size;
    l > r || (l == r && (a.fee > b.fee || (a.fee == b.fee && lex_lt(m[a.idx].txid, m[b.idx].txid))))
}

/// Stable insertion: `c` goes in front of the first element it strictly
/// precedes, after every element it does not.
pub open spec fn sorted_insert(m: Seq<TxV>, s: Seq<CandV>, c: CandV) -> Seq<CandV>
    decreases s.len(),
{
    if s.len() == 0 {
        seq![c]
    } else if cand_before(m, c, s[0]) {
        seq![c] + s
    } else {
        seq![s[0]] + sorted_insert(m, s.drop_first(), c)
    }
}

/// Stable insertion sort of the candidate list under `cand_before`.
pub open spec fn sort_cands(m: Seq<TxV>, s: Seq<CandV>) -> Seq<CandV>
    decreases s.len(),
{
    if s.len() == 0 {
        Seq::empty()
    } else {
        sorted_insert(m, sort_cands(m, s.drop_last()), s.last())
    }
}

/// The outpoints a transaction's inputs reference, in order.
pub open spec fn tx_outpoints(t: TxV) -> Seq<OutPointV> {
    t.inputs.map_values(|i: TxInV| i.outpoint)
}

/// The transaction references an outpoint already claimed.
pub open spec fn conflicts(t: TxV, claimed: Seq<OutPointV>) -> bool {
    exists|i: int| 0 <= i < t.inputs.len() && claimed.contains((#[trigger] t.inputs[i]).outpoint)
}

/// Addition saturating at the largest 128-bit value.
pub open spec fn sat_add_u128(a: int, b: int) -> int {
    if a + b > u128::MAX {
        u128::MAX as int
    } else {
        a + b
    }
}

/// The greedy walk over the first `k` sorted candidates: a candidate is
/// taken unless the block is already full, it would burst the byte
/// budget, or one of its outpoints is already claimed; taking it claims
/// all its outpoints.  Yields (picked positions, claimed outpoints,
/// bytes used, total fees).
pub open spec fn pack_upto(m: Seq<TxV>, sorted: Seq<CandV>, k: int) -> (
    Seq<int>,
    Seq<OutPointV>,
    int,
    int,
)
    decreases k,
{
    if k <= 0 {
        (Seq::empty(), Seq::empty(), 0, 0)
    } else {
        let prev = pack_upto(m, sorted, k - 1);
        let c = sorted[k - 1];
        if prev.0.len() >= MAX_TXS_PER_BLOCK {
            prev
        } else if prev.2 + c.size > MAX_BLOCK_BYTES {
            prev
        } else if conflicts(m[c.idx], prev.1) {
            prev
        } else {
            (
                prev.0.push(c.idx),
                prev.1 + tx_outpoints(m[c.idx]),
                prev.2 + c.size,
                sat_add_u128(prev.3, c.fee),
            )
        }
    }
}

/// The whole selection: positions of the picked transactions (in pick
/// order) and the total fee, as a function of the two snapshots alone.
pub open spec fn selection_spec(m: Seq<TxV>, u: Map<OutPointV, crate::tx::TxOutV>) -> (
    Seq<int>,
    int,
) {
    let sorted = sort_cands(m, candidates_upto(m, u, m.len() as int));
    let packed = pack_upto(m, sorted, sorted.len() as int);
    (packed.0, packed.3)
}

/// Two transactions reference no common outpoint.
pub open spec fn no_common_outpoint(a: TxV, b: TxV) -> bool {
    forall|i: int, j: int|
        0 <= i < a.inputs.len() && 0 <= j < b.inputs.len() ==> (
        #[trigger] a.inputs[i]).outpoint != (#[trigger] b.inputs[j]).outpoint
}

/// All candidate positions lie below `n`.
pub open spec fn idxs_below(s: Seq<CandV>, n: int) -> bool {
    forall|i: int| 0 <= i < s.len() ==> 0 <= (#[trigger] s[i]).idx < n
}

proof fn lemma_candidates_idxs(m: Seq<TxV>, u: Map<OutPointV, crate::tx::TxOutV>, n: int)
    requires
        n <= m.len(),
    ensures
        idxs_below(candidates_upto(m, u, n), n),
    decreases n,
{
    if n > 0 {
        lemma_candidates_idxs(m, u, n - 1);
        assert(idxs_below(candidates_upto(m, u, n - 1), n));
    }
}

proof fn lemma_insert_idxs(m: Seq<TxV>, s: Seq<CandV>, c: CandV, n: int)
    requires
        idxs_below(s, n),
        0 <= c.idx < n,
    ensures
        idxs_below(sorted_insert(m, s, c), n),
    decreases s.len(),
{
    if s.len() == 0 {
    } else if cand_before(m, c, s[0]) {
    } else {
        assert(idxs_below(s.drop_first(), n));
        lemma_insert_idxs(m, s.drop_first(), c, n);
    }
}

proof fn lemma_sort_idxs(m: Seq<TxV>, s: Seq<CandV>, n: int)
    requires
        idxs_below(s, n),
    ensures
        idxs_below(sort_cands(m, s), n),
    decreases s.len(),
{
    if s.len() > 0 {
        assert(idxs_below(s.drop_last(), n));
        lemma_sort_idxs(m, s.drop_last(), n);
        lemma_insert_idxs(m, sort_cands(m, s.drop_last()), s.last(), n);
    }
}

proof fn lemma_pack_idxs(m: Seq<TxV>, sorted: Seq<CandV>, k: int, n: int)
    requires
        k <= sorted.len(),
        idxs_below(sorted, n),
    ensures
        forall|q: int|
            #![trigger pack_upto(m, sorted, k).0[q]]
            0 <= q < pack_upto(m, sorted, k).0.len() ==> 0 <= pack_upto(m, sorted, k).0[q] < n,
    decreases k,
{
    if k > 0 {
        lemma_pack_idxs(m, sorted, k - 1, n);
        assert(0 <= sorted[k - 1].idx < n);
        assert forall|q: int|
            #![trigger pack_upto(m, sorted, k).0[q]]
            0 <= q < pack_upto(m, sorted, k).0.len() implies 0 <= pack_upto(m, sorted, k).0[q]
            < n by {
            let prev = pack_upto(m, sorted, k - 1);
            if q < prev.0.len() {
                assert(0 <= prev.0[q] < n);
                assert(pack_upto(m, sorted, k).0[q] == prev.0[q]);
            } else {
                assert(pack_upto(m, sorted, k).0[q] == sorted[k - 1].idx);
            }
        }
    }
}

proof fn lemma_sorted_insert_at(m: Seq<TxV>, s: Seq<CandV>, c: CandV, p: int)
    requires
        0 <= p <= s.len(),
        forall|q: int| 0 <= q < p ==> !cand_before(m, c, s[q]),
        p < s.len() ==> cand_before(m, c, s[p]),
    ensures
        sorted_insert(m, s, c) =~= s.take(p) + seq![c] + s.skip(p),
    decreases s.len(),
{
    if s.len() == 0 {
    } else if cand_before(m, c, s[0]) {
        assert(p == 0);
    } else {
        assert(p >= 1);
        lemma_sorted_insert_at(m, s.drop_first(), c, p - 1);
        assert(s.drop_first().take(p - 1) =~= s.take(p).drop_first());
        assert(s.drop_first().skip(p - 1) =~= s.skip(p));
        assert(seq![s[0]] + (s.drop_first().take(p - 1) + seq![c] + s.drop_first().skip(p - 1))
            =~= s.take(p) + seq![c] + s.skip(p));
    }
}

/// The 192-bit product `f * s`, split as `high * 2^64 + low`.
fn mul_fee_size(f: u128, s: u64) -> (r: (u128, u128))
    ensures
        (r.0 as int) * 0x1_0000_0000_0000_0000 + (r.1 as int) == (f as int) * (s as int),
        r.1 < 0x1_0000_0000_0000_0000,
{
    let hi = f / 0x1_0000_0000_0000_0000u128;
    let lo = f % 0x1_0000_0000_0000_0000u128;
    proof {
        assert(hi < 0x1_0000_0000_0000_0000);
        assert((hi as int) * (s as int) <= 0xffff_ffff_ffff_ffff * 0xffff_ffff_ffff_ffff)
            by (nonlinear_arith)
            requires
                0 <= hi as int <= 0xffff_ffff_ffff_ffff,
                0 <= s as int <= 0xffff_ffff_ffff_ffff,
        ;
        assert((lo as int) * (s as int) <= 0xffff_ffff_ffff_ffff * 0xffff_ffff_ffff_ffff)
            by (nonlinear_arith)
            requires
                0 <= lo as int <= 0xffff_ffff_ffff_ffff,
                0 <= s as int <= 0xffff_ffff_ffff_ffff,
        ;
    }
    let a = hi * (s as u128);
    let b = lo * (s as u128);
    let b_hi = b / 0x1_0000_0000_0000_0000u128;
    let b_lo = b % 0x1_0000_0000_0000_0000u128;
    proof {
        assert((f as int) * (s as int) == (hi as int) * 0x1_0000_0000_0000_0000 * (s as int) + (
        lo as int) * (s as int)) by (nonlinear_arith)
            requires
                f as int == (hi as int) * 0x1_0000_0000_0000_0000 + lo as int,
        ;
        assert((hi as int) * 0x1_0000_0000_0000_0000 * (s as int) == (hi as int) * (s as int)
            * 0x1_0000_0000_0000_0000) by (nonlinear_arith);
    }
    (a + b_hi, b_lo)
}

/// Whether `x` (split) exceeds `y` (split), both lows below `2^64`.
fn split_gt(x: (u128, u128), y: (u128, u128)) -> (r: bool)
    requires
        x.1 < 0x1_0000_0000_0000_0000,
        y.1 < 0x1_0000_0000_0000_0000,
    ensures
        r == ((x.0 as int) * 0x1_0000_0000_0000_0000 + (x.1 as int) > (y.0 as int)
            * 0x1_0000_0000_0000_0000 + (y.1 as int)),
{
    proof {
        if x.0 > y.0 {
            assert((x.0 as int) * 0x1_0000_0000_0000_0000 >= ((y.0 as int) + 1)
                * 0x1_0000_0000_0000_0000);
        }
        if x.0 < y.0 {
            assert((y.0 as int) * 0x1_0000_0000_0000_0000 >= ((x.0 as int) + 1)
                * 0x1_0000_0000_0000_0000);
        }
    }
    if x.0 > y.0 {
        true
    } else if x.0 < y.0 {
        false
    } else {
        x.1 > y.1
    }
}

/// Decides the strict priority order `cand_before`.
fn cand_before_exec(mempool: &Vec<Transaction>, a: &Cand, b: &Cand) -> (r: bool)
    requires
        a@.idx < mempool@.len(),
        b@.idx < mempool@.len(),
    ensures
        r == cand_before(txs_view(mempool@), a@, b@),
{
    let l = mul_fee_size(a.fee, b.size as u64);
    let r = mul_fee_size(b.fee, a.size as u64);
    if split_gt(l, r) {
        return true;
    }
    if split_gt(r, l) {
        return false;
    }
    if a.fee > b.fee {
        return true;
    }
    if a.fee < b.fee {
        return false;
    }
    let ta = &mempool[a.idx];
    let tb = &mempool[b.idx];
    proof {
        assert(txs_view(mempool@)[a@.idx].txid == ta@.txid);
        assert(txs_view(mempool@)[b@.idx].txid == tb@.txid);
    }
    str_lex_lt(ta.txid.as_str(), tb.txid.as_str())
}

/// The sum of the outputs each input of `tx` references, when every one
/// of them is in the snapshot.
fn eval_inputs(tx: &Transaction, utxo: &UtxoSet) -> (r: Option<u128>)
    requires
        utxo.wf(),
    ensures
        match r {
            Some(s) => all_inputs_known(tx@, utxo@) && s as int == input_sum(tx@.inputs, utxo@),
            None => !all_inputs_known(tx@, utxo@),
        },
{
    let ghost tv = tx@;
    let ghost u = utxo@;
    let mut sum: u128 = 0;
    let mut i: usize = 0;
    while i < tx.inputs.len()
        invariant
            i <= tv.inputs.len(),
            tv == tx@,
            u == utxo@,
            utxo.wf(),
            forall|j: int| 0 <= j < i ==> u.contains_key((#[trigger] tv.inputs[j]).outpoint),
            sum as int == input_sum(tv.inputs.take(i as int), u),
            sum as int <= (i as int) * 0xffff_ffff_ffff_ffff,
        decreases tv.inputs.len() - i,
    {
        let inp = &tx.inputs[i];
        match utxo.get(&inp.outpoint) {
            Some(prev) => {
                proof {
                    assert(tv.inputs.take(i + 1 as int).drop_last() =~= tv.inputs.take(i as int));
                    assert(tv.inputs.take(i + 1 as int).last() == tv.inputs[i as int]);
                    assert(u[tv.inputs[i as int].outpoint].amount == prev@.amount);
                    assert((i as int) * 0xffff_ffff_ffff_ffff + 0xffff_ffff_ffff_ffff == (i as int
                        + 1) * 0xffff_ffff_ffff_ffff) by (nonlinear_arith);
                    assert((i as int + 1) * 0xffff_ffff_ffff_ffff <= 0xffff_ffff_ffff_ffff
                        * 0xffff_ffff_ffff_ffff) by (nonlinear_arith)
                        requires
                            i as int + 1 <= 0xffff_ffff_ffff_ffff,
                    ;
                }
                sum = sum + (prev.amount as u128);
            },
            None => {
                proof {
                    assert(!u.contains_key(tv.inputs[i as int].outpoint));
                    assert(!all_inputs_known(tv, u));
                }
                return None;
            },
        }
        i = i + 1;
    }
    proof {
        assert(tv.inputs.take(tv.inputs.len() as int) =~= tv.inputs);
    }
    Some(sum)
}

/// Whether `tx` references an outpoint in `claimed`.
fn conflicts_exec(tx: &Transaction, claimed: &Vec<OutPoint>) -> (r: bool)
    ensures
        r == conflicts(tx@, outpoints_view(claimed@)),
{
    let ghost cl = outpoints_view(claimed@);
    let mut i: usize = 0;
    while i < tx.inputs.len()
        invariant
            i <= tx@.inputs.len(),
            cl == outpoints_view(claimed@),
            forall|j: int| 0 <= j < i ==> !cl.contains((#[trigger] tx@.inputs[j]).outpoint),
        decreases tx@.inputs.len() - i,
    {
        let op = &tx.inputs[i].outpoint;
        let mut j: usize = 0;
        while j < claimed.len()
            invariant
                j <= claimed@.len(),
                cl == outpoints_view(claimed@),
                forall|q: int| 0 <= q < j ==> cl[q] != op@,
                op@ == tx@.inputs[i as int].outpoint,
                i < tx@.inputs.len(),
            decreases claimed@.len() - j,
        {
            let c = &claimed[j];
            if c.txid.eq(&op.txid) && c.vout == op.vout {
                proof {
                    assert(cl[j as int] == op@);
                    assert(cl.contains(tx@.inputs[i as int].outpoint));
                }
                return true;
            }
            j = j + 1;
        }
        proof {
            assert(forall|q: int| 0 <= q < cl.len() ==> cl[q] != tx@.inputs[i as int].outpoint);
            assert(!cl.contains(tx@.inputs[i as int].outpoint));
        }
        i = i + 1;
    }
    false
}

/// The position where `c` goes in the sorted list: in front of the
/// first element it strictly precedes.
fn insert_pos(mempool: &Vec<Transaction>, sorted: &Vec<Cand>, c: &Cand) -> (p: usize)
    requires
        c@.idx < mempool@.len(),
        idxs_below(cands_view(sorted@), mempool@.len() as int),
    ensures
        p <= sorted@.len(),
        forall|q: int| 0 <= q < p ==> !cand_before(txs_view(mempool@), c@, cands_view(sorted@)[q]),
        p < sorted@.len() ==> cand_before(txs_view(mempool@), c@, cands_view(sorted@)[p as int]),
{
    let ghost mv = txs_view(mempool@);
    let mut p: usize = 0;
    while p < sorted.len()
        invariant
            p <= sorted@.len(),
            mv == txs_view(mempool@),
            c@.idx < mempool@.len(),
            idxs_below(cands_view(sorted@), mempool@.len() as int),
            forall|q: int| 0 <= q < p ==> !cand_before(mv, c@, cands_view(sorted@)[q]),
        decreases sorted@.len() - p,
    {
        proof {
            assert(cands_view(sorted@)[p as int] == sorted@[p as int]@);
        }
        if cand_before_exec(mempool, c, &sorted[p]) {
            return p;
        }
        p = p + 1;
    }
    p
}

/// Selects the transactions to include in the next block and their
/// total fee: candidates are filtered against the snapshot, ordered by
/// fee rate (then fee, then identifier), and packed greedily under the
/// count and byte budgets, skipping anything that would double-spend an
/// outpoint already claimed in this pass.  The result is a function of
/// the two snapshots alone, so two runs on the same snapshots return
/// the same selection and fee; and no two picked transactions share an
/// outpoint.
pub fn select_transactions(mempool: &Vec<Transaction>, utxo: &UtxoSet) -> (r: (
    Vec<Transaction>,
    u128,
))
    requires
        utxo.wf(),
    ensures
        r.0@.len() == selection_spec(txs_view(mempool@), utxo@).0.len(),
        forall|i: int|
            #![trigger r.0@[i]]
            0 <= i < r.0@.len() ==> 0 <= selection_spec(txs_view(mempool@), utxo@).0[i]
                < mempool@.len() && r.0@[i]@ == txs_view(mempool@)[selection_spec(
                txs_view(mempool@),
                utxo@,
            ).0[i]],
        r.1 as int == selection_spec(txs_view(mempool@), utxo@).1,
        forall|i: int, j: int|
            0 <= i < j < r.0@.len() ==> no_common_outpoint(r.0@[i]@, r.0@[j]@),
{
    let ghost mv = txs_view(mempool@);
    let ghost u = utxo@;

    // 1. Filter: fee and size of every eligible mempool transaction.
    let mut cands: Vec<Cand> = Vec::new();
    let mut idx: usize = 0;
    while idx < mempool.len()
        invariant
            idx <= mempool@.len(),
            mv == txs_view(mempool@),
            u == utxo@,
            utxo.wf(),
            cands_view(cands@) == candidates_upto(mv, u, idx as int),
        decreases mempool@.len() - idx,
    {
        let tx = &mempool[idx];
        proof {
            assert(mv[idx as int] == tx@);
        }
        if tx.inputs.len() > 0 {
            match eval_inputs(tx, utxo) {
                Some(in_sum) => {
                    let out_sum = tx.total_output_amount();
                    if in_sum >= out_sum {
                        let size = tx.vsize_bytes();
                        let c = Cand { idx, fee: in_sum - out_sum, size };
                        proof {
                            assert(cand_ok(mv[idx as int], u));
                            assert(c@ == cand_of(mv, u, idx as int));
                        }
                        cands.push(c);
                        proof {
                            assert(cands_view(cands@) =~= candidates_upto(mv, u, idx + 1));
                        }
                    } else {
                        proof {
                            assert(!cand_ok(mv[idx as int], u));
                            assert(cands_view(cands@) =~= candidates_upto(mv, u, idx + 1));
                        }
                    }
                },
                None => {
                    proof {
                        assert(!cand_ok(mv[idx as int], u));
                        assert(cands_view(cands@) =~= candidates_upto(mv, u, idx + 1));
                    }
                },
            }
        } else {
            proof {
                assert(!cand_ok(mv[idx as int], u));
                assert(cands_view(cands@) =~= candidates_upto(mv, u, idx + 1));
            }
        }
        idx = idx + 1;
    }
    proof {
        lemma_candidates_idxs(mv, u, mempool@.len() as int);
    }

    // 2. Stable insertion sort under the priority order.
    let mut sorted: Vec<Cand> = Vec::new();
    let mut i: usize = 0;
    while i < cands.len()
        invariant
            i <= cands@.len(),
            mv == txs_view(mempool@),
            cands_view(cands@) == candidates_upto(mv, u, mempool@.len() as int),
            idxs_below(cands_view(cands@), mempool@.len() as int),
            cands_view(sorted@) == sort_cands(mv, cands_view(cands@).take(i as int)),
            idxs_below(cands_view(sorted@), mempool@.len() as int),
        decreases cands@.len() - i,
    {
        let c = Cand { idx: cands[i].idx, fee: cands[i].fee, size: cands[i].size };
        proof {
            assert(c@ == cands_view(cands@)[i as int]);
        }
        let p = insert_pos(mempool, &sorted, &c);
        let ghost pre = cands_view(sorted@);
        sorted.insert(p, c);
        proof {
            lemma_sorted_insert_at(mv, pre, c@, p as int);
            assert(cands_view(sorted@) =~= pre.take(p as int) + seq![c@] + pre.skip(p as int));
            assert(cands_view(cands@).take(i + 1).drop_last() =~= cands_view(cands@).take(i as int));
            assert(cands_view(cands@).take(i + 1).last() == c@);
            assert(cands_view(sorted@) == sort_cands(mv, cands_view(cands@).take(i + 1)));
            lemma_insert_idxs(mv, pre, c@, mempool@.len() as int);
        }
        i = i + 1;
    }
    proof {
        assert(cands_view(cands@).take(cands@.len() as int) =~= cands_view(cands@));
    }

    // 3. Greedy packing under the count and byte budgets, claiming
    // outpoints to exclude in-block double spends.
    let ghost sortedv = cands_view(sorted@);
    let mut picked: Vec<Transaction> = Vec::new();
    let mut claimed: Vec<OutPoint> = Vec::new();
    let mut total_bytes: usize = 0;
    let mut total_fees: u128 = 0;
    let mut k: usize = 0;
    while k < sorted.len()
        invariant
            k <= sortedv.len(),
            mv == txs_view(mempool@),
            sortedv == cands_view(sorted@),
            idxs_below(sortedv, mempool@.len() as int),
            picked@.len() == pack_upto(mv, sortedv, k as int).0.len(),
            forall|q: int|
                #![trigger picked@[q]]
                0 <= q < picked@.len() ==> picked@[q]@ == mv[pack_upto(mv, sortedv, k as int).0[q]],
            outpoints_view(claimed@) == pack_upto(mv, sortedv, k as int).1,
            total_bytes as int == pack_upto(mv, sortedv, k as int).2,
            total_bytes <= MAX_BLOCK_BYTES,
            total_fees as int == pack_upto(mv, sortedv, k as int).3,
            forall|q: int, w: int|
                #![trigger picked@[q]@.inputs[w]]
                0 <= q < picked@.len() && 0 <= w < picked@[q]@.inputs.len() ==> pack_upto(
                    mv,
                    sortedv,
                    k as int,
                ).1.contains(picked@[q]@.inputs[w].outpoint),
            forall|q: int, w: int|
                #![trigger picked@[q], picked@[w]]
                0 <= q < w < picked@.len() ==> no_common_outpoint(picked@[q]@, picked@[w]@),
        decreases sortedv.len() - k,
    {
        let ghost prev = pack_upto(mv, sortedv, k as int);
        let c = &sorted[k];
        proof {
            assert(c@ == sortedv[k as int]);
        }
        if picked.len() >= MAX_TXS_PER_BLOCK {
            proof {
                assert(pack_upto(mv, sortedv, k + 1) == prev);
                assert(pack_upto(mv, sortedv, k + 1).0 == prev.0);
            }
            proof {
                assert forall|q: int|
                    #![trigger picked@[q]]
                    0 <= q < picked@.len() implies picked@[q]@ == mv[pack_upto(
                    mv,
                    sortedv,
                    k + 1,
                ).0[q]] by {
                    assert(picked@[q]@ == mv[pack_upto(mv, sortedv, k as int).0[q]]);
                    assert(pack_upto(mv, sortedv, k + 1).0 == prev.0);
                }
            }
        } else if c.size > MAX_BLOCK_BYTES - total_bytes {
            proof {
                assert(prev.2 + c@.size > MAX_BLOCK_BYTES);
                assert(pack_upto(mv, sortedv, k + 1) == prev);
                assert(pack_upto(mv, sortedv, k + 1).0 == prev.0);
            }
            proof {
                assert forall|q: int|
                    #![trigger picked@[q]]
                    0 <= q < picked@.len() implies picked@[q]@ == mv[pack_upto(
                    mv,
                    sortedv,
                    k + 1,
                ).0[q]] by {
                    assert(picked@[q]@ == mv[pack_upto(mv, sortedv, k as int).0[q]]);
                    assert(pack_upto(mv, sortedv, k + 1).0 == prev.0);
                }
            }
        } else {
            let tx = &mempool[c.idx];
            proof {
                assert(tx@ == mv[c@.idx]);
            }
            if conflicts_exec(tx, &claimed) {
                proof {
                    assert(pack_upto(mv, sortedv, k + 1) == prev);
                    assert(pack_upto(mv, sortedv, k + 1).0 == prev.0);
                }
            proof {
                assert forall|q: int|
                    #![trigger picked@[q]]
                    0 <= q < picked@.len() implies picked@[q]@ == mv[pack_upto(
                    mv,
                    sortedv,
                    k + 1,
                ).0[q]] by {
                    assert(picked@[q]@ == mv[pack_upto(mv, sortedv, k as int).0[q]]);
                    assert(pack_upto(mv, sortedv, k + 1).0 == prev.0);
                }
            }
            } else {
                // Claim this transaction's outpoints.
                let mut w: usize = 0;
                while w < tx.inputs.len()
                    invariant
                        w <= tx@.inputs.len(),
                        outpoints_view(claimed@) =~= prev.1
                            + tx_outpoints(tx@).take(w as int),
                    decreases tx@.inputs.len() - w,
                {
                    let ghost oldclaimed = claimed@;
                    claimed.push(tx.inputs[w].outpoint.clone());
                    proof {
                        assert(claimed@ == oldclaimed.push(claimed@[claimed@.len() - 1]));
                        assert(claimed@[claimed@.len() - 1]@ == tx.inputs@[w as int].outpoint@);
                        assert(tx_outpoints(tx@)[w as int] == tx@.inputs[w as int].outpoint);
                        assert(tx@.inputs[w as int] == tx.inputs@[w as int]@);
                        assert(outpoints_view(oldclaimed).len() == oldclaimed.len());
                        assert(oldclaimed.len() == prev.1.len() + w);
                        assert(outpoints_view(claimed@).len() == prev.1.len() + w + 1);
                        assert forall|j: int|
                            0 <= j < outpoints_view(claimed@).len() implies outpoints_view(
                            claimed@,
                        )[j] == (prev.1 + tx_outpoints(tx@).take(w + 1))[j] by {
                            assert(outpoints_view(claimed@)[j] == claimed@[j]@);
                            if j < prev.1.len() + w {
                                assert(claimed@[j] == oldclaimed[j]);
                                assert(outpoints_view(oldclaimed)[j] == oldclaimed[j]@);
                                assert(outpoints_view(oldclaimed)[j] == (prev.1 + tx_outpoints(
                                    tx@,
                                ).take(w as int))[j]);
                            } else {
                                assert(claimed@[j]@ == tx_outpoints(tx@).take(w + 1)[w as int]);
                            }
                        }
                        assert(outpoints_view(claimed@) =~= prev.1
                            + tx_outpoints(tx@).take(w + 1));
                    }
                    w = w + 1;
                }
                proof {
                    assert(tx_outpoints(tx@).take(tx@.inputs.len() as int) =~= tx_outpoints(tx@));
                }
                if c.fee > u128::MAX - total_fees {
                    total_fees = u128::MAX;
                } else {
                    total_fees = total_fees + c.fee;
                }
                total_bytes = total_bytes + c.size;
                let taken = tx.clone();
                let ghost oldpicked = picked@;
                picked.push(taken);
                proof {
                    assert(pack_upto(mv, sortedv, k + 1).0 =~= prev.0.push(c@.idx));
                    assert(pack_upto(mv, sortedv, k + 1).1 =~= prev.1 + tx_outpoints(mv[c@.idx]));
                    assert forall|q: int|
                        #![trigger picked@[q]]
                        0 <= q < picked@.len() implies picked@[q]@ == mv[pack_upto(
                        mv,
                        sortedv,
                        k + 1,
                    ).0[q]] by {
                        let pi = pack_upto(mv, sortedv, k + 1).0;
                        if q < picked@.len() - 1 {
                            assert(picked@[q] == oldpicked[q]);
                            assert(oldpicked[q]@ == mv[pack_upto(mv, sortedv, k as int).0[q]]);
                            assert(pi[q] == prev.0[q]);
                        } else {
                            assert(pi[q] == c@.idx);
                            assert(picked@[q]@ == tx@);
                        }
                    }
                    assert forall|q: int, w2: int|
                        #![trigger picked@[q], picked@[w2]]
                        0 <= q < w2 < picked@.len() implies no_common_outpoint(
                        picked@[q]@,
                        picked@[w2]@,
                    ) by {
                        if w2 == picked@.len() - 1 {
                            assert(picked@[w2]@ == tx@);
                            assert(!conflicts(tx@, prev.1));
                            assert forall|x: int, y: int|
                                0 <= x < picked@[q]@.inputs.len() && 0 <= y
                                    < picked@[w2]@.inputs.len() implies (
                            #[trigger] picked@[q]@.inputs[x]).outpoint != (
                            #[trigger] picked@[w2]@.inputs[y]).outpoint by {
                                assert(prev.1.contains(picked@[q]@.inputs[x].outpoint));
                                if picked@[q]@.inputs[x].outpoint == tx@.inputs[y].outpoint {
                                    assert(prev.1.contains(tx@.inputs[y].outpoint));
                                    assert(conflicts(tx@, prev.1));
                                }
                            }
                        }
                    }
                    assert forall|q: int, w2: int|
                        #![trigger picked@[q]@.inputs[w2]]
                        0 <= q < picked@.len() && 0 <= w2 < picked@[q]@.inputs.len()
                            implies pack_upto(
                        mv,
                        sortedv,
                        k + 1,
                    ).1.contains(picked@[q]@.inputs[w2].outpoint) by {
                        if q < picked@.len() - 1 {
                            assert(prev.1.contains(picked@[q]@.inputs[w2].outpoint));
                            let ix = choose|ix: int|
                                0 <= ix < prev.1.len() && prev.1[ix] == picked@[q]@.inputs[w2].outpoint;
                            assert(pack_upto(mv, sortedv, k + 1).1[ix] == picked@[q]@.inputs[w2].outpoint);
                        } else {
                            assert(picked@[q]@ == tx@);
                            assert(tx_outpoints(tx@)[w2] == tx@.inputs[w2].outpoint);
                            assert(pack_upto(mv, sortedv, k + 1).1[prev.1.len() + w2]
                                == tx@.inputs[w2].outpoint);
                        }
                    }
                }
            }
        }
        k = k + 1;
    }
    proof {
        assert(pack_upto(mv, sortedv, sortedv.len() as int).0 == selection_spec(mv, u).0);
        assert(pack_upto(mv, sortedv, sortedv.len() as int).3 == selection_spec(mv, u).1);
        lemma_pack_idxs(mv, sortedv, sortedv.len() as int, mempool@.len() as int);
        assert forall|i: int|
            #![trigger picked@[i]]
            0 <= i < picked@.len() implies 0 <= selection_spec(mv, u).0[i] < mempool@.len()
            && picked@[i]@ == mv[selection_spec(mv, u).0[i]] by {
            assert(picked@[i]@ == mv[pack_upto(mv, sortedv, sortedv.len() as int).0[i]]);
            assert(0 <= pack_upto(mv, sortedv, sortedv.len() as int).0[i] < mempool@.len());
        }
    }
    (picked, total_fees)
}

} // verus!
