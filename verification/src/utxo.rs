//! The UTXO set: the authoritative record of what is currently
//! spendable, a pure key-value store from outpoint to output.  Policy
//! (economics, ownership) lives in the validator and the selector.
use vstd::prelude::*;

verus! {

use crate::tx::{OutPoint, OutPointV, TxOutput, TxOutV, Transaction, TxV};

/// The map an entry list stands for, later entries overriding earlier
/// ones with the same key.
pub open spec fn utxo_map_of(s: Seq<(OutPoint, TxOutput)>) -> Map<OutPointV, TxOutV>
    decreases s.len(),
{
    if s.len() == 0 {
        Map::empty()
    } else {
        utxo_map_of(s.drop_last()).insert(s.last().0@, s.last().1@)
    }
}

/// Pairwise distinct keys.
pub open spec fn distinct_keys(s: Seq<(OutPoint, TxOutput)>) -> bool {
    forall|i: int, j: int|
        0 <= i < j < s.len() ==> (#[trigger] s[i]).0@ != (#[trigger] s[j]).0@
}

proof fn lemma_map_of_contains(s: Seq<(OutPoint, TxOutput)>, k: OutPointV)
    ensures
        utxo_map_of(s).contains_key(k) <==> exists|i: int|
            0 <= i < s.len() && (#[trigger] s[i]).0@ == k,
    decreases s.len(),
{
    if s.len() > 0 {
        lemma_map_of_contains(s.drop_last(), k);
        if utxo_map_of(s).contains_key(k) {
            if s.last().0@ == k {
                assert(s[s.len() - 1].0@ == k);
            } else {
                let i = choose|i: int| 0 <= i < s.drop_last().len() && (#[trigger] s.drop_last()[i]).0@ == k;
                assert(s[i].0@ == k);
            }
        }
        if exists|i: int| 0 <= i < s.len() && (#[trigger] s[i]).0@ == k {
            let i = choose|i: int| 0 <= i < s.len() && (#[trigger] s[i]).0@ == k;
            if i < s.len() - 1 {
                assert(s.drop_last()[i].0@ == k);
            }
        }
    }
}

proof fn lemma_map_of_value(s: Seq<(OutPoint, TxOutput)>, i: int)
    requires
        distinct_keys(s),
        0 <= i < s.len(),
    ensures
        utxo_map_of(s).contains_key(s[i].0@),
        utxo_map_of(s)[s[i].0@] == s[i].1@,
    decreases s.len(),
{
    if i == s.len() - 1 {
    } else {
        lemma_map_of_value(s.drop_last(), i);
        assert(s.drop_last()[i] == s[i]);
        assert(s[i].0@ != s.last().0@);
    }
}

proof fn lemma_map_of_len(s: Seq<(OutPoint, TxOutput)>)
    requires
        distinct_keys(s),
    ensures
        utxo_map_of(s).dom().finite(),
        utxo_map_of(s).dom().len() == s.len(),
    decreases s.len(),
{
    broadcast use vstd::set::axiom_set_insert_len;

    if s.len() > 0 {
        lemma_map_of_len(s.drop_last());
        lemma_map_of_contains(s.drop_last(), s.last().0@);
        assert(forall|i: int|
            0 <= i < s.drop_last().len() ==> (#[trigger] s.drop_last()[i]).0@ != s.last().0@);
        assert(!utxo_map_of(s.drop_last()).contains_key(s.last().0@));
    }
}

proof fn lemma_map_of_remove(s: Seq<(OutPoint, TxOutput)>, i: int)
    requires
        distinct_keys(s),
        0 <= i < s.len(),
    ensures
        utxo_map_of(s.remove(i)) =~= utxo_map_of(s).remove(s[i].0@),
    decreases s.len(),
{
    lemma_map_of_value(s, i);
    if i == s.len() - 1 {
        assert(s.remove(i) =~= s.drop_last());
        lemma_map_of_contains(s.drop_last(), s[i].0@);
        assert(forall|j: int|
            0 <= j < s.drop_last().len() ==> (#[trigger] s.drop_last()[j]).0@ != s[i].0@);
        assert(!utxo_map_of(s.drop_last()).contains_key(s[i].0@));
        assert(utxo_map_of(s.drop_last()).remove(s[i].0@) =~= utxo_map_of(s.drop_last()));
        assert(utxo_map_of(s).remove(s[i].0@) =~= utxo_map_of(s.drop_last()));
    } else {
        lemma_map_of_remove(s.drop_last(), i);
        assert(s.remove(i).drop_last() =~= s.drop_last().remove(i));
        assert(s.remove(i).last() == s.last());
        assert(s[i].0@ != s.last().0@);
    }
}

/// The set of spendable outputs, keyed by outpoint, keys unique.
pub struct UtxoSet {
    entries: Vec<(OutPoint, TxOutput)>,
}

impl View for UtxoSet {
    type V = Map<OutPointV, TxOutV>;

    closed spec fn view(&self) -> Map<OutPointV, TxOutV> {
        utxo_map_of(self.entries@)
    }
}

/// `m` with the outputs of `t` up to position `n` inserted, each under
/// the outpoint `(t.txid, position)`.
pub open spec fn with_outputs_upto(
    m: Map<OutPointV, TxOutV>,
    txid: Seq<char>,
    outs: Seq<TxOutV>,
    n: int,
) -> Map<OutPointV, TxOutV>
    decreases n,
{
    if n <= 0 {
        m
    } else {
        with_outputs_upto(m, txid, outs, n - 1).insert(
            OutPointV { txid, vout: ((n - 1) as u32) },
            outs[n - 1],
        )
    }
}

/// `m` with every output of `t` inserted under `(t.txid, index)`.
pub open spec fn with_tx_outputs(m: Map<OutPointV, TxOutV>, t: TxV) -> Map<OutPointV, TxOutV> {
    with_outputs_upto(m, t.txid, t.outputs, t.outputs.len() as int)
}

impl UtxoSet {
    /// Keys are unique; every operation preserves this.
    pub closed spec fn wf(&self) -> bool {
        distinct_keys(self.entries@)
    }

    /// The entry list itself, one entry per key of the map.
    pub closed spec fn entries_seq(&self) -> Seq<(OutPoint, TxOutput)> {
        self.entries@
    }

    /// An empty set.
    pub fn new() -> (r: UtxoSet)
        ensures
            r.wf(),
            r@ == Map::<OutPointV, TxOutV>::empty(),
    {
        UtxoSet { entries: Vec::new() }
    }

    /// The position of `outpoint` in the entry list, if present.
    fn find(&self, outpoint: &OutPoint) -> (r: Option<usize>)
        ensures
            match r {
                Some(i) => i < self.entries@.len() && self.entries@[i as int].0@ == outpoint@,
                None => forall|i: int|
                    0 <= i < self.entries@.len() ==> (#[trigger] self.entries@[i]).0@ != outpoint@,
            },
    {
        let mut i: usize = 0;
        while i < self.entries.len()
            invariant
                i <= self.entries@.len(),
                forall|j: int|
                    0 <= j < i ==> (#[trigger] self.entries@[j]).0@ != outpoint@,
            decreases self.entries@.len() - i,
        {
            let e = &self.entries[i];
            if e.0.txid.eq(&outpoint.txid) && e.0.vout == outpoint.vout {
                return Some(i);
            }
            i = i + 1;
        }
        None
    }

    /// Whether `outpoint` is currently spendable.
    pub fn contains(&self, outpoint: &OutPoint) -> (r: bool)
        ensures
            r == self@.contains_key(outpoint@),
    {
        proof {
            lemma_map_of_contains(self.entries@, outpoint@);
        }
        self.find(outpoint).is_some()
    }

    /// The output `outpoint` refers to, if it is spendable.
    pub fn get(&self, outpoint: &OutPoint) -> (r: Option<&TxOutput>)
        requires
            self.wf(),
        ensures
            match r {
                Some(o) => self@.contains_key(outpoint@) && o@ == self@[outpoint@],
                None => !self@.contains_key(outpoint@),
            },
    {
        proof {
            lemma_map_of_contains(self.entries@, outpoint@);
        }
        match self.find(outpoint) {
            Some(i) => {
                proof {
                    lemma_map_of_value(self.entries@, i as int);
                }
                Some(&self.entries[i].1)
            },
            None => None,
        }
    }

    /// Inserts (or replaces) a single spendable output.
    pub fn insert(&mut self, outpoint: OutPoint, output: TxOutput)
        requires
            old(self).wf(),
        ensures
            final(self).wf(),
            final(self)@ == old(self)@.insert(outpoint@, output@),
    {
        let ghost pre = self.entries@;
        match self.find(&outpoint) {
            Some(i) => {
                proof {
                    lemma_map_of_remove(pre, i as int);
                }
                let _ = self.entries.remove(i);
                proof {
                    assert(distinct_keys(self.entries@));
                    lemma_map_of_contains(self.entries@, outpoint@);
                    assert(forall|j: int|
                        0 <= j < self.entries@.len() ==> (#[trigger] self.entries@[j]).0@
                            != outpoint@) by {
                        assert(forall|j: int|
                            0 <= j < self.entries@.len() ==> #[trigger] self.entries@[j] == (if j
                                < i as int {
                                pre[j]
                            } else {
                                pre[j + 1]
                            }));
                    }
                }
                let ghost removed = self.entries@;
                self.entries.push((outpoint, output));
                proof {
                    assert(distinct_keys(self.entries@));
                    assert(self.entries@.drop_last() =~= removed);
                    assert(self@ =~= old(self)@.insert(outpoint@, output@));
                }
            },
            None => {
                self.entries.push((outpoint, output));
                proof {
                    assert(distinct_keys(self.entries@));
                    assert(self.entries@.drop_last() =~= pre);
                    assert(self@ =~= old(self)@.insert(outpoint@, output@));
                }
            },
        }
    }

    /// Spends (removes and returns) the output at `outpoint`; absence
    /// is not an error at this layer.
    pub fn spend(&mut self, outpoint: &OutPoint) -> (r: Option<TxOutput>)
        requires
            old(self).wf(),
        ensures
            final(self).wf(),
            match r {
                Some(o) => old(self)@.contains_key(outpoint@) && o@ == old(self)@[outpoint@]
                    && final(self)@ == old(self)@.remove(outpoint@),
                None => !old(self)@.contains_key(outpoint@) && *final(self) == *old(self),
            },
    {
        proof {
            lemma_map_of_contains(self.entries@, outpoint@);
        }
        match self.find(outpoint) {
            Some(i) => {
                proof {
                    lemma_map_of_value(self.entries@, i as int);
                    lemma_map_of_remove(self.entries@, i as int);
                }
                let e = self.entries.remove(i);
                proof {
                    assert(distinct_keys(self.entries@));
                }
                Some(e.1)
            },
            None => None,
        }
    }

    /// Number of spendable outputs.
    pub fn len(&self) -> (r: usize)
        requires
            self.wf(),
        ensures
            r == self@.dom().len(),
    {
        proof {
            lemma_map_of_len(self.entries@);
        }
        self.entries.len()
    }

    /// Whether nothing is spendable.
    pub fn is_empty(&self) -> (r: bool)
        requires
            self.wf(),
        ensures
            r == (self@.dom().len() == 0),
    {
        proof {
            lemma_map_of_len(self.entries@);
        }
        self.entries.is_empty()
    }

    /// Read-only access to all entries, for observation; one entry per
    /// key of the map, each carrying that key's output.
    pub fn iter(&self) -> (r: &Vec<(OutPoint, TxOutput)>)
        requires
            self.wf(),
        ensures
            r@ == self.entries_seq(),
            r@.len() == self@.dom().len(),
            forall|i: int|
                0 <= i < r@.len() ==> self@.contains_key((#[trigger] r@[i]).0@) && self@[r@[i].0@]
                    == r@[i].1@,
            forall|k: OutPointV|
                self@.contains_key(k) ==> exists|i: int|
                    0 <= i < r@.len() && (#[trigger] r@[i]).0@ == k,
    {
        proof {
            lemma_map_of_len(self.entries@);
            assert forall|i: int| 0 <= i < self.entries@.len() implies self@.contains_key(
                (#[trigger] self.entries@[i]).0@,
            ) && self@[self.entries@[i].0@] == self.entries@[i].1@ by {
                lemma_map_of_value(self.entries@, i);
            }
            assert forall|k: OutPointV| self@.contains_key(k) implies exists|i: int|
                0 <= i < self.entries@.len() && (#[trigger] self.entries@[i]).0@ == k by {
                lemma_map_of_contains(self.entries@, k);
            }
        }
        &self.entries
    }

    /// Inserts one entry per output of `tx`, keyed `(tx.txid, index)`;
    /// used when a confirmed block is applied.
    pub fn add_tx_outputs(&mut self, tx: &Transaction)
        requires
            old(self).wf(),
        ensures
            final(self).wf(),
            final(self)@ == with_tx_outputs(old(self)@, tx@),
    {
        let mut i: usize = 0;
        while i < tx.outputs.len()
            invariant
                i <= tx.outputs@.len(),
                self.wf(),
                self@ == with_outputs_upto(old(self)@, tx@.txid, tx@.outputs, i as int),
            decreases tx.outputs@.len() - i,
        {
            let op = OutPoint { txid: tx.txid.clone(), vout: #[verifier::truncate] (i as u32) };
            let out = tx.outputs[i].clone();
            let ghost opv = op@;
            let ghost outv = out@;
            proof {
                assert(outv == tx@.outputs[i as int]);
                assert(opv == OutPointV { txid: tx@.txid, vout: (i as u32) });
            }
            self.insert(op, out);
            proof {
                assert(self@ == with_outputs_upto(old(self)@, tx@.txid, tx@.outputs, i + 1));
            }
            i = i + 1;
        }
    }
}

/// Total value the entries hold for `addr`.
pub open spec fn address_funds(s: Seq<(OutPoint, TxOutput)>, addr: Seq<char>) -> int
    decreases s.len(),
{
    if s.len() == 0 {
        0
    } else {
        address_funds(s.drop_last(), addr) + if s.last().1.address@ == addr {
            s.last().1.amount as int
        } else {
            0
        }
    }
}

/// How many entries hold value for `addr`.
pub open spec fn address_utxo_count(s: Seq<(OutPoint, TxOutput)>, addr: Seq<char>) -> int
    decreases s.len(),
{
    if s.len() == 0 {
        0
    } else {
        address_utxo_count(s.drop_last(), addr) + if s.last().1.address@ == addr {
            1int
        } else {
            0int
        }
    }
}

/// Sums the spendable value an address owns over a list of entries
/// (as handed out by `UtxoSet::iter`), with the number of entries that
/// carry it.
pub fn address_balance(entries: &Vec<(OutPoint, TxOutput)>, address: &str) -> (r: (u128, usize))
    ensures
        r.0 as int == address_funds(entries@, address@),
        r.1 as int == address_utxo_count(entries@, address@),
{
    let mut sum: u128 = 0;
    let mut count: usize = 0;
    let mut i: usize = 0;
    while i < entries.len()
        invariant
            i <= entries@.len(),
            sum as int == address_funds(entries@.take(i as int), address@),
            count as int == address_utxo_count(entries@.take(i as int), address@),
            count <= i,
            sum as int <= (i as int) * 0xffff_ffff_ffff_ffff,
        decreases entries@.len() - i,
    {
        proof {
            assert(entries@.take(i + 1 as int).drop_last() =~= entries@.take(i as int));
            assert(entries@.take(i + 1 as int).last() == entries@[i as int]);
            assert((i as int) * 0xffff_ffff_ffff_ffff + 0xffff_ffff_ffff_ffff == (i as int + 1)
                * 0xffff_ffff_ffff_ffff) by (nonlinear_arith);
            assert((i as int + 1) * 0xffff_ffff_ffff_ffff <= 0xffff_ffff_ffff_ffff
                * 0xffff_ffff_ffff_ffff) by (nonlinear_arith)
                requires
                    i as int + 1 <= 0xffff_ffff_ffff_ffff,
            ;
        }
        if crate::encode::str_eq(entries[i].1.address.as_str(), address) {
            sum = sum + (entries[i].1.amount as u128);
            count = count + 1;
        }
        i = i + 1;
    }
    proof {
        assert(entries@.take(entries@.len() as int) =~= entries@);
    }
    (sum, count)
}

} // verus!
