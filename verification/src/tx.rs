//! The transaction model: outputs, inputs referencing prior outputs by
//! outpoint, and transactions whose identifier is a digest of their
//! canonical encoding.
use vstd::prelude::*;

verus! {

use crate::encode::{dec_of, nstr_of, append_nstr, dec_u64_string};
use crate::digest::{sha256_of, hex_of, sha256_string, hex_encode};
use vstd::string::StrSliceExecFns;

/// Mathematical value of an outpoint.
pub struct OutPointV {
    pub txid: Seq<char>,
    pub vout: u32,
}

/// Mathematical value of an output.
pub struct TxOutV {
    pub address: Seq<char>,
    pub amount: u64,
}

/// Mathematical value of an input.
pub struct TxInV {
    pub outpoint: OutPointV,
    pub pubkey: Seq<char>,
    pub signature: Seq<char>,
}

/// Mathematical value of a transaction.
pub struct TxV {
    pub txid: Seq<char>,
    pub inputs: Seq<TxInV>,
    pub outputs: Seq<TxOutV>,
}

/// Identifies one output of one transaction: the identifier of the
/// transaction that created it and the position in its output list.
#[derive(Debug, PartialEq, Eq)]
pub struct OutPoint {
    pub txid: String,
    pub vout: u32,
}

impl View for OutPoint {
    type V = OutPointV;

    open spec fn view(&self) -> OutPointV {
        OutPointV { txid: self.txid@, vout: self.vout }
    }
}

impl Clone for OutPoint {
    fn clone(&self) -> (r: Self)
        ensures
            r@ == self@,
    {
        OutPoint { txid: self.txid.clone(), vout: self.vout }
    }
}

/// A spendable output: an owning address and an amount in the
/// indivisible base unit.
#[derive(Debug, PartialEq, Eq)]
pub struct TxOutput {
    pub address: String,
    pub amount: u64,
}

impl View for TxOutput {
    type V = TxOutV;

    open spec fn view(&self) -> TxOutV {
        TxOutV { address: self.address@, amount: self.amount }
    }
}

impl Clone for TxOutput {
    fn clone(&self) -> (r: Self)
        ensures
            r@ == self@,
    {
        TxOutput { address: self.address.clone(), amount: self.amount }
    }
}

/// An input: a reference to one prior output and the proof of the right
/// to spend it (hex public key and hex DER signature).
#[derive(Debug, PartialEq, Eq)]
pub struct TxInput {
    pub outpoint: OutPoint,
    pub pubkey: String,
    pub signature: String,
}

impl View for TxInput {
    type V = TxInV;

    open spec fn view(&self) -> TxInV {
        TxInV { outpoint: self.outpoint@, pubkey: self.pubkey@, signature: self.signature@ }
    }
}

impl Clone for TxInput {
    fn clone(&self) -> (r: Self)
        ensures
            r@ == self@,
    {
        TxInput {
            outpoint: self.outpoint.clone(),
            pubkey: self.pubkey.clone(),
            signature: self.signature.clone(),
        }
    }
}

/// A transfer: inputs consuming prior outputs, outputs creating new
/// spendable value, and an identifier derived from the content.
#[derive(Debug, PartialEq, Eq)]
pub struct Transaction {
    pub txid: String,
    pub inputs: Vec<TxInput>,
    pub outputs: Vec<TxOutput>,
}

/// The views of a sequence of inputs.
pub open spec fn inputs_view(s: Seq<TxInput>) -> Seq<TxInV> {
    s.map_values(|x: TxInput| x@)
}

/// The views of a sequence of outputs.
pub open spec fn outputs_view(s: Seq<TxOutput>) -> Seq<TxOutV> {
    s.map_values(|x: TxOutput| x@)
}

/// The views of a sequence of outpoints.
pub open spec fn outpoints_view(s: Seq<OutPoint>) -> Seq<OutPointV> {
    s.map_values(|x: OutPoint| x@)
}

/// The views of a sequence of transactions.
pub open spec fn txs_view(s: Seq<Transaction>) -> Seq<TxV> {
    s.map_values(|x: Transaction| x@)
}

impl View for Transaction {
    type V = TxV;

    open spec fn view(&self) -> TxV {
        TxV {
            txid: self.txid@,
            inputs: inputs_view(self.inputs@),
            outputs: outputs_view(self.outputs@),
        }
    }
}

impl Clone for Transaction {
    fn clone(&self) -> (r: Self)
        ensures
            r@ == self@,
    {
        let mut ins: Vec<TxInput> = Vec::new();
        let mut i: usize = 0;
        while i < self.inputs.len()
            invariant
                i <= self.inputs.len(),
                ins@.len() == i,
                forall|j: int| 0 <= j < i ==> ins@[j]@ == self.inputs@[j]@,
            decreases self.inputs.len() - i,
        {
            ins.push(self.inputs[i].clone());
            i = i + 1;
        }
        let mut outs: Vec<TxOutput> = Vec::new();
        let mut k: usize = 0;
        while k < self.outputs.len()
            invariant
                k <= self.outputs.len(),
                outs@.len() == k,
                forall|j: int| 0 <= j < k ==> outs@[j]@ == self.outputs@[j]@,
            decreases self.outputs.len() - k,
        {
            outs.push(self.outputs[k].clone());
            k = k + 1;
        }
        let r = Transaction { txid: self.txid.clone(), inputs: ins, outputs: outs };
        proof {
            assert(inputs_view(r.inputs@) =~= inputs_view(self.inputs@));
            assert(outputs_view(r.outputs@) =~= outputs_view(self.outputs@));
        }
        r
    }
}

// ------------------------------------------------------------------
// Canonical encodings.  Every identifier in the ledger is the digest
// of one of these deterministic, order-preserving renderings.
// ------------------------------------------------------------------

/// Encoding of an outpoint.
pub open spec fn enc_outpoint(o: OutPointV) -> Seq<char> {
    "("@ + nstr_of(o.txid) + ","@ + dec_of(o.vout as nat) + ")"@
}

/// Encoding of an input, signature and public key included.
pub open spec fn enc_input(i: TxInV) -> Seq<char> {
    "i"@ + enc_outpoint(i.outpoint) + "("@ + nstr_of(i.pubkey) + ","@ + nstr_of(i.signature)
        + ")"@
}

/// Encoding of an output.
pub open spec fn enc_output(o: TxOutV) -> Seq<char> {
    "o("@ + nstr_of(o.address) + ","@ + dec_of(o.amount as nat) + ")"@
}

/// Concatenated encodings of a list of inputs, in order.
pub open spec fn enc_inputs(s: Seq<TxInV>) -> Seq<char>
    decreases s.len(),
{
    if s.len() == 0 {
        Seq::empty()
    } else {
        enc_inputs(s.drop_last()) + enc_input(s.last())
    }
}

/// Concatenated encodings of a list of outputs, in order.
pub open spec fn enc_outputs(s: Seq<TxOutV>) -> Seq<char>
    decreases s.len(),
{
    if s.len() == 0 {
        Seq::empty()
    } else {
        enc_outputs(s.drop_last()) + enc_output(s.last())
    }
}

/// Concatenated encodings of the outpoints of a list of inputs, in
/// order, with signatures and public keys left out.
pub open spec fn enc_outpoints(s: Seq<TxInV>) -> Seq<char>
    decreases s.len(),
{
    if s.len() == 0 {
        Seq::empty()
    } else {
        enc_outpoints(s.drop_last()) + enc_outpoint(s.last().outpoint)
    }
}

/// The preimage of a transaction identifier: inputs (signatures
/// included) and outputs.
pub open spec fn tx_body_enc(inputs: Seq<TxInV>, outputs: Seq<TxOutV>) -> Seq<char> {
    "tx["@ + enc_inputs(inputs) + ";"@ + enc_outputs(outputs) + "]"@
}

/// The canonical signable content: the referenced outpoints and the
/// outputs, with signatures and public keys excluded, so that signing
/// never changes the signed content.
pub open spec fn signing_enc(inputs: Seq<TxInV>, outputs: Seq<TxOutV>) -> Seq<char> {
    "sg["@ + enc_outpoints(inputs) + ";"@ + enc_outputs(outputs) + "]"@
}

/// The transaction identifier: digest of the full content.
pub open spec fn txid_of(inputs: Seq<TxInV>, outputs: Seq<TxOutV>) -> Seq<char> {
    hex_of(sha256_of(tx_body_enc(inputs, outputs)))
}

/// The sighash: digest of the signable content.
pub open spec fn sighash_of(inputs: Seq<TxInV>, outputs: Seq<TxOutV>) -> Seq<u8> {
    sha256_of(signing_enc(inputs, outputs))
}

/// Encoding of a whole transaction, identifier included; blocks hash
/// over this rendering.
pub open spec fn enc_tx(t: TxV) -> Seq<char> {
    "T["@ + nstr_of(t.txid) + ","@ + enc_inputs(t.inputs) + ";"@ + enc_outputs(t.outputs) + "]"@
}

/// Concatenated encodings of a list of transactions, in order.
pub open spec fn enc_txs(s: Seq<TxV>) -> Seq<char>
    decreases s.len(),
{
    if s.len() == 0 {
        Seq::empty()
    } else {
        enc_txs(s.drop_last()) + enc_tx(s.last())
    }
}

fn append_outpoint(s: &mut String, o: &OutPoint)
    ensures
        final(s)@ == old(s)@ + enc_outpoint(o@),
{
    let ghost pre = s@;
    s.append("(");
    append_nstr(s, o.txid.as_str());
    s.append(",");
    let d = dec_u64_string(o.vout as u64);
    s.append(d.as_str());
    s.append(")");
    proof {
        assert(s@ =~= pre + enc_outpoint(o@));
    }
}

fn append_input(s: &mut String, i: &TxInput)
    ensures
        final(s)@ == old(s)@ + enc_input(i@),
{
    let ghost pre = s@;
    s.append("i");
    append_outpoint(s, &i.outpoint);
    s.append("(");
    append_nstr(s, i.pubkey.as_str());
    s.append(",");
    append_nstr(s, i.signature.as_str());
    s.append(")");
    proof {
        assert(s@ =~= pre + enc_input(i@));
    }
}

fn append_output(s: &mut String, o: &TxOutput)
    ensures
        final(s)@ == old(s)@ + enc_output(o@),
{
    let ghost pre = s@;
    s.append("o(");
    append_nstr(s, o.address.as_str());
    s.append(",");
    let d = dec_u64_string(o.amount);
    s.append(d.as_str());
    s.append(")");
    proof {
        assert(s@ =~= pre + enc_output(o@));
    }
}

fn append_inputs(s: &mut String, v: &Vec<TxInput>)
    ensures
        final(s)@ == old(s)@ + enc_inputs(inputs_view(v@)),
{
    let ghost pre = s@;
    let mut i: usize = 0;
    while i < v.len()
        invariant
            i <= v.len(),
            s@ == pre + enc_inputs(inputs_view(v@.take(i as int))),
        decreases v.len() - i,
    {
        append_input(s, &v[i]);
        proof {
            assert(inputs_view(v@.take(i + 1 as int)).drop_last() =~= inputs_view(
                v@.take(i as int),
            ));
            assert(inputs_view(v@.take(i + 1 as int)).last() == v@[i as int]@);
        }
        i = i + 1;
    }
    proof {
        assert(v@.take(v@.len() as int) =~= v@);
    }
}

fn append_outputs(s: &mut String, v: &Vec<TxOutput>)
    ensures
        final(s)@ == old(s)@ + enc_outputs(outputs_view(v@)),
{
    let ghost pre = s@;
    let mut i: usize = 0;
    while i < v.len()
        invariant
            i <= v.len(),
            s@ == pre + enc_outputs(outputs_view(v@.take(i as int))),
        decreases v.len() - i,
    {
        append_output(s, &v[i]);
        proof {
            assert(outputs_view(v@.take(i + 1 as int)).drop_last() =~= outputs_view(
                v@.take(i as int),
            ));
            assert(outputs_view(v@.take(i + 1 as int)).last() == v@[i as int]@);
        }
        i = i + 1;
    }
    proof {
        assert(v@.take(v@.len() as int) =~= v@);
    }
}

fn append_outpoints(s: &mut String, v: &Vec<TxInput>)
    ensures
        final(s)@ == old(s)@ + enc_outpoints(inputs_view(v@)),
{
    let ghost pre = s@;
    let mut i: usize = 0;
    while i < v.len()
        invariant
            i <= v.len(),
            s@ == pre + enc_outpoints(inputs_view(v@.take(i as int))),
        decreases v.len() - i,
    {
        append_outpoint(s, &v[i].outpoint);
        proof {
            assert(inputs_view(v@.take(i + 1 as int)).drop_last() =~= inputs_view(
                v@.take(i as int),
            ));
            assert(inputs_view(v@.take(i + 1 as int)).last() == v@[i as int]@);
        }
        i = i + 1;
    }
    proof {
        assert(v@.take(v@.len() as int) =~= v@);
    }
}

/// Builds the identifier preimage of a transaction with these inputs
/// and outputs.
fn tx_body_string(inputs: &Vec<TxInput>, outputs: &Vec<TxOutput>) -> (r: String)
    ensures
        r@ == tx_body_enc(inputs_view(inputs@), outputs_view(outputs@)),
{
    let mut s = String::new();
    s.append("tx[");
    append_inputs(&mut s, inputs);
    s.append(";");
    append_outputs(&mut s, outputs);
    s.append("]");
    proof {
        assert(s@ =~= tx_body_enc(inputs_view(inputs@), outputs_view(outputs@)));
    }
    s
}

/// Appends the encoding of one whole transaction.
fn append_tx(s: &mut String, t: &Transaction)
    ensures
        final(s)@ == old(s)@ + enc_tx(t@),
{
    let ghost pre = s@;
    s.append("T[");
    append_nstr(s, t.txid.as_str());
    s.append(",");
    append_inputs(s, &t.inputs);
    s.append(";");
    append_outputs(s, &t.outputs);
    s.append("]");
    proof {
        assert(s@ =~= pre + enc_tx(t@));
    }
}

/// Appends the encodings of a list of transactions, in order.
pub fn append_txs(s: &mut String, v: &Vec<Transaction>)
    ensures
        final(s)@ == old(s)@ + enc_txs(txs_view(v@)),
{
    let ghost pre = s@;
    let mut i: usize = 0;
    while i < v.len()
        invariant
            i <= v.len(),
            s@ == pre + enc_txs(txs_view(v@.take(i as int))),
        decreases v.len() - i,
    {
        append_tx(s, &v[i]);
        proof {
            assert(txs_view(v@.take(i + 1 as int)).drop_last() =~= txs_view(v@.take(i as int)));
            assert(txs_view(v@.take(i + 1 as int)).last() == v@[i as int]@);
        }
        i = i + 1;
    }
    proof {
        assert(v@.take(v@.len() as int) =~= v@);
    }
}

/// Clones a list of transactions, value for value.
pub fn clone_transactions(v: &Vec<Transaction>) -> (r: Vec<Transaction>)
    ensures
        txs_view(r@) == txs_view(v@),
{
    let mut out: Vec<Transaction> = Vec::new();
    let mut i: usize = 0;
    while i < v.len()
        invariant
            i <= v.len(),
            out@.len() == i,
            forall|j: int| 0 <= j < i ==> out@[j]@ == v@[j]@,
        decreases v.len() - i,
    {
        out.push(v[i].clone());
        i = i + 1;
    }
    proof {
        assert(txs_view(out@) =~= txs_view(v@));
    }
    out
}

/// Sum of the amounts of a list of outputs, as a mathematical integer.
pub open spec fn output_sum(s: Seq<TxOutV>) -> int
    decreases s.len(),
{
    if s.len() == 0 {
        0
    } else {
        output_sum(s.drop_last()) + s.last().amount
    }
}

impl Transaction {
    /// Builds a transaction; the identifier is always recomputed from
    /// the content here and never supplied by a caller.
    pub fn new(inputs: Vec<TxInput>, outputs: Vec<TxOutput>) -> (r: Transaction)
        ensures
            r.inputs@ == inputs@,
            r.outputs@ == outputs@,
            r@.inputs == inputs_view(inputs@),
            r@.outputs == outputs_view(outputs@),
            r@.txid == txid_of(inputs_view(inputs@), outputs_view(outputs@)),
    {
        let body = tx_body_string(&inputs, &outputs);
        let digest = sha256_string(body.as_str());
        let txid = hex_encode(digest.as_slice());
        Transaction { txid, inputs, outputs }
    }

    /// Total amount declared by the outputs.
    pub fn total_output_amount(&self) -> (r: u128)
        ensures
            r as int == output_sum(self@.outputs),
    {
        let mut sum: u128 = 0;
        let mut i: usize = 0;
        while i < self.outputs.len()
            invariant
                i <= self.outputs.len(),
                sum as int == output_sum(outputs_view(self.outputs@).take(i as int)),
                sum as int <= (i as int) * 0xffff_ffff_ffff_ffff,
            decreases self.outputs.len() - i,
        {
            proof {
                assert(outputs_view(self.outputs@).take(i + 1 as int).drop_last() =~= outputs_view(
                    self.outputs@,
                ).take(i as int));
                assert((i as int) * 0xffff_ffff_ffff_ffff + 0xffff_ffff_ffff_ffff == (i as int + 1)
                    * 0xffff_ffff_ffff_ffff) by (nonlinear_arith);
                assert((i as int + 1) * 0xffff_ffff_ffff_ffff <= 0xffff_ffff_ffff_ffff
                    * 0xffff_ffff_ffff_ffff) by (nonlinear_arith)
                    requires
                        i as int + 1 <= 0xffff_ffff_ffff_ffff,
                ;
            }
            sum = sum + (self.outputs[i].amount as u128);
            i = i + 1;
        }
        proof {
            assert(outputs_view(self.outputs@).take(self.outputs@.len() as int) =~= outputs_view(
                self.outputs@,
            ));
        }
        sum
    }

    /// The canonical signable content of this transaction, as a string;
    /// what an owner hashes and signs.
    pub fn signing_payload(&self) -> (r: String)
        ensures
            r@ == signing_enc(self@.inputs, self@.outputs),
    {
        let mut s = String::new();
        s.append("sg[");
        append_outpoints(&mut s, &self.inputs);
        s.append(";");
        append_outputs(&mut s, &self.outputs);
        s.append("]");
        proof {
            assert(s@ =~= signing_enc(self@.inputs, self@.outputs));
        }
        s
    }

    /// SHA-256 of the signable content: the message each input's owner
    /// signs.
    pub fn sighash(&self) -> (r: Vec<u8>)
        ensures
            r@ == sighash_of(self@.inputs, self@.outputs),
            r@.len() == 32,
    {
        let payload = self.signing_payload();
        sha256_string(payload.as_str())
    }

    /// Serialized size of this transaction, in characters of its
    /// canonical encoding; the block-assembly byte budget counts this.
    pub fn vsize_bytes(&self) -> (r: usize)
        ensures
            r as nat == enc_tx(self@).len(),
    {
        let mut s = String::new();
        append_tx(&mut s, self);
        proof {
            assert(s@ =~= enc_tx(self@));
        }
        s.as_str().unicode_len()
    }
}

} // verus!
