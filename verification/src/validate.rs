//! Validation of a submitted transaction against a snapshot of the
//! UTXO set: structural, ownership, cryptographic and economic checks,
//! each a distinct failure, in a fixed order.  Validation never mutates
//! the snapshot.
use vstd::prelude::*;

verus! {

use crate::tx::{Transaction, TxV, TxInV, TxOutV, OutPointV, output_sum, sighash_of, inputs_view};
use crate::utxo::UtxoSet;
use crate::wallet::{address_of_pubkey, sig_verdict, pubkey_to_address_hex, verify_signature_hex};

/// Why a submitted transaction was refused.
#[derive(Debug, Clone, Copy, PartialEq, Eq)]
pub enum ValidationError {
    /// Zero inputs: coinbase-shaped transactions are built internally
    /// only, never admitted from submission.
    MissingInputs,
    /// Two inputs reference the same outpoint.
    DuplicateInput,
    /// A referenced outpoint is not in the UTXO snapshot.
    UnknownOutput,
    /// An input's public key is not well formed.
    BadPublicKey,
    /// The address derived from an input's public key is not the
    /// address of the referenced output.
    OwnershipMismatch,
    /// An input carries an empty signature.
    MissingSignature,
    /// An input's signature could not be decoded.
    MalformedSignature,
    /// An input's signature does not verify against the sighash.
    InvalidSignature,
    /// The inputs provide less than the outputs declare.
    InsufficientFunds,
}

/// Two inputs reference the same outpoint.
pub open spec fn dup_inputs(inputs: Seq<TxInV>) -> bool {
    exists|i: int, j: int|
        0 <= i < j < inputs.len() && (#[trigger] inputs[i]).outpoint == (
        #[trigger] inputs[j]).outpoint
}

/// Sum of the amounts of the outputs the inputs reference, as a
/// mathematical integer; meaningful when every outpoint is present.
pub open spec fn input_sum(inputs: Seq<TxInV>, u: Map<OutPointV, TxOutV>) -> int
    decreases inputs.len(),
{
    if inputs.len() == 0 {
        0
    } else {
        input_sum(inputs.drop_last(), u) + u[inputs.last().outpoint].amount
    }
}

/// The first per-input failure at or after position `i`: unknown
/// outpoint, bad public key, ownership mismatch, missing signature,
/// undecodable signature, failed verification — in that order per
/// input, inputs in order.
pub open spec fn input_check(
    inputs: Seq<TxInV>,
    u: Map<OutPointV, TxOutV>,
    sighash: Seq<u8>,
    i: int,
) -> Option<ValidationError>
    decreases inputs.len() - i,
{
    if i < 0 || i >= inputs.len() {
        None
    } else {
        let inp = inputs[i];
        if !u.contains_key(inp.outpoint) {
            Some(ValidationError::UnknownOutput)
        } else {
            match address_of_pubkey(inp.pubkey) {
                None => Some(ValidationError::BadPublicKey),
                Some(addr) => if u[inp.outpoint].address != addr {
                    Some(ValidationError::OwnershipMismatch)
                } else if inp.signature.len() == 0 {
                    Some(ValidationError::MissingSignature)
                } else {
                    match sig_verdict(inp.pubkey, inp.signature, sighash) {
                        None => Some(ValidationError::MalformedSignature),
                        Some(false) => Some(ValidationError::InvalidSignature),
                        Some(true) => input_check(inputs, u, sighash, i + 1),
                    }
                },
            }
        }
    }
}

/// The validation verdict on a transaction against a UTXO snapshot:
/// at least one input, no duplicate outpoints, every input known,
/// owned, signed and verified, and inputs covering outputs — the first
/// failure wins.
pub open spec fn validate_spec(t: TxV, u: Map<OutPointV, TxOutV>) -> Result<(), ValidationError> {
    if t.inputs.len() == 0 {
        Err(ValidationError::MissingInputs)
    } else if dup_inputs(t.inputs) {
        Err(ValidationError::DuplicateInput)
    } else {
        match input_check(t.inputs, u, sighash_of(t.inputs, t.outputs), 0) {
            Some(e) => Err(e),
            None => if input_sum(t.inputs, u) < output_sum(t.outputs) {
                Err(ValidationError::InsufficientFunds)
            } else {
                Ok(())
            },
        }
    }
}

/// A transaction declaring more in outputs than its inputs provide is
/// never admitted, whatever else holds of it.
pub proof fn lemma_overspend_rejected(t: TxV, u: Map<OutPointV, TxOutV>)
    ensures
        output_sum(t.outputs) > input_sum(t.inputs, u) ==> validate_spec(t, u).is_err(),
{
}

/// A transaction is admitted exactly when it has inputs, no duplicate
/// outpoints, every input passes the per-input checks, and the inputs
/// cover the outputs; in particular a zero-fee transaction (equal sums)
/// is admitted when otherwise valid.
pub proof fn lemma_validate_ok_iff(t: TxV, u: Map<OutPointV, TxOutV>)
    ensures
        (validate_spec(t, u) == Ok::<(), ValidationError>(())) <==> {
            &&& t.inputs.len() > 0
            &&& !dup_inputs(t.inputs)
            &&& input_check(t.inputs, u, sighash_of(t.inputs, t.outputs), 0)
                == None::<ValidationError>
            &&& input_sum(t.inputs, u) >= output_sum(t.outputs)
        },
{
}

proof fn lemma_err_exit(tv: TxV, u: Map<OutPointV, TxOutV>, h: Seq<u8>, k: int, e: ValidationError)
    requires
        tv.inputs.len() > 0,
        !dup_inputs(tv.inputs),
        h == sighash_of(tv.inputs, tv.outputs),
        input_check(tv.inputs, u, h, 0) == input_check(tv.inputs, u, h, k),
        input_check(tv.inputs, u, h, k) == Some(e),
    ensures
        validate_spec(tv, u) == Err::<(), ValidationError>(e),
{
}

/// Checks a single transaction against a UTXO snapshot.  Read-only:
/// the snapshot is never mutated here; mutation happens only when a
/// block containing the transaction is confirmed.
pub fn validate_transaction(tx: &Transaction, utxo: &UtxoSet) -> (r: Result<(), ValidationError>)
    requires
        utxo.wf(),
    ensures
        r == validate_spec(tx@, utxo@),
{
    let ghost tv = tx@;
    let ghost u = utxo@;
    if tx.inputs.len() == 0 {
        return Err(ValidationError::MissingInputs);
    }
    // Duplicate-outpoint rejection.
    let mut i: usize = 0;
    while i < tx.inputs.len()
        invariant
            i <= tv.inputs.len(),
            tv == tx@,
            forall|a: int, b: int|
                0 <= a < b < i ==> (#[trigger] tv.inputs[a]).outpoint != (
                #[trigger] tv.inputs[b]).outpoint,
        decreases tv.inputs.len() - i,
    {
        let mut j: usize = 0;
        while j < i
            invariant
                j <= i < tv.inputs.len(),
                tv == tx@,
                forall|a: int|
                    0 <= a < j ==> (#[trigger] tv.inputs[a]).outpoint != tv.inputs[i as int].outpoint,
            decreases i - j,
        {
            let a = &tx.inputs[j].outpoint;
            let b = &tx.inputs[i].outpoint;
            if a.txid.eq(&b.txid) && a.vout == b.vout {
                proof {
                    assert(tv.inputs[j as int].outpoint == tv.inputs[i as int].outpoint);
                    assert(dup_inputs(tv.inputs));
                }
                return Err(ValidationError::DuplicateInput);
            }
            j = j + 1;
        }
        i = i + 1;
    }
    proof {
        assert(!dup_inputs(tv.inputs));
    }
    // Existence, ownership, signature of each input, in order, summing
    // the referenced amounts as they pass.
    let sighash = tx.sighash();
    let ghost h = sighash_of(tv.inputs, tv.outputs);
    let mut sum: u128 = 0;
    let mut k: usize = 0;
    while k < tx.inputs.len()
        invariant
            k <= tv.inputs.len(),
            tv == tx@,
            u == utxo@,
            utxo.wf(),
            tv.inputs.len() > 0,
            !dup_inputs(tv.inputs),
            sighash@ == h,
            h == sighash_of(tv.inputs, tv.outputs),
            input_check(tv.inputs, u, h, 0) == input_check(tv.inputs, u, h, k as int),
            sum as int == input_sum(tv.inputs.take(k as int), u),
            sum as int <= (k as int) * 0xffff_ffff_ffff_ffff,
        decreases tv.inputs.len() - k,
    {
        let inp = &tx.inputs[k];
        let prev = match utxo.get(&inp.outpoint) {
            Some(p) => p,
            None => {
                proof {
                    assert(input_check(tv.inputs, u, h, k as int) == Some(
                        ValidationError::UnknownOutput,
                    ));
                    lemma_err_exit(tv, u, h, k as int, ValidationError::UnknownOutput);
                }
                return Err(ValidationError::UnknownOutput);
            },
        };
        let derived = match pubkey_to_address_hex(inp.pubkey.as_str()) {
            Ok(a) => a,
            Err(_) => {
                proof {
                    assert(input_check(tv.inputs, u, h, k as int) == Some(
                        ValidationError::BadPublicKey,
                    ));
                    lemma_err_exit(tv, u, h, k as int, ValidationError::BadPublicKey);
                }
                return Err(ValidationError::BadPublicKey);
            },
        };
        if !prev.address.eq(&derived) {
            proof {
                assert(input_check(tv.inputs, u, h, k as int) == Some(
                    ValidationError::OwnershipMismatch,
                ));
                lemma_err_exit(tv, u, h, k as int, ValidationError::OwnershipMismatch);
            }
            return Err(ValidationError::OwnershipMismatch);
        }
        if inp.signature.as_str().is_empty() {
            proof {
                assert(input_check(tv.inputs, u, h, k as int) == Some(
                    ValidationError::MissingSignature,
                ));
                lemma_err_exit(tv, u, h, k as int, ValidationError::MissingSignature);
            }
            return Err(ValidationError::MissingSignature);
        }
        let verdict = verify_signature_hex(
            inp.pubkey.as_str(),
            inp.signature.as_str(),
            sighash.as_slice(),
        );
        match verdict {
            Err(_) => {
                proof {
                    assert(input_check(tv.inputs, u, h, k as int) == Some(
                        ValidationError::MalformedSignature,
                    ));
                    lemma_err_exit(tv, u, h, k as int, ValidationError::MalformedSignature);
                }
                return Err(ValidationError::MalformedSignature);
            },
            Ok(false) => {
                proof {
                    assert(input_check(tv.inputs, u, h, k as int) == Some(
                        ValidationError::InvalidSignature,
                    ));
                    lemma_err_exit(tv, u, h, k as int, ValidationError::InvalidSignature);
                }
                return Err(ValidationError::InvalidSignature);
            },
            Ok(true) => {},
        }
        proof {
            assert(input_check(tv.inputs, u, h, k as int) == input_check(tv.inputs, u, h, k + 1));
            assert(tv.inputs.take(k + 1 as int).drop_last() =~= tv.inputs.take(k as int));
            assert(tv.inputs.take(k + 1 as int).last() == tv.inputs[k as int]);
            assert(u[tv.inputs[k as int].outpoint].amount == prev@.amount);
            assert((k as int) * 0xffff_ffff_ffff_ffff + 0xffff_ffff_ffff_ffff == (k as int + 1)
                * 0xffff_ffff_ffff_ffff) by (nonlinear_arith);
            assert((k as int + 1) * 0xffff_ffff_ffff_ffff <= 0xffff_ffff_ffff_ffff
                * 0xffff_ffff_ffff_ffff) by (nonlinear_arith)
                requires
                    k as int + 1 <= 0xffff_ffff_ffff_ffff,
            ;
        }
        sum = sum + (prev.amount as u128);
        k = k + 1;
    }
    proof {
        assert(tv.inputs.take(tv.inputs.len() as int) =~= tv.inputs);
    }
    // Economics: inputs must cover outputs; the difference is the fee.
    let out_total = tx.total_output_amount();
    if sum < out_total {
        return Err(ValidationError::InsufficientFunds);
    }
    Ok(())
}

} // verus!
