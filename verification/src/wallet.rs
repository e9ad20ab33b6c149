//! The signature capability at the ledger's boundary: deriving an
//! address from a public key and verifying an ECDSA signature.  The
//! ledger treats both as opaque, deterministic and side-effect-free.
use vstd::prelude::*;

verus! {

/// The address derived from a hex-encoded public key: `Some(address)`
/// for a well-formed key, `None` otherwise.  A deterministic function
/// of the characters alone.
pub uninterp spec fn address_of_pubkey(pubkey_hex: Seq<char>) -> Option<Seq<char>>;

/// Relies on hex::decode, secp256k1::PublicKey::from_slice,
/// secp256k1::PublicKey::serialize and hex::encode: the address of a
/// public key is the lowercase hex of its compressed serialization;
/// an error is returned exactly when the input is not valid hex or not
/// a valid public key.
#[verifier::external_body]
pub fn pubkey_to_address_hex(pubkey_hex: &str) -> (r: Result<String, &'static str>)
    ensures
        match r {
            Ok(a) => address_of_pubkey(pubkey_hex@) == Some(a@),
            Err(_) => address_of_pubkey(pubkey_hex@) == None::<Seq<char>>,
        },
{
    let bytes = hex::decode(pubkey_hex).map_err(|_| "invalid pubkey hex")?;
    let pk = secp256k1::PublicKey::from_slice(&bytes).map_err(|_| "invalid pubkey bytes")?;
    Ok(hex::encode(pk.serialize()))
}

/// The verdict of ECDSA verification for a hex public key, a hex DER
/// signature and a message: `None` when any part is malformed (bad hex,
/// bad DER, bad key, message not 32 bytes), otherwise `Some` of the
/// verification outcome.  A deterministic function of the arguments
/// alone.
pub uninterp spec fn sig_verdict(pubkey_hex: Seq<char>, sig_hex: Seq<char>, msg: Seq<u8>) -> Option<
    bool,
>;

/// Relies on hex::decode, secp256k1::ecdsa::Signature::from_der,
/// secp256k1::PublicKey::from_slice, secp256k1::Message::from_slice and
/// secp256k1::Secp256k1::verify_ecdsa: an error is returned exactly when
/// decoding fails, `Ok` of the verification outcome otherwise.
#[verifier::external_body]
pub fn verify_signature_hex(pubkey_hex: &str, sig_hex: &str, msg: &[u8]) -> (r: Result<
    bool,
    &'static str,
>)
    ensures
        match r {
            Ok(b) => sig_verdict(pubkey_hex@, sig_hex@, msg@) == Some(b),
            Err(_) => sig_verdict(pubkey_hex@, sig_hex@, msg@) == None::<bool>,
        },
{
    let secp = secp256k1::Secp256k1::verification_only();
    let sig_bytes = hex::decode(sig_hex).map_err(|_| "invalid signature hex")?;
    let sig = secp256k1::ecdsa::Signature::from_der(&sig_bytes).map_err(
        |_| "invalid DER signature",
    )?;
    let pk_bytes = hex::decode(pubkey_hex).map_err(|_| "invalid pubkey hex")?;
    let pk = secp256k1::PublicKey::from_slice(&pk_bytes).map_err(|_| "invalid pubkey bytes")?;
    let m = secp256k1::Message::from_slice(msg).map_err(|_| "invalid message length")?;
    Ok(secp.verify_ecdsa(&m, &sig, &pk).is_ok())
}

} // verus!
