//! The content digests every identifier in the ledger is built from:
//! SHA-256 over a preimage string, written out as lowercase hex.
use vstd::prelude::*;
use sha2::Digest;

verus! {

use crate::encode::digit_char;

/// The SHA-256 digest of the UTF-8 bytes of a character sequence.
/// The digest itself is left unspecified; it is a function of the
/// characters alone, which is all the ledger's contracts rely on.
pub uninterp spec fn sha256_of(s: Seq<char>) -> Seq<u8>;

/// The lowercase hex character for `d` (meaningful for `d < 16`).
pub open spec fn hex_char(d: nat) -> char {
    if d < 10 {
        digit_char(d)
    } else if d == 10 {
        'a'
    } else if d == 11 {
        'b'
    } else if d == 12 {
        'c'
    } else if d == 13 {
        'd'
    } else if d == 14 {
        'e'
    } else {
        'f'
    }
}

/// Lowercase hex rendering of a byte sequence: two digits per byte,
/// high nibble first.
pub open spec fn hex_of(b: Seq<u8>) -> Seq<char>
    decreases b.len(),
{
    if b.len() == 0 {
        Seq::empty()
    } else {
        hex_of(b.drop_last()) + seq![
            hex_char((b.last() / 16) as nat),
            hex_char((b.last() % 16) as nat),
        ]
    }
}

/// Relies on sha2::Sha256 (`Digest::update`, `Digest::finalize`): returns
/// the 32-byte SHA-256 digest of the UTF-8 bytes of `s`, a deterministic
/// function of the characters of `s` alone.
#[verifier::external_body]
pub(crate) fn sha256_string(s: &str) -> (r: Vec<u8>)
    ensures
        r@ == sha256_of(s@),
        r@.len() == 32,
{
    let mut hasher = sha2::Sha256::new();
    hasher.update(s.as_bytes());
    hasher.finalize().to_vec()
}

/// Relies on hex::encode: lowercase hex, exactly two digits per byte,
/// high nibble first.
#[verifier::external_body]
pub(crate) fn hex_encode(b: &[u8]) -> (r: String)
    ensures
        r@ == hex_of(b@),
{
    hex::encode(b)
}

/// SHA-256 of the UTF-8 bytes of `s`, rendered as lowercase hex.
pub(crate) fn sha256_hex(s: &str) -> (r: String)
    ensures
        r@ == hex_of(sha256_of(s@)),
{
    let digest = sha256_string(s);
    hex_encode(digest.as_slice())
}

} // verus!
