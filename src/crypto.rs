//! Calls into the hashing, signature and hex crates.
use vstd::prelude::*;
use sha2::Digest;

verus! {

/// What SHA-256 yields for a byte string.
pub uninterp spec fn sha256_of(data: Seq<u8>) -> Seq<u8>;

/// The uncompressed SEC1 public key that secp256k1 recovery yields from a
/// 32-byte prehash, a 64-byte `r || s` signature and the y-parity bit, if any.
pub uninterp spec fn recovered_key_of(prehash: Seq<u8>, sig: Seq<u8>, parity: bool) -> Option<Seq<u8>>;

/// The ASCII bytes of the lower-case hex text of a byte string.
pub uninterp spec fn hex_text_of(data: Seq<u8>) -> Seq<u8>;

/// The bytes that a hex text denotes, if it is valid hex.
pub uninterp spec fn hex_bytes_of(text: Seq<char>) -> Option<Seq<u8>>;

/// Relies on sha2's `Sha256::digest`: the 32-byte digest of the input.
#[verifier::external_body]
pub fn sha256(data: &[u8]) -> (r: [u8; 32])
    ensures
        r@ == sha256_of(data@),
{
    sha2::Sha256::digest(data).into()
}

/// Relies on k256's `VerifyingKey::recover_from_prehash` (after
/// `Signature::from_slice` and `RecoveryId::from_byte`): the recovered key in
/// uncompressed form, which `to_encoded_point(false)` gives as 65 bytes.
#[verifier::external_body]
pub fn recover_key(prehash: &[u8; 32], sig: &[u8; 64], parity: bool) -> (r: Option<Vec<u8>>)
    ensures
        r is Some == recovered_key_of(prehash@, sig@, parity) is Some,
        r is Some ==> r->0@ == recovered_key_of(prehash@, sig@, parity)->0,
        r is Some ==> r->0@.len() == 65,
{
    let signature = k256::ecdsa::Signature::from_slice(sig).ok()?;
    let recid = k256::ecdsa::RecoveryId::from_byte(parity as u8)?;
    let key = k256::ecdsa::VerifyingKey::recover_from_prehash(prehash, &signature, recid).ok()?;
    Some(key.to_encoded_point(false).as_bytes().to_vec())
}

/// Relies on `hex::encode`: two lower-case hex digits per byte.
#[verifier::external_body]
pub fn hex_text(data: &[u8]) -> (r: Vec<u8>)
    ensures
        r@ == hex_text_of(data@),
        r@.len() == 2 * data@.len(),
{
    hex::encode(data).into_bytes()
}

/// Relies on `hex::decode`: the bytes of a valid hex text, or `None`.
#[verifier::external_body]
pub fn hex_decode(text: &str) -> (r: Option<Vec<u8>>)
    ensures
        r is Some == hex_bytes_of(text@) is Some,
        r is Some ==> r->0@ == hex_bytes_of(text@)->0,
{
    hex::decode(text).ok()
}

} // verus!
