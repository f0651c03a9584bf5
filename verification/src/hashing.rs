//! Trusted boundary to the cryptographic primitives: the BLAKE3 digest
//! and Ed25519 signature verification. Each digest or verdict is named
//! by an uninterpreted function of the inputs alone; everything the
//! library proves about commitments goes through those names.

use vstd::prelude::*;
use ed25519_dalek::Verifier;

verus! {

/// The 32-byte BLAKE3 digest of a byte string.
pub uninterp spec fn blake3_of(data: Seq<u8>) -> Seq<u8>;

/// Whether `sig` is a valid Ed25519 signature over `msg` under the
/// public key `pk`; false as well when `pk` is not a valid key.
pub uninterp spec fn ed25519_verifies(pk: Seq<u8>, msg: Seq<u8>, sig: Seq<u8>) -> bool;

/// Relies on blake3::hash: a 32-byte digest that depends on the input
/// bytes alone.
#[verifier::external_body]
pub fn hash_bytes(data: &[u8]) -> (r: [u8; 32])
    ensures
        r@ == blake3_of(data@),
        r@.len() == 32,
{
    *blake3::hash(data).as_bytes()
}

/// Relies on ed25519_dalek::VerifyingKey::from_bytes, Signature::from_bytes
/// and Verifier::verify: RFC 8032 verification, a deterministic function
/// of the key bytes, message and signature bytes; an invalid key rejects.
#[verifier::external_body]
pub(crate) fn ed25519_verify(pk: &[u8; 32], msg: &[u8], sig: &[u8; 64]) -> (r: bool)
    ensures
        r == ed25519_verifies(pk@, msg@, sig@),
{
    let key = match ed25519_dalek::VerifyingKey::from_bytes(pk) {
        Ok(k) => k,
        Err(_) => return false,
    };
    let signature = ed25519_dalek::Signature::from_bytes(sig);
    key.verify(msg, &signature).is_ok()
}

/// Relies on <[u8]>::copy_from_slice for the fixed-size copy.
#[verifier::external_body]
pub(crate) fn bytes32_of_slice(v: &[u8]) -> (r: [u8; 32])
    requires
        v@.len() == 32,
    ensures
        r@ == v@,
{
    let mut out = [0u8; 32];
    out.copy_from_slice(v);
    out
}

/// Relies on <[u8]>::copy_from_slice for the fixed-size copy.
#[verifier::external_body]
pub(crate) fn bytes64_of_slice(v: &[u8]) -> (r: [u8; 64])
    requires
        v@.len() == 64,
    ensures
        r@ == v@,
{
    let mut out = [0u8; 64];
    out.copy_from_slice(v);
    out
}

} // verus!
