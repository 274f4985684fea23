//! Ed25519 keys and signatures, as byte strings.
//!
//! A secret key is its 32-byte seed, a public key its 32-byte encoding.

use ed25519_dalek::{Signer, Verifier};
use vstd::prelude::*;

verus! {

/// The public key of the secret key `seed`.
pub uninterp spec fn ed25519_public(seed: Seq<u8>) -> Seq<u8>;

/// The signature of `msg` under the secret key `seed`.
pub uninterp spec fn ed25519_signature(seed: Seq<u8>, msg: Seq<u8>) -> Seq<u8>;

/// Whether `key` encodes a public key.
pub uninterp spec fn ed25519_is_key(key: Seq<u8>) -> bool;

/// Whether `sig` is accepted as a signature of `msg` under the public key `key`.
pub uninterp spec fn ed25519_accepts(key: Seq<u8>, msg: Seq<u8>, sig: Seq<u8>) -> bool;

/// Calls `SigningKey::verifying_key` of `ed25519_dalek`. What is trusted: the
/// public key depends on the seed alone, is the encoding of a point, and accepts
/// every signature under the same seed.
#[verifier::external_body]
fn dalek_verifying_key(seed: &[u8; 32]) -> (r: [u8; 32])
    ensures
        r@ == ed25519_public(seed@),
        ed25519_is_key(r@),
        forall|m: Seq<u8>| ed25519_accepts(r@, m, #[trigger] ed25519_signature(seed@, m)),
{
    ed25519_dalek::SigningKey::from_bytes(seed).verifying_key().to_bytes()
}

/// Calls `Signer::sign` of `ed25519_dalek`. What is trusted: signing is
/// deterministic, a signature has 64 bytes, and the public key of the same
/// seed accepts it.
#[verifier::external_body]
fn dalek_sign(seed: &[u8; 32], msg: &[u8]) -> (r: Vec<u8>)
    ensures
        r@ == ed25519_signature(seed@, msg@),
        r@.len() == 64,
        ed25519_accepts(ed25519_public(seed@), msg@, r@),
{
    ed25519_dalek::SigningKey::from_bytes(seed).sign(msg).to_bytes().to_vec()
}

/// Calls `VerifyingKey::from_bytes` of `ed25519_dalek`. What is trusted:
/// whether the bytes decode to a point depends on the bytes alone.
#[verifier::external_body]
fn dalek_key_from_bytes(key: &[u8; 32]) -> (r: bool)
    ensures
        r == ed25519_is_key(key@),
{
    ed25519_dalek::VerifyingKey::from_bytes(key).is_ok()
}

/// Calls `Verifier::verify` of `ed25519_dalek` on a key and a signature that
/// it decodes first. What is trusted: the verdict depends on the three byte
/// strings alone, and is negative where the key does not decode or the
/// signature has not 64 bytes.
#[verifier::external_body]
fn dalek_verify(key: &[u8; 32], msg: &[u8], sig: &[u8]) -> (r: bool)
    ensures
        r == ed25519_accepts(key@, msg@, sig@),
        r ==> ed25519_is_key(key@) && sig@.len() == 64,
{
    match (
        ed25519_dalek::VerifyingKey::from_bytes(key),
        ed25519_dalek::Signature::from_slice(sig),
    ) {
        (Ok(k), Ok(s)) => k.verify(msg, &s).is_ok(),
        _ => false,
    }
}

/// The public key of a secret key.
pub fn public_key(seed: &[u8; 32]) -> (r: [u8; 32])
    ensures
        r@ == ed25519_public(seed@),
        ed25519_is_key(r@),
        forall|m: Seq<u8>| ed25519_accepts(r@, m, #[trigger] ed25519_signature(seed@, m)),
{
    dalek_verifying_key(seed)
}

/// Signs `msg`.
pub fn sign(seed: &[u8; 32], msg: &[u8]) -> (r: Vec<u8>)
    ensures
        r@ == ed25519_signature(seed@, msg@),
        r@.len() == 64,
        ed25519_accepts(ed25519_public(seed@), msg@, r@),
{
    dalek_sign(seed, msg)
}

/// Whether `key` encodes a public key.
pub fn is_public_key(key: &[u8; 32]) -> (r: bool)
    ensures
        r == ed25519_is_key(key@),
{
    dalek_key_from_bytes(key)
}

/// Whether `sig` is a signature of `msg` under `key`.
pub fn verify(key: &[u8; 32], msg: &[u8], sig: &[u8]) -> (r: bool)
    ensures
        r == ed25519_accepts(key@, msg@, sig@),
        r ==> ed25519_is_key(key@) && sig@.len() == 64,
{
    dalek_verify(key, msg, sig)
}

} // verus!
