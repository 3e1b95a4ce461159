//! The trusted boundary to the Ed25519 implementation and the clock.
//!
//! Every function here is a thin wrapper around an outside call; the
//! rest of the library is verified against the contracts below.  The
//! uninterpreted functions name results that are deterministic in
//! their arguments (RFC 8032 Ed25519 key derivation, signing, and
//! verification) but whose values no short specification could state.

use vstd::prelude::*;
use ed25519_dalek::{Signature, Signer, SigningKey, Verifier, VerifyingKey};
use rand::rngs::OsRng;

verus! {

/// The public key derived from a 32-byte Ed25519 secret key.
pub uninterp spec fn ed_pk_of(seed: Seq<u8>) -> Seq<u8>;

/// The Ed25519 signature of `msg` under the secret key `seed`.
pub uninterp spec fn ed_sig_of(seed: Seq<u8>, msg: Seq<u8>) -> Seq<u8>;

/// Whether `sig` is a valid Ed25519 signature on `msg` under the
/// public key bytes `pk` (false also when `pk` or `sig` are not the
/// right shape).
pub uninterp spec fn ed_verifies(pk: Seq<u8>, msg: Seq<u8>, sig: Seq<u8>) -> bool;

/// Relies on `SigningKey::generate` with rand's `OsRng`: a fresh
/// 32-byte secret key drawn from the operating system.  Nothing is
/// promised of its value.
#[verifier::external_body]
pub fn ed_generate_seed() -> (r: Vec<u8>)
    ensures
        r@.len() == 32,
{
    SigningKey::generate(&mut OsRng).to_bytes().to_vec()
}

/// Relies on `SigningKey::verifying_key`: the public key is a pure
/// function of the secret key (RFC 8032 key derivation).
#[verifier::external_body]
pub fn ed_public_key(seed: &[u8]) -> (r: Vec<u8>)
    requires
        seed@.len() == 32,
    ensures
        r@ == ed_pk_of(seed@),
        r@.len() == 32,
{
    let arr: [u8; 32] = seed.try_into().unwrap();
    SigningKey::from_bytes(&arr).verifying_key().to_bytes().to_vec()
}

/// Relies on `SigningKey::sign`: Ed25519 signing is deterministic in
/// key and message (RFC 8032), produces 64 bytes, and its output
/// verifies under the matching public key.
#[verifier::external_body]
pub fn ed_sign(seed: &[u8], msg: &[u8]) -> (r: Vec<u8>)
    requires
        seed@.len() == 32,
    ensures
        r@ == ed_sig_of(seed@, msg@),
        r@.len() == 64,
        ed_verifies(ed_pk_of(seed@), msg@, r@),
{
    let arr: [u8; 32] = seed.try_into().unwrap();
    SigningKey::from_bytes(&arr).sign(msg).to_bytes().to_vec()
}

/// Relies on `VerifyingKey::verify`: deterministic signature
/// verification; returns false when the key or signature bytes do not
/// parse.
#[verifier::external_body]
pub fn ed_verify(pk: &[u8], msg: &[u8], sig: &[u8]) -> (r: bool)
    ensures
        r == ed_verifies(pk@, msg@, sig@),
{
    let pk_arr: [u8; 32] = match pk.try_into() {
        Ok(a) => a,
        Err(_) => return false,
    };
    let vk = match VerifyingKey::from_bytes(&pk_arr) {
        Ok(k) => k,
        Err(_) => return false,
    };
    let sig_arr: [u8; 64] = match sig.try_into() {
        Ok(a) => a,
        Err(_) => return false,
    };
    vk.verify(msg, &Signature::from_bytes(&sig_arr)).is_ok()
}

/// Relies on chrono's `Utc::now`: seconds since the Unix epoch as the
/// wall clock reports them.  Nothing is promised of the value.
#[verifier::external_body]
pub fn now_unix() -> (r: i64) {
    chrono::Utc::now().timestamp()
}

} // verus!
