//! Trusted wrappers around the AEAD cipher and the nonce source.
//!
//! AES-256-GCM is deterministic in (key, nonce, plaintext), so the sealed
//! bytes are given a name; opening is trusted to succeed exactly on
//! values of that name and to give the plaintext back.  Nonces come from
//! the operating system's random source and nothing is assumed of their
//! bytes beyond the count.

use vstd::prelude::*;

verus! {

/// The byte length of an AES-256-GCM key.
pub const KEY_LEN: usize = 32;

/// The byte length of a nonce.
pub const NONCE_LEN: usize = 12;

/// The byte length of the authentication tag a sealed body ends with.
pub const TAG_LEN: usize = 16;

/// The longest plaintext this crate will seal in one call, chosen well
/// under the AES-GCM per-message bound so that the sealed length still
/// fits a 32-bit `usize` with the nonce and tag alongside.
pub const MAX_SEAL_INPUT: usize = 0xFFFF0000;

/// What AES-256-GCM produces from (key, nonce, plaintext): the
/// ciphertext with the 16-byte tag appended.
pub uninterp spec fn aead_seal_of(key: Seq<u8>, nonce: Seq<u8>, plain: Seq<u8>) -> Seq<u8>;

/// Relies on aes_gcm's `Aes256Gcm::encrypt`: sealing is deterministic in
/// (key, nonce, plaintext), produces ciphertext plus the 16-byte tag,
/// and cannot fail for plaintexts under the AES-GCM length bound.
#[verifier::external_body]
pub(crate) fn aead_seal(key: &[u8], nonce: &[u8], plain: &[u8]) -> (r: Vec<u8>)
    requires
        key@.len() == KEY_LEN,
        nonce@.len() == NONCE_LEN,
        plain@.len() <= MAX_SEAL_INPUT,
    ensures
        r@ == aead_seal_of(key@, nonce@, plain@),
        r@.len() == plain@.len() + TAG_LEN,
{
    let cipher = <aes_gcm::Aes256Gcm as aes_gcm::KeyInit>::new_from_slice(key).unwrap();
    let n = aes_gcm::aead::generic_array::GenericArray::from_slice(nonce);
    aes_gcm::aead::Aead::encrypt(&cipher, n, plain).unwrap()
}

/// Relies on aes_gcm's `Aes256Gcm::decrypt`: opening succeeds exactly on
/// bytes that sealing under the same key and nonce produces (the tag
/// check fails on everything else), and then returns the plaintext that
/// was sealed.
#[verifier::external_body]
pub(crate) fn aead_open(key: &[u8], nonce: &[u8], sealed: &[u8]) -> (r: Option<Vec<u8>>)
    requires
        key@.len() == KEY_LEN,
        nonce@.len() == NONCE_LEN,
    ensures
        r is Some <==> exists|p: Seq<u8>| sealed@ == #[trigger] aead_seal_of(key@, nonce@, p),
        forall|p: Seq<u8>|
            sealed@ == #[trigger] aead_seal_of(key@, nonce@, p) ==> r is Some && r->0@ == p,
{
    let cipher = <aes_gcm::Aes256Gcm as aes_gcm::KeyInit>::new_from_slice(key).unwrap();
    let n = aes_gcm::aead::generic_array::GenericArray::from_slice(nonce);
    match aes_gcm::aead::Aead::decrypt(&cipher, n, sealed) {
        Ok(v) => Some(v),
        Err(_) => None,
    }
}

/// Relies on the operating system's random source, through aes_gcm's
/// re-export of rand_core's `OsRng`: twelve fresh bytes, with nothing
/// assumed of their values.
#[verifier::external_body]
pub(crate) fn fresh_nonce() -> (r: Vec<u8>)
    ensures
        r@.len() == NONCE_LEN,
{
    let mut non = [0u8; 12];
    let mut rng = aes_gcm::aead::OsRng;
    aes_gcm::aead::rand_core::RngCore::fill_bytes(&mut rng, &mut non);
    non.to_vec()
}

} // verus!
