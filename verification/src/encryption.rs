//! Payload encryption, an external capability at the edge of the core.
//!
//! Once the request router accepts a request it encrypts the payload with a
//! key derived from the requester's name. Both steps are carried out by
//! outside crates; the library names their results and states only what the
//! outside sources show: the same inputs give the same bytes, and the cipher
//! keeps the payload's length.

use aes::Aes128;
use ctr::cipher::{KeyIvInit, StreamCipher};
use ctr::Ctr128BE;
use sha2::{Digest, Sha256};
use vstd::prelude::*;

verus! {

/// The bytes that the AES-128-CTR keystream (all-zero nonce) turns `data`
/// into under `key`.
pub uninterp spec fn ctr_apply(data: Seq<u8>, key: Seq<u8>) -> Seq<u8>;

/// The 16-byte key derived from a requester's name.
pub uninterp spec fn user_key_of(name: Seq<char>) -> Seq<u8>;

/// Relies on `ctr::Ctr128BE::<aes::Aes128>` and
/// `cipher::StreamCipher::apply_keystream`: the keystream is a function of the
/// key and the fixed all-zero nonce alone, it is XORed onto the buffer in
/// place, so the result is a function of `data` and `key` and has `data`'s
/// length. The 128-bit counter cannot be exhausted by a buffer that fits in
/// memory, so the call does not panic.
#[verifier::external_body]
pub fn encrypt_data(data: &[u8], key: &[u8; 16]) -> (r: Vec<u8>)
    ensures
        r@ == ctr_apply(data@, key@),
        r@.len() == data@.len(),
{
    let mut encrypted = data.to_vec();
    let iv = [0u8; 16];
    let mut cipher = Ctr128BE::<Aes128>::new(key.into(), &iv.into());
    cipher.apply_keystream(&mut encrypted);
    encrypted
}

/// Relies on the same keystream application as `encrypt_data`: in counter
/// mode decryption is the very same XOR, so the call computes `ctr_apply` too.
#[verifier::external_body]
pub fn decrypt_data(data: &[u8], key: &[u8; 16]) -> (r: Vec<u8>)
    ensures
        r@ == ctr_apply(data@, key@),
        r@.len() == data@.len(),
{
    let mut decrypted = data.to_vec();
    let iv = [0u8; 16];
    let mut cipher = Ctr128BE::<Aes128>::new(key.into(), &iv.into());
    cipher.apply_keystream(&mut decrypted);
    decrypted
}

/// Relies on `sha2::Sha256`: the digest depends on the hashed bytes alone, so
/// the first 16 digest bytes are a function of the name.
#[verifier::external_body]
pub fn generate_key_from_username(username: &str) -> (r: [u8; 16])
    ensures
        r@ == user_key_of(username@),
{
    let mut hasher = Sha256::new();
    hasher.update(username.as_bytes());
    let result = hasher.finalize();
    let mut key = [0u8; 16];
    key.copy_from_slice(&result[0..16]);
    key
}

} // verus!
