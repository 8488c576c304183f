//! Cryptographic primitives: AES-256-GCM, Argon2id, HMAC/HKDF-SHA256,
//! SHA-256, CSPRNG and hex encoding.
//!
//! This module is the only place that touches the cipher crates; the rest of
//! the library reaches key material through the functions here.
pub mod aead;
pub mod hash;
pub mod hex;
pub mod kdf;
pub mod random;

use vstd::prelude::*;

pub use aead::{
    aead_decrypt, aead_decrypt_with_aad, aead_encrypt, aead_encrypt_with_aad, AES_GCM_NONCE_LEN,
    AES_GCM_TAG_LEN,
};
pub use hash::{hash_sha256, hmac_sha256_hex, Sha256};
pub use hex::{hex_decode, hex_encode};
pub use kdf::{argon2id_derive, hkdf_sha256_derive, hkdf_sha256_extract_expand, Argon2Params};
pub use random::{random_bytes, random_key, random_salt};

verus! {

/// AES-256-GCM key length (KEK_pwd / KEK_bio / MK are all 32 bytes).
pub const KEY_LEN: usize = 32;

} // verus!

verus! {

/// Byte-wise equality of two slices.
pub fn bytes_eq(a: &[u8], b: &[u8]) -> (r: bool)
    ensures
        r == (a@ == b@),
{
    if a.len() != b.len() {
        return false;
    }
    let mut i: usize = 0;
    while i < a.len()
        invariant
            a@.len() == b@.len(),
            i <= a@.len(),
            forall|j: int| 0 <= j < i ==> a@[j] == b@[j],
        decreases a@.len() - i,
    {
        if a[i] != b[i] {
            return false;
        }
        i = i + 1;
    }
    proof {
        assert(a@ =~= b@);
    }
    true
}

/// Engine self-check: one AEAD round trip under a fresh key.
pub fn self_check() -> (ok: bool)
    ensures
        ok,
{
    let key = random::random_key();
    let nonce: [u8; 12] = [0x42u8; 12];
    // "self-check"
    let msg: [u8; 10] = [115, 101, 108, 102, 45, 99, 104, 101, 99, 107];
    match aead::aead_encrypt(&key, &nonce, &msg) {
        Ok(blob) => {
            proof {
                assert(aead::gcm_len_ok(msg@, seq![]));
            }
            match aead::aead_decrypt(&key, &blob) {
                Some(pt) => bytes_eq(&pt, &msg),
                None => false,
            }
        },
        Err(_) => false,
    }
}

} // verus!
