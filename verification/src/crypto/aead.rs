//! AES-256-GCM authenticated encryption (cipher_suite = 1).
//!
//! Blob layout produced here: `nonce (12B) ‖ ciphertext ‖ tag (16B)`.
use aes_gcm::aead::{Aead, Payload};
use aes_gcm::{Aes256Gcm, KeyInit, Nonce};
use vstd::prelude::*;

use crate::crypto::KEY_LEN;

verus! {

pub const AES_GCM_NONCE_LEN: usize = 12;

pub const AES_GCM_TAG_LEN: usize = 16;

/// Largest plaintext / associated-data length the cipher accepts (2^36 bytes).
pub const GCM_MAX_INPUT: u64 = 0x10_0000_0000;

/// What AES-256-GCM produces for a key, nonce, plaintext and associated data:
/// the ciphertext followed by the 16-byte tag.
pub uninterp spec fn spec_aes_gcm_seal(key: Seq<u8>, nonce: Seq<u8>, pt: Seq<u8>, aad: Seq<u8>) -> Seq<u8>;

/// What AES-256-GCM decryption of `ciphertext ‖ tag` returns: the plaintext,
/// or `None` when the tag does not verify.
pub uninterp spec fn spec_aes_gcm_open(key: Seq<u8>, nonce: Seq<u8>, ct: Seq<u8>, aad: Seq<u8>) -> Option<Seq<u8>>;

pub open spec fn opt_view(o: Option<Vec<u8>>) -> Option<Seq<u8>> {
    match o {
        Some(v) => Some(v@),
        None => None,
    }
}

/// Input lengths the cipher accepts.
pub open spec fn gcm_len_ok(pt: Seq<u8>, aad: Seq<u8>) -> bool {
    pt.len() <= GCM_MAX_INPUT && aad.len() <= GCM_MAX_INPUT
}

/// Calls `Aes256Gcm::encrypt` (aes-gcm) with a payload of plaintext and
/// associated data.  Claims: the call fails exactly when the plaintext or the
/// associated data is longer than 2^36 bytes (the crate's `P_MAX`/`A_MAX`
/// check); otherwise it returns the ciphertext followed by a 16-byte tag, so
/// the output is 16 bytes longer than the plaintext, and (AEAD correctness)
/// decrypting it under the same key, nonce and associated data gives back the
/// plaintext.
#[verifier::external_body]
fn gcm_seal(key: &[u8; KEY_LEN], nonce: &[u8; AES_GCM_NONCE_LEN], pt: &[u8], aad: &[u8]) -> (res: Option<Vec<u8>>)
    ensures
        res is Some <==> gcm_len_ok(pt@, aad@),
        res matches Some(c) ==> c@ == spec_aes_gcm_seal(key@, nonce@, pt@, aad@),
        res matches Some(c) ==> c@.len() == pt@.len() + AES_GCM_TAG_LEN,
        res matches Some(c) ==> spec_aes_gcm_open(key@, nonce@, c@, aad@) == Some(pt@),
{
    let cipher = Aes256Gcm::new(key.into());
    cipher.encrypt(Nonce::from_slice(nonce), Payload { msg: pt, aad }).ok()
}

/// Calls `Aes256Gcm::decrypt` (aes-gcm).  Claims: the result is the named
/// decryption of the arguments, and (AEAD correctness) decrypting what
/// `Aes256Gcm::encrypt` produced under the same key, nonce and associated data
/// gives back the plaintext.
#[verifier::external_body]
fn gcm_open(key: &[u8; KEY_LEN], nonce: &[u8], ct: &[u8], aad: &[u8]) -> (res: Option<Vec<u8>>)
    requires
        nonce@.len() == AES_GCM_NONCE_LEN,
    ensures
        opt_view(res) == spec_aes_gcm_open(key@, nonce@, ct@, aad@),
        forall|p: Seq<u8>|
            #[trigger] spec_aes_gcm_seal(key@, nonce@, p, aad@) == ct@ && gcm_len_ok(p, aad@)
                ==> opt_view(res) == Some(p),
{
    let cipher = Aes256Gcm::new(key.into());
    cipher.decrypt(Nonce::from_slice(nonce), Payload { msg: ct, aad }).ok()
}

/// The blob `aead_encrypt_with_aad` produces.
pub open spec fn spec_aead_blob(key: Seq<u8>, nonce: Seq<u8>, pt: Seq<u8>, aad: Seq<u8>) -> Seq<u8> {
    nonce + spec_aes_gcm_seal(key, nonce, pt, aad)
}

/// What `aead_decrypt_with_aad` returns for a blob.
pub open spec fn spec_aead_open_blob(key: Seq<u8>, blob: Seq<u8>, aad: Seq<u8>) -> Option<Seq<u8>> {
    if blob.len() < AES_GCM_NONCE_LEN + AES_GCM_TAG_LEN {
        None
    } else {
        spec_aes_gcm_open(key, blob.take(AES_GCM_NONCE_LEN as int), blob.skip(AES_GCM_NONCE_LEN as int), aad)
    }
}

/// Encrypt; returns `nonce ‖ ciphertext ‖ tag`.  The caller never reuses a
/// nonce under one key.
pub fn aead_encrypt(key: &[u8; KEY_LEN], nonce: &[u8; AES_GCM_NONCE_LEN], plaintext: &[u8]) -> (res:
    Result<Vec<u8>, &'static str>)
    ensures
        res is Ok <==> gcm_len_ok(plaintext@, seq![]),
        res matches Ok(b) ==> b@ == spec_aead_blob(key@, nonce@, plaintext@, seq![]),
        res matches Ok(b) ==> b@.len() == AES_GCM_NONCE_LEN + plaintext@.len() + AES_GCM_TAG_LEN,
        res matches Ok(b) ==> spec_aead_open_blob(key@, b@, seq![]) == Some(plaintext@),
        res matches Err(e) ==> e@ == "aes-gcm encrypt failed"@,
{
    let empty: [u8; 0] = [];
    let r = aead_encrypt_with_aad(key, nonce, plaintext, &empty);
    proof {
        assert(empty@ =~= seq![]);
    }
    r
}

/// Encrypt with associated data (chunk ciphertexts bind their chunk counter as
/// AAD).  Returns `nonce ‖ ciphertext ‖ tag`.
pub fn aead_encrypt_with_aad(
    key: &[u8; KEY_LEN],
    nonce: &[u8; AES_GCM_NONCE_LEN],
    plaintext: &[u8],
    aad: &[u8],
) -> (res: Result<Vec<u8>, &'static str>)
    ensures
        res is Ok <==> gcm_len_ok(plaintext@, aad@),
        res matches Ok(b) ==> b@ == spec_aead_blob(key@, nonce@, plaintext@, aad@),
        res matches Ok(b) ==> b@.len() == AES_GCM_NONCE_LEN + plaintext@.len() + AES_GCM_TAG_LEN,
        res matches Ok(b) ==> spec_aead_open_blob(key@, b@, aad@) == Some(plaintext@),
        res matches Err(e) ==> e@ == "aes-gcm encrypt failed"@,
{
    match gcm_seal(key, nonce, plaintext, aad) {
        Some(ct) => {
            let mut out: Vec<u8> = Vec::new();
            out.extend_from_slice(nonce.as_slice());
            out.extend_from_slice(ct.as_slice());
            proof {
                assert(out@ =~= nonce@ + ct@);
                assert(out@.take(12) =~= nonce@);
                assert(out@.skip(12) =~= ct@);
            }
            Ok(out)
        },
        None => Err("aes-gcm encrypt failed"),
    }
}

/// Decrypt `nonce ‖ ciphertext ‖ tag`; `None` on a wrong key, tampering or a
/// blob shorter than nonce plus tag.
pub fn aead_decrypt(key: &[u8; KEY_LEN], blob: &[u8]) -> (res: Option<Vec<u8>>)
    ensures
        opt_view(res) == spec_aead_open_blob(key@, blob@, seq![]),
        forall|n: Seq<u8>, p: Seq<u8>|
            #[trigger] spec_aead_blob(key@, n, p, seq![]) == blob@ && n.len() == AES_GCM_NONCE_LEN
                && blob@.len() == n.len() + p.len() + AES_GCM_TAG_LEN && gcm_len_ok(p, seq![])
                ==> opt_view(res) == Some(p),
{
    let empty: [u8; 0] = [];
    proof {
        assert(empty@ =~= seq![]);
    }
    aead_decrypt_with_aad(key, blob, &empty)
}

/// Decrypt with associated data; `None` on a wrong key, tampering, a wrong AAD
/// or a blob shorter than nonce plus tag.  Decrypting what
/// `aead_encrypt_with_aad` produced with the same key and AAD gives back the
/// plaintext.
pub fn aead_decrypt_with_aad(key: &[u8; KEY_LEN], blob: &[u8], aad: &[u8]) -> (res: Option<Vec<u8>>)
    ensures
        opt_view(res) == spec_aead_open_blob(key@, blob@, aad@),
        forall|n: Seq<u8>, p: Seq<u8>|
            #[trigger] spec_aead_blob(key@, n, p, aad@) == blob@ && n.len() == AES_GCM_NONCE_LEN
                && blob@.len() == n.len() + p.len() + AES_GCM_TAG_LEN && gcm_len_ok(p, aad@)
                ==> opt_view(res) == Some(p),
{
    if blob.len() < AES_GCM_NONCE_LEN + AES_GCM_TAG_LEN {
        proof {
            assert forall|n: Seq<u8>, p: Seq<u8>|
                #[trigger] spec_aead_blob(key@, n, p, aad@) == blob@ && n.len() == AES_GCM_NONCE_LEN
                    && blob@.len() == n.len() + p.len() + AES_GCM_TAG_LEN && gcm_len_ok(p, aad@) implies opt_view(None::<Vec<u8>>) == Some(p) by {
            }
        }
        return None;
    }
    let (nonce, ct) = blob.split_at(AES_GCM_NONCE_LEN);
    let r = gcm_open(key, nonce, ct, aad);
    proof {
        assert(nonce@ =~= blob@.take(AES_GCM_NONCE_LEN as int));
        assert(ct@ =~= blob@.skip(AES_GCM_NONCE_LEN as int));
        assert forall|n: Seq<u8>, p: Seq<u8>|
            #[trigger] spec_aead_blob(key@, n, p, aad@) == blob@ && n.len() == AES_GCM_NONCE_LEN
                && gcm_len_ok(p, aad@) implies opt_view(r) == Some(p) by {
            assert(blob@.take(12) =~= n);
            assert(blob@.skip(12) =~= spec_aes_gcm_seal(key@, n, p, aad@));
        }
    }
    r
}

} // verus!
