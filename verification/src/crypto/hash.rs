//! SHA-256 and HMAC-SHA256.
use hmac::Mac;
use sha2::Digest;
use vstd::prelude::*;

use crate::crypto::hex::{hex_encode, spec_hex_encode};

verus! {

/// SHA-256 digest of a byte string (32 bytes).
pub uninterp spec fn spec_sha256(data: Seq<u8>) -> Seq<u8>;

/// HMAC block size of SHA-256.
pub open spec fn sha256_block() -> nat {
    64
}

/// RFC 2104 key normalisation: keys longer than a block are hashed, then the
/// key is padded with zero bytes to a full block.
pub open spec fn hmac_block_key(key: Seq<u8>) -> Seq<u8> {
    let k = if key.len() > sha256_block() {
        spec_sha256(key)
    } else {
        key
    };
    k + Seq::new((sha256_block() - k.len()) as nat, |i: int| 0u8)
}

pub open spec fn xor_all(k: Seq<u8>, pad: u8) -> Seq<u8> {
    k.map_values(|b: u8| b ^ pad)
}

/// HMAC-SHA256 (RFC 2104): `H((K0 ^ opad) ‖ H((K0 ^ ipad) ‖ m))`.
pub open spec fn spec_hmac_sha256(key: Seq<u8>, data: Seq<u8>) -> Seq<u8> {
    let k0 = hmac_block_key(key);
    spec_sha256(xor_all(k0, 0x5c) + spec_sha256(xor_all(k0, 0x36) + data))
}

/// Calls `<sha2::Sha256 as Digest>::digest`.  Claims: the 32-byte result is
/// the SHA-256 digest of the input.
#[verifier::external_body]
pub(crate) fn sha256_digest(data: &[u8]) -> (res: [u8; 32])
    ensures
        res@ == spec_sha256(data@),
{
    let out = sha2::Sha256::digest(data);
    let mut r = [0u8; 32];
    r.copy_from_slice(out.as_slice());
    r
}

/// Calls `Hmac::<Sha256>::new_from_slice`, `update` and `finalize` (hmac).
/// Claims: the 32-byte result is HMAC-SHA256 of the data under the key as RFC
/// 2104 defines it over SHA-256 (the crate accepts keys of any length).
#[verifier::external_body]
pub(crate) fn hmac_sha256(key: &[u8], data: &[u8]) -> (res: [u8; 32])
    ensures
        res@ == spec_hmac_sha256(key@, data@),
{
    let mut r = [0u8; 32];
    if let Ok(mut mac) = <hmac::Hmac<sha2::Sha256> as Mac>::new_from_slice(key) {
        mac.update(data);
        r.copy_from_slice(mac.finalize().into_bytes().as_slice());
    }
    r
}

/// One-shot SHA-256, hex encoded.
pub fn hash_sha256(data: &[u8]) -> (s: String)
    ensures
        s@ == spec_hex_encode(spec_sha256(data@)),
        spec_sha256(data@).len() == 32,
        s@.len() == 64,
{
    let d = sha256_digest(data);
    hex_encode(&d)
}

/// HMAC-SHA256, hex encoded (deterministic search tokens).
pub fn hmac_sha256_hex(key: &[u8], data: &[u8]) -> (s: String)
    ensures
        s@ == spec_hex_encode(spec_hmac_sha256(key@, data@)),
        s@.len() == 64,
{
    let d = hmac_sha256(key, data);
    hex_encode(&d)
}

/// Incremental SHA-256 (whole-file check of a container). The `sha2` state
/// is kept opaque; what it has absorbed is named by `sha_absorbed`.
#[verifier::external_body]
pub struct Sha256 {
    inner: sha2::Sha256,
}

/// The bytes a hashing state has absorbed so far.
pub uninterp spec fn sha_absorbed(h: Sha256) -> Seq<u8>;

impl Sha256 {
    /// Calls `<sha2::Sha256 as Digest>::new`. Claims: a fresh state has
    /// absorbed nothing.
    #[verifier::external_body]
    pub fn new() -> (h: Self)
        ensures
            sha_absorbed(h) == Seq::<u8>::empty(),
    {
        Sha256 { inner: <sha2::Sha256 as Digest>::new() }
    }

    /// Calls `Digest::update`. Claims: the data is appended to what the
    /// state has absorbed.
    #[verifier::external_body]
    pub fn update(&mut self, data: &[u8])
        ensures
            sha_absorbed(*final(self)) == sha_absorbed(*old(self)) + data@,
    {
        Digest::update(&mut self.inner, data);
    }

    /// Calls `Digest::finalize`. Claims: the 32-byte result is the SHA-256
    /// digest of everything the state absorbed.
    #[verifier::external_body]
    fn finalize(self) -> (r: [u8; 32])
        ensures
            r@ == spec_sha256(sha_absorbed(self)),
    {
        let out = Digest::finalize(self.inner);
        let mut r = [0u8; 32];
        r.copy_from_slice(out.as_slice());
        r
    }

    /// Finishes and gives the digest in hex.
    pub fn finalize_hex(self) -> (s: String)
        ensures
            s@ == spec_hex_encode(spec_sha256(sha_absorbed(self))),
    {
        let d = self.finalize();
        hex_encode(&d)
    }
}

} // verus!
