//! KDF: Argon2id (KEK_pwd) and HKDF-SHA256 (FSK / verifier / sub-keys).
use argon2::{Algorithm, Argon2, ParamsBuilder, Version};
use vstd::prelude::*;

use crate::crypto::hash::{hmac_sha256, spec_hmac_sha256};
use crate::crypto::KEY_LEN;

verus! {

/// Argon2id cost parameters; persisted in the vault header so that every
/// device derives the same key from the same password.
#[derive(Clone, Copy, Debug, PartialEq, Eq)]
pub struct Argon2Params {
    /// memory in KiB (desktop 65536 = 64 MiB, mobile 16384)
    pub m_kib: u32,
    /// iterations (3)
    pub t: u32,
    /// lanes (desktop 2, mobile 1)
    pub p: u32,
}

impl Argon2Params {
    /// Desktop baseline: 64 MiB / t=3 / p=2.
    pub fn desktop() -> (r: Self)
        ensures
            r.m_kib == 65536 && r.t == 3 && r.p == 2,
    {
        Argon2Params { m_kib: 64 * 1024, t: 3, p: 2 }
    }

    /// Mobile baseline: 16 MiB / t=3 / p=1.
    pub fn mobile() -> (r: Self)
        ensures
            r.m_kib == 16384 && r.t == 3 && r.p == 1,
    {
        Argon2Params { m_kib: 16 * 1024, t: 3, p: 1 }
    }

    /// Low-cost parameters for tests only.
    pub fn for_test() -> (r: Self)
        ensures
            r.m_kib == 8192 && r.t == 1 && r.p == 1,
    {
        Argon2Params { m_kib: 8 * 1024, t: 1, p: 1 }
    }
}

/// Largest lane count Argon2 accepts (2^24 - 1).
pub const ARGON2_MAX_P: u32 = 0xFF_FFFF;

/// Parameters that the argon2 crate's `Params::new` accepts (lane count
/// already at most 2^24 - 1).
pub open spec fn argon2_params_ok(m: u32, t: u32, p: u32) -> bool {
    &&& m >= 8
    &&& m >= 8 * p
    &&& t >= 1
    &&& p >= 1
}

/// The 32-byte Argon2id (v0x13) output for a password, salt and costs.
pub uninterp spec fn spec_argon2id(pwd: Seq<u8>, salt: Seq<u8>, m: u32, t: u32, p: u32) -> Seq<u8>;

pub enum Argon2Failure {
    InvalidParams,
    DeriveFailed,
}

/// Calls argon2's `ParamsBuilder::build` and `Argon2::hash_password_into`
/// (Argon2id, version 0x13, 32-byte output).  Claims: building the
/// parameters fails exactly when `Params::new` rejects them (memory below 8
/// KiB or below 8 KiB per lane, no iteration, no lane); hashing then fails
/// exactly when the password exceeds 2^32 - 1 bytes (a 16-byte salt is always
/// accepted); otherwise the output is the Argon2id value named above.  Not
/// stated: the crate allocates `m` KiB, which can abort the process when the
/// allocator fails.
#[verifier::external_body]
fn argon2id_raw(pwd: &[u8], salt: &[u8; 16], m: u32, t: u32, p: u32) -> (res: Result<[u8; KEY_LEN], Argon2Failure>)
    requires
        p <= ARGON2_MAX_P,
    ensures
        res matches Err(Argon2Failure::InvalidParams) <==> !argon2_params_ok(m, t, p),
        res matches Err(Argon2Failure::DeriveFailed) <==> (argon2_params_ok(m, t, p) && pwd@.len() > 0xFFFF_FFFF),
        res matches Ok(k) ==> k@ == spec_argon2id(pwd@, salt@, m, t, p),
{
    let a2params = ParamsBuilder::new()
        .m_cost(m)
        .t_cost(t)
        .p_cost(p)
        .output_len(KEY_LEN)
        .build()
        .map_err(|_| Argon2Failure::InvalidParams)?;
    let a2 = Argon2::new(Algorithm::Argon2id, Version::V0x13, a2params);
    let mut okm = [0u8; KEY_LEN];
    a2.hash_password_into(pwd, salt, &mut okm).map_err(|_| Argon2Failure::DeriveFailed)?;
    Ok(okm)
}

/// What `argon2id_derive` returns.
pub open spec fn spec_argon2id_derive(password: Seq<char>, salt: Seq<u8>, params: Argon2Params) -> Result<
    Seq<u8>,
    Seq<char>,
> {
    let pwd = vstd::utf8::encode_utf8(password);
    if params.p > ARGON2_MAX_P || !argon2_params_ok(params.m_kib, params.t, params.p) {
        Err("invalid argon2 params"@)
    } else if pwd.len() > 0xFFFF_FFFF {
        Err("argon2id derive failed"@)
    } else {
        Ok(spec_argon2id(pwd, salt, params.m_kib, params.t, params.p))
    }
}

/// Argon2id derivation of the 32-byte KEK_pwd from a password.
pub fn argon2id_derive(password: &str, salt: &[u8; 16], params: &Argon2Params) -> (res: Result<
    [u8; KEY_LEN],
    &'static str,
>)
    ensures
        match res {
            Ok(k) => spec_argon2id_derive(password@, salt@, *params) == Ok::<Seq<u8>, Seq<char>>(k@),
            Err(e) => spec_argon2id_derive(password@, salt@, *params) == Err::<Seq<u8>, Seq<char>>(e@),
        },
{
    if params.p > ARGON2_MAX_P {
        return Err("invalid argon2 params");
    }
    let pwd = password.as_bytes();
    match argon2id_raw(pwd, salt, params.m_kib, params.t, params.p) {
        Ok(k) => Ok(k),
        Err(Argon2Failure::InvalidParams) => Err("invalid argon2 params"),
        Err(Argon2Failure::DeriveFailed) => Err("argon2id derive failed"),
    }
}

/// HKDF-SHA256 (RFC 5869) with a single output block: PRK = HMAC(salt, IKM),
/// OKM = HMAC(PRK, info ‖ 0x01).
pub open spec fn spec_hkdf(ikm: Seq<u8>, salt: Seq<u8>, info: Seq<u8>) -> Seq<u8> {
    spec_hmac_sha256(spec_hmac_sha256(salt, ikm), info.push(1u8))
}

/// HKDF-SHA256 extract-and-expand, 32-byte output.
pub fn hkdf_sha256_extract_expand(ikm: &[u8], salt: &[u8], info: &[u8]) -> (okm: [u8; KEY_LEN])
    ensures
        okm@ == spec_hkdf(ikm@, salt@, info@),
{
    let prk = hmac_sha256(salt, ikm);
    let mut t1: Vec<u8> = Vec::new();
    t1.extend_from_slice(info);
    t1.push(1u8);
    proof {
        assert(t1@ =~= info@.push(1u8));
    }
    hmac_sha256(&prk, &t1)
}

/// Fixed HKDF salt "VaultSync-HKDF-Salt-v1".
pub open spec fn hkdf_salt() -> Seq<u8> {
    seq![86u8, 97, 117, 108, 116, 83, 121, 110, 99, 45, 72, 75, 68, 70, 45, 83, 97, 108, 116, 45, 118, 49]
}

/// HKDF with the fixed salt (verifier, FSK, index and search keys).
pub open spec fn spec_hkdf_derive(ikm: Seq<u8>, info: Seq<u8>) -> Seq<u8> {
    spec_hkdf(ikm, hkdf_salt(), info)
}

/// HKDF-SHA256 with the fixed salt.
pub fn hkdf_sha256_derive(ikm: &[u8], info: &[u8]) -> (okm: [u8; KEY_LEN])
    ensures
        okm@ == spec_hkdf_derive(ikm@, info@),
{
    let salt: [u8; 22] = [86, 97, 117, 108, 116, 83, 121, 110, 99, 45, 72, 75, 68, 70, 45, 83, 97, 108, 116, 45, 118, 49];
    proof {
        assert(salt@ =~= hkdf_salt());
    }
    hkdf_sha256_extract_expand(ikm, &salt, info)
}

} // verus!
