//! CSPRNG (the master key is generated, never derived from a password).
use rand::rngs::OsRng;
use rand::RngCore;
use vstd::prelude::*;

verus! {

/// Calls `OsRng::fill_bytes` (rand) on a fresh zeroed buffer of `len` bytes.
/// Claims only the length: the bytes come from the operating system's
/// generator and are unknown.  (`fill_bytes` panics if the system generator
/// fails; nothing here rules that out.)
#[verifier::external_body]
pub fn random_bytes(len: usize) -> (v: Vec<u8>)
    ensures
        v@.len() == len,
{
    let mut buf = vec![0u8; len];
    OsRng.fill_bytes(&mut buf);
    buf
}

fn to_array_16(v: &Vec<u8>) -> (a: [u8; 16])
    requires
        v@.len() == 16,
    ensures
        a@ == v@,
{
    let mut a = [0u8; 16];
    let mut i: usize = 0;
    while i < 16
        invariant
            v@.len() == 16,
            i <= 16,
            forall|j: int| 0 <= j < i ==> a@[j] == v@[j],
        decreases 16 - i,
    {
        a[i] = v[i];
        i = i + 1;
    }
    proof {
        assert(a@ =~= v@);
    }
    a
}

pub(crate) fn to_array_32(v: &[u8]) -> (a: [u8; 32])
    requires
        v@.len() == 32,
    ensures
        a@ == v@,
{
    let mut a = [0u8; 32];
    let mut i: usize = 0;
    while i < 32
        invariant
            v@.len() == 32,
            i <= 32,
            forall|j: int| 0 <= j < i ==> a@[j] == v@[j],
        decreases 32 - i,
    {
        a[i] = v[i];
        i = i + 1;
    }
    proof {
        assert(a@ =~= v@);
    }
    a
}

pub(crate) fn to_array_12(v: &[u8]) -> (a: [u8; 12])
    requires
        v@.len() == 12,
    ensures
        a@ == v@,
{
    let mut a = [0u8; 12];
    let mut i: usize = 0;
    while i < 12
        invariant
            v@.len() == 12,
            i <= 12,
            forall|j: int| 0 <= j < i ==> a@[j] == v@[j],
        decreases 12 - i,
    {
        a[i] = v[i];
        i = i + 1;
    }
    proof {
        assert(a@ =~= v@);
    }
    a
}

/// 16-byte Argon2id salt (fresh for every password setting).
pub fn random_salt() -> (s: [u8; 16])
    ensures
        s@.len() == 16,
{
    let v = random_bytes(16);
    to_array_16(&v)
}

/// 32-byte key (MK / KEK_bio / FSKey).
pub fn random_key() -> (k: [u8; 32])
    ensures
        k@.len() == 32,
{
    let v = random_bytes(32);
    to_array_32(&v)
}

/// 12-byte AES-GCM nonce.
pub(crate) fn random_nonce() -> (n: [u8; 12])
    ensures
        n@.len() == 12,
{
    let v = random_bytes(12);
    to_array_12(&v)
}

} // verus!
