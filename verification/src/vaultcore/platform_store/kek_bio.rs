//! KEK_bio in the secure store: the account is derived from the vault path,
//! the key is stored as hex.
use vstd::prelude::*;
use vstd::utf8::encode_utf8;

use crate::crypto::hex::{hex_decode, hex_encode, spec_hex_decode, spec_hex_encode};
use crate::crypto::KEY_LEN;
use crate::text::{push_dec, push_hex_fixed, spec_dec, spec_hex_fixed, string_push_str};
use crate::vaultcore::platform_store::{answer_view, unit_view, SecureStore};

verus! {

pub const FNV_OFFSET: u64 = 0xcbf29ce484222325;

pub const FNV_PRIME: u64 = 0x100000001b3;

/// FNV-1a 64 over a byte string.
pub open spec fn spec_fnv1a(b: Seq<u8>) -> u64
    decreases b.len(),
{
    if b.len() == 0 {
        FNV_OFFSET
    } else {
        vstd::wrapping::u64_specs::wrapping_mul(spec_fnv1a(b.drop_last()) ^ (b.last() as u64), FNV_PRIME)
    }
}

pub fn fnv1a(b: &[u8]) -> (h: u64)
    ensures
        h == spec_fnv1a(b@),
{
    let mut h: u64 = FNV_OFFSET;
    let mut i: usize = 0;
    while i < b.len()
        invariant
            i <= b@.len(),
            h == spec_fnv1a(b@.take(i as int)),
        decreases b@.len() - i,
    {
        proof {
            assert(b@.take(i + 1).drop_last() =~= b@.take(i as int));
        }
        h = (h ^ (b[i] as u64)).wrapping_mul(FNV_PRIME);
        i = i + 1;
    }
    proof {
        assert(b@.take(b@.len() as int) =~= b@);
    }
    h
}

/// "vault-" + 16 hex digits of FNV-1a(path) + "-" + byte length of the path.
pub open spec fn spec_account_for(path: Seq<char>) -> Seq<char> {
    let b = encode_utf8(path);
    "vault-"@ + spec_hex_fixed(spec_fnv1a(b) as nat, 16) + "-"@ + spec_dec(b.len())
}

/// Store account of a vault (paths may be long or non-ASCII; this is a
/// stable short identifier).
pub fn account_for(vault_path: &str) -> (a: String)
    ensures
        a@ == spec_account_for(vault_path@),
{
    let bytes = vault_path.as_bytes();
    let h = fnv1a(bytes);
    let mut s = String::new();
    string_push_str(&mut s, "vault-");
    push_hex_fixed(&mut s, h, 16);
    string_push_str(&mut s, "-");
    push_dec(&mut s, bytes.len() as u64);
    proof {
        reveal_strlit("vault-");
        reveal_strlit("-");
        assert(s@ =~= spec_account_for(vault_path@));
    }
    s
}

/// Outcome of reading KEK_bio, as a function of what the store answered.
pub open spec fn spec_kek_from_store(answer: Result<Option<Seq<char>>, Seq<char>>) -> Result<Option<Seq<u8>>, Seq<char>> {
    match answer {
        Err(e) => Err(e),
        Ok(None) => Ok(None),
        Ok(Some(hex)) => match spec_hex_decode(hex) {
            Some(k) => if k.len() == KEY_LEN {
                Ok(Some(k))
            } else {
                Err("corrupted KEK_bio in secure store"@)
            },
            None => Err("corrupted KEK_bio in secure store"@),
        },
    }
}

/// Decode what the store returned for KEK_bio.
pub fn kek_from_store(answer: Result<Option<String>, &'static str>) -> (res: Result<Option<[u8; KEY_LEN]>, &'static str>)
    ensures
        spec_kek_from_store(
            match answer {
                Ok(Some(h)) => Ok(Some(h@)),
                Ok(None) => Ok(None),
                Err(e) => Err(e@),
            },
        ) == match res {
            Ok(Some(k)) => Ok(Some(k@)),
            Ok(None) => Ok(None),
            Err(e) => Err::<Option<Seq<u8>>, Seq<char>>(e@),
        },
{
    match answer {
        Err(e) => Err(e),
        Ok(None) => Ok(None),
        Ok(Some(hex)) => match hex_decode(hex.as_str()) {
            Some(raw) => {
                if raw.len() == KEY_LEN {
                    Ok(Some(crate::crypto::random::to_array_32(raw.as_slice())))
                } else {
                    Err("corrupted KEK_bio in secure store")
                }
            },
            None => Err("corrupted KEK_bio in secure store"),
        },
    }
}

/// A KEK_bio read result as plain values.
pub open spec fn kek_view(r: Result<Option<[u8; KEY_LEN]>, &'static str>) -> Result<Option<Seq<u8>>, Seq<char>> {
    match r {
        Ok(Some(k)) => Ok(Some(k@)),
        Ok(None) => Ok(None),
        Err(e) => Err(e@),
    }
}

/// Read KEK_bio for a vault: the store is asked for the vault's account and
/// its answer decoded.
pub fn load<S: SecureStore>(store: &S, vault_path: &str) -> (res: Result<Option<[u8; KEY_LEN]>, &'static str>)
    ensures
        exists|a: Result<Option<Seq<char>>, Seq<char>>|
            store.get_outcome(spec_account_for(vault_path@), a) && #[trigger] spec_kek_from_store(a) == kek_view(res),
{
    let account = account_for(vault_path);
    let answer = store.get(account.as_str());
    let res = kek_from_store(answer);
    proof {
        assert(spec_kek_from_store(answer_view(answer)) == kek_view(res));
    }
    res
}

/// Store KEK_bio for a vault, hex encoded, under the vault's account; the
/// store's answer is returned as it is.
pub fn store<S: SecureStore>(secure_store: &S, vault_path: &str, kek: &[u8; KEY_LEN]) -> (res: Result<(), &'static str>)
    ensures
        secure_store.set_outcome(spec_account_for(vault_path@), spec_hex_encode(kek@), unit_view(res)),
{
    let account = account_for(vault_path);
    let hex = hex_encode(kek);
    secure_store.set(account.as_str(), hex.as_str())
}

/// Delete KEK_bio of a vault's account; the store's answer is returned as it
/// is.
pub fn remove<S: SecureStore>(store: &S, vault_path: &str) -> (res: Result<(), &'static str>)
    ensures
        store.delete_outcome(spec_account_for(vault_path@), unit_view(res)),
{
    let account = account_for(vault_path);
    store.delete(account.as_str())
}

/// Hex held in the store decodes back to the stored key.
pub proof fn stored_kek_reads_back(kek: Seq<u8>)
    requires
        kek.len() == KEY_LEN,
    ensures
        spec_kek_from_store(Ok(Some(spec_hex_encode(kek)))) == Ok::<Option<Seq<u8>>, Seq<char>>(Some(kek)),
{
    crate::crypto::hex::hex_roundtrip(kek);
}

} // verus!
