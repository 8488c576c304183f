//! Vault key hierarchy below the master key: the index key, the search key,
//! one folder key per folder (`fsk/<folder id>`) and one file key per file
//! (`fskey/<file id>` under its folder key), all HKDF-SHA256 with the fixed
//! salt.
use vstd::prelude::*;
use vstd::utf8::encode_utf8;

use crate::crypto::kdf::{hkdf_sha256_derive, spec_hkdf_derive};
use crate::crypto::KEY_LEN;
use crate::text::{push_dec, spec_dec, string_push_str};

verus! {

/// Key for a purpose label.
pub open spec fn spec_derive_key(mk: Seq<u8>, info: Seq<char>) -> Seq<u8> {
    spec_hkdf_derive(mk, encode_utf8(info))
}

/// Folder key of a folder.
pub open spec fn spec_fsk(mk: Seq<u8>, folder_id: u64) -> Seq<u8> {
    spec_derive_key(mk, "fsk/"@ + spec_dec(folder_id as nat))
}

/// File key of a file in a folder.
pub open spec fn spec_fskey(mk: Seq<u8>, folder_id: u64, file_id: u64) -> Seq<u8> {
    spec_derive_key(spec_fsk(mk, folder_id), "fskey/"@ + spec_dec(file_id as nat))
}

/// Key for a purpose label (`vault-index`, `search`, ...).
pub fn derive_key(mk: &[u8; KEY_LEN], info: &str) -> (k: [u8; KEY_LEN])
    ensures
        k@ == spec_derive_key(mk@, info@),
{
    hkdf_sha256_derive(mk, info.as_bytes())
}

/// Key of the encrypted index.
pub fn index_key(mk: &[u8; KEY_LEN]) -> (k: [u8; KEY_LEN])
    ensures
        k@ == spec_derive_key(mk@, "vault-index"@),
{
    derive_key(mk, "vault-index")
}

/// Key that search tokens are computed under.
pub fn search_key(mk: &[u8; KEY_LEN]) -> (k: [u8; KEY_LEN])
    ensures
        k@ == spec_derive_key(mk@, "search"@),
{
    derive_key(mk, "search")
}

fn label(prefix: &str, id: u64) -> (s: String)
    ensures
        s@ == prefix@ + spec_dec(id as nat),
{
    let mut s = String::new();
    string_push_str(&mut s, prefix);
    push_dec(&mut s, id);
    proof {
        assert(s@ =~= prefix@ + spec_dec(id as nat));
    }
    s
}

/// Folder key (encrypts the metadata of the containers in the folder).
pub fn fsk(mk: &[u8; KEY_LEN], folder_id: u64) -> (k: [u8; KEY_LEN])
    ensures
        k@ == spec_fsk(mk@, folder_id),
{
    let l = label("fsk/", folder_id);
    derive_key(mk, l.as_str())
}

/// File key (encrypts the chunks of one file).
pub fn fskey(mk: &[u8; KEY_LEN], folder_id: u64, file_id: u64) -> (k: [u8; KEY_LEN])
    ensures
        k@ == spec_fskey(mk@, folder_id, file_id),
{
    let f = fsk(mk, folder_id);
    let l = label("fskey/", file_id);
    derive_key(&f, l.as_str())
}

} // verus!
