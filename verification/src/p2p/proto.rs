//! Signalling messages (carried inside the secure channel) and the exact
//! byte strings that delete orders, hellos and destroy commands sign.
use vstd::prelude::*;
use vstd::utf8::encode_utf8;

use crate::strmap::StrMap;
use crate::text::{push_dec, spec_dec, string_push_str};

verus! {

/// Manifest entry of a file or, with `deleted_ms`, of a tombstone.
#[derive(Debug)]
pub struct ManifestItem {
    pub id: u64,
    pub folder: u64,
    pub name: String,
    pub size: u64,
    pub modified_ms: u64,
    pub vc: StrMap<u64>,
    pub deleted_ms: Option<u64>,
    pub chunks: Vec<ChunkRef>,
    pub nonce_prefix: u32,
    pub file_sha: String,
}

/// A chunk of a file as the manifest lists it.
#[derive(Debug)]
pub struct ChunkRef {
    pub hash: String,
    pub offset: u64,
    pub len: u32,
}

/// Signalling messages.
pub enum Msg {
    /// First message after the handshake: identity, with a signature over
    /// handshake hash ‖ X25519 key (binds the Noise key to the identity).
    Hello { device_id: String, name: String, pub_hex: String, x25519_hex: String, sig: String },
    PairReq,
    PairAccept,
    SyncReq { manifest: Vec<ManifestItem> },
    SyncResp { manifest: Vec<ManifestItem> },
    /// Push of a file; the file key travels wrapped under a channel subkey.
    SendFileBegin { item: ManifestItem, fskey_wrapped: String, total_chunks: usize, overwrite: bool },
    BlockData { id: u64, idx: usize, ct_b64: String },
    BlockEnd { id: u64 },
    FileApplied { id: u64, name: String },
    PullFile { id: u64 },
    /// Only the chunks the receiver lacks are requested.
    BlocksNeeded { id: u64, idxs: Vec<usize> },
    VcMerge { id: u64, vc: StrMap<u64> },
    /// Signed delete order.
    DeleteOrder { id: u64, sig: String },
    /// Signed remote destroy (delay 0 = at once).
    DestroyCmd { target: String, delay_ms: u64, ts_ms: u64, sig: String },
    DestroyAck,
    SyncDone,
    Error { msg: String },
}

/// Signed body of a delete order: `vsync-del:<id>`.
pub open spec fn spec_delete_body(id: u64) -> Seq<u8> {
    encode_utf8("vsync-del:"@ + spec_dec(id as nat))
}

/// Signed body of a hello: handshake hash ‖ the X25519 key's hex.
pub open spec fn spec_hello_body(hh: Seq<u8>, x25519_hex: Seq<char>) -> Seq<u8> {
    hh + encode_utf8(x25519_hex)
}

/// Signed body of a destroy command: `vsync-destroy:<target>:<delay>:<ts>`.
pub open spec fn spec_destroy_body(target: Seq<char>, delay_ms: u64, ts_ms: u64) -> Seq<u8> {
    encode_utf8(
        "vsync-destroy:"@ + target + ":"@ + spec_dec(delay_ms as nat) + ":"@ + spec_dec(ts_ms as nat),
    )
}

fn utf8_bytes(s: &String) -> (b: Vec<u8>)
    ensures
        b@ == encode_utf8(s@),
{
    let mut b: Vec<u8> = Vec::new();
    b.extend_from_slice(s.as_str().as_bytes());
    b
}

/// Body that a delete order signs.
pub fn delete_sign_body(id: u64) -> (b: Vec<u8>)
    ensures
        b@ == spec_delete_body(id),
{
    let mut s = String::new();
    string_push_str(&mut s, "vsync-del:");
    push_dec(&mut s, id);
    proof {
        assert(s@ =~= "vsync-del:"@ + spec_dec(id as nat));
    }
    utf8_bytes(&s)
}

/// Body that a hello signs.
pub fn hello_sign_body(hh: &[u8; 32], x25519_hex: &str) -> (b: Vec<u8>)
    ensures
        b@ == spec_hello_body(hh@, x25519_hex@),
{
    let mut b: Vec<u8> = Vec::new();
    b.extend_from_slice(hh.as_slice());
    b.extend_from_slice(x25519_hex.as_bytes());
    proof {
        assert(b@ =~= spec_hello_body(hh@, x25519_hex@));
    }
    b
}

/// Body that a destroy command signs.
pub fn destroy_sign_body(target: &str, delay_ms: u64, ts_ms: u64) -> (b: Vec<u8>)
    ensures
        b@ == spec_destroy_body(target@, delay_ms, ts_ms),
{
    let mut s = String::new();
    string_push_str(&mut s, "vsync-destroy:");
    string_push_str(&mut s, target);
    string_push_str(&mut s, ":");
    push_dec(&mut s, delay_ms);
    string_push_str(&mut s, ":");
    push_dec(&mut s, ts_ms);
    proof {
        assert(s@ =~= "vsync-destroy:"@ + target@ + ":"@ + spec_dec(delay_ms as nat) + ":"@ + spec_dec(
            ts_ms as nat,
        ));
    }
    utf8_bytes(&s)
}

/// A signed delete order can never pass for a signed destroy command (their
/// bodies differ for all arguments), and delete orders for different ids
/// sign different bodies.
pub proof fn sign_bodies_separated(id: u64, id2: u64, target: Seq<char>, delay_ms: u64, ts_ms: u64)
    ensures
        spec_delete_body(id) != spec_destroy_body(target, delay_ms, ts_ms),
        id != id2 ==> spec_delete_body(id) != spec_delete_body(id2),
{
    reveal_strlit("vsync-del:");
    reveal_strlit("vsync-destroy:");
    let a = "vsync-del:"@ + spec_dec(id as nat);
    let b = "vsync-destroy:"@ + target + ":"@ + spec_dec(delay_ms as nat) + ":"@ + spec_dec(ts_ms as nat);
    if spec_delete_body(id) == spec_destroy_body(target, delay_ms, ts_ms) {
        vstd::utf8::encode_utf8_decode_utf8(a);
        vstd::utf8::encode_utf8_decode_utf8(b);
        assert(a[8] == b[8]);
    }
    if id != id2 && spec_delete_body(id) == spec_delete_body(id2) {
        let c = "vsync-del:"@ + spec_dec(id2 as nat);
        vstd::utf8::encode_utf8_decode_utf8(a);
        vstd::utf8::encode_utf8_decode_utf8(c);
        assert(a.skip(10) =~= spec_dec(id as nat));
        assert(c.skip(10) =~= spec_dec(id2 as nat));
        crate::text::lemma_dec_injective(id as nat, id2 as nat);
    }
}

} // verus!
