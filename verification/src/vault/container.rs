//! Per-file encrypted container (.vse).
//!
//! ```text
//! head (plain): magic "VSEF" | format_ver u16 | kdf_ver u16 | cipher_suite u16
//!               | chunk_cfg u16 | flags u16 | meta nonce 12B | meta_len u32
//! metadata:     AES-GCM under the folder key (ciphertext ‖ tag, meta_len bytes)
//! data:         the chunk ciphertexts in order; chunk k is sealed under the
//!               file key with nonce = prefix (4B BE) ‖ k (8B BE) and AAD = k (8B BE)
//! ```
//! The metadata (name, size, nonce prefix, chunk list, whole-file SHA-256) is
//! serialised by the caller; here it is handled as bytes.
use vstd::prelude::*;

use crate::crypto::aead::{
    aead_decrypt, aead_decrypt_with_aad, aead_encrypt, aead_encrypt_with_aad, gcm_len_ok,
    spec_aead_open_blob, spec_aes_gcm_seal, AES_GCM_NONCE_LEN, AES_GCM_TAG_LEN,
};
use crate::crypto::hash::{hash_sha256, sha_absorbed, spec_sha256, Sha256};
use crate::crypto::hex::spec_hex_encode;
use crate::crypto::random::random_nonce;
use crate::crypto::KEY_LEN;
use crate::vaultcore::keystore::{copy_range, le16, le32, push_le16, push_le32, rd16, rd32, read16, read32};

verus! {

pub const FORMAT_VER: u16 = 2;

pub const CIPHER_SUITE: u16 = 1;

/// Upper bound on the metadata (a larger chunk list is bounded by the chunk
/// count).
pub const MAX_META_LEN: usize = 67108864;

/// Length of the plain head.
pub const HEAD_LEN: usize = 30;

pub open spec fn magic() -> Seq<u8> {
    seq![86u8, 83, 69, 70]
}

/// One chunk of the data area: SHA-256 (hex) of its ciphertext, its offset in
/// the data area and its length including the 16-byte tag.
#[derive(Debug)]
pub struct ChunkEntry {
    pub hash: String,
    pub offset: u64,
    pub len: u32,
}

/// Container metadata (encrypted as a whole).
#[derive(Debug)]
pub struct FileMeta {
    pub name: String,
    pub size: u64,
    /// Random per-file 32-bit nonce prefix.
    pub nonce_prefix: u32,
    pub chunks: Vec<ChunkEntry>,
    /// SHA-256 (hex) of the whole plaintext.
    pub file_sha256: String,
    pub created_ms: u64,
    pub modified_ms: u64,
}

/// Content-defined chunking parameters.
#[derive(Debug)]
pub struct ChunkCfg {
    pub min: usize,
    pub avg: usize,
    pub max: usize,
}

/// Chunking parameters for a file: 64 KiB average (16–256 KiB), or 16 KiB
/// average (8–64 KiB) below 1 MiB.
pub fn chunk_cfg_for(file_size: u64) -> (c: ChunkCfg)
    ensures
        file_size < 1048576 ==> c.min == 8192 && c.avg == 16384 && c.max == 65536,
        file_size >= 1048576 ==> c.min == 16384 && c.avg == 65536 && c.max == 262144,
{
    if file_size < 1048576 {
        ChunkCfg { min: 8192, avg: 16384, max: 65536 }
    } else {
        ChunkCfg { min: 16384, avg: 65536, max: 262144 }
    }
}

/// Big-endian bytes of a `u32`.
pub open spec fn be32(x: u32) -> Seq<u8> {
    seq![(x / 16777216) as u8, ((x / 65536) % 256) as u8, ((x / 256) % 256) as u8, (x % 256) as u8]
}

/// Big-endian bytes of a `u64`.
pub open spec fn be64(x: u64) -> Seq<u8> {
    seq![
        (x / 0x100000000000000) as u8,
        ((x / 0x1000000000000) % 256) as u8,
        ((x / 0x10000000000) % 256) as u8,
        ((x / 0x100000000) % 256) as u8,
        ((x / 0x1000000) % 256) as u8,
        ((x / 0x10000) % 256) as u8,
        ((x / 0x100) % 256) as u8,
        (x % 256) as u8,
    ]
}

/// Nonce of chunk `counter` of a file: prefix ‖ counter, big-endian.
pub open spec fn spec_chunk_nonce(prefix: u32, counter: u64) -> Seq<u8> {
    be32(prefix) + be64(counter)
}

pub(crate) fn be32_bytes(x: u32) -> (r: [u8; 4])
    ensures
        r@ == be32(x),
{
    let r = [(x / 16777216) as u8, ((x / 65536) % 256) as u8, ((x / 256) % 256) as u8, (x % 256) as u8];
    proof {
        assert(r@ =~= be32(x));
    }
    r
}

pub(crate) fn be64_bytes(x: u64) -> (r: [u8; 8])
    ensures
        r@ == be64(x),
{
    let r = [
        (x / 0x100000000000000) as u8,
        ((x / 0x1000000000000) % 256) as u8,
        ((x / 0x10000000000) % 256) as u8,
        ((x / 0x100000000) % 256) as u8,
        ((x / 0x1000000) % 256) as u8,
        ((x / 0x10000) % 256) as u8,
        ((x / 0x100) % 256) as u8,
        (x % 256) as u8,
    ];
    proof {
        assert(r@ =~= be64(x));
    }
    r
}

/// Nonce of chunk `counter`: prefix ‖ counter, big-endian.
pub fn chunk_nonce(prefix: u32, counter: u64) -> (n: [u8; 12])
    ensures
        n@ == spec_chunk_nonce(prefix, counter),
{
    let p = be32_bytes(prefix);
    let c = be64_bytes(counter);
    let n = [p[0], p[1], p[2], p[3], c[0], c[1], c[2], c[3], c[4], c[5], c[6], c[7]];
    proof {
        assert(n@ =~= spec_chunk_nonce(prefix, counter));
    }
    n
}

proof fn lemma_be32_injective(a: u32, b: u32)
    requires
        be32(a) == be32(b),
    ensures
        a == b,
{
    assert(be32(a)[0] == be32(b)[0]);
    assert(be32(a)[1] == be32(b)[1]);
    assert(be32(a)[2] == be32(b)[2]);
    assert(be32(a)[3] == be32(b)[3]);
}

pub(crate) proof fn lemma_be64_injective(a: u64, b: u64)
    requires
        be64(a) == be64(b),
    ensures
        a == b,
{
    assert(be64(a)[0] == be64(b)[0]);
    assert(be64(a)[1] == be64(b)[1]);
    assert(be64(a)[2] == be64(b)[2]);
    assert(be64(a)[3] == be64(b)[3]);
    assert(be64(a)[4] == be64(b)[4]);
    assert(be64(a)[5] == be64(b)[5]);
    assert(be64(a)[6] == be64(b)[6]);
    assert(be64(a)[7] == be64(b)[7]);
    let d0 = a / 0x100000000000000 == b / 0x100000000000000;
    assert(d0);
    assert((a / 0x1000000000000) % 256 == (b / 0x1000000000000) % 256);
    assert((a / 0x10000000000) % 256 == (b / 0x10000000000) % 256);
    assert((a / 0x100000000) % 256 == (b / 0x100000000) % 256);
    assert((a / 0x1000000) % 256 == (b / 0x1000000) % 256);
    assert((a / 0x10000) % 256 == (b / 0x10000) % 256);
    assert((a / 0x100) % 256 == (b / 0x100) % 256);
    assert(a % 256 == b % 256);
    assert(a == b) by (bit_vector)
        requires
            a / 0x100000000000000 == b / 0x100000000000000,
            (a / 0x1000000000000) % 256 == (b / 0x1000000000000) % 256,
            (a / 0x10000000000) % 256 == (b / 0x10000000000) % 256,
            (a / 0x100000000) % 256 == (b / 0x100000000) % 256,
            (a / 0x1000000) % 256 == (b / 0x1000000) % 256,
            (a / 0x10000) % 256 == (b / 0x10000) % 256,
            (a / 0x100) % 256 == (b / 0x100) % 256,
            a % 256 == b % 256,
    ;
}

/// Distinct (prefix, counter) pairs give distinct chunk nonces: the chunks
/// of a file never share a nonce under its key.
pub proof fn chunk_nonce_injective(p1: u32, c1: u64, p2: u32, c2: u64)
    requires
        spec_chunk_nonce(p1, c1) == spec_chunk_nonce(p2, c2),
    ensures
        p1 == p2,
        c1 == c2,
{
    let n1 = spec_chunk_nonce(p1, c1);
    let n2 = spec_chunk_nonce(p2, c2);
    assert(n1.take(4) =~= be32(p1));
    assert(n2.take(4) =~= be32(p2));
    assert(n1.skip(4) =~= be64(c1));
    assert(n2.skip(4) =~= be64(c2));
    lemma_be32_injective(p1, p2);
    lemma_be64_injective(c1, c2);
}

/// The plain head of a container.
pub open spec fn spec_head_bytes(nonce: Seq<u8>, meta_len: u32) -> Seq<u8> {
    magic() + le16(FORMAT_VER) + le16(1) + le16(CIPHER_SUITE) + le16(0) + le16(0) + nonce + le32(
        meta_len,
    )
}

/// What a container starts with: the head and the sealed metadata.
pub open spec fn spec_container_prefix(fsk: Seq<u8>, nonce: Seq<u8>, meta_json: Seq<u8>) -> Seq<u8> {
    let ct = spec_aes_gcm_seal(fsk, nonce, meta_json, seq![]);
    spec_head_bytes(nonce, ct.len() as u32) + ct
}

/// Head and sealed metadata of a container, under a given nonce.
pub fn assemble_head_with_nonce(meta_json: &[u8], fsk: &[u8; KEY_LEN], nonce: &[u8; 12]) -> (r:
    Result<Vec<u8>, &'static str>)
    ensures
        r is Ok <==> meta_json@.len() <= MAX_META_LEN,
        match r {
            Ok(b) => b@ == spec_container_prefix(fsk@, nonce@, meta_json@) && b@.len() == HEAD_LEN
                + meta_json@.len() + AES_GCM_TAG_LEN,
            Err(e) => e@ == "metadata too large"@,
        },
{
    if meta_json.len() > MAX_META_LEN {
        return Err("metadata too large");
    }
    let full = match aead_encrypt(fsk, nonce, meta_json) {
        Ok(b) => b,
        Err(e) => return Err(e),
    };
    let ct = copy_range(full.as_slice(), AES_GCM_NONCE_LEN, full.len());
    proof {
        assert(ct@ =~= spec_aes_gcm_seal(fsk@, nonce@, meta_json@, seq![]));
    }
    let mut out: Vec<u8> = Vec::new();
    out.push(86);
    out.push(83);
    out.push(69);
    out.push(70);
    push_le16(&mut out, FORMAT_VER);
    push_le16(&mut out, 1);
    push_le16(&mut out, CIPHER_SUITE);
    push_le16(&mut out, 0);
    push_le16(&mut out, 0);
    out.extend_from_slice(nonce.as_slice());
    push_le32(&mut out, ct.len() as u32);
    out.extend_from_slice(ct.as_slice());
    proof {
        assert(out@ =~= spec_container_prefix(fsk@, nonce@, meta_json@));
    }
    Ok(out)
}

/// Head and sealed metadata of a new container (fresh random nonce).
pub fn assemble_head(meta_json: &[u8], fsk: &[u8; KEY_LEN]) -> (r: Result<Vec<u8>, &'static str>)
    ensures
        r is Ok <==> meta_json@.len() <= MAX_META_LEN,
        match r {
            Ok(b) => exists|n: Seq<u8>|
                n.len() == 12 && b@ == #[trigger] spec_container_prefix(fsk@, n, meta_json@),
            Err(e) => e@ == "metadata too large"@,
        },
{
    let nonce = random_nonce();
    assemble_head_with_nonce(meta_json, fsk, &nonce)
}

/// The parsed plain head.
#[derive(Debug)]
pub struct ContainerHead {
    pub format_ver: u16,
    pub nonce: [u8; 12],
    pub meta_len: u32,
}

/// What `parse_head` makes of the first bytes of a container.
pub open spec fn spec_parse_head(d: Seq<u8>) -> Result<(u16, Seq<u8>, u32), Seq<char>> {
    if d.len() < HEAD_LEN {
        Err("container truncated"@)
    } else if d.take(4) != magic() {
        Err("bad magic: not a VaultSync file container"@)
    } else if rd16(d, 4) > FORMAT_VER {
        Err("container format newer than engine; upgrade required"@)
    } else if rd32(d, 26) > MAX_META_LEN {
        Err("metadata too large"@)
    } else {
        Ok((rd16(d, 4), d.subrange(14, 26), rd32(d, 26)))
    }
}

/// Parses the plain head: rejects short input, a wrong magic, a newer format
/// and an oversized metadata length.
pub fn parse_head(head: &[u8]) -> (r: Result<ContainerHead, &'static str>)
    ensures
        match r {
            Ok(h) => spec_parse_head(head@) == Ok::<(u16, Seq<u8>, u32), Seq<char>>(
                (h.format_ver, h.nonce@, h.meta_len),
            ),
            Err(e) => spec_parse_head(head@) == Err::<(u16, Seq<u8>, u32), Seq<char>>(e@),
        },
{
    if head.len() < HEAD_LEN {
        return Err("container truncated");
    }
    if !(head[0] == 86 && head[1] == 83 && head[2] == 69 && head[3] == 70) {
        proof {
            assert(head@.take(4) != magic()) by {
                if head@.take(4) == magic() {
                    assert(head@.take(4)[0] == 86);
                    assert(head@.take(4)[1] == 83);
                    assert(head@.take(4)[2] == 69);
                    assert(head@.take(4)[3] == 70);
                }
            }
        }
        return Err("bad magic: not a VaultSync file container");
    }
    proof {
        assert(head@.take(4) =~= magic());
    }
    let format_ver = read16(head, 4);
    if format_ver > FORMAT_VER {
        return Err("container format newer than engine; upgrade required");
    }
    let meta_len = read32(head, 26);
    if meta_len as usize > MAX_META_LEN {
        return Err("metadata too large");
    }
    let n = copy_range(head, 14, 26);
    let nonce = crate::crypto::random::to_array_12(n.as_slice());
    Ok(ContainerHead { format_ver, nonce, meta_len })
}

impl ContainerHead {
    /// Where the data area starts.
    pub fn data_offset(&self) -> (o: u64)
        ensures
            o == HEAD_LEN + self.meta_len,
    {
        HEAD_LEN as u64 + self.meta_len as u64
    }
}

/// What `open_meta` returns.
pub open spec fn spec_open_meta(fsk: Seq<u8>, nonce: Seq<u8>, meta_len: u32, rest: Seq<u8>) -> Result<
    Seq<u8>,
    Seq<char>,
> {
    if rest.len() < meta_len {
        Err("container truncated"@)
    } else {
        match spec_aead_open_blob(fsk, nonce + rest.take(meta_len as int), seq![]) {
            Some(m) => Ok(m),
            None => Err("metadata decrypt failed (wrong key or tampered)"@),
        }
    }
}

/// Decrypts the metadata that follows the head (`rest` holds at least
/// `meta_len` bytes; bytes after them are the data area).
pub fn open_meta(head: &ContainerHead, rest: &[u8], fsk: &[u8; KEY_LEN]) -> (r: Result<
    Vec<u8>,
    &'static str,
>)
    ensures
        match r {
            Ok(m) => spec_open_meta(fsk@, head.nonce@, head.meta_len, rest@) == Ok::<
                Seq<u8>,
                Seq<char>,
            >(m@),
            Err(e) => spec_open_meta(fsk@, head.nonce@, head.meta_len, rest@) == Err::<
                Seq<u8>,
                Seq<char>,
            >(e@),
        },
        forall|j: Seq<u8>|
            head.meta_len == j.len() + AES_GCM_TAG_LEN && gcm_len_ok(j, seq![]) && rest@.len()
                >= head.meta_len && rest@.take(head.meta_len as int) == #[trigger] spec_aes_gcm_seal(
                fsk@,
                head.nonce@,
                j,
                seq![],
            ) ==> (r matches Ok(m) && m@ == j),
{
    let n = head.meta_len as usize;
    if rest.len() < n {
        return Err("container truncated");
    }
    let mut blob: Vec<u8> = Vec::new();
    blob.extend_from_slice(head.nonce.as_slice());
    blob.extend_from_slice(&rest[0..n]);
    proof {
        assert(blob@ =~= head.nonce@ + rest@.take(n as int));
    }
    proof {
        assert forall|j: Seq<u8>|
            head.meta_len == j.len() + AES_GCM_TAG_LEN && gcm_len_ok(j, seq![])
                && rest@.take(head.meta_len as int) == #[trigger] spec_aes_gcm_seal(
                fsk@,
                head.nonce@,
                j,
                seq![],
            ) implies crate::crypto::aead::spec_aead_blob(fsk@, head.nonce@, j, seq![]) == blob@ by {
        }
    }
    match aead_decrypt(fsk, blob.as_slice()) {
        Some(m) => Ok(m),
        None => Err("metadata decrypt failed (wrong key or tampered)"),
    }
}

/// The head that `assemble_head_with_nonce` writes parses back to its
/// format version, nonce and metadata length, whatever follows it.
pub proof fn head_roundtrip(nonce: Seq<u8>, meta_len: u32, rest: Seq<u8>)
    requires
        nonce.len() == 12,
        meta_len <= MAX_META_LEN,
    ensures
        spec_parse_head(spec_head_bytes(nonce, meta_len) + rest) == Ok::<
            (u16, Seq<u8>, u32),
            Seq<char>,
        >((FORMAT_VER, nonce, meta_len)),
{
    let d = spec_head_bytes(nonce, meta_len) + rest;
    assert(d.take(4) =~= magic());
    assert(d[4] == le16(FORMAT_VER)[0] && d[5] == le16(FORMAT_VER)[1]);
    assert(d.subrange(26, 30) =~= le32(meta_len));
    assert(d.subrange(14, 26) =~= nonce);
    crate::vaultcore::keystore::lemma_le32_rd(meta_len);
    assert(rd32(d, 26) == rd32(le32(meta_len), 0));
}

/// What opening chunk `counter` of a file gives: its plaintext, or why not
/// (the tag is checked before the ciphertext hash).
pub open spec fn spec_open_chunk(fskey: Seq<u8>, prefix: u32, counter: u64, hash: Seq<char>, ct: Seq<u8>) -> Result<
    Seq<u8>,
    Seq<char>,
> {
    match spec_aead_open_blob(fskey, spec_chunk_nonce(prefix, counter) + ct, be64(counter)) {
        None => Err("chunk tampered or key mismatch"@),
        Some(pt) => if spec_hex_encode(spec_sha256(ct)) != hash {
            Err("chunk hash mismatch"@)
        } else {
            Ok(pt)
        },
    }
}

pub open spec fn res_view(r: Result<Vec<u8>, &'static str>) -> Result<Seq<u8>, Seq<char>> {
    match r {
        Ok(v) => Ok(v@),
        Err(e) => Err(e@),
    }
}

/// Seals one chunk: ciphertext ‖ tag under the file key, nonce prefix ‖
/// counter and the counter as associated data.
pub fn seal_chunk(fskey: &[u8; KEY_LEN], prefix: u32, counter: u64, plain: &[u8]) -> (r: Result<
    Vec<u8>,
    &'static str,
>)
    ensures
        r is Ok <==> gcm_len_ok(plain@, be64(counter)),
        match r {
            Ok(ct) => {
                &&& ct@ == spec_aes_gcm_seal(fskey@, spec_chunk_nonce(prefix, counter), plain@, be64(counter))
                &&& ct@.len() == plain@.len() + AES_GCM_TAG_LEN
                &&& spec_open_chunk(fskey@, prefix, counter, spec_hex_encode(spec_sha256(ct@)), ct@)
                    == Ok::<Seq<u8>, Seq<char>>(plain@)
            },
            Err(e) => e@ == "aes-gcm encrypt failed"@,
        },
{
    let nonce = chunk_nonce(prefix, counter);
    let aad = be64_bytes(counter);
    let blob = match aead_encrypt_with_aad(fskey, &nonce, plain, &aad) {
        Ok(b) => b,
        Err(e) => return Err(e),
    };
    let ct = copy_range(blob.as_slice(), AES_GCM_NONCE_LEN, blob.len());
    proof {
        assert(ct@ =~= spec_aes_gcm_seal(fskey@, nonce@, plain@, aad@));
        assert(nonce@ + ct@ =~= blob@);
    }
    Ok(ct)
}

/// Opens one chunk: checks its tag (decrypting) and then the SHA-256 of its
/// ciphertext against the chunk list.
pub fn open_chunk(fskey: &[u8; KEY_LEN], prefix: u32, counter: u64, hash: &str, ct: &[u8]) -> (r: Result<
    Vec<u8>,
    &'static str,
>)
    ensures
        res_view(r) == spec_open_chunk(fskey@, prefix, counter, hash@, ct@),
        forall|p: Seq<u8>|
            ct@ == #[trigger] spec_aes_gcm_seal(fskey@, spec_chunk_nonce(prefix, counter), p, be64(counter))
                && ct@.len() == p.len() + AES_GCM_TAG_LEN && gcm_len_ok(p, be64(counter)) && hash@
                == spec_hex_encode(spec_sha256(ct@)) ==> res_view(r) == Ok::<Seq<u8>, Seq<char>>(p),
{
    let nonce = chunk_nonce(prefix, counter);
    let aad = be64_bytes(counter);
    let mut blob: Vec<u8> = Vec::new();
    blob.extend_from_slice(nonce.as_slice());
    blob.extend_from_slice(ct);
    proof {
        assert(blob@ =~= nonce@ + ct@);
        assert forall|p: Seq<u8>|
            ct@ == #[trigger] spec_aes_gcm_seal(fskey@, spec_chunk_nonce(prefix, counter), p, be64(counter))
                && ct@.len() == p.len() + AES_GCM_TAG_LEN implies crate::crypto::aead::spec_aead_blob(
            fskey@,
            nonce@,
            p,
            aad@,
        ) == blob@ by {
        }
    }
    let pt = match aead_decrypt_with_aad(fskey, blob.as_slice(), &aad) {
        Some(p) => p,
        None => return Err("chunk tampered or key mismatch"),
    };
    let h = hash_sha256(ct);
    let expected = hash.to_owned();
    if h != expected {
        return Err("chunk hash mismatch");
    }
    Ok(pt)
}

/// A container opened for export: its metadata and where its data starts.
pub struct ContainerReader {
    pub meta: FileMeta,
    data_offset: u64,
    path: String,
}

impl ContainerReader {
    pub closed spec fn spec_data_offset(&self) -> u64 {
        self.data_offset
    }

    pub closed spec fn spec_meta(&self) -> FileMeta {
        self.meta
    }

    pub closed spec fn spec_path(&self) -> Seq<char> {
        self.path@
    }

    /// A reader for a container whose head and metadata were read.
    pub fn new(meta: FileMeta, head: &ContainerHead, path: String) -> (r: Self)
        ensures
            r.spec_meta() == meta,
            r.spec_data_offset() == HEAD_LEN + head.meta_len,
            r.spec_path() == path@,
    {
        ContainerReader { meta, data_offset: head.data_offset(), path }
    }

    pub fn data_offset(&self) -> (o: u64)
        ensures
            o == self.spec_data_offset(),
    {
        self.data_offset
    }

    pub fn path(&self) -> (p: &String)
        ensures
            p@ == self.spec_path(),
    {
        &self.path
    }

    /// Opens chunk `k` of the data area (its counter is its position).
    pub fn open_chunk(&self, k: usize, ct: &[u8], fskey: &[u8; KEY_LEN]) -> (r: Result<
        Vec<u8>,
        &'static str,
    >)
        requires
            k < self.spec_meta().chunks@.len(),
        ensures
            res_view(r) == spec_open_chunk(
                fskey@,
                self.spec_meta().nonce_prefix,
                k as u64,
                self.spec_meta().chunks@[k as int].hash@,
                ct@,
            ),
    {
        open_chunk(fskey, self.meta.nonce_prefix, k as u64, self.meta.chunks[k].hash.as_str(), ct)
    }

    /// Final check of an export: the SHA-256 of the reassembled plaintext
    /// must be the one recorded in the metadata.
    pub fn finish_export(&self, hasher: Sha256) -> (r: Result<(), &'static str>)
        ensures
            r is Ok <==> spec_hex_encode(spec_sha256(sha_absorbed(hasher))) == self.spec_meta().file_sha256@,
            r matches Err(e) ==> e@ == "whole-file sha256 mismatch after reassembly"@,
    {
        let h = hasher.finalize_hex();
        if h != self.meta.file_sha256 {
            return Err("whole-file sha256 mismatch after reassembly");
        }
        Ok(())
    }
}

/// Seals the chunks of a file being imported, in order, and keeps the chunk
/// list and the whole-file hash.
pub struct ChunkSealer {
    fskey: [u8; KEY_LEN],
    nonce_prefix: u32,
    counter: u64,
    offset: u64,
    chunks: Vec<ChunkEntry>,
    hasher: Sha256,
}

impl ChunkSealer {
    pub closed spec fn spec_key(&self) -> Seq<u8> {
        self.fskey@
    }

    pub closed spec fn spec_prefix(&self) -> u32 {
        self.nonce_prefix
    }

    /// Chunks sealed so far.
    pub closed spec fn spec_counter(&self) -> u64 {
        self.counter
    }

    /// Bytes of ciphertext produced so far.
    pub closed spec fn spec_offset(&self) -> u64 {
        self.offset
    }

    pub closed spec fn spec_chunks(&self) -> Seq<ChunkEntry> {
        self.chunks@
    }

    /// Plaintext fed in so far.
    pub closed spec fn spec_plain(&self) -> Seq<u8> {
        sha_absorbed(self.hasher)
    }

    pub fn new(fskey: [u8; KEY_LEN], nonce_prefix: u32) -> (s: Self)
        ensures
            s.spec_key() == fskey@,
            s.spec_prefix() == nonce_prefix,
            s.spec_counter() == 0,
            s.spec_offset() == 0,
            s.spec_chunks().len() == 0,
            s.spec_plain() == Seq::<u8>::empty(),
    {
        ChunkSealer { fskey, nonce_prefix, counter: 0, offset: 0, chunks: Vec::new(), hasher: Sha256::new() }
    }

    /// Seals the next chunk; gives its ciphertext ‖ tag for the data area and
    /// records (hash, offset, length) in the chunk list.
    pub fn seal_next(&mut self, plain: &[u8]) -> (r: Result<Vec<u8>, &'static str>)
        requires
            old(self).spec_counter() < u64::MAX,
            old(self).spec_offset() + plain@.len() + AES_GCM_TAG_LEN <= u64::MAX,
            plain@.len() + AES_GCM_TAG_LEN <= u32::MAX,
        ensures
            final(self).spec_key() == old(self).spec_key(),
            final(self).spec_prefix() == old(self).spec_prefix(),
            r is Ok <==> gcm_len_ok(plain@, be64(old(self).spec_counter())),
            match r {
                Ok(ct) => {
                    &&& ct@ == spec_aes_gcm_seal(
                        old(self).spec_key(),
                        spec_chunk_nonce(old(self).spec_prefix(), old(self).spec_counter()),
                        plain@,
                        be64(old(self).spec_counter()),
                    )
                    &&& ct@.len() == plain@.len() + AES_GCM_TAG_LEN
                    &&& final(self).spec_counter() == old(self).spec_counter() + 1
                    &&& final(self).spec_offset() == old(self).spec_offset() + ct@.len()
                    &&& final(self).spec_chunks().len() == old(self).spec_chunks().len() + 1
                    &&& final(self).spec_chunks().drop_last() == old(self).spec_chunks()
                    &&& final(self).spec_chunks().last().hash@ == spec_hex_encode(spec_sha256(ct@))
                    &&& final(self).spec_chunks().last().offset == old(self).spec_offset()
                    &&& final(self).spec_chunks().last().len == ct@.len()
                    &&& final(self).spec_plain() == old(self).spec_plain() + plain@
                },
                Err(e) => e@ == "aes-gcm encrypt failed"@ && *final(self) == *old(self),
            },
    {
        let ct = match seal_chunk(&self.fskey, self.nonce_prefix, self.counter, plain) {
            Ok(c) => c,
            Err(e) => return Err(e),
        };
        self.hasher.update(plain);
        let hash = hash_sha256(ct.as_slice());
        let len = ct.len() as u32;
        self.chunks.push(ChunkEntry { hash, offset: self.offset, len });
        self.offset = self.offset + ct.len() as u64;
        self.counter = self.counter + 1;
        proof {
            assert(self.chunks@.drop_last() =~= old(self).chunks@);
        }
        Ok(ct)
    }

    /// The metadata of the sealed file.
    pub fn finish(self, name: String, size: u64, created_ms: u64, modified_ms: u64) -> (m: FileMeta)
        ensures
            m.name == name,
            m.size == size,
            m.nonce_prefix == self.spec_prefix(),
            m.chunks@ == self.spec_chunks(),
            m.file_sha256@ == spec_hex_encode(spec_sha256(self.spec_plain())),
            m.created_ms == created_ms,
            m.modified_ms == modified_ms,
    {
        let file_sha256 = self.hasher.finalize_hex();
        FileMeta {
            name,
            size,
            nonce_prefix: self.nonce_prefix,
            chunks: self.chunks,
            file_sha256,
            created_ms,
            modified_ms,
        }
    }
}

} // verus!
