//! Vault header (keystore) binary format.
//!
//! ```text
//! magic "VSVB" | format_ver u16 | kdf_ver u16 | cipher_suite u16 | chunk_cfg u16 | flags u16
//! argon: m_kib u32 | t u32 | p u32 | salt 16B
//! verifier 32B (HKDF(MK, "verifier"))
//! MK_wrap_pwd: nonce 12B ‖ ct 48B
//! [flags.bit0] MK_wrap_bio: nonce 12B ‖ ct 48B
//! ```
//! Written with the highest format version; reading rejects a newer
//! format_ver and ignores unknown trailing bytes.
use vstd::prelude::*;

use crate::crypto::kdf::Argon2Params;
use crate::crypto::KEY_LEN;

verus! {

pub const FORMAT_VER: u16 = 2;

pub const KDF_VER: u16 = 1;

/// cipher_suite 1 = AES-256-GCM.
pub const CIPHER_SUITE: u16 = 1;

pub const FLAGS_BIO_BOUND: u16 = 0x0001;

/// Length of one wrapped master-key copy: nonce 12 + MK 32 + tag 16.
pub const WRAP_LEN: usize = 60;

/// Fixed part of the header (without the biometric copy).
pub const HEADER_LEN: usize = 134;

pub open spec fn magic() -> Seq<u8> {
    seq![86u8, 83, 86, 66]
}

pub open spec fn le16(x: u16) -> Seq<u8> {
    seq![(x % 256) as u8, (x / 256) as u8]
}

pub open spec fn le32(x: u32) -> Seq<u8> {
    seq![(x % 256) as u8, ((x / 256) % 256) as u8, ((x / 65536) % 256) as u8, (x / 16777216) as u8]
}

pub open spec fn rd16(b: Seq<u8>, i: int) -> u16 {
    (b[i] + 256 * b[i + 1]) as u16
}

pub open spec fn rd32(b: Seq<u8>, i: int) -> u32 {
    (b[i] + 256 * b[i + 1] + 65536 * b[i + 2] + 16777216 * b[i + 3]) as u32
}

/// The contents of a header, apart from the file it lives in.
pub struct KeystoreView {
    pub argon: Argon2Params,
    pub salt: Seq<u8>,
    pub verifier: Seq<u8>,
    pub mk_wrap_pwd: Seq<u8>,
    pub mk_wrap_bio: Option<Seq<u8>>,
}

#[derive(Clone, Debug)]
pub struct Keystore {
    pub path: String,
    pub argon: Argon2Params,
    pub salt: [u8; 16],
    /// HKDF(MK, "verifier"): checked after unwrapping so a swapped copy is noticed.
    pub verifier: [u8; KEY_LEN],
    /// nonce ‖ ct ‖ tag
    pub mk_wrap_pwd: Vec<u8>,
    /// Some(nonce ‖ ct ‖ tag) when biometrics are bound
    pub mk_wrap_bio: Option<Vec<u8>>,
}

pub open spec fn opt_bytes(o: Option<Vec<u8>>) -> Option<Seq<u8>> {
    match o {
        Some(v) => Some(v@),
        None => None,
    }
}

impl View for Keystore {
    type V = KeystoreView;

    open spec fn view(&self) -> KeystoreView {
        KeystoreView {
            argon: self.argon,
            salt: self.salt@,
            verifier: self.verifier@,
            mk_wrap_pwd: self.mk_wrap_pwd@,
            mk_wrap_bio: opt_bytes(self.mk_wrap_bio),
        }
    }
}

/// Serialized header.
pub open spec fn spec_keystore_bytes(k: KeystoreView) -> Seq<u8> {
    magic() + le16(FORMAT_VER) + le16(KDF_VER) + le16(CIPHER_SUITE) + le16(0) + le16(
        if k.mk_wrap_bio is Some {
            FLAGS_BIO_BOUND
        } else {
            0
        },
    ) + le32(k.argon.m_kib) + le32(k.argon.t) + le32(k.argon.p) + k.salt + k.verifier + k.mk_wrap_pwd
        + match k.mk_wrap_bio {
        Some(b) => b,
        None => seq![],
    }
}

/// Result of parsing a header.
pub open spec fn spec_parse_keystore(d: Seq<u8>) -> Result<KeystoreView, Seq<char>> {
    if d.len() < 4 {
        Err("truncated keystore header"@)
    } else if d.take(4) != magic() {
        Err("bad magic: not a VaultSync vault"@)
    } else if d.len() < 14 {
        Err("truncated keystore header"@)
    } else if rd16(d, 4) > FORMAT_VER {
        Err("vault format is newer than this engine; upgrade required"@)
    } else if d.len() < HEADER_LEN {
        Err("truncated keystore header"@)
    } else if rd16(d, 12) % 2 == 1 && d.len() < HEADER_LEN + WRAP_LEN {
        Err("truncated keystore header"@)
    } else {
        Ok(
            KeystoreView {
                argon: Argon2Params { m_kib: rd32(d, 14), t: rd32(d, 18), p: rd32(d, 22) },
                salt: d.subrange(26, 42),
                verifier: d.subrange(42, 74),
                mk_wrap_pwd: d.subrange(74, 134),
                mk_wrap_bio: if rd16(d, 12) % 2 == 1 {
                    Some(d.subrange(134, 194))
                } else {
                    None
                },
            },
        )
    }
}

pub(crate) fn push_le16(b: &mut Vec<u8>, x: u16)
    ensures
        final(b)@ == old(b)@ + le16(x),
{
    b.push((x % 256) as u8);
    b.push((x / 256) as u8);
    proof {
        assert(final(b)@ =~= old(b)@ + le16(x));
    }
}

pub(crate) fn push_le32(b: &mut Vec<u8>, x: u32)
    ensures
        final(b)@ == old(b)@ + le32(x),
{
    b.push((x % 256) as u8);
    b.push(((x / 256) % 256) as u8);
    b.push(((x / 65536) % 256) as u8);
    b.push((x / 16777216) as u8);
    proof {
        assert(final(b)@ =~= old(b)@ + le32(x));
    }
}

pub(crate) fn read16(d: &[u8], i: usize) -> (r: u16)
    requires
        i + 2 <= d@.len(),
    ensures
        r == rd16(d@, i as int),
{
    (d[i] as u16) + (d[i + 1] as u16) * 256
}

pub(crate) fn read32(d: &[u8], i: usize) -> (r: u32)
    requires
        i + 4 <= d@.len(),
    ensures
        r == rd32(d@, i as int),
{
    (d[i] as u32) + (d[i + 1] as u32) * 256 + (d[i + 2] as u32) * 65536 + (d[i + 3] as u32) * 16777216
}

pub(crate) fn copy_range(d: &[u8], lo: usize, hi: usize) -> (v: Vec<u8>)
    requires
        lo <= hi <= d@.len(),
    ensures
        v@ == d@.subrange(lo as int, hi as int),
{
    let mut v: Vec<u8> = Vec::new();
    v.extend_from_slice(&d[lo..hi]);
    proof {
        assert(v@ =~= d@.subrange(lo as int, hi as int));
    }
    v
}

pub(crate) proof fn lemma_le16_rd(x: u16)
    ensures
        rd16(le16(x), 0) == x,
{
}

pub(crate) proof fn lemma_le32_rd(x: u32)
    ensures
        rd32(le32(x), 0) == x,
{
    let q1 = x / 256;
    let q2 = x / 65536;
    assert(q2 == q1 / 256);
    assert(x / 16777216 == q2 / 256);
}

impl Keystore {
    pub fn bio_bound(&self) -> (r: bool)
        ensures
            r == self.mk_wrap_bio.is_some(),
    {
        self.mk_wrap_bio.is_some()
    }

    /// Serialize for disk; always writes FORMAT_VER.
    pub fn to_bytes(&self) -> (b: Vec<u8>)
        ensures
            b@ == spec_keystore_bytes(self@),
    {
        let mut b: Vec<u8> = Vec::new();
        b.push(86u8);
        b.push(83u8);
        b.push(86u8);
        b.push(66u8);
        push_le16(&mut b, FORMAT_VER);
        push_le16(&mut b, KDF_VER);
        push_le16(&mut b, CIPHER_SUITE);
        push_le16(&mut b, 0);
        push_le16(
            &mut b,
            if self.bio_bound() {
                FLAGS_BIO_BOUND
            } else {
                0
            },
        );
        push_le32(&mut b, self.argon.m_kib);
        push_le32(&mut b, self.argon.t);
        push_le32(&mut b, self.argon.p);
        b.extend_from_slice(&self.salt);
        b.extend_from_slice(&self.verifier);
        b.extend_from_slice(self.mk_wrap_pwd.as_slice());
        match &self.mk_wrap_bio {
            Some(bio) => {
                b.extend_from_slice(bio.as_slice());
            },
            None => {},
        }
        proof {
            assert(b@ =~= spec_keystore_bytes(self@));
        }
        b
    }

    /// Parse a header: rejects a bad magic, a newer format_ver and truncated
    /// data; unknown trailing bytes are ignored.
    pub fn from_bytes(path: &str, data: &[u8]) -> (res: Result<Self, &'static str>)
        ensures
            match res {
                Ok(k) => spec_parse_keystore(data@) == Ok::<KeystoreView, Seq<char>>(k@) && k.path@ == path@,
                Err(e) => spec_parse_keystore(data@) == Err::<KeystoreView, Seq<char>>(e@),
            },
    {
        if data.len() < 4 {
            return Err("truncated keystore header");
        }
        if !(data[0] == 86 && data[1] == 83 && data[2] == 86 && data[3] == 66) {
            proof {
                assert(data@.take(4) != magic()) by {
                    if data@.take(4) == magic() {
                        assert(data@.take(4)[0] == 86);
                        assert(data@.take(4)[1] == 83);
                        assert(data@.take(4)[2] == 86);
                        assert(data@.take(4)[3] == 66);
                    }
                }
            }
            return Err("bad magic: not a VaultSync vault");
        }
        proof {
            assert(data@.take(4) =~= magic());
        }
        if data.len() < 14 {
            return Err("truncated keystore header");
        }
        let format_ver = read16(data, 4);
        let flags = read16(data, 12);
        if format_ver > FORMAT_VER {
            return Err("vault format is newer than this engine; upgrade required");
        }
        if data.len() < HEADER_LEN {
            return Err("truncated keystore header");
        }
        let argon = Argon2Params { m_kib: read32(data, 14), t: read32(data, 18), p: read32(data, 22) };
        let salt_v = copy_range(data, 26, 42);
        let salt = to_array_16(&salt_v);
        let ver_v = copy_range(data, 42, 74);
        let verifier = crate::crypto::random::to_array_32(&ver_v);
        let mk_wrap_pwd = copy_range(data, 74, 134);
        let mk_wrap_bio = if flags % 2 == 1 {
            if data.len() < HEADER_LEN + WRAP_LEN {
                return Err("truncated keystore header");
            }
            Some(copy_range(data, 134, 194))
        } else {
            None
        };
        let mut p = String::new();
        crate::text::string_push_str(&mut p, path);
        Ok(Keystore { path: p, argon, salt, verifier, mk_wrap_pwd, mk_wrap_bio })
    }
}

fn to_array_16(v: &Vec<u8>) -> (a: [u8; 16])
    requires
        v@.len() == 16,
    ensures
        a@ == v@,
{
    let mut a = [0u8; 16];
    let mut i: usize = 0;
    while i < 16
        invariant
            v@.len() == 16,
            i <= 16,
            forall|j: int| 0 <= j < i ==> a@[j] == v@[j],
        decreases 16 - i,
    {
        a[i] = v[i];
        i = i + 1;
    }
    proof {
        assert(a@ =~= v@);
    }
    a
}

/// Parsing a serialized header gives back its contents (for wrapped copies of
/// the on-disk length).
pub proof fn keystore_roundtrip(k: KeystoreView)
    requires
        k.salt.len() == 16,
        k.verifier.len() == 32,
        k.mk_wrap_pwd.len() == WRAP_LEN,
        k.mk_wrap_bio matches Some(b) ==> b.len() == WRAP_LEN,
    ensures
        spec_parse_keystore(spec_keystore_bytes(k)) == Ok::<KeystoreView, Seq<char>>(k),
{
    let d = spec_keystore_bytes(k);
    let flags: u16 = if k.mk_wrap_bio is Some { FLAGS_BIO_BOUND } else { 0 };
    lemma_le16_rd(FORMAT_VER);
    lemma_le16_rd(flags);
    lemma_le32_rd(k.argon.m_kib);
    lemma_le32_rd(k.argon.t);
    lemma_le32_rd(k.argon.p);
    assert(d.take(4) =~= magic());
    assert(d.subrange(4, 6) =~= le16(FORMAT_VER));
    assert(d.subrange(12, 14) =~= le16(flags));
    assert(d.subrange(14, 18) =~= le32(k.argon.m_kib));
    assert(d.subrange(18, 22) =~= le32(k.argon.t));
    assert(d.subrange(22, 26) =~= le32(k.argon.p));
    assert(rd16(d, 4) == rd16(le16(FORMAT_VER), 0));
    assert(rd16(d, 12) == rd16(le16(flags), 0));
    assert(rd32(d, 14) == rd32(le32(k.argon.m_kib), 0));
    assert(rd32(d, 18) == rd32(le32(k.argon.t), 0));
    assert(rd32(d, 22) == rd32(le32(k.argon.p), 0));
    assert(d.subrange(26, 42) =~= k.salt);
    assert(d.subrange(42, 74) =~= k.verifier);
    assert(d.subrange(74, 134) =~= k.mk_wrap_pwd);
    match k.mk_wrap_bio {
        Some(b) => {
            assert(d.subrange(134, 194) =~= b);
        },
        None => {},
    }
}

} // verus!
