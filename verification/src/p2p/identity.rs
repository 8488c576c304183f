//! Device identity: an Ed25519 key pair kept as its 32-byte seed. The
//! device id and the fingerprint are derived from SHA-256 of the public key;
//! the Noise static key is a separate X25519 key derived from the seed.
use ed25519_dalek::{Signature, Signer, SigningKey, Verifier, VerifyingKey};
use vstd::prelude::*;
use vstd::utf8::encode_utf8;

use crate::crypto::hash::{hash_sha256, spec_sha256};
use crate::crypto::hex::{hex_decode, hex_encode, hex_roundtrip, spec_hex_decode, spec_hex_encode};
use crate::crypto::aead::{aead_decrypt, aead_encrypt, opt_view, spec_aead_blob, spec_aead_open_blob};
use crate::crypto::random::{random_bytes, random_nonce, to_array_32};
use crate::vault::keys::{derive_key, spec_derive_key};
use crate::text::{string_push, string_push_str};

verus! {

pub const SEED_LEN: usize = 32;

/// Ed25519 public key of a seed.
pub uninterp spec fn spec_ed25519_public(seed: Seq<u8>) -> Seq<u8>;

/// Ed25519 signature (deterministic, RFC 8032) of a message under a seed.
pub uninterp spec fn spec_ed25519_sign(seed: Seq<u8>, msg: Seq<u8>) -> Seq<u8>;

/// Whether a signature verifies for a public key and message.
pub uninterp spec fn spec_ed25519_verify(pk: Seq<u8>, msg: Seq<u8>, sig: Seq<u8>) -> bool;

/// X25519 public key of a static secret.
pub uninterp spec fn spec_x25519_public(sk: Seq<u8>) -> Seq<u8>;

/// Calls `SigningKey::from_bytes`, `verifying_key` and `VerifyingKey::to_bytes`
/// (ed25519-dalek). Claims: the result is the public key of the seed.
#[verifier::external_body]
fn ed25519_public(seed: &[u8; 32]) -> (pk: [u8; 32])
    ensures
        pk@ == spec_ed25519_public(seed@),
{
    SigningKey::from_bytes(seed).verifying_key().to_bytes()
}

/// Calls `Signer::sign` on `SigningKey::from_bytes(seed)` (ed25519-dalek).
/// Claims: the 64 bytes are the signature of the message under the seed.
#[verifier::external_body]
fn ed25519_sign(seed: &[u8; 32], msg: &[u8]) -> (sig: [u8; 64])
    ensures
        sig@ == spec_ed25519_sign(seed@, msg@),
{
    SigningKey::from_bytes(seed).sign(msg).to_bytes()
}

/// Calls `VerifyingKey::from_bytes`, `Signature::from_slice` and
/// `Verifier::verify` (ed25519-dalek). Claims: the answer is the named
/// verification; a signature that is not 64 bytes long is refused (as
/// `from_slice` documents); and a signature made with a seed verifies under
/// that seed's public key.
#[verifier::external_body]
fn ed25519_verify(pk: &[u8; 32], msg: &[u8], sig: &[u8]) -> (ok: bool)
    ensures
        ok == spec_ed25519_verify(pk@, msg@, sig@),
        sig@.len() != 64 ==> !ok,
        forall|seed: Seq<u8>|
            pk@ == #[trigger] spec_ed25519_public(seed) && sig@ == spec_ed25519_sign(seed, msg@) ==> ok,
{
    match (VerifyingKey::from_bytes(pk), Signature::from_slice(sig)) {
        (Ok(vk), Ok(s)) => vk.verify(msg, &s).is_ok(),
        _ => false,
    }
}

/// Calls `x25519_dalek::PublicKey::from(&StaticSecret::from(sk))`. Claims:
/// the result is the X25519 public key of the secret.
#[verifier::external_body]
fn x25519_public(sk: &[u8; 32]) -> (pk: [u8; 32])
    ensures
        pk@ == spec_x25519_public(sk@),
{
    let secret = x25519_dalek::StaticSecret::from(*sk);
    x25519_dalek::PublicKey::from(&secret).to_bytes()
}

/// `vd-` and the first 16 hex digits of SHA-256 of a public key.
pub open spec fn spec_device_id(pk: Seq<u8>) -> Seq<char> {
    "vd-"@ + spec_hex_encode(spec_sha256(pk)).take(16)
}

/// The first 16 hex digits of SHA-256 of a public key, in four groups of four.
pub open spec fn spec_fingerprint(pk: Seq<u8>) -> Seq<char> {
    let h = spec_hex_encode(spec_sha256(pk));
    h.subrange(0, 4) + " "@ + h.subrange(4, 8) + " "@ + h.subrange(8, 12) + " "@ + h.subrange(12, 16)
}

/// What `Identity::verify` answers.
pub open spec fn spec_verify_hex(pub_hex: Seq<char>, msg: Seq<u8>, sig_hex: Seq<char>) -> bool {
    match (spec_hex_decode(pub_hex), spec_hex_decode(sig_hex)) {
        (Some(pk), Some(sig)) => pk.len() == 32 && spec_ed25519_verify(pk, msg, sig),
        _ => false,
    }
}

/// Noise static secret of a seed: SHA-256 of `vsync-x25519:<hex(seed)>`.
pub open spec fn spec_x25519_priv(seed: Seq<u8>) -> Seq<u8> {
    spec_sha256(encode_utf8("vsync-x25519:"@ + spec_hex_encode(seed)))
}

/// First `n` characters of a string.
fn prefix_chars(s: &String, n: usize) -> (r: String)
    requires
        n <= s@.len(),
    ensures
        r@ == s@.take(n as int),
{
    let mut r = String::new();
    let mut i: usize = 0;
    while i < n
        invariant
            n <= s@.len(),
            i <= n,
            r@ == s@.take(i as int),
        decreases n - i,
    {
        let c = s.as_str().get_char(i);
        string_push(&mut r, c);
        proof {
            assert(s@.take(i as int).push(c) =~= s@.take(i + 1));
        }
        i = i + 1;
    }
    r
}

/// A device identity (its Ed25519 seed).
pub struct Identity {
    seed: [u8; SEED_LEN],
}

impl Identity {
    pub closed spec fn spec_seed(&self) -> Seq<u8> {
        self.seed@
    }

    /// Ed25519 public key.
    pub open spec fn spec_public(&self) -> Seq<u8> {
        spec_ed25519_public(self.spec_seed())
    }

    /// New identity from the CSPRNG.
    pub fn generate() -> (id: Self)
        ensures
            id.spec_seed().len() == SEED_LEN,
    {
        let v = random_bytes(SEED_LEN);
        Identity { seed: to_array_32(v.as_slice()) }
    }

    pub fn from_seed(seed: &[u8; SEED_LEN]) -> (id: Self)
        ensures
            id.spec_seed() == seed@,
    {
        Identity { seed: *seed }
    }

    /// The seed (stored encrypted; never leaves the engine).
    pub fn seed(&self) -> (s: [u8; SEED_LEN])
        ensures
            s@ == self.spec_seed(),
    {
        self.seed
    }

    /// Ed25519 public key, hex.
    pub fn public_hex(&self) -> (h: String)
        ensures
            h@ == spec_hex_encode(self.spec_public()),
            spec_hex_decode(h@) == Some(self.spec_public()),
    {
        let pk = ed25519_public(&self.seed);
        proof {
            hex_roundtrip(pk@);
        }
        hex_encode(&pk)
    }

    /// Device id from any Ed25519 public key in hex; `None` when the hex does
    /// not decode.
    pub fn device_id_of(pub_hex: &str) -> (r: Option<String>)
        ensures
            match r {
                Some(d) => spec_hex_decode(pub_hex@) matches Some(pk) && d@ == spec_device_id(pk),
                None => spec_hex_decode(pub_hex@) is None,
            },
    {
        let pk = match hex_decode(pub_hex) {
            Some(pk) => pk,
            None => return None,
        };
        let h = hash_sha256(pk.as_slice());
        proof {
            crate::crypto::hex::lemma_hex_encode_len(spec_sha256(pk@));
        }
        let p = prefix_chars(&h, 16);
        let mut d = String::new();
        string_push_str(&mut d, "vd-");
        string_push_str(&mut d, p.as_str());
        Some(d)
    }

    /// This device's id.
    pub fn device_id(&self) -> (d: String)
        ensures
            d@ == spec_device_id(self.spec_public()),
    {
        let h = self.public_hex();
        match Identity::device_id_of(h.as_str()) {
            Some(d) => d,
            None => String::new(),
        }
    }

    /// Fingerprint for manual comparison from any public key in hex (empty when
    /// the hex does not decode).
    pub fn fingerprint_of(pub_hex: &str) -> (f: String)
        ensures
            match spec_hex_decode(pub_hex@) {
                Some(pk) => f@ == spec_fingerprint(pk),
                None => f@ == Seq::<char>::empty(),
            },
    {
        let pk = match hex_decode(pub_hex) {
            Some(pk) => pk,
            None => return String::new(),
        };
        let h = hash_sha256(pk.as_slice());
        proof {
            crate::crypto::hex::lemma_hex_encode_len(spec_sha256(pk@));
        }
        let mut f = String::new();
        let mut i: usize = 0;
        while i < 16
            invariant
                h@.len() == 64,
                i <= 16,
                i % 4 == 0,
                f@ == (if i == 0 {
                    Seq::<char>::empty()
                } else {
                    fingerprint_groups(h@, (i / 4) as nat)
                }),
            decreases 16 - i,
        {
            if i > 0 {
                string_push(&mut f, ' ');
            }
            let mut j: usize = i;
            let ghost f0 = f@;
            while j < i + 4
                invariant
                    h@.len() == 64,
                    i <= j <= i + 4,
                    i + 4 <= 16,
                    f@ == f0 + h@.subrange(i as int, j as int),
                decreases i + 4 - j,
            {
                let c = h.as_str().get_char(j);
                string_push(&mut f, c);
                proof {
                    assert(f0 + h@.subrange(i as int, j as int) + seq![c] =~= f0 + h@.subrange(
                        i as int,
                        j + 1,
                    ));
                }
                j = j + 1;
            }
            proof {
                reveal_strlit(" ");
                if i == 0 {
                    assert(f@ =~= fingerprint_groups(h@, 1));
                } else {
                    assert(f@ =~= fingerprint_groups(h@, (i / 4 + 1) as nat));
                }
            }
            i = i + 4;
        }
        proof {
            reveal_with_fuel(fingerprint_groups, 4);
            assert(fingerprint_groups(h@, 4) =~= spec_fingerprint(pk@));
        }
        f
    }

    /// This device's fingerprint.
    pub fn fingerprint(&self) -> (f: String)
        ensures
            f@ == spec_fingerprint(self.spec_public()),
    {
        let h = self.public_hex();
        Identity::fingerprint_of(h.as_str())
    }

    /// Signs a message; the signature in hex.
    pub fn sign(&self, msg: &[u8]) -> (s: String)
        ensures
            s@ == spec_hex_encode(spec_ed25519_sign(self.spec_seed(), msg@)),
            spec_hex_decode(s@) == Some(spec_ed25519_sign(self.spec_seed(), msg@)),
    {
        let sig = ed25519_sign(&self.seed, msg);
        proof {
            hex_roundtrip(sig@);
        }
        hex_encode(&sig)
    }

    /// Verifies a hex signature under a hex public key. A signature that an
    /// identity made verifies under that identity's public key.
    pub fn verify(pub_hex: &str, msg: &[u8], sig_hex: &str) -> (ok: bool)
        ensures
            ok == spec_verify_hex(pub_hex@, msg@, sig_hex@),
            forall|seed: Seq<u8>|
                pub_hex@ == #[trigger] spec_hex_encode(spec_ed25519_public(seed)) && spec_ed25519_public(
                    seed,
                ).len() == 32 && sig_hex@ == spec_hex_encode(spec_ed25519_sign(seed, msg@)) ==> ok,
    {
        let pk = match hex_decode(pub_hex) {
            Some(pk) => pk,
            None => {
                proof {
                    assert forall|seed: Seq<u8>|
                        pub_hex@ == #[trigger] spec_hex_encode(spec_ed25519_public(seed))
                            && spec_ed25519_public(seed).len() == 32 && sig_hex@ == spec_hex_encode(
                            spec_ed25519_sign(seed, msg@),
                        ) implies false by {
                        hex_roundtrip(spec_ed25519_public(seed));
                    }
                }
                return false;
            },
        };
        let sig = match hex_decode(sig_hex) {
            Some(s) => s,
            None => {
                proof {
                    assert forall|seed: Seq<u8>|
                        pub_hex@ == #[trigger] spec_hex_encode(spec_ed25519_public(seed))
                            && spec_ed25519_public(seed).len() == 32 && sig_hex@ == spec_hex_encode(
                            spec_ed25519_sign(seed, msg@),
                        ) implies false by {
                        hex_roundtrip(spec_ed25519_sign(seed, msg@));
                    }
                }
                return false;
            },
        };
        if pk.len() != 32 {
            proof {
                assert forall|seed: Seq<u8>|
                    pub_hex@ == #[trigger] spec_hex_encode(spec_ed25519_public(seed))
                        && spec_ed25519_public(seed).len() == 32 && sig_hex@ == spec_hex_encode(
                        spec_ed25519_sign(seed, msg@),
                    ) implies false by {
                    hex_roundtrip(spec_ed25519_public(seed));
                }
            }
            return false;
        }
        let pk_arr = to_array_32(pk.as_slice());
        proof {
            assert forall|seed: Seq<u8>|
                pub_hex@ == #[trigger] spec_hex_encode(spec_ed25519_public(seed))
                    && spec_ed25519_public(seed).len() == 32 && sig_hex@ == spec_hex_encode(
                    spec_ed25519_sign(seed, msg@),
                ) implies pk_arr@ == spec_ed25519_public(seed) && sig@ == spec_ed25519_sign(
                seed,
                msg@,
            ) by {
                hex_roundtrip(spec_ed25519_public(seed));
                hex_roundtrip(spec_ed25519_sign(seed, msg@));
            }
        }
        ed25519_verify(&pk_arr, msg, sig.as_slice())
    }

    /// Noise static secret: an X25519 key derived from the seed (the Ed25519
    /// scalar is not reused).
    pub fn x25519_priv(&self) -> (k: [u8; 32])
        ensures
            k@ == spec_x25519_priv(self.spec_seed()),
    {
        let mut s = String::new();
        string_push_str(&mut s, "vsync-x25519:");
        let hx = hex_encode(&self.seed);
        string_push_str(&mut s, hx.as_str());
        let h = hash_sha256(s.as_str().as_bytes());
        let v = match hex_decode(h.as_str()) {
            Some(v) => v,
            None => Vec::new(),
        };
        proof {
            hex_roundtrip(spec_sha256(encode_utf8(s@)));
            assert(s@ =~= "vsync-x25519:"@ + spec_hex_encode(self.seed@));
        }
        to_array_32(v.as_slice())
    }

    /// This device's X25519 public key (sent in the hello and signed).
    pub fn x25519_pub(&self) -> (k: [u8; 32])
        ensures
            k@ == spec_x25519_public(spec_x25519_priv(self.spec_seed())),
    {
        let sk = self.x25519_priv();
        x25519_public(&sk)
    }
}

/// The groups of four hex digits written so far, spaces between them.
pub open spec fn fingerprint_groups(h: Seq<char>, g: nat) -> Seq<char>
    decreases g,
{
    if g <= 1 {
        h.subrange(0, 4)
    } else {
        fingerprint_groups(h, (g - 1) as nat) + " "@ + h.subrange(4 * (g - 1) as int, 4 * g as int)
    }
}

/// The key a device identity is stored under: HKDF of the master key with
/// label `p2p-ident`.
pub open spec fn spec_identity_key(mk: Seq<u8>) -> Seq<u8> {
    spec_derive_key(mk, "p2p-ident"@)
}

impl Identity {
    /// The identity's seed sealed for storage under the master key (fresh
    /// nonce): `nonce ‖ ciphertext ‖ tag`, which `open_sealed` reads back.
    pub fn seal_seed(&self, mk: &[u8; 32]) -> (r: Vec<u8>)
        ensures
            exists|n: Seq<u8>|
                n.len() == 12 && r@ == #[trigger] spec_aead_blob(spec_identity_key(mk@), n, self.spec_seed(), seq![]),
            spec_aead_open_blob(spec_identity_key(mk@), r@, seq![]) == Some(self.spec_seed()),
    {
        let key = derive_key(mk, "p2p-ident");
        let nonce = random_nonce();
        proof {
            reveal_strlit("p2p-ident");
            assert(crate::crypto::aead::gcm_len_ok(self.seed@, seq![]));
        }
        match aead_encrypt(&key, &nonce, &self.seed) {
            Ok(b) => {
                proof {
                    assert(b@ == spec_aead_blob(spec_identity_key(mk@), nonce@, self.spec_seed(), seq![]));
                }
                b
            },
            Err(_) => {
                proof {
                    assert(false);
                }
                Vec::new()
            },
        }
    }

    /// Reads a stored identity: the blob must open under the master key's
    /// identity key and hold a 32-byte seed.
    pub fn open_sealed(mk: &[u8; 32], blob: &[u8]) -> (r: Result<Identity, &'static str>)
        ensures
            match spec_aead_open_blob(spec_identity_key(mk@), blob@, seq![]) {
                None => r matches Err(e) && e@ == "identity decrypt failed"@,
                Some(seed) => if seed.len() == 32 {
                    r matches Ok(id) && id.spec_seed() == seed
                } else {
                    r matches Err(e) && e@ == "identity len"@
                },
            },
    {
        let key = derive_key(mk, "p2p-ident");
        proof {
            reveal_strlit("p2p-ident");
        }
        let pt = match aead_decrypt(&key, blob) {
            Some(p) => p,
            None => return Err("identity decrypt failed"),
        };
        if pt.len() != 32 {
            return Err("identity len");
        }
        Ok(Identity { seed: to_array_32(pt.as_slice()) })
    }
}

} // verus!
