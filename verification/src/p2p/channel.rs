//! Secure-channel logic: the pairing PSK and handshake-bound subkeys, and the
//! application-level sequence numbers that reject replayed or reordered
//! messages, and the Noise (snow) handshake and transport framing. Every
//! message carries `seq (8B BE) ‖ payload`; a receiver accepts only the next
//! sequence number. The host moves the bytes.
use vstd::prelude::*;
use vstd::utf8::encode_utf8;

use crate::crypto::hash::{hash_sha256, spec_sha256};
use crate::crypto::hex::{hex_decode, hex_encode, hex_roundtrip, spec_hex_decode, spec_hex_encode};
use crate::text::string_push_str;
use crate::crypto::random::to_array_32;
use crate::p2p::identity::{spec_x25519_priv, Identity};
use crate::vault::container::{be32, be32_bytes, be64, be64_bytes, lemma_be64_injective};
use crate::vaultcore::keystore::copy_range;

verus! {

/// Largest application message.
pub const MAX_APP_MSG: usize = 4194304;

#[derive(Clone, Copy, PartialEq, Eq, Structural, Debug)]
pub enum Role {
    Initiator,
    Responder,
}

/// Key from the 64-digit hex form of a 32-byte digest (the digest's bytes).
fn hash_to_key(hex: &String) -> (k: [u8; 32])
    requires
        exists|d: Seq<u8>| d.len() == 32 && #[trigger] spec_hex_encode(d) == hex@,
    ensures
        hex@ == spec_hex_encode(k@),
{
    let ghost d = choose|d: Seq<u8>| d.len() == 32 && #[trigger] spec_hex_encode(d) == hex@;
    proof {
        hex_roundtrip(d);
    }
    match hex_decode(hex.as_str()) {
        Some(v) => crate::crypto::random::to_array_32(v.as_slice()),
        None => [0u8; 32],
    }
}

/// Pairing PSK of an invite code: SHA-256 of `vsync-psk:<code>`.
pub open spec fn spec_psk(code: Seq<char>) -> Seq<u8> {
    spec_sha256(encode_utf8("vsync-psk:"@ + code))
}

/// Subkey bound to a handshake: SHA-256 of `vsync-sub:<hex(hh)>:<info>`.
pub open spec fn spec_subkey(hh: Seq<u8>, info: Seq<char>) -> Seq<u8> {
    spec_sha256(encode_utf8("vsync-sub:"@ + spec_hex_encode(hh) + ":"@ + info))
}

/// Digest bytes are fixed by their hex form.
proof fn lemma_same_hex(a: Seq<u8>, b: Seq<u8>)
    requires
        spec_hex_encode(a) == spec_hex_encode(b),
    ensures
        a == b,
{
    hex_roundtrip(a);
    hex_roundtrip(b);
}

/// Invite code → channel PSK (pairing only; holding the code proves the
/// invitation).
pub fn psk_from_code(code: &str) -> (k: [u8; 32])
    ensures
        k@ == spec_psk(code@),
{
    let mut s = String::new();
    string_push_str(&mut s, "vsync-psk:");
    string_push_str(&mut s, code);
    let h = hash_sha256(s.as_str().as_bytes());
    let k = hash_to_key(&h);
    proof {
        lemma_same_hex(k@, spec_sha256(encode_utf8(s@)));
        assert(s@ =~= "vsync-psk:"@ + code@);
    }
    k
}

/// Subkey derived from the handshake hash (carries file keys end to end).
pub fn subkey(hh: &[u8; 32], info: &str) -> (k: [u8; 32])
    ensures
        k@ == spec_subkey(hh@, info@),
{
    let mut s = String::new();
    string_push_str(&mut s, "vsync-sub:");
    let hx = hex_encode(hh);
    string_push_str(&mut s, hx.as_str());
    string_push_str(&mut s, ":");
    string_push_str(&mut s, info);
    let h = hash_sha256(s.as_str().as_bytes());
    let k = hash_to_key(&h);
    proof {
        assert(s@ =~= "vsync-sub:"@ + spec_hex_encode(hh@) + ":"@ + info@);
        lemma_same_hex(k@, spec_sha256(encode_utf8(s@)));
    }
    k
}

/// The peer's Noise static key is the X25519 key its hello declared (hex).
pub fn static_matches(remote_static: &[u8; 32], x25519_pub_hex: &str) -> (b: bool)
    ensures
        b == (spec_hex_decode(x25519_pub_hex@) == Some(remote_static@)),
{
    match hex_decode(x25519_pub_hex) {
        Some(exp) => crate::crypto::bytes_eq(exp.as_slice(), remote_static.as_slice()),
        None => false,
    }
}

/// Sequence numbers of one channel end.
pub struct ChannelSeq {
    send_seq: u64,
    recv_seq: u64,
}

impl ChannelSeq {
    /// Messages framed so far.
    pub closed spec fn sent(&self) -> u64 {
        self.send_seq
    }

    /// Messages accepted so far.
    pub closed spec fn received(&self) -> u64 {
        self.recv_seq
    }

    pub fn new() -> (c: Self)
        ensures
            c.sent() == 0,
            c.received() == 0,
    {
        ChannelSeq { send_seq: 0, recv_seq: 0 }
    }

    pub fn sent_count(&self) -> (n: u64)
        ensures
            n == self.sent(),
    {
        self.send_seq
    }

    pub fn received_count(&self) -> (n: u64)
        ensures
            n == self.received(),
    {
        self.recv_seq
    }

    /// Frames an outgoing message: `seq ‖ payload`; the sequence number moves
    /// on. Refused above the message size limit.
    pub fn frame_outgoing(&mut self, payload: &[u8]) -> (r: Result<Vec<u8>, &'static str>)
        requires
            old(self).sent() < u64::MAX,
        ensures
            r is Ok <==> payload@.len() <= MAX_APP_MSG,
            match r {
                Ok(b) => b@ == be64(old(self).sent()) + payload@ && final(self).sent() == old(self).sent()
                    + 1 && final(self).received() == old(self).received(),
                Err(e) => e@ == "message too large"@ && *final(self) == *old(self),
            },
    {
        if payload.len() > MAX_APP_MSG {
            return Err("message too large");
        }
        let mut out: Vec<u8> = Vec::new();
        let seq = be64_bytes(self.send_seq);
        out.extend_from_slice(&seq);
        out.extend_from_slice(payload);
        self.send_seq = self.send_seq + 1;
        proof {
            assert(out@ =~= be64(old(self).sent()) + payload@);
        }
        Ok(out)
    }

    /// Accepts an incoming message: its sequence number must be exactly the
    /// next one expected; gives the payload.
    pub fn accept_incoming(&mut self, plain: &[u8]) -> (r: Result<Vec<u8>, &'static str>)
        requires
            old(self).received() < u64::MAX,
        ensures
            r is Ok <==> (plain@.len() >= 8 && plain@.take(8) == be64(old(self).received())),
            match r {
                Ok(p) => p@ == plain@.skip(8) && final(self).received() == old(self).received() + 1
                    && final(self).sent() == old(self).sent(),
                Err(e) => *final(self) == *old(self) && e@ == (if plain@.len() < 8 {
                    "short message"@
                } else {
                    "replay or out-of-order sequence"@
                }),
            },
    {
        if plain.len() < 8 {
            return Err("short message");
        }
        let seq = be64_bytes(self.recv_seq);
        let head = copy_range(plain, 0, 8);
        proof {
            assert(head@ =~= plain@.take(8));
        }
        if !crate::crypto::bytes_eq(head.as_slice(), seq.as_slice()) {
            return Err("replay or out-of-order sequence");
        }
        self.recv_seq = self.recv_seq + 1;
        let p = copy_range(plain, 8, plain.len());
        proof {
            assert(p@ =~= plain@.skip(8));
        }
        Ok(p)
    }
}

/// A framed message is accepted by the end expecting its sequence number,
/// which gets the payload back, and is refused by that end afterwards (a
/// replay).
pub proof fn in_order_delivery_and_replay(seq: u64, payload: Seq<u8>)
    requires
        seq < u64::MAX,
    ensures
        (be64(seq) + payload).take(8) == be64(seq),
        (be64(seq) + payload).skip(8) == payload,
        (be64(seq) + payload).take(8) != be64((seq + 1) as u64),
{
    assert((be64(seq) + payload).take(8) =~= be64(seq));
    assert((be64(seq) + payload).skip(8) =~= payload);
    if be64(seq) == be64((seq + 1) as u64) {
        lemma_be64_injective(seq, (seq + 1) as u64);
    }
}

proof fn lemma_framed_push(w: Seq<u8>, off: nat, c: Seq<u8>, n: nat)
    requires
        framed(w, off),
        off % (CHUNK_PAYLOAD as nat) == 0,
        0 < n <= CHUNK_PAYLOAD,
        c.len() == n + NOISE_TAG_LEN,
    ensures
        framed(w + (be32((n + NOISE_TAG_LEN) as u32) + c), off + n),
    decreases off,
{
    let f = be32((n + NOISE_TAG_LEN) as u32) + c;
    if off == 0 {
        assert(w =~= Seq::<u8>::empty());
        assert(w + f =~= f);
        assert(first_chunk(n) == n);
        assert(f.take(4) =~= be32((n + NOISE_TAG_LEN) as u32));
        assert(f.skip(4 + n + NOISE_TAG_LEN) =~= Seq::<u8>::empty());
        assert(framed(f.skip(4 + n + NOISE_TAG_LEN), 0));
    } else {
        let k: int = CHUNK_PAYLOAD as int + NOISE_TAG_LEN as int;
        assert(off >= CHUNK_PAYLOAD);
        lemma_framed_push(w.skip(4 + k), (off - CHUNK_PAYLOAD) as nat, c, n);
        assert((w + f).take(4) =~= w.take(4));
        assert((w + f).skip(4 + k) =~= w.skip(4 + k) + f);
        assert(first_chunk(off + n) == CHUNK_PAYLOAD);
        assert((off + n - CHUNK_PAYLOAD) as nat == (off - CHUNK_PAYLOAD) as nat + n);
    }
}

/// Plaintext bytes carried by one Noise transport frame.
pub const CHUNK_PAYLOAD: usize = 60000;

/// Largest Noise message.
pub const MAX_NOISE_FRAME: usize = 65535;

/// Authentication tag the Noise cipher appends to each frame.
pub const NOISE_TAG_LEN: usize = 16;

/// Handshake patterns: plain, and with the pairing PSK mixed in.
pub const PATTERN_XX: &'static str = "Noise_XX_25519_ChaChaPoly_SHA256";

pub const PATTERN_XX_PSK3: &'static str = "Noise_XXpsk3_25519_ChaChaPoly_SHA256";

#[verifier::external_type_specification]
#[verifier::external_body]
pub struct ExNoiseParams(snow::params::NoiseParams);

#[verifier::external_type_specification]
#[verifier::external_body]
pub struct ExHandshakeState(snow::HandshakeState);

#[verifier::external_type_specification]
#[verifier::external_body]
pub struct ExTransportState(snow::TransportState);

#[verifier::external_type_specification]
#[verifier::external_body]
pub struct ExSnowError(snow::Error);

/// `NoiseParams::from_str`: the parameters a pattern name spells; nothing
/// is stated of the result.
#[verifier::external_body]
fn noise_params(pattern: &str) -> (r: Result<snow::params::NoiseParams, snow::Error>) {
    pattern.parse()
}

/// `snow::Builder::new(params).local_private_key(key).build_initiator()`:
/// the initiator's handshake state. Its ephemeral key is drawn at random, so
/// nothing is stated.
#[verifier::external_body]
fn noise_build_initiator(params: snow::params::NoiseParams, local_private: &[u8; 32]) -> (r: Result<
    snow::HandshakeState,
    snow::Error,
>) {
    snow::Builder::new(params).local_private_key(local_private).build_initiator()
}

/// `snow::Builder::new(params).local_private_key(key).build_responder()`:
/// the responder's handshake state; nothing is stated.
#[verifier::external_body]
fn noise_build_responder(params: snow::params::NoiseParams, local_private: &[u8; 32]) -> (r: Result<
    snow::HandshakeState,
    snow::Error,
>) {
    snow::Builder::new(params).local_private_key(local_private).build_responder()
}

/// `HandshakeState::set_psk`: places a 32-byte PSK at a slot; nothing is
/// stated.
#[verifier::external_body]
fn noise_set_psk(hs: &mut snow::HandshakeState, location: usize, key: &[u8; 32]) -> (r: Result<
    (),
    snow::Error,
>) {
    hs.set_psk(location, key)
}

/// `HandshakeState::write_message` with an empty payload: the next
/// handshake message (random ephemeral keys: nothing is stated).
#[verifier::external_body]
fn noise_hs_write(hs: &mut snow::HandshakeState) -> (r: Result<Vec<u8>, snow::Error>) {
    let mut buf = vec![0u8; MAX_NOISE_FRAME];
    hs.write_message(&[], &mut buf).map(|n| buf[..n].to_vec())
}

/// `HandshakeState::read_message` of a handshake message with an empty
/// payload; nothing is stated.
#[verifier::external_body]
fn noise_hs_read(hs: &mut snow::HandshakeState, msg: &[u8]) -> (r: Result<usize, snow::Error>) {
    hs.read_message(msg, &mut [])
}

/// `HandshakeState::get_remote_static`, copied out.
#[verifier::external_body]
fn noise_remote_static(hs: &snow::HandshakeState) -> (r: Option<Vec<u8>>) {
    hs.get_remote_static().map(|k| k.to_vec())
}

/// `HandshakeState::get_handshake_hash`, copied out.
#[verifier::external_body]
fn noise_handshake_hash(hs: &snow::HandshakeState) -> (r: Vec<u8>) {
    hs.get_handshake_hash().to_vec()
}

/// `HandshakeState::into_transport_mode`; nothing is stated.
#[verifier::external_body]
fn noise_into_transport(hs: snow::HandshakeState) -> (r: Result<snow::TransportState, snow::Error>) {
    hs.into_transport_mode()
}

/// `TransportState::write_message`: encrypts one frame.  The ciphertext
/// depends on the transport's keys and nonce counter, so only its length is
/// stated: the payload's plus the 16-byte tag (as the source's ciphers
/// return it).
#[verifier::external_body]
fn noise_encrypt(ts: &mut snow::TransportState, payload: &[u8]) -> (r: Result<Vec<u8>, snow::Error>)
    requires
        payload@.len() + NOISE_TAG_LEN <= MAX_NOISE_FRAME,
    ensures
        r matches Ok(c) ==> c@.len() == payload@.len() + NOISE_TAG_LEN,
{
    let mut buf = vec![0u8; MAX_NOISE_FRAME];
    ts.write_message(payload, &mut buf).map(|n| buf[..n].to_vec())
}

/// `TransportState::read_message`: decrypts and authenticates one frame;
/// on success the plaintext is the frame less the 16-byte tag (in length;
/// its bytes are not stated).
#[verifier::external_body]
fn noise_decrypt(ts: &mut snow::TransportState, frame: &[u8]) -> (r: Result<Vec<u8>, snow::Error>)
    requires
        frame@.len() <= MAX_NOISE_FRAME,
    ensures
        r matches Ok(p) ==> p@.len() + NOISE_TAG_LEN == frame@.len(),
{
    let mut buf = vec![0u8; MAX_NOISE_FRAME];
    ts.read_message(frame, &mut buf).map(|n| buf[..n].to_vec())
}

/// Error label of a failed handshake step (`hs1` … `hs3`).
pub open spec fn step_label(step: nat) -> Seq<char> {
    if step == 0 {
        "hs1"@
    } else if step == 1 {
        "hs2"@
    } else {
        "hs3"@
    }
}

fn step_error(step: u8) -> (e: &'static str)
    ensures
        e@ == step_label(step as nat),
{
    if step == 0 {
        "hs1"
    } else if step == 1 {
        "hs2"
    } else {
        "hs3"
    }
}

/// What a finished handshake reported, checked: the peer's static key and
/// the handshake hash must both be 32 bytes; they come back as
/// `(remote_static, handshake_hash)`.
pub fn handshake_keys(remote_static: Option<Vec<u8>>, handshake_hash: Vec<u8>) -> (r: Result<
    ([u8; 32], [u8; 32]),
    &'static str,
>)
    ensures
        match remote_static {
            Some(k) if k@.len() == 32 => if handshake_hash@.len() == 32 {
                r matches Ok((a, b)) && a@ == k@ && b@ == handshake_hash@
            } else {
                r matches Err(e) && e@ == "hh len"@
            },
            _ => r matches Err(e) && e@ == "no remote static"@,
        },
{
    let rs = match remote_static {
        Some(k) => k,
        None => {
            return Err("no remote static");
        },
    };
    if rs.len() != 32 {
        return Err("no remote static");
    }
    if handshake_hash.len() != 32 {
        return Err("hh len");
    }
    Ok((to_array_32(rs.as_slice()), to_array_32(handshake_hash.as_slice())))
}

/// The three-message XX handshake in progress: the initiator writes the
/// first and the third message, the responder the second.
pub struct NoiseHandshake {
    hs: snow::HandshakeState,
    initiator: bool,
    step: u8,
    /// The pattern the handshake state was built with.
    pattern: &'static str,
    /// The local X25519 private key it was built with.
    local: [u8; 32],
    /// The PSK placed in slot 3, if any.
    psk: Option<[u8; 32]>,
}

impl NoiseHandshake {
    pub closed spec fn is_initiator(&self) -> bool {
        self.initiator
    }

    /// Messages exchanged so far (3 when done).
    pub closed spec fn step(&self) -> nat {
        self.step as nat
    }

    /// The Noise pattern the handshake state was built from.
    pub closed spec fn spec_pattern(&self) -> Seq<char> {
        self.pattern@
    }

    /// The local static (X25519) private key handed to the handshake.
    pub closed spec fn spec_local(&self) -> Seq<u8> {
        self.local@
    }

    /// The PSK set in slot 3, if any.
    pub closed spec fn spec_psk(&self) -> Option<Seq<u8>> {
        match self.psk {
            Some(k) => Some(k@),
            None => None,
        }
    }

    /// Whether the pairing PSK is mixed into this handshake.
    pub fn uses_psk(&self) -> (b: bool)
        ensures
            b == self.spec_psk() is Some,
    {
        self.psk.is_some()
    }

    /// Whether this side writes the next message.
    pub open spec fn spec_writes_next(&self) -> bool {
        if self.is_initiator() {
            self.step() == 0 || self.step() == 2
        } else {
            self.step() == 1
        }
    }

    /// Starts a handshake with the identity's X25519 key; with a pairing
    /// PSK the PSK pattern is used and the PSK goes into slot 3.
    pub fn start(role: Role, ident: &Identity, psk: Option<&[u8; 32]>) -> (r: Result<Self, &'static str>)
        ensures
            r matches Ok(h) ==> h.step() == 0 && h.is_initiator() == (role == Role::Initiator),
            r matches Ok(h) ==> h.spec_local() == spec_x25519_priv(ident.spec_seed()),
            r matches Ok(h) ==> match psk {
                Some(k) => h.spec_psk() == Some(k@) && h.spec_pattern() == PATTERN_XX_PSK3@,
                None => h.spec_psk() is None && h.spec_pattern() == PATTERN_XX@,
            },
            r matches Err(e) ==> e@ == "bad pattern"@ || e@ == "noise init failed"@ || e@ == "set psk failed"@,
    {
        let pattern = match psk {
            Some(_) => PATTERN_XX_PSK3,
            None => PATTERN_XX,
        };
        let params = match noise_params(pattern) {
            Ok(p) => p,
            Err(_) => {
                return Err("bad pattern");
            },
        };
        let key = ident.x25519_priv();
        let (built, initiator) = match role {
            Role::Initiator => (noise_build_initiator(params, &key), true),
            Role::Responder => (noise_build_responder(params, &key), false),
        };
        let mut hs = match built {
            Ok(h) => h,
            Err(_) => {
                return Err("noise init failed");
            },
        };
        let kept = match psk {
            Some(k) => {
                if noise_set_psk(&mut hs, 3, k).is_err() {
                    return Err("set psk failed");
                }
                Some(*k)
            },
            None => None,
        };
        Ok(NoiseHandshake { hs, initiator, step: 0, pattern, local: key, psk: kept })
    }

    /// Whether this side writes the next message.
    pub fn writes_next(&self) -> (b: bool)
        ensures
            b == self.spec_writes_next(),
    {
        if self.initiator {
            self.step == 0 || self.step == 2
        } else {
            self.step == 1
        }
    }

    /// Whether all three messages have been exchanged.
    pub fn is_done(&self) -> (b: bool)
        ensures
            b == (self.step() >= 3),
    {
        self.step >= 3
    }

    /// Writes this side's next handshake message.
    pub fn write_next(&mut self) -> (r: Result<Vec<u8>, &'static str>)
        requires
            old(self).step() < 3,
            old(self).spec_writes_next(),
        ensures
            final(self).is_initiator() == old(self).is_initiator(),
            final(self).spec_pattern() == old(self).spec_pattern(),
            final(self).spec_local() == old(self).spec_local(),
            final(self).spec_psk() == old(self).spec_psk(),
            r is Ok ==> final(self).step() == old(self).step() + 1,
            r matches Err(e) ==> final(self).step() == old(self).step() && e@ == step_label(old(self).step()),
    {
        match noise_hs_write(&mut self.hs) {
            Ok(m) => {
                self.step = self.step + 1;
                Ok(m)
            },
            Err(_) => Err(step_error(self.step)),
        }
    }

    /// Reads the peer's next handshake message.
    pub fn read_next(&mut self, msg: &[u8]) -> (r: Result<(), &'static str>)
        requires
            old(self).step() < 3,
            !old(self).spec_writes_next(),
        ensures
            final(self).is_initiator() == old(self).is_initiator(),
            final(self).spec_pattern() == old(self).spec_pattern(),
            final(self).spec_local() == old(self).spec_local(),
            final(self).spec_psk() == old(self).spec_psk(),
            r is Ok ==> final(self).step() == old(self).step() + 1,
            r matches Err(e) ==> final(self).step() == old(self).step() && e@ == step_label(old(self).step()),
    {
        match noise_hs_read(&mut self.hs, msg) {
            Ok(_) => {
                self.step = self.step + 1;
                Ok(())
            },
            Err(_) => Err(step_error(self.step)),
        }
    }

    /// The secure channel of a finished handshake: the peer's static key and
    /// the handshake hash (both 32 bytes) are kept; sequence numbers start at
    /// zero.
    pub fn finish(self) -> (r: Result<SecureChannel, &'static str>)
        requires
            self.step() >= 3,
        ensures
            r matches Ok(c) ==> c.sent() == 0 && c.received() == 0 && c.pending() is None && c.wf(),
            r matches Err(e) ==> e@ == "no remote static"@ || e@ == "hh len"@ || e@ == "into transport"@,
    {
        let rs = noise_remote_static(&self.hs);
        let hh = noise_handshake_hash(&self.hs);
        let (remote_static, handshake_hash) = match handshake_keys(rs, hh) {
            Ok(keys) => keys,
            Err(e) => {
                return Err(e);
            },
        };
        let transport = match noise_into_transport(self.hs) {
            Ok(t) => t,
            Err(_) => {
                return Err("into transport");
            },
        };
        Ok(
            SecureChannel {
                transport,
                handshake_hash,
                remote_static,
                seq: ChannelSeq::new(),
                inbox: Vec::new(),
                expect: 0,
                receiving: false,
            },
        )
    }
}

/// Value of 4 big-endian bytes.
pub open spec fn be32_value(b: Seq<u8>) -> nat {
    (b[0] as nat) * 16777216 + (b[1] as nat) * 65536 + (b[2] as nat) * 256 + (b[3] as nat)
}

fn read_be32(b: &[u8; 4]) -> (v: u32)
    ensures
        v as nat == be32_value(b@),
{
    (b[0] as u32) * 16777216 + (b[1] as u32) * 65536 + (b[2] as u32) * 256 + (b[3] as u32)
}

/// Length of a Noise frame announced by its 4-byte big-endian header;
/// refused above the Noise message limit.
pub fn frame_len(header: &[u8; 4]) -> (r: Result<usize, &'static str>)
    ensures
        be32_value(header@) <= MAX_NOISE_FRAME ==> r == Ok::<usize, &'static str>(be32_value(header@) as usize),
        be32_value(header@) > MAX_NOISE_FRAME ==> (r matches Err(e) && e@ == "frame too large"@),
{
    let n = read_be32(header);
    if n as usize > MAX_NOISE_FRAME {
        Err("frame too large")
    } else {
        Ok(n as usize)
    }
}

/// Plaintext carried by the first frame of `left` remaining bytes.
pub open spec fn first_chunk(left: nat) -> nat {
    if left < CHUNK_PAYLOAD {
        left
    } else {
        CHUNK_PAYLOAD as nat
    }
}

/// `w` is a run of length-prefixed Noise frames carrying `left` plaintext
/// bytes in pieces of `CHUNK_PAYLOAD` (the last one shorter).
pub open spec fn framed(w: Seq<u8>, left: nat) -> bool
    decreases left,
{
    if left == 0 {
        w.len() == 0
    } else {
        let n = first_chunk(left);
        let f = n + NOISE_TAG_LEN;
        &&& w.len() >= 4 + f
        &&& w.take(4) == be32(f as u32)
        &&& framed(w.skip(4 + f), (left - n) as nat)
    }
}

/// An end of the secure channel: the Noise transport, the handshake hash and
/// the peer's static key, the message sequence numbers, and the message
/// being received.
pub struct SecureChannel {
    transport: snow::TransportState,
    handshake_hash: [u8; 32],
    remote_static: [u8; 32],
    seq: ChannelSeq,
    inbox: Vec<u8>,
    expect: usize,
    receiving: bool,
}

impl SecureChannel {
    pub closed spec fn spec_hh(&self) -> Seq<u8> {
        self.handshake_hash@
    }

    pub closed spec fn spec_remote_static(&self) -> Seq<u8> {
        self.remote_static@
    }

    pub closed spec fn sent(&self) -> u64 {
        self.seq.sent()
    }

    pub closed spec fn received(&self) -> u64 {
        self.seq.received()
    }

    /// The message being received: its announced length and the plaintext
    /// gathered so far.
    pub closed spec fn pending(&self) -> Option<(nat, Seq<u8>)> {
        if self.receiving {
            Some((self.expect as nat, self.inbox@))
        } else {
            None
        }
    }

    pub closed spec fn wf(&self) -> bool {
        self.receiving ==> self.inbox@.len() <= self.expect <= MAX_APP_MSG
    }

    pub fn handshake_hash(&self) -> (h: [u8; 32])
        ensures
            h@ == self.spec_hh(),
    {
        self.handshake_hash
    }

    pub fn remote_static(&self) -> (k: [u8; 32])
        ensures
            k@ == self.spec_remote_static(),
    {
        self.remote_static
    }

    /// The peer's Noise static key is the X25519 key its hello declared.
    pub fn remote_is(&self, x25519_pub_hex: &str) -> (b: bool)
        ensures
            b == (spec_hex_decode(x25519_pub_hex@) == Some(self.spec_remote_static())),
    {
        static_matches(&self.remote_static, x25519_pub_hex)
    }

    /// Wire form of one application message: the 4-byte big-endian length
    /// of `seq ‖ payload`, then that plaintext in Noise frames of
    /// `CHUNK_PAYLOAD` bytes each (the last one shorter), every frame
    /// preceded by its own 4-byte length.  Refused above `MAX_APP_MSG`.
    pub fn seal_message(&mut self, payload: &[u8]) -> (r: Result<Vec<u8>, &'static str>)
        requires
            old(self).sent() < u64::MAX,
        ensures
            final(self).spec_hh() == old(self).spec_hh(),
            final(self).spec_remote_static() == old(self).spec_remote_static(),
            final(self).received() == old(self).received(),
            final(self).pending() == old(self).pending(),
            old(self).wf() ==> final(self).wf(),
            payload@.len() > MAX_APP_MSG ==> (r matches Err(e) && e@ == "message too large"@),
            match r {
                Ok(w) => {
                    &&& payload@.len() <= MAX_APP_MSG
                    &&& final(self).sent() == old(self).sent() + 1
                    &&& w@.len() >= 4
                    &&& w@.take(4) == be32((8 + payload@.len()) as u32)
                    &&& framed(w@.skip(4), (8 + payload@.len()) as nat)
                },
                Err(e) => final(self).sent() == old(self).sent() && (e@ == "message too large"@ || e@
                    == "noise encrypt"@),
            },
    {
        let seq0 = self.seq.send_seq;
        let plain = self.seq.frame_outgoing(payload)?;
        let total = plain.len();
        let mut out: Vec<u8> = Vec::new();
        let head = be32_bytes(total as u32);
        out.extend_from_slice(&head);
        let mut off: usize = 0;
        proof {
            assert(out@.skip(4) =~= Seq::<u8>::empty());
        }
        while off < total
            invariant
                total == plain@.len(),
                total <= MAX_APP_MSG + 8,
                off <= total,
                off % CHUNK_PAYLOAD == 0 || off == total,
                total == 8 + payload@.len(),
                payload@.len() <= MAX_APP_MSG,
                out@.len() >= 4,
                out@.take(4) == be32(total as u32),
                framed(out@.skip(4), off as nat),
                self.seq.send_seq == seq0 + 1,
                self.seq.recv_seq == old(self).seq.recv_seq,
                self.handshake_hash == old(self).handshake_hash,
                self.remote_static == old(self).remote_static,
                self.inbox == old(self).inbox,
                self.expect == old(self).expect,
                self.receiving == old(self).receiving,
                seq0 == old(self).seq.send_seq,
            decreases total - off,
        {
            let n: usize = if total - off < CHUNK_PAYLOAD { total - off } else { CHUNK_PAYLOAD };
            let chunk = copy_range(plain.as_slice(), off, off + n);
            let c = match noise_encrypt(&mut self.transport, chunk.as_slice()) {
                Ok(c) => c,
                Err(_) => {
                    self.seq.send_seq = seq0;
                    return Err("noise encrypt");
                },
            };
            let ghost before = out@;
            let fl = be32_bytes((n + NOISE_TAG_LEN) as u32);
            out.extend_from_slice(&fl);
            out.extend_from_slice(c.as_slice());
            proof {
                lemma_framed_push(before.skip(4), off as nat, c@, n as nat);
                assert(out@ =~= before + (be32((n + NOISE_TAG_LEN) as u32) + c@));
                assert(out@.take(4) =~= before.take(4));
                assert(out@.skip(4) =~= before.skip(4) + (be32((n + NOISE_TAG_LEN) as u32) + c@));
                if n < CHUNK_PAYLOAD {
                    assert(off + n == total);
                }
            }
            off = off + n;
        }
        Ok(out)
    }

    /// Starts receiving a message announced by its 4-byte big-endian length;
    /// refused above `MAX_APP_MSG`.  `Ok(true)` when no frame follows (an
    /// empty message).
    pub fn begin_message(&mut self, header: &[u8; 4]) -> (r: Result<bool, &'static str>)
        ensures
            final(self).spec_hh() == old(self).spec_hh(),
            final(self).spec_remote_static() == old(self).spec_remote_static(),
            final(self).sent() == old(self).sent(),
            final(self).received() == old(self).received(),
            final(self).wf(),
            be32_value(header@) > MAX_APP_MSG ==> (r matches Err(e) && e@ == "message too large"@
                && final(self).pending() is None),
            be32_value(header@) <= MAX_APP_MSG ==> r == Ok::<bool, &'static str>(be32_value(header@) == 0)
                && final(self).pending() == Some((be32_value(header@), Seq::<u8>::empty())),
    {
        let total = read_be32(header);
        if total as usize > MAX_APP_MSG {
            self.receiving = false;
            return Err("message too large");
        }
        self.inbox = Vec::new();
        self.expect = total as usize;
        self.receiving = true;
        Ok(total == 0)
    }

    /// Opens one Noise frame of the message being received and appends its
    /// plaintext; `Ok(true)` once the announced length is reached.  Any
    /// failure abandons the message.
    pub fn open_frame(&mut self, frame: &[u8]) -> (r: Result<bool, &'static str>)
        requires
            old(self).wf(),
        ensures
            final(self).spec_hh() == old(self).spec_hh(),
            final(self).spec_remote_static() == old(self).spec_remote_static(),
            final(self).sent() == old(self).sent(),
            final(self).received() == old(self).received(),
            final(self).wf(),
            r is Err ==> final(self).pending() is None,
            old(self).pending() is None ==> (r matches Err(e) && e@ == "no message in progress"@),
            frame@.len() > MAX_NOISE_FRAME ==> r is Err,
            match (old(self).pending(), r) {
                (Some((t, b)), Ok(done)) => match final(self).pending() {
                    Some((t2, b2)) => {
                        &&& t2 == t
                        &&& b2.len() <= t
                        &&& b2.take(b.len() as int) == b
                        &&& b2.len() + NOISE_TAG_LEN == b.len() + frame@.len()
                        &&& (b2.len() > b.len() || b2.len() == t)
                        &&& done == (b2.len() == t)
                    },
                    None => false,
                },
                (Some(_), Err(e)) => e@ == "frame too large"@ || e@ == "noise decrypt"@ || e@
                    == "frame overflow"@ || e@ == "truncated message"@,
                _ => true,
            },
    {
        if !self.receiving {
            return Err("no message in progress");
        }
        if frame.len() > MAX_NOISE_FRAME {
            self.receiving = false;
            return Err("frame too large");
        }
        let out = match noise_decrypt(&mut self.transport, frame) {
            Ok(p) => p,
            Err(_) => {
                self.receiving = false;
                return Err("noise decrypt");
            },
        };
        if out.len() > self.expect - self.inbox.len() {
            self.receiving = false;
            return Err("frame overflow");
        }
        let ghost b = self.inbox@;
        self.inbox.extend_from_slice(out.as_slice());
        if out.len() == 0 && self.inbox.len() < self.expect {
            self.receiving = false;
            return Err("truncated message");
        }
        proof {
            assert(self.inbox@ == b + out@);
            assert(self.inbox@.take(b.len() as int) =~= b);
        }
        Ok(self.inbox.len() == self.expect)
    }

    /// The message just gathered: its sequence number must be the next one
    /// expected; gives the payload.
    pub fn finish_message(&mut self) -> (r: Result<Vec<u8>, &'static str>)
        requires
            old(self).received() < u64::MAX,
        ensures
            final(self).spec_hh() == old(self).spec_hh(),
            final(self).spec_remote_static() == old(self).spec_remote_static(),
            final(self).sent() == old(self).sent(),
            final(self).pending() is None,
            final(self).wf(),
            match old(self).pending() {
                Some((t, b)) => if b.len() == t {
                    &&& r is Ok <==> (b.len() >= 8 && b.take(8) == be64(old(self).received()))
                    &&& match r {
                        Ok(p) => p@ == b.skip(8) && final(self).received() == old(self).received() + 1,
                        Err(e) => final(self).received() == old(self).received() && e@ == (if b.len() < 8 {
                            "short message"@
                        } else {
                            "replay or out-of-order sequence"@
                        }),
                    }
                } else {
                    r matches Err(e) && e@ == "message incomplete"@ && final(self).received()
                        == old(self).received()
                },
                None => r matches Err(e) && e@ == "no message in progress"@ && final(self).received()
                    == old(self).received(),
            },
    {
        if !self.receiving {
            return Err("no message in progress");
        }
        self.receiving = false;
        if self.inbox.len() != self.expect {
            return Err("message incomplete");
        }
        let mut plain: Vec<u8> = Vec::new();
        std::mem::swap(&mut plain, &mut self.inbox);
        self.seq.accept_incoming(plain.as_slice())
    }

    /// Messages sent so far.
    pub fn sent_count(&self) -> (n: u64)
        ensures
            n == self.sent(),
    {
        self.seq.sent_count()
    }

    /// Messages received so far.
    pub fn received_count(&self) -> (n: u64)
        ensures
            n == self.received(),
    {
        self.seq.received_count()
    }
}


} // verus!
