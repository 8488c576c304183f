use vaultsync::p2p::base64::{base64_decode, base64_encode};
use vaultsync::p2p::channel::{
    frame_len, psk_from_code, static_matches, subkey, ChannelSeq, NoiseHandshake, Role, SecureChannel,
    MAX_APP_MSG,
};
use vaultsync::p2p::channel::handshake_keys;
use vaultsync::p2p::identity::Identity;
use vaultsync::p2p::peers::{PeerRec, PeerStore};
use vaultsync::p2p::proto::{delete_sign_body, destroy_sign_body, hello_sign_body, ManifestItem};
use vaultsync::p2p::sync::{
    blocks_needed, destroy_decision, pending_psk, plan_action, plan_sync, protect_copy_needed,
    remote_delete_outcome, unwrap_fskey, verify_hello, wrap_fskey, BlockTally, DestroyDecision,
    Invite, RemoteDelete, SyncAction,
};
use vaultsync::p2p::proto::ChunkRef;
use vaultsync::strmap::StrMap;
use vaultsync::vclock::dominates;

fn clock(pairs: &[(&str, u64)]) -> StrMap<u64> {
    let mut m = StrMap::new();
    for (k, v) in pairs {
        m.insert(k.to_string(), *v);
    }
    m
}

fn item(id: u64, sha: &str, vc: &[(&str, u64)], modified: u64, deleted: Option<u64>) -> ManifestItem {
    ManifestItem {
        id,
        folder: 0,
        name: format!("f{id}"),
        size: 1,
        modified_ms: modified,
        vc: clock(vc),
        deleted_ms: deleted,
        chunks: vec![],
        nonce_prefix: 0,
        file_sha: sha.to_string(),
    }
}

#[test]
fn dependency_edges_work() {
    assert!(vaultsync::p2p::self_check());
}

#[test]
fn base64_roundtrip() {
    for len in [0usize, 1, 2, 3, 4, 255, 70000] {
        let data: Vec<u8> = (0..len).map(|i| (i % 251) as u8).collect();
        let enc = base64_encode(&data);
        assert_eq!(base64_decode(&enc).unwrap(), data);
    }
}

#[test]
fn base64_known_values() {
    assert_eq!(base64_encode(b"foobar"), "Zm9vYmFy");
    assert_eq!(base64_encode(b"fo"), "Zm8=");
    assert_eq!(base64_decode("Zm8=").unwrap(), b"fo".to_vec());
    assert_eq!(base64_decode("Z"), None);
    assert_eq!(base64_decode("Zm!v"), None);
}

#[test]
fn vector_clock_dominance() {
    let a = clock(&[("A", 1)]);
    let b = clock(&[("B", 1)]);
    assert!(!dominates(&a, &b));
    let a2 = clock(&[("A", 2), ("B", 1)]);
    assert!(dominates(&a2, &b));
    assert!(!dominates(&b, &a2));
    assert!(!dominates(&a, &a));
}

#[test]
fn subkey_depends_on_info() {
    let hh = [1u8; 32];
    assert_ne!(subkey(&hh, "a"), subkey(&hh, "b"));
}

#[test]
fn psk_is_sha256_of_label() {
    let k = psk_from_code("invite-code");
    let h = vaultsync::crypto::hash_sha256(b"vsync-psk:invite-code");
    assert_eq!(vaultsync::crypto::hex_encode(&k), h);
}

#[test]
fn deterministic_keys_and_fingerprint() {
    let seed = [7u8; 32];
    let a = Identity::from_seed(&seed);
    let b = Identity::from_seed(&seed);
    assert_eq!(a.public_hex(), b.public_hex());
    assert_eq!(a.device_id(), b.device_id());
    assert_eq!(a.fingerprint().len(), 19);
    assert!(a.device_id().starts_with("vd-"));
    assert_eq!(Identity::device_id_of("zz"), None);
    assert_eq!(Identity::fingerprint_of("zz"), "");
}

#[test]
fn sign_verify_roundtrip_and_tamper() {
    let id = Identity::generate();
    let sig = id.sign(b"hello");
    assert!(Identity::verify(&id.public_hex(), b"hello", &sig));
    assert!(!Identity::verify(&id.public_hex(), b"hell0", &sig));
    let other = Identity::generate();
    assert!(!Identity::verify(&other.public_hex(), b"hello", &sig));
}

#[test]
fn x25519_derivation_is_deterministic() {
    let a = Identity::from_seed(&[9u8; 32]);
    let b = Identity::from_seed(&[9u8; 32]);
    assert_eq!(a.x25519_priv(), b.x25519_priv());
    assert_eq!(a.x25519_pub(), b.x25519_pub());
    let c = Identity::generate();
    assert_ne!(a.x25519_pub(), c.x25519_pub());
}

#[test]
fn sign_bodies_are_exact() {
    assert_eq!(delete_sign_body(42), b"vsync-del:42".to_vec());
    assert_eq!(destroy_sign_body("vd-1", 0, 7), b"vsync-destroy:vd-1:0:7".to_vec());
    let hh = [0u8; 32];
    let b = hello_sign_body(&hh, "ab");
    assert_eq!(b.len(), 34);
    assert_eq!(&b[32..], b"ab");
}

#[test]
fn channel_sequence_rejects_replay() {
    let mut tx = ChannelSeq::new();
    let mut rx = ChannelSeq::new();
    let m1 = tx.frame_outgoing(b"msg-1").unwrap();
    let m2 = tx.frame_outgoing(b"msg-2").unwrap();
    assert_eq!(rx.accept_incoming(&m1).unwrap(), b"msg-1".to_vec());
    assert_eq!(rx.accept_incoming(&m1).unwrap_err(), "replay or out-of-order sequence");
    assert_eq!(rx.accept_incoming(&m2).unwrap(), b"msg-2".to_vec());
    assert_eq!(rx.accept_incoming(b"short").unwrap_err(), "short message");
    let big = vec![0u8; 4 * 1024 * 1024 + 1];
    assert_eq!(tx.frame_outgoing(&big).unwrap_err(), "message too large");
}

#[test]
fn static_key_check() {
    let k = [0xabu8; 32];
    assert!(static_matches(&k, &"ab".repeat(32)));
    assert!(!static_matches(&k, &"ac".repeat(32)));
    assert!(!static_matches(&k, "zz"));
}

#[test]
fn hello_verification() {
    let id = Identity::from_seed(&[4u8; 32]);
    let hh = [8u8; 32];
    let x = vaultsync::crypto::hex_encode(&id.x25519_pub());
    let sig = id.sign(&hello_sign_body(&hh, &x));
    let rs = id.x25519_pub();
    assert!(verify_hello(&hh, &rs, &id.device_id(), &id.public_hex(), &x, &sig).is_ok());
    assert_eq!(
        verify_hello(&hh, &rs, "vd-other", &id.public_hex(), &x, &sig).unwrap_err(),
        "device id mismatch"
    );
    assert_eq!(
        verify_hello(&hh, &[0u8; 32], &id.device_id(), &id.public_hex(), &x, &sig).unwrap_err(),
        "channel key does not match claimed identity"
    );
    assert_eq!(
        verify_hello(&[9u8; 32], &rs, &id.device_id(), &id.public_hex(), &x, &sig).unwrap_err(),
        "hello signature invalid"
    );
}

#[test]
fn planner_decision_table() {
    let a = item(1, "h1", &[("A", 2)], 10, None);
    let b = item(1, "h2", &[("A", 1)], 5, None);
    assert_eq!(plan_action(Some(&a), Some(&b)), SyncAction::Push { overwrite: false });
    assert_eq!(plan_action(Some(&b), Some(&a)), SyncAction::Pull { overwrite: false });
    let c = item(1, "h3", &[("B", 1)], 20, None);
    assert_eq!(plan_action(Some(&a), Some(&c)), SyncAction::Pull { overwrite: true });
    assert_eq!(plan_action(Some(&c), Some(&a)), SyncAction::Push { overwrite: true });
    let same = item(1, "h1", &[("B", 4)], 1, None);
    assert_eq!(plan_action(Some(&a), Some(&same)), SyncAction::MergeVc);
    let tomb = item(1, "", &[("A", 3)], 0, Some(9));
    assert_eq!(plan_action(Some(&a), Some(&tomb)), SyncAction::DeleteLocal);
    let tomb_c = item(1, "", &[("B", 3)], 0, Some(9));
    assert_eq!(plan_action(Some(&a), Some(&tomb_c)), SyncAction::DeleteLocalProtected);
    assert_eq!(plan_action(Some(&tomb_c), Some(&a)), SyncAction::SendDeleteOrder);
    assert_eq!(plan_action(Some(&a), None), SyncAction::Push { overwrite: false });
    assert_eq!(plan_action(None, Some(&a)), SyncAction::Pull { overwrite: false });
    assert_eq!(plan_action(None, Some(&tomb)), SyncAction::Skip);
}

#[test]
fn plan_covers_both_manifests_in_order() {
    let local = vec![item(5, "x", &[("A", 1)], 1, None), item(2, "y", &[("A", 1)], 1, None)];
    let peer = vec![item(3, "z", &[("B", 1)], 1, None), item(5, "x", &[("A", 1)], 1, None)];
    let plan = plan_sync(&local, &peer);
    let ids: Vec<u64> = plan.iter().map(|p| p.0).collect();
    assert_eq!(ids, vec![2, 3, 5]);
    assert_eq!(plan[0].1, SyncAction::Push { overwrite: false });
    assert_eq!(plan[1].1, SyncAction::Pull { overwrite: false });
    assert_eq!(plan[2].1, SyncAction::Skip);
}

#[test]
fn delete_protection_window() {
    let day = 86_400_000u64;
    assert!(protect_copy_needed(1_000, 1_000 + day - 1));
    assert!(!protect_copy_needed(1_000, 1_000 + day));
    assert_eq!(remote_delete_outcome(false, 0, 0), RemoteDelete::AlreadyAbsent);
    assert_eq!(remote_delete_outcome(true, 5, 10), RemoteDelete::KeptConflictCopy);
    assert_eq!(remote_delete_outcome(true, 0, 2 * day), RemoteDelete::Deleted);
}

#[test]
fn destroy_decisions() {
    assert_eq!(destroy_decision(false, "a", "a", 0), DestroyDecision::BadSignature);
    assert_eq!(destroy_decision(true, "a", "b", 0), DestroyDecision::TargetMismatch);
    assert_eq!(destroy_decision(true, "a", "a", 0), DestroyDecision::WipeNow);
    assert_eq!(destroy_decision(true, "a", "a", 5), DestroyDecision::Arm { delay_ms: 5 });
}

#[test]
fn blocks_needed_and_tally() {
    let chunks = vec![
        ChunkRef { hash: "h0".into(), offset: 0, len: 1 },
        ChunkRef { hash: "h1".into(), offset: 1, len: 1 },
        ChunkRef { hash: "h2".into(), offset: 2, len: 1 },
    ];
    let need = blocks_needed(&chunks, &vec!["h1".to_string()]);
    assert_eq!(need, vec![0, 2]);
    let mut t = BlockTally::new(need);
    assert!(t.accept(0).is_ok());
    assert_eq!(t.accept(0).unwrap_err(), "unexpected or duplicate block");
    assert_eq!(t.accept(1).unwrap_err(), "unexpected or duplicate block");
    assert_eq!(t.complete(1, 3).unwrap_err(), "missing blocks");
    assert!(t.accept(2).is_ok());
    assert!(t.complete(1, 3).is_ok());
}

#[test]
fn fskey_wrap_roundtrip() {
    let hh = [2u8; 32];
    let k = [7u8; 32];
    let w = wrap_fskey(&hh, &k).unwrap();
    let hexw = vaultsync::crypto::hex_encode(&w);
    assert_eq!(unwrap_fskey(&hh, &hexw).unwrap(), k);
    assert_eq!(unwrap_fskey(&[3u8; 32], &hexw).unwrap_err(), "fskey unwrap failed");
    assert_eq!(unwrap_fskey(&hh, "zz").unwrap_err(), "bad fskey wrap");
}

#[test]
fn invites_expire() {
    let inv = Some(Invite { psk: [1u8; 32], expires_ms: 100 });
    assert_eq!(pending_psk(&inv, 99), Some([1u8; 32]));
    assert_eq!(pending_psk(&inv, 100), None);
    assert_eq!(pending_psk(&None, 0), None);
}

#[test]
fn roundtrip_and_wrong_key() {
    let mk = [1u8; 32];
    let mut st = PeerStore::new(&mk);
    st.upsert(
        "vd-abc",
        PeerRec { name: "Laptop".into(), pub_hex: "aa".repeat(32), paired_ms: 1, counter: 0 },
    );
    assert_eq!(st.get("vd-abc").unwrap().name, "Laptop");
    assert!(st.by_pub(&"aa".repeat(32)).is_some());
    assert!(st.by_pub(&"bb".repeat(32)).is_none());
    assert_eq!(st.list().len(), 1);
    let blob = st.seal(b"{\"peers\":{}}").unwrap();
    assert_eq!(st.open(&blob).unwrap(), b"{\"peers\":{}}".to_vec());
    let other = PeerStore::new(&[2u8; 32]);
    assert_eq!(other.open(&blob).unwrap_err(), "peer store decrypt failed");
    assert_eq!(other.open(&blob[..10]).unwrap_err(), "peer store truncated");
}

fn handshake_pair(psk: Option<&[u8; 32]>) -> (SecureChannel, SecureChannel) {
    let a_id = Identity::generate();
    let b_id = Identity::generate();
    let mut a = NoiseHandshake::start(Role::Initiator, &a_id, psk).expect("a");
    let mut b = NoiseHandshake::start(Role::Responder, &b_id, psk).expect("b");
    while !a.is_done() || !b.is_done() {
        if a.writes_next() && !a.is_done() {
            let m = a.write_next().expect("a write");
            b.read_next(&m).expect("b read");
        } else {
            let m = b.write_next().expect("b write");
            a.read_next(&m).expect("a read");
        }
    }
    let ca = a.finish().expect("a finish");
    let cb = b.finish().expect("b finish");
    assert_eq!(ca.handshake_hash(), cb.handshake_hash());
    assert_eq!(ca.remote_static(), b_id.x25519_pub());
    assert_eq!(cb.remote_static(), a_id.x25519_pub());
    assert!(ca.remote_is(&vaultsync::crypto::hex_encode(&b_id.x25519_pub())));
    (ca, cb)
}

fn deliver(to: &mut SecureChannel, wire: &[u8]) -> Result<Vec<u8>, &'static str> {
    let head: [u8; 4] = wire[0..4].try_into().unwrap();
    let mut pos = 4;
    let mut done = to.begin_message(&head)?;
    while !done {
        let lh: [u8; 4] = wire[pos..pos + 4].try_into().unwrap();
        let n = frame_len(&lh)?;
        pos += 4;
        done = to.open_frame(&wire[pos..pos + n])?;
        pos += n;
    }
    assert_eq!(pos, wire.len());
    to.finish_message()
}

#[test]
fn noise_channel_carries_large_messages_in_order() {
    let (mut a, mut b) = handshake_pair(None);
    let big: Vec<u8> = (0..150_000u32).map(|i| (i % 253) as u8).collect();
    let w1 = a.seal_message(&big).expect("seal");
    // 8 + 150000 bytes in frames of 60000, 60000, 30008 (+16 tag each).
    assert_eq!(w1.len(), 4 + (4 + 60016) + (4 + 60016) + (4 + 30024));
    assert_eq!(&w1[0..4], &(150_008u32).to_be_bytes());
    assert_eq!(deliver(&mut b, &w1).expect("deliver"), big);
    let w2 = b.seal_message(b"pong").expect("seal");
    assert_eq!(deliver(&mut a, &w2).expect("deliver"), b"pong".to_vec());
    assert_eq!(a.sent_count(), 1);
    assert_eq!(a.received_count(), 1);
    // A replayed wire message no longer authenticates.
    assert_eq!(deliver(&mut b, &w1).unwrap_err(), "noise decrypt");
    assert_eq!(a.seal_message(&vec![0u8; MAX_APP_MSG + 1]).unwrap_err(), "message too large");
}

#[test]
fn psk_mismatch_fails_responder_handshake() {
    // psk3 enters with the third message: with different codes the responder
    // cannot read it.
    let a_id = Identity::generate();
    let b_id = Identity::generate();
    let good = psk_from_code("same-code");
    let bad = psk_from_code("other-code");
    let mut a = NoiseHandshake::start(Role::Initiator, &a_id, Some(&good)).unwrap();
    let mut b = NoiseHandshake::start(Role::Responder, &b_id, Some(&bad)).unwrap();
    let m1 = a.write_next().unwrap();
    b.read_next(&m1).unwrap();
    let m2 = b.write_next().unwrap();
    a.read_next(&m2).unwrap();
    let m3 = a.write_next().unwrap();
    assert_eq!(b.read_next(&m3).unwrap_err(), "hs3");
}

#[test]
fn channel_handshake_and_replay_protection() {
    let psk = psk_from_code("invite-code");
    let (mut cha, mut chb) = handshake_pair(Some(&psk));
    let w1 = cha.seal_message(b"msg-1").unwrap();
    assert_eq!(deliver(&mut chb, &w1).unwrap(), b"msg-1".to_vec());
    let w2 = cha.seal_message(b"msg-2").unwrap();
    assert_eq!(deliver(&mut chb, &w2).unwrap(), b"msg-2".to_vec());
    // Messages above 64 KiB are split into frames.
    let big: Vec<u8> = (0..200_000usize).map(|i| (i % 251) as u8).collect();
    let w3 = cha.seal_message(&big).unwrap();
    assert_eq!(deliver(&mut chb, &w3).unwrap(), big);
    // Replaying an earlier message is refused.
    assert!(deliver(&mut chb, &w2).is_err());
}

#[test]
fn frame_and_message_limits() {
    assert_eq!(frame_len(&[0, 0, 0xff, 0xff]), Ok(65535));
    assert_eq!(frame_len(&[0, 1, 0, 0]).unwrap_err(), "frame too large");
    let (_, mut b) = handshake_pair(None);
    assert_eq!(b.begin_message(&[0, 0x40, 0, 1]).unwrap_err(), "message too large");
    assert_eq!(b.open_frame(&[0u8; 20]).unwrap_err(), "no message in progress");
    assert_eq!(b.begin_message(&[0, 0, 0, 0]), Ok(true));
    assert_eq!(b.finish_message().unwrap_err(), "short message");
}

#[test]
fn peers_listed_by_device_id() {
    let rec = |name: &str, pk: &str| PeerRec { name: name.into(), pub_hex: pk.into(), paired_ms: 1, counter: 0 };
    let mut st = PeerStore::new(&[7u8; 32]);
    st.upsert("b-dev", rec("B", "pk1"));
    st.upsert("a-dev", rec("A", "pk1"));
    st.upsert("c-dev", rec("C", "pk2"));
    let ids: Vec<String> = st.list().into_iter().map(|(id, _)| id).collect();
    assert_eq!(ids, vec!["a-dev".to_string(), "b-dev".to_string(), "c-dev".to_string()]);
    assert_eq!(st.by_pub("pk1").unwrap().0, "a-dev");
    assert_eq!(st.by_pub("pk2").unwrap().1.name, "C");
    assert!(st.by_pub("pk3").is_none());
}

#[test]
fn handshake_keys_checks_lengths() {
    let rs = vec![7u8; 32];
    let hh = vec![9u8; 32];
    assert_eq!(handshake_keys(Some(rs.clone()), hh.clone()), Ok(([7u8; 32], [9u8; 32])));
    assert_eq!(handshake_keys(None, hh.clone()), Err("no remote static"));
    assert_eq!(handshake_keys(Some(vec![7u8; 31]), hh), Err("no remote static"));
    assert_eq!(handshake_keys(Some(rs), vec![9u8; 16]), Err("hh len"));
}
