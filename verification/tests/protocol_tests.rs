use vaultsync::crypto::{hash_sha256, hex_decode};
use vaultsync::p2p::base64::base64_encode;
use vaultsync::p2p::channel::{NoiseHandshake, Role};
use vaultsync::p2p::conn::{
    conn_start, conn_step, sync_continues, sync_refusal, sync_step, ConnAction, ConnEvent, ConnState, SyncReply,
    SyncEvent,
};
use vaultsync::p2p::identity::Identity;
use vaultsync::p2p::peers::{PeerRec, PeerStore};
use vaultsync::p2p::proto::{delete_sign_body, ChunkRef, ManifestItem};
use vaultsync::p2p::receive::begin_push;
use vaultsync::p2p::sync::DestroyDecision;
use vaultsync::strmap::StrMap;
use vaultsync::vault::index::{VaultIndex, ROOT_FOLDER};
use vaultsync::vault::tokenize::{tokenize, MAX_TOKENS_PER_FILE};

fn pushed(chunks: &[&[u8]]) -> ManifestItem {
    let mut off = 0u64;
    let mut refs = Vec::new();
    for c in chunks {
        refs.push(ChunkRef { hash: hash_sha256(c), offset: off, len: c.len() as u32 });
        off += c.len() as u64;
    }
    ManifestItem {
        id: 9,
        folder: 0,
        name: "doc".into(),
        size: off,
        modified_ms: 1,
        vc: StrMap::new(),
        deleted_ms: None,
        chunks: refs,
        nonce_prefix: 0,
        file_sha: String::new(),
    }
}

#[test]
fn hex_decode_refuses_sign_characters() {
    assert_eq!(hex_decode("+f"), None);
    assert_eq!(hex_decode("0+"), None);
    assert_eq!(hex_decode("0F"), Some(vec![15u8]));
}

#[test]
fn tokenize_never_exceeds_cap() {
    let text: String = std::iter::repeat('密').take(20001).collect();
    let t = tokenize(&text);
    assert_eq!(t.len(), MAX_TOKENS_PER_FILE);
    assert_eq!(t[0], "密密");
    let mut mixed: String = std::iter::repeat('钥').take(15000).collect();
    mixed.push_str(" tail");
    assert_eq!(tokenize(&mixed).len(), MAX_TOKENS_PER_FILE);
}

#[test]
fn add_file_and_share_errors_by_clock_wrapper() {
    let mut ix = VaultIndex::new([3u8; 32]);
    assert_eq!(ix.add_file(77, "a.txt", 1, &[]), Err("folder not found"));
    assert_eq!(ix.add_file(ROOT_FOLDER, "", 1, &[]), Err("invalid file name"));
    let id = ix.add_file(ROOT_FOLDER, "a.txt", 1, &tokenize("a.txt")).expect("add");
    assert_eq!(ix.file_fskey(id), Ok(None));
    assert_eq!(ix.create_share(999, "h".into(), 60, 1), Err("file not found"));
    let sid = ix.create_share(id, ix.token_hash("tok"), 60, 1).expect("share");
    assert_eq!(ix.consume_share(sid, "wrong"), Err("share token mismatch"));
    assert_eq!(ix.consume_share(sid, "tok"), Ok(id));
    assert_eq!(ix.consume_share(sid, "tok"), Err("share exhausted"));
}

#[test]
fn push_receive_incremental_and_resumed() {
    let a: &[u8] = b"alpha-chunk";
    let b: &[u8] = b"beta-chunk!";
    let c: &[u8] = b"gamma";
    let item = pushed(&[a, b, c]);
    // The receiver already holds chunk `b` of this file: only 0 and 2 travel.
    let local = vec![hash_sha256(b)];
    assert!(begin_push(&item, &local, true, false).is_err());
    let (mut rx, idxs) = begin_push(&item, &local, true, true).expect("begin");
    assert_eq!(idxs, vec![0, 2]);
    assert_eq!(rx.accept_local(1, b"tampered"), Err("local chunk hash mismatch"));
    assert_eq!(rx.accept_local(0, a), Err("chunk not copied locally"));
    assert_eq!(rx.accept_local(1, b), Ok(11));
    assert_eq!(rx.finish(), Err("missing blocks"));
    assert_eq!(rx.accept_block(1, &base64_encode(b)), Err("unexpected or duplicate block"));
    assert_eq!(rx.accept_block(0, "!!"), Err("bad block b64"));
    assert_eq!(rx.accept_block(0, &base64_encode(c)), Err("block hash mismatch"));
    assert_eq!(rx.accept_block(0, &base64_encode(a)), Ok((0, a.to_vec())));
    assert_eq!(rx.accept_block(0, &base64_encode(a)), Err("unexpected or duplicate block"));
    assert_eq!(rx.accept_block(2, &base64_encode(c)), Ok((22, c.to_vec())));
    assert_eq!(rx.finish(), Ok(true));
    // A new file: everything is asked for and nothing replaced.
    let (rx2, idxs2) = begin_push(&item, &local, false, false).expect("begin new");
    assert_eq!(idxs2, vec![0, 1, 2]);
    assert_eq!(rx2.finish(), Err("missing blocks"));
}

#[test]
fn responder_connection_admission_and_dispatch() {
    let st = conn_start(false);
    assert_eq!(conn_step(st, ConnEvent::Hello { registered: false }), (ConnState::Closed, ConnAction::RejectUnregistered));
    assert_eq!(conn_step(st, ConnEvent::SyncReq), (ConnState::Closed, ConnAction::Close));
    let (serving, act) = conn_step(st, ConnEvent::Hello { registered: true });
    assert_eq!((serving, act), (ConnState::Serving, ConnAction::Proceed));
    assert_eq!(conn_step(conn_start(true), ConnEvent::Hello { registered: false }).1, ConnAction::RegisterPeer);
    assert_eq!(conn_step(serving, ConnEvent::DeleteOrder { sig_ok: false }), (ConnState::Closed, ConnAction::Close));
    assert_eq!(conn_step(serving, ConnEvent::DeleteOrder { sig_ok: true }).1, ConnAction::ApplyDelete);
    assert_eq!(
        conn_step(serving, ConnEvent::Destroy { decision: DestroyDecision::Arm { delay_ms: 5 } }),
        (ConnState::Serving, ConnAction::ArmDestroy { delay_ms: 5 })
    );
    assert_eq!(conn_step(serving, ConnEvent::Destroy { decision: DestroyDecision::WipeNow }).1, ConnAction::WipeNow);
    assert_eq!(conn_step(ConnState::Closed, ConnEvent::PairReq), (ConnState::Closed, ConnAction::Close));
}

#[test]
fn delete_order_gate_over_peer_table() {
    let signer = Identity::generate();
    let stranger = Identity::generate();
    let mut st = PeerStore::new(&[4u8; 32]);
    st.upsert("d1", PeerRec { name: "P".into(), pub_hex: signer.public_hex(), paired_ms: 1, counter: 0 });
    let body = delete_sign_body(42);
    assert!(st.signed_by_registered(&body, &signer.sign(&body)));
    assert!(!st.signed_by_registered(&body, &stranger.sign(&body)));
}

#[test]
fn handshake_records_pairing_psk() {
    let id = Identity::generate();
    let psk = [5u8; 32];
    assert!(NoiseHandshake::start(Role::Responder, &id, Some(&psk)).expect("psk").uses_psk());
    assert!(!NoiseHandshake::start(Role::Initiator, &id, None).expect("plain").uses_psk());
}

#[test]
fn identity_sealed_under_master_key_reads_back() {
    let id = Identity::generate();
    let mk = [8u8; 32];
    let blob = id.seal_seed(&mk);
    assert_eq!(blob.len(), 12 + 32 + 16);
    let back = Identity::open_sealed(&mk, &blob).expect("open");
    assert_eq!(back.seed(), id.seed());
    assert_eq!(Identity::open_sealed(&[9u8; 32], &blob).err(), Some("identity decrypt failed"));
}

#[test]
fn responder_sync_phase_decisions() {
    assert_eq!(sync_step(SyncEvent::SendFileBegin), SyncReply::ReceivePush);
    assert_eq!(sync_step(SyncEvent::DeleteOrder { signed: true }), SyncReply::ApplyDelete);
    let bad = sync_step(SyncEvent::DeleteOrder { signed: false });
    assert_eq!(sync_refusal(bad), Some("delete order signature invalid"));
    assert!(!sync_continues(bad));
    assert_eq!(sync_refusal(sync_step(SyncEvent::Unexpected)), Some("unexpected message in sync phase"));
    assert_eq!(sync_step(SyncEvent::SyncDone), SyncReply::Done);
    assert!(sync_continues(sync_step(SyncEvent::VcMerge)));
}

#[test]
fn folder_tree_queries_on_a_whole_tree() {
    let mut ix = VaultIndex::new([1u8; 32]);
    let d = ix.mkdir(ROOT_FOLDER, "docs").expect("mkdir");
    let (dirs, files) = ix.list_children(d).expect("children");
    assert!(dirs.is_empty() && files.is_empty());
    assert!(ix.is_empty());
    let f1 = ix.add_file(d, "a.txt", 1, &[]).expect("a");
    let f2 = ix.add_file(ROOT_FOLDER, "b.txt", 1, &[]).expect("b");
    assert!(!ix.is_empty());
    assert_eq!(ix.files_under(ROOT_FOLDER), vec![f1, f2]);
    assert_eq!(ix.files_under(d), vec![f1]);
    assert_eq!(ix.files_under(999), Vec::<u64>::new());
}

#[test]
fn ascii_text_is_lowercased_before_tokenizing() {
    assert_eq!(tokenize("HELLO World-42"), vec!["hello".to_string(), "world".to_string(), "42".to_string()]);
}
