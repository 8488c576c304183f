use vaultsync::crypto::random_key;
use vaultsync::vault::container::{
    assemble_head, assemble_head_with_nonce, chunk_cfg_for, chunk_nonce, open_chunk, open_meta,
    parse_head, seal_chunk, ChunkSealer, ContainerReader, FORMAT_VER, HEAD_LEN,
};
use vaultsync::vault::index::{content_tokens, open_index, seal_index, VaultIndex, ROOT_FOLDER};
use vaultsync::vault::keys::{fsk, fskey, index_key, search_key};
use vaultsync::vault::tokenize::{sample_is_text, tokenize, TEXT_PROBE_LEN};
use vaultsync::crypto::Sha256;
use vaultsync::strmap::StrMap;

fn key() -> [u8; 32] {
    random_key()
}

#[test]
fn vault_dependency_edges_work() {
    assert!(vaultsync::vault::self_check());
}

#[test]
fn tokenize_latin_and_cjk() {
    let t = tokenize("Hello World 密钥轮换 key-rotation");
    assert!(t.contains(&"hello".to_string()));
    assert!(t.contains(&"world".to_string()));
    assert!(t.contains(&"key".to_string()));
    assert!(t.contains(&"rotation".to_string()));
    assert!(t.contains(&"密钥".to_string()));
    assert!(t.contains(&"钥轮".to_string()));
}

#[test]
fn tokenize_exact_sequence() {
    let t = tokenize("a Bc 设 计x");
    assert_eq!(t, vec!["bc".to_string(), "设".to_string(), "计".to_string()]);
    assert_eq!(content_tokens("AB12"), vec!["ab12".to_string()]);
}

#[test]
fn tokenize_caps_token_count() {
    let text = "ab ".repeat(20000);
    assert_eq!(tokenize(&text).len(), 10000);
}

#[test]
fn chunk_cfg_adapts_to_size() {
    assert_eq!(chunk_cfg_for(512 * 1024).avg, 16 * 1024);
    assert_eq!(chunk_cfg_for(8 * 1024 * 1024).avg, 64 * 1024);
    assert!(chunk_cfg_for(8 * 1024 * 1024).max <= 256 * 1024);
}

#[test]
fn chunk_nonce_layout() {
    let n = chunk_nonce(0x01020304, 5);
    assert_eq!(n, [1, 2, 3, 4, 0, 0, 0, 0, 0, 0, 0, 5]);
}

#[test]
fn folder_tree_and_remove() {
    let mut ix = VaultIndex::new(key());
    let docs = ix.mkdir(ROOT_FOLDER, "文档").expect("mkdir");
    let work = ix.mkdir(docs, "2026").expect("mkdir");
    let id = ix.add_file(docs, "报告.txt", 10, &[]).expect("add");
    let id2 = ix.add_file(work, "plan.txt", 3, &[]).expect("add");
    assert_eq!(ix.file_folder(id).expect("folder"), docs);
    assert_eq!(ix.files_under(docs), vec![id, id2]);
    let removed = ix.remove_folder(docs).expect("rm");
    assert_eq!(removed, vec![id, id2]);
    assert!(ix.file_folder(id).is_err());
    assert_eq!(ix.remove_folder(work).unwrap_err(), "folder not found");
    assert_eq!(ix.remove_folder(ROOT_FOLDER).unwrap_err(), "cannot delete root");
    assert!(ix.is_empty());
}

#[test]
fn folder_tree_and_list() {
    let mut ix = VaultIndex::new(key());
    let docs = ix.mkdir(ROOT_FOLDER, "文档").expect("mkdir");
    let work = ix.mkdir(docs, "2026").expect("mkdir");
    let (dirs, _) = ix.list_children(ROOT_FOLDER).expect("list");
    assert!(dirs.contains(&docs));
    let id = ix.add_file(docs, "报告.txt", 10, &[]).expect("add");
    assert_eq!(ix.file_folder(id).expect("folder"), docs);
    let removed = ix.remove_folder(docs).expect("rm");
    assert_eq!(removed.len(), 1);
    assert!(ix.file_folder(id).is_err());
    let _ = work;
}

#[test]
fn listing_is_in_name_order() {
    let mut ix = VaultIndex::new(key());
    let d = ix.mkdir(ROOT_FOLDER, "d").unwrap();
    let b = ix.mkdir(d, "b").unwrap();
    let a = ix.mkdir(d, "a").unwrap();
    let z = ix.add_file(d, "z.txt", 1, &[]).unwrap();
    let a2 = ix.add_file(d, "A.txt", 1, &[]).unwrap();
    let a1 = ix.add_file(d, "A.txt", 1, &[]).unwrap();
    let m = ix.add_file(d, "密.txt", 1, &[]).unwrap();
    let _elsewhere = ix.add_file(ROOT_FOLDER, "0.txt", 1, &[]).unwrap();
    let (dirs, files) = ix.list_children(d).unwrap();
    assert_eq!(dirs, vec![a, b]);
    assert_eq!(files, vec![a2, a1, z, m]);
    assert!(a2 < a1);
    assert_eq!(ix.list_children(999).unwrap_err(), "folder not found");
    let (root_dirs, _) = ix.list_children(ROOT_FOLDER).unwrap();
    assert_eq!(root_dirs, vec![ROOT_FOLDER, d]);
}

#[test]
fn mkdir_and_rename_errors() {
    let mut ix = VaultIndex::new(key());
    assert_eq!(ix.mkdir(99, "a").unwrap_err(), "parent folder not found");
    assert_eq!(ix.mkdir(ROOT_FOLDER, "a/b").unwrap_err(), "invalid folder name");
    assert_eq!(ix.mkdir(ROOT_FOLDER, "a\\b").unwrap_err(), "invalid folder name");
    assert_eq!(ix.mkdir(ROOT_FOLDER, "").unwrap_err(), "invalid folder name");
    let f = ix.mkdir(ROOT_FOLDER, "a").unwrap();
    assert_eq!(ix.rename_folder(ROOT_FOLDER, "x").unwrap_err(), "cannot rename root");
    assert_eq!(ix.rename_folder(999, "x").unwrap_err(), "folder not found");
    assert_eq!(ix.rename_folder(f, "").unwrap_err(), "invalid folder name");
    assert!(ix.rename_folder(f, "b").is_ok());
    assert_eq!(ix.add_file(999, "x", 1, &[]).unwrap_err(), "folder not found");
    assert_eq!(ix.add_file(f, "", 1, &[]).unwrap_err(), "invalid file name");
}

#[test]
fn ids_come_from_one_counter() {
    let mut ix = VaultIndex::new(key());
    assert_eq!(ix.peek_next_id(), 1);
    let f = ix.mkdir(ROOT_FOLDER, "a").unwrap();
    let id = ix.alloc_id();
    assert_eq!((f, id), (1, 2));
    assert!(ix.add_file_with_id(id, f, "x.bin", 5, &[]).is_ok());
    assert_eq!(ix.add_file_with_id(id, f, "y.bin", 5, &[]).unwrap_err(), "duplicate file id");
    assert_eq!(ix.file_size(id).unwrap(), 5);
    assert_eq!(ix.file_name(id).unwrap(), "x.bin");
    assert_eq!(ix.peek_next_id(), 3);
}

#[test]
fn search_name_rename_and_tags() {
    let mut ix = VaultIndex::new(key());
    let id = ix.add_file(0, "设计文档.txt", 1, &tokenize("设计文档.txt")).expect("add1");
    let id2 = ix.add_file(0, "photo.dat", 1, &tokenize("photo.dat")).expect("add2");
    assert_eq!(ix.search("设计"), vec![id]);
    assert_eq!(ix.search("photo"), vec![id2]);
    assert!(ix.search("不存在的词").is_empty());
    ix.rename_file(id, "会议纪要.txt").expect("rename");
    assert!(ix.search("设计文档").is_empty());
    assert_eq!(ix.search("会议纪要"), vec![id]);
    ix.set_tags(id2, vec!["设计".into()]).expect("tags");
    assert_eq!(ix.search("设计"), vec![id2]);
    ix.set_tags(id2, vec![]).expect("tags");
    assert!(ix.search("设计").is_empty());
    let e = ix.remove_file(id).expect("remove");
    assert_eq!(e.name, "会议纪要.txt");
    assert!(ix.search("会议纪要").is_empty());
    assert_eq!(ix.remove_file(id).unwrap_err(), "file not found");
}

#[test]
fn share_consume_semantics() {
    let mut ix = VaultIndex::new(key());
    let fid = ix.add_file(0, "secret.txt", 1, &[]).expect("add");
    let th = ix.token_hash("tok-abc");
    let sh = ix.create_share(fid, th, 3600, 2).expect("share");
    assert_eq!(ix.consume_share(sh, "tok-abc").expect("open1"), fid);
    assert_eq!(ix.consume_share(sh, "tok-abc").expect("open2"), fid);
    assert_eq!(ix.consume_share(sh, "tok-abc").unwrap_err(), "share exhausted");
    assert_eq!(ix.consume_share(sh + 999, "tok-abc").unwrap_err(), "share not found");
    let fid2 = ix.add_file(0, "x", 1, &[]).expect("add");
    let th2 = ix.token_hash("tok-xyz");
    let sh2 = ix.create_share(fid2, th2, 3600, 1).expect("share");
    assert_eq!(ix.consume_share(sh2, "nope").unwrap_err(), "share token mismatch");
    assert_eq!(ix.create_share(777, String::new(), 1, 1).unwrap_err(), "file not found");
}

#[test]
fn share_expires() {
    let mut ix = VaultIndex::new(key());
    let fid = ix.add_file(0, "s.txt", 1, &[]).unwrap();
    let th = ix.token_hash("t");
    let sh = ix.create_share_at(fid, th, 10, 5, 1_000).unwrap();
    assert_eq!(ix.consume_share_at(sh, "t", 11_000).unwrap(), fid);
    assert_eq!(ix.consume_share_at(sh, "t", 11_001).unwrap_err(), "share expired");
}

#[test]
fn remote_file_and_clocks() {
    let mut ix = VaultIndex::new(key());
    let mut vc = StrMap::new();
    vc.insert("devA".to_string(), 3);
    ix.record_tombstone(40, StrMap::new());
    assert!(ix.tombstones().len() == 1);
    ix.add_remote_file(40, 0, "remote.txt", 9, 1234, "ab".repeat(32).as_str(), vc, &[])
        .expect("remote");
    assert_eq!(ix.tombstones().len(), 0);
    assert_eq!(ix.peek_next_id(), 41);
    assert_eq!(ix.file_modified(40).unwrap(), 1234);
    assert_eq!(ix.file_fskey(40).unwrap(), Some("ab".repeat(32)));
    ix.bump_vc(40, "devB").unwrap();
    let mut remote = StrMap::new();
    remote.insert("devA".to_string(), 7);
    ix.merge_vc(40, &remote).unwrap();
    let v = ix.file_vc(40).unwrap();
    assert_eq!(v.get(&"devA".to_string()), Some(&7));
    assert_eq!(v.get(&"devB".to_string()), Some(&1));
    assert_eq!(ix.bump_vc(41, "d").unwrap_err(), "file not found");
}

#[test]
fn encrypted_index_roundtrip_and_wrong_key() {
    let k = key();
    let json = br#"{"folders":{}}"#;
    let blob = seal_index(json, &k).expect("seal");
    assert_eq!(&blob[0..4], b"VSIX");
    assert_eq!(open_index(&blob, &k).expect("open"), json.to_vec());
    assert_eq!(open_index(&blob, &key()).unwrap_err(), "index decrypt failed (wrong key or tampered)");
    assert_eq!(open_index(&blob[..20], &k).unwrap_err(), "index truncated");
    let mut bad = blob.clone();
    bad[0] = b'X';
    assert_eq!(open_index(&bad, &k).unwrap_err(), "bad index magic");
    let mut newer = blob.clone();
    newer[4] = 3;
    assert_eq!(open_index(&newer, &k).unwrap_err(), "index format newer than engine");
}

#[test]
fn index_rebuilds_from_parts() {
    let sk = key();
    let mut ix = VaultIndex::new(sk);
    let f = ix.mkdir(ROOT_FOLDER, "a").unwrap();
    let id = ix.add_file(f, "note.txt", 3, &tokenize("note.txt")).unwrap();
    let mut folders = Vec::new();
    for i in 0..ix.folder_count() {
        let (k, v) = ix.folder_at(i);
        folders.push((*k, v.clone()));
    }
    let mut postings = Vec::new();
    for i in 0..ix.posting_count() {
        postings.push(ix.posting_at(i).clone());
    }
    let ix2 = VaultIndex::from_parts(sk, ix.peek_next_id(), folders, vec![], vec![], vec![], postings);
    assert_eq!(ix2.peek_next_id(), ix.peek_next_id());
    assert!(ix2.search("note").is_empty());
    assert_eq!(ix.search("note"), vec![id]);
}

#[test]
fn container_head_roundtrip_and_rejections() {
    let k = key();
    let json = br#"{"name":"hello.txt"}"#;
    let head = assemble_head(json, &k).expect("head");
    assert_eq!(head.len(), HEAD_LEN + json.len() + 16);
    let h = parse_head(&head).expect("parse");
    assert_eq!(h.format_ver, FORMAT_VER);
    assert_eq!(h.data_offset(), head.len() as u64);
    assert_eq!(open_meta(&h, &head[HEAD_LEN..], &k).expect("meta"), json.to_vec());
    assert!(open_meta(&h, &head[HEAD_LEN..], &key()).is_err());
    assert_eq!(parse_head(b"XXXXjunk").unwrap_err(), "container truncated");
    let mut bad = head.clone();
    bad[0] = b'X';
    assert_eq!(parse_head(&bad).unwrap_err(), "bad magic: not a VaultSync file container");
    let mut newer = head.clone();
    newer[4] = (FORMAT_VER + 1) as u8;
    assert_eq!(parse_head(&newer).unwrap_err(), "container format newer than engine; upgrade required");
    let fixed = assemble_head_with_nonce(json, &k, &[9u8; 12]).unwrap();
    assert_eq!(&fixed[14..26], &[9u8; 12]);
}

#[test]
fn chunks_seal_open_and_tamper() {
    let k = key();
    let ct = seal_chunk(&k, 42, 0, b"hello chunk").expect("seal");
    assert_eq!(ct.len(), 11 + 16);
    let h = vaultsync::crypto::hash_sha256(&ct);
    assert_eq!(open_chunk(&k, 42, 0, &h, &ct).expect("open"), b"hello chunk".to_vec());
    assert_eq!(open_chunk(&k, 42, 1, &h, &ct).unwrap_err(), "chunk tampered or key mismatch");
    assert_eq!(open_chunk(&k, 42, 0, "00", &ct).unwrap_err(), "chunk hash mismatch");
}

#[test]
fn sealer_and_reader_cover_a_file() {
    let fk = key();
    let fs = key();
    let mut s = ChunkSealer::new(fk, 7);
    let c0 = s.seal_next(b"first part ").unwrap();
    let c1 = s.seal_next(b"second").unwrap();
    let meta = s.finish("f.txt".to_string(), 17, 1, 2);
    assert_eq!(meta.chunks.len(), 2);
    assert_eq!(meta.chunks[1].offset, c0.len() as u64);
    assert_eq!(meta.file_sha256, vaultsync::crypto::hash_sha256(b"first part second"));
    let head = assemble_head(b"{}", &fs).unwrap();
    let h = parse_head(&head).unwrap();
    let rd = ContainerReader::new(meta, &h, "f.vse".to_string());
    let mut hasher = Sha256::new();
    let p0 = rd.open_chunk(0, &c0, &fk).unwrap();
    hasher.update(&p0);
    let p1 = rd.open_chunk(1, &c1, &fk).unwrap();
    hasher.update(&p1);
    assert!(rd.finish_export(hasher).is_ok());
    assert_eq!(rd.finish_export(Sha256::new()).unwrap_err(), "whole-file sha256 mismatch after reassembly");
}

#[test]
fn key_hierarchy_separates_purposes() {
    let mk = [3u8; 32];
    assert_ne!(index_key(&mk), search_key(&mk));
    assert_ne!(fsk(&mk, 1), fsk(&mk, 2));
    assert_eq!(fskey(&mk, 1, 5), fskey(&mk, 1, 5));
    assert_ne!(fskey(&mk, 1, 5), fskey(&mk, 2, 5));
    assert_eq!(
        fsk(&mk, 7),
        vaultsync::crypto::kdf::hkdf_sha256_derive(&mk, b"fsk/7")
    );
}

#[test]
fn binary_samples_are_not_tokenized() {
    assert!(sample_is_text(b""));
    assert!(sample_is_text("纯文本 plain".as_bytes()));
    let mut s = vec![b'a'; TEXT_PROBE_LEN + 10];
    s[TEXT_PROBE_LEN] = 0;
    assert!(sample_is_text(&s));
    s[TEXT_PROBE_LEN - 1] = 0;
    assert!(!sample_is_text(&s));
}
