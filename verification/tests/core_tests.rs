use vaultsync::vaultcore::hostapi::{status_code, tags_from_csv, ERR_COOLDOWN, ERR_INTERNAL, ERR_WRONG_PASSWORD};
use vaultsync::vaultcore::service::CoreError;
use vaultsync::vaultcore::platform_store::{open_os_store, SecureStore};
use vaultsync::crypto::kdf::Argon2Params;
use vaultsync::crypto::{AES_GCM_NONCE_LEN, KEY_LEN};
use vaultsync::vaultcore::keystore::{Keystore, FORMAT_VER};
use vaultsync::vaultcore::session::{
    guard_check, guard_fail, guard_reset, GuardTable, GuardVerdict, COOLDOWN_MAX_SECS,
};

fn sample() -> Keystore {
    Keystore {
        path: "/tmp/x.vsvb".to_string(),
        argon: Argon2Params::for_test(),
        salt: [1; 16],
        verifier: [2; 32],
        mk_wrap_pwd: vec![3; AES_GCM_NONCE_LEN + KEY_LEN + 16],
        mk_wrap_bio: Some(vec![4; AES_GCM_NONCE_LEN + KEY_LEN + 16]),
    }
}

#[test]
fn self_check_is_true() {
    assert!(vaultsync::audit::self_check());
}

#[test]
fn all_crates_linked() {
    assert!(vaultsync::vaultcore::self_check());
}

#[test]
fn lib_dependency_edges_work() {
    assert!(vaultsync::stego::self_check());
}

#[test]
fn roundtrip_preserves_all_fields() {
    let ks = sample();
    let ks2 = match Keystore::from_bytes("/tmp/x.vsvb", &ks.to_bytes()) {
        Ok(k) => k,
        Err(e) => panic!("parse failed: {e}"),
    };
    assert!(ks2.bio_bound());
    assert_eq!(ks2.salt, ks.salt);
    assert_eq!(ks2.verifier, ks.verifier);
    assert_eq!(ks2.mk_wrap_pwd, ks.mk_wrap_pwd);
    assert_eq!(ks2.mk_wrap_bio, ks.mk_wrap_bio);
    assert_eq!(ks2.argon, ks.argon);
}

#[test]
fn rejects_higher_format_version() {
    let mut b = sample().to_bytes();
    b[4] = u16::to_le_bytes(FORMAT_VER + 1)[0];
    assert!(Keystore::from_bytes("/tmp/x", &b).is_err());
}

#[test]
fn rejects_bad_magic_and_truncated() {
    assert!(Keystore::from_bytes("/tmp/x", b"XXXX....").is_err());
    assert!(Keystore::from_bytes("/tmp/x", b"VSVB").is_err());
}

#[test]
fn keystore_errors_name_the_cause() {
    assert_eq!(
        Keystore::from_bytes("/tmp/x", b"XXXX....").unwrap_err(),
        "bad magic: not a VaultSync vault"
    );
    assert_eq!(Keystore::from_bytes("/tmp/x", b"VSVB").unwrap_err(), "truncated keystore header");
    let mut b = sample().to_bytes();
    b[4] = u16::to_le_bytes(FORMAT_VER + 1)[0];
    assert_eq!(
        Keystore::from_bytes("/tmp/x", &b).unwrap_err(),
        "vault format is newer than this engine; upgrade required"
    );
}

#[test]
fn keystore_without_bio_roundtrips() {
    let mut ks = sample();
    ks.mk_wrap_bio = None;
    let b = ks.to_bytes();
    let ks2 = Keystore::from_bytes("/tmp/y.vsvb", &b).unwrap();
    assert!(!ks2.bio_bound());
    assert_eq!(ks2.mk_wrap_bio, None);
    assert_eq!(ks2.path, "/tmp/y.vsvb");
}

#[test]
fn cooldown_starts_at_third_failure_and_grows() {
    let mut g = GuardTable::new();
    let p = "Z:/guard-t1/a.vsvb";
    let now = 1_000_000u64;
    assert!(matches!(guard_check(&g, p, now), GuardVerdict::Allowed));
    assert_eq!(guard_fail(&mut g, p, now), 0);
    assert_eq!(guard_fail(&mut g, p, now), 0);
    assert_eq!(guard_fail(&mut g, p, now), 30_000);
    assert!(matches!(guard_check(&g, p, now), GuardVerdict::Cooldown(_)));
    assert_eq!(guard_fail(&mut g, p, now), 60_000);
    guard_reset(&mut g, p);
    assert!(matches!(guard_check(&g, p, now), GuardVerdict::Allowed));
}

#[test]
fn cooldown_shared_across_siblings_same_parent() {
    let mut g = GuardTable::new();
    let a = "Z:/guard-t2/primary.vsvb";
    let b = "Z:/guard-t2/disguise.vsvb";
    let now = 5_000u64;
    guard_fail(&mut g, a, now);
    guard_fail(&mut g, b, now);
    guard_fail(&mut g, a, now);
    assert!(matches!(guard_check(&g, b, now), GuardVerdict::Cooldown(_)));
    guard_reset(&mut g, a);
}

#[test]
fn cooldown_caps_at_max() {
    let mut g = GuardTable::new();
    let p = "Z:/guard-t3/a.vsvb";
    for _ in 0..20 {
        guard_fail(&mut g, p, 0);
    }
    assert_eq!(guard_fail(&mut g, p, 0), COOLDOWN_MAX_SECS * 1000);
}

#[test]
fn cooldown_expires_with_time() {
    let mut g = GuardTable::new();
    let p = "/vaults/a.vsvb";
    guard_fail(&mut g, p, 100);
    guard_fail(&mut g, p, 100);
    assert_eq!(guard_fail(&mut g, p, 100), 30_000);
    match guard_check(&g, p, 10_100) {
        GuardVerdict::Cooldown(ms) => assert_eq!(ms, 20_000),
        _ => panic!("expected cooldown"),
    }
    assert!(matches!(guard_check(&g, p, 30_100), GuardVerdict::Allowed));
    // another domain is unaffected
    assert!(matches!(guard_check(&g, "/other/a.vsvb", 10_100), GuardVerdict::Allowed));
}

#[test]
fn os_store_treats_absent_values_as_none() {
    if let Some(store) = open_os_store() {
        assert_eq!(store.get("vaultsync-test-absent-account"), Ok(None));
        assert_eq!(store.delete("vaultsync-test-absent-account"), Ok(()));
    }
}

#[test]
fn host_status_codes_and_tag_lists() {
    assert_eq!(status_code(&CoreError::WrongPassword(30_000)), ERR_WRONG_PASSWORD);
    assert_eq!(status_code(&CoreError::Cooldown(1)), ERR_COOLDOWN);
    assert_eq!(status_code(&CoreError::Internal("x")), ERR_INTERNAL);
    assert_eq!(status_code(&CoreError::BioNotBound), 5);
    assert!(tags_from_csv("").is_empty());
    assert_eq!(tags_from_csv("work,密钥"), vec!["work".to_string(), "密钥".to_string()]);
    assert_eq!(tags_from_csv("a,,b,"), vec!["a".to_string(), String::new(), "b".to_string(), String::new()]);
}
