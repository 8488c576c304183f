use std::collections::HashMap;
use std::sync::Mutex;

use vaultsync::crypto::kdf::Argon2Params;
use vaultsync::crypto::{argon2id_derive, random_key, random_salt, KEY_LEN};
use vaultsync::vaultcore::keystore::Keystore;
use vaultsync::vaultcore::platform_store::kek_bio;
use vaultsync::vaultcore::platform_store::SecureStore;
use vaultsync::vaultcore::service::{
    bind_biometric, change_password, create_vault, finish_bio_unlock, unbind_biometric, unlock, unlock_biometric,
    verifier_of, wrap_mk, CoreError,
};
use vaultsync::vaultcore::session::GuardTable;

/// In-memory secure store.
#[derive(Default)]
struct MockStore(Mutex<HashMap<String, String>>);

impl SecureStore for MockStore {
    fn get(&self, account: &str) -> Result<Option<String>, &'static str> {
        Ok(self.0.lock().unwrap().get(account).cloned())
    }
    fn set(&self, account: &str, value: &str) -> Result<(), &'static str> {
        self.0.lock().unwrap().insert(account.into(), value.into());
        Ok(())
    }
    fn delete(&self, account: &str) -> Result<(), &'static str> {
        self.0.lock().unwrap().remove(account);
        Ok(())
    }
}

/// A store that refuses everything (a platform without one).
struct UnavailableStore;

impl SecureStore for UnavailableStore {
    fn get(&self, _: &str) -> Result<Option<String>, &'static str> {
        Err("secure store unavailable")
    }
    fn set(&self, _: &str, _: &str) -> Result<(), &'static str> {
        Err("secure store unavailable")
    }
    fn delete(&self, _: &str) -> Result<(), &'static str> {
        Err("secure store unavailable")
    }
}

const NOW: u64 = 1_700_000_000_000;

/// A vault header under cheap Argon2 parameters (the header bytes stand for
/// the file).
fn create_fast(path: &str, pwd: &str) -> Vec<u8> {
    let mk = random_key();
    let salt = random_salt();
    let argon = Argon2Params::for_test();
    let kek = argon2id_derive(pwd, &salt, &argon).expect("derive");
    let ks = Keystore {
        path: path.to_string(),
        argon,
        salt,
        verifier: verifier_of(&mk),
        mk_wrap_pwd: wrap_mk(&mk, &kek).expect("wrap"),
        mk_wrap_bio: None,
    };
    ks.to_bytes()
}

#[test]
fn hex_key_roundtrip_via_mock() {
    let store = MockStore::default();
    let path = "C:/v/x.vsvb";
    assert!(matches!(kek_bio::load(&store, path), Ok(None)));
    let kek: [u8; KEY_LEN] = core::array::from_fn(|i| i as u8);
    kek_bio::store(&store, path, &kek).expect("store ok");
    assert_eq!(kek_bio::load(&store, path).ok().flatten().as_ref(), Some(&kek));
    kek_bio::remove(&store, path).expect("remove ok");
    assert!(matches!(kek_bio::load(&store, path), Ok(None)));
}

#[test]
fn create_unlock_roundtrip() {
    let p = "/tmp/vaultsync-roundtrip/roundtrip.vsvb";
    let ks = create_vault::<MockStore>(p, "s3cret-pw", false, None).expect("create");
    assert_eq!(ks.path, p);
    let file = ks.to_bytes();
    let mut g = GuardTable::new();
    let s = unlock(p, Some(&file), "s3cret-pw", false, &mut g, NOW).expect("unlock");
    assert!(!s.is_disguise());
}

#[test]
fn create_with_bio_needs_a_store() {
    let p = "/tmp/vaultsync-bio-create/v.vsvb";
    assert_eq!(create_vault::<MockStore>(p, "pw", true, None).unwrap_err(), CoreError::BioUnavailable);
}

#[test]
fn wrong_password_counts_and_unlock_resets() {
    let p = "/tmp/vaultsync-wrong/primary.vsvb";
    let p2 = "/tmp/vaultsync-wrong/disguise.vsvb";
    let file = create_fast(p, "right");
    let mut g = GuardTable::new();
    assert_eq!(unlock(p, Some(&file), "nope1", false, &mut g, NOW).err(), Some(CoreError::WrongPassword(0)));
    assert_eq!(unlock(p, Some(&file), "nope2", false, &mut g, NOW).err(), Some(CoreError::WrongPassword(0)));
    assert_eq!(
        unlock(p, Some(&file), "nope3", false, &mut g, NOW).err(),
        Some(CoreError::WrongPassword(30_000))
    );
    // The fourth attempt meets the cooldown.
    assert!(matches!(unlock(p, Some(&file), "nope4", false, &mut g, NOW), Err(CoreError::Cooldown(_))));
    // A sibling vault in the same directory shares the protection domain.
    assert!(matches!(unlock(p2, Some(&file), "x", false, &mut g, NOW), Err(CoreError::Cooldown(_))));
    // After the cooldown the right password unlocks and resets the count.
    let later = NOW + 30_001;
    assert!(unlock(p, Some(&file), "right", false, &mut g, later).is_ok());
    assert_eq!(unlock(p, Some(&file), "nope5", false, &mut g, later).err(), Some(CoreError::WrongPassword(0)));
}

#[test]
fn change_password_zero_reencrypt() {
    let p = "/tmp/vaultsync-chg/chg.vsvb";
    let file = create_fast(p, "old-pw");
    let mut g = GuardTable::new();
    let s = unlock(p, Some(&file), "old-pw", false, &mut g, NOW).expect("unlock");
    let mk_before = *s.mk();

    let ks = change_password(&s, Some(&file), "old-pw", "new-pw").expect("change");
    let file2 = ks.to_bytes();

    // The master key stays (no file is re-encrypted).
    let s2 = unlock(p, Some(&file2), "new-pw", false, &mut g, NOW).expect("unlock new");
    assert_eq!(*s2.mk(), mk_before);
    // The old password no longer opens the header.
    assert!(matches!(
        unlock(p, Some(&file2), "old-pw", false, &mut g, NOW),
        Err(CoreError::WrongPassword(_))
    ));
}

#[test]
fn change_password_requires_old() {
    let p = "/tmp/vaultsync-chg-old/chg-old.vsvb";
    let file = create_fast(p, "old-pw");
    let mut g = GuardTable::new();
    let s = unlock(p, Some(&file), "old-pw", false, &mut g, NOW).expect("unlock");
    assert_eq!(change_password(&s, Some(&file), "bad-old", "new").unwrap_err(), CoreError::WrongPassword(0));
}

#[test]
fn bio_bind_unlock_and_unbind() {
    let p = "/tmp/vaultsync-bio/bio.vsvb";
    let file = create_fast(p, "pw");
    let store = MockStore::default();
    let mut g = GuardTable::new();
    let s = unlock(p, Some(&file), "pw", false, &mut g, NOW).expect("unlock");

    // Not bound yet.
    assert!(matches!(
        unlock_biometric(p, Some(&file), &store, &mut g, NOW),
        Err(CoreError::BioNotBound)
    ));

    let file2 = bind_biometric(&s, Some(&file), &store).expect("bind").to_bytes();
    let bio = unlock_biometric(p, Some(&file2), &store, &mut g, NOW).expect("bio unlock");
    assert_eq!(*bio.mk(), *s.mk());

    // Unbound again; the password still works.
    let file3 = unbind_biometric(&bio, Some(&file2), &store).expect("unbind").to_bytes();
    assert!(matches!(
        unlock_biometric(p, Some(&file3), &store, &mut g, NOW),
        Err(CoreError::BioNotBound)
    ));
    assert!(unlock(p, Some(&file3), "pw", false, &mut g, NOW).is_ok());
}

#[test]
fn bio_store_unavailable_degrades_gracefully() {
    let p = "/tmp/vaultsync-bio-degrade/bio-degrade.vsvb";
    let file = create_fast(p, "pw");
    let mut g = GuardTable::new();
    let s = unlock(p, Some(&file), "pw", false, &mut g, NOW).expect("unlock");
    let dead = UnavailableStore;
    // Binding fails: the platform has no store, no wrapped copy is made.
    assert!(matches!(bind_biometric(&s, Some(&file), &dead), Err(CoreError::BioUnavailable)));
    // The password path is untouched.
    assert!(unlock(p, Some(&file), "pw", false, &mut g, NOW).is_ok());
}

#[test]
fn disguised_session_cannot_mutate_vault() {
    let p = "/tmp/vaultsync-dummy/dummy.vsvb";
    let file = create_fast(p, "pw");
    let mut g = GuardTable::new();
    let s = unlock(p, Some(&file), "pw", true, &mut g, NOW).expect("unlock");
    assert!(s.is_disguise());
    assert_eq!(
        change_password(&s, Some(&file), "pw", "x").unwrap_err(),
        CoreError::Internal("disguise session cannot change password")
    );
}

#[test]
fn tampered_wrap_detected_by_verifier() {
    let p = "/tmp/vaultsync-tamper/tamper.vsvb";
    let mut raw = create_fast(p, "pw");
    // Flip a bit of the wrapped key: GCM refuses it (a wrong-password answer).
    let off = raw.len() - 60;
    raw[off] ^= 0xff;
    let mut g = GuardTable::new();
    assert!(matches!(unlock(p, Some(&raw), "pw", false, &mut g, NOW), Err(CoreError::WrongPassword(_))));
}

#[test]
fn missing_header_is_an_io_error() {
    let mut g = GuardTable::new();
    assert!(matches!(
        unlock("/tmp/vaultsync-none/none.vsvb", None, "pw", false, &mut g, NOW),
        Err(CoreError::Io(_))
    ));
}

#[test]
fn bio_unlock_by_store_answer() {
    let p = "/tmp/vaultsync-bio-answer/a.vsvb";
    let file = create_fast(p, "pw");
    let store = MockStore::default();
    let mut g = GuardTable::new();
    let s = unlock(p, Some(&file), "pw", false, &mut g, NOW).expect("unlock");
    let ks = bind_biometric(&s, Some(&file), &store).expect("bind");
    let stored = kek_bio::load(&store, p).unwrap().unwrap();
    let hex = vaultsync::crypto::hex_encode(&stored);
    assert!(matches!(finish_bio_unlock(p, &ks, Err("store down"), &mut g, NOW), Err(CoreError::BioUnavailable)));
    assert!(matches!(finish_bio_unlock(p, &ks, Ok(None), &mut g, NOW), Err(CoreError::BioNotBound)));
    assert!(matches!(finish_bio_unlock(p, &ks, Ok(Some("zz".into())), &mut g, NOW), Err(CoreError::BioUnavailable)));
    let wrong = vaultsync::crypto::hex_encode(&[9u8; 32]);
    assert_eq!(finish_bio_unlock(p, &ks, Ok(Some(wrong)), &mut g, NOW).err(), Some(CoreError::WrongPassword(0)));
    let ok = finish_bio_unlock(p, &ks, Ok(Some(hex)), &mut g, NOW).expect("unlock");
    assert_eq!(*ok.mk(), *s.mk());
    assert!(!ok.is_disguise());
}
