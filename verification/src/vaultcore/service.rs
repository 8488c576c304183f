//! Key-wrapping logic: master-key generation and its wrapped copies, the
//! password and biometric unlock paths, password change without
//! re-encryption, and the disguise space (an independent vault file).
//!
//! Reading and writing the header file is the host's business: these
//! functions take the header's bytes (`None` when the file could not be read)
//! and return the header to be written back.
use vstd::prelude::*;

use crate::crypto::aead::{aead_decrypt, aead_encrypt, gcm_len_ok, spec_aead_blob, spec_aead_open_blob};
use crate::crypto::kdf::{argon2id_derive, hkdf_sha256_derive, spec_argon2id_derive, spec_hkdf_derive, Argon2Params};
use crate::crypto::random::{random_key, random_nonce, random_salt};
use crate::crypto::KEY_LEN;
use crate::vaultcore::keystore::{spec_keystore_bytes, spec_parse_keystore, Keystore, KeystoreView, WRAP_LEN};
use crate::crypto::hex::spec_hex_encode;
use crate::vaultcore::platform_store::kek_bio::{spec_account_for, spec_kek_from_store};
use crate::vaultcore::platform_store::{answer_view, kek_bio, unit_view, SecureStore};
use crate::vaultcore::session::{
    guard_check, guard_fail, guard_key, guard_reset, spec_after_fail, spec_cooldown_secs, spec_guard_check,
    spec_state, GuardState, GuardTable, GuardVerdict, Session,
};

verus! {

#[derive(Debug, PartialEq, Eq)]
pub enum CoreError {
    /// Wrong password; the cooldown (ms) this failure started, 0 below the threshold.
    WrongPassword(u64),
    /// In cooldown; remaining ms.
    Cooldown(u64),
    BioUnavailable,
    BioNotBound,
    Io(&'static str),
    Format(&'static str),
    Internal(&'static str),
}

/// "verifier"
pub open spec fn verifier_info() -> Seq<u8> {
    seq![118u8, 101, 114, 105, 102, 105, 101, 114]
}

/// HKDF(MK, "verifier").
pub open spec fn spec_verifier(mk: Seq<u8>) -> Seq<u8> {
    spec_hkdf_derive(mk, verifier_info())
}

pub fn verifier_of(mk: &[u8; KEY_LEN]) -> (v: [u8; KEY_LEN])
    ensures
        v@ == spec_verifier(mk@),
{
    let info: [u8; 8] = [118, 101, 114, 105, 102, 105, 101, 114];
    proof {
        assert(info@ =~= verifier_info());
    }
    hkdf_sha256_derive(mk, &info)
}

/// A wrapped copy of `mk` under `kek`: `nonce ‖ AES-GCM(kek, nonce, mk)`.
pub open spec fn is_wrap_of(blob: Seq<u8>, kek: Seq<u8>, mk: Seq<u8>) -> bool {
    exists|n: Seq<u8>| n.len() == 12 && blob == #[trigger] spec_aead_blob(kek, n, mk, seq![])
}

/// What unwrapping a copy gives: the 32-byte key, or `None`.
pub open spec fn spec_unwrap(kek: Seq<u8>, blob: Seq<u8>) -> Option<Seq<u8>> {
    match spec_aead_open_blob(kek, blob, seq![]) {
        Some(m) => if m.len() == KEY_LEN {
            Some(m)
        } else {
            None
        },
        None => None,
    }
}

/// Wrap the master key under a KEK with a fresh nonce.
pub fn wrap_mk(mk: &[u8; KEY_LEN], kek: &[u8; KEY_LEN]) -> (res: Result<Vec<u8>, CoreError>)
    ensures
        res matches Ok(b) && is_wrap_of(b@, kek@, mk@) && b@.len() == WRAP_LEN && spec_unwrap(kek@, b@)
            == Some(mk@),
{
    let nonce = random_nonce();
    match aead_encrypt(kek, &nonce, mk) {
        Ok(b) => {
            proof {
                assert(b@ == spec_aead_blob(kek@, nonce@, mk@, seq![]));
            }
            Ok(b)
        },
        Err(_) => {
            proof {
                assert(gcm_len_ok(mk@, seq![]));
            }
            Err(CoreError::Internal("wrap failed"))
        },
    }
}

/// Unwrap a copy; `None` when the KEK is wrong or the copy was tampered with.
pub fn unwrap_mk(kek: &[u8; KEY_LEN], blob: &[u8]) -> (res: Option<[u8; KEY_LEN]>)
    ensures
        match res {
            Some(m) => spec_unwrap(kek@, blob@) == Some(m@),
            None => spec_unwrap(kek@, blob@) is None,
        },
        forall|n: Seq<u8>, m: Seq<u8>|
            #[trigger] spec_aead_blob(kek@, n, m, seq![]) == blob@ && n.len() == 12 && m.len() == KEY_LEN
                && blob@.len() == WRAP_LEN ==> spec_unwrap(kek@, blob@) == Some(m),
{
    let r = aead_decrypt(kek, blob);
    proof {
        assert forall|n: Seq<u8>, m: Seq<u8>|
            #[trigger] spec_aead_blob(kek@, n, m, seq![]) == blob@ && n.len() == 12 && m.len() == KEY_LEN
                && blob@.len() == WRAP_LEN implies spec_unwrap(kek@, blob@) == Some(m) by {
            assert(gcm_len_ok(m, seq![]));
        }
    }
    match r {
        Some(pt) => {
            if pt.len() == KEY_LEN {
                Some(crate::crypto::random::to_array_32(pt.as_slice()))
            } else {
                None
            }
        },
        None => None,
    }
}

/// Header fields that define a freshly created vault for `mk` and `password`.
pub open spec fn fresh_header_for(k: KeystoreView, mk: Seq<u8>, password: Seq<char>) -> bool {
    &&& k.argon == (Argon2Params { m_kib: 65536, t: 3, p: 2 })
    &&& k.salt.len() == 16
    &&& k.verifier == spec_verifier(mk)
    &&& spec_argon2id_derive(password, k.salt, k.argon) matches Ok(kek) && is_wrap_of(k.mk_wrap_pwd, kek, mk)
        && spec_unwrap(kek, k.mk_wrap_pwd) == Some(mk)
    &&& k.mk_wrap_pwd.len() == WRAP_LEN
}

/// Create a vault header: a random master key wrapped under the password
/// (Argon2id, desktop parameters), optionally also under a fresh KEK_bio put
/// into the secure store.  The host writes the returned header to `path`.
pub fn create_vault<S: SecureStore>(path: &str, password: &str, bind_bio: bool, store: Option<&S>) -> (res:
    Result<Keystore, CoreError>)
    ensures
        res matches Ok(k) ==> k.path@ == path@ && exists|mk: Seq<u8>|
            mk.len() == KEY_LEN && fresh_header_for(k@, mk, password@) && (k.mk_wrap_bio matches Some(b)
                ==> (b@.len() == WRAP_LEN && (store matches Some(st) && exists|kb: Seq<u8>|
                kb.len() == KEY_LEN && is_wrap_of(b@, kb, mk) && st.set_outcome(
                spec_account_for(path@),
                spec_hex_encode(kb),
                Ok(()),
            )))),
        res matches Ok(k) ==> (k.mk_wrap_bio is Some <==> bind_bio),
        vstd::utf8::encode_utf8(password@).len() <= 0xFFFF_FFFF ==> {
            if !bind_bio {
                res is Ok
            } else {
                match store {
                    None => res matches Err(CoreError::BioUnavailable),
                    Some(st) => res is Ok || (res matches Err(CoreError::BioUnavailable) && exists|
                        kb: Seq<u8>,
                        e: Seq<char>,
                    | kb.len() == KEY_LEN && #[trigger] st.set_outcome(
                        spec_account_for(path@),
                        spec_hex_encode(kb),
                        Err(e),
                    )),
                }
            }
        },
        res matches Err(e) ==> (e matches CoreError::BioUnavailable || e matches CoreError::Internal(_)),
{
    let mk = random_key();
    let salt = random_salt();
    let argon = Argon2Params::desktop();
    let kek = match argon2id_derive(password, &salt, &argon) {
        Ok(k) => k,
        Err(e) => return Err(CoreError::Internal(e)),
    };
    let mk_wrap_pwd = wrap_mk(&mk, &kek)?;
    let mut p = String::new();
    crate::text::string_push_str(&mut p, path);
    let mut ks = Keystore { path: p, argon, salt, verifier: verifier_of(&mk), mk_wrap_pwd, mk_wrap_bio: None };
    if bind_bio {
        let store = match store {
            Some(s) => s,
            None => return Err(CoreError::BioUnavailable),
        };
        bind_bio_locked(&mut ks, &mk, store)?;
    }
    proof {
        assert(fresh_header_for(ks@, mk@, password@));
    }
    Ok(ks)
}

/// Generate KEK_bio, put it into the store under the vault's account and add
/// the biometric copy; a store that refuses the key means `BioUnavailable`.
fn bind_bio_locked<S: SecureStore>(ks: &mut Keystore, mk: &[u8; KEY_LEN], store: &S) -> (res: Result<(), CoreError>)
    ensures
        res is Ok ==> (final(ks).mk_wrap_bio matches Some(b) && b@.len() == WRAP_LEN && exists|kb: Seq<u8>|
            kb.len() == KEY_LEN && is_wrap_of(b@, kb, mk@) && store.set_outcome(
            spec_account_for(old(ks).path@),
            spec_hex_encode(kb),
            Ok(()),
        )),
        res is Err ==> (res matches Err(CoreError::BioUnavailable) && *final(ks) == *old(ks) && exists|
            kb: Seq<u8>,
            e: Seq<char>,
        | kb.len() == KEY_LEN && #[trigger] store.set_outcome(spec_account_for(old(ks).path@), spec_hex_encode(kb), Err(e))),
        final(ks).path == old(ks).path && final(ks).argon == old(ks).argon && final(ks).salt == old(ks).salt
            && final(ks).verifier == old(ks).verifier && final(ks).mk_wrap_pwd == old(ks).mk_wrap_pwd,
{
    let kek_bio_key = random_key();
    let r = kek_bio::store(store, ks.path.as_str(), &kek_bio_key);
    match r {
        Ok(()) => {},
        Err(e) => {
            proof {
                assert(store.set_outcome(spec_account_for(ks.path@), spec_hex_encode(kek_bio_key@), Err(e@)));
            }
            return Err(CoreError::BioUnavailable);
        },
    }
    let w = wrap_mk(mk, &kek_bio_key)?;
    ks.mk_wrap_bio = Some(w);
    Ok(())
}

/// Header read from the bytes the host supplies (`None`: unreadable file).
pub open spec fn spec_load(file: Option<Seq<u8>>) -> Result<KeystoreView, Seq<char>> {
    match file {
        None => Err("cannot read vault file"@),
        Some(d) => spec_parse_keystore(d),
    }
}

pub open spec fn opt_seq(file: Option<&[u8]>) -> Option<Seq<u8>> {
    match file {
        Some(d) => Some(d@),
        None => None,
    }
}

fn load(path: &str, file: Option<&[u8]>) -> (res: Result<Keystore, &'static str>)
    ensures
        match res {
            Ok(k) => spec_load(opt_seq(file)) == Ok::<KeystoreView, Seq<char>>(k@) && k.path@ == path@,
            Err(e) => spec_load(opt_seq(file)) == Err::<KeystoreView, Seq<char>>(e@),
        },
{
    match file {
        None => Err("cannot read vault file"),
        Some(d) => Keystore::from_bytes(path, d),
    }
}

/// Bind (or re-bind) biometrics; primary sessions only.  Returns the header
/// to write back.
pub fn bind_biometric<S: SecureStore>(session: &Session, file: Option<&[u8]>, store: &S) -> (res: Result<
    Keystore,
    CoreError,
>)
    ensures
        session.spec_disguise() ==> (res matches Err(CoreError::Internal(e)) && e@
            == "disguise session cannot bind bio"@),
        !session.spec_disguise() && spec_load(opt_seq(file)) is Err ==> (res matches Err(CoreError::Format(e))
            && spec_load(opt_seq(file)) == Err::<KeystoreView, Seq<char>>(e@)),
        res matches Ok(k) ==> (spec_load(opt_seq(file)) matches Ok(old_k) && k.path@ == session.spec_path()
            && k@.argon == old_k.argon && k@.salt == old_k.salt && k@.verifier == old_k.verifier
            && k@.mk_wrap_pwd == old_k.mk_wrap_pwd && (k.mk_wrap_bio matches Some(b) && b@.len() == WRAP_LEN
            && exists|kb: Seq<u8>|
            kb.len() == KEY_LEN && is_wrap_of(b@, kb, session.spec_mk()) && store.set_outcome(
                spec_account_for(session.spec_path()),
                spec_hex_encode(kb),
                Ok(()),
            ))),
        !session.spec_disguise() && spec_load(opt_seq(file)) is Ok ==> (res is Ok || (res matches Err(
            CoreError::BioUnavailable,
        ) && exists|kb: Seq<u8>, e: Seq<char>|
            kb.len() == KEY_LEN && #[trigger] store.set_outcome(
                spec_account_for(session.spec_path()),
                spec_hex_encode(kb),
                Err(e),
            ))),
{
    if session.is_disguise() {
        return Err(CoreError::Internal("disguise session cannot bind bio"));
    }
    let mut ks = match load(session.vault_path().as_str(), file) {
        Ok(k) => k,
        Err(e) => return Err(CoreError::Format(e)),
    };
    bind_bio_locked(&mut ks, session.mk(), store)?;
    Ok(ks)
}

/// Unbind biometrics: delete KEK_bio from the store and drop the copy.
pub fn unbind_biometric<S: SecureStore>(session: &Session, file: Option<&[u8]>, store: &S) -> (res: Result<
    Keystore,
    CoreError,
>)
    ensures
        session.spec_disguise() ==> (res matches Err(CoreError::Internal(e)) && e@
            == "disguise session cannot unbind bio"@),
        !session.spec_disguise() && spec_load(opt_seq(file)) is Err ==> (res matches Err(CoreError::Format(e))
            && spec_load(opt_seq(file)) == Err::<KeystoreView, Seq<char>>(e@)),
        res matches Ok(k) ==> spec_load(opt_seq(file)) matches Ok(old_k) && k.path@ == session.spec_path()
            && k@ == (KeystoreView { mk_wrap_bio: None, ..old_k }) && store.delete_outcome(
            spec_account_for(session.spec_path()),
            Ok(()),
        ),
        !session.spec_disguise() && spec_load(opt_seq(file)) is Ok ==> (res is Ok || (res matches Err(
            CoreError::BioUnavailable,
        ) && exists|e: Seq<char>| #[trigger] store.delete_outcome(spec_account_for(session.spec_path()), Err(e)))),
        res matches Err(e) ==> !(e matches CoreError::WrongPassword(_)),
{
    if session.is_disguise() {
        return Err(CoreError::Internal("disguise session cannot unbind bio"));
    }
    let mut ks = match load(session.vault_path().as_str(), file) {
        Ok(k) => k,
        Err(e) => return Err(CoreError::Format(e)),
    };
    match kek_bio::remove(store, ks.path.as_str()) {
        Ok(()) => {},
        Err(e) => {
            proof {
                assert(store.delete_outcome(spec_account_for(ks.path@), Err(e@)));
            }
            return Err(CoreError::BioUnavailable);
        },
    }
    ks.mk_wrap_bio = None;
    Ok(ks)
}

/// Master key that the password path yields for a header's bytes: the
/// header parses, Argon2id derives the KEK, the copy unwraps and the verifier
/// matches.
pub open spec fn spec_unlock_mk(d: Seq<u8>, password: Seq<char>) -> Option<Seq<u8>> {
    match spec_parse_keystore(d) {
        Ok(k) => match spec_argon2id_derive(password, k.salt, k.argon) {
            Ok(kek) => match spec_unwrap(kek, k.mk_wrap_pwd) {
                Some(m) => if spec_verifier(m) == k.verifier {
                    Some(m)
                } else {
                    None
                },
                None => None,
            },
            Err(_) => None,
        },
        Err(_) => None,
    }
}

/// Password unlock.  A wrong password counts towards the protection domain
/// of the file (shared with siblings in the same directory).
pub fn unlock(
    path: &str,
    file: Option<&[u8]>,
    password: &str,
    disguise: bool,
    guard: &mut GuardTable,
    now_ms: u64,
) -> (res: Result<Session, CoreError>)
    requires
        old(guard).wf(),
    ensures
        final(guard).wf(),
        spec_guard_check(old(guard).view(), path@, now_ms) matches GuardVerdict::Cooldown(ms) ==> res
            == Err::<Session, CoreError>(CoreError::Cooldown(ms)) && final(guard).view() == old(guard).view(),
        spec_guard_check(old(guard).view(), path@, now_ms) is Allowed ==> {
            match spec_load(opt_seq(file)) {
                Err(e) => final(guard).view() == old(guard).view() && if file is None {
                    res matches Err(CoreError::Io(m)) && m@ == e
                } else {
                    res matches Err(CoreError::Format(m)) && m@ == e
                },
                Ok(k) => match spec_argon2id_derive(password@, k.salt, k.argon) {
                    Err(e) => final(guard).view() == old(guard).view() && (res matches Err(
                        CoreError::Internal(m),
                    ) && m@ == e),
                    Ok(kek) => match spec_unwrap(kek, k.mk_wrap_pwd) {
                        Some(m) => if spec_verifier(m) == k.verifier {
                            res matches Ok(s) && s.spec_mk() == m && s.spec_path() == path@ && s.spec_disguise()
                                == disguise && final(guard).view() == old(guard).view().remove(
                                guard_key(path@),
                            )
                        } else {
                            final(guard).view() == old(guard).view() && (res matches Err(CoreError::Internal(msg))
                                && msg@ == "MK verifier mismatch: wrapped copy tampered"@)
                        },
                        None => {
                            let st = spec_after_fail(spec_state(old(guard).view(), guard_key(path@)), now_ms);
                            res == Err::<Session, CoreError>(
                                CoreError::WrongPassword((spec_cooldown_secs(st.fails) * 1000) as u64),
                            ) && final(guard).view() == old(guard).view().insert(guard_key(path@), st)
                        },
                    },
                },
            }
        },
        res matches Ok(s) ==> file matches Some(d) && spec_unlock_mk(d@, password@) == Some(s.spec_mk()),
{
    if let GuardVerdict::Cooldown(ms) = guard_check(guard, path, now_ms) {
        return Err(CoreError::Cooldown(ms));
    }
    let ks = match load(path, file) {
        Ok(k) => k,
        Err(e) => {
            if file.is_none() {
                return Err(CoreError::Io(e));
            } else {
                return Err(CoreError::Format(e));
            }
        },
    };
    let kek = match argon2id_derive(password, &ks.salt, &ks.argon) {
        Ok(k) => k,
        Err(e) => return Err(CoreError::Internal(e)),
    };
    match unwrap_mk(&kek, ks.mk_wrap_pwd.as_slice()) {
        Some(mk) => {
            let v = verifier_of(&mk);
            if crate::crypto::bytes_eq(&v, &ks.verifier) {
                guard_reset(guard, path);
                let mut p = String::new();
                crate::text::string_push_str(&mut p, path);
                Ok(Session::new(mk, p, disguise))
            } else {
                Err(CoreError::Internal("MK verifier mismatch: wrapped copy tampered"))
            }
        },
        None => {
            let wait = guard_fail(guard, path, now_ms);
            Err(CoreError::WrongPassword(wait))
        },
    }
}

/// Biometric unlock.  An unavailable store means `BioUnavailable`; the
/// password path is unaffected.
pub fn unlock_biometric<S: SecureStore>(
    path: &str,
    file: Option<&[u8]>,
    store: &S,
    guard: &mut GuardTable,
    now_ms: u64,
) -> (res: Result<Session, CoreError>)
    requires
        old(guard).wf(),
    ensures
        final(guard).wf(),
        spec_guard_check(old(guard).view(), path@, now_ms) matches GuardVerdict::Cooldown(ms) ==> res
            == Err::<Session, CoreError>(CoreError::Cooldown(ms)) && final(guard).view() == old(guard).view(),
        spec_guard_check(old(guard).view(), path@, now_ms) is Allowed ==> match spec_load(opt_seq(file)) {
            Err(e) => final(guard).view() == old(guard).view() && (res matches Err(CoreError::Format(m)) && m@
                == e),
            Ok(k) => if k.mk_wrap_bio is None {
                final(guard).view() == old(guard).view() && res == Err::<Session, CoreError>(CoreError::BioNotBound)
            } else {
                exists|a: Result<Option<Seq<char>>, Seq<char>>|
                    store.get_outcome(spec_account_for(path@), a) && #[trigger] bio_unlock_outcome(
                        path@,
                        k,
                        a,
                        old(guard).view(),
                        final(guard).view(),
                        now_ms,
                        res,
                    )
            },
        },
        res matches Ok(s) ==> file matches Some(d) && spec_parse_keystore(d@) matches Ok(k) && k.mk_wrap_bio matches Some(
            b,
        ) && exists|kek: Seq<u8>| #[trigger] spec_unwrap(kek, b) == Some(s.spec_mk()) && spec_verifier(s.spec_mk())
            == k.verifier,
        res matches Ok(s) ==> !s.spec_disguise() && s.spec_path() == path@ && final(guard).view() == old(
            guard,
        ).view().remove(guard_key(path@)),
        res matches Err(CoreError::WrongPassword(ms)) ==> {
            let st = spec_after_fail(spec_state(old(guard).view(), guard_key(path@)), now_ms);
            ms == spec_cooldown_secs(st.fails) * 1000 && final(guard).view() == old(guard).view().insert(
                guard_key(path@),
                st,
            )
        },
        res matches Err(e) && !(e matches CoreError::WrongPassword(_)) ==> final(guard).view() == old(
            guard,
        ).view(),
{
    if let GuardVerdict::Cooldown(ms) = guard_check(guard, path, now_ms) {
        return Err(CoreError::Cooldown(ms));
    }
    let ks = match load(path, file) {
        Ok(k) => k,
        Err(e) => return Err(CoreError::Format(e)),
    };
    if ks.mk_wrap_bio.is_none() {
        return Err(CoreError::BioNotBound);
    }
    let account = kek_bio::account_for(path);
    let answer = store.get(account.as_str());
    let r = finish_bio_unlock(path, &ks, answer, guard, now_ms);
    proof {
        if r is Ok {
            let d = file.unwrap();
            assert(spec_parse_keystore(d@) == Ok::<KeystoreView, Seq<char>>(ks@));
        }
    }
    r
}

/// What a biometric unlock gives once the store has answered `a` for the
/// vault's KEK_bio: an unreadable or corrupted answer means `BioUnavailable`,
/// no key `BioNotBound`; the key must unwrap the biometric copy of the master
/// key and pass the verifier; a copy that does not unwrap counts as a failed
/// attempt of the protection domain (`g0` and `g1`: the failure table before
/// and after).
pub open spec fn bio_unlock_outcome(
    path: Seq<char>,
    ks: KeystoreView,
    a: Result<Option<Seq<char>>, Seq<char>>,
    g0: Map<Seq<char>, GuardState>,
    g1: Map<Seq<char>, GuardState>,
    now_ms: u64,
    res: Result<Session, CoreError>,
) -> bool {
    match spec_kek_from_store(a) {
        Err(_) => res == Err::<Session, CoreError>(CoreError::BioUnavailable) && g1 == g0,
        Ok(None) => res == Err::<Session, CoreError>(CoreError::BioNotBound) && g1 == g0,
        Ok(Some(kek)) => match ks.mk_wrap_bio {
            None => res == Err::<Session, CoreError>(CoreError::BioNotBound) && g1 == g0,
            Some(b) => match spec_unwrap(kek, b) {
                Some(m) => if spec_verifier(m) == ks.verifier {
                    res matches Ok(s) && s.spec_mk() == m && s.spec_path() == path && !s.spec_disguise()
                        && g1 == g0.remove(guard_key(path))
                } else {
                    g1 == g0 && (res matches Err(CoreError::Internal(msg))
                        && msg@ == "MK verifier mismatch: wrapped copy tampered"@)
                },
                None => {
                    let st = spec_after_fail(spec_state(g0, guard_key(path)), now_ms);
                    res == Err::<Session, CoreError>(
                        CoreError::WrongPassword((spec_cooldown_secs(st.fails) * 1000) as u64),
                    ) && g1 == g0.insert(guard_key(path), st)
                },
            },
        },
    }
}

/// Biometric unlock once the secure store has answered for the vault's
/// account: an unreadable or corrupted answer means `BioUnavailable`, no
/// key `BioNotBound`; the key must unwrap the biometric copy of the master
/// key and pass the verifier. A copy that does not unwrap counts as a failed
/// attempt of the protection domain.
pub fn finish_bio_unlock(
    path: &str,
    ks: &Keystore,
    answer: Result<Option<String>, &'static str>,
    guard: &mut GuardTable,
    now_ms: u64,
) -> (res: Result<Session, CoreError>)
    requires
        old(guard).wf(),
    ensures
        final(guard).wf(),
        bio_unlock_outcome(path@, ks@, answer_view(answer), old(guard).view(), final(guard).view(), now_ms, res),
{
    let kek = match kek_bio::kek_from_store(answer) {
        Err(_) => return Err(CoreError::BioUnavailable),
        Ok(None) => return Err(CoreError::BioNotBound),
        Ok(Some(k)) => k,
    };
    let bio_blob = match &ks.mk_wrap_bio {
        Some(b) => b,
        None => return Err(CoreError::BioNotBound),
    };
    match unwrap_mk(&kek, bio_blob.as_slice()) {
        Some(mk) => {
            let v = verifier_of(&mk);
            if crate::crypto::bytes_eq(&v, &ks.verifier) {
                guard_reset(guard, path);
                let mut p = String::new();
                crate::text::string_push_str(&mut p, path);
                Ok(Session::new(mk, p, false))
            } else {
                Err(CoreError::Internal("MK verifier mismatch: wrapped copy tampered"))
            }
        },
        None => {
            let wait = guard_fail(guard, path, now_ms);
            Err(CoreError::WrongPassword(wait))
        },
    }
}

/// Change the master password: only the password copy is re-made under a new
/// salt; the master key, and with it every file key, stays the same.
/// Returns the header to write back.
pub fn change_password(session: &Session, file: Option<&[u8]>, old_password: &str, new_password: &str) -> (res:
    Result<Keystore, CoreError>)
    ensures
        session.spec_disguise() ==> (res matches Err(CoreError::Internal(e)) && e@
            == "disguise session cannot change password"@),
        !session.spec_disguise() && spec_load(opt_seq(file)) is Err ==> (res matches Err(CoreError::Format(e))
            && spec_load(opt_seq(file)) == Err::<KeystoreView, Seq<char>>(e@)),
        !session.spec_disguise() ==> match spec_load(opt_seq(file)) {
            Ok(k) => match spec_argon2id_derive(old_password@, k.salt, k.argon) {
                Ok(kek_old) => spec_unwrap(kek_old, k.mk_wrap_pwd) != Some(session.spec_mk()) ==> res
                    == Err::<Keystore, CoreError>(CoreError::WrongPassword(0)),
                Err(e) => res matches Err(CoreError::Internal(m)) && m@ == e,
            },
            Err(_) => true,
        },
        !session.spec_disguise() && vstd::utf8::encode_utf8(new_password@).len() <= 0xFFFF_FFFF ==> match spec_load(
            opt_seq(file),
        ) {
            Ok(k) => match spec_argon2id_derive(old_password@, k.salt, k.argon) {
                Ok(kek_old) => spec_unwrap(kek_old, k.mk_wrap_pwd) == Some(session.spec_mk()) ==> res is Ok,
                Err(_) => true,
            },
            Err(_) => true,
        },
        res matches Ok(k2) ==> (spec_load(opt_seq(file)) matches Ok(k) && k2.path@ == session.spec_path()
            && k2@.argon == k.argon && k2@.verifier == k.verifier && k2@.mk_wrap_bio == k.mk_wrap_bio
            && k2@.salt.len() == 16 && k2@.mk_wrap_pwd.len() == WRAP_LEN && (spec_argon2id_derive(
            new_password@,
            k2@.salt,
            k2@.argon,
        ) matches Ok(kek_new) && is_wrap_of(k2@.mk_wrap_pwd, kek_new, session.spec_mk()) && spec_unwrap(
            kek_new,
            k2@.mk_wrap_pwd,
        ) == Some(session.spec_mk()))),
{
    if session.is_disguise() {
        return Err(CoreError::Internal("disguise session cannot change password"));
    }
    let mut ks = match load(session.vault_path().as_str(), file) {
        Ok(k) => k,
        Err(e) => return Err(CoreError::Format(e)),
    };
    let kek_old = match argon2id_derive(old_password, &ks.salt, &ks.argon) {
        Ok(k) => k,
        Err(e) => return Err(CoreError::Internal(e)),
    };
    match unwrap_mk(&kek_old, ks.mk_wrap_pwd.as_slice()) {
        Some(mk) => {
            if !crate::crypto::bytes_eq(&mk, session.mk()) {
                return Err(CoreError::WrongPassword(0));
            }
        },
        None => return Err(CoreError::WrongPassword(0)),
    }
    ks.salt = random_salt();
    let kek_new = match argon2id_derive(new_password, &ks.salt, &ks.argon) {
        Ok(k) => k,
        Err(e) => return Err(CoreError::Internal(e)),
    };
    ks.mk_wrap_pwd = wrap_mk(session.mk(), &kek_new)?;
    Ok(ks)
}

/// Remaining cooldown of a vault's protection domain, if any.
pub fn cooldown_remaining_ms(guard: &GuardTable, path: &str, now_ms: u64) -> (r: Option<u64>)
    requires
        guard.wf(),
    ensures
        r == match spec_guard_check(guard.view(), path@, now_ms) {
            GuardVerdict::Cooldown(ms) => Some(ms),
            GuardVerdict::Allowed => None,
        },
{
    match guard_check(guard, path, now_ms) {
        GuardVerdict::Cooldown(ms) => Some(ms),
        GuardVerdict::Allowed => None,
    }
}

/// Whether the vault has a biometric copy.
pub fn bio_bound(path: &str, file: Option<&[u8]>) -> (r: Result<bool, CoreError>)
    ensures
        match spec_load(opt_seq(file)) {
            Ok(k) => r == Ok::<bool, CoreError>(k.mk_wrap_bio is Some),
            Err(e) => r matches Err(CoreError::Format(m)) && m@ == e,
        },
{
    match load(path, file) {
        Ok(ks) => Ok(ks.bio_bound()),
        Err(e) => Err(CoreError::Format(e)),
    }
}

/// After a password change, the new password opens the written header and
/// yields the same master key as before.
pub proof fn password_change_keeps_master_key(k2: KeystoreView, new_password: Seq<char>, mk: Seq<u8>)
    requires
        k2.salt.len() == 16,
        k2.verifier.len() == 32,
        k2.mk_wrap_pwd.len() == WRAP_LEN,
        k2.mk_wrap_bio matches Some(b) ==> b.len() == WRAP_LEN,
        k2.verifier == spec_verifier(mk),
        spec_argon2id_derive(new_password, k2.salt, k2.argon) matches Ok(kek_new) && spec_unwrap(
            kek_new,
            k2.mk_wrap_pwd,
        ) == Some(mk),
    ensures
        spec_unlock_mk(spec_keystore_bytes(k2), new_password) == Some(mk),
{
    crate::vaultcore::keystore::keystore_roundtrip(k2);
}

/// A vault header as `create_vault` makes it opens with its password and
/// gives back the master key it was made for.
pub proof fn created_vault_unlocks(k: KeystoreView, mk: Seq<u8>, password: Seq<char>)
    requires
        fresh_header_for(k, mk, password),
        k.verifier.len() == 32,
        k.mk_wrap_bio matches Some(b) ==> b.len() == WRAP_LEN,
    ensures
        spec_unlock_mk(spec_keystore_bytes(k), password) == Some(mk),
{
    crate::vaultcore::keystore::keystore_roundtrip(k);
}

} // verus!
