//! Platform secure store: the carrier of KEK_bio.
//!
//! A store that is unavailable on the platform makes the biometric path
//! unavailable; the password path does not depend on it.
pub mod kek_bio;

use vstd::prelude::*;

verus! {

/// A store's answer to `get`, as plain values.
pub open spec fn answer_view(a: Result<Option<String>, &'static str>) -> Result<Option<Seq<char>>, Seq<char>> {
    match a {
        Ok(Some(h)) => Ok(Some(h@)),
        Ok(None) => Ok(None),
        Err(e) => Err(e@),
    }
}

/// A store's answer to `set` or `delete`, as plain values.
pub open spec fn unit_view(a: Result<(), &'static str>) -> Result<(), Seq<char>> {
    match a {
        Ok(()) => Ok(()),
        Err(e) => Err(e@),
    }
}

/// A platform secure store (credential manager / keychain).  Implemented
/// over the operating system's store by [`OsSecureStore`], and by in-memory
/// stores in tests.  Each operation's answer is one its store allows for the
/// account (and value) it was given; what a store allows is up to the store,
/// and by default nothing is known of it.
pub trait SecureStore {
    /// Answers this store may give to `get(account)`.
    open spec fn get_outcome(&self, account: Seq<char>, answer: Result<Option<Seq<char>>, Seq<char>>) -> bool {
        true
    }

    /// Answers this store may give to `set(account, value)`.
    open spec fn set_outcome(&self, account: Seq<char>, value: Seq<char>, answer: Result<(), Seq<char>>) -> bool {
        true
    }

    /// Answers this store may give to `delete(account)`.
    open spec fn delete_outcome(&self, account: Seq<char>, answer: Result<(), Seq<char>>) -> bool {
        true
    }

    fn get(&self, account: &str) -> (r: Result<Option<String>, &'static str>)
        ensures
            self.get_outcome(account@, answer_view(r)),
    ;

    fn set(&self, account: &str, value: &str) -> (r: Result<(), &'static str>)
        ensures
            self.set_outcome(account@, value@, unit_view(r)),
    ;

    fn delete(&self, account: &str) -> (r: Result<(), &'static str>)
        ensures
            self.delete_outcome(account@, unit_view(r)),
    ;
}

#[verifier::external_type_specification]
#[verifier::external_body]
pub struct ExKeyringEntry(keyring::Entry);

#[verifier::external_type_specification]
#[verifier::external_body]
pub struct ExKeyringError(keyring::Error);

/// `keyring::Entry::new`: the platform credential entry of a service and an
/// account.  Whether the platform can make one is up to the platform, so
/// nothing is stated of the result.  (The crate panics only when its own
/// credential-builder lock is poisoned.)
#[verifier::external_body]
fn keyring_entry(service: &str, account: &str) -> (r: Result<keyring::Entry, keyring::Error>) {
    keyring::Entry::new(service, account)
}

/// `keyring::Entry::get_password`: what the platform store holds for the
/// entry, or an error (`NoEntry` when it holds nothing); nothing is stated.
#[verifier::external_body]
fn keyring_get(entry: &keyring::Entry) -> (r: Result<String, keyring::Error>) {
    entry.get_password()
}

/// `keyring::Entry::set_password`: stores a value for the entry; the outcome
/// is the platform's, nothing is stated.
#[verifier::external_body]
fn keyring_set(entry: &keyring::Entry, value: &str) -> (r: Result<(), keyring::Error>) {
    entry.set_password(value)
}

/// `keyring::Entry::delete_credential`: removes the entry's value (`NoEntry`
/// when there was none); nothing is stated.
#[verifier::external_body]
fn keyring_delete(entry: &keyring::Entry) -> (r: Result<(), keyring::Error>) {
    entry.delete_credential()
}

/// Whether a keyring error is the `keyring::Error::NoEntry` variant.  The
/// error is opaque here, so nothing is stated.
#[verifier::external_body]
fn keyring_no_entry(err: &keyring::Error) -> (b: bool) {
    match err {
        keyring::Error::NoEntry => true,
        _ => false,
    }
}

/// The operating system's secure store, under the service name
/// `VaultSync.KEK_bio`.
pub struct OsSecureStore;

impl SecureStore for OsSecureStore {
    /// The value kept for `account`; `Ok(None)` when the store holds none.
    fn get(&self, account: &str) -> (r: Result<Option<String>, &'static str>)
        ensures
            r matches Err(e) ==> e@ == "keyring entry unavailable"@ || e@ == "secure store read failed"@,
    {
        let entry = match keyring_entry("VaultSync.KEK_bio", account) {
            Ok(e) => e,
            Err(_) => {
                return Err("keyring entry unavailable");
            },
        };
        match keyring_get(&entry) {
            Ok(s) => Ok(Some(s)),
            Err(err) => {
                if keyring_no_entry(&err) {
                    Ok(None)
                } else {
                    Err("secure store read failed")
                }
            },
        }
    }

    /// Stores `value` for `account`.
    fn set(&self, account: &str, value: &str) -> (r: Result<(), &'static str>)
        ensures
            r matches Err(e) ==> e@ == "keyring entry unavailable"@ || e@ == "secure store write failed"@,
    {
        let entry = match keyring_entry("VaultSync.KEK_bio", account) {
            Ok(e) => e,
            Err(_) => {
                return Err("keyring entry unavailable");
            },
        };
        match keyring_set(&entry, value) {
            Ok(()) => Ok(()),
            Err(_) => Err("secure store write failed"),
        }
    }

    /// Removes the value kept for `account`; removing what is not there
    /// succeeds.
    fn delete(&self, account: &str) -> (r: Result<(), &'static str>)
        ensures
            r matches Err(e) ==> e@ == "keyring entry unavailable"@ || e@ == "secure store delete failed"@,
    {
        let entry = match keyring_entry("VaultSync.KEK_bio", account) {
            Ok(e) => e,
            Err(_) => {
                return Err("keyring entry unavailable");
            },
        };
        match keyring_delete(&entry) {
            Ok(()) => Ok(()),
            Err(err) => {
                if keyring_no_entry(&err) {
                    Ok(())
                } else {
                    Err("secure store delete failed")
                }
            },
        }
    }
}

/// The operating system's store, when the platform has one (probed by
/// making an entry); `None` disables the biometric path.
pub fn open_os_store() -> (r: Option<OsSecureStore>) {
    match keyring_entry("VaultSync.KEK_bio", "probe") {
        Ok(_) => Some(OsSecureStore),
        Err(_) => None,
    }
}

} // verus!
