//! Key hierarchy of a vault: header format, password / biometric unwrapping,
//! password change without re-encryption, brute-force cooldown and the
//! platform secure store that holds KEK_bio.
pub mod hostapi;
pub mod keystore;
pub mod platform_store;
pub mod service;
pub mod session;

use vstd::prelude::*;

verus! {

/// Engine self-check: every component is linked and the cipher stack works.
pub fn self_check() -> (ok: bool)
    ensures
        ok,
{
    crate::crypto::self_check() && crate::audit::self_check() && crate::vault::self_check()
        && crate::p2p::self_check() && crate::stego::self_check()
}

} // verus!
