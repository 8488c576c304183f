//! LSB steganography (embedding / extraction / capacity); the cipher stack it
//! builds on is checked here.
use vstd::prelude::*;

verus! {

/// Self-check: the crypto dependency works.
pub fn self_check() -> (ok: bool)
    ensures
        ok,
{
    crate::crypto::self_check()
}

} // verus!
