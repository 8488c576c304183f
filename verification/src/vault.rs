//! Encrypted vault: per-file containers, the encrypted index with folder tree
//! and search tokens, CDC chunking and burn-after-reading shares.
use vstd::prelude::*;

pub mod container;
pub mod index;
pub mod keys;
pub mod listing;
pub mod tokenize;

verus! {

/// Self-check: crypto and audit are linked.
pub fn self_check() -> (ok: bool)
    ensures
        ok,
{
    crate::crypto::self_check() && crate::audit::self_check()
}

} // verus!
