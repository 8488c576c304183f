//! Device pairing and incremental sync: identities, the replay-protected
//! channel framing, signalling messages, the peer table, the sync planner and
//! the relay's room protocol.
use vstd::prelude::*;

pub mod base64;
pub mod channel;
pub mod conn;
pub mod identity;
pub mod peers;
pub mod proto;
pub mod receive;
pub mod sync;

verus! {

/// Self-check: crypto and audit are linked.
pub fn self_check() -> (ok: bool)
    ensures
        ok,
{
    crate::crypto::self_check() && crate::audit::self_check()
}

} // verus!
