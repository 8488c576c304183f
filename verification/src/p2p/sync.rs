//! Sync decisions. For each file id known to either side the planner picks
//! one action with a fixed priority: identical content only merges clocks; a
//! dominating clock wins; concurrent edits keep the newer modification and
//! the loser keeps a conflict copy; a delete wins over a concurrent edit.
//! Around that: which blocks a receiver still needs, the bookkeeping of
//! received blocks, the protection window for deletes, remote-destroy
//! commands, hello verification and invites. The host performs the I/O.
use vstd::prelude::*;

use crate::crypto::aead::{aead_decrypt, aead_encrypt, spec_aead_blob, spec_aead_open_blob};
use crate::crypto::hex::{hex_decode, spec_hex_decode, spec_hex_encode};
use crate::crypto::random::{random_nonce, to_array_32};
use crate::crypto::KEY_LEN;
use crate::idmap::IdMap;
use crate::p2p::channel::{psk_from_code, spec_psk, spec_subkey, static_matches, subkey};
use crate::p2p::identity::{spec_device_id, spec_verify_hex, Identity};
use crate::p2p::proto::{hello_sign_body, spec_hello_body, ChunkRef, ManifestItem};
use crate::vault::index::ids_increasing;
use crate::vclock::{dominance_asymmetric, dominance_irreflexive, dominates, spec_dominates, vc_equal};

verus! {

/// Deletes of files modified this recently keep an encrypted copy (24 h).
pub const PROTECT_WINDOW_MS: u64 = 86400000;

/// Lifetime of a pairing invite (10 min).
pub const INVITE_TTL_MS: u64 = 600000;

/// Events kept in the engine's log.
pub const MAX_EVENTS: usize = 100;

/// What to do about one file id.
#[derive(PartialEq, Eq, Structural, Clone, Copy, Debug)]
pub enum SyncAction {
    Skip,
    /// Same content, different clocks: merge clocks on both sides.
    MergeVc,
    /// Send our version (`overwrite`: the peer keeps a conflict copy first).
    Push { overwrite: bool },
    /// Fetch the peer's version (`overwrite`: we keep a conflict copy first).
    Pull { overwrite: bool },
    /// The peer's tombstone dominates: delete here.
    DeleteLocal,
    /// Concurrent delete and edit: delete here, keeping a copy when recent.
    DeleteLocalProtected,
    /// Our tombstone wins: send a signed delete order.
    SendDeleteOrder,
}

pub open spec fn live(m: ManifestItem) -> bool {
    m.deleted_ms is None
}

/// The decision table for one id.
pub open spec fn spec_plan(a: Option<ManifestItem>, b: Option<ManifestItem>) -> SyncAction {
    match (a, b) {
        (Some(fa), Some(fb)) => if live(fa) && live(fb) {
            if fa.file_sha@.len() > 0 && fa.file_sha@ == fb.file_sha@ {
                if fa.vc.view() != fb.vc.view() {
                    SyncAction::MergeVc
                } else {
                    SyncAction::Skip
                }
            } else if spec_dominates(fa.vc.view(), fb.vc.view()) {
                SyncAction::Push { overwrite: false }
            } else if spec_dominates(fb.vc.view(), fa.vc.view()) {
                SyncAction::Pull { overwrite: false }
            } else if fa.vc.view() != fb.vc.view() {
                if fa.modified_ms >= fb.modified_ms {
                    SyncAction::Push { overwrite: true }
                } else {
                    SyncAction::Pull { overwrite: true }
                }
            } else {
                SyncAction::Skip
            }
        } else if live(fa) {
            if spec_dominates(fb.vc.view(), fa.vc.view()) {
                SyncAction::DeleteLocal
            } else if spec_dominates(fa.vc.view(), fb.vc.view()) {
                SyncAction::Push { overwrite: false }
            } else {
                SyncAction::DeleteLocalProtected
            }
        } else if live(fb) {
            if spec_dominates(fa.vc.view(), fb.vc.view()) || fa.vc.view() != fb.vc.view() {
                SyncAction::SendDeleteOrder
            } else {
                SyncAction::Pull { overwrite: false }
            }
        } else {
            SyncAction::Skip
        },
        (Some(fa), None) => if live(fa) {
            SyncAction::Push { overwrite: false }
        } else {
            SyncAction::Skip
        },
        (None, Some(fb)) => if live(fb) {
            SyncAction::Pull { overwrite: false }
        } else {
            SyncAction::Skip
        },
        (None, None) => SyncAction::Skip,
    }
}

/// The plan never lets a causally older version replace a newer one: when
/// our clock dominates the peer's we never fetch or delete here, and when the
/// peer's dominates ours we never send ours.
pub proof fn plan_respects_causality(a: ManifestItem, b: ManifestItem)
    ensures
        spec_dominates(a.vc.view(), b.vc.view()) ==> !(spec_plan(Some(a), Some(b)) is Pull)
            && spec_plan(Some(a), Some(b)) != SyncAction::DeleteLocal && spec_plan(Some(a), Some(b))
            != SyncAction::DeleteLocalProtected,
        spec_dominates(b.vc.view(), a.vc.view()) ==> !(spec_plan(Some(a), Some(b)) is Push),
{
    dominance_asymmetric(a.vc.view(), b.vc.view());
    dominance_irreflexive(a.vc.view());
}

/// The causally newer version travels: against a tombstone, a live file
/// whose clock dominates the tombstone's is pushed to the peer (restoring it
/// there), and one the tombstone dominates is deleted here; between two live
/// files with different content, the dominating side's version is sent or
/// fetched without a conflict copy, and concurrent edits keep the newer
/// modification with a conflict copy on the other side.  A file only one
/// side has is copied to the other side when live.
pub proof fn newer_version_propagates(a: ManifestItem, b: ManifestItem)
    ensures
        live(a) && !live(b) && spec_dominates(a.vc.view(), b.vc.view()) ==> spec_plan(Some(a), Some(b))
            == (SyncAction::Push { overwrite: false }),
        live(a) && !live(b) && spec_dominates(b.vc.view(), a.vc.view()) ==> spec_plan(Some(a), Some(b))
            == SyncAction::DeleteLocal,
        live(a) && live(b) && !(a.file_sha@.len() > 0 && a.file_sha@ == b.file_sha@) && spec_dominates(
            a.vc.view(),
            b.vc.view(),
        ) ==> spec_plan(Some(a), Some(b)) == (SyncAction::Push { overwrite: false }),
        live(a) && live(b) && !(a.file_sha@.len() > 0 && a.file_sha@ == b.file_sha@) && spec_dominates(
            b.vc.view(),
            a.vc.view(),
        ) ==> spec_plan(Some(a), Some(b)) == (SyncAction::Pull { overwrite: false }),
        live(a) && live(b) && !(a.file_sha@.len() > 0 && a.file_sha@ == b.file_sha@) && !spec_dominates(
            a.vc.view(),
            b.vc.view(),
        ) && !spec_dominates(b.vc.view(), a.vc.view()) && a.vc.view() != b.vc.view() ==> spec_plan(
            Some(a),
            Some(b),
        ) == (if a.modified_ms >= b.modified_ms {
            SyncAction::Push { overwrite: true }
        } else {
            SyncAction::Pull { overwrite: true }
        }),
        spec_plan(Some(a), None) == (if live(a) {
            SyncAction::Push { overwrite: false }
        } else {
            SyncAction::Skip
        }),
        spec_plan(None, Some(b)) == (if live(b) {
            SyncAction::Pull { overwrite: false }
        } else {
            SyncAction::Skip
        }),
{
    dominance_asymmetric(a.vc.view(), b.vc.view());
}

/// A hello is accepted exactly when its signature verifies under the claimed
/// key over the handshake hash and X25519 key, the claimed X25519 key is the
/// channel's static key, and the device id is the one of the claimed key; an
/// accepted hello binds the peer's identity to the channel it arrived on.
pub proof fn hello_accepted_iff_bound(
    hh: Seq<u8>,
    remote_static: Seq<u8>,
    device_id: Seq<char>,
    pub_hex: Seq<char>,
    x25519_hex: Seq<char>,
    sig: Seq<char>,
)
    ensures
        spec_hello_refusal(hh, remote_static, device_id, pub_hex, x25519_hex, sig) is None <==> ({
            &&& spec_verify_hex(pub_hex, spec_hello_body(hh, x25519_hex), sig)
            &&& spec_hex_decode(x25519_hex) == Some(remote_static)
            &&& spec_hex_decode(pub_hex) is Some
            &&& spec_device_id(spec_hex_decode(pub_hex)->0) == device_id
        }),
{
}

/// Same content only merges clocks (or does nothing when they agree); our
/// tombstone against the peer's live file sends a delete order unless the
/// clocks are equal, when the peer's file is fetched back; two tombstones
/// need nothing.
pub proof fn content_and_tombstone_cases(a: ManifestItem, b: ManifestItem)
    ensures
        live(a) && live(b) && a.file_sha@.len() > 0 && a.file_sha@ == b.file_sha@ ==> spec_plan(Some(a), Some(b))
            == (if a.vc.view() != b.vc.view() {
            SyncAction::MergeVc
        } else {
            SyncAction::Skip
        }),
        live(a) && live(b) && a.vc.view() == b.vc.view() ==> (spec_plan(Some(a), Some(b)) == SyncAction::Skip),
        !live(a) && live(b) ==> spec_plan(Some(a), Some(b)) == (if a.vc.view() == b.vc.view() {
            SyncAction::Pull { overwrite: false }
        } else {
            SyncAction::SendDeleteOrder
        }),
        !live(a) && !live(b) ==> spec_plan(Some(a), Some(b)) == SyncAction::Skip,
        spec_plan(None, None) == SyncAction::Skip,
{
    dominance_irreflexive(a.vc.view());
}

/// Every action has its source: a push sends a live local file, a pull
/// fetches a live peer file, a local delete removes a live local file in
/// favour of the peer's tombstone, and a delete order carries our tombstone
/// against the peer's live file.
pub proof fn actions_have_live_sources(a: Option<ManifestItem>, b: Option<ManifestItem>)
    ensures
        spec_plan(a, b) is Push ==> (a matches Some(x) && live(x)),
        spec_plan(a, b) is Pull ==> (b matches Some(y) && live(y)),
        spec_plan(a, b) == SyncAction::DeleteLocal || spec_plan(a, b) == SyncAction::DeleteLocalProtected ==> (
        a is Some && b is Some && live(a->0) && !live(b->0)),
        spec_plan(a, b) == SyncAction::SendDeleteOrder ==> (a is Some && b is Some && !live(a->0) && live(b->0)),
        spec_plan(a, b) == SyncAction::MergeVc ==> (a is Some && b is Some && live(a->0) && live(b->0)
            && a->0.file_sha@ == b->0.file_sha@ && a->0.vc.view() != b->0.vc.view()),
{
}

/// Deletion wins over a concurrent edit: a live file against a tombstone
/// whose clock is concurrent with it is deleted on the side that has it
/// (with the protection copy) or by a delete order to the peer.
pub proof fn deletion_wins_over_concurrent_edit(a: ManifestItem, b: ManifestItem)
    requires
        !spec_dominates(a.vc.view(), b.vc.view()),
        !spec_dominates(b.vc.view(), a.vc.view()),
        a.vc.view() != b.vc.view(),
    ensures
        live(a) && !live(b) ==> spec_plan(Some(a), Some(b)) == SyncAction::DeleteLocalProtected,
        !live(a) && live(b) ==> spec_plan(Some(a), Some(b)) == SyncAction::SendDeleteOrder,
{
}

/// Clocks of the manifest items are well formed.
pub open spec fn items_wf(items: Seq<ManifestItem>) -> bool {
    forall|i: int| 0 <= i < items.len() ==> (#[trigger] items[i]).vc.wf()
}

/// Action for one id, given our entry and the peer's.
pub fn plan_action(a: Option<&ManifestItem>, b: Option<&ManifestItem>) -> (r: SyncAction)
    requires
        a matches Some(x) ==> x.vc.wf(),
        b matches Some(x) ==> x.vc.wf(),
    ensures
        r == spec_plan(
            match a {
                Some(x) => Some(*x),
                None => None,
            },
            match b {
                Some(x) => Some(*x),
                None => None,
            },
        ),
{
    match (a, b) {
        (Some(fa), Some(fb)) => {
            let la = fa.deleted_ms.is_none();
            let lb = fb.deleted_ms.is_none();
            if la && lb {
                if !fa.file_sha.as_str().is_empty() && fa.file_sha == fb.file_sha {
                    if !vc_equal(&fa.vc, &fb.vc) {
                        SyncAction::MergeVc
                    } else {
                        SyncAction::Skip
                    }
                } else {
                    if dominates(&fa.vc, &fb.vc) {
                        SyncAction::Push { overwrite: false }
                    } else if dominates(&fb.vc, &fa.vc) {
                        SyncAction::Pull { overwrite: false }
                    } else if !vc_equal(&fa.vc, &fb.vc) {
                        if fa.modified_ms >= fb.modified_ms {
                            SyncAction::Push { overwrite: true }
                        } else {
                            SyncAction::Pull { overwrite: true }
                        }
                    } else {
                        SyncAction::Skip
                    }
                }
            } else if la {
                if dominates(&fb.vc, &fa.vc) {
                    SyncAction::DeleteLocal
                } else if dominates(&fa.vc, &fb.vc) {
                    SyncAction::Push { overwrite: false }
                } else {
                    SyncAction::DeleteLocalProtected
                }
            } else if lb {
                if dominates(&fa.vc, &fb.vc) || !vc_equal(&fa.vc, &fb.vc) {
                    SyncAction::SendDeleteOrder
                } else {
                    SyncAction::Pull { overwrite: false }
                }
            } else {
                SyncAction::Skip
            }
        },
        (Some(fa), None) => {
            if fa.deleted_ms.is_none() {
                SyncAction::Push { overwrite: false }
            } else {
                SyncAction::Skip
            }
        },
        (None, Some(fb)) => {
            if fb.deleted_ms.is_none() {
                SyncAction::Pull { overwrite: false }
            } else {
                SyncAction::Skip
            }
        },
        (None, None) => SyncAction::Skip,
    }
}

/// Position of the entry a manifest gives for an id: the last one listing
/// it (a later entry replaces an earlier one).
pub open spec fn spec_find_item(items: Seq<ManifestItem>, id: u64) -> Option<int> {
    if exists|i: int| 0 <= i < items.len() && #[trigger] items[i].id == id {
        Some(
            choose|i: int|
                0 <= i < items.len() && #[trigger] items[i].id == id && forall|j: int|
                    i < j < items.len() ==> items[j].id != id,
        )
    } else {
        None
    }
}

/// Entry a manifest gives for an id.
pub open spec fn spec_item(items: Seq<ManifestItem>, id: u64) -> Option<ManifestItem> {
    match spec_find_item(items, id) {
        Some(i) => Some(items[i]),
        None => None,
    }
}

/// Finds the entry a manifest gives for an id (the last listing it).
pub fn find_item(items: &Vec<ManifestItem>, id: u64) -> (r: Option<usize>)
    ensures
        match r {
            Some(i) => i < items@.len() && items@[i as int].id == id && forall|j: int|
                i < j < items@.len() ==> items@[j].id != id,
            None => forall|j: int| 0 <= j < items@.len() ==> items@[j].id != id,
        },
        spec_item(items@, id) == (match r {
            Some(i) => Some(items@[i as int]),
            None => None,
        }),
{
    let mut i: usize = items.len();
    while i > 0
        invariant
            i <= items@.len(),
            forall|j: int| i <= j < items@.len() ==> items@[j].id != id,
        decreases i,
    {
        i = i - 1;
        if items[i].id == id {
            proof {
                let k = choose|k: int|
                    0 <= k < items@.len() && #[trigger] items@[k].id == id && forall|j: int|
                        k < j < items@.len() ==> items@[j].id != id;
                assert(items@[i as int].id == id);
                if k != i {
                    if k < i {
                        assert(items@[i as int].id != id);
                    } else {
                        assert(items@[k].id != id);
                    }
                }
            }
            return Some(i);
        }
    }
    None
}

/// Ids of both manifests, ascending, each once.
pub fn plan_ids(local: &Vec<ManifestItem>, peer: &Vec<ManifestItem>) -> (r: Vec<u64>)
    ensures
        ids_increasing(r@),
        forall|x: u64|
            #![trigger r@.contains(x)]
            r@.contains(x) <==> ((exists|i: int| 0 <= i < local@.len() && #[trigger] local@[i].id == x)
                || (exists|i: int| 0 <= i < peer@.len() && #[trigger] peer@[i].id == x)),
{
    let mut m: IdMap<bool> = IdMap::new();
    let mut i: usize = 0;
    while i < local.len()
        invariant
            m.wf(),
            i <= local@.len(),
            forall|x: u64|
                #[trigger] m@.dom().contains(x) <==> exists|j: int| 0 <= j < i && #[trigger] local@[j].id == x,
        decreases local@.len() - i,
    {
        m.insert(local[i].id, true);
        proof {
            assert forall|x: u64|
                #[trigger] m@.dom().contains(x) <==> exists|j: int| 0 <= j < i + 1 && #[trigger] local@[j].id == x by {
                if x == local@[i as int].id {
                    assert(local@[i as int].id == x);
                }
            }
        }
        i = i + 1;
    }
    let mut k: usize = 0;
    while k < peer.len()
        invariant
            m.wf(),
            k <= peer@.len(),
            forall|x: u64|
                #[trigger] m@.dom().contains(x) <==> ((exists|j: int| 0 <= j < local@.len() && #[trigger] local@[j].id == x)
                    || exists|j: int| 0 <= j < k && #[trigger] peer@[j].id == x),
        decreases peer@.len() - k,
    {
        m.insert(peer[k].id, true);
        proof {
            assert forall|x: u64|
                #[trigger] m@.dom().contains(x) <==> ((exists|j: int| 0 <= j < local@.len() && #[trigger] local@[j].id == x)
                    || exists|j: int| 0 <= j < k + 1 && #[trigger] peer@[j].id == x) by {
                if x == peer@[k as int].id {
                    assert(peer@[k as int].id == x);
                }
            }
        }
        k = k + 1;
    }
    let n = m.len();
    let mut r: Vec<u64> = Vec::new();
    let mut t: usize = 0;
    proof {
        m.lemma_dom();
    }
    while t < n
        invariant
            m.wf(),
            n == m.spec_entries().len(),
            t <= n,
            r@.len() == t,
            forall|q: int| 0 <= q < t ==> r@[q] == #[trigger] m.spec_entries()[q].0,
        decreases n - t,
    {
        r.push(m.entry_at(t).0);
        t = t + 1;
    }
    proof {
        assert forall|a: int, b: int| 0 <= a < b < r@.len() implies r@[a] < r@[b] by {
            assert(r@[a] == m.spec_entries()[a].0);
            assert(r@[b] == m.spec_entries()[b].0);
        }
        m.lemma_dom();
        assert forall|x: u64| #![trigger r@.contains(x)] r@.contains(x) <==> m@.dom().contains(x) by {
            if r@.contains(x) {
                let q = choose|q: int| 0 <= q < r@.len() && r@[q] == x;
                assert(m.spec_entries()[q].0 == x);
            }
            if m@.dom().contains(x) {
                let q = choose|q: int| 0 <= q < m.spec_entries().len() && m.spec_entries()[q].0 == x;
                assert(r@[q] == x);
            }
        }
    }
    r
}

/// The ids a plan covers, in order.
pub open spec fn plan_keys(r: Seq<(u64, SyncAction)>) -> Seq<u64> {
    r.map_values(|p: (u64, SyncAction)| p.0)
}

/// The plan: for each id of either manifest (ascending), its action.
pub fn plan_sync(local: &Vec<ManifestItem>, peer: &Vec<ManifestItem>) -> (r: Vec<(u64, SyncAction)>)
    requires
        items_wf(local@),
        items_wf(peer@),
    ensures
        ids_increasing(plan_keys(r@)),
        forall|x: u64|
            #![trigger plan_keys(r@).contains(x)]
            plan_keys(r@).contains(x) <==> (spec_item(local@, x) is Some || spec_item(peer@, x) is Some),
        forall|q: int|
            0 <= q < r@.len() ==> (#[trigger] r@[q]).1 == spec_plan(
                spec_item(local@, r@[q].0),
                spec_item(peer@, r@[q].0),
            ),
{
    let ids = plan_ids(local, peer);
    let mut r: Vec<(u64, SyncAction)> = Vec::new();
    let mut k: usize = 0;
    while k < ids.len()
        invariant
            items_wf(local@),
            items_wf(peer@),
            k <= ids@.len(),
            r@.len() == k,
            forall|q: int| 0 <= q < k ==> (#[trigger] r@[q]).0 == ids@[q],
            forall|q: int|
                0 <= q < k ==> (#[trigger] r@[q]).1 == spec_plan(
                    spec_item(local@, r@[q].0),
                    spec_item(peer@, r@[q].0),
                ),
        decreases ids@.len() - k,
    {
        let id = ids[k];
        let la = find_item(local, id);
        let pb = find_item(peer, id);
        let a = match la {
            Some(i) => Some(&local[i]),
            None => None,
        };
        let b = match pb {
            Some(i) => Some(&peer[i]),
            None => None,
        };
        let act = plan_action(a, b);
        r.push((id, act));
        k = k + 1;
    }
    proof {
        let ks = plan_keys(r@);
        assert(ks =~= ids@);
        assert forall|x: u64| #![trigger ks.contains(x)] ks.contains(x) <==> (spec_item(local@, x) is Some
            || spec_item(peer@, x) is Some) by {
            if exists|i: int| 0 <= i < local@.len() && #[trigger] local@[i].id == x {
                let i = choose|i: int| 0 <= i < local@.len() && #[trigger] local@[i].id == x;
                assert(spec_find_item(local@, x) is Some);
            }
            if exists|i: int| 0 <= i < peer@.len() && #[trigger] peer@[i].id == x {
                let i = choose|i: int| 0 <= i < peer@.len() && #[trigger] peer@[i].id == x;
                assert(spec_find_item(peer@, x) is Some);
            }
        }
    }
    r
}

/// Deleting a file modified within the protection window keeps a copy.
pub fn protect_copy_needed(modified_ms: u64, now_ms: u64) -> (b: bool)
    ensures
        b == (modified_ms + PROTECT_WINDOW_MS > now_ms),
{
    if now_ms < PROTECT_WINDOW_MS {
        true
    } else {
        modified_ms > now_ms - PROTECT_WINDOW_MS
    }
}

/// Outcome of a delete order from a peer.
#[derive(PartialEq, Eq, Structural, Clone, Copy, Debug)]
pub enum RemoteDelete {
    AlreadyAbsent,
    KeptConflictCopy,
    Deleted,
}

/// What a delete order from a peer does to a local file.
pub fn remote_delete_outcome(has_file: bool, modified_ms: u64, now_ms: u64) -> (r: RemoteDelete)
    ensures
        r == (if !has_file {
            RemoteDelete::AlreadyAbsent
        } else if modified_ms + PROTECT_WINDOW_MS > now_ms {
            RemoteDelete::KeptConflictCopy
        } else {
            RemoteDelete::Deleted
        }),
{
    if !has_file {
        RemoteDelete::AlreadyAbsent
    } else if protect_copy_needed(modified_ms, now_ms) {
        RemoteDelete::KeptConflictCopy
    } else {
        RemoteDelete::Deleted
    }
}

/// Answer to a remote-destroy command.
#[derive(PartialEq, Eq, Structural, Clone, Copy, Debug)]
pub enum DestroyDecision {
    /// The signature does not verify: drop the connection.
    BadSignature,
    /// Addressed to another device.
    TargetMismatch,
    /// Wipe now and acknowledge.
    WipeNow,
    /// Arm a wipe after the delay and acknowledge.
    Arm { delay_ms: u64 },
}

/// Decides on a destroy command whose signature check gave `sig_ok`.
pub fn destroy_decision(sig_ok: bool, target: &str, my_device_id: &str, delay_ms: u64) -> (r:
    DestroyDecision)
    ensures
        r == (if !sig_ok {
            DestroyDecision::BadSignature
        } else if target@ != my_device_id@ {
            DestroyDecision::TargetMismatch
        } else if delay_ms == 0 {
            DestroyDecision::WipeNow
        } else {
            DestroyDecision::Arm { delay_ms }
        }),
{
    if !sig_ok {
        return DestroyDecision::BadSignature;
    }
    let t = target.to_owned();
    let me = my_device_id.to_owned();
    if t != me {
        return DestroyDecision::TargetMismatch;
    }
    if delay_ms == 0 {
        DestroyDecision::WipeNow
    } else {
        DestroyDecision::Arm { delay_ms }
    }
}

/// The chunks of a pushed file whose ciphertext hash the receiver does not
/// already hold, by position.
pub fn blocks_needed(chunks: &Vec<ChunkRef>, have: &Vec<String>) -> (r: Vec<usize>)
    ensures
        forall|a: int, b: int| 0 <= a < b < r@.len() ==> r@[a] < r@[b],
        forall|i: usize|
            #![trigger r@.contains(i)]
            r@.contains(i) <==> (i < chunks@.len() && !exists|h: int|
                0 <= h < have@.len() && #[trigger] have@[h]@ == chunks@[i as int].hash@),
{
    let mut r: Vec<usize> = Vec::new();
    let mut i: usize = 0;
    while i < chunks.len()
        invariant
            i <= chunks@.len(),
            forall|a: int, b: int| 0 <= a < b < r@.len() ==> r@[a] < r@[b],
            forall|q: int| 0 <= q < r@.len() ==> r@[q] < i,
            forall|x: usize|
                #![trigger r@.contains(x)]
                r@.contains(x) <==> (x < i && !exists|h: int|
                    0 <= h < have@.len() && #[trigger] have@[h]@ == chunks@[x as int].hash@),
        decreases chunks@.len() - i,
    {
        let mut found = false;
        let mut h: usize = 0;
        while h < have.len()
            invariant
                i < chunks@.len(),
                h <= have@.len(),
                found == exists|t: int| 0 <= t < h && #[trigger] have@[t]@ == chunks@[i as int].hash@,
            decreases have@.len() - h,
        {
            if have[h] == chunks[i].hash {
                found = true;
            }
            h = h + 1;
        }
        let ghost r0 = r@;
        if !found {
            r.push(i);
        }
        proof {
            assert forall|x: usize|
                #![trigger r@.contains(x)]
                r@.contains(x) <==> (x < i + 1 && !exists|h: int|
                    0 <= h < have@.len() && #[trigger] have@[h]@ == chunks@[x as int].hash@) by {
                if r@.contains(x) && !r0.contains(x) {
                    assert(x == i);
                }
                if x < i + 1 && !exists|h: int|
                    0 <= h < have@.len() && #[trigger] have@[h]@ == chunks@[x as int].hash@ {
                    if x < i {
                        assert(r0.contains(x));
                        let q = choose|q: int| 0 <= q < r0.len() && r0[q] == x;
                        assert(r@[q] == x);
                    } else {
                        assert(r@[r@.len() - 1] == x);
                    }
                }
            }
        }
        i = i + 1;
    }
    r
}

/// Bookkeeping of the blocks a receiver asked for.
pub struct BlockTally {
    expect: Vec<usize>,
    got: Vec<usize>,
}

impl BlockTally {
    pub closed spec fn expected(&self) -> Seq<usize> {
        self.expect@
    }

    /// Blocks accepted so far, in arrival order.
    pub closed spec fn received(&self) -> Seq<usize> {
        self.got@
    }

    pub fn new(expect: Vec<usize>) -> (t: Self)
        ensures
            t.expected() == expect@,
            t.received() == Seq::<usize>::empty(),
    {
        BlockTally { expect, got: Vec::new() }
    }

    /// The blocks asked for.
    pub fn expected_vec(&self) -> (r: &Vec<usize>)
        ensures
            r@ == self.expected(),
    {
        &self.expect
    }

    /// Whether block `idx` was asked for and not seen yet.
    pub fn is_fresh(&self, idx: usize) -> (b: bool)
        ensures
            b == (self.expected().contains(idx) && !self.received().contains(idx)),
    {
        let mut in_expect = false;
        let mut i: usize = 0;
        while i < self.expect.len()
            invariant
                i <= self.expect@.len(),
                in_expect == exists|t: int| 0 <= t < i && self.expect@[t] == idx,
            decreases self.expect@.len() - i,
        {
            if self.expect[i] == idx {
                in_expect = true;
            }
            i = i + 1;
        }
        let mut seen = false;
        let mut j: usize = 0;
        while j < self.got.len()
            invariant
                j <= self.got@.len(),
                seen == exists|t: int| 0 <= t < j && self.got@[t] == idx,
            decreases self.got@.len() - j,
        {
            if self.got[j] == idx {
                seen = true;
            }
            j = j + 1;
        }
        in_expect && !seen
    }

    /// Accepts block `idx`: it must be one that was asked for and not seen.
    pub fn accept(&mut self, idx: usize) -> (r: Result<(), &'static str>)
        ensures
            final(self).expected() == old(self).expected(),
            r is Ok <==> (old(self).expected().contains(idx) && !old(self).received().contains(idx)),
            match r {
                Ok(_) => final(self).received() == old(self).received().push(idx),
                Err(e) => final(self).received() == old(self).received() && e@
                    == "unexpected or duplicate block"@,
            },
    {
        let mut in_expect = false;
        let mut i: usize = 0;
        while i < self.expect.len()
            invariant
                i <= self.expect@.len(),
                in_expect == exists|t: int| 0 <= t < i && self.expect@[t] == idx,
            decreases self.expect@.len() - i,
        {
            if self.expect[i] == idx {
                in_expect = true;
            }
            i = i + 1;
        }
        let mut seen = false;
        let mut j: usize = 0;
        while j < self.got.len()
            invariant
                j <= self.got@.len(),
                seen == exists|t: int| 0 <= t < j && self.got@[t] == idx,
            decreases self.got@.len() - j,
        {
            if self.got[j] == idx {
                seen = true;
            }
            j = j + 1;
        }
        if !in_expect || seen {
            return Err("unexpected or duplicate block");
        }
        self.got.push(idx);
        Ok(())
    }

    /// All chunks are present: the received blocks and those copied from
    /// the local container make up the file.
    pub fn complete(&self, copied: usize, total: usize) -> (r: Result<(), &'static str>)
        ensures
            r is Ok <==> self.received().len() + copied == total,
            r matches Err(e) ==> e@ == "missing blocks"@,
    {
        if copied > total || self.got.len() != total - copied {
            return Err("missing blocks");
        }
        Ok(())
    }
}

/// File key wrapped for the peer: AES-GCM under the channel's `fskey`
/// subkey, `nonce ‖ ciphertext ‖ tag`.
pub fn wrap_fskey(hh: &[u8; 32], fskey: &[u8; KEY_LEN]) -> (r: Result<Vec<u8>, &'static str>)
    ensures
        match r {
            Ok(b) => exists|n: Seq<u8>|
                n.len() == 12 && b@ == #[trigger] spec_aead_blob(spec_subkey(hh@, "fskey"@), n, fskey@, seq![])
                    && spec_aead_open_blob(spec_subkey(hh@, "fskey"@), b@, seq![]) == Some(fskey@)
                    && b@.len() == 12 + KEY_LEN + 16,
            Err(_) => false,
        },
{
    let sub = subkey(hh, "fskey");
    let nonce = random_nonce();
    aead_encrypt(&sub, &nonce, fskey)
}

/// Unwraps a file key received in a push (hex of `nonce ‖ ciphertext ‖ tag`).
pub fn unwrap_fskey(hh: &[u8; 32], wrapped_hex: &str) -> (r: Result<[u8; KEY_LEN], &'static str>)
    ensures
        match r {
            Ok(k) => spec_hex_decode(wrapped_hex@) matches Some(b) && spec_aead_open_blob(
                spec_subkey(hh@, "fskey"@),
                b,
                seq![],
            ) == Some(k@),
            Err(e) => match spec_hex_decode(wrapped_hex@) {
                None => e@ == "bad fskey wrap"@,
                Some(b) => match spec_aead_open_blob(spec_subkey(hh@, "fskey"@), b, seq![]) {
                    None => e@ == "fskey unwrap failed"@,
                    Some(k) => k.len() != KEY_LEN && e@ == "fskey len"@,
                },
            },
        },
        forall|n: Seq<u8>, k: Seq<u8>|
            n.len() == 12 && k.len() == KEY_LEN && spec_hex_decode(wrapped_hex@) == Some(
                #[trigger] spec_aead_blob(spec_subkey(hh@, "fskey"@), n, k, seq![]),
            ) && spec_aead_blob(spec_subkey(hh@, "fskey"@), n, k, seq![]).len() == 12 + KEY_LEN + 16
                ==> (r matches Ok(kk) && kk@ == k),
{
    let sub = subkey(hh, "fskey");
    let b = match hex_decode(wrapped_hex) {
        Some(b) => b,
        None => return Err("bad fskey wrap"),
    };
    let k = match aead_decrypt(&sub, b.as_slice()) {
        Some(k) => k,
        None => return Err("fskey unwrap failed"),
    };
    if k.len() != KEY_LEN {
        return Err("fskey len");
    }
    Ok(to_array_32(k.as_slice()))
}

/// A pairing invite: the PSK of its code and its expiry.
pub struct Invite {
    pub psk: [u8; 32],
    pub expires_ms: u64,
}

/// A new invite for a code, valid for ten minutes from `now_ms`.
pub fn new_invite(code: &str, now_ms: u64) -> (i: Invite)
    requires
        now_ms + INVITE_TTL_MS <= u64::MAX,
    ensures
        i.psk@ == spec_psk(code@),
        i.expires_ms == now_ms + INVITE_TTL_MS,
{
    Invite { psk: psk_from_code(code), expires_ms: now_ms + INVITE_TTL_MS }
}

/// The PSK an incoming handshake must use: that of an unexpired invite.
pub fn pending_psk(invite: &Option<Invite>, now_ms: u64) -> (r: Option<[u8; 32]>)
    ensures
        r == (match invite {
            Some(i) => if i.expires_ms > now_ms {
                Some(i.psk)
            } else {
                None
            },
            None => None,
        }),
{
    match invite {
        Some(i) => {
            if i.expires_ms > now_ms {
                Some(i.psk)
            } else {
                None
            }
        },
        None => None,
    }
}

/// Why a peer's hello is refused, if it is: the signature over handshake
/// hash ‖ X25519 key, then the channel's static key, then the device id.
pub open spec fn spec_hello_refusal(
    hh: Seq<u8>,
    remote_static: Seq<u8>,
    device_id: Seq<char>,
    pub_hex: Seq<char>,
    x25519_hex: Seq<char>,
    sig: Seq<char>,
) -> Option<Seq<char>> {
    if !spec_verify_hex(pub_hex, spec_hello_body(hh, x25519_hex), sig) {
        Some("hello signature invalid"@)
    } else if spec_hex_decode(x25519_hex) != Some(remote_static) {
        Some("channel key does not match claimed identity"@)
    } else if !(spec_hex_decode(pub_hex) matches Some(pk) && spec_device_id(pk) == device_id) {
        Some("device id mismatch"@)
    } else {
        None
    }
}

/// Verifies a peer's hello against the channel it arrived on.
pub fn verify_hello(
    hh: &[u8; 32],
    remote_static: &[u8; 32],
    device_id: &str,
    pub_hex: &str,
    x25519_hex: &str,
    sig: &str,
) -> (r: Result<(), &'static str>)
    ensures
        match r {
            Ok(_) => spec_hello_refusal(hh@, remote_static@, device_id@, pub_hex@, x25519_hex@, sig@) is None,
            Err(e) => spec_hello_refusal(hh@, remote_static@, device_id@, pub_hex@, x25519_hex@, sig@)
                == Some(e@),
        },
{
    let body = hello_sign_body(hh, x25519_hex);
    if !Identity::verify(pub_hex, body.as_slice(), sig) {
        return Err("hello signature invalid");
    }
    if !static_matches(remote_static, x25519_hex) {
        return Err("channel key does not match claimed identity");
    }
    match Identity::device_id_of(pub_hex) {
        Some(d) => {
            let claimed = device_id.to_owned();
            if d != claimed {
                return Err("device id mismatch");
            }
        },
        None => return Err("device id mismatch"),
    }
    Ok(())
}

/// Pause that keeps a transfer of `bytes` under `bps` bytes per second (no
/// pause when unlimited).
pub fn throttle_ms(bytes: u64, bps: u64) -> (ms: u64)
    requires
        bytes * 1000 <= u64::MAX,
    ensures
        ms == (if bps == 0 {
            0
        } else {
            (bytes * 1000) / (bps as int)
        }),
{
    if bps == 0 {
        0
    } else {
        (bytes * 1000) / bps
    }
}

/// Appends an event, dropping the oldest beyond the last hundred.
pub fn push_event(events: &mut Vec<String>, e: String)
    requires
        old(events)@.len() <= MAX_EVENTS,
    ensures
        final(events)@ == (if old(events)@.len() < MAX_EVENTS {
            old(events)@.push(e)
        } else {
            old(events)@.push(e).skip(1)
        }),
        final(events)@.len() <= MAX_EVENTS,
{
    events.push(e);
    if events.len() > MAX_EVENTS {
        events.remove(0);
        proof {
            assert(events@ =~= old(events)@.push(e).skip(1));
        }
    }
}

} // verus!
