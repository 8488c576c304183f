//! The responder's side of a connection, as a state machine: after the
//! handshake the peer's hello decides admission (a pairing registers the
//! peer, otherwise only registered devices are served), then each message
//! maps to one action.  The host performs the actions (I/O, vault work) and
//! feeds back what it learnt (hello, signature checks) as events.
use vstd::prelude::*;

use crate::p2p::sync::DestroyDecision;

verus! {

/// Where a responder connection stands.
#[derive(PartialEq, Eq, Structural, Clone, Copy, Debug)]
pub enum ConnState {
    /// Handshake done, hello not yet checked; `pairing` when the handshake
    /// used the pending invite.
    AwaitHello { pairing: bool },
    /// The peer is admitted; messages are served.
    Serving,
    /// The connection is over.
    Closed,
}

/// What the host observed on the connection.
#[derive(PartialEq, Eq, Structural, Clone, Copy, Debug)]
pub enum ConnEvent {
    /// The peer's hello verified; `registered`: its key is in the peer table.
    Hello { registered: bool },
    /// The hello did not verify, or reading failed.
    Failed,
    PairReq,
    SyncReq,
    SendFileBegin,
    PullFile,
    /// A delete order, with whether its signature verifies under the peer's key.
    DeleteOrder { sig_ok: bool },
    VcMerge,
    /// A destroy command, with the decision on it.
    Destroy { decision: DestroyDecision },
    /// The peer reported an error.
    PeerError,
    /// Any other message.
    Unexpected,
}

/// What the host does next.
#[derive(PartialEq, Eq, Structural, Clone, Copy, Debug)]
pub enum ConnAction {
    /// Add the peer to the peer table (pairing), then serve.
    RegisterPeer,
    /// Serve the admitted peer.
    Proceed,
    /// Tell the peer it is not registered and close.
    RejectUnregistered,
    /// Answer a pairing request.
    SendPairAccept,
    /// Run the responding side of a sync.
    RespondSync,
    /// Receive a pushed file.
    ReceivePush,
    /// Send the requested file.
    SendFile,
    /// Apply the (validly signed) delete order.
    ApplyDelete,
    /// Merge the peer's clock into a file's clock.
    MergeClock,
    /// Arm a wipe after the delay and acknowledge.
    ArmDestroy { delay_ms: u64 },
    /// Acknowledge and wipe now, then close.
    WipeNow,
    /// Tell the peer the destroy target is wrong and close.
    RejectDestroyTarget,
    /// Close without answering.
    Close,
}

/// The transition function: next state and action for an event.
pub open spec fn conn_next(st: ConnState, ev: ConnEvent) -> (ConnState, ConnAction) {
    match st {
        ConnState::Closed => (ConnState::Closed, ConnAction::Close),
        ConnState::AwaitHello { pairing } => match ev {
            ConnEvent::Hello { registered } => if pairing {
                (ConnState::Serving, ConnAction::RegisterPeer)
            } else if registered {
                (ConnState::Serving, ConnAction::Proceed)
            } else {
                (ConnState::Closed, ConnAction::RejectUnregistered)
            },
            _ => (ConnState::Closed, ConnAction::Close),
        },
        ConnState::Serving => match ev {
            ConnEvent::PairReq => (ConnState::Serving, ConnAction::SendPairAccept),
            ConnEvent::SyncReq => (ConnState::Serving, ConnAction::RespondSync),
            ConnEvent::SendFileBegin => (ConnState::Serving, ConnAction::ReceivePush),
            ConnEvent::PullFile => (ConnState::Serving, ConnAction::SendFile),
            ConnEvent::DeleteOrder { sig_ok } => if sig_ok {
                (ConnState::Serving, ConnAction::ApplyDelete)
            } else {
                (ConnState::Closed, ConnAction::Close)
            },
            ConnEvent::VcMerge => (ConnState::Serving, ConnAction::MergeClock),
            ConnEvent::Destroy { decision } => match decision {
                DestroyDecision::BadSignature => (ConnState::Closed, ConnAction::Close),
                DestroyDecision::TargetMismatch => (ConnState::Closed, ConnAction::RejectDestroyTarget),
                DestroyDecision::WipeNow => (ConnState::Closed, ConnAction::WipeNow),
                DestroyDecision::Arm { delay_ms } => (ConnState::Serving, ConnAction::ArmDestroy { delay_ms }),
            },
            _ => (ConnState::Closed, ConnAction::Close),
        },
    }
}

/// A fresh responder connection after the handshake; `pairing` when the
/// pending invite's PSK was used (the host then drops the invite: it is good
/// for one pairing).
pub fn conn_start(pairing: bool) -> (st: ConnState)
    ensures
        st == (ConnState::AwaitHello { pairing }),
{
    ConnState::AwaitHello { pairing }
}

/// One step of a responder connection.
pub fn conn_step(st: ConnState, ev: ConnEvent) -> (r: (ConnState, ConnAction))
    ensures
        r == conn_next(st, ev),
{
    match st {
        ConnState::Closed => (ConnState::Closed, ConnAction::Close),
        ConnState::AwaitHello { pairing } => match ev {
            ConnEvent::Hello { registered } => if pairing {
                (ConnState::Serving, ConnAction::RegisterPeer)
            } else if registered {
                (ConnState::Serving, ConnAction::Proceed)
            } else {
                (ConnState::Closed, ConnAction::RejectUnregistered)
            },
            _ => (ConnState::Closed, ConnAction::Close),
        },
        ConnState::Serving => match ev {
            ConnEvent::PairReq => (ConnState::Serving, ConnAction::SendPairAccept),
            ConnEvent::SyncReq => (ConnState::Serving, ConnAction::RespondSync),
            ConnEvent::SendFileBegin => (ConnState::Serving, ConnAction::ReceivePush),
            ConnEvent::PullFile => (ConnState::Serving, ConnAction::SendFile),
            ConnEvent::DeleteOrder { sig_ok } => if sig_ok {
                (ConnState::Serving, ConnAction::ApplyDelete)
            } else {
                (ConnState::Closed, ConnAction::Close)
            },
            ConnEvent::VcMerge => (ConnState::Serving, ConnAction::MergeClock),
            ConnEvent::Destroy { decision } => match decision {
                DestroyDecision::BadSignature => (ConnState::Closed, ConnAction::Close),
                DestroyDecision::TargetMismatch => (ConnState::Closed, ConnAction::RejectDestroyTarget),
                DestroyDecision::WipeNow => (ConnState::Closed, ConnAction::WipeNow),
                DestroyDecision::Arm { delay_ms } => (ConnState::Serving, ConnAction::ArmDestroy { delay_ms }),
            },
            _ => (ConnState::Closed, ConnAction::Close),
        },
    }
}

/// State after a sequence of events.
pub open spec fn conn_run(st: ConnState, evs: Seq<ConnEvent>) -> ConnState
    decreases evs.len(),
{
    if evs.len() == 0 {
        st
    } else {
        conn_next(conn_run(st, evs.drop_last()), evs.last()).0
    }
}

/// Admission: a connection that did not pair serves nothing for a device
/// that is not registered, and nothing at all before a verified hello; a
/// closed connection stays closed; a delete order whose signature does not
/// verify is never applied.
pub proof fn only_admitted_peers_are_served(pairing: bool, ev: ConnEvent, evs: Seq<ConnEvent>)
    ensures
        !pairing ==> conn_next(ConnState::AwaitHello { pairing }, ConnEvent::Hello { registered: false }) == (
        ConnState::Closed,
        ConnAction::RejectUnregistered,
        ),
        !(ev is Hello) ==> conn_next(ConnState::AwaitHello { pairing }, ev).0 == ConnState::Closed,
        conn_run(ConnState::Closed, evs) == ConnState::Closed,
        forall|s: ConnState|
            #![trigger conn_next(s, ConnEvent::DeleteOrder { sig_ok: false })]
            conn_next(s, ConnEvent::DeleteOrder { sig_ok: false }).1 != ConnAction::ApplyDelete,
    decreases evs.len(),
{
    if evs.len() > 0 {
        only_admitted_peers_are_served(pairing, ev, evs.drop_last());
    }
}

/// An admitted connection serves every request and stays open: a pairing
/// request is answered, a sync request runs the responding side of a sync, a
/// push is received, a pull is answered with the file, a clock is merged, a
/// validly signed delete order is applied; and each of these actions comes
/// from exactly that request on an admitted connection, never from another
/// state or event.
pub proof fn admitted_requests_are_served(st: ConnState, ev: ConnEvent)
    ensures
        conn_next(st, ev).1 == ConnAction::RespondSync <==> (st == ConnState::Serving && ev == ConnEvent::SyncReq),
        conn_next(st, ev).1 == ConnAction::SendPairAccept <==> (st == ConnState::Serving && ev == ConnEvent::PairReq),
        conn_next(st, ev).1 == ConnAction::ReceivePush <==> (st == ConnState::Serving && ev
            == ConnEvent::SendFileBegin),
        conn_next(st, ev).1 == ConnAction::SendFile <==> (st == ConnState::Serving && ev == ConnEvent::PullFile),
        conn_next(st, ev).1 == ConnAction::MergeClock <==> (st == ConnState::Serving && ev == ConnEvent::VcMerge),
        conn_next(st, ev).1 == ConnAction::ApplyDelete <==> (st == ConnState::Serving && ev == (ConnEvent::DeleteOrder {
            sig_ok: true,
        })),
        st == ConnState::Serving && (ev == ConnEvent::SyncReq || ev == ConnEvent::PairReq || ev
            == ConnEvent::SendFileBegin || ev == ConnEvent::PullFile || ev == ConnEvent::VcMerge || ev == (
        ConnEvent::DeleteOrder { sig_ok: true })) ==> conn_next(st, ev).0 == ConnState::Serving,
        forall|d: u64|
            #![trigger conn_next(ConnState::Serving, ConnEvent::Destroy { decision: DestroyDecision::Arm { delay_ms: d } })]
            conn_next(ConnState::Serving, ConnEvent::Destroy { decision: DestroyDecision::Arm { delay_ms: d } }) == (
            ConnState::Serving,
            ConnAction::ArmDestroy { delay_ms: d },
            ),
{
}

/// Admission and destroy commands: a hello on a pairing connection
/// registers the peer, a registered device's hello is served, an
/// unregistered one is turned away; only a hello is accepted before
/// admission. A destroy command is armed with its delay, carried out at once,
/// refused for a wrong target, or dropped for a bad signature, exactly as
/// decided, and only an armed one keeps the connection open.
pub proof fn admission_and_destroy(st: ConnState, ev: ConnEvent)
    ensures
        conn_next(st, ev).1 == ConnAction::RegisterPeer <==> (st == (ConnState::AwaitHello { pairing: true })
            && ev is Hello),
        conn_next(st, ev).1 == ConnAction::Proceed <==> (st == (ConnState::AwaitHello { pairing: false }) && ev
            == (ConnEvent::Hello { registered: true })),
        conn_next(st, ev).1 == ConnAction::RejectUnregistered <==> (st == (ConnState::AwaitHello {
            pairing: false,
        }) && ev == (ConnEvent::Hello { registered: false })),
        (st is AwaitHello && ev is Hello) ==> (conn_next(st, ev).0 == ConnState::Serving <==> conn_next(st, ev).1
            != ConnAction::RejectUnregistered),
        conn_next(st, ev).1 == ConnAction::WipeNow <==> (st == ConnState::Serving && ev == (ConnEvent::Destroy {
            decision: DestroyDecision::WipeNow,
        })),
        conn_next(st, ev).1 == ConnAction::RejectDestroyTarget <==> (st == ConnState::Serving && ev == (
        ConnEvent::Destroy { decision: DestroyDecision::TargetMismatch })),
        conn_next(st, ev).1 is ArmDestroy <==> (st == ConnState::Serving && ev is Destroy && ev->decision is Arm),
        conn_next(st, ev).1 is ArmDestroy ==> ev == (ConnEvent::Destroy {
            decision: DestroyDecision::Arm { delay_ms: conn_next(st, ev).1->delay_ms },
        }),
        st == ConnState::Serving && ev is Destroy ==> (conn_next(st, ev).0 == ConnState::Serving <==> ev->decision
            is Arm),
        st == ConnState::Serving && (ev == ConnEvent::PeerError || ev == ConnEvent::Unexpected || ev
            == ConnEvent::Failed || ev is Hello) ==> conn_next(st, ev) == (ConnState::Closed, ConnAction::Close),
{
}

/// In the sync phase each request gets the reply that serves it, and only
/// that request does: a push is received, a pull is answered with the file,
/// a clock is merged, a delete order signed by a registered device is
/// applied, the end of the sync finishes it; all of them but the end keep
/// the sync going.
pub proof fn sync_requests_are_served(ev: SyncEvent)
    ensures
        sync_next(ev) == SyncReply::ReceivePush <==> ev == SyncEvent::SendFileBegin,
        sync_next(ev) == SyncReply::SendFile <==> ev == SyncEvent::PullFile,
        sync_next(ev) == SyncReply::MergeClock <==> ev == SyncEvent::VcMerge,
        sync_next(ev) == SyncReply::ApplyDelete <==> ev == (SyncEvent::DeleteOrder { signed: true }),
        sync_next(ev) == SyncReply::Done <==> ev == SyncEvent::SyncDone,
        sync_next(ev) == SyncReply::RejectDeleteSignature <==> ev == (SyncEvent::DeleteOrder { signed: false }),
        sync_next(ev) == SyncReply::StopOnPeerError <==> ev == SyncEvent::PeerError,
        sync_next(ev) == SyncReply::RejectUnexpected <==> ev == SyncEvent::Unexpected,
{
}

/// A message during the responding side of a sync, as the host saw it.
#[derive(PartialEq, Eq, Structural, Clone, Copy, Debug)]
pub enum SyncEvent {
    SendFileBegin,
    PullFile,
    VcMerge,
    /// A delete order, with whether a registered device's key verifies its
    /// signature.
    DeleteOrder { signed: bool },
    SyncDone,
    PeerError,
    Unexpected,
}

/// What the responder does with a sync-phase message.
#[derive(PartialEq, Eq, Structural, Clone, Copy, Debug)]
pub enum SyncReply {
    ReceivePush,
    SendFile,
    MergeClock,
    ApplyDelete,
    /// The initiator is done: the sync succeeded.
    Done,
    /// Stop with "delete order signature invalid".
    RejectDeleteSignature,
    /// Stop with the peer's error.
    StopOnPeerError,
    /// Stop with "unexpected message in sync phase".
    RejectUnexpected,
}

/// The responder's sync-phase decision.
pub open spec fn sync_next(ev: SyncEvent) -> SyncReply {
    match ev {
        SyncEvent::SendFileBegin => SyncReply::ReceivePush,
        SyncEvent::PullFile => SyncReply::SendFile,
        SyncEvent::VcMerge => SyncReply::MergeClock,
        SyncEvent::DeleteOrder { signed } => if signed {
            SyncReply::ApplyDelete
        } else {
            SyncReply::RejectDeleteSignature
        },
        SyncEvent::SyncDone => SyncReply::Done,
        SyncEvent::PeerError => SyncReply::StopOnPeerError,
        SyncEvent::Unexpected => SyncReply::RejectUnexpected,
    }
}

/// One sync-phase message of the responding side.
pub fn sync_step(ev: SyncEvent) -> (a: SyncReply)
    ensures
        a == sync_next(ev),
{
    match ev {
        SyncEvent::SendFileBegin => SyncReply::ReceivePush,
        SyncEvent::PullFile => SyncReply::SendFile,
        SyncEvent::VcMerge => SyncReply::MergeClock,
        SyncEvent::DeleteOrder { signed } => if signed {
            SyncReply::ApplyDelete
        } else {
            SyncReply::RejectDeleteSignature
        },
        SyncEvent::SyncDone => SyncReply::Done,
        SyncEvent::PeerError => SyncReply::StopOnPeerError,
        SyncEvent::Unexpected => SyncReply::RejectUnexpected,
    }
}

/// Whether the sync goes on after an action.
pub fn sync_continues(a: SyncReply) -> (b: bool)
    ensures
        b <==> (a == SyncReply::ReceivePush || a == SyncReply::SendFile || a == SyncReply::MergeClock
            || a == SyncReply::ApplyDelete),
{
    match a {
        SyncReply::ReceivePush | SyncReply::SendFile | SyncReply::MergeClock | SyncReply::ApplyDelete => true,
        _ => false,
    }
}

/// The error a stopping action reports, when it is the library's own.
pub fn sync_refusal(a: SyncReply) -> (r: Option<&'static str>)
    ensures
        a == SyncReply::RejectDeleteSignature ==> (r matches Some(m) && m@ == "delete order signature invalid"@),
        a == SyncReply::RejectUnexpected ==> (r matches Some(m) && m@ == "unexpected message in sync phase"@),
        a != SyncReply::RejectDeleteSignature && a != SyncReply::RejectUnexpected ==> r is None,
{
    match a {
        SyncReply::RejectDeleteSignature => Some("delete order signature invalid"),
        SyncReply::RejectUnexpected => Some("unexpected message in sync phase"),
        _ => None,
    }
}

} // verus!
