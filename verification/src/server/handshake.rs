//! Whom the daemon lets in.
use vstd::prelude::*;
use crate::control::{control_said, ControlError};
use crate::peer::{refusal_sentence, PeerCredentials};

verus! {

/// How long a connected peer has to send its hello, in milliseconds.
pub const HANDSHAKE_TIMEOUT_MS: u64 = 10_000;

/// What a connection is for.
#[derive(Clone, Copy, Debug, PartialEq, Eq, Structural)]
pub enum ClientRole {
    /// Request and response.
    Control,
    /// Output one way and credit the other.
    Stream,
}

/// A client's first frame.
#[derive(Debug)]
pub struct HelloRequest {
    /// The protocol it speaks.
    pub version: u32,
    /// What the connection is for.
    pub role: ClientRole,
    /// The id it goes by.
    pub client_id: String,
}

/// The protocol versions a daemon serves.
#[derive(Clone, Copy, Debug, PartialEq, Eq, Structural)]
pub struct ProtocolRange {
    /// The oldest.
    pub min: u32,
    /// The newest.
    pub max: u32,
}

/// Why a hello is refused.
#[derive(Debug)]
pub enum RejectReason {
    /// The daemon does not speak that version.
    UnsupportedVersion {
        /// What it speaks.
        daemon: u32,
        /// What it serves.
        attachable: ProtocolRange,
    },
    /// The peer is not the account this daemon serves.
    Unauthorized {
        /// What the peer is told.
        detail: String,
    },
    /// The daemon is going away.
    ShuttingDown,
    /// The first frame was not a hello.
    Malformed {
        /// What was wrong with it.
        detail: String,
    },
    /// A reason this build cannot name; only a newer daemon answers with it.
    Unknown,
}

/// Why a hello is refused, by value.
pub enum RejectView {
    /// The daemon does not speak that version.
    UnsupportedVersion(u32, ProtocolRange),
    /// The peer is not the account this daemon serves.
    Unauthorized(Seq<char>),
    /// The daemon is going away.
    ShuttingDown,
    /// The first frame was not a hello.
    Malformed(Seq<char>),
    /// A reason this build cannot name.
    Unknown,
}

impl View for RejectReason {
    type V = RejectView;

    open spec fn view(&self) -> RejectView {
        match self {
            RejectReason::UnsupportedVersion { daemon, attachable } =>
                RejectView::UnsupportedVersion(*daemon, *attachable),
            RejectReason::Unauthorized { detail } => RejectView::Unauthorized(detail@),
            RejectReason::ShuttingDown => RejectView::ShuttingDown,
            RejectReason::Malformed { detail } => RejectView::Malformed(detail@),
            RejectReason::Unknown => RejectView::Unknown,
        }
    }
}

impl RejectReason {
    /// Whether backing off and reconnecting could succeed: only where the daemon is going
    /// away, because the next connection reaches a fresh one.
    pub fn retryable(&self) -> (out: bool)
        ensures
            out == (self@ is ShuttingDown),
    {
        match self {
            RejectReason::ShuttingDown => true,
            _ => false,
        }
    }
}

/// Why a hello of that version from that peer is refused, or `None` to accept it: first the
/// version, then the account, then a daemon going away. So only a client that the next daemon
/// would let in is told to try again.
pub open spec fn rejection(
    shutting_down: bool,
    version: u32,
    daemon: u32,
    attachable: ProtocolRange,
    peer: Option<PeerCredentials>,
) -> Option<RejectView> {
    if !(attachable.min <= version <= attachable.max) {
        Some(RejectView::UnsupportedVersion(daemon, attachable))
    } else if peer is None {
        Some(RejectView::Unauthorized("the kernel would not identify the connecting process"@))
    } else if !peer->0.authorized() {
        Some(RejectView::Unauthorized(refusal_sentence()))
    } else if shutting_down {
        Some(RejectView::ShuttingDown)
    } else {
        None
    }
}

/// Why a hello should be refused, or `None` to accept it.
///
/// A peer the kernel would not name is refused exactly as one from another account is.
pub fn reject_reason(
    shutting_down: bool,
    version: u32,
    daemon: u32,
    attachable: ProtocolRange,
    peer: Option<&PeerCredentials>,
) -> (out: Option<RejectReason>)
    ensures
        (match out {
            Some(reason) => Some(reason@),
            None => None,
        }) == rejection(
            shutting_down,
            version,
            daemon,
            attachable,
            match peer {
                Some(peer) => Some(*peer),
                None => None,
            },
        ),
{
    if !(attachable.min <= version && version <= attachable.max) {
        return Some(RejectReason::UnsupportedVersion { daemon, attachable });
    }
    match peer {
        Some(peer) => {
            if !peer.authorize() {
                Some(RejectReason::Unauthorized { detail: peer.refusal_detail() })
            } else if shutting_down {
                Some(RejectReason::ShuttingDown)
            } else {
                None
            }
        },
        None => Some(
            RejectReason::Unauthorized {
                detail: "the kernel would not identify the connecting process".to_owned(),
            },
        ),
    }
}

/// What waiting for a first frame came to.
#[derive(Debug)]
pub enum FirstFrame {
    /// A hello.
    Hello(HelloRequest),
    /// The peer left without a word.
    Closed,
    /// What it sent could not be read.
    Failed(ControlError),
    /// It said nothing in time.
    TimedOut,
}

/// What is to be done about a first frame.
#[derive(Debug)]
pub enum Vetted {
    /// Nothing: the connection is finished.
    Finished,
    /// Answer with a refusal; the connection is then finished.
    Refuse(RejectReason),
    /// Let it in.
    Accept(HelloRequest),
}

/// Decide what is to be done about a first frame.
///
/// A peer that leaves without a word is not answered. One that says nothing in time is refused
/// as one that was cut off part way is.
pub fn vet(
    first: FirstFrame,
    shutting_down: bool,
    daemon: u32,
    attachable: ProtocolRange,
    peer: Option<&PeerCredentials>,
) -> (out: Vetted)
    ensures
        match first {
            FirstFrame::Closed => out is Finished,
            FirstFrame::Failed(err) => out matches Vetted::Refuse(reason) && reason@
                == RejectView::Malformed(control_said(err)),
            FirstFrame::TimedOut => out matches Vetted::Refuse(reason) && reason@
                == RejectView::Malformed(control_said(ControlError::Truncated)),
            FirstFrame::Hello(hello) => match rejection(
                shutting_down,
                hello.version,
                daemon,
                attachable,
                match peer {
                    Some(peer) => Some(*peer),
                    None => None,
                },
            ) {
                None => out == Vetted::Accept(hello),
                Some(why) => out matches Vetted::Refuse(reason) && reason@ == why,
            },
        },
{
    match first {
        FirstFrame::Closed => Vetted::Finished,
        FirstFrame::Failed(err) => Vetted::Refuse(
            RejectReason::Malformed { detail: err.message() },
        ),
        FirstFrame::TimedOut => Vetted::Refuse(
            RejectReason::Malformed { detail: ControlError::Truncated.message() },
        ),
        FirstFrame::Hello(hello) => match reject_reason(
            shutting_down,
            hello.version,
            daemon,
            attachable,
            peer,
        ) {
            Some(reason) => Vetted::Refuse(reason),
            None => Vetted::Accept(hello),
        },
    }
}

/// Nobody is let in but a peer the kernel names as the daemon's own account, speaking a version
/// the daemon serves, while it is not going away.
pub proof fn law_only_this_account_is_let_in(
    shutting_down: bool,
    version: u32,
    daemon: u32,
    attachable: ProtocolRange,
    peer: Option<PeerCredentials>,
)
    ensures
        rejection(shutting_down, version, daemon, attachable, peer) is None <==> (!shutting_down
            && attachable.min <= version <= attachable.max && peer is Some
            && peer->0.authorized()),
{
}

/// A client is told to try again exactly where the next daemon would let it in, and any other
/// refusal is the one that daemon would give too.
pub proof fn law_a_retry_is_offered_only_where_it_helps(
    version: u32,
    daemon: u32,
    attachable: ProtocolRange,
    peer: Option<PeerCredentials>,
)
    ensures
        rejection(true, version, daemon, attachable, peer) == Some(RejectView::ShuttingDown)
            <==> rejection(false, version, daemon, attachable, peer) is None,
        rejection(true, version, daemon, attachable, peer) != Some(RejectView::ShuttingDown)
            ==> rejection(true, version, daemon, attachable, peer) == rejection(
            false,
            version,
            daemon,
            attachable,
            peer,
        ),
{
}

/// What a refused peer is told does not depend on who it is.
pub proof fn law_a_refusal_says_nothing_of_the_peer(
    shutting_down: bool,
    version: u32,
    daemon: u32,
    attachable: ProtocolRange,
    one: PeerCredentials,
    two: PeerCredentials,
)
    requires
        !one.authorized(),
        !two.authorized(),
    ensures
        rejection(shutting_down, version, daemon, attachable, Some(one)) == rejection(
            shutting_down,
            version,
            daemon,
            attachable,
            Some(two),
        ),
{
}

/// A peer that is not let in is told the first thing that stands against it: a version out of
/// range whatever the peer is, with what the daemon speaks and serves; then that it is not this
/// account; then that the daemon is going away. It is never told that its hello was malformed.
pub proof fn law_a_peer_is_told_why_it_is_not_let_in(
    shutting_down: bool,
    version: u32,
    daemon: u32,
    attachable: ProtocolRange,
    peer: Option<PeerCredentials>,
)
    ensures
        ({
            let said = rejection(shutting_down, version, daemon, attachable, peer);
            let served = version >= attachable.min && version <= attachable.max;
            let known = peer is Some && peer->0.authorized();
            &&& !served ==> said == Some(RejectView::UnsupportedVersion(daemon, attachable))
            &&& served && !known ==> said is Some && said->0 is Unauthorized
            &&& served && known && shutting_down ==> said == Some(RejectView::ShuttingDown)
            &&& served && known && !shutting_down ==> said is None
            &&& said is Some ==> !(said->0 is Malformed) && !(said->0 is Unknown)
        }),
{
}

/// A reason is seen as it is, with what it says.
pub proof fn law_a_reason_is_seen_as_it_is(reason: RejectReason)
    ensures
        reason matches RejectReason::UnsupportedVersion { daemon, attachable } ==> reason@
            == RejectView::UnsupportedVersion(daemon, attachable),
        reason matches RejectReason::Unauthorized { detail } ==> reason@
            == RejectView::Unauthorized(detail@),
        reason matches RejectReason::Malformed { detail } ==> reason@ == RejectView::Malformed(
            detail@,
        ),
        reason is ShuttingDown <==> reason@ is ShuttingDown,
        reason is Unknown <==> reason@ is Unknown,
{
}

} // verus!
