//! The long-lived runtime: what it holds, and what each verb does to it.
//!
//! A verb that needs outside work (a spawn, a write to a pty, a read of a grid) is answered in
//! two steps: [`Daemon::run`] says what is to be done, and [`finish`] turns what came of it
//! into the answer.
use std::collections::HashMap;
use vstd::prelude::*;
use crate::endpoint::{resolve_said, Endpoint, EndpointResolveError};
use crate::errors::{envelope, one, steps_of};
use crate::lease::{lease_said, DaemonIdentity, LeaseError};
use crate::peer::{ancestry, descent, CallerSession, PeerCredentials};
use crate::server::handshake::{ClientRole, HelloRequest};
use crate::server::receipts::{forgotten_from, is_for, stored_after, Receipts};
use crate::server::retire::{idle_since, retires, should_retire, Load, DEFAULT_IDLE_RETIRE_MS};
use crate::session::failure::{session_failure, SessionError};
use crate::session::registry::{
    leaders_of, lists, row_of, OwnedSession, SessionCreate, SessionCreated, SessionRegistry,
    SessionSummary,
};
use crate::session::verbs::{
    check_size, input_bytes, input_of, law_a_send_writes_its_text_whole,
    law_an_interrupt_goes_first_and_enter_last, lines_of, read, read_limit, ReadMode,
    TerminalReadResult, WaitFor, WaitOutcome,
};
use crate::stream::registry::{
    is_attached, is_bound, is_credited, is_detached, is_unbound, same_streams, AttachedStream,
    BoundStream, ConnectionKey, StreamRegistry,
};
use crate::text::views;
use crate::wire::{
    refusal, CreditFrame, CreditWindow, EnvelopeView, ErrorCode, ErrorEnvelope, Platform,
    SessionHandle, StreamId,
};

verus! {

/// Why the daemon could not start or keep serving.
#[derive(Debug)]
pub enum ServerError {
    /// The endpoint could not be resolved.
    Endpoint(EndpointResolveError),
    /// The endpoint could not be bound, or a connection could not be accepted.
    Transport(String),
    /// The adoption lease could not be written.
    Lease(LeaseError),
}

impl ServerError {
    /// What happened, in the words of what went wrong.
    pub fn message(&self) -> (out: String)
        ensures
            out@ == (match self {
                ServerError::Endpoint(err) => resolve_said(*err),
                ServerError::Transport(said) => said@,
                ServerError::Lease(err) => lease_said(*err),
            }),
    {
        match self {
            ServerError::Endpoint(err) => err.message(),
            ServerError::Transport(said) => said.clone(),
            ServerError::Lease(err) => err.message(),
        }
    }
}

/// What a daemon needs to know before it binds.
#[derive(Debug)]
pub struct DaemonConfig {
    /// Where to listen, and where the lease belongs.
    pub endpoint: Endpoint,
    /// The version this build came from, reported in the handshake.
    pub app_version: String,
    /// How long to stay up with no clients and no sessions, in milliseconds. `None` never
    /// retires.
    pub idle_retire_after: Option<u64>,
    /// The credit window every stream this daemon opens is given.
    pub credit_window: CreditWindow,
}

impl DaemonConfig {
    /// A configuration for `endpoint` with that version, that window, and the default idle
    /// grace.
    pub fn new(endpoint: Endpoint, app_version: String, credit_window: CreditWindow) -> (out:
        DaemonConfig)
        ensures
            out.endpoint == endpoint,
            out.app_version == app_version,
            out.idle_retire_after == Some(DEFAULT_IDLE_RETIRE_MS),
            out.credit_window == credit_window,
    {
        DaemonConfig {
            endpoint,
            app_version,
            idle_retire_after: Some(DEFAULT_IDLE_RETIRE_MS),
            credit_window,
        }
    }
}

/// A verb, as a client asks for it.
#[derive(Debug)]
pub enum RequestPayload {
    /// Start a session.
    SessionCreate(SessionCreate),
    /// List the sessions.
    SessionList,
    /// Close one.
    SessionClose {
        /// Which.
        handle: SessionHandle,
    },
    /// Read one's text.
    TerminalRead {
        /// Which.
        handle: SessionHandle,
        /// What of it.
        mode: ReadMode,
        /// From where.
        cursor: Option<u64>,
        /// At most how many lines.
        limit: Option<u32>,
    },
    /// Write to one's input.
    TerminalSend {
        /// Which.
        handle: SessionHandle,
        /// Whether to interrupt first.
        interrupt: bool,
        /// What to type.
        text: String,
        /// Whether to press enter after it.
        enter: bool,
    },
    /// Resize one.
    TerminalResize {
        /// Which.
        handle: SessionHandle,
        /// Columns.
        cols: u16,
        /// Rows.
        rows: u16,
    },
    /// Wait for one.
    TerminalWait {
        /// Which.
        handle: SessionHandle,
        /// For what.
        wait_for: WaitFor,
        /// How long at most, in milliseconds.
        timeout_ms: Option<u64>,
    },
    /// Route one's output to this client's stream connection.
    StreamAttach {
        /// Which.
        handle: SessionHandle,
    },
    /// Stop routing a stream.
    StreamDetach {
        /// Which.
        stream_id: StreamId,
    },
}

/// What a verb is answered.
#[derive(Debug)]
pub enum ResponsePayload {
    /// A session was started.
    SessionCreate(SessionCreated),
    /// The sessions.
    SessionList {
        /// Their rows.
        sessions: Vec<SessionSummary>,
    },
    /// A session was closed.
    SessionClose,
    /// A page of text.
    TerminalRead(TerminalReadResult),
    /// The input was written.
    TerminalSend,
    /// The terminal was resized.
    TerminalResize,
    /// The wait is over.
    TerminalWait {
        /// Which session.
        handle: SessionHandle,
        /// What it came to.
        outcome: WaitOutcome,
    },
    /// Output will be routed.
    StreamAttach {
        /// Which session's.
        handle: SessionHandle,
        /// Under which id.
        stream_id: StreamId,
    },
    /// Output is no longer routed.
    StreamDetach,
    /// The verb was refused.
    Error(ErrorEnvelope),
}

/// Outside work a verb needs before it can be answered.
#[derive(Debug)]
pub enum Work {
    /// Start a session.
    Spawn(SessionCreate),
    /// Tear down a session that has been forgotten.
    TearDown(OwnedSession),
    /// Read a grid.
    Read {
        /// Which session's.
        handle: SessionHandle,
        /// What of it.
        mode: ReadMode,
        /// From where.
        cursor: Option<u64>,
        /// At most how many lines.
        limit: usize,
    },
    /// Write to a pty.
    Write {
        /// Which session's.
        handle: SessionHandle,
        /// What.
        bytes: Vec<u8>,
    },
    /// Resize a pty and its grid.
    Resize {
        /// Which session's.
        handle: SessionHandle,
        /// Columns.
        cols: u16,
        /// Rows.
        rows: u16,
    },
    /// Wait for a session.
    Wait {
        /// Which.
        handle: SessionHandle,
        /// For what.
        wait_for: WaitFor,
        /// How long at most, in milliseconds.
        timeout_ms: Option<u64>,
    },
}

/// An attach that holds an id but has not written a byte to the stream connection yet.
///
/// The answer naming the id goes out first: nothing orders the two sockets, so the side that
/// can supply the order has to.
#[derive(Debug)]
pub struct PendingReplay {
    /// The session whose scrollback is owed to the client.
    pub handle: SessionHandle,
    /// The stream that was opened for it.
    pub stream: AttachedStream,
    /// The request whose answer names the stream.
    pub request: String,
}

/// What a verb comes to at first.
#[derive(Debug)]
pub enum Step {
    /// Its answer.
    Answer(ResponsePayload),
    /// Work to be done before it can be answered.
    Do(Work),
    /// Its answer, and a replay to start once that has gone out.
    Attached {
        /// The answer.
        answer: ResponsePayload,
        /// What is owed after it.
        pending: PendingReplay,
    },
}

/// What becomes of a request.
#[derive(Debug)]
pub enum Dispatched {
    /// It is a retry: the stored answer goes out again and nothing is done twice.
    Replay,
    /// It was run.
    Run(Step),
}

/// What came of outside work.
#[derive(Debug)]
pub enum Done {
    /// A session was started, or refused.
    Created(Result<SessionCreated, SessionError>),
    /// A session was torn down.
    TornDown,
    /// A grid was read.
    Read {
        /// What of it.
        mode: ReadMode,
        /// Its text.
        text: String,
        /// Where it stopped.
        next_cursor: u64,
        /// Where its log ends.
        log_end: u64,
    },
    /// A write was tried.
    Written(Result<(), String>),
    /// A resize was tried.
    Resized(Result<(), String>),
    /// A wait is over.
    Waited {
        /// Which session's.
        handle: SessionHandle,
        /// What it came to.
        outcome: WaitOutcome,
    },
    /// The work could not be run at all.
    NotRun(String),
}

/// What a failure the caller did nothing to cause answers with.
pub open spec fn internal_failure(detail: Seq<char>) -> EnvelopeView {
    EnvelopeView {
        retryable: true,
        ..refusal(
            ErrorCode::Internal,
            "the daemon failed while serving this verb: "@ + detail,
            steps_of(
                "retry the request"@,
                seq!["`nysia session list` will show whether the daemon is still serving"@],
            ),
        )
    }
}

/// The envelope for a failure the caller did nothing to cause.
pub fn internal(detail: &str) -> (out: ErrorEnvelope)
    ensures
        out@ == internal_failure(detail@),
{
    envelope(
        ErrorCode::Internal,
        "the daemon failed while serving this verb: ".to_owned().concat(detail),
        "retry the request",
        &one("`nysia session list` will show whether the daemon is still serving"),
    ).retryable(true)
}

/// What an attach answers to a client with no stream connection.
pub open spec fn no_stream_connection() -> EnvelopeView {
    EnvelopeView {
        retryable: true,
        ..refusal(
            ErrorCode::InvalidRequest,
            "this client has no stream connection to route output to"@,
            steps_of(
                "open a second connection with `role: \"stream\"` and the same `clientId`, then attach"@,
                seq![
                    "control and stream are separate connections so a terminal firehose cannot delay a session close"@,
                ],
            ),
        )
    }
}

/// What a frame that could not be read answers with, before the connection is closed.
pub open spec fn unreadable_frame(said: Seq<char>) -> EnvelopeView {
    refusal(
        ErrorCode::InvalidRequest,
        said,
        steps_of(
            "send one JSON request envelope per line"@,
            seq!["reconnect and send a `hello` before any verb"@],
        ),
    )
}

/// The envelope for a control frame that could not be read.
pub fn unreadable(said: String) -> (out: ErrorEnvelope)
    ensures
        out@ == unreadable_frame(said@),
{
    envelope(
        ErrorCode::InvalidRequest,
        said,
        "send one JSON request envelope per line",
        &one("reconnect and send a `hello` before any verb"),
    )
}

/// Whether an answer refuses a verb with that envelope.
pub open spec fn refuses(answer: ResponsePayload, with: EnvelopeView) -> bool {
    answer matches ResponsePayload::Error(envelope) && envelope@ == with
}

/// Turn what came of outside work into the answer to its verb.
pub fn finish(done: Done, platform: Platform) -> (out: ResponsePayload)
    ensures
        match done {
            Done::Created(Ok(created)) => out == ResponsePayload::SessionCreate(created),
            Done::Created(Err(err)) => refuses(out, session_failure(err, platform)),
            Done::TornDown => out is SessionClose,
            Done::Read { mode, text, next_cursor, log_end } => out
                matches ResponsePayload::TerminalRead(page) && views(page.lines@) == lines_of(
                text@,
            ) && page.cursor == next_cursor && page.mode == mode && page.truncated == (mode
                == ReadMode::Stream && next_cursor < log_end),
            Done::Written(Ok(_)) => out is TerminalSend,
            Done::Written(Err(said)) => refuses(
                out,
                session_failure(SessionError::Closing(said), platform),
            ),
            Done::Resized(Ok(_)) => out is TerminalResize,
            Done::Resized(Err(said)) => refuses(
                out,
                session_failure(SessionError::Closing(said), platform),
            ),
            Done::Waited { handle, outcome } => out == (ResponsePayload::TerminalWait {
                handle,
                outcome,
            }),
            Done::NotRun(said) => refuses(out, internal_failure(said@)),
        },
{
    match done {
        Done::Created(Ok(created)) => ResponsePayload::SessionCreate(created),
        Done::Created(Err(err)) => ResponsePayload::Error(err.into_envelope(platform)),
        Done::TornDown => ResponsePayload::SessionClose,
        Done::Read { mode, text, next_cursor, log_end } => ResponsePayload::TerminalRead(
            read(mode, text.as_str(), next_cursor, log_end),
        ),
        Done::Written(Ok(_)) => ResponsePayload::TerminalSend,
        Done::Written(Err(said)) => ResponsePayload::Error(
            SessionError::Closing(said).into_envelope(platform),
        ),
        Done::Resized(Ok(_)) => ResponsePayload::TerminalResize,
        Done::Resized(Err(said)) => ResponsePayload::Error(
            SessionError::Closing(said).into_envelope(platform),
        ),
        Done::Waited { handle, outcome } => ResponsePayload::TerminalWait { handle, outcome },
        Done::NotRun(said) => ResponsePayload::Error(internal(said.as_str())),
    }
}

/// The long-lived runtime.
#[derive(Debug)]
pub struct Daemon {
    /// Who it is.
    pub identity: DaemonIdentity,
    /// Where it listens.
    pub endpoint: Endpoint,
    /// The sessions it owns.
    pub sessions: SessionRegistry,
    /// The streams it is writing.
    pub streams: StreamRegistry,
    /// What it has answered to mutations.
    pub receipts: Receipts<ResponsePayload>,
    /// Clients connected.
    pub clients: usize,
    /// Verbs being served.
    pub in_flight: usize,
    /// Whether any client has ever been served.
    pub served_anyone: bool,
    /// Whether it is going away.
    pub shutting_down: bool,
    /// Since when it has been seen idle.
    pub idle_since: Option<u64>,
    /// How long it stays up with nothing to do; `None` never retires.
    pub idle_retire_after: Option<u64>,
    /// The platform it runs on.
    pub platform: Platform,
}

/// What the accept loop saw.
#[derive(Clone, Copy, Debug, PartialEq, Eq, Structural)]
pub enum Saw {
    /// A client connected.
    Connection,
    /// An accept failed.
    AcceptFailed,
    /// It is time to look whether anything is left to do.
    Tick,
    /// The process was interrupted.
    Interrupt,
}

/// What the accept loop does next.
#[derive(Clone, Copy, Debug, PartialEq, Eq, Structural)]
pub enum ServeNext {
    /// Serve the connection, and go on.
    Connect,
    /// Go on.
    Wait,
    /// Shut down.
    Stop,
}

/// What the daemon was asked to do but for its streams and its sessions stays as it was.
pub open spec fn same_runtime(before: Daemon, after: Daemon) -> bool {
    &&& after.identity == before.identity
    &&& after.endpoint == before.endpoint
    &&& after.clients == before.clients
    &&& after.in_flight == before.in_flight
    &&& after.served_anyone == before.served_anyone
    &&& after.shutting_down == before.shutting_down
    &&& after.idle_since == before.idle_since
    &&& after.idle_retire_after == before.idle_retire_after
    &&& after.platform == before.platform
}

impl Daemon {
    /// The invariant: every registry is well formed, and streams can be fed.
    pub open spec fn wf(&self) -> bool {
        &&& self.sessions.wf()
        &&& self.streams.wf()
        &&& self.streams.serves().chunk > 0
        &&& self.receipts.wf()
    }

    /// A daemon that has just bound its endpoint, holding nothing.
    ///
    /// `coherent` is the wire's own answer about the configured window; where it is not,
    /// `fallback` is served instead.
    pub fn bind(
        config: DaemonConfig,
        pid: u32,
        started_at_ms: u64,
        launch_nonce: String,
        coherent: bool,
        fallback: CreditWindow,
        platform: Platform,
    ) -> (out: Daemon)
        requires
            coherent ==> config.credit_window.chunk > 0,
            fallback.chunk > 0,
        ensures
            out.wf(),
            out.identity == (DaemonIdentity {
                pid,
                started_at_ms,
                launch_nonce,
                app_version: config.app_version,
            }),
            out.endpoint == config.endpoint,
            out.idle_retire_after == config.idle_retire_after,
            out.platform == platform,
            out.sessions.all().len() == 0,
            out.streams.serves() == (if coherent {
                config.credit_window
            } else {
                fallback
            }),
            out.streams.connection_count() == 0,
            out.receipts.all().len() == 0,
            out.clients == 0,
            out.in_flight == 0,
            !out.served_anyone,
            !out.shutting_down,
            out.idle_since is None,
    {
        Daemon {
            identity: DaemonIdentity {
                pid,
                started_at_ms,
                launch_nonce,
                app_version: config.app_version,
            },
            endpoint: config.endpoint,
            sessions: SessionRegistry::new(),
            streams: StreamRegistry::with_window(config.credit_window, coherent, fallback),
            receipts: Receipts::new(),
            clients: 0,
            in_flight: 0,
            served_anyone: false,
            shutting_down: false,
            idle_since: None,
            idle_retire_after: config.idle_retire_after,
            platform,
        }
    }

    /// Who this daemon is, as the handshake reports it.
    pub fn identity(&self) -> (out: &DaemonIdentity)
        ensures
            *out == self.identity,
    {
        &self.identity
    }

    /// Where this daemon listens.
    pub fn endpoint(&self) -> (out: &Endpoint)
        ensures
            *out == self.endpoint,
    {
        &self.endpoint
    }

    /// The sessions this daemon owns.
    pub fn sessions(&self) -> (out: &SessionRegistry)
        ensures
            *out == self.sessions,
    {
        &self.sessions
    }

    /// The streams this daemon is writing.
    pub fn streams(&self) -> (out: &StreamRegistry)
        ensures
            *out == self.streams,
    {
        &self.streams
    }

    /// What the daemon has on its hands.
    pub open spec fn load(&self) -> Load {
        Load {
            served_anyone: self.served_anyone,
            clients: self.clients,
            in_flight: self.in_flight,
            sessions: self.sessions.all().len() as usize,
        }
    }

    /// Look whether the daemon has been idle for the whole grace at `now`.
    pub fn should_retire(&mut self, now: u64) -> (out: bool)
        ensures
            out == retires(old(self).idle_since, old(self).idle_retire_after, old(self).load(), now),
            final(self).idle_since == idle_since(
                old(self).idle_since,
                old(self).idle_retire_after,
                old(self).load(),
                now,
            ),
            *final(self) == (Daemon { idle_since: final(self).idle_since, ..*old(self) }),
    {
        let load = Load {
            served_anyone: self.served_anyone,
            clients: self.clients,
            in_flight: self.in_flight,
            sessions: self.sessions.len(),
        };
        should_retire(&mut self.idle_since, self.idle_retire_after, load, now)
    }

    /// Decide what the accept loop does about what it saw at `now`.
    ///
    /// One failed accept is not a reason to stop: every live session would go with the
    /// listener.
    pub fn serve(&mut self, saw: Saw, now: u64) -> (out: ServeNext)
        ensures
            match saw {
                Saw::Connection => out is Connect && *final(self) == *old(self),
                Saw::AcceptFailed => out is Wait && *final(self) == *old(self),
                Saw::Interrupt => out is Stop && *final(self) == *old(self),
                Saw::Tick => {
                    &&& out == (if retires(
                        old(self).idle_since,
                        old(self).idle_retire_after,
                        old(self).load(),
                        now,
                    ) {
                        ServeNext::Stop
                    } else {
                        ServeNext::Wait
                    })
                    &&& *final(self) == (Daemon {
                        idle_since: idle_since(
                            old(self).idle_since,
                            old(self).idle_retire_after,
                            old(self).load(),
                            now,
                        ),
                        ..*old(self)
                    })
                },
            },
    {
        match saw {
            Saw::Connection => ServeNext::Connect,
            Saw::AcceptFailed => ServeNext::Wait,
            Saw::Interrupt => ServeNext::Stop,
            Saw::Tick => if self.should_retire(now) {
                ServeNext::Stop
            } else {
                ServeNext::Wait
            },
        }
    }

    /// Stop taking connections and hand back every session, to be torn down.
    pub fn shutdown(&mut self) -> (out: Vec<OwnedSession>)
        ensures
            out@ == old(self).sessions.all(),
            final(self).sessions.all().len() == 0,
            *final(self) == (Daemon {
                shutting_down: true,
                sessions: final(self).sessions,
                ..*old(self)
            }),
            forall|p: Seq<char>| #[trigger]
                final(self).sessions.generation(p) == old(self).sessions.generation(p),
            old(self).wf() ==> final(self).wf(),
    {
        self.shutting_down = true;
        self.sessions.close_all()
    }

    /// Put in place what an accepted connection owes its client, before the client is told it
    /// exists: a stream connection is bound.
    ///
    /// After the hello was vetted, because a bind supersedes whatever held the client id; and
    /// before the answer, because the client may attach the instant that arrives.
    pub fn open(&mut self, hello: &HelloRequest) -> (out: Option<BoundStream>)
        requires
            old(self).wf(),
            old(self).streams.upcoming() < u64::MAX,
        ensures
            final(self).wf(),
            same_runtime(*old(self), *final(self)),
            final(self).sessions == old(self).sessions,
            final(self).receipts == old(self).receipts,
            out is Some <==> hello.role == ClientRole::Stream,
            out is None ==> final(self).streams == old(self).streams,
            out matches Some(bound) ==> is_bound(
                old(self).streams,
                final(self).streams,
                hello.client_id@,
                bound,
            ),
    {
        match hello.role {
            ClientRole::Stream => Some(self.streams.bind(hello.client_id.as_str())),
            ClientRole::Control => None,
        }
    }

    /// Note whether the answer to an accepted hello went out. A client that never learned it
    /// was accepted leaves nothing bound; otherwise it counts as connected.
    pub fn answered(&mut self, written: bool, bound: Option<ConnectionKey>)
        requires
            old(self).wf(),
            old(self).clients < usize::MAX,
        ensures
            final(self).wf(),
            final(self).sessions == old(self).sessions,
            final(self).receipts == old(self).receipts,
            written ==> *final(self) == (Daemon {
                served_anyone: true,
                clients: (old(self).clients + 1) as usize,
                ..*old(self)
            }),
            !written ==> same_runtime(*old(self), *final(self)),
            !written && bound is None ==> final(self).streams == old(self).streams,
            !written && bound is Some ==> is_unbound(
                old(self).streams,
                final(self).streams,
                bound->0.raw(),
            ),
    {
        if written {
            self.served_anyone = true;
            self.clients = self.clients + 1;
        } else if let Some(key) = bound {
            self.streams.unbind(key);
        }
    }

    /// Note that a served connection is finished. A stream connection takes its own streams
    /// with it and nothing else.
    pub fn left(&mut self, bound: Option<ConnectionKey>)
        requires
            old(self).wf(),
            old(self).clients > 0,
        ensures
            final(self).wf(),
            *final(self) == (Daemon {
                clients: (old(self).clients - 1) as usize,
                streams: final(self).streams,
                ..*old(self)
            }),
            bound is None ==> final(self).streams == old(self).streams,
            bound is Some ==> is_unbound(
                old(self).streams,
                final(self).streams,
                bound->0.raw(),
            ),
    {
        if let Some(key) = bound {
            self.streams.unbind(key);
        }
        self.clients = self.clients - 1;
    }
}

/// How many lines a read is to return.
pub open spec fn limit_of(limit: Option<u32>) -> int {
    match limit {
        None => 1000,
        Some(asked) => if asked < 1 {
            1
        } else if asked > 20_000 {
            20_000
        } else {
            asked as int
        },
    }
}

/// Whether a step refuses a verb on a handle that names nothing.
pub open spec fn unknown_session(step: Step, handle: SessionHandle, platform: Platform) -> bool {
    step matches Step::Answer(answer) && refuses(
        answer,
        session_failure(SessionError::Unknown { handle }, platform),
    )
}

/// Whether `after` is `before` with a stream opened for `client`, the one `step` names.
pub open spec fn attached(
    before: StreamRegistry,
    after: StreamRegistry,
    client: Seq<char>,
    handle: SessionHandle,
    request: Seq<char>,
    step: Step,
) -> bool {
    step matches Step::Attached { answer, pending } && {
        &&& answer == (ResponsePayload::StreamAttach { handle, stream_id: pending.stream.stream })
        &&& pending.handle == handle
        &&& pending.request@ == request
        &&& is_attached(before, after, client, pending.stream)
    }
}

/// Whether a verb came to `out` and left the daemon as `after`: what it answers, or the outside
/// work it needs first, and what of the sessions and the streams it changes.
pub open spec fn ran(
    before: Daemon,
    after: Daemon,
    payload: RequestPayload,
    client: Seq<char>,
    request: Seq<char>,
    out: Step,
) -> bool {
    &&& after.wf()
    &&& same_runtime(before, after)
    &&& after.receipts == before.receipts
    &&& ran_on_registries(before, after, payload, client, request, out)
}

/// The part of [`ran`] that is about the sessions, the streams and the answer.
pub open spec fn ran_on_registries(
    before: Daemon,
    after: Daemon,
    payload: RequestPayload,
    client: Seq<char>,
    request: Seq<char>,
    out: Step,
) -> bool {
    let sessions = before.sessions;
    let streams = before.streams;
    let platform = before.platform;
    match payload {
        RequestPayload::SessionCreate(create) => {
            &&& out == Step::Do(Work::Spawn(create))
            &&& after.sessions == sessions && after.streams == streams
        },
        RequestPayload::SessionList => {
            &&& out matches Step::Answer(ResponsePayload::SessionList { sessions: rows })
                && lists(rows@, sessions.all())
            &&& after.sessions == sessions && after.streams == streams
        },
        RequestPayload::SessionClose { handle } => {
            &&& after.streams == streams
            &&& match sessions.session(handle.text@) {
                Some(session) => out == Step::Do(Work::TearDown(session)),
                None => unknown_session(out, handle, platform),
            }
            &&& forall|h: Seq<char>|
                #[trigger] after.sessions.session(h) == (if h == handle.text@ {
                    None
                } else {
                    sessions.session(h)
                })
            &&& forall|p: Seq<char>|
                #[trigger] after.sessions.generation(p) == sessions.generation(p)
        },
        RequestPayload::TerminalRead { handle, mode, cursor, limit } => {
            &&& after.sessions == sessions && after.streams == streams
            &&& if sessions.session(handle.text@) is Some {
                out == Step::Do(
                    Work::Read { handle, mode, cursor, limit: limit_of(limit) as usize },
                )
            } else {
                unknown_session(out, handle, platform)
            }
        },
        RequestPayload::TerminalSend { handle, interrupt, text, enter } => {
            let input = input_of(interrupt, text@, enter);
            &&& after.sessions == sessions && after.streams == streams
            &&& if sessions.session(handle.text@) is None {
                unknown_session(out, handle, platform)
            } else if input.len() == 0 {
                out == Step::Answer(ResponsePayload::TerminalSend)
            } else {
                out matches Step::Do(Work::Write { handle: to, bytes }) && to == handle
                    && bytes@ == input
            }
        },
        RequestPayload::TerminalResize { handle, cols, rows } => {
            &&& after.sessions == sessions && after.streams == streams
            &&& if sessions.session(handle.text@) is None {
                unknown_session(out, handle, platform)
            } else if cols == 0 || rows == 0 {
                out matches Step::Answer(answer) && refuses(
                    answer,
                    refusal(
                        ErrorCode::InvalidRequest,
                        "a terminal is at least one cell in each direction"@,
                        steps_of(
                            "check the verb's flags with `nysia <verb> --help`"@,
                            Seq::empty(),
                        ),
                    ),
                )
            } else {
                out == Step::Do(Work::Resize { handle, cols, rows })
            }
        },
        RequestPayload::TerminalWait { handle, wait_for, timeout_ms } => {
            &&& after.sessions == sessions && after.streams == streams
            &&& if sessions.session(handle.text@) is Some {
                out == Step::Do(Work::Wait { handle, wait_for, timeout_ms })
            } else {
                unknown_session(out, handle, platform)
            }
        },
        RequestPayload::StreamAttach { handle } => {
            &&& after.sessions == sessions
            &&& if sessions.session(handle.text@) is None {
                unknown_session(out, handle, platform) && after.streams == streams
            } else if !streams.routable(client) {
                &&& out matches Step::Answer(answer) && refuses(
                    answer,
                    no_stream_connection(),
                )
                &&& same_streams(streams, after.streams)
            } else {
                attached(streams, after.streams, client, handle, request, out)
            }
        },
        RequestPayload::StreamDetach { stream_id } => {
            &&& after.sessions == sessions
            &&& out == Step::Answer(ResponsePayload::StreamDetach)
            &&& is_detached(streams, after.streams, streams.current(client), stream_id.raw)
        },
    }
}

impl Daemon {
    /// Reserve a stream id for a session's output, leaving the replay to be started once the
    /// answer naming the id has gone out. Nothing is written to the stream connection yet.
    pub fn attach(&mut self, handle: SessionHandle, client: &str, request: &str) -> (out: Step)
        requires
            old(self).wf(),
        ensures
            final(self).wf(),
            same_runtime(*old(self), *final(self)),
            final(self).sessions == old(self).sessions,
            final(self).receipts == old(self).receipts,
            ({
                let streams = old(self).streams;
                if old(self).sessions.session(handle.text@) is None {
                    &&& unknown_session(out, handle, old(self).platform)
                    &&& final(self).streams == streams
                } else if !streams.routable(client@) {
                    &&& out matches Step::Answer(answer) && refuses(answer, no_stream_connection())
                    &&& same_streams(streams, final(self).streams)
                } else {
                    attached(streams, final(self).streams, client@, handle, request@, out)
                }
            }),
    {
        if let Err(err) = self.sessions.get(&handle) {
            return Step::Answer(ResponsePayload::Error(err.into_envelope(self.platform)));
        }
        match self.streams.attach(client) {
            Some(stream) => {
                let answer = ResponsePayload::StreamAttach {
                    handle: handle.clone(),
                    stream_id: stream.stream,
                };
                Step::Attached {
                    answer,
                    pending: PendingReplay { handle, stream, request: request.to_owned() },
                }
            },
            None => Step::Answer(
                ResponsePayload::Error(
                    envelope(
                        ErrorCode::InvalidRequest,
                        "this client has no stream connection to route output to".to_owned(),
                        "open a second connection with `role: \"stream\"` and the same `clientId`, then attach",
                        &one(
                            "control and stream are separate connections so a terminal firehose cannot delay a session close",
                        ),
                    ).retryable(true),
                ),
            ),
        }
    }

    /// Run one verb against the registries: its answer, or the outside work it needs first.
    ///
    /// Detaching a stream that has already gone is not an error.
    pub fn run(&mut self, payload: RequestPayload, client: &str, request: &str) -> (out: Step)
        requires
            old(self).wf(),
        ensures
            ran(*old(self), *final(self), payload, client@, request@, out),
    {
        match payload {
            RequestPayload::SessionCreate(create) => Step::Do(Work::Spawn(create)),
            RequestPayload::SessionList => Step::Answer(
                ResponsePayload::SessionList { sessions: self.sessions.list() },
            ),
            RequestPayload::SessionClose { handle } => match self.sessions.close(&handle) {
                Ok(session) => Step::Do(Work::TearDown(session)),
                Err(err) => Step::Answer(
                    ResponsePayload::Error(err.into_envelope(self.platform)),
                ),
            },
            RequestPayload::TerminalRead { handle, mode, cursor, limit } => {
                if let Err(err) = self.sessions.get(&handle) {
                    return Step::Answer(ResponsePayload::Error(err.into_envelope(self.platform)));
                }
                Step::Do(Work::Read { handle, mode, cursor, limit: read_limit(limit) })
            },
            RequestPayload::TerminalSend { handle, interrupt, text, enter } => {
                if let Err(err) = self.sessions.get(&handle) {
                    return Step::Answer(ResponsePayload::Error(err.into_envelope(self.platform)));
                }
                match input_bytes(interrupt, text.as_str(), enter) {
                    Some(bytes) => Step::Do(Work::Write { handle, bytes }),
                    None => Step::Answer(ResponsePayload::TerminalSend),
                }
            },
            RequestPayload::TerminalResize { handle, cols, rows } => {
                if let Err(err) = self.sessions.get(&handle) {
                    return Step::Answer(ResponsePayload::Error(err.into_envelope(self.platform)));
                }
                match check_size(cols, rows) {
                    Ok(_) => Step::Do(Work::Resize { handle, cols, rows }),
                    Err(err) => Step::Answer(
                        ResponsePayload::Error(err.into_envelope(self.platform)),
                    ),
                }
            },
            RequestPayload::TerminalWait { handle, wait_for, timeout_ms } => {
                if let Err(err) = self.sessions.get(&handle) {
                    return Step::Answer(ResponsePayload::Error(err.into_envelope(self.platform)));
                }
                Step::Do(Work::Wait { handle, wait_for, timeout_ms })
            },
            RequestPayload::StreamAttach { handle } => self.attach(handle, client, request),
            RequestPayload::StreamDetach { stream_id } => {
                let _was = self.streams.detach(client, stream_id);
                Step::Answer(ResponsePayload::StreamDetach)
            },
        }
    }

    /// The stored answer a retry of a mutation is to be given, if there is one.
    pub fn replay(&self, is_mutation: bool, retry: Option<&str>, fingerprint: &str) -> (out: Option<
        &ResponsePayload,
    >)
        requires
            self.wf(),
        ensures
            out is Some <==> is_mutation && retry is Some && self.receipts.has(
                fingerprint@,
                retry->0@,
            ),
            out is Some ==> forall|i: int|
                0 <= i < self.receipts.all().len() && is_for(
                    #[trigger] self.receipts.all()[i],
                    fingerprint@,
                    retry->0@,
                ) ==> *out->0 == self.receipts.all()[i].payload,
    {
        if !is_mutation {
            return None;
        }
        match retry {
            Some(original) => self.receipts.get(fingerprint, original),
            None => None,
        }
    }

    /// Take up one request: a retry of a mutation whose answer is stored is not run again, and
    /// anything else is.
    pub fn dispatch(
        &mut self,
        is_mutation: bool,
        retry: Option<&str>,
        payload: RequestPayload,
        client: &str,
        fingerprint: &str,
        request: &str,
    ) -> (out: Dispatched)
        requires
            old(self).wf(),
        ensures
            if is_mutation && retry is Some && old(self).receipts.has(fingerprint@, retry->0@) {
                out is Replay && *final(self) == *old(self)
            } else {
                out matches Dispatched::Run(step) && ran(
                    *old(self),
                    *final(self),
                    payload,
                    client@,
                    request@,
                    step,
                )
            },
    {
        if self.replay(is_mutation, retry, fingerprint).is_some() {
            return Dispatched::Replay;
        }
        Dispatched::Run(self.run(payload, client, request))
    }

    /// Keep the answer to a mutation, so that a retry gets it. A refusal is not kept.
    pub fn keep(
        &mut self,
        is_mutation: bool,
        fingerprint: &str,
        request: &str,
        answer: ResponsePayload,
    )
        requires
            old(self).wf(),
        ensures
            final(self).wf(),
            same_runtime(*old(self), *final(self)),
            final(self).sessions == old(self).sessions,
            final(self).streams == old(self).streams,
            is_mutation && !(answer is Error) ==> stored_after(
                old(self).receipts.all(),
                final(self).receipts.all(),
                fingerprint@,
                request@,
                answer,
            ),
            !is_mutation || answer is Error ==> final(self).receipts == old(self).receipts,
    {
        let refused = match &answer {
            ResponsePayload::Error(_) => true,
            _ => false,
        };
        if is_mutation && !refused {
            self.receipts.put(fingerprint, request, answer);
        }
    }

    /// Note that a verb is being served.
    pub fn begin_verb(&mut self)
        requires
            old(self).in_flight < usize::MAX,
        ensures
            *final(self) == (Daemon { in_flight: (old(self).in_flight + 1) as usize, ..*old(self) }),
    {
        self.in_flight = self.in_flight + 1;
    }

    /// Note whether a verb's answer went out, and hand back the replay that is now to be
    /// started.
    ///
    /// A client that never got the answer to an attach never learned its id and can never ack
    /// it, so the stream is given back and the receipt with it: an attach's whole effect is
    /// the id in its answer. Every other mutation keeps its receipt.
    pub fn end_verb(
        &mut self,
        written: bool,
        pending: Option<PendingReplay>,
        fingerprint: &str,
    ) -> (out: Option<PendingReplay>)
        requires
            old(self).wf(),
            old(self).in_flight > 0,
        ensures
            final(self).wf(),
            *final(self) == (Daemon {
                in_flight: (old(self).in_flight - 1) as usize,
                streams: final(self).streams,
                receipts: final(self).receipts,
                ..*old(self)
            }),
            out == (if written {
                pending
            } else {
                None
            }),
            written || pending is None ==> final(self).streams == old(self).streams
                && final(self).receipts == old(self).receipts,
            !written && pending is Some ==> {
                &&& forgotten_from(
                    old(self).receipts,
                    final(self).receipts,
                    fingerprint@,
                    pending->0.request@,
                )
                &&& is_detached(
                    old(self).streams,
                    final(self).streams,
                    Some(pending->0.stream.connection.raw()),
                    pending->0.stream.stream.raw,
                )
            },
    {
        self.in_flight = self.in_flight - 1;
        if written {
            return pending;
        }
        if let Some(given) = pending {
            let _was = self.streams.detach_on(given.stream.connection, given.stream.stream);
            self.receipts.forget(fingerprint, given.request.as_str());
        }
        None
    }
}

/// Who did a mutation and whether this answer is a replay of an earlier one.
#[derive(Debug)]
pub struct MutationReceipt {
    /// The request that did the work.
    pub request_id: String,
    /// Whether this answer is a replay.
    pub replayed: bool,
}

/// The receipt an answer carries: none for a verb that changes nothing, the original request's
/// for a replay, and its own for a mutation that was just done.
pub fn receipt_for(is_mutation: bool, incoming: &str, replayed: Option<&str>) -> (out: Option<
    MutationReceipt,
>)
    ensures
        out is Some <==> is_mutation,
        out matches Some(receipt) ==> {
            &&& receipt.replayed == (replayed is Some)
            &&& receipt.request_id@ == (match replayed {
                Some(original) => original@,
                None => incoming@,
            })
        },
{
    if !is_mutation {
        return None;
    }
    match replayed {
        Some(original) => Some(
            MutationReceipt { request_id: original.to_owned(), replayed: true },
        ),
        None => Some(MutationReceipt { request_id: incoming.to_owned(), replayed: false }),
    }
}

/// What a client sent on a stream connection, as far as it has been decoded.
#[derive(Clone, Copy, Debug, PartialEq, Eq, Structural)]
pub enum Decoded {
    /// A credit frame; `None` when what it carries is not credit.
    Credit {
        /// The stream it names.
        stream: StreamId,
        /// What it says.
        credit: Option<CreditFrame>,
    },
    /// A frame a client is not supposed to send.
    Other,
    /// Not a whole frame yet.
    Incomplete,
    /// The framing is lost, and there is no delimiter to find it by again.
    Lost,
}

/// What to do after a decoded frame.
#[derive(Clone, Copy, Debug, PartialEq, Eq, Structural)]
pub enum ReadNext {
    /// Decode the next frame.
    Decode,
    /// Read more bytes.
    Read,
    /// The connection is finished.
    Close,
}

impl Daemon {
    /// Take in what a client sent on one stream connection.
    ///
    /// Only a readable ack changes anything, and only the stream it names on that connection.
    pub fn take_credit(&mut self, connection: ConnectionKey, decoded: Decoded) -> (out: ReadNext)
        requires
            old(self).wf(),
        ensures
            final(self).wf(),
            same_runtime(*old(self), *final(self)),
            final(self).sessions == old(self).sessions,
            final(self).receipts == old(self).receipts,
            out == (match decoded {
                Decoded::Incomplete => ReadNext::Read,
                Decoded::Lost => ReadNext::Close,
                _ => ReadNext::Decode,
            }),
            match decoded {
                Decoded::Credit { stream, credit: Some(credit) } => is_credited(
                    old(self).streams,
                    final(self).streams,
                    connection.raw(),
                    stream.raw,
                    credit,
                ),
                _ => final(self).streams == old(self).streams,
            },
    {
        match decoded {
            Decoded::Credit { stream, credit } => {
                if let Some(credit) = credit {
                    let _applied = self.streams.apply_credit(connection, stream, &credit);
                }
                ReadNext::Decode
            },
            Decoded::Other => ReadNext::Decode,
            Decoded::Incomplete => ReadNext::Read,
            Decoded::Lost => ReadNext::Close,
        }
    }
}

/// Who is asking, for logging and for keying receipts.
#[derive(Debug)]
pub struct Caller {
    /// The id it goes by.
    pub client_id: String,
    /// The kernel's word for its account and its own id: what a retry finds its receipt by.
    pub fingerprint: String,
    /// The session it descends from, when it descends from one.
    pub session: Option<CallerSession>,
}

impl Caller {
    /// Identify a caller from what the kernel said and what the process tree shows.
    pub fn new(
        peer: Option<&PeerCredentials>,
        client_id: &str,
        sessions: &SessionRegistry,
        parents: &HashMap<u32, u32>,
    ) -> (out: Caller)
        ensures
            out.client_id@ == client_id@,
            out.fingerprint@ == (match peer {
                Some(peer) => peer.user@,
                None => "unknown"@,
            }) + "/"@ + client_id@,
            match peer {
                Some(PeerCredentials { pid: Some(pid), .. }) => descent(
                    out.session,
                    *pid,
                    leaders_of(sessions.all()),
                    parents@,
                ),
                _ => out.session is None,
            },
    {
        let user = match peer {
            Some(peer) => peer.user.as_str(),
            None => "unknown",
        };
        let mut session: Option<CallerSession> = None;
        if let Some(peer) = peer {
            if let Some(pid) = peer.pid {
                session = ancestry(pid, &sessions.leaders(), parents);
            }
        }
        Caller {
            client_id: client_id.to_owned(),
            fingerprint: user.to_owned().concat("/").concat(client_id),
            session,
        }
    }
}

/// A read is of at least one line and at most twenty thousand, of as many as were asked for
/// where that lies between, and of a thousand where nothing was.
pub proof fn law_a_read_is_of_as_many_lines_as_were_asked_for(limit: Option<u32>)
    ensures
        1 <= limit_of(limit) <= 20_000,
        limit is None ==> limit_of(limit) == 1000,
        limit matches Some(asked) ==> 1 <= asked <= 20_000 ==> limit_of(limit) == asked,
        limit matches Some(asked) ==> asked > 20_000 ==> limit_of(limit) == 20_000,
{
}

/// The session that a verb names, where it names one.
pub open spec fn addressed(payload: RequestPayload) -> Option<SessionHandle> {
    match payload {
        RequestPayload::SessionClose { handle } => Some(handle),
        RequestPayload::TerminalRead { handle, .. } => Some(handle),
        RequestPayload::TerminalSend { handle, .. } => Some(handle),
        RequestPayload::TerminalResize { handle, .. } => Some(handle),
        RequestPayload::TerminalWait { handle, .. } => Some(handle),
        RequestPayload::StreamAttach { handle } => Some(handle),
        _ => None,
    }
}

/// A verb that names no session of the daemon's is answered that there is none by that handle,
/// and nothing is done for it: no stream is opened, and every session is still there.
pub proof fn law_a_verb_on_no_session_does_nothing(
    before: Daemon,
    after: Daemon,
    payload: RequestPayload,
    client: Seq<char>,
    request: Seq<char>,
    out: Step,
    handle: SessionHandle,
    other: Seq<char>,
)
    requires
        ran(before, after, payload, client, request, out),
        addressed(payload) == Some(handle),
        before.sessions.session(handle.text@) is None,
    ensures
        out matches Step::Answer(ResponsePayload::Error(said)) && said@.code
            == ErrorCode::UnknownSession && !said@.retryable,
        after.streams == before.streams,
        after.sessions.session(other) == before.sessions.session(other),
{
}

/// Whatever verb is run, the daemon is the same daemon: it has as many clients and as many verbs
/// in hand, goes on as it did, and has stored no answer.
pub proof fn law_a_verb_leaves_the_runtime_as_it_was(
    before: Daemon,
    after: Daemon,
    payload: RequestPayload,
    client: Seq<char>,
    request: Seq<char>,
    out: Step,
)
    requires
        ran(before, after, payload, client, request, out),
    ensures
        after.identity == before.identity,
        after.endpoint == before.endpoint,
        after.clients == before.clients,
        after.in_flight == before.in_flight,
        after.served_anyone == before.served_anyone,
        after.shutting_down == before.shutting_down,
        after.idle_since == before.idle_since,
        after.idle_retire_after == before.idle_retire_after,
        after.platform == before.platform,
        after.receipts == before.receipts,
{
}

/// Only a close takes a session away, and only the one that it names: that one is handed over to
/// be torn down, and is known by its handle no more.
pub proof fn law_only_a_close_takes_a_session_away(
    before: Daemon,
    after: Daemon,
    payload: RequestPayload,
    client: Seq<char>,
    request: Seq<char>,
    out: Step,
    held: Seq<char>,
)
    requires
        ran(before, after, payload, client, request, out),
        before.sessions.session(held) is Some,
    ensures
        !(payload is SessionClose) ==> after.sessions == before.sessions,
        payload matches RequestPayload::SessionClose { handle } ==> {
            &&& handle.text@ == held ==> after.sessions.session(held) is None && out == Step::Do(
                Work::TearDown(before.sessions.session(held)->0),
            )
            &&& handle.text@ != held ==> after.sessions.session(held) == before.sessions.session(
                held,
            )
            &&& after.streams == before.streams
        },
{
}

/// A send to a session writes to that session, and to no other: the interrupt first, enter last,
/// the text between them. One that asks for nothing is answered at once.
pub proof fn law_a_send_is_written_to_its_session(
    before: Daemon,
    after: Daemon,
    handle: SessionHandle,
    interrupt: bool,
    text: String,
    enter: bool,
    client: Seq<char>,
    request: Seq<char>,
    out: Step,
)
    requires
        ran(
            before,
            after,
            RequestPayload::TerminalSend { handle, interrupt, text, enter },
            client,
            request,
            out,
        ),
        before.sessions.session(handle.text@) is Some,
    ensures
        interrupt || enter || text@.len() > 0 ==> (out matches Step::Do(
            Work::Write { handle: to, bytes },
        ) && to == handle && (interrupt ==> bytes@[0] == 0x03) && (enter ==> bytes@.last()
            == 0x0d) && bytes@.len() == vstd::utf8::encode_utf8(text@).len() + (if interrupt {
            1int
        } else {
            0
        }) + (if enter {
            1int
        } else {
            0
        }) && bytes@.subrange(
            if interrupt {
                1
            } else {
                0
            },
            bytes@.len() - if enter {
                1int
            } else {
                0
            },
        ) == vstd::utf8::encode_utf8(text@)),
        !interrupt && !enter && text@.len() == 0 ==> out == Step::Answer(
            ResponsePayload::TerminalSend,
        ),
{
    law_an_interrupt_goes_first_and_enter_last(interrupt, text@, enter);
    law_a_send_writes_its_text_whole(interrupt, text@, enter);
    if text@.len() == 0 && !interrupt && !enter {
        assert(text@ =~= Seq::empty());
    }
}

/// A read, a resize and a wait are done on the session that they name, with what they ask for;
/// a terminal of no size is refused.
pub proof fn law_work_is_done_on_the_session_that_was_named(
    before: Daemon,
    after: Daemon,
    payload: RequestPayload,
    client: Seq<char>,
    request: Seq<char>,
    out: Step,
)
    requires
        ran(before, after, payload, client, request, out),
        addressed(payload) is Some,
        before.sessions.session(addressed(payload)->0.text@) is Some,
    ensures
        payload matches RequestPayload::TerminalRead { handle, mode, cursor, limit } ==> (
        out matches Step::Do(Work::Read { handle: of, mode: what, cursor: from, limit: most })
            && of == handle && what == mode && from == cursor && 1 <= most <= 20_000 && (
        limit matches Some(asked) ==> 1 <= asked <= 20_000 ==> most == asked) && (limit is None
            ==> most == 1000)),
        payload matches RequestPayload::TerminalResize { handle, cols, rows } ==> (cols > 0
            && rows > 0 ==> out == Step::Do(Work::Resize { handle, cols, rows })),
        payload matches RequestPayload::TerminalResize { handle, cols, rows } ==> (cols == 0
            || rows == 0 ==> (out matches Step::Answer(ResponsePayload::Error(said)) && said@.code
            == ErrorCode::InvalidRequest)),
        payload matches RequestPayload::TerminalWait { handle, wait_for, timeout_ms } ==> out
            == Step::Do(Work::Wait { handle, wait_for, timeout_ms }),
        after.sessions == before.sessions || payload is SessionClose,
        after.streams == before.streams || payload is StreamAttach,
{
}

/// A client with a stream connection that attaches to a session gets a stream of its own that
/// nobody had, opened on that connection; its answer names that stream and its replay is owed.
/// One without is told to open one, and that it can then try again.
pub proof fn law_an_attach_is_answered_with_its_stream(
    before: Daemon,
    after: Daemon,
    handle: SessionHandle,
    client: Seq<char>,
    request: Seq<char>,
    out: Step,
    other: AttachedStream,
)
    requires
        before.wf(),
        ran(before, after, RequestPayload::StreamAttach { handle }, client, request, out),
        before.sessions.session(handle.text@) is Some,
    ensures
        before.streams.routable(client) ==> (out matches Step::Attached { answer, pending } && (
        answer matches ResponsePayload::StreamAttach { handle: of, stream_id } && of == handle
            && stream_id == pending.stream.stream) && pending.handle == handle
            && pending.request@ == request && before.streams.watched(pending.stream) is None
            && after.streams.watched(pending.stream) is Some && before.streams.current(client)
            == Some(pending.stream.connection.raw())),
        !before.streams.routable(client) ==> (out matches Step::Answer(
            ResponsePayload::Error(said),
        ) && said@.retryable && said@.code == ErrorCode::InvalidRequest),
        !before.streams.routable(client) ==> after.streams.watched(other)
            == before.streams.watched(other) && after.streams.stream_count()
            == before.streams.stream_count(),
        before.streams.watched(other) is Some ==> after.streams.watched(other)
            == before.streams.watched(other),
{
}

/// A detach takes away the stream that it names on the client's own connection, and no other
/// client's, and is answered the same whether there was one or not.
pub proof fn law_a_detach_reaches_only_its_own_client(
    before: Daemon,
    after: Daemon,
    stream_id: StreamId,
    client: Seq<char>,
    request: Seq<char>,
    out: Step,
    other: AttachedStream,
)
    requires
        ran(before, after, RequestPayload::StreamDetach { stream_id }, client, request, out),
    ensures
        out == Step::Answer(ResponsePayload::StreamDetach),
        before.streams.current(client) != Some(other.connection.raw()) || other.stream.raw
            != stream_id.raw ==> after.streams.watched(other) == before.streams.watched(other),
        before.streams.current(client) == Some(other.connection.raw()) && other.stream.raw
            == stream_id.raw ==> after.streams.watched(other) is None,
        after.sessions == before.sessions,
{
}

/// A create is handed on as it was asked for, and a list is answered with every session.
pub proof fn law_a_create_is_handed_on_and_a_list_is_answered(
    before: Daemon,
    after: Daemon,
    payload: RequestPayload,
    client: Seq<char>,
    request: Seq<char>,
    out: Step,
)
    requires
        ran(before, after, payload, client, request, out),
    ensures
        payload matches RequestPayload::SessionCreate(create) ==> out == Step::Do(
            Work::Spawn(create),
        ) && after.streams == before.streams,
        payload is SessionList ==> (out matches Step::Answer(
            ResponsePayload::SessionList { sessions },
        ) && sessions@.len() == before.sessions.all().len()) && after.streams == before.streams,
{
    if payload is SessionList {
        let rows = out->Answer_0->sessions@;
        let shown = before.sessions.all().map_values(|s: OwnedSession| row_of(s));
        rows.to_multiset_ensures();
        shown.to_multiset_ensures();
    }
}

/// A fault of the daemon's own and a missing stream connection are worth another try; a frame
/// that could not be read is not. Each says what happened.
pub proof fn law_only_what_may_pass_is_worth_another_try(said: Seq<char>)
    ensures
        internal_failure(said).retryable,
        internal_failure(said).code == ErrorCode::Internal,
        internal_failure(said).message.skip(
            internal_failure(said).message.len() - said.len(),
        ) == said,
        no_stream_connection().retryable,
        no_stream_connection().code == ErrorCode::InvalidRequest,
        !unreadable_frame(said).retryable,
        unreadable_frame(said).code == ErrorCode::InvalidRequest,
        unreadable_frame(said).message == said,
{
    let message = internal_failure(said).message;
    assert(message.skip(message.len() - said.len()) =~= said);
}

/// What a daemon is counted to be doing is what it is doing.
pub proof fn law_the_load_is_what_is_held(daemon: Daemon)
    requires
        daemon.sessions.all().len() <= usize::MAX,
    ensures
        daemon.load().served_anyone == daemon.served_anyone,
        daemon.load().clients == daemon.clients,
        daemon.load().in_flight == daemon.in_flight,
        daemon.load().sessions == daemon.sessions.all().len(),
{
}

/// Whatever verb is run, what a daemon serves its streams under is a window with a chunk, its
/// sessions are in order, and it holds no more answers than it may.
pub proof fn law_a_daemon_stays_in_order(
    before: Daemon,
    after: Daemon,
    payload: RequestPayload,
    client: Seq<char>,
    request: Seq<char>,
    out: Step,
)
    requires
        ran(before, after, payload, client, request, out),
    ensures
        after.streams.serves().chunk > 0,
        after.sessions.wf(),
        after.streams.wf(),
        after.receipts.all().len() <= 512,
{
}

} // verus!
