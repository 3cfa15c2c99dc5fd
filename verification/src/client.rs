//! The client's side of the socket: what a hello or a request is answered, and what a failure
//! says to whoever asked.
use vstd::prelude::*;
use crate::control::{control_said, ControlError};
use crate::endpoint::{resolve_said, EndpointResolveError};
use crate::errors::{envelope, law_steps_are_always_actionable, one, steps_of};
use crate::lease::DaemonIdentity;
use crate::server::daemon::ResponsePayload;
use crate::server::handshake::RejectReason;
use crate::session::registry::{SessionCreated, SessionSummary};
use crate::session::verbs::{TerminalReadResult, WaitOutcome};
use crate::text::{same, views};
use crate::wire::{
    actionable, refusal, EnvelopeView, ErrorCode, ErrorEnvelope, SessionHandle, StreamId,
};

verus! {

/// Why the connection underneath failed, in the transport's own words.
#[derive(Debug)]
pub enum TransportError {
    /// Nothing is listening on the endpoint.
    NotListening {
        /// What the transport says of it.
        said: String,
    },
    /// Anything else.
    Failed {
        /// What the transport says of it.
        said: String,
    },
}

impl TransportError {
    /// What the transport says.
    pub open spec fn text(&self) -> Seq<char> {
        match self {
            TransportError::NotListening { said } => said@,
            TransportError::Failed { said } => said@,
        }
    }
}

/// Why a client call failed.
#[derive(Debug)]
pub enum ClientError {
    /// The endpoint could not be resolved.
    Endpoint(EndpointResolveError),
    /// The connection could not be made or was lost.
    Transport(TransportError),
    /// A frame could not be read or written.
    Control(ControlError),
    /// The daemon refused the handshake.
    Rejected {
        /// Why it refused.
        reason: RejectReason,
        /// The reason as it is printed.
        printed: String,
        /// Whether backing off and reconnecting could succeed.
        retryable: bool,
    },
    /// The daemon closed the connection without answering.
    NoAnswer,
    /// The daemon answered something other than what was asked.
    Mismatched {
        /// The verb that was sent.
        asked: &'static str,
        /// The verb that came back.
        answered: &'static str,
    },
    /// The verb itself failed, and the daemon said what to do about it.
    Verb {
        /// What the daemon said.
        envelope: ErrorEnvelope,
        /// The envelope as it is printed.
        printed: String,
    },
}

/// What a failed client call says.
pub open spec fn client_said(err: ClientError) -> Seq<char> {
    match err {
        ClientError::Endpoint(err) => resolve_said(err),
        ClientError::Transport(err) => err.text(),
        ClientError::Control(err) => control_said(err),
        ClientError::Rejected { reason: _, printed, retryable: _ } =>
            "the daemon refused the connection: "@ + printed@,
        ClientError::NoAnswer => "the daemon closed the connection without answering"@,
        ClientError::Mismatched { asked, answered } => "asked for "@ + asked@
            + " and the daemon answered "@ + answered@,
        ClientError::Verb { envelope: _, printed } => printed@,
    }
}

/// The first thing to do about a refused handshake.
pub open spec fn reject_step(reason: RejectReason) -> Seq<char> {
    match reason {
        RejectReason::UnsupportedVersion { daemon: _, attachable: _ } =>
            "this build and the running daemon speak different protocols; stop the daemon and let this build start one"@,
        RejectReason::Unauthorized { detail: _ } =>
            "the daemon serves one account; run as the user that started it"@,
        RejectReason::ShuttingDown => "the daemon is retiring; retry in a moment"@,
        RejectReason::Malformed { detail: _ } =>
            "upgrade the client, the daemon, or both so they agree on the protocol"@,
        RejectReason::Unknown =>
            "upgrade the client, the daemon, or both so they agree on the protocol"@,
    }
}

/// The command that starts a daemon.
pub open spec fn start_command() -> Seq<Seq<char>> {
    seq!["nysia"@, "--daemon"@]
}

/// The command that starts a daemon, as its arguments.
pub fn start_args() -> (out: Vec<String>)
    ensures
        views(out@) == start_command(),
{
    let out: Vec<String> = vec!["nysia".to_owned(), "--daemon".to_owned()];
    assert(views(out@) =~= start_command());
    out
}

/// What a failed client call comes to as an envelope.
pub open spec fn client_failure(err: ClientError) -> EnvelopeView {
    let said = client_said(err);
    match err {
        ClientError::Verb { envelope, printed: _ } => envelope@,
        ClientError::Endpoint(_) => refusal(
            ErrorCode::Internal,
            said,
            steps_of(
                "set NYSIA_RUNTIME_DIR to an absolute directory you own"@,
                seq!["`nysia --daemon` prints the endpoint it resolved on startup"@],
            ),
        ),
        ClientError::Transport(TransportError::NotListening { said: _ }) => EnvelopeView {
            retryable: true,
            command: start_command(),
            ..refusal(
                ErrorCode::Internal,
                said,
                steps_of(
                    "start the daemon with `nysia --daemon`"@,
                    seq!["most verbs start one for you; this one was told not to"@],
                ),
            )
        },
        ClientError::Rejected { reason, printed: _, retryable } => EnvelopeView {
            retryable,
            ..refusal(
                ErrorCode::Unsupported,
                said,
                steps_of(
                    reject_step(reason),
                    seq!["`nysia session list` shows which daemon answered"@],
                ),
            )
        },
        ClientError::Mismatched { asked: _, answered: _ } => refusal(
            ErrorCode::Internal,
            said,
            steps_of(
                "report this: a daemon answering the wrong verb is a bug in Nysia"@,
                seq!["the client and the daemon may be from incompatible builds"@],
            ),
        ),
        _ => EnvelopeView {
            retryable: true,
            ..refusal(
                ErrorCode::Internal,
                said,
                steps_of(
                    "retry the command"@,
                    seq![
                        "if it keeps failing, the daemon may have died; `nysia session list` will start a fresh one"@,
                    ],
                ),
            )
        },
    }
}

impl ClientError {
    /// What happened.
    pub fn message(&self) -> (out: String)
        ensures
            out@ == client_said(*self),
    {
        match self {
            ClientError::Endpoint(err) => err.message(),
            ClientError::Transport(err) => match err {
                TransportError::NotListening { said } => said.clone(),
                TransportError::Failed { said } => said.clone(),
            },
            ClientError::Control(err) => err.message(),
            ClientError::Rejected { reason: _, printed, retryable: _ } => {
                "the daemon refused the connection: ".to_owned().concat(printed.as_str())
            },
            ClientError::NoAnswer => {
                "the daemon closed the connection without answering".to_owned()
            },
            ClientError::Mismatched { asked, answered } => {
                "asked for ".to_owned().concat(asked).concat(" and the daemon answered ").concat(
                    answered,
                )
            },
            ClientError::Verb { envelope: _, printed } => printed.clone(),
        }
    }

    /// The error as an envelope, so that every failure a caller can see carries next steps.
    ///
    /// A verb the daemon refused keeps the envelope the daemon sent; a refused handshake keeps
    /// the daemon's own word on whether to come back.
    pub fn envelope(&self) -> (out: ErrorEnvelope)
        ensures
            out@ == client_failure(*self),
    {
        let said = self.message();
        match self {
            ClientError::Verb { envelope, printed: _ } => envelope.copied(),
            ClientError::Endpoint(_) => envelope(
                ErrorCode::Internal,
                said,
                "set NYSIA_RUNTIME_DIR to an absolute directory you own",
                &one("`nysia --daemon` prints the endpoint it resolved on startup"),
            ),
            ClientError::Transport(TransportError::NotListening { said: _ }) => envelope(
                ErrorCode::Internal,
                said,
                "start the daemon with `nysia --daemon`",
                &one("most verbs start one for you; this one was told not to"),
            ).retryable(true).with_next_command_args(start_args()),
            ClientError::Rejected { reason, printed: _, retryable } => {
                let first = match reason {
                    RejectReason::UnsupportedVersion { daemon: _, attachable: _ } =>
                        "this build and the running daemon speak different protocols; stop the daemon and let this build start one",
                    RejectReason::Unauthorized { detail: _ } =>
                        "the daemon serves one account; run as the user that started it",
                    RejectReason::ShuttingDown => "the daemon is retiring; retry in a moment",
                    RejectReason::Malformed { detail: _ } =>
                        "upgrade the client, the daemon, or both so they agree on the protocol",
                    RejectReason::Unknown =>
                        "upgrade the client, the daemon, or both so they agree on the protocol",
                };
                envelope(
                    ErrorCode::Unsupported,
                    said,
                    first,
                    &one("`nysia session list` shows which daemon answered"),
                ).retryable(*retryable)
            },
            ClientError::Mismatched { asked: _, answered: _ } => envelope(
                ErrorCode::Internal,
                said,
                "report this: a daemon answering the wrong verb is a bug in Nysia",
                &one("the client and the daemon may be from incompatible builds"),
            ),
            _ => envelope(
                ErrorCode::Internal,
                said,
                "retry the command",
                &one(
                    "if it keeps failing, the daemon may have died; `nysia session list` will start a fresh one",
                ),
            ).retryable(true),
        }
    }
}

/// What a hello was answered.
#[derive(Debug)]
pub enum HelloReply {
    /// The daemon let the client in and said who it is.
    Accepted(DaemonIdentity),
    /// The daemon refused.
    Rejected {
        /// Why.
        reason: RejectReason,
        /// The reason as it is printed.
        printed: String,
        /// The daemon's own word on whether coming back could succeed.
        retryable: bool,
    },
}

/// What a request was answered.
#[derive(Debug)]
pub struct Answer {
    /// The request this answers.
    pub request_id: String,
    /// The verb the payload is tagged with.
    pub verb: &'static str,
    /// What it holds.
    pub payload: ResponsePayload,
    /// The payload as it is printed, where it is a refusal.
    pub printed: String,
}

/// Whether an answer is the one to a request: it came, it names the request, it is no refusal
/// and it carries the verb that was asked.
pub open spec fn answers(asked: Seq<char>, id: Seq<char>, answer: Option<Answer>) -> bool {
    answer matches Some(given) && given.request_id@ == id && !(given.payload is Error)
        && given.verb@ == asked
}

/// Whether `err` is what an answer that does not settle a request comes to. An answer to
/// another request is a mismatch whatever it holds.
pub open spec fn falls_short(
    err: ClientError,
    asked: Seq<char>,
    id: Seq<char>,
    answer: Option<Answer>,
) -> bool {
    match answer {
        None => err is NoAnswer,
        Some(given) => if given.request_id@ == id && given.payload is Error {
            err matches ClientError::Verb { envelope, printed } && given.payload
                == ResponsePayload::Error(envelope) && printed == given.printed
        } else {
            err matches ClientError::Mismatched { asked: a, answered: b } && a@ == asked && b@
                == given.verb@
        },
    }
}

/// A connected, handshaken client.
#[derive(Debug)]
pub struct Client {
    identity: DaemonIdentity,
}

impl Client {
    /// The daemon that answered the hello.
    pub closed spec fn daemon(&self) -> DaemonIdentity {
        self.identity
    }

    /// Read what the hello was answered; `None` is a connection closed without a word.
    ///
    /// Whether to come back is the daemon's word, not this build's reading of the reason: a
    /// newer daemon may refuse for a reason this build cannot name.
    pub fn connect(reply: Option<HelloReply>) -> (out: Result<Client, ClientError>)
        ensures
            match reply {
                Some(HelloReply::Accepted(identity)) => out matches Ok(client) && client.daemon()
                    == identity,
                Some(HelloReply::Rejected { reason, printed, retryable }) => out == Err::<
                    Client,
                    ClientError,
                >(ClientError::Rejected { reason, printed, retryable }),
                None => out == Err::<Client, ClientError>(ClientError::NoAnswer),
            },
    {
        match reply {
            Some(HelloReply::Accepted(identity)) => Ok(Client { identity }),
            Some(HelloReply::Rejected { reason, printed, retryable }) => Err(
                ClientError::Rejected { reason, printed, retryable },
            ),
            None => Err(ClientError::NoAnswer),
        }
    }

    /// Who answered.
    pub fn identity(&self) -> (out: &DaemonIdentity)
        ensures
            *out == self.daemon(),
    {
        &self.identity
    }

    /// Read the answer that correlates with a request.
    pub fn request(asked: &'static str, request_id: &str, answer: Option<Answer>) -> (out: Result<
        ResponsePayload,
        ClientError,
    >)
        ensures
            out is Ok <==> answers(asked@, request_id@, answer),
            out matches Ok(payload) ==> payload == answer->0.payload,
            out matches Err(err) ==> falls_short(err, asked@, request_id@, answer),
    {
        match answer {
            None => Err(ClientError::NoAnswer),
            Some(given) => {
                if !same(given.request_id.as_str(), request_id) {
                    return Err(ClientError::Mismatched { asked, answered: given.verb });
                }
                match given.payload {
                    ResponsePayload::Error(envelope) => Err(
                        ClientError::Verb { envelope, printed: given.printed },
                    ),
                    payload => if same(given.verb, asked) {
                        Ok(payload)
                    } else {
                        Err(ClientError::Mismatched { asked, answered: given.verb })
                    },
                }
            },
        }
    }

    /// The session a `session_create` started.
    pub fn session_create(request_id: &str, answer: Option<Answer>) -> (out: Result<
        SessionCreated,
        ClientError,
    >)
        ensures
            out is Ok <==> answers("session_create"@, request_id@, answer) && answer->0.payload is SessionCreate,
            out matches Ok(value) ==> answer->0.payload == ResponsePayload::SessionCreate(value),
            out matches Err(err) ==> falls_short(err, "session_create"@, request_id@, answer),
    {
        let answered = tagged(&answer);
        match Client::request("session_create", request_id, answer) {
            Ok(ResponsePayload::SessionCreate(value)) => Ok(value),
            Ok(_) => Err(ClientError::Mismatched { asked: "session_create", answered }),
            Err(err) => Err(err),
        }
    }

    /// The sessions a `session_list` found.
    pub fn session_list(request_id: &str, answer: Option<Answer>) -> (out: Result<
        Vec<SessionSummary>,
        ClientError,
    >)
        ensures
            out is Ok <==> answers("session_list"@, request_id@, answer) && answer->0.payload is SessionList,
            out matches Ok(value) ==> answer->0.payload == (ResponsePayload::SessionList { sessions: value }),
            out matches Err(err) ==> falls_short(err, "session_list"@, request_id@, answer),
    {
        let answered = tagged(&answer);
        match Client::request("session_list", request_id, answer) {
            Ok(ResponsePayload::SessionList { sessions }) => Ok(sessions),
            Ok(_) => Err(ClientError::Mismatched { asked: "session_list", answered }),
            Err(err) => Err(err),
        }
    }

    /// Whether a `session_close` was done.
    pub fn session_close(request_id: &str, answer: Option<Answer>) -> (out: Result<
        (),
        ClientError,
    >)
        ensures
            out is Ok <==> answers("session_close"@, request_id@, answer) && answer->0.payload is SessionClose,
            out matches Err(err) ==> falls_short(err, "session_close"@, request_id@, answer),
    {
        let answered = tagged(&answer);
        match Client::request("session_close", request_id, answer) {
            Ok(ResponsePayload::SessionClose) => Ok(()),
            Ok(_) => Err(ClientError::Mismatched { asked: "session_close", answered }),
            Err(err) => Err(err),
        }
    }

    /// The page a `terminal_read` returned.
    pub fn terminal_read(request_id: &str, answer: Option<Answer>) -> (out: Result<
        TerminalReadResult,
        ClientError,
    >)
        ensures
            out is Ok <==> answers("terminal_read"@, request_id@, answer) && answer->0.payload is TerminalRead,
            out matches Ok(value) ==> answer->0.payload == ResponsePayload::TerminalRead(value),
            out matches Err(err) ==> falls_short(err, "terminal_read"@, request_id@, answer),
    {
        let answered = tagged(&answer);
        match Client::request("terminal_read", request_id, answer) {
            Ok(ResponsePayload::TerminalRead(value)) => Ok(value),
            Ok(_) => Err(ClientError::Mismatched { asked: "terminal_read", answered }),
            Err(err) => Err(err),
        }
    }

    /// Whether a `terminal_send` was written.
    pub fn terminal_send(request_id: &str, answer: Option<Answer>) -> (out: Result<
        (),
        ClientError,
    >)
        ensures
            out is Ok <==> answers("terminal_send"@, request_id@, answer) && answer->0.payload is TerminalSend,
            out matches Err(err) ==> falls_short(err, "terminal_send"@, request_id@, answer),
    {
        let answered = tagged(&answer);
        match Client::request("terminal_send", request_id, answer) {
            Ok(ResponsePayload::TerminalSend) => Ok(()),
            Ok(_) => Err(ClientError::Mismatched { asked: "terminal_send", answered }),
            Err(err) => Err(err),
        }
    }

    /// Whether a `terminal_resize` was taken.
    pub fn terminal_resize(request_id: &str, answer: Option<Answer>) -> (out: Result<
        (),
        ClientError,
    >)
        ensures
            out is Ok <==> answers("terminal_resize"@, request_id@, answer) && answer->0.payload is TerminalResize,
            out matches Err(err) ==> falls_short(err, "terminal_resize"@, request_id@, answer),
    {
        let answered = tagged(&answer);
        match Client::request("terminal_resize", request_id, answer) {
            Ok(ResponsePayload::TerminalResize) => Ok(()),
            Ok(_) => Err(ClientError::Mismatched { asked: "terminal_resize", answered }),
            Err(err) => Err(err),
        }
    }

    /// What a `terminal_wait` came to, and for which session.
    pub fn terminal_wait(request_id: &str, answer: Option<Answer>) -> (out: Result<
        (SessionHandle, WaitOutcome),
        ClientError,
    >)
        ensures
            out is Ok <==> answers("terminal_wait"@, request_id@, answer) && answer->0.payload is TerminalWait,
            out matches Ok(value) ==> answer->0.payload == (ResponsePayload::TerminalWait {
                handle: value.0,
                outcome: value.1,
            }),
            out matches Err(err) ==> falls_short(err, "terminal_wait"@, request_id@, answer),
    {
        let answered = tagged(&answer);
        match Client::request("terminal_wait", request_id, answer) {
            Ok(ResponsePayload::TerminalWait { handle, outcome }) => Ok((handle, outcome)),
            Ok(_) => Err(ClientError::Mismatched { asked: "terminal_wait", answered }),
            Err(err) => Err(err),
        }
    }

    /// The stream a `stream_attach` opened, and for which session.
    pub fn stream_attach(request_id: &str, answer: Option<Answer>) -> (out: Result<
        (SessionHandle, StreamId),
        ClientError,
    >)
        ensures
            out is Ok <==> answers("stream_attach"@, request_id@, answer) && answer->0.payload is StreamAttach,
            out matches Ok(value) ==> answer->0.payload == (ResponsePayload::StreamAttach {
                handle: value.0,
                stream_id: value.1,
            }),
            out matches Err(err) ==> falls_short(err, "stream_attach"@, request_id@, answer),
    {
        let answered = tagged(&answer);
        match Client::request("stream_attach", request_id, answer) {
            Ok(ResponsePayload::StreamAttach { handle, stream_id }) => Ok((handle, stream_id)),
            Ok(_) => Err(ClientError::Mismatched { asked: "stream_attach", answered }),
            Err(err) => Err(err),
        }
    }

    /// Whether a `stream_detach` was done.
    pub fn stream_detach(request_id: &str, answer: Option<Answer>) -> (out: Result<
        (),
        ClientError,
    >)
        ensures
            out is Ok <==> answers("stream_detach"@, request_id@, answer) && answer->0.payload is StreamDetach,
            out matches Err(err) ==> falls_short(err, "stream_detach"@, request_id@, answer),
    {
        let answered = tagged(&answer);
        match Client::request("stream_detach", request_id, answer) {
            Ok(ResponsePayload::StreamDetach) => Ok(()),
            Ok(_) => Err(ClientError::Mismatched { asked: "stream_detach", answered }),
            Err(err) => Err(err),
        }
    }
}

/// The verb an answer is tagged with; nothing where none came.
fn tagged(answer: &Option<Answer>) -> (out: &'static str)
    ensures
        answer matches Some(given) ==> out@ == given.verb@,
{
    match answer {
        Some(given) => given.verb,
        None => "",
    }
}

/// Every client failure tells whoever asked what to do next.
pub proof fn law_every_client_failure_is_actionable(err: ClientError)
    requires
        err matches ClientError::Verb { envelope, printed: _ } ==> actionable(envelope@.steps),
    ensures
        actionable(client_failure(err).steps),
{
    match err {
        ClientError::Verb { envelope: _, printed: _ } => {},
        ClientError::Endpoint(_) => {
            law_steps_are_always_actionable(
                "set NYSIA_RUNTIME_DIR to an absolute directory you own"@,
                seq!["`nysia --daemon` prints the endpoint it resolved on startup"@],
            );
        },
        ClientError::Transport(TransportError::NotListening { said: _ }) => {
            law_steps_are_always_actionable(
                "start the daemon with `nysia --daemon`"@,
                seq!["most verbs start one for you; this one was told not to"@],
            );
        },
        ClientError::Rejected { reason, printed: _, retryable: _ } => {
            law_steps_are_always_actionable(
                reject_step(reason),
                seq!["`nysia session list` shows which daemon answered"@],
            );
        },
        ClientError::Mismatched { asked: _, answered: _ } => {
            law_steps_are_always_actionable(
                "report this: a daemon answering the wrong verb is a bug in Nysia"@,
                seq!["the client and the daemon may be from incompatible builds"@],
            );
        },
        _ => {
            law_steps_are_always_actionable(
                "retry the command"@,
                seq![
                    "if it keeps failing, the daemon may have died; `nysia session list` will start a fresh one"@,
                ],
            );
        },
    }
}

/// A client comes back to a daemon that refused it exactly when that daemon said to, whatever
/// the reason it gave.
pub proof fn law_a_refused_client_goes_by_the_daemons_word(
    reason: RejectReason,
    printed: String,
    retryable: bool,
)
    ensures
        client_failure(ClientError::Rejected { reason, printed, retryable }).retryable == retryable,
{
}

/// An answer is taken only if it is to the request that was sent and of the verb that was asked
/// for, and is no refusal.
pub proof fn law_only_an_answer_to_the_request_is_taken(
    asked: Seq<char>,
    id: Seq<char>,
    answer: Answer,
)
    ensures
        answers(asked, id, Some(answer)) <==> answer.request_id@ == id && answer.verb@ == asked
            && !(answer.payload is Error),
        !answers(asked, id, None),
{
}

/// What an answer falls short by is told apart: silence, the daemon's own refusal, handed on as
/// it is, and an answer to something else, which is never passed off as either.
pub proof fn law_what_an_answer_falls_short_by(
    err: ClientError,
    asked: Seq<char>,
    id: Seq<char>,
    answer: Option<Answer>,
)
    requires
        falls_short(err, asked, id, answer),
    ensures
        err is NoAnswer <==> answer is None,
        err is Verb <==> answer is Some && answer->0.request_id@ == id && answer->0.payload is Error,
        err is NoAnswer || err is Verb || err is Mismatched,
        err matches ClientError::Verb { envelope, printed } ==> answer->0.payload
            == ResponsePayload::Error(envelope) && client_failure(err) == envelope@ && printed
            == answer->0.printed,
        err matches ClientError::Mismatched { asked: sent, answered } ==> sent@ == asked
            && answered@ == answer->0.verb@,
{
}

/// A client's failure says what happened and whether to try again: a refused verb is the
/// daemon's own word, an endpoint that cannot be found and a wrong answer are not worth another
/// try, a lost connection is, and where nothing listens the command that starts a daemon is
/// offered.
pub proof fn law_a_client_failure_says_what_to_do(err: ClientError)
    ensures
        err matches ClientError::Verb { envelope, .. } ==> client_failure(err) == envelope@,
        !(err is Verb) ==> client_failure(err).message == client_said(err),
        err is Endpoint || err is Mismatched ==> !client_failure(err).retryable,
        err is Transport || err is Control || err is NoAnswer ==> client_failure(err).retryable,
        err is Rejected ==> client_failure(err).code == ErrorCode::Unsupported,
        err is Endpoint || err is Mismatched || err is Transport || err is Control || err
            is NoAnswer ==> client_failure(err).code == ErrorCode::Internal,
        err matches ClientError::Transport(TransportError::NotListening { .. })
            ==> client_failure(err).command == seq!["nysia"@, "--daemon"@],
        err is Endpoint || err is Mismatched || err is Rejected || err is Control || err
            is NoAnswer ==> client_failure(err).command.len() == 0,
        err matches ClientError::Transport(TransportError::Failed { .. }) ==> client_failure(
            err,
        ).command.len() == 0,
{
}

/// What a client says of a failure is what it heard of it.
pub proof fn law_a_client_says_what_it_heard(err: ClientError)
    ensures
        err matches ClientError::Endpoint(why) ==> client_said(err) == resolve_said(why),
        err matches ClientError::Transport(TransportError::NotListening { said })
            ==> client_said(err) == said@,
        err matches ClientError::Transport(TransportError::Failed { said }) ==> client_said(err)
            == said@,
        err matches ClientError::Control(why) ==> client_said(err) == control_said(why),
        err matches ClientError::Verb { printed, .. } ==> client_said(err) == printed@,
        err matches ClientError::Rejected { printed, .. } ==> client_said(err).skip(
            client_said(err).len() - printed@.len(),
        ) == printed@,
        err matches ClientError::Mismatched { asked, answered } ==> client_said(err).skip(
            client_said(err).len() - answered@.len(),
        ) == answered@ && client_said(err).subrange(
            "asked for "@.len() as int,
            "asked for "@.len() as int + asked@.len() as int,
        ) == asked@,
{
    let said = client_said(err);
    match err {
        ClientError::Rejected { printed, .. } => {
            assert(said.skip(said.len() - printed@.len()) =~= printed@);
        },
        ClientError::Mismatched { asked, answered } => {
            assert(said.skip(said.len() - answered@.len()) =~= answered@);
            let lead = "asked for "@;
            assert(said.subrange(lead.len() as int, lead.len() as int + asked@.len() as int)
                =~= asked@);
        },
        _ => {},
    }
}

/// A client that was refused is told to do different things about a version, an account and a
/// daemon that is going away; where the two do not understand each other it is told to upgrade.
pub proof fn law_each_refusal_has_its_own_advice(a: RejectReason, b: RejectReason)
    ensures
        a is UnsupportedVersion && b is Unauthorized ==> reject_step(a) != reject_step(b),
        a is UnsupportedVersion && b is ShuttingDown ==> reject_step(a) != reject_step(b),
        a is Unauthorized && b is ShuttingDown ==> reject_step(a) != reject_step(b),
        a is Malformed && b is Unknown ==> reject_step(a) == reject_step(b),
        a is Malformed && (b is UnsupportedVersion || b is Unauthorized || b is ShuttingDown)
            ==> reject_step(a) != reject_step(b),
{
    reveal_strlit(
        "this build and the running daemon speak different protocols; stop the daemon and let this build start one",
    );
    reveal_strlit("the daemon serves one account; run as the user that started it");
    reveal_strlit("the daemon is retiring; retry in a moment");
    reveal_strlit("upgrade the client, the daemon, or both so they agree on the protocol");
    assert("the daemon serves one account; run as the user that started it"@[11] == 's');
    assert("the daemon is retiring; retry in a moment"@[11] == 'i');
    assert("the daemon is retiring; retry in a moment"@[2] == 'e');
    assert("the daemon serves one account; run as the user that started it"@[2] == 'e');
    assert(
        "this build and the running daemon speak different protocols; stop the daemon and let this build start one"@[2]
            == 'i');
    assert("upgrade the client, the daemon, or both so they agree on the protocol"@[0] == 'u');
    assert("the daemon is retiring; retry in a moment"@[0] == 't');
    assert("the daemon serves one account; run as the user that started it"@[0] == 't');
    assert(
        "this build and the running daemon speak different protocols; stop the daemon and let this build start one"@[0]
            == 't');
}

} // verus!
