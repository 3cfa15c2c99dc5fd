//! The values a client and the daemon exchange, as the rest of the library reads them.
use vstd::prelude::*;
use crate::text::{blank, is_blank, views, white_space};

verus! {

/// The platform a daemon runs on, where the two differ.
#[derive(Clone, Copy, Debug, PartialEq, Eq, Structural)]
pub enum Platform {
    /// macOS and Linux.
    Unix,
    /// Windows.
    Windows,
}

/// The runtime-scoped id a client routes to a session by.
#[derive(Debug, PartialEq, Eq)]
pub struct SessionHandle {
    /// The id as it is spelled.
    pub text: String,
}

impl Clone for SessionHandle {
    fn clone(&self) -> (out: Self)
        ensures
            out == *self,
    {
        SessionHandle { text: self.text.clone() }
    }
}

/// The durable identity of a pane, `<tab>:<leaf>`.
#[derive(Debug, PartialEq, Eq)]
pub struct PaneKey {
    /// The key as it is spelled.
    pub text: String,
}

impl Clone for PaneKey {
    fn clone(&self) -> (out: Self)
        ensures
            out == *self,
    {
        PaneKey { text: self.text.clone() }
    }
}

/// One spawn in a pane, distinct from a later one in the same pane.
#[derive(Debug, PartialEq, Eq)]
pub struct Incarnation {
    /// The pane.
    pub pane: PaneKey,
    /// How many spawns that pane had before this one.
    pub generation: u32,
}

impl Clone for Incarnation {
    fn clone(&self) -> (out: Self)
        ensures
            out == *self,
    {
        Incarnation { pane: self.pane.clone(), generation: self.generation }
    }
}

/// How a session's process ended.
#[derive(Clone, Copy, Debug, PartialEq, Eq, Structural)]
pub enum SessionExit {
    /// It exited on its own.
    Exited {
        /// With this code.
        code: i32,
    },
    /// A signal ended it.
    Signaled {
        /// This one.
        signal: i32,
    },
}

/// The most payload bytes one frame carries.
pub const MAX_FRAME_PAYLOAD_BYTES: usize = 1024 * 1024;

/// A stream's number on the connection that carries it.
#[derive(Clone, Copy, Debug, PartialEq, Eq, Structural)]
pub struct StreamId {
    /// The number.
    pub raw: u32,
}

impl StreamId {
    /// The first id a connection hands out.
    pub fn first() -> (out: StreamId)
        ensures
            out.raw == 1,
    {
        StreamId { raw: 1 }
    }

    /// The id after this one, or `None` when there is none left.
    pub fn next(self) -> (out: Option<StreamId>)
        ensures
            out is None <==> self.raw == u32::MAX,
            out is Some ==> out->0.raw == self.raw + 1,
    {
        if self.raw == u32::MAX {
            None
        } else {
            Some(StreamId { raw: self.raw + 1 })
        }
    }

    /// The number.
    pub fn get(self) -> (out: u32)
        ensures
            out == self.raw,
    {
        self.raw
    }
}

/// How much output may be in flight before the daemon stops reading.
#[derive(Clone, Copy, Debug, PartialEq, Eq, Structural)]
pub struct CreditWindow {
    /// What a stream opens with.
    pub per_stream_initial: u32,
    /// The most a stream may hold.
    pub per_stream_max: u32,
    /// What a connection opens with.
    pub total_initial: u32,
    /// The most a connection may hold.
    pub total_max: u32,
    /// The most that may wait.
    pub pending_cap: u32,
    /// How much a client renders between acks.
    pub ack_batch: u32,
    /// The payload of one output frame.
    pub chunk: u32,
}

/// What a credit frame says.
#[derive(Clone, Copy, Debug, PartialEq, Eq, Structural)]
pub enum CreditFrame {
    /// The consumer rendered this much.
    Ack {
        /// In payload bytes.
        bytes: u32,
    },
    /// The producer allows this much, under this window.
    Grant {
        /// In payload bytes.
        bytes: u32,
        /// The window in force.
        window: CreditWindow,
    },
}

/// What a frame carries.
#[derive(Debug)]
pub enum FrameBody {
    /// A session's raw output. The only kind that spends credit.
    Output(Vec<u8>),
    /// Credit, either way.
    Credit(CreditFrame),
    /// The session's process has ended.
    Exit(SessionExit),
    /// The terminal rang.
    Bell(Vec<u8>),
    /// The replay is over; what follows is live.
    ReplayEnd,
    /// A pane's whole agent status.
    AgentStatus(Vec<u8>),
}

/// One frame on a stream connection.
#[derive(Debug)]
pub struct Frame {
    /// The stream it belongs to.
    pub stream: StreamId,
    /// What it carries.
    pub body: FrameBody,
}

/// What a frame carries, by value.
pub enum BodyView {
    /// A session's raw output.
    Output(Seq<u8>),
    /// Credit, either way.
    Credit(CreditFrame),
    /// The session's process has ended.
    Exit(SessionExit),
    /// The terminal rang.
    Bell(Seq<u8>),
    /// The replay is over.
    ReplayEnd,
    /// A pane's whole agent status.
    AgentStatus(Seq<u8>),
}

/// One frame, by value.
pub struct FrameView {
    /// The stream it belongs to.
    pub stream: u32,
    /// What it carries.
    pub body: BodyView,
}

impl View for Frame {
    type V = FrameView;

    open spec fn view(&self) -> FrameView {
        FrameView {
            stream: self.stream.raw,
            body: match self.body {
                FrameBody::Output(bytes) => BodyView::Output(bytes@),
                FrameBody::Credit(credit) => BodyView::Credit(credit),
                FrameBody::Exit(status) => BodyView::Exit(status),
                FrameBody::Bell(bytes) => BodyView::Bell(bytes@),
                FrameBody::ReplayEnd => BodyView::ReplayEnd,
                FrameBody::AgentStatus(bytes) => BodyView::AgentStatus(bytes@),
            },
        }
    }
}

/// What kind of refusal an envelope carries.
#[derive(Clone, Copy, Debug, PartialEq, Eq, Structural)]
pub enum ErrorCode {
    /// The GitHub CLI is not installed.
    GhMissing,
    /// The GitHub CLI has no usable login.
    GhUnauthenticated,
    /// A fault on the daemon's side.
    Internal,
    /// The request was not well formed.
    InvalidRequest,
    /// A path was refused.
    PathRefused,
    /// A path could not be read.
    PathUnreadable,
    /// An outside query failed.
    QueryFailed,
    /// The session, or its pane, is in use.
    SessionBusy,
    /// A program could not be started.
    SpawnFailed,
    /// No project by that id.
    UnknownProject,
    /// No session by that handle.
    UnknownSession,
    /// The daemon does not do that.
    Unsupported,
}

/// The same texts again.
pub fn copied_texts(texts: &Vec<String>) -> (out: Vec<String>)
    ensures
        views(out@) == views(texts@),
{
    let mut out: Vec<String> = Vec::new();
    let mut i: usize = 0;
    while i < texts.len()
        invariant
            i <= texts.len(),
            out@.len() == i,
            forall|j: int| 0 <= j < i ==> (#[trigger] out@[j])@ == texts@[j]@,
        decreases texts.len() - i,
    {
        out.push(texts[i].clone());
        i = i + 1;
    }
    assert(views(out@) =~= views(texts@));
    out
}

/// What a caller can do next: never empty, never blank.
#[derive(Debug)]
pub struct NextSteps {
    list: Vec<String>,
}

impl View for NextSteps {
    type V = Seq<Seq<char>>;

    closed spec fn view(&self) -> Seq<Seq<char>> {
        views(self.list@)
    }
}

/// A list of steps a caller can act on: at least one, and none of them blank.
pub open spec fn actionable(steps: Seq<Seq<char>>) -> bool {
    &&& steps.len() >= 1
    &&& forall|i: int| 0 <= i < steps.len() ==> !blank(#[trigger] steps[i])
}

impl NextSteps {
    /// The list is never empty and holds no blank step.
    #[verifier::type_invariant]
    spec fn well_formed(self) -> bool {
        actionable(views(self.list@))
    }

    /// A list of one step, or `None` when that step is blank.
    pub fn new(first: &str) -> (out: Option<NextSteps>)
        ensures
            out is None <==> blank(first@),
            out is Some ==> out->0@ == seq![first@],
    {
        if is_blank(first) {
            None
        } else {
            let list: Vec<String> = vec![first.to_owned()];
            assert(views(list@) =~= seq![first@]);
            Some(NextSteps { list })
        }
    }

    /// The list with one more step at its end; a blank one changes nothing.
    pub fn and(self, step: &str) -> (out: NextSteps)
        ensures
            out@ == (if blank(step@) {
                self@
            } else {
                self@.push(step@)
            }),
    {
        proof {
            use_type_invariant(&self);
        }
        if is_blank(step) {
            self
        } else {
            let ghost before = views(self.list@);
            let mut list = self.list;
            list.push(step.to_owned());
            assert(views(list@) =~= before.push(step@));
            NextSteps { list }
        }
    }

    /// The same steps again.
    pub fn copied(&self) -> (out: NextSteps)
        ensures
            out@ == self@,
    {
        proof {
            use_type_invariant(self);
        }
        let list = copied_texts(&self.list);
        NextSteps { list }
    }

    /// The steps, in order.
    pub fn list(&self) -> (out: &Vec<String>)
        ensures
            views(out@) == self@,
            actionable(self@),
    {
        proof {
            use_type_invariant(self);
        }
        &self.list
    }
}

/// A refusal a caller can act on.
#[derive(Debug)]
pub struct ErrorEnvelope {
    code: ErrorCode,
    message: String,
    next_steps: NextSteps,
    retryable: bool,
    next_command_args: Vec<String>,
}

/// What an envelope says.
#[verifier::ext_equal]
pub struct EnvelopeView {
    /// Which kind of refusal.
    pub code: ErrorCode,
    /// What happened.
    pub message: Seq<char>,
    /// What to do about it.
    pub steps: Seq<Seq<char>>,
    /// Whether sending the same request again can succeed.
    pub retryable: bool,
    /// The command that would help, as its arguments; empty when there is none.
    pub command: Seq<Seq<char>>,
}

impl View for ErrorEnvelope {
    type V = EnvelopeView;

    closed spec fn view(&self) -> EnvelopeView {
        EnvelopeView {
            code: self.code,
            message: self.message@,
            steps: self.next_steps@,
            retryable: self.retryable,
            command: views(self.next_command_args@),
        }
    }
}

/// An envelope that is not to be retried and names no command.
pub open spec fn refusal(
    code: ErrorCode,
    message: Seq<char>,
    steps: Seq<Seq<char>>,
) -> EnvelopeView {
    EnvelopeView { code, message, steps, retryable: false, command: Seq::empty() }
}

impl ErrorEnvelope {
    /// An envelope, not to be retried and naming no command.
    pub fn new(code: ErrorCode, message: String, next_steps: NextSteps) -> (out: ErrorEnvelope)
        ensures
            out@ == refusal(code, message@, next_steps@),
    {
        let args: Vec<String> = Vec::new();
        assert(views(args@) =~= Seq::empty());
        ErrorEnvelope { code, message, next_steps, retryable: false, next_command_args: args }
    }

    /// The same envelope, saying whether a retry can succeed.
    pub fn retryable(self, retryable: bool) -> (out: ErrorEnvelope)
        ensures
            out@ == (EnvelopeView { retryable, ..self@ }),
    {
        ErrorEnvelope {
            code: self.code,
            message: self.message,
            next_steps: self.next_steps,
            retryable,
            next_command_args: self.next_command_args,
        }
    }

    /// The same envelope, naming the command that would help.
    pub fn with_next_command_args(self, args: Vec<String>) -> (out: ErrorEnvelope)
        ensures
            out@ == (EnvelopeView { command: views(args@), ..self@ }),
    {
        ErrorEnvelope {
            code: self.code,
            message: self.message,
            next_steps: self.next_steps,
            retryable: self.retryable,
            next_command_args: args,
        }
    }

    /// The same envelope again.
    pub fn copied(&self) -> (out: ErrorEnvelope)
        ensures
            out@ == self@,
    {
        ErrorEnvelope {
            code: self.code,
            message: self.message.clone(),
            next_steps: self.next_steps.copied(),
            retryable: self.retryable,
            next_command_args: copied_texts(&self.next_command_args),
        }
    }

    /// Which kind of refusal this is.
    pub fn code(&self) -> (out: ErrorCode)
        ensures
            out == self@.code,
    {
        self.code
    }

    /// What happened.
    pub fn message(&self) -> (out: &str)
        ensures
            out@ == self@.message,
    {
        self.message.as_str()
    }

    /// What to do about it: at least one step, none of them blank.
    pub fn next_steps(&self) -> (out: &Vec<String>)
        ensures
            views(out@) == self@.steps,
            actionable(self@.steps),
    {
        self.next_steps.list()
    }

    /// Whether sending the same request again can succeed.
    pub fn is_retryable(&self) -> (out: bool)
        ensures
            out == self@.retryable,
    {
        self.retryable
    }

    /// The command that would help, as its arguments; empty when there is none.
    pub fn next_command_args(&self) -> (out: &Vec<String>)
        ensures
            views(out@) == self@.command,
    {
        &self.next_command_args
    }
}

/// A refusal carries what it was made with, offers no retry and no command.
pub proof fn law_a_refusal_is_what_it_was_made_of(
    code: ErrorCode,
    message: Seq<char>,
    steps: Seq<Seq<char>>,
)
    ensures
        refusal(code, message, steps).code == code,
        refusal(code, message, steps).message == message,
        refusal(code, message, steps).steps == steps,
        !refusal(code, message, steps).retryable,
        refusal(code, message, steps).command.len() == 0,
{
}

/// Advice is actionable if there is some and none of it is empty.
pub proof fn law_advice_says_something(steps: Seq<Seq<char>>, i: int)
    requires
        actionable(steps),
    ensures
        steps.len() > 0,
        0 <= i < steps.len() ==> steps[i].len() > 0 && exists|k: int|
            0 <= k < steps[i].len() && !white_space(#[trigger] steps[i][k]),
        !actionable(Seq::empty()),
{
}

/// A frame is seen as it is: on its own stream, with what it carries.
pub proof fn law_a_frame_is_seen_as_it_is(frame: Frame)
    ensures
        frame@.stream == frame.stream.raw,
        frame.body matches FrameBody::Output(bytes) ==> frame@.body == BodyView::Output(bytes@),
        frame.body matches FrameBody::Credit(credit) ==> frame@.body == BodyView::Credit(credit),
        frame.body matches FrameBody::Exit(status) ==> frame@.body == BodyView::Exit(status),
        frame.body matches FrameBody::Bell(bytes) ==> frame@.body == BodyView::Bell(bytes@),
        frame.body matches FrameBody::ReplayEnd ==> frame@.body == BodyView::ReplayEnd,
        frame.body matches FrameBody::AgentStatus(bytes) ==> frame@.body == BodyView::AgentStatus(
            bytes@,
        ),
{
}

} // verus!
