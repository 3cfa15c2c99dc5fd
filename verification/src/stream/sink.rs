//! One client's view of one session's output.
//!
//! Each sink holds an allowance in bytes. An output frame spends its payload length; an ack
//! from the client replenishes it, up to the window's ceiling. At zero the sink is blocked and
//! whoever feeds it stops reading the pty. Only output spends: an exit or a bell is never
//! acked, so charging for one would leak the allowance.
use vstd::prelude::*;
use crate::wire::{
    BodyView, CreditFrame, CreditWindow, Frame, FrameBody, FrameView, SessionExit, StreamId,
    MAX_FRAME_PAYLOAD_BYTES,
};

verus! {

/// `tokio::sync::mpsc::Sender`: the writing half of a bounded queue.
#[verifier::external_type_specification]
#[verifier::external_body]
#[verifier::reject_recursive_types(T)]
pub struct ExSender<T>(tokio::sync::mpsc::Sender<T>);

/// `tokio::sync::mpsc::Receiver`: the reading half of a bounded queue.
#[verifier::external_type_specification]
#[verifier::external_body]
#[verifier::reject_recursive_types(T)]
pub struct ExReceiver<T>(tokio::sync::mpsc::Receiver<T>);

/// The frames that have entered the queue through this sender, in order.
pub uninterp spec fn accepted(frames: tokio::sync::mpsc::Sender<Frame>) -> Seq<FrameView>;

/// Which queue this sender puts frames into: one number for each queue.
pub uninterp spec fn feeds(frames: tokio::sync::mpsc::Sender<Frame>) -> nat;

/// Which queue this receiver takes frames out of, by the same numbers.
pub uninterp spec fn drains(frames: tokio::sync::mpsc::Receiver<Frame>) -> nat;

/// What the queue has answered through this sender, in order.
pub uninterp spec fn heard(frames: tokio::sync::mpsc::Sender<Frame>) -> Seq<Heard>;

/// One answer of a queue.
#[derive(Clone, Copy, Debug, PartialEq, Eq, Structural)]
pub enum Heard {
    /// Whether its reader had gone.
    Gone(bool),
    /// What became of a frame that was offered to it.
    Offered(Offer),
}

/// What became of a frame offered to a queue.
#[derive(Clone, Copy, Debug, PartialEq, Eq, Structural)]
pub enum Offer {
    /// It is in the queue.
    Taken,
    /// The queue is full.
    Full,
    /// Nobody will read the queue again.
    Gone,
}

/// `tokio::sync::mpsc::channel`: the two ends of one queue of the given capacity, into which
/// nothing has been put and which has answered nothing. It panics on a capacity of zero and on
/// one above an eighth of `usize::MAX`. That the queue is no other caller's is left unsaid: the
/// call is handed no other queue to compare it with.
#[verifier::external_body]
pub(crate) fn open_outbox(capacity: usize) -> (out: (
    tokio::sync::mpsc::Sender<Frame>,
    tokio::sync::mpsc::Receiver<Frame>,
))
    requires
        0 < capacity <= usize::MAX / 8,
    ensures
        accepted(out.0) == Seq::<FrameView>::empty(),
        heard(out.0) == Seq::<Heard>::empty(),
        feeds(out.0) == drains(out.1),
{
    tokio::sync::mpsc::channel(capacity)
}

/// `tokio::sync::mpsc::Sender::clone`: a second sender into the same queue, through which
/// nothing has been put and nothing answered.
#[verifier::external_body]
pub(crate) fn second_sender(frames: &tokio::sync::mpsc::Sender<Frame>) -> (out: tokio::sync::mpsc::Sender<
    Frame,
>)
    ensures
        accepted(out) == Seq::<FrameView>::empty(),
        heard(out) == Seq::<Heard>::empty(),
        feeds(out) == feeds(*frames),
{
    frames.clone()
}

/// `tokio::sync::mpsc::Sender::is_closed`: whether the reading half has gone. Which it is
/// depends on what the reader has done by now; the answer is recorded, and nothing is put in
/// the queue.
#[verifier::external_body]
fn reader_gone(frames: &mut tokio::sync::mpsc::Sender<Frame>) -> (gone: bool)
    ensures
        heard(*final(frames)) == heard(*old(frames)).push(Heard::Gone(gone)),
        accepted(*final(frames)) == accepted(*old(frames)),
        feeds(*final(frames)) == feeds(*old(frames)),
{
    frames.is_closed()
}

/// `tokio::sync::mpsc::Sender::try_send`: the frame is put at the end of the queue, or nothing
/// is. Which of the two depends on what the reader has taken by now; the answer is recorded.
#[verifier::external_body]
fn offer(frames: &mut tokio::sync::mpsc::Sender<Frame>, frame: Frame) -> (out: Offer)
    ensures
        accepted(*final(frames)) == (if out is Taken {
            accepted(*old(frames)).push(frame@)
        } else {
            accepted(*old(frames))
        }),
        heard(*final(frames)) == heard(*old(frames)).push(Heard::Offered(out)),
        feeds(*final(frames)) == feeds(*old(frames)),
{
    match frames.try_send(frame) {
        Ok(()) => Offer::Taken,
        Err(tokio::sync::mpsc::error::TrySendError::Full(_)) => Offer::Full,
        Err(tokio::sync::mpsc::error::TrySendError::Closed(_)) => Offer::Gone,
    }
}

/// What became of a frame handed to a sink.
#[derive(Clone, Copy, Debug, PartialEq, Eq, Structural)]
pub enum SendOutcome {
    /// The frame is on its way and the allowance has been spent.
    Sent,
    /// The sink has no allowance or no room. The caller must keep the bytes and retry.
    WouldBlock,
    /// The client is gone. The sink can be forgotten.
    Closed,
    /// The frame is longer than the wire carries, and was dropped. Nothing has been spent, and
    /// sending it again would come to the same.
    Dropped,
}

/// What a sink decides about a frame before it offers it.
#[derive(Clone, Copy, Debug, PartialEq, Eq, Structural)]
pub enum Admission {
    /// The client is gone.
    Closed,
    /// The allowance is spent.
    WouldBlock,
    /// No frame may carry that much; it is dropped.
    TooLong,
    /// It may be offered to the queue.
    Offered,
}

/// One client's view of one session's output.
#[derive(Debug)]
pub struct StreamSink {
    stream_id: StreamId,
    frames: tokio::sync::mpsc::Sender<Frame>,
    credit: i64,
    window: CreditWindow,
    closed: bool,
    delivered: usize,
}

/// What a sink holds.
pub struct SinkView {
    /// Its id on its own connection.
    pub id: u32,
    /// The window in force.
    pub window: CreditWindow,
    /// Bytes it may still send.
    pub credit: int,
    /// Whether it was closed.
    pub closed: bool,
    /// How far into the coalesced buffer it has got.
    pub delivered: nat,
    /// The frames it has put in the queue, in order.
    pub taken: Seq<FrameView>,
    /// Which queue that is.
    pub queue: nat,
    /// What the queue has answered it, in order.
    pub heard: Seq<Heard>,
}

impl View for StreamSink {
    type V = SinkView;

    closed spec fn view(&self) -> SinkView {
        SinkView {
            id: self.stream_id.raw,
            window: self.window,
            credit: self.credit as int,
            closed: self.closed,
            delivered: self.delivered as nat,
            taken: accepted(self.frames),
            queue: feeds(self.frames),
            heard: heard(self.frames),
        }
    }
}

/// A sink into that queue as it opens.
pub open spec fn fresh_sink(id: u32, window: CreditWindow, queue: nat) -> SinkView {
    SinkView {
        id,
        window,
        credit: window.per_stream_initial as int,
        closed: false,
        delivered: 0,
        taken: Seq::empty(),
        queue,
        heard: Seq::empty(),
    }
}

/// A sink once its queue has answered whether the reader has gone.
pub open spec fn asked(sink: SinkView, gone: bool) -> SinkView {
    SinkView { heard: sink.heard.push(Heard::Gone(gone)), ..sink }
}

/// What a frame costs: its payload if it is output, nothing otherwise.
pub open spec fn cost(frame: FrameView) -> nat {
    match frame.body {
        BodyView::Output(bytes) => bytes.len(),
        _ => 0,
    }
}

/// Whether a frame's payload is more than the wire carries.
pub open spec fn too_long(frame: FrameView) -> bool {
    match frame.body {
        BodyView::Output(bytes) => bytes.len() > MAX_FRAME_PAYLOAD_BYTES,
        BodyView::Bell(bytes) => bytes.len() > MAX_FRAME_PAYLOAD_BYTES,
        BodyView::AgentStatus(bytes) => bytes.len() > MAX_FRAME_PAYLOAD_BYTES,
        _ => false,
    }
}

/// What a sink decides about a frame before it offers it, given whether the reader has gone.
pub open spec fn admission(sink: SinkView, frame: FrameView, gone: bool) -> Admission {
    if sink.closed || gone {
        Admission::Closed
    } else if frame.body is Output && sink.credit <= 0 {
        Admission::WouldBlock
    } else if too_long(frame) {
        Admission::TooLong
    } else {
        Admission::Offered
    }
}

/// A sink and the outcome after a send, given whether the reader has gone and what became of
/// the frame if it was offered. Both answers are among what the sink has then heard.
pub open spec fn sent(sink: SinkView, frame: FrameView, gone: bool, offer: Offer) -> (
    SinkView,
    SendOutcome,
) {
    let after = asked(sink, gone);
    match admission(sink, frame, gone) {
        Admission::Closed => (SinkView { closed: true, ..after }, SendOutcome::Closed),
        Admission::WouldBlock => (after, SendOutcome::WouldBlock),
        Admission::TooLong => (after, SendOutcome::Dropped),
        Admission::Offered => {
            let told = SinkView { heard: after.heard.push(Heard::Offered(offer)), ..after };
            match offer {
                Offer::Taken => (
                    SinkView {
                        credit: sink.credit - cost(frame),
                        taken: sink.taken.push(frame),
                        ..told
                    },
                    SendOutcome::Sent,
                ),
                Offer::Full => (told, SendOutcome::WouldBlock),
                Offer::Gone => (SinkView { closed: true, ..told }, SendOutcome::Closed),
            }
        },
    }
}

/// The allowance after an ack: what was acked comes back, up to the window's ceiling.
pub open spec fn replenished(credit: int, window: CreditWindow, bytes: u32) -> int {
    if credit + bytes <= window.per_stream_max {
        credit + bytes
    } else {
        window.per_stream_max as int
    }
}

impl StreamSink {
    /// A sink writing to `frames`, opening with `window`'s initial per-stream allowance.
    pub fn new(
        stream_id: StreamId,
        frames: tokio::sync::mpsc::Sender<Frame>,
        window: CreditWindow,
    ) -> (out: StreamSink)
        ensures
            out@ == (SinkView {
                taken: accepted(frames),
                heard: heard(frames),
                ..fresh_sink(stream_id.raw, window, feeds(frames))
            }),
    {
        StreamSink {
            stream_id,
            frames,
            credit: window.per_stream_initial as i64,
            window,
            closed: false,
            delivered: 0,
        }
    }

    /// The id the daemon assigned this stream, on its own connection.
    pub fn stream_id(&self) -> (out: StreamId)
        ensures
            out.raw == self@.id,
    {
        self.stream_id
    }

    /// The window in force.
    pub fn window(&self) -> (out: CreditWindow)
        ensures
            out == self@.window,
    {
        self.window
    }

    /// Bytes the daemon may still send before it must stop reading.
    pub fn credit(&self) -> (out: i64)
        ensures
            out == self@.credit,
    {
        self.credit
    }

    /// Whether the allowance is spent.
    pub fn is_blocked(&self) -> (out: bool)
        ensures
            out == (self@.credit <= 0),
    {
        self.credit <= 0
    }

    /// Whether nobody will read this sink's queue again: the queue's own answer at the moment
    /// of the call, which the sink has then heard.
    pub(crate) fn is_unread(&mut self) -> (gone: bool)
        ensures
            final(self)@ == asked(old(self)@, gone),
    {
        reader_gone(&mut self.frames)
    }

    /// Whether the client has gone, given whether the reader of its queue has.
    pub fn is_closed_given(&self, gone: bool) -> (out: bool)
        ensures
            out == (self@.closed || gone),
    {
        self.closed || gone
    }

    /// Whether the client has gone: the sink was closed, or nobody will read its queue again.
    ///
    /// The second half is the queue's own answer, asked for through a sender of its own so that
    /// nothing of this sink changes; [`StreamSink::is_closed_given`] says what each answer leads
    /// to.
    pub fn is_closed(&self) -> (out: bool)
        ensures
            self@.closed ==> out,
    {
        let mut asking = second_sender(&self.frames);
        let gone = reader_gone(&mut asking);
        self.is_closed_given(gone)
    }

    /// Mark the sink closed, so that nothing counts it any more.
    pub fn close(&mut self)
        ensures
            final(self)@ == (SinkView { closed: true, ..old(self)@ }),
    {
        self.closed = true;
    }

    /// Apply a client's ack, returning the allowance that results.
    ///
    /// Capped at the window's per-stream maximum: a client that acked more than it was ever
    /// sent must not be able to turn the window off.
    pub fn replenish(&mut self, bytes: u32) -> (out: i64)
        ensures
            final(self)@ == (SinkView {
                credit: replenished(old(self)@.credit, old(self)@.window, bytes),
                ..old(self)@
            }),
            out == final(self)@.credit,
    {
        let ceiling: i64 = self.window.per_stream_max as i64;
        let grown: Option<i64> = self.credit.checked_add(bytes as i64);
        let next: i64 = match grown {
            Some(sum) => if sum < ceiling {
                sum
            } else {
                ceiling
            },
            None => ceiling,
        };
        self.credit = next;
        next
    }

    /// How far into the current coalesced buffer this sink has got.
    pub fn delivered(&self) -> (out: usize)
        ensures
            out == self@.delivered,
    {
        self.delivered
    }

    /// Record how far into that buffer this sink has now got.
    pub fn set_delivered(&mut self, bytes: usize)
        ensures
            final(self)@ == (SinkView { delivered: bytes as nat, ..old(self)@ }),
    {
        self.delivered = bytes;
    }

    /// What this sink decides about `frame` before it offers it, given whether the reader of
    /// its queue has gone.
    pub fn consider(&self, frame: &Frame, gone: bool) -> (out: Admission)
        ensures
            out == admission(self@, frame@, gone),
    {
        if self.closed || gone {
            return Admission::Closed;
        }
        match &frame.body {
            FrameBody::Output(bytes) => {
                if self.credit <= 0 {
                    Admission::WouldBlock
                } else if bytes.len() > MAX_FRAME_PAYLOAD_BYTES {
                    Admission::TooLong
                } else {
                    Admission::Offered
                }
            },
            FrameBody::Bell(bytes) => {
                if bytes.len() > MAX_FRAME_PAYLOAD_BYTES {
                    Admission::TooLong
                } else {
                    Admission::Offered
                }
            },
            FrameBody::AgentStatus(bytes) => {
                if bytes.len() > MAX_FRAME_PAYLOAD_BYTES {
                    Admission::TooLong
                } else {
                    Admission::Offered
                }
            },
            FrameBody::Credit(_) => Admission::Offered,
            FrameBody::Exit(_) => Admission::Offered,
            FrameBody::ReplayEnd => Admission::Offered,
        }
    }

    /// Settle a frame that cost `spent`, given what became of it when it was offered.
    pub fn settle(&mut self, spent: usize, offer: Offer) -> (out: SendOutcome)
        requires
            spent <= MAX_FRAME_PAYLOAD_BYTES,
            spent > 0 ==> old(self)@.credit > 0,
        ensures
            final(self)@ == (match offer {
                Offer::Taken => SinkView { credit: old(self)@.credit - spent, ..old(self)@ },
                Offer::Full => old(self)@,
                Offer::Gone => SinkView { closed: true, ..old(self)@ },
            }),
            out == (match offer {
                Offer::Taken => SendOutcome::Sent,
                Offer::Full => SendOutcome::WouldBlock,
                Offer::Gone => SendOutcome::Closed,
            }),
    {
        match offer {
            Offer::Taken => {
                if spent > 0 {
                    self.credit = self.credit - spent as i64;
                }
                SendOutcome::Sent
            },
            Offer::Full => SendOutcome::WouldBlock,
            Offer::Gone => {
                self.closed = true;
                SendOutcome::Closed
            },
        }
    }

    /// Send `frame`, spending allowance for the output bytes it carries.
    ///
    /// Whether the reader has gone, and whether its queue has room, is the queue's own answer
    /// at the moment of the call; [`StreamSink::consider`] and [`StreamSink::settle`] say what
    /// each answer leads to.
    pub fn send(&mut self, frame: Frame) -> (out: SendOutcome)
        ensures
            exists|gone: bool, offer: Offer|
                (final(self)@, out) == #[trigger] sent(old(self)@, frame@, gone, offer),
    {
        let ghost before = self@;
        let gone = reader_gone(&mut self.frames);
        match self.consider(&frame, gone) {
            Admission::Closed => {
                self.closed = true;
                assert((self@, SendOutcome::Closed) == sent(before, frame@, gone, Offer::Full));
                SendOutcome::Closed
            },
            Admission::WouldBlock => {
                assert((self@, SendOutcome::WouldBlock) == sent(before, frame@, gone, Offer::Full));
                SendOutcome::WouldBlock
            },
            Admission::TooLong => {
                assert((self@, SendOutcome::Dropped) == sent(before, frame@, gone, Offer::Full));
                SendOutcome::Dropped
            },
            Admission::Offered => {
                let spent: usize = match &frame.body {
                    FrameBody::Output(bytes) => bytes.len(),
                    _ => 0,
                };
                let ghost given = frame@;
                let answer = offer(&mut self.frames, frame);
                let out = self.settle(spent, answer);
                assert((self@, out) == sent(before, given, gone, answer));
                out
            },
        }
    }

    /// The opening grant, which is how the client learns the window without holding a copy of
    /// the constants.
    pub fn opening_grant(&self) -> (out: Frame)
        ensures
            out@ == opening_grant(self@),
    {
        Frame {
            stream: self.stream_id,
            body: FrameBody::Credit(
                CreditFrame::Grant { bytes: self.window.per_stream_initial, window: self.window },
            ),
        }
    }
}

/// The grant a stream opens with.
pub open spec fn opening_grant(sink: SinkView) -> FrameView {
    FrameView {
        stream: sink.id,
        body: BodyView::Credit(
            CreditFrame::Grant { bytes: sink.window.per_stream_initial, window: sink.window },
        ),
    }
}

/// A frame that is not output leaves the allowance alone.
pub proof fn law_only_output_spends(sink: SinkView, frame: FrameView, gone: bool, offer: Offer)
    requires
        !(frame.body is Output),
    ensures
        sent(sink, frame, gone, offer).0.credit == sink.credit,
        !(sent(sink, frame, gone, offer).1 is WouldBlock) || offer is Full,
{
}

/// A frame that was sent is on its way, at the end of the queue, and its payload has been taken
/// off the allowance if it is output. One that was not has put nothing there and spent nothing.
pub proof fn law_sent_is_on_its_way(sink: SinkView, frame: FrameView, gone: bool, offer: Offer)
    ensures
        ({
            let (after, outcome) = sent(sink, frame, gone, offer);
            if outcome is Sent {
                after == (SinkView {
                    taken: sink.taken.push(frame),
                    credit: sink.credit - cost(frame),
                    heard: after.heard,
                    ..sink
                })
            } else {
                after.taken == sink.taken && after.credit == sink.credit
            }
        }),
{
}

/// A sink with no allowance puts no output in its queue.
pub proof fn law_a_spent_allowance_stops_output(
    sink: SinkView,
    frame: FrameView,
    gone: bool,
    offer: Offer,
)
    requires
        frame.body is Output,
        sink.credit <= 0,
    ensures
        sent(sink, frame, gone, offer).0.taken == sink.taken,
        sent(sink, frame, gone, offer).0.credit == sink.credit,
        !(sent(sink, frame, gone, offer).1 is Sent),
{
}

/// Acking exactly the payload that was sent returns exactly the allowance it spent.
pub proof fn law_acking_the_payload_restores_the_window(
    sink: SinkView,
    frame: FrameView,
    offer: Offer,
    bytes: u32,
)
    requires
        sink.credit <= sink.window.per_stream_max,
        sent(sink, frame, false, offer).1 is Sent,
        bytes == cost(frame),
    ensures
        replenished(sent(sink, frame, false, offer).0.credit, sink.window, bytes) == sink.credit,
{
}

/// No ack, however large, lifts the allowance above the window's ceiling.
pub proof fn law_no_ack_lifts_the_allowance_past_the_ceiling(
    credit: int,
    window: CreditWindow,
    bytes: u32,
)
    ensures
        replenished(credit, window, bytes) <= window.per_stream_max,
{
}

/// What the queue answered to each frame in turn: whether its reader had gone, and what became
/// of the frame if it was offered.
pub type Answers = Seq<(bool, Offer)>;

/// The output frame carrying `pending[from..to]`.
pub open spec fn output_frame(sink: SinkView, pending: Seq<u8>, from: int, to: int) -> FrameView {
    FrameView { stream: sink.id, body: BodyView::Output(pending.subrange(from, to)) }
}

/// How much of a buffer goes into one frame: the window's chunk, or as much as a frame carries
/// where that is less.
pub open spec fn chunk_of(window: CreditWindow) -> int {
    if window.chunk <= MAX_FRAME_PAYLOAD_BYTES {
        window.chunk as int
    } else {
        MAX_FRAME_PAYLOAD_BYTES as int
    }
}

/// Where the next chunk of `pending` after `done` ends.
pub open spec fn chunk_end(sink: SinkView, pending: Seq<u8>, done: int) -> int {
    if done + chunk_of(sink.window) <= pending.len() {
        done + chunk_of(sink.window)
    } else {
        pending.len() as int
    }
}

/// What a chunk that ends at `end` of a buffer of `len` bytes comes to, by the outcome of
/// sending it: how far the sink has got, and whether it goes on.
///
/// A chunk that was not taken stops it where it is; a client that has gone counts as finished,
/// so that it holds the buffer for nobody else.
pub open spec fn stepped(done: int, end: int, len: int, outcome: SendOutcome) -> (int, bool) {
    match outcome {
        SendOutcome::Sent => (end, true),
        SendOutcome::WouldBlock | SendOutcome::Dropped => (done, false),
        SendOutcome::Closed => (len, false),
    }
}

/// What a chunk that ends at `end` of a buffer of `len` bytes comes to, by the outcome of
/// sending it: how far the sink has got, and whether it goes on.
pub fn after_chunk(done: usize, end: usize, len: usize, outcome: SendOutcome) -> (out: (
    usize,
    bool,
))
    ensures
        (out.0 as int, out.1) == stepped(done as int, end as int, len as int, outcome),
{
    match outcome {
        SendOutcome::Sent => (end, true),
        SendOutcome::WouldBlock | SendOutcome::Dropped => (done, false),
        SendOutcome::Closed => (len, false),
    }
}

/// A sink fed `pending` in chunks from `from` on, after the queue has answered `answers`: the
/// sink, how far it has got, and whether it goes on.
pub open spec fn run(sink: SinkView, pending: Seq<u8>, from: int, answers: Answers) -> (
    SinkView,
    int,
    bool,
)
    decreases answers.len(),
{
    if answers.len() == 0 {
        (sink, from, true)
    } else {
        let (s, done, going) = run(sink, pending, from, answers.drop_last());
        if !going || done >= pending.len() {
            (s, done, false)
        } else {
            let end = chunk_end(s, pending, done);
            let (t, outcome) = sent(
                s,
                output_frame(s, pending, done, end),
                answers.last().0,
                answers.last().1,
            );
            let (now, on) = stepped(done, end, pending.len() as int, outcome);
            (t, now, on)
        }
    }
}

/// A run that has nothing more to do.
pub open spec fn finished(after: (SinkView, int, bool), pending: Seq<u8>) -> bool {
    !after.2 || after.1 >= pending.len()
}

/// The output bytes a list of frames carries, in order.
pub open spec fn output_bytes(frames: Seq<FrameView>) -> Seq<u8>
    decreases frames.len(),
{
    if frames.len() == 0 {
        Seq::empty()
    } else {
        match frames.last().body {
            BodyView::Output(bytes) => output_bytes(frames.drop_last()) + bytes,
            _ => output_bytes(frames.drop_last()),
        }
    }
}

/// Every byte goes out once and in order: what a sink has put in its queue, followed by what of
/// the buffer it has still to get, is the same before and after any run that does not find the
/// client gone. What the run put there is charged to the allowance, byte for byte.
pub proof fn law_a_run_delivers_each_byte_once(
    sink: SinkView,
    pending: Seq<u8>,
    from: int,
    answers: Answers,
)
    requires
        sink.window.chunk > 0,
        0 <= from <= pending.len(),
    ensures
        ({
            let (after, done, _) = run(sink, pending, from, answers);
            &&& 0 <= done <= pending.len()
            &&& after.id == sink.id && after.window == sink.window && after.delivered
                == sink.delivered && after.queue == sink.queue
            &&& sink.closed ==> after.closed
            &&& !after.closed ==> {
                &&& from <= done
                &&& output_bytes(after.taken) + pending.skip(done) == output_bytes(sink.taken)
                    + pending.skip(from)
                &&& after.credit == sink.credit - (done - from)
            }
        }),
    decreases answers.len(),
{
    if answers.len() > 0 {
        law_a_run_delivers_each_byte_once(sink, pending, from, answers.drop_last());
        let (s, done, going) = run(sink, pending, from, answers.drop_last());
        if going && done < pending.len() {
            let end = chunk_end(s, pending, done);
            let frame = output_frame(s, pending, done, end);
            let (t, outcome) = sent(s, frame, answers.last().0, answers.last().1);
            if outcome is Sent {
                assert(t.taken == s.taken.push(frame));
                assert(t.taken.drop_last() =~= s.taken);
                assert(output_bytes(t.taken) == output_bytes(s.taken) + pending.subrange(done, end));
                assert(pending.subrange(done, end) + pending.skip(end) =~= pending.skip(done));
                assert(output_bytes(t.taken) + pending.skip(end) =~= output_bytes(s.taken)
                    + pending.skip(done));
            }
        }
    }
}

/// What a sink has put in its queue beyond what `before` had: output alone, no frame longer than
/// the window's chunk, and those bytes joined are `bytes`.
pub open spec fn has_sent(before: SinkView, after: SinkView, bytes: Seq<u8>) -> bool {
    &&& before.taken.len() <= after.taken.len()
    &&& after.taken.take(before.taken.len() as int) == before.taken
    &&& forall|i: int|
        before.taken.len() <= i < after.taken.len() ==> (#[trigger] after.taken[i]).body is Output
            && after.taken[i].body->Output_0.len() <= before.window.chunk
    &&& output_bytes(after.taken) == output_bytes(before.taken) + bytes
}

/// A run that does not find the client gone sends the bytes between where it began and where it
/// has got to, in frames of at most a chunk.
pub proof fn law_a_run_sends_what_it_passes(
    sink: SinkView,
    pending: Seq<u8>,
    from: int,
    answers: Answers,
)
    requires
        sink.window.chunk > 0,
        0 <= from <= pending.len(),
        !run(sink, pending, from, answers).0.closed,
    ensures
        from <= run(sink, pending, from, answers).1 <= pending.len(),
        has_sent(
            sink,
            run(sink, pending, from, answers).0,
            pending.subrange(from, run(sink, pending, from, answers).1),
        ),
    decreases answers.len(),
{
    law_a_run_delivers_each_byte_once(sink, pending, from, answers);
    let (after, now, _) = run(sink, pending, from, answers);
    if answers.len() == 0 {
        assert(sink.taken.take(sink.taken.len() as int) =~= sink.taken);
        assert(output_bytes(sink.taken) + pending.subrange(from, from) =~= output_bytes(
            sink.taken,
        ));
    } else {
        let (s, done, going) = run(sink, pending, from, answers.drop_last());
        law_a_run_delivers_each_byte_once(sink, pending, from, answers.drop_last());
        assert(!s.closed);
        law_a_run_sends_what_it_passes(sink, pending, from, answers.drop_last());
        if going && done < pending.len() {
            let end = chunk_end(s, pending, done);
            let frame = output_frame(s, pending, done, end);
            let (t, outcome) = sent(s, frame, answers.last().0, answers.last().1);
            if outcome is Sent {
                assert(t.taken == s.taken.push(frame));
                assert(t.taken.drop_last() =~= s.taken);
                assert(t.taken.take(sink.taken.len() as int) =~= s.taken.take(
                    sink.taken.len() as int,
                ));
                assert(output_bytes(sink.taken) + pending.subrange(from, done) + pending.subrange(
                    done,
                    end,
                ) =~= output_bytes(sink.taken) + pending.subrange(from, end));
            }
        }
    }
}

/// A run only adds to what a sink has put in its queue, and adds nothing but output.
pub proof fn law_a_run_adds_only_output(
    sink: SinkView,
    pending: Seq<u8>,
    from: int,
    answers: Answers,
)
    ensures
        ({
            let after = run(sink, pending, from, answers).0;
            &&& sink.taken.len() <= after.taken.len()
            &&& after.taken.take(sink.taken.len() as int) == sink.taken
            &&& forall|i: int|
                sink.taken.len() <= i < after.taken.len() ==> (#[trigger] after.taken[i]).body
                    is Output
        }),
    decreases answers.len(),
{
    if answers.len() > 0 {
        law_a_run_adds_only_output(sink, pending, from, answers.drop_last());
        let (s, done, going) = run(sink, pending, from, answers.drop_last());
        let after = run(sink, pending, from, answers).0;
        assert(after.taken == s.taken || after.taken =~= s.taken.push(after.taken.last()));
        assert(after.taken.take(sink.taken.len() as int) =~= s.taken.take(sink.taken.len() as int));
    } else {
        assert(sink.taken.take(sink.taken.len() as int) =~= sink.taken);
    }
}

pub(crate) fn copied(bytes: &Vec<u8>, from: usize, to: usize) -> (out: Vec<u8>)
    requires
        from <= to <= bytes.len(),
    ensures
        out@ == bytes@.subrange(from as int, to as int),
{
    let mut out: Vec<u8> = Vec::new();
    let mut i: usize = from;
    while i < to
        invariant
            from <= i <= to <= bytes.len(),
            out@ == bytes@.subrange(from as int, i as int),
        decreases to - i,
    {
        out.push(bytes[i]);
        i = i + 1;
        assert(bytes@.subrange(from as int, i as int) =~= bytes@.subrange(
            from as int,
            i - 1,
        ).push(bytes@[i - 1]));
    }
    out
}

impl StreamSink {
    /// Feed this sink `pending` in chunks from `from` on, and say how far it has got: to the
    /// first chunk it would not take, or to the end.
    pub fn feed(&mut self, pending: &Vec<u8>, from: usize) -> (done: usize)
        requires
            old(self)@.window.chunk > 0,
            from <= pending.len(),
        ensures
            exists|answers: Answers|
                {
                    let after = #[trigger] run(old(self)@, pending@, from as int, answers);
                    finished(after, pending@) && after.0 == final(self)@ && after.1 == done
                },
            done <= pending.len(),
            final(self)@.id == old(self)@.id,
            final(self)@.window == old(self)@.window,
            final(self)@.queue == old(self)@.queue,
    {
        let chunk: usize = if self.window.chunk as usize <= MAX_FRAME_PAYLOAD_BYTES {
            self.window.chunk as usize
        } else {
            MAX_FRAME_PAYLOAD_BYTES
        };
        let n: usize = pending.len();
        let mut done: usize = from;
        let ghost start = self@;
        let ghost mut answers: Answers = Seq::empty();
        while done < n
            invariant
                from <= done <= n == pending.len(),
                start == old(self)@,
                chunk == chunk_of(self@.window),
                chunk > 0,
                self@.id == start.id,
                self@.window == start.window,
                self@.queue == start.queue,
                run(start, pending@, from as int, answers) == (self@, done as int, true),
            decreases n - done,
        {
            let end: usize = if n - done > chunk {
                done + chunk
            } else {
                n
            };
            let ghost before = self@;
            let frame = Frame {
                stream: self.stream_id,
                body: FrameBody::Output(copied(pending, done, end)),
            };
            let ghost given = frame@;
            let outcome = self.send(frame);
            proof {
                let (gone, answer) = choose|gone: bool, answer: Offer|
                    (self@, outcome) == #[trigger] sent(before, given, gone, answer);
                let next = answers.push((gone, answer));
                assert(next.drop_last() =~= answers);
                assert(given == output_frame(before, pending@, done as int, end as int));
                assert(end == chunk_end(before, pending@, done as int));
                answers = next;
            }
            let (now, on) = after_chunk(done, end, n, outcome);
            assert(run(start, pending@, from as int, answers) == (self@, now as int, on));
            if !on {
                return now;
            }
            done = now;
        }
        assert(finished(run(start, pending@, from as int, answers), pending@));
        done
    }
}

/// The frame that says a session's process has ended.
pub open spec fn exit_frame(sink: SinkView, status: SessionExit) -> FrameView {
    FrameView { stream: sink.id, body: BodyView::Exit(status) }
}

/// The frame that closes a replay.
pub open spec fn replay_end(sink: SinkView) -> FrameView {
    FrameView { stream: sink.id, body: BodyView::ReplayEnd }
}

/// A sink after an attach: the opening grant, the replay in chunks as far as it is taken, one
/// replay end whatever became of the replay, and the exit if the process has already ended.
/// The arguments after the first three are what the queue answered to each in turn.
pub open spec fn replayed(
    sink: SinkView,
    replay: Seq<u8>,
    exit: Option<SessionExit>,
    to_grant: (bool, Offer),
    to_replay: Answers,
    to_end: (bool, Offer),
    to_exit: (bool, Offer),
) -> SinkView {
    let granted = sent(sink, opening_grant(sink), to_grant.0, to_grant.1).0;
    let shown = run(granted, replay, 0, to_replay).0;
    let marked = sent(shown, replay_end(shown), to_end.0, to_end.1).0;
    match exit {
        Some(status) => sent(marked, exit_frame(marked, status), to_exit.0, to_exit.1).0,
        None => marked,
    }
}

/// Whatever the allowance, a replay is closed by exactly one replay end, after the last
/// replayed byte: only a full queue or a client that has gone can keep it out.
pub proof fn law_a_replay_ends_exactly_once(
    sink: SinkView,
    replay: Seq<u8>,
    exit: Option<SessionExit>,
    to_grant: (bool, Offer),
    to_replay: Answers,
    to_end: (bool, Offer),
    to_exit: (bool, Offer),
)
    requires
        sink.taken.len() == 0,
        to_end == (false, Offer::Taken),
        !run(sent(sink, opening_grant(sink), to_grant.0, to_grant.1).0, replay, 0, to_replay).0.closed,
    ensures
        ({
            let taken = replayed(sink, replay, exit, to_grant, to_replay, to_end, to_exit).taken;
            exists|at: int|
                {
                    &&& 0 <= at < taken.len()
                    &&& (#[trigger] taken[at]).body is ReplayEnd
                    &&& forall|i: int|
                        0 <= i < taken.len() && i != at ==> !((#[trigger] taken[i]).body
                            is ReplayEnd)
                    &&& forall|i: int| at < i < taken.len() ==> (#[trigger] taken[i]).body is Exit
                }
        }),
{
    let granted = sent(sink, opening_grant(sink), to_grant.0, to_grant.1).0;
    law_a_run_adds_only_output(granted, replay, 0, to_replay);
    let shown = run(granted, replay, 0, to_replay).0;
    let marked = sent(shown, replay_end(shown), to_end.0, to_end.1).0;
    let taken = replayed(sink, replay, exit, to_grant, to_replay, to_end, to_exit).taken;
    let at = shown.taken.len() as int;
    assert(marked.taken == shown.taken.push(replay_end(shown)));
    assert(taken[at].body is ReplayEnd);
    assert forall|i: int| 0 <= i < taken.len() && i != at implies !((#[trigger] taken[i]).body
        is ReplayEnd) by {
        if i < at {
            assert(taken[i] == shown.taken[i]);
            if i < granted.taken.len() {
                assert(granted.taken[i] == shown.taken.take(granted.taken.len() as int)[i]);
            }
        }
    }
}

impl StreamSink {
    /// Tell this sink that the session's process has ended.
    pub fn send_exit(&mut self, status: SessionExit) -> (out: SendOutcome)
        ensures
            exists|gone: bool, offer: Offer|
                (final(self)@, out) == #[trigger] sent(
                    old(self)@,
                    exit_frame(old(self)@, status),
                    gone,
                    offer,
                ),
    {
        let frame = Frame { stream: self.stream_id, body: FrameBody::Exit(status) };
        assert(frame@ == exit_frame(self@, status));
        self.send(frame)
    }

    /// Open this sink on a session: the grant, the replay as far as it is taken, the replay
    /// end on every path, and the exit if the process has already ended.
    pub fn replay(&mut self, replay: &Vec<u8>, exit: Option<SessionExit>)
        requires
            old(self)@.window.chunk > 0,
        ensures
            exists|
                to_grant: (bool, Offer),
                to_replay: Answers,
                to_end: (bool, Offer),
                to_exit: (bool, Offer),
            |
                {
                    let granted = sent(
                        old(self)@,
                        opening_grant(old(self)@),
                        to_grant.0,
                        to_grant.1,
                    ).0;
                    &&& final(self)@ == #[trigger] replayed(
                        old(self)@,
                        replay@,
                        exit,
                        to_grant,
                        to_replay,
                        to_end,
                        to_exit,
                    )
                    &&& finished(run(granted, replay@, 0, to_replay), replay@)
                },
            final(self)@.id == old(self)@.id,
            final(self)@.window == old(self)@.window,
            final(self)@.queue == old(self)@.queue,
            exit is Some && !final(self)@.closed ==> {
                let last = final(self)@.heard.last();
                &&& last is Offered
                &&& last == Heard::Offered(Offer::Taken) ==> final(self)@.taken.last() == (
                FrameView { stream: old(self)@.id, body: BodyView::Exit(exit->0) })
            },
    {
        let ghost start = self@;
        let grant = self.opening_grant();
        let o1 = self.send(grant);
        let ghost granted = self@;
        let ghost g1 = choose|gone: bool, answer: Offer|
            (granted, o1) == #[trigger] sent(start, opening_grant(start), gone, answer);
        self.feed(replay, 0);
        let ghost shown = self@;
        let ghost heard = choose|answers: Answers|
            {
                let after = #[trigger] run(granted, replay@, 0, answers);
                finished(after, replay@) && after.0 == shown
            };
        let end = Frame { stream: self.stream_id, body: FrameBody::ReplayEnd };
        assert(end@ == replay_end(shown));
        let o2 = self.send(end);
        let ghost marked = self@;
        let ghost g2 = choose|gone: bool, answer: Offer|
            (marked, o2) == #[trigger] sent(shown, replay_end(shown), gone, answer);
        match exit {
            Some(status) => {
                let o3 = self.send_exit(status);
                proof {
                    let g3 = choose|gone: bool, answer: Offer|
                        (self@, o3) == #[trigger] sent(
                            marked,
                            exit_frame(marked, status),
                            gone,
                            answer,
                        );
                    assert(self@ == replayed(start, replay@, exit, g1, heard, g2, g3));
                }
            },
            None => {
                assert(self@ == replayed(start, replay@, exit, g1, heard, g2, g2));
            },
        }
    }
}

/// What a send comes to, outcome by outcome: a client that has gone is told nothing and its sink
/// is closed; output waits while the allowance is spent; a payload above a mebibyte is dropped;
/// whatever else the queue takes goes to its end, and a full queue changes nothing.
pub proof fn law_each_outcome_of_a_send(
    sink: SinkView,
    frame: FrameView,
    gone: bool,
    offer: Offer,
)
    ensures
        ({
            let (after, outcome) = sent(sink, frame, gone, offer);
            let waits = frame.body is Output && sink.credit <= 0;
            let long = match frame.body {
                BodyView::Output(bytes) => bytes.len() > 0x10_0000,
                BodyView::Bell(bytes) => bytes.len() > 0x10_0000,
                BodyView::AgentStatus(bytes) => bytes.len() > 0x10_0000,
                _ => false,
            };
            let open = !sink.closed && !gone;
            &&& !open ==> outcome is Closed && after.closed && after.taken == sink.taken
            &&& open && waits ==> outcome is WouldBlock && !after.closed && after.taken
                == sink.taken
            &&& open && !waits && long ==> outcome is Dropped && !after.closed && after.taken
                == sink.taken
            &&& open && !waits && !long && offer is Taken ==> outcome is Sent && !after.closed
                && after.taken == sink.taken.push(frame)
            &&& open && !waits && !long && offer is Full ==> outcome is WouldBlock
                && !after.closed && after.taken == sink.taken
            &&& open && !waits && !long && offer is Gone ==> outcome is Closed && after.closed
                && after.taken == sink.taken
            &&& after.delivered == sink.delivered && after.queue == sink.queue && after.id
                == sink.id && after.window == sink.window
        }),
        frame.body matches BodyView::Output(bytes) ==> sent(sink, frame, gone, offer).1 is Sent
            ==> sent(sink, frame, gone, offer).0.credit == sink.credit - bytes.len(),
{
}

/// An ack gives back what it says or fills the window, whichever is less, and two acks come to
/// what one for both would.
pub proof fn law_an_ack_gives_back_what_it_says(
    credit: int,
    window: CreditWindow,
    one: u32,
    two: u32,
    both: u32,
)
    requires
        one + two == both,
    ensures
        credit + one <= window.per_stream_max ==> replenished(credit, window, one) == credit + one,
        credit + one >= window.per_stream_max ==> replenished(credit, window, one)
            == window.per_stream_max,
        replenished(replenished(credit, window, one), window, two) == replenished(
            credit,
            window,
            both,
        ),
{
}

/// A chunk is the next bytes of the buffer: as many as the window's chunk, unless the buffer
/// ends or a frame is full before that.
pub proof fn law_a_chunk_is_as_long_as_it_may_be(sink: SinkView, pending: Seq<u8>, done: int)
    requires
        0 <= done <= pending.len(),
    ensures
        ({
            let end = chunk_end(sink, pending, done);
            &&& done <= end <= pending.len()
            &&& end - done <= sink.window.chunk && end - done <= 0x10_0000
            &&& end == pending.len() || end - done == sink.window.chunk || end - done == 0x10_0000
        }),
{
}

/// A run stops short of the buffer's end only where it must: the client has gone, the allowance
/// is spent, or the queue was full when it last answered.
pub proof fn law_a_run_stops_only_where_it_must(
    sink: SinkView,
    pending: Seq<u8>,
    from: int,
    answers: Answers,
)
    requires
        sink.window.chunk > 0,
        0 <= from <= pending.len(),
        finished(run(sink, pending, from, answers), pending),
    ensures
        ({
            let (after, done, _) = run(sink, pending, from, answers);
            after.closed || done == pending.len() || after.credit <= 0 || after.heard.last()
                == Heard::Offered(Offer::Full)
        }),
    decreases answers.len(),
{
    if answers.len() > 0 {
        law_a_run_delivers_each_byte_once(sink, pending, from, answers.drop_last());
        let (s, done, going) = run(sink, pending, from, answers.drop_last());
        if !going || done >= pending.len() {
            law_a_run_stops_only_where_it_must(sink, pending, from, answers.drop_last());
        }
    }
}

/// A run whose queue takes every frame, and whose allowance is more than what is left of the
/// buffer, gets further with each frame until it has passed the buffer's end.
pub proof fn law_a_run_that_is_taken_goes_on(
    sink: SinkView,
    pending: Seq<u8>,
    from: int,
    answers: Answers,
)
    requires
        sink.window.chunk > 0,
        !sink.closed,
        0 <= from <= pending.len(),
        sink.credit > pending.len() - from,
        forall|i: int| 0 <= i < answers.len() ==> #[trigger] answers[i] == (false, Offer::Taken),
    ensures
        ({
            let (after, done, going) = run(sink, pending, from, answers);
            &&& !after.closed
            &&& done == pending.len() || (going && done >= from + answers.len())
        }),
    decreases answers.len(),
{
    if answers.len() > 0 {
        law_a_run_delivers_each_byte_once(sink, pending, from, answers.drop_last());
        law_a_run_that_is_taken_goes_on(sink, pending, from, answers.drop_last());
        assert(answers.last() == answers[answers.len() - 1]);
    }
}

/// The frames of an attach, in order: the grant of the whole opening allowance, output alone,
/// the mark that the replay is over, and, for a session that has ended and for no other, its
/// exit status last of all. They are what a queue that takes them holds, whatever it held
/// before.
pub proof fn law_an_attach_sends_in_order(
    sink: SinkView,
    replay: Seq<u8>,
    exit: Option<SessionExit>,
    to_grant: (bool, Offer),
    to_replay: Answers,
    to_end: (bool, Offer),
    to_exit: (bool, Offer),
)
    requires
        sink.window.chunk > 0,
        !sink.closed,
        to_grant == (false, Offer::Taken),
        to_end == (false, Offer::Taken),
        to_exit == (false, Offer::Taken),
        forall|i: int|
            0 <= i < to_replay.len() ==> !(#[trigger] to_replay[i]).0 && !(to_replay[i].1 is Gone),
    ensures
        ({
            let after = replayed(sink, replay, exit, to_grant, to_replay, to_end, to_exit);
            let taken = after.taken;
            let held = sink.taken.len() as int;
            let mark = if exit is Some {
                taken.len() - 2
            } else {
                taken.len() - 1
            };
            &&& !after.closed
            &&& held < mark
            &&& taken.take(held) == sink.taken
            &&& taken[held] == (FrameView {
                stream: sink.id,
                body: BodyView::Credit(
                    CreditFrame::Grant {
                        bytes: sink.window.per_stream_initial,
                        window: sink.window,
                    },
                ),
            })
            &&& forall|i: int|
                held < i < mark ==> (#[trigger] taken[i]).body is Output && taken[i].stream
                    == sink.id
            &&& taken[mark] == (FrameView { stream: sink.id, body: BodyView::ReplayEnd })
            &&& exit matches Some(status) ==> taken.last() == (FrameView {
                stream: sink.id,
                body: BodyView::Exit(status),
            })
        }),
{
    let granted = sent(sink, opening_grant(sink), to_grant.0, to_grant.1).0;
    lemma_a_run_stays_open(granted, replay, 0, to_replay);
    law_a_run_adds_only_output(granted, replay, 0, to_replay);
    law_a_run_delivers_each_byte_once(granted, replay, 0, to_replay);
    let shown = run(granted, replay, 0, to_replay).0;
    let after = replayed(sink, replay, exit, to_grant, to_replay, to_end, to_exit);
    let held = sink.taken.len() as int;
    assert(granted.taken == sink.taken.push(opening_grant(sink)));
    assert(after.taken.take(held + 1) =~= granted.taken) by {
        assert(shown.taken.take(held + 1) == granted.taken);
        assert(after.taken.take(held + 1) =~= shown.taken.take(held + 1));
    }
    assert(after.taken.take(held) =~= granted.taken.take(held));
    assert(granted.taken.take(held) =~= sink.taken);
    assert(after.taken[held] == after.taken.take(held + 1)[held]);
    assert forall|i: int| held < i < shown.taken.len() implies (#[trigger] after.taken[i]).body
        is Output && after.taken[i].stream == sink.id by {
        assert(after.taken[i] == shown.taken[i]);
    }
}

/// A run whose queue never says that its reader has gone leaves the sink open, and every frame
/// it adds is on the sink's own stream.
proof fn lemma_a_run_stays_open(sink: SinkView, pending: Seq<u8>, from: int, answers: Answers)
    requires
        !sink.closed,
        forall|i: int|
            0 <= i < answers.len() ==> !(#[trigger] answers[i]).0 && !(answers[i].1 is Gone),
    ensures
        ({
            let after = run(sink, pending, from, answers).0;
            &&& !after.closed
            &&& after.id == sink.id
            &&& sink.taken.len() <= after.taken.len()
            &&& forall|i: int|
                sink.taken.len() <= i < after.taken.len() ==> (#[trigger] after.taken[i]).stream
                    == sink.id
        }),
    decreases answers.len(),
{
    if answers.len() > 0 {
        lemma_a_run_stays_open(sink, pending, from, answers.drop_last());
        assert(answers.last() == answers[answers.len() - 1]);
    }
}

/// What the client of an ended session gets last is how it ended: where the sink is still open
/// after an attach, the queue's last answer was to the exit, and if it took it, the exit is the
/// last frame in it.
pub proof fn law_an_attach_ends_with_the_exit(
    sink: SinkView,
    replay: Seq<u8>,
    status: SessionExit,
    to_grant: (bool, Offer),
    to_replay: Answers,
    to_end: (bool, Offer),
    to_exit: (bool, Offer),
)
    requires
        sink.window.chunk > 0,
    ensures
        ({
            let after = replayed(
                sink,
                replay,
                Some(status),
                to_grant,
                to_replay,
                to_end,
                to_exit,
            );
            !after.closed ==> {
                &&& after.heard.last() == Heard::Offered(to_exit.1)
                &&& to_exit.1 is Taken ==> after.taken.len() > 0 && after.taken.last() == (
                FrameView { stream: sink.id, body: BodyView::Exit(status) })
            }
        }),
{
    let granted = sent(sink, opening_grant(sink), to_grant.0, to_grant.1).0;
    law_a_run_delivers_each_byte_once(granted, replay, 0, to_replay);
}

/// The whole of a replay that fits the opening allowance reaches a client whose queue takes
/// every frame.
pub proof fn law_a_replay_that_fits_is_shown_whole(
    sink: SinkView,
    replay: Seq<u8>,
    exit: Option<SessionExit>,
    to_grant: (bool, Offer),
    to_replay: Answers,
    to_end: (bool, Offer),
    to_exit: (bool, Offer),
)
    requires
        sink.window.chunk > 0,
        !sink.closed,
        replay.len() < sink.credit,
        to_grant == (false, Offer::Taken),
        to_end == (false, Offer::Taken),
        forall|i: int| 0 <= i < to_replay.len() ==> #[trigger] to_replay[i] == (false, Offer::Taken),
        finished(run(sent(sink, opening_grant(sink), false, Offer::Taken).0, replay, 0, to_replay), replay),
    ensures
        output_bytes(
            replayed(sink, replay, exit, to_grant, to_replay, to_end, to_exit).taken,
        ) == output_bytes(sink.taken) + replay,
{
    let granted = sent(sink, opening_grant(sink), false, Offer::Taken).0;
    assert(granted.taken.drop_last() =~= sink.taken);
    assert(output_bytes(granted.taken) == output_bytes(sink.taken));
    law_a_run_that_is_taken_goes_on(granted, replay, 0, to_replay);
    law_a_run_delivers_each_byte_once(granted, replay, 0, to_replay);
    let (shown, done, going) = run(granted, replay, 0, to_replay);
    assert(done == replay.len());
    assert(replay.skip(done) =~= Seq::empty());
    assert(replay.skip(0) =~= replay);
    assert(output_bytes(shown.taken) + replay.skip(done) =~= output_bytes(shown.taken));
    let marked = sent(shown, replay_end(shown), false, Offer::Taken).0;
    assert(marked.taken == shown.taken.push(replay_end(shown)));
    assert(marked.taken.drop_last() =~= shown.taken);
    assert(output_bytes(marked.taken) == output_bytes(shown.taken));
    if let Some(status) = exit {
        let frame = exit_frame(marked, status);
        let last = sent(marked, frame, to_exit.0, to_exit.1).0;
        if last.taken.len() > marked.taken.len() {
            assert(last.taken == marked.taken.push(frame));
            assert(last.taken.drop_last() =~= marked.taken);
            assert(output_bytes(last.taken) == output_bytes(marked.taken));
        }
    }
}

/// A client that has gone holds nothing back: the run that finds it so has passed the whole
/// buffer.
pub proof fn law_a_gone_client_holds_nothing_back(
    sink: SinkView,
    pending: Seq<u8>,
    from: int,
    answers: Answers,
)
    requires
        sink.window.chunk > 0,
        0 <= from <= pending.len(),
        finished(run(sink, pending, from, answers), pending),
        run(sink, pending, from, answers).0.closed,
    ensures
        run(sink, pending, from, answers).1 == pending.len(),
    decreases answers.len(),
{
    if answers.len() > 0 {
        law_a_run_delivers_each_byte_once(sink, pending, from, answers.drop_last());
        let (s, done, going) = run(sink, pending, from, answers.drop_last());
        if !going || done >= pending.len() {
            law_a_gone_client_holds_nothing_back(sink, pending, from, answers.drop_last());
        }
    }
}

/// A sink opens with the whole allowance of its window, open, with nothing sent or heard.
pub proof fn law_a_sink_opens_with_its_whole_allowance(id: u32, window: CreditWindow, queue: nat)
    ensures
        fresh_sink(id, window, queue).id == id,
        fresh_sink(id, window, queue).window == window,
        fresh_sink(id, window, queue).credit == window.per_stream_initial,
        !fresh_sink(id, window, queue).closed,
        fresh_sink(id, window, queue).delivered == 0,
        fresh_sink(id, window, queue).taken.len() == 0,
        fresh_sink(id, window, queue).queue == queue,
        fresh_sink(id, window, queue).heard.len() == 0,
{
}

/// Only output costs anything, and what it costs is what it carries.
pub proof fn law_a_frame_costs_what_it_carries(frame: FrameView)
    ensures
        frame.body matches BodyView::Output(bytes) ==> cost(frame) == bytes.len(),
        !(frame.body is Output) ==> cost(frame) == 0,
{
}

/// A run goes on only past a chunk that was sent, to that chunk's end; one that was not taken
/// leaves it where it was, to be sent again.
pub proof fn law_a_chunk_that_was_not_taken_stops_the_run(
    done: int,
    end: int,
    len: int,
    outcome: SendOutcome,
)
    ensures
        outcome is Sent ==> stepped(done, end, len, outcome).0 == end && stepped(
            done,
            end,
            len,
            outcome,
        ).1,
        outcome is WouldBlock || outcome is Dropped ==> stepped(done, end, len, outcome).0 == done,
        outcome is Closed ==> stepped(done, end, len, outcome).0 == len,
        !(outcome is Sent) ==> !stepped(done, end, len, outcome).1,
{
}

} // verus!
