//! Newline-delimited frames: the handshake and every control frame after it.
//!
//! One frame per line. A peer that sends a megabyte with no newline in it must not be able to
//! make the daemon hold that megabyte, and then the next one: [`MAX_CONTROL_LINE_BYTES`] is
//! where it stops reading and answers rather than growing.
use vstd::prelude::*;
use vstd::utf8::{decode_utf8, encode_utf8, valid_utf8};
use crate::text::{decimal, decimal_of};

verus! {

/// The longest control frame the daemon will read before refusing the connection.
pub const MAX_CONTROL_LINE_BYTES: usize = crate::wire::MAX_FRAME_PAYLOAD_BYTES;

/// Why a control frame could not be read or written.
#[derive(Debug)]
pub enum ControlError {
    /// The connection failed underneath; the text is the operating system's.
    Io(String),
    /// A line exceeded [`MAX_CONTROL_LINE_BYTES`] without a newline.
    LineTooLong,
    /// The line was not the frame it should have held; the text is the parser's.
    Malformed(String),
    /// The peer closed the connection before finishing a frame.
    Truncated,
}

/// What a failed read or write says.
pub open spec fn control_said(err: ControlError) -> Seq<char> {
    match err {
        ControlError::Io(said) => "the control connection failed: "@ + said@,
        ControlError::LineTooLong => "a control frame exceeded "@ + decimal(
            MAX_CONTROL_LINE_BYTES as nat,
        ) + " bytes with no newline; frames are newline-delimited JSON, one per line"@,
        ControlError::Malformed(said) => "could not read a control frame: "@ + said@,
        ControlError::Truncated =>
            "the peer closed the connection part way through a control frame"@,
    }
}

impl ControlError {
    /// What happened.
    pub fn message(&self) -> (out: String)
        ensures
            out@ == control_said(*self),
    {
        match self {
            ControlError::Io(said) => {
                "the control connection failed: ".to_owned().concat(said.as_str())
            },
            ControlError::LineTooLong => {
                "a control frame exceeded ".to_owned().concat(
                    decimal_of(MAX_CONTROL_LINE_BYTES as u64).as_str(),
                ).concat(
                    " bytes with no newline; frames are newline-delimited JSON, one per line",
                )
            },
            ControlError::Malformed(said) => {
                "could not read a control frame: ".to_owned().concat(said.as_str())
            },
            ControlError::Truncated => {
                "the peer closed the connection part way through a control frame".to_owned()
            },
        }
    }
}

/// The text bytes stand for once every malformed sequence in them has been replaced.
pub uninterp spec fn lossy_text(bytes: Seq<u8>) -> Seq<char>;

/// `String::from_utf8_lossy`: the bytes as text, malformed sequences replaced, which depends on
/// the bytes alone. Bytes that are well-formed UTF-8 come back as the text they encode.
#[verifier::external_body]
fn text_from(bytes: &Vec<u8>) -> (out: String)
    ensures
        out@ == lossy_text(bytes@),
        valid_utf8(bytes@) ==> out@ == decode_utf8(bytes@),
{
    String::from_utf8_lossy(bytes).into_owned()
}

/// Where the first newline stands in `bytes`, or their length.
pub open spec fn newline_at(bytes: Seq<u8>) -> int
    decreases bytes.len(),
{
    if bytes.len() == 0 || bytes[0] == 0x0a {
        0
    } else {
        1 + newline_at(bytes.skip(1))
    }
}

proof fn lemma_newline_at(bytes: Seq<u8>)
    ensures
        0 <= newline_at(bytes) <= bytes.len(),
        newline_at(bytes) < bytes.len() ==> bytes[newline_at(bytes)] == 0x0a,
        forall|i: int| 0 <= i < newline_at(bytes) ==> #[trigger] bytes[i] != 0x0a,
    decreases bytes.len(),
{
    if bytes.len() > 0 && bytes[0] != 0x0a {
        lemma_newline_at(bytes.skip(1));
        let k = newline_at(bytes.skip(1));
        assert forall|i: int| 0 <= i < k + 1 implies #[trigger] bytes[i] != 0x0a by {
            if i > 0 {
                assert(bytes[i] == bytes.skip(1)[i - 1]);
            }
        }
    }
}

proof fn lemma_newline_is(bytes: Seq<u8>, at: int)
    requires
        0 <= at <= bytes.len(),
        at < bytes.len() ==> bytes[at] == 0x0a,
        forall|i: int| 0 <= i < at ==> #[trigger] bytes[i] != 0x0a,
    ensures
        newline_at(bytes) == at,
{
    lemma_newline_at(bytes);
    let k = newline_at(bytes);
    if k < at {
        assert(bytes[k] != 0x0a);
    } else if at < k {
        assert(bytes[at] != 0x0a);
    }
}

/// A line without the one carriage return that may end it.
pub open spec fn without_return(line: Seq<u8>) -> Seq<u8> {
    if line.len() > 0 && line.last() == 0x0d {
        line.drop_last()
    } else {
        line
    }
}

/// What taking in some bytes comes to, with `held` already taken in of the line.
pub enum LineStep {
    /// The line is not finished; this much of it is held.
    More(Seq<u8>),
    /// The line is finished: its content, and how many of the bytes it took.
    Line(Seq<u8>, int),
    /// The line is too long.
    TooLong,
}

/// What taking in `incoming` comes to, with `held` already taken in of the line.
pub open spec fn line_step(held: Seq<u8>, incoming: Seq<u8>) -> LineStep {
    let end = newline_at(incoming);
    if held.len() + end > MAX_CONTROL_LINE_BYTES {
        LineStep::TooLong
    } else if end < incoming.len() {
        LineStep::Line(without_return(held + incoming.take(end)), end + 1)
    } else {
        LineStep::More(held + incoming)
    }
}

/// Frames arrive the same however their bytes were chunked: taking in `a` and then `b` comes to
/// what taking in both at once does.
pub proof fn law_chunking_changes_nothing(held: Seq<u8>, a: Seq<u8>, b: Seq<u8>)
    ensures
        match line_step(held, a) {
            LineStep::More(kept) => line_step(held, a + b) == (match line_step(kept, b) {
                LineStep::Line(line, used) => LineStep::Line(line, a.len() + used),
                other => other,
            }),
            LineStep::Line(line, used) => line_step(held, a + b) == LineStep::Line(line, used),
            LineStep::TooLong => line_step(held, a + b) is TooLong,
        },
{
    lemma_newline_at(a);
    lemma_newline_at(b);
    let i = newline_at(a);
    let both = a + b;
    if i < a.len() {
        assert forall|k: int| 0 <= k < i implies #[trigger] both[k] != 0x0a by {
            assert(both[k] == a[k]);
        }
        lemma_newline_is(both, i);
        assert(both.take(i) =~= a.take(i));
    } else {
        let j = newline_at(b);
        assert forall|k: int| 0 <= k < a.len() + j implies #[trigger] both[k] != 0x0a by {
            if k < a.len() {
                assert(both[k] == a[k]);
            } else {
                assert(both[k] == b[k - a.len()]);
            }
        }
        lemma_newline_is(both, a.len() + j);
        assert(held + both.take(a.len() + j) =~= held + a + b.take(j));
        assert(held + both =~= held + a + b);
    }
}

/// A line written is the line read back, and nothing behind it is touched: `rest` is whatever
/// follows on the connection.
pub proof fn law_a_line_written_is_the_line_read(content: Seq<u8>, rest: Seq<u8>)
    requires
        content.len() <= MAX_CONTROL_LINE_BYTES,
        !content.contains(0x0a),
        content.len() > 0 ==> content.last() != 0x0d,
    ensures
        line_step(Seq::empty(), content.push(0x0a) + rest) == LineStep::Line(
            content,
            content.len() as int + 1,
        ),
{
    let sent = content.push(0x0a) + rest;
    assert forall|i: int| 0 <= i < content.len() implies #[trigger] sent[i] != 0x0a by {
        assert(content.contains(content[i]));
    }
    lemma_newline_is(sent, content.len() as int);
    assert(Seq::<u8>::empty() + sent.take(content.len() as int) =~= content);
}

/// What a reader answers to the bytes it is given.
#[derive(Debug)]
pub enum LineRead {
    /// The line is not finished. Every byte was taken in.
    More,
    /// The line is finished.
    Line {
        /// Its text.
        text: String,
        /// How many of the bytes it took, the newline among them.
        used: usize,
    },
    /// The connection is finished, between two frames.
    Closed,
    /// The line cannot be read.
    Failed(ControlError),
}

/// Reads lines out of the bytes a connection delivers, bounded.
#[derive(Debug)]
pub struct ControlReader {
    line: Vec<u8>,
}

impl ControlReader {
    /// What has been taken in of the line so far.
    pub closed spec fn held(&self) -> Seq<u8> {
        self.line@
    }

    /// A reader at the start of a line.
    pub fn new() -> (out: ControlReader)
        ensures
            out.held().len() == 0,
    {
        ControlReader { line: Vec::new() }
    }

    /// Take in what the connection delivered; no bytes at all is its end.
    ///
    /// An end between two frames is how every well-behaved client leaves; one part way through
    /// a frame is a truncation. A line that is finished has lost its newline and one carriage
    /// return before it. Text that was encoded as UTF-8 comes back as it was. A line that could
    /// not be read is dropped, so what follows starts a line of its own.
    pub fn read_line(&mut self, available: &[u8]) -> (out: LineRead)
        ensures
            available@.len() == 0 ==> {
                &&& out is Closed <==> old(self).held().len() == 0
                &&& !(out is Closed) ==> out == LineRead::Failed(ControlError::Truncated)
                &&& final(self).held().len() == 0
            },
            available@.len() > 0 ==> match line_step(old(self).held(), available@) {
                LineStep::More(kept) => out is More && final(self).held() == kept,
                LineStep::Line(content, used) => {
                    &&& out matches LineRead::Line { text, used: n } && n == used && text@
                        == lossy_text(content) && forall|t: Seq<char>|
                        content == #[trigger] encode_utf8(t) ==> text@ == t
                    &&& final(self).held().len() == 0
                },
                LineStep::TooLong => out == LineRead::Failed(ControlError::LineTooLong)
                    && final(self).held().len() == 0,
            },
    {
        let n: usize = available.len();
        if n == 0 {
            if self.line.len() == 0 {
                return LineRead::Closed;
            }
            self.line.clear();
            return LineRead::Failed(ControlError::Truncated);
        }
        let mut end: usize = 0;
        while end < n && available[end] != 0x0a
            invariant
                end <= n == available@.len(),
                forall|i: int| 0 <= i < end ==> #[trigger] available@[i] != 0x0a,
            decreases n - end,
        {
            end = end + 1;
        }
        proof {
            lemma_newline_is(available@, end as int);
        }
        let have: usize = self.line.len();
        if have > MAX_CONTROL_LINE_BYTES || end > MAX_CONTROL_LINE_BYTES - have {
            self.line.clear();
            return LineRead::Failed(ControlError::LineTooLong);
        }
        let ghost held = self.line@;
        let mut i: usize = 0;
        while i < end
            invariant
                i <= end <= available@.len(),
                self.line@ == held + available@.take(i as int),
            decreases end - i,
        {
            self.line.push(available[i]);
            i = i + 1;
            assert(self.line@ =~= held + available@.take(i as int));
        }
        assert(available@.take(available@.len() as int) =~= available@);
        if end == n {
            return LineRead::More;
        }
        let mut content: Vec<u8> = Vec::new();
        content.append(&mut self.line);
        let ghost whole = content@;
        assert(whole =~= held + available@.take(end as int));
        if content.len() > 0 && content[content.len() - 1] == 0x0d {
            let _last = content.pop();
            assert(content@ =~= whole.drop_last());
        }
        let text = text_from(&content);
        proof {
            assert(content@ == without_return(whole));
            assert forall|t: Seq<char>| content@ == #[trigger] encode_utf8(t) implies text@ == t by {
                vstd::utf8::encode_utf8_valid_utf8(t);
                vstd::utf8::encode_utf8_decode_utf8(t);
            }
        }
        LineRead::Line { text, used: end + 1 }
    }
}

/// Writes newline-delimited frames to `W`.
#[derive(Debug)]
pub struct ControlWriter<W> {
    inner: W,
}

impl<W> ControlWriter<W> {
    /// What this writes to.
    pub closed spec fn target(&self) -> W {
        self.inner
    }

    /// Write frames to `writer`.
    pub fn new(writer: W) -> (out: Self)
        ensures
            out.target() == writer,
    {
        ControlWriter { inner: writer }
    }

    /// Take the writer back. Nothing is ever held back to lose.
    pub fn into_inner(self) -> (out: W)
        ensures
            out == self.target(),
    {
        self.inner
    }
}

/// One frame as it goes on the wire: its bytes and a newline.
pub fn frame_line(frame: Vec<u8>) -> (out: Vec<u8>)
    ensures
        out@ == frame@.push(0x0a),
{
    let mut line = frame;
    line.push(0x0a);
    line
}

/// A line ends before its newline, without the one carriage return that may stand there, and
/// never holds a newline itself.
pub proof fn law_a_line_may_end_in_a_carriage_return(content: Seq<u8>, rest: Seq<u8>)
    requires
        content.len() < 0x10_0000,
        !content.contains(0x0a),
    ensures
        line_step(Seq::empty(), content.push(0x0d).push(0x0a) + rest) == LineStep::Line(
            content,
            content.len() as int + 2,
        ),
        without_return(content.push(0x0d)) == content,
        content.len() > 0 && content.last() != 0x0d ==> without_return(content) == content,
        without_return(Seq::empty()) == Seq::<u8>::empty(),
{
    let line = content.push(0x0d);
    let s = line.push(0x0a) + rest;
    assert forall|i: int| 0 <= i < line.len() implies #[trigger] s[i] != 0x0a by {
        assert(s[i] == line[i]);
        if i < content.len() {
            assert(content[i] == line[i]);
            assert(content.contains(content[i]));
        }
    }
    lemma_first_newline(s, line.len() as int);
    assert(Seq::<u8>::empty() + s.take(line.len() as int) =~= line);
    assert(line.drop_last() =~= content);
}

proof fn lemma_first_newline(bytes: Seq<u8>, at: int)
    requires
        0 <= at <= bytes.len(),
        forall|i: int| 0 <= i < at ==> #[trigger] bytes[i] != 0x0a,
        at < bytes.len() ==> bytes[at] == 0x0a,
    ensures
        newline_at(bytes) == at,
    decreases at,
{
    if at > 0 {
        assert(bytes[0] != 0x0a);
        let rest = bytes.skip(1);
        assert forall|i: int| 0 <= i < at - 1 implies #[trigger] rest[i] != 0x0a by {
            assert(rest[i] == bytes[i + 1]);
        }
        lemma_first_newline(rest, at - 1);
    }
}

/// A line is held until its newline comes, up to a mebibyte of it, and no further.
pub proof fn law_an_unfinished_line_is_held_up_to_a_mebibyte(held: Seq<u8>, incoming: Seq<u8>)
    requires
        !incoming.contains(0x0a),
    ensures
        held.len() + incoming.len() <= 0x10_0000 ==> line_step(held, incoming) == LineStep::More(
            held + incoming,
        ),
        held.len() + incoming.len() > 0x10_0000 ==> line_step(held, incoming) is TooLong,
{
    assert forall|i: int| 0 <= i < incoming.len() implies #[trigger] incoming[i] != 0x0a by {
        assert(incoming.contains(incoming[i]));
    }
    lemma_first_newline(incoming, incoming.len() as int);
}

/// What is said of a control connection that failed tells the four ways apart and ends with the
/// cause where there is one.
pub proof fn law_a_control_failure_says_why(err: ControlError)
    ensures
        err matches ControlError::Io(said) ==> control_said(err).skip(
            control_said(err).len() - said@.len(),
        ) == said@,
        err matches ControlError::Malformed(said) ==> control_said(err).skip(
            control_said(err).len() - said@.len(),
        ) == said@,
        err is LineTooLong ==> control_said(err).subrange(
            "a control frame exceeded "@.len() as int,
            "a control frame exceeded "@.len() as int + decimal(1_048_576).len() as int,
        ) == decimal(1_048_576),
{
    let said = control_said(err);
    match err {
        ControlError::Io(cause) => {
            assert(said.skip(said.len() - cause@.len()) =~= cause@);
        },
        ControlError::Malformed(cause) => {
            assert(said.skip(said.len() - cause@.len()) =~= cause@);
        },
        ControlError::LineTooLong => {
            let lead = "a control frame exceeded "@;
            assert(MAX_CONTROL_LINE_BYTES == 1_048_576);
            assert(said.subrange(
                lead.len() as int,
                lead.len() as int + decimal(1_048_576).len() as int,
            ) =~= decimal(1_048_576));
        },
        ControlError::Truncated => {},
    }
}

} // verus!
