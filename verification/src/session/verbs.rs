//! What the verbs on one session answer: read, send, resize and wait.
use vstd::prelude::*;
use crate::session::failure::SessionError;
use crate::text::{split, split_on, views};
use crate::wire::SessionExit;

verus! {

/// Lines a read returns when the caller names no limit.
pub const DEFAULT_READ_LIMIT: usize = 1000;

/// The most lines a read will return however large a limit is asked for.
pub const MAX_READ_LIMIT: usize = 20_000;

/// How quiet a session must be before a wait for idle answers, in milliseconds.
pub const IDLE_QUIET_MS: u64 = 400;

/// How often a wait looks again, in milliseconds.
pub const WAIT_POLL_MS: u64 = 20;

/// What a read is of.
#[derive(Clone, Copy, Debug, PartialEq, Eq, Structural)]
pub enum ReadMode {
    /// The rendered screen.
    Screen,
    /// The scrollback, from a cursor.
    Stream,
}

/// A page of a session's text.
#[derive(Debug)]
pub struct TerminalReadResult {
    /// Its lines.
    pub lines: Vec<String>,
    /// Where the next page starts.
    pub cursor: u64,
    /// What was read.
    pub mode: ReadMode,
    /// Whether there is more to page to.
    pub truncated: bool,
}

/// How many lines a read is to return: what was asked for, at least one and at most
/// [`MAX_READ_LIMIT`]; [`DEFAULT_READ_LIMIT`] when nothing was.
pub fn read_limit(limit: Option<u32>) -> (out: usize)
    ensures
        out == (match limit {
            None => DEFAULT_READ_LIMIT as int,
            Some(asked) => if asked < 1 {
                1
            } else if asked > MAX_READ_LIMIT {
                MAX_READ_LIMIT as int
            } else {
                asked as int
            },
        }),
        1 <= out <= 20_000,
        limit is None ==> out == 1000,
        limit matches Some(asked) ==> 1 <= asked <= 20_000 ==> out == asked,
{
    match limit {
        None => DEFAULT_READ_LIMIT,
        Some(asked) => if asked < 1 {
            1
        } else if asked as usize > MAX_READ_LIMIT {
            MAX_READ_LIMIT
        } else {
            asked as usize
        },
    }
}

/// The lines of a page's text: none for an empty one.
pub open spec fn lines_of(text: Seq<char>) -> Seq<Seq<char>> {
    if text.len() == 0 {
        Seq::empty()
    } else {
        split(text, '\n')
    }
}

/// A page, given what the terminal read: its text, where it stopped, and where its log ends.
///
/// A page of the screen is never truncated: the screen is complete by definition.
pub fn read(mode: ReadMode, text: &str, next_cursor: u64, log_end: u64) -> (out:
    TerminalReadResult)
    ensures
        views(out.lines@) == lines_of(text@),
        out.cursor == next_cursor,
        out.mode == mode,
        out.truncated == (mode == ReadMode::Stream && next_cursor < log_end),
{
    let mut lines: Vec<String> = Vec::new();
    if !text.is_empty() {
        let parts = split_on(text, '\n');
        let mut i: usize = 0;
        while i < parts.len()
            invariant
                i <= parts.len(),
                lines@.len() == i,
                forall|k: int| 0 <= k < i ==> (#[trigger] lines@[k])@ == parts@[k]@,
            decreases parts.len() - i,
        {
            lines.push(parts[i].to_owned());
            i = i + 1;
        }
        assert(views(lines@) =~= crate::text::str_views(parts@));
    }
    assert(text@.len() == 0 ==> views(lines@) =~= Seq::empty());
    TerminalReadResult {
        lines,
        cursor: next_cursor,
        mode,
        truncated: mode == ReadMode::Stream && next_cursor < log_end,
    }
}

/// What a send writes to a session: the interrupt, then the text, then enter.
pub open spec fn input_of(interrupt: bool, text: Seq<char>, enter: bool) -> Seq<u8> {
    (if interrupt {
        seq![0x03u8]
    } else {
        Seq::empty()
    }) + vstd::utf8::encode_utf8(text) + (if enter {
        seq![0x0du8]
    } else {
        Seq::empty()
    })
}

/// The bytes a send writes to a session's input, or `None` when there is nothing to write.
///
/// The order is fixed, so that one request can say "cancel whatever is running and then send
/// this command".
pub fn input_bytes(interrupt: bool, text: &str, enter: bool) -> (out: Option<Vec<u8>>)
    ensures
        out is None <==> input_of(interrupt, text@, enter).len() == 0,
        out is Some ==> out->0@ == input_of(interrupt, text@, enter),
        out is None <==> !interrupt && !enter && text@.len() == 0,
        interrupt ==> out is Some && out->0@.len() > 0 && out->0@[0] == 0x03,
        enter ==> out is Some && out->0@.len() > 0 && out->0@.last() == 0x0d,
{
    proof {
        law_a_send_writes_its_text_whole(interrupt, text@, enter);
        law_an_interrupt_goes_first_and_enter_last(interrupt, text@, enter);
    }
    let mut bytes: Vec<u8> = Vec::new();
    if interrupt {
        bytes.push(0x03);
    }
    let body = text.as_bytes();
    let ghost before = bytes@;
    let mut i: usize = 0;
    while i < body.len()
        invariant
            i <= body.len(),
            bytes@ == before + body@.take(i as int),
        decreases body.len() - i,
    {
        bytes.push(body[i]);
        i = i + 1;
        assert(bytes@ =~= before + body@.take(i as int));
    }
    assert(body@.take(i as int) =~= body@);
    if enter {
        bytes.push(0x0d);
    }
    assert(bytes@ =~= input_of(interrupt, text@, enter));
    if bytes.len() == 0 {
        None
    } else {
        Some(bytes)
    }
}

/// What a write to a session's input comes to, given what the operating system said of it.
pub fn written(answer: Result<(), String>) -> (out: Result<(), SessionError>)
    ensures
        out == (match answer {
            Ok(_) => Ok::<(), SessionError>(()),
            Err(said) => Err(SessionError::Closing(said)),
        }),
{
    match answer {
        Ok(_) => Ok(()),
        Err(said) => Err(SessionError::Closing(said)),
    }
}

/// Whether a terminal may have that size: at least one cell in each direction.
pub fn check_size(cols: u16, rows: u16) -> (out: Result<(), SessionError>)
    ensures
        out is Ok <==> cols > 0 && rows > 0,
        out matches Err(err) ==> (err matches SessionError::Invalid(said) && said@
            == "a terminal is at least one cell in each direction"@),
{
    if cols == 0 || rows == 0 {
        Err(
            SessionError::Invalid(
                "a terminal is at least one cell in each direction".to_owned(),
            ),
        )
    } else {
        Ok(())
    }
}

/// What a resize comes to, given what resizing the pty answered. A size of nothing is refused
/// whatever that was.
pub fn resize(cols: u16, rows: u16, answer: Result<(), String>) -> (out: Result<(), SessionError>)
    ensures
        out is Ok <==> cols > 0 && rows > 0 && answer is Ok,
        cols == 0 || rows == 0 ==> (out->Err_0 matches SessionError::Invalid(said) && said@
            == "a terminal is at least one cell in each direction"@),
        cols > 0 && rows > 0 && answer is Err ==> out->Err_0 == SessionError::Closing(
            answer->Err_0,
        ),
{
    match check_size(cols, rows) {
        Ok(_) => written(answer),
        Err(err) => Err(err),
    }
}

/// What a wait is for.
#[derive(Clone, Copy, Debug, PartialEq, Eq, Structural)]
pub enum WaitFor {
    /// The process ending.
    Exit,
    /// The output going quiet.
    Idle,
}

/// What a wait came to.
#[derive(Clone, Copy, Debug, PartialEq, Eq, Structural)]
pub enum WaitOutcome {
    /// The process ended.
    Exited {
        /// Like this.
        status: SessionExit,
    },
    /// The output went quiet.
    Idle,
    /// Neither, within the time given.
    TimedOut,
}

/// What a wait sees when it looks: the exit first, then quiet where it was asked for, then the
/// deadline; `None` to look again. `quiet_ms` is how long the session has been quiet.
pub open spec fn seen(
    wait_for: WaitFor,
    exit: Option<SessionExit>,
    quiet_ms: int,
    past_deadline: bool,
) -> Option<WaitOutcome> {
    if exit is Some {
        Some(WaitOutcome::Exited { status: exit->0 })
    } else if wait_for == WaitFor::Idle && quiet_ms >= IDLE_QUIET_MS {
        Some(WaitOutcome::Idle)
    } else if past_deadline {
        Some(WaitOutcome::TimedOut)
    } else {
        None
    }
}

/// What a wait sees when it looks at `now`; `None` to look again after [`WAIT_POLL_MS`]. A
/// wait with no deadline never runs out.
pub fn wait(
    wait_for: WaitFor,
    exit: Option<SessionExit>,
    now: u64,
    last_output: u64,
    deadline: Option<u64>,
) -> (out: Option<WaitOutcome>)
    ensures
        out == seen(
            wait_for,
            exit,
            now - last_output,
            deadline is Some && now >= deadline->0,
        ),
        deadline matches Some(at) ==> now >= at ==> out is Some,
        exit matches Some(status) ==> out == Some(WaitOutcome::Exited { status }),
        out == Some(WaitOutcome::TimedOut) ==> deadline is Some && now >= deadline->0,
{
    if let Some(status) = exit {
        return Some(WaitOutcome::Exited { status });
    }
    if wait_for == WaitFor::Idle && now >= last_output && now - last_output >= IDLE_QUIET_MS {
        return Some(WaitOutcome::Idle);
    }
    match deadline {
        Some(at) => if now >= at {
            Some(WaitOutcome::TimedOut)
        } else {
            None
        },
        None => None,
    }
}

/// A wait whose deadline has passed always comes to an outcome, whatever it waits for.
pub proof fn law_a_wait_past_its_deadline_ends(
    wait_for: WaitFor,
    exit: Option<SessionExit>,
    quiet_ms: int,
)
    ensures
        seen(wait_for, exit, quiet_ms, true) is Some,
        exit is None && (wait_for == WaitFor::Exit || quiet_ms < 400) ==> seen(
            wait_for,
            exit,
            quiet_ms,
            true,
        ) == Some(WaitOutcome::TimedOut),
{
}

/// A process that has ended ends every wait, and the wait says how it ended.
pub proof fn law_an_exit_ends_every_wait(
    wait_for: WaitFor,
    status: SessionExit,
    quiet_ms: int,
    past_deadline: bool,
)
    ensures
        seen(wait_for, Some(status), quiet_ms, past_deadline) == Some(
            WaitOutcome::Exited { status },
        ),
{
}

/// Quiet ends a wait for quiet and no other, and no outcome is made up: a wait times out only
/// past its deadline, is idle only after the whole quiet time, and looks again otherwise.
pub proof fn law_a_wait_ends_for_the_reason_it_gives(
    wait_for: WaitFor,
    exit: Option<SessionExit>,
    quiet_ms: int,
    past_deadline: bool,
)
    ensures
        wait_for == WaitFor::Idle && exit is None && quiet_ms >= 400 ==> seen(
            wait_for,
            exit,
            quiet_ms,
            past_deadline,
        ) == Some(WaitOutcome::Idle),
        match seen(wait_for, exit, quiet_ms, past_deadline) {
            Some(WaitOutcome::Exited { status }) => exit == Some(status),
            Some(WaitOutcome::Idle) => exit is None && wait_for == WaitFor::Idle && quiet_ms >= 400,
            Some(WaitOutcome::TimedOut) => exit is None && past_deadline,
            None => exit is None && !past_deadline && (wait_for == WaitFor::Exit || quiet_ms < 400),
        },
{
}

/// A send that asks for an interrupt writes the interrupt first, whatever else it asks for, and
/// one that asks for enter writes enter last.
pub proof fn law_an_interrupt_goes_first_and_enter_last(
    interrupt: bool,
    text: Seq<char>,
    enter: bool,
)
    ensures
        interrupt ==> input_of(interrupt, text, enter).len() > 0 && input_of(
            interrupt,
            text,
            enter,
        )[0] == 0x03,
        enter ==> input_of(interrupt, text, enter).len() > 0 && input_of(
            interrupt,
            text,
            enter,
        ).last() == 0x0d,
{
}

/// A send writes its text whole and unchanged, and beside it one byte for the interrupt and one
/// for enter, where they were asked for, and nothing else.
pub proof fn law_a_send_writes_its_text_whole(interrupt: bool, text: Seq<char>, enter: bool)
    ensures
        ({
            let bytes = input_of(interrupt, text, enter);
            let before: int = if interrupt {
                1
            } else {
                0
            };
            let after: int = if enter {
                1
            } else {
                0
            };
            &&& bytes.len() == before + vstd::utf8::encode_utf8(text).len() + after
            &&& bytes.subrange(before, bytes.len() - after) == vstd::utf8::encode_utf8(text)
        }),
        vstd::utf8::decode_utf8(input_of(false, text, false)) == text,
        text.len() > 0 ==> input_of(interrupt, text, enter).len() > 0,
        input_of(false, Seq::empty(), false).len() == 0,
{
    let bytes = input_of(interrupt, text, enter);
    let body = vstd::utf8::encode_utf8(text);
    let before: int = if interrupt {
        1
    } else {
        0
    };
    let after: int = if enter {
        1
    } else {
        0
    };
    assert(bytes.subrange(before, bytes.len() - after) =~= body);
    assert(input_of(false, text, false) =~= body);
    vstd::utf8::encode_utf8_decode_utf8(text);
    if body.len() == 0 {
        assert(vstd::utf8::decode_utf8(body) =~= Seq::<char>::empty());
    }
    let none = Seq::<char>::empty();
    assert(vstd::utf8::encode_utf8(none) =~= Seq::empty());
}

/// The lines of a page, joined by newlines again, are the page, and no line holds a newline.
pub proof fn law_a_page_is_its_lines(text: Seq<char>)
    ensures
        text.len() == 0 ==> lines_of(text).len() == 0,
        text.len() > 0 ==> lines_of(text).len() > 0 && crate::text::joined_by(
            lines_of(text),
            '\n',
        ) == text,
        forall|i: int, j: int|
            0 <= i < lines_of(text).len() && 0 <= j < lines_of(text)[i].len() ==> (
            #[trigger] lines_of(text)[i][j]) != '\n',
{
    crate::text::law_the_parts_make_up_the_whole(text, '\n');
}

} // verus!
