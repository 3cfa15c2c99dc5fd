//! How a child's end is put to a client.
//!
//! The pty layer carries a signal by *name* and a client needs a number it can branch on. The
//! table here converts the spellings both platforms produce.
use vstd::prelude::*;
use crate::text::{
    all_digits, begins_with, blank, chars_of, decimal, is_digit, law_a_number_reads_back,
    lemma_trimmed_start_skips, number, parse_digits, same, slice_of, starts_with, trim, trimmed,
};
use crate::wire::SessionExit;

verus! {

/// `portable_pty::ExitStatus`: a code and, where a signal ended the child, that signal's name.
#[verifier::external_type_specification]
#[verifier::external_body]
pub struct ExChildStatus(portable_pty::ExitStatus);

/// The code a status was made with.
pub uninterp spec fn child_code(status: portable_pty::ExitStatus) -> u32;

/// The signal name a status was made with, if any.
pub uninterp spec fn child_signal(status: portable_pty::ExitStatus) -> Option<Seq<char>>;

/// `portable_pty::ExitStatus::exit_code` returns the code the status was made with.
pub assume_specification[ portable_pty::ExitStatus::exit_code ](
    status: &portable_pty::ExitStatus,
) -> (code: u32)
    ensures
        code == child_code(*status),
;

/// `portable_pty::ExitStatus::signal` returns the signal name the status was made with, or
/// `None` when it was made with a code alone.
pub assume_specification[ portable_pty::ExitStatus::signal ](
    status: &portable_pty::ExitStatus,
) -> (name: Option<&str>)
    ensures
        name is Some <==> child_signal(*status) is Some,
        name is Some ==> name->0@ == child_signal(*status)->0,
;

/// The number a text spells, with an optional sign before its digits, when it fits an `i32`.
pub open spec fn signed_number(s: Seq<char>) -> Option<i32> {
    if s.len() > 0 && s[0] == '-' {
        if all_digits(s.skip(1)) && number(s.skip(1)) <= 0x8000_0000 {
            Some((-(number(s.skip(1)) as int)) as i32)
        } else {
            None
        }
    } else {
        let digits = if s.len() > 0 && s[0] == '+' {
            s.skip(1)
        } else {
            s
        };
        if all_digits(digits) && number(digits) <= 0x7fff_ffff {
            Some(number(digits) as i32)
        } else {
            None
        }
    }
}

fn parse_signed(s: &str) -> (out: Option<i32>)
    ensures
        out == signed_number(s@),
{
    let cs = chars_of(s);
    assert(s@.skip(0) =~= s@);
    if cs.len() > 0 && cs[0] == '-' {
        match parse_digits(&cs, 1, 0x8000_0000) {
            Some(n) => {
                let negated: i64 = -(n as i64);
                Some(negated as i32)
            },
            None => None,
        }
    } else {
        let from: usize = if cs.len() > 0 && cs[0] == '+' {
            1
        } else {
            0
        };
        match parse_digits(&cs, from, 0x7fff_ffff) {
            Some(n) => Some(n as i32),
            None => None,
        }
    }
}

/// The number behind a signal's name: the one in `Signal <n>`, or the one both platforms'
/// spellings of a common signal stand for.
pub open spec fn signal_named(name: Seq<char>) -> Option<i32> {
    if begins_with(name, "Signal "@) {
        signed_number(trimmed(name.skip("Signal "@.len() as int)))
    } else if name == "Hangup"@ {
        Some(1)
    } else if name == "Interrupt"@ {
        Some(2)
    } else if name == "Quit"@ {
        Some(3)
    } else if name == "Illegal instruction"@ {
        Some(4)
    } else if name == "Abort trap"@ || name == "Aborted"@ {
        Some(6)
    } else if name == "Floating point exception"@ {
        Some(8)
    } else if name == "Killed"@ {
        Some(9)
    } else if name == "Bus error"@ {
        Some(10)
    } else if name == "Segmentation fault"@ {
        Some(11)
    } else if name == "Broken pipe"@ {
        Some(13)
    } else if name == "Alarm clock"@ {
        Some(14)
    } else if name == "Terminated"@ {
        Some(15)
    } else {
        None
    }
}

/// The number behind a signal name, for the signals a session teardown actually produces.
pub fn signal_number(name: &str) -> (out: Option<i32>)
    ensures
        out == signal_named(name@),
{
    if starts_with(name, "Signal ") {
        let cs = chars_of(name);
        let n: usize = cs.len();
        proof {
            reveal_strlit("Signal ");
            assert(name@.skip(7) =~= cs@.subrange(7, n as int));
        }
        let rest = slice_of(&cs, 7, n);
        return parse_signed(trim(rest.as_str()).as_str());
    }
    if same(name, "Hangup") {
        Some(1)
    } else if same(name, "Interrupt") {
        Some(2)
    } else if same(name, "Quit") {
        Some(3)
    } else if same(name, "Illegal instruction") {
        Some(4)
    } else if same(name, "Abort trap") || same(name, "Aborted") {
        Some(6)
    } else if same(name, "Floating point exception") {
        Some(8)
    } else if same(name, "Killed") {
        Some(9)
    } else if same(name, "Bus error") {
        Some(10)
    } else if same(name, "Segmentation fault") {
        Some(11)
    } else if same(name, "Broken pipe") {
        Some(13)
    } else if same(name, "Alarm clock") {
        Some(14)
    } else if same(name, "Terminated") {
        Some(15)
    } else {
        None
    }
}

/// How an end with this code and this signal name is put to a client: by the signal's number
/// where its name is a known one, by the code otherwise.
pub open spec fn wire_status(code: u32, signal: Option<Seq<char>>) -> SessionExit {
    match signal {
        Some(name) if signal_named(name) is Some => SessionExit::Signaled {
            signal: signal_named(name)->0,
        },
        _ => SessionExit::Exited {
            code: if code <= i32::MAX {
                code as i32
            } else {
                i32::MAX
            },
        },
    }
}

/// How an end with this code and this signal name is put to a client.
pub fn status_from(code: u32, signal: Option<&str>) -> (out: SessionExit)
    ensures
        out == wire_status(
            code,
            match signal {
                Some(name) => Some(name@),
                None => None,
            },
        ),
{
    if let Some(name) = signal {
        if let Some(signal) = signal_number(name) {
            return SessionExit::Signaled { signal };
        }
    }
    let code: i32 = if code <= 0x7fff_ffff {
        code as i32
    } else {
        0x7fff_ffff
    };
    SessionExit::Exited { code }
}

/// The pty layer's exit status as a client is told it.
pub fn exit_status(status: &portable_pty::ExitStatus) -> (out: SessionExit)
    ensures
        out == wire_status(child_code(*status), child_signal(*status)),
{
    status_from(status.exit_code(), status.signal())
}

/// A signal that is spelled by number is that number, and one whose number no status could hold
/// is none.
pub proof fn law_a_numbered_signal_is_its_number(n: nat)
    ensures
        n <= 0x7fff_ffff ==> signal_named("Signal "@ + decimal(n)) == Some(n as i32),
        n > 0x7fff_ffff ==> signal_named("Signal "@ + decimal(n)) is None,
        0 < n <= 0x8000_0000 ==> signal_named("Signal -"@ + decimal(n)) == Some((-n) as i32),
{
    reveal_strlit("Signal ");
    reveal_strlit("Signal -");
    let lead = "Signal "@;
    law_a_number_reads_back(n);
    let d = decimal(n);
    let s = lead + d;
    assert(s.take(lead.len() as int) =~= lead);
    assert(s.skip(lead.len() as int) =~= d);
    assert(is_digit(d[0]));
    assert(is_digit(d[d.len() - 1]));
    assert(trimmed(d) == d);
    let m = seq!['-'] + d;
    let t = "Signal -"@ + d;
    assert(t.take(lead.len() as int) =~= lead);
    assert(t.skip(lead.len() as int) =~= m);
    assert(m.last() == d[d.len() - 1]);
    assert(trimmed(m) == m);
    assert(m.skip(1) =~= d);
}

/// The names that a system gives its signals are the numbers that POSIX and BSD give them.
pub proof fn law_a_named_signal_is_its_number(name: Seq<char>)
    requires
        !begins_with(name, "Signal "@),
    ensures
        signal_named(name) == Some(1i32) <==> name == "Hangup"@,
        signal_named(name) == Some(2i32) <==> name == "Interrupt"@,
        signal_named(name) == Some(3i32) <==> name == "Quit"@,
        signal_named(name) == Some(4i32) <==> name == "Illegal instruction"@,
        signal_named(name) == Some(6i32) <==> name == "Abort trap"@ || name == "Aborted"@,
        signal_named(name) == Some(8i32) <==> name == "Floating point exception"@,
        signal_named(name) == Some(9i32) <==> name == "Killed"@,
        signal_named(name) == Some(10i32) <==> name == "Bus error"@,
        signal_named(name) == Some(11i32) <==> name == "Segmentation fault"@,
        signal_named(name) == Some(13i32) <==> name == "Broken pipe"@,
        signal_named(name) == Some(14i32) <==> name == "Alarm clock"@,
        signal_named(name) == Some(15i32) <==> name == "Terminated"@,
        signal_named(name) matches Some(n) ==> 1 <= n <= 15 && n != 5 && n != 7 && n != 12,
{
    reveal_strlit("Hangup");
    reveal_strlit("Interrupt");
    reveal_strlit("Quit");
    reveal_strlit("Illegal instruction");
    reveal_strlit("Abort trap");
    reveal_strlit("Aborted");
    reveal_strlit("Floating point exception");
    reveal_strlit("Killed");
    reveal_strlit("Bus error");
    reveal_strlit("Segmentation fault");
    reveal_strlit("Broken pipe");
    reveal_strlit("Alarm clock");
    reveal_strlit("Terminated");
    assert("Hangup"@[0] == 'H' && "Interrupt"@[1] == 'n' && "Illegal instruction"@[1] == 'l');
    assert("Killed"@[0] == 'K' && "Broken pipe"@[1] == 'r' && "Bus error"@[1] == 'u');
    assert("Abort trap"@.len() == 10 && "Terminated"@.len() == 10 && "Terminated"@[0] == 'T'
        && "Abort trap"@[0] == 'A');
    assert("Bus error"@.len() == 9 && "Interrupt"@.len() == 9 && "Bus error"@[0] == 'B'
        && "Interrupt"@[0] == 'I');
    assert("Broken pipe"@.len() == 11 && "Alarm clock"@.len() == 11 && "Broken pipe"@[0] == 'B'
        && "Alarm clock"@[0] == 'A');
}

/// A process that was not killed by a signal is reported with its own code, the codes above
/// what a status holds with the largest it holds; one that was is reported with the signal,
/// whatever its code; a signal with no number is no signal.
pub proof fn law_an_exit_is_reported_as_it_was(code: u32, name: Seq<char>)
    ensures
        code <= 0x7fff_ffff ==> wire_status(code, None) == (SessionExit::Exited {
            code: code as i32,
        }),
        code > 0x7fff_ffff ==> wire_status(code, None) == (SessionExit::Exited {
            code: 0x7fff_ffff,
        }),
        signal_named(name) matches Some(signal) ==> wire_status(code, Some(name)) == (
        SessionExit::Signaled { signal }),
        signal_named(name) is None ==> wire_status(code, Some(name)) == wire_status(code, None),
{
}

/// A number is read with its sign, and with white space round it.
pub proof fn law_a_signal_number_may_be_spaced_and_signed(gap: Seq<char>, n: nat)
    requires
        blank(gap),
        n <= 0x7fff_ffff,
    ensures
        signal_named("Signal "@ + (gap + decimal(n))) == Some(n as i32),
        signal_named("Signal "@ + (gap + (seq!['+'] + decimal(n)))) == Some(n as i32),
{
    let lead = "Signal "@;
    let d = decimal(n);
    let plus = seq!['+'] + d;
    law_a_number_reads_back(n);
    assert(is_digit(d[0]));
    assert(is_digit(d[d.len() - 1]));
    lemma_trimmed_start_skips(gap, d);
    assert(trimmed(gap + d) == d);
    assert(plus.last() == d[d.len() - 1]);
    lemma_trimmed_start_skips(gap, plus);
    assert(trimmed(gap + plus) == plus);
    assert(plus.skip(1) =~= d);
    let s = lead + (gap + d);
    assert(s.take(lead.len() as int) =~= lead);
    assert(s.skip(lead.len() as int) =~= gap + d);
    let t = lead + (gap + plus);
    assert(t.take(lead.len() as int) =~= lead);
    assert(t.skip(lead.len() as int) =~= gap + plus);
}

} // verus!
