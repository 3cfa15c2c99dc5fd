//! When a daemon with nothing to do goes away.
use vstd::prelude::*;

verus! {

/// How long the daemon stays up after the last client leaves, holding nothing, in milliseconds.
pub const DEFAULT_IDLE_RETIRE_MS: u64 = 30_000;

/// How often idle is looked at again, in milliseconds.
pub const IDLE_TICK_MS: u64 = 250;

/// What a daemon has on its hands.
#[derive(Clone, Copy, Debug, PartialEq, Eq, Structural)]
pub struct Load {
    /// Whether any client has ever been served. A daemon nobody has spoken to yet must not
    /// retire out from under the client that is about to dial in.
    pub served_anyone: bool,
    /// Clients connected.
    pub clients: usize,
    /// Verbs being served.
    pub in_flight: usize,
    /// Sessions held.
    pub sessions: usize,
}

/// Whether a daemon has nothing to do and has had something to do before.
pub open spec fn idle(load: Load) -> bool {
    load.served_anyone && load.clients == 0 && load.in_flight == 0 && load.sessions == 0
}

/// Since when a daemon has been seen idle, after a look at `now`. A daemon that never retires
/// is not looked at.
pub open spec fn idle_since(
    since: Option<u64>,
    grace: Option<u64>,
    load: Load,
    now: u64,
) -> Option<u64> {
    if grace is None {
        since
    } else if !idle(load) {
        None
    } else if since is Some {
        since
    } else {
        Some(now)
    }
}

/// Whether a look at `now` finds that the daemon should retire: it was seen idle before, has
/// been ever since, and the grace has passed.
pub open spec fn retires(since: Option<u64>, grace: Option<u64>, load: Load, now: u64) -> bool {
    grace is Some && idle(load) && since is Some && now - since->0 >= grace->0
}

/// Look at an idle clock at `now`, and say whether the daemon should retire.
pub fn should_retire(since: &mut Option<u64>, grace: Option<u64>, load: Load, now: u64) -> (out:
    bool)
    ensures
        *final(since) == idle_since(*old(since), grace, load, now),
        out == retires(*old(since), grace, load, now),
{
    let grace: u64 = match grace {
        Some(grace) => grace,
        None => {
            return false;
        },
    };
    let quiet = load.served_anyone && load.clients == 0 && load.in_flight == 0 && load.sessions
        == 0;
    if !quiet {
        *since = None;
        return false;
    }
    match *since {
        Some(started) => now >= started && now - started >= grace,
        None => {
            *since = Some(now);
            false
        },
    }
}

/// A daemon that holds a client, a session or an unanswered verb, or that has served nobody
/// yet, never retires, however long it has been.
pub proof fn law_a_daemon_in_use_never_retires(
    since: Option<u64>,
    grace: Option<u64>,
    load: Load,
    now: u64,
)
    requires
        load.clients > 0 || load.sessions > 0 || load.in_flight > 0 || !load.served_anyone,
    ensures
        !retires(since, grace, load, now),
{
}

/// A client that comes back restarts the clock: after a look that finds the daemon in use, it
/// takes a fresh look to start the grace and the whole grace after that to retire.
pub proof fn law_use_restarts_the_grace(
    since: Option<u64>,
    grace: u64,
    busy: Load,
    quiet: Load,
    a: u64,
    b: u64,
    c: u64,
)
    requires
        !idle(busy),
        a <= b <= c,
        retires(
            idle_since(idle_since(since, Some(grace), busy, a), Some(grace), quiet, b),
            Some(grace),
            quiet,
            c,
        ),
    ensures
        c - b >= grace,
        !retires(idle_since(since, Some(grace), busy, a), Some(grace), quiet, b),
{
}

/// A daemon that has served someone and has nothing left to do retires once the grace has
/// passed, counted from when it was first seen so, and not before; one with no grace never does.
pub proof fn law_an_idle_daemon_retires_when_its_grace_is_over(
    load: Load,
    grace: u64,
    first: u64,
    then: u64,
    now: u64,
)
    requires
        load.served_anyone,
        load.clients == 0,
        load.in_flight == 0,
        load.sessions == 0,
    ensures
        idle_since(None, Some(grace), load, first) == Some(first),
        idle_since(Some(first), Some(grace), load, then) == Some(first),
        retires(Some(first), Some(grace), load, now) <==> now >= first + grace,
        !retires(None, Some(grace), load, now),
        !retires(Some(first), None, load, now),
        idle_since(Some(first), None, load, now) == Some(first),
{
}

/// Anything to do, or nobody served yet, puts the grace back to its start.
pub proof fn law_anything_to_do_restarts_the_grace(
    since: Option<u64>,
    load: Load,
    grace: u64,
    now: u64,
)
    requires
        !load.served_anyone || load.clients != 0 || load.in_flight != 0 || load.sessions != 0,
    ensures
        idle_since(since, Some(grace), load, now) is None,
        !retires(since, Some(grace), load, now),
{
}

} // verus!
