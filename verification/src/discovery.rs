//! Finding a daemon, or starting exactly one.
//!
//! The search is a machine: [`ensure_daemon`] takes what was just seen (a probe, a policy, a
//! try at the lock, a spawn) and says what to do next. Nothing is started before a probe found
//! nothing, the policy allowed it, the lock was taken and a second probe found nothing either.
use vstd::prelude::*;
use crate::client::{
    client_failure, client_said, law_every_client_failure_is_actionable, start_args, start_command,
    ClientError, TransportError,
};
use crate::endpoint::{Endpoint, ENDPOINT_VAR, RUNTIME_DIR_VAR};
use crate::errors::{envelope, law_steps_are_always_actionable, one, steps_of};
use crate::lease::{DaemonIdentity, LeaseError, PidRecord};
use crate::text::{decimal, decimal_of, views};
use crate::wire::{actionable, refusal, EnvelopeView, ErrorCode, ErrorEnvelope};

verus! {

/// How long to wait for a freshly spawned daemon to start answering, in milliseconds.
pub const READY_TIMEOUT_MS: u64 = 20_000;

/// How long to pause before looking again, in milliseconds.
pub const READY_POLL_MS: u64 = 50;

/// How long to wait for the spawn lock before giving up on the other spawner, in milliseconds.
pub const LOCK_TIMEOUT_MS: u64 = 30_000;

/// Why a daemon could not be found or started.
#[derive(Debug)]
pub enum DiscoveryError {
    /// Nothing is listening and this caller was told not to start one.
    Absent {
        /// Where nothing was listening.
        endpoint: String,
    },
    /// The daemon could not be started; the text is the operating system's.
    Spawn(String),
    /// A daemon was started but never began answering.
    NeverReady {
        /// Where it should have answered.
        endpoint: String,
        /// How long it was given.
        seconds: u64,
    },
    /// The spawn lock could not be taken.
    LockTimeout {
        /// How long the wait lasted.
        seconds: u64,
    },
    /// Connecting or handshaking failed.
    Client(ClientError),
}

/// What a failed discovery says.
pub open spec fn discovery_said(err: DiscoveryError) -> Seq<char> {
    match err {
        DiscoveryError::Absent { endpoint } => "no daemon is listening on "@ + endpoint@,
        DiscoveryError::Spawn(said) => "could not start a daemon: "@ + said@,
        DiscoveryError::NeverReady { endpoint, seconds } => "started a daemon on "@ + endpoint@
            + " but it did not answer within "@ + decimal(seconds as nat) + "s"@,
        DiscoveryError::LockTimeout { seconds } => "another process has been starting a daemon for "@
            + decimal(seconds as nat) + "s"@,
        DiscoveryError::Client(err) => client_said(err),
    }
}

/// What a failed discovery comes to as an envelope.
pub open spec fn discovery_failure(err: DiscoveryError) -> EnvelopeView {
    let said = discovery_said(err);
    match err {
        DiscoveryError::Client(err) => client_failure(err),
        DiscoveryError::Absent { endpoint: _ } => EnvelopeView {
            retryable: true,
            command: start_command(),
            ..refusal(
                ErrorCode::Internal,
                said,
                steps_of(
                    "start one with `nysia --daemon`"@,
                    seq!["or drop --no-spawn and let the verb start one for you"@],
                ),
            )
        },
        DiscoveryError::Spawn(_) => refusal(
            ErrorCode::SpawnFailed,
            said,
            steps_of(
                "check that the `nysia` binary is on PATH and executable"@,
                seq!["`nysia --daemon` run by hand will say why it cannot start"@],
            ),
        ),
        DiscoveryError::NeverReady { endpoint: _, seconds: _ } => EnvelopeView {
            retryable: true,
            ..refusal(
                ErrorCode::Internal,
                said,
                steps_of(
                    "read the daemon log in the runtime directory to see why it did not bind"@,
                    seq!["`nysia --daemon` run in the foreground prints the same diagnosis"@],
                ),
            )
        },
        DiscoveryError::LockTimeout { seconds: _ } => EnvelopeView {
            retryable: true,
            ..refusal(
                ErrorCode::SessionBusy,
                said,
                steps_of(
                    "retry in a moment"@,
                    seq!["another client is starting the daemon this one wants"@],
                ),
            )
        },
    }
}

impl DiscoveryError {
    /// What happened.
    pub fn message(&self) -> (out: String)
        ensures
            out@ == discovery_said(*self),
    {
        match self {
            DiscoveryError::Absent { endpoint } => {
                "no daemon is listening on ".to_owned().concat(endpoint.as_str())
            },
            DiscoveryError::Spawn(said) => {
                "could not start a daemon: ".to_owned().concat(said.as_str())
            },
            DiscoveryError::NeverReady { endpoint, seconds } => {
                "started a daemon on ".to_owned().concat(endpoint.as_str()).concat(
                    " but it did not answer within ",
                ).concat(decimal_of(*seconds).as_str()).concat("s")
            },
            DiscoveryError::LockTimeout { seconds } => {
                "another process has been starting a daemon for ".to_owned().concat(
                    decimal_of(*seconds).as_str(),
                ).concat("s")
            },
            DiscoveryError::Client(err) => err.message(),
        }
    }

    /// The error as an envelope, so that a command-line failure carries next steps like every
    /// other.
    pub fn envelope(&self) -> (out: ErrorEnvelope)
        ensures
            out@ == discovery_failure(*self),
    {
        let said = self.message();
        match self {
            DiscoveryError::Client(err) => err.envelope(),
            DiscoveryError::Absent { endpoint: _ } => envelope(
                ErrorCode::Internal,
                said,
                "start one with `nysia --daemon`",
                &one("or drop --no-spawn and let the verb start one for you"),
            ).retryable(true).with_next_command_args(start_args()),
            DiscoveryError::Spawn(_) => envelope(
                ErrorCode::SpawnFailed,
                said,
                "check that the `nysia` binary is on PATH and executable",
                &one("`nysia --daemon` run by hand will say why it cannot start"),
            ),
            DiscoveryError::NeverReady { endpoint: _, seconds: _ } => envelope(
                ErrorCode::Internal,
                said,
                "read the daemon log in the runtime directory to see why it did not bind",
                &one("`nysia --daemon` run in the foreground prints the same diagnosis"),
            ).retryable(true),
            DiscoveryError::LockTimeout { seconds: _ } => envelope(
                ErrorCode::SessionBusy,
                said,
                "retry in a moment",
                &one("another client is starting the daemon this one wants"),
            ).retryable(true),
        }
    }
}

/// Whether a client may start a daemon it does not find.
#[derive(Debug)]
pub enum SpawnPolicy {
    /// Do not start one. Nothing listening is an error.
    Never,
    /// Start one by running `program --daemon` if nothing answers.
    IfAbsent {
        /// The binary to run.
        program: String,
    },
}

/// What a probe found when it dialled the endpoint.
///
/// "The daemon refused my version" is neither: a probe reports a refusal as its own error.
#[derive(Debug)]
pub enum Probed<T> {
    /// Something is listening and it completed the handshake.
    Answering {
        /// Whatever the probe wants to keep.
        connection: T,
        /// Who answered, which is what the lease is checked against.
        identity: DaemonIdentity,
    },
    /// Nothing is listening.
    Absent,
}

/// A daemon that was found or started, and whatever its probe kept.
#[derive(Debug)]
pub struct Ensured<T> {
    /// What the probe handed back from the dial that answered.
    pub connection: T,
    /// Whether this search started the daemon.
    pub spawned: bool,
    /// Whether the lease beside the endpoint describes the daemon that answered.
    pub lease_matches: bool,
}

/// Why a search could not hand back a daemon.
#[derive(Debug)]
pub enum EnsureError<E> {
    /// Finding or starting the daemon failed.
    Discovery(DiscoveryError),
    /// The probe failed for a reason that is not "nothing is listening".
    Probe(E),
    /// The caller could not say what it may start, asked after nothing answered.
    Policy(E),
}

/// A daemon that was found or started, and which of the two it was.
#[derive(Debug)]
pub struct Discovered<T> {
    /// The connected, handshaken client.
    pub client: T,
    /// Whether this call started the daemon.
    pub spawned: bool,
    /// Whether the lease beside the endpoint describes the daemon that answered.
    pub lease_matches: bool,
}

impl<T> From<Ensured<T>> for Discovered<T> {
    fn from(ensured: Ensured<T>) -> (out: Self) {
        Discovered {
            client: ensured.connection,
            spawned: ensured.spawned,
            lease_matches: ensured.lease_matches,
        }
    }
}

impl<T> vstd::std_specs::convert::FromSpecImpl<Ensured<T>> for Discovered<T> {
    open spec fn obeys_from_spec() -> bool {
        true
    }

    open spec fn from_spec(ensured: Ensured<T>) -> Discovered<T> {
        Discovered {
            client: ensured.connection,
            spawned: ensured.spawned,
            lease_matches: ensured.lease_matches,
        }
    }
}

impl From<EnsureError<DiscoveryError>> for DiscoveryError {
    fn from(error: EnsureError<DiscoveryError>) -> (out: Self) {
        match error {
            EnsureError::Discovery(err) => err,
            EnsureError::Probe(err) => err,
            EnsureError::Policy(err) => err,
        }
    }
}

impl vstd::std_specs::convert::FromSpecImpl<EnsureError<DiscoveryError>> for DiscoveryError {
    open spec fn obeys_from_spec() -> bool {
        true
    }

    open spec fn from_spec(error: EnsureError<DiscoveryError>) -> DiscoveryError {
        match error {
            EnsureError::Discovery(err) => err,
            EnsureError::Probe(err) => err,
            EnsureError::Policy(err) => err,
        }
    }
}

/// Whether a lease that was read describes that daemon.
pub open spec fn leased(
    lease: Result<Option<PidRecord>, LeaseError>,
    identity: DaemonIdentity,
) -> bool {
    lease matches Ok(Some(record)) && record.is_of(&identity)
}

/// Record what the probe reached, after checking the lease beside the endpoint.
///
/// A lease that is gone, garbled or another daemon's is out of date, and the connection is
/// still good: the daemon that answered is the one that owns the endpoint.
pub fn settle<T>(
    connection: T,
    identity: &DaemonIdentity,
    lease: Result<Option<PidRecord>, LeaseError>,
    spawned: bool,
) -> (out: Ensured<T>)
    ensures
        out == (Ensured { connection, spawned, lease_matches: leased(lease, *identity) }),
{
    let lease_matches = match lease {
        Ok(Some(record)) => record.describes(identity),
        Ok(None) => false,
        Err(_) => false,
    };
    Ensured { connection, spawned, lease_matches }
}

/// Read a dial: `None` when nothing is listening, and an error for every other failure.
pub fn try_connect<T>(dialled: Result<T, ClientError>) -> (out: Result<Option<T>, DiscoveryError>)
    ensures
        out == (match dialled {
            Ok(client) => Ok::<Option<T>, DiscoveryError>(Some(client)),
            Err(ClientError::Transport(TransportError::NotListening { said: _ })) => Ok(None),
            Err(err) => Err(DiscoveryError::Client(err)),
        }),
{
    match dialled {
        Ok(client) => Ok(Some(client)),
        Err(ClientError::Transport(TransportError::NotListening { said: _ })) => Ok(None),
        Err(err) => Err(DiscoveryError::Client(err)),
    }
}

/// How far a search has come.
#[derive(Debug)]
pub enum Stage {
    /// Waiting for the first probe.
    First,
    /// Nothing answered: waiting to hear what may be started.
    Policy,
    /// Waiting for the spawn lock.
    Lock {
        /// What may be started.
        program: String,
        /// When the wait began, in milliseconds.
        since: u64,
    },
    /// Holding the lock, waiting for the second probe: somebody may have won while this search
    /// waited.
    Again {
        /// What may be started.
        program: String,
    },
    /// Waiting for the program to be run.
    Spawning,
    /// Waiting for the daemon that was started to answer.
    Ready {
        /// When it was started, in milliseconds.
        since: u64,
    },
    /// Finished.
    Over,
}

/// What a search was just told.
#[derive(Debug)]
pub enum Seen<T, E> {
    /// What a probe found.
    Probed(Result<Probed<T>, E>),
    /// What may be started.
    Policy(Result<SpawnPolicy, E>),
    /// Whether the lock was taken; `false` is somebody else holding it.
    Lock(Result<bool, String>),
    /// Whether the program was run.
    Spawned(Result<(), String>),
}

/// What a search asks for.
#[derive(Debug)]
pub enum Want {
    /// Probe the endpoint.
    Probe,
    /// Probe it after a pause of [`READY_POLL_MS`].
    ProbeLater,
    /// Say what may be started.
    Policy,
    /// Try to take the lock.
    Lock,
    /// Try again after a pause of [`READY_POLL_MS`].
    LockLater,
    /// Run this program as a daemon, detached.
    Spawn {
        /// What to run.
        program: String,
    },
}

/// What a search does next.
#[derive(Debug)]
pub enum Move<T, E> {
    /// Ask for something.
    Do(Want),
    /// Go on waiting for what was asked for.
    Wait,
    /// A daemon answered.
    Found {
        /// What the probe kept.
        connection: T,
        /// Who answered.
        identity: DaemonIdentity,
        /// Whether this search started it.
        spawned: bool,
    },
    /// Give up.
    Failed(EnsureError<E>),
}

/// Whether a wait that began at `since` has lasted `limit` at `now`.
pub open spec fn run_out(since: u64, now: u64, limit: u64) -> bool {
    now >= since + limit
}

fn has_run_out(since: u64, now: u64, limit: u64) -> (out: bool)
    ensures
        out == run_out(since, now, limit),
{
    now >= limit && now - limit >= since
}

/// Where a search stands after being told something.
pub open spec fn stage_after<T, E>(stage: Stage, seen: Seen<T, E>, now: u64) -> Stage {
    match (stage, seen) {
        (Stage::First, Seen::Probed(Ok(Probed::Absent))) => Stage::Policy,
        (Stage::First, Seen::Probed(_)) => Stage::Over,
        (Stage::Policy, Seen::Policy(Ok(SpawnPolicy::IfAbsent { program }))) => Stage::Lock {
            program,
            since: now,
        },
        (Stage::Policy, Seen::Policy(_)) => Stage::Over,
        (Stage::Lock { program, since: _ }, Seen::Lock(Ok(true))) => Stage::Again { program },
        (Stage::Lock { program, since }, Seen::Lock(Ok(false))) => if run_out(
            since,
            now,
            LOCK_TIMEOUT_MS,
        ) {
            Stage::Over
        } else {
            Stage::Lock { program, since }
        },
        (Stage::Lock { program: _, since: _ }, Seen::Lock(Err(_))) => Stage::Over,
        (Stage::Again { program: _ }, Seen::Probed(Ok(Probed::Absent))) => Stage::Spawning,
        (Stage::Again { program: _ }, Seen::Probed(_)) => Stage::Over,
        (Stage::Spawning, Seen::Spawned(Ok(_))) => Stage::Ready { since: now },
        (Stage::Spawning, Seen::Spawned(Err(_))) => Stage::Over,
        (Stage::Ready { since }, Seen::Probed(Ok(Probed::Absent))) => if run_out(
            since,
            now,
            READY_TIMEOUT_MS,
        ) {
            Stage::Over
        } else {
            stage
        },
        (Stage::Ready { since: _ }, Seen::Probed(_)) => Stage::Over,
        _ => stage,
    }
}

/// What a search asks for after being told something, if anything.
pub open spec fn wanted<T, E>(stage: Stage, seen: Seen<T, E>, now: u64) -> Option<Want> {
    match (stage, seen) {
        (Stage::First, Seen::Probed(Ok(Probed::Absent))) => Some(Want::Policy),
        (Stage::Policy, Seen::Policy(Ok(SpawnPolicy::IfAbsent { program: _ }))) => Some(Want::Lock),
        (Stage::Lock { program: _, since: _ }, Seen::Lock(Ok(true))) => Some(Want::Probe),
        (Stage::Lock { program: _, since }, Seen::Lock(Ok(false))) => if run_out(
            since,
            now,
            LOCK_TIMEOUT_MS,
        ) {
            None
        } else {
            Some(Want::LockLater)
        },
        (Stage::Again { program }, Seen::Probed(Ok(Probed::Absent))) => Some(
            Want::Spawn { program },
        ),
        (Stage::Spawning, Seen::Spawned(Ok(_))) => Some(Want::Probe),
        (Stage::Ready { since }, Seen::Probed(Ok(Probed::Absent))) => if run_out(
            since,
            now,
            READY_TIMEOUT_MS,
        ) {
            None
        } else {
            Some(Want::ProbeLater)
        },
        _ => None,
    }
}

/// Whether a search is waiting for a probe.
pub open spec fn probing(stage: Stage) -> bool {
    stage is First || stage is Again || stage is Ready
}

/// Whether `why` is what a search gives up with on being told that.
pub open spec fn gives_up<T, E>(
    why: EnsureError<E>,
    stage: Stage,
    seen: Seen<T, E>,
    endpoint: Seq<char>,
) -> bool {
    match seen {
        Seen::Probed(Err(err)) => why == EnsureError::Probe(err),
        Seen::Probed(_) => why matches EnsureError::Discovery(
            DiscoveryError::NeverReady { endpoint: at, seconds },
        ) && at@ == endpoint && seconds == 20 && stage is Ready,
        Seen::Policy(Err(err)) => why == EnsureError::Policy(err),
        Seen::Policy(_) => why matches EnsureError::Discovery(
            DiscoveryError::Absent { endpoint: at },
        ) && at@ == endpoint,
        Seen::Lock(Err(said)) => why == EnsureError::<E>::Discovery(DiscoveryError::Spawn(said)),
        Seen::Lock(_) => why == EnsureError::<E>::Discovery(
            DiscoveryError::LockTimeout { seconds: 30 },
        ),
        Seen::Spawned(Err(said)) => why == EnsureError::<E>::Discovery(DiscoveryError::Spawn(said)),
        Seen::Spawned(_) => false,
    }
}

/// Take one step towards a daemon that answers, starting at [`Stage::First`] with a probe.
///
/// A daemon that answers ends the search at any probe, so one that is already there is
/// attached to before the policy is asked or the lock taken. A probe that was refused ends it
/// too: that daemon is there, and a second one beside it would be wrong. Being told something
/// that was not asked for changes nothing.
pub fn ensure_daemon<T, E>(endpoint: &Endpoint, stage: Stage, seen: Seen<T, E>, now: u64) -> (out: (
    Stage,
    Move<T, E>,
))
    ensures
        out.0 == stage_after(stage, seen, now),
        match wanted(stage, seen, now) {
            Some(want) => out.1 == Move::<T, E>::Do(want),
            None => if probing(stage) && (seen matches Seen::Probed(Ok(Probed::Answering {
                connection: _,
                identity: _,
            }))) {
                out.1 == (Move::<T, E>::Found {
                    connection: seen->Probed_0->Ok_0->connection,
                    identity: seen->Probed_0->Ok_0->identity,
                    spawned: stage is Ready,
                })
            } else if out.0 is Over && !(stage is Over) {
                out.1 matches Move::Failed(why) && gives_up(why, stage, seen, endpoint@.spelled)
            } else {
                out.1 is Wait && out.0 == stage
            },
        },
{
    match (stage, seen) {
        (Stage::First, Seen::Probed(probed)) => match probed {
            Err(err) => (Stage::Over, Move::Failed(EnsureError::Probe(err))),
            Ok(Probed::Answering { connection, identity }) => (
                Stage::Over,
                Move::Found { connection, identity, spawned: false },
            ),
            Ok(Probed::Absent) => (Stage::Policy, Move::Do(Want::Policy)),
        },
        (Stage::Policy, Seen::Policy(policy)) => match policy {
            Err(err) => (Stage::Over, Move::Failed(EnsureError::Policy(err))),
            Ok(SpawnPolicy::Never) => {
                let at = endpoint.listening().spelling().to_owned();
                (
                    Stage::Over,
                    Move::Failed(EnsureError::Discovery(DiscoveryError::Absent { endpoint: at })),
                )
            },
            Ok(SpawnPolicy::IfAbsent { program }) => (
                Stage::Lock { program, since: now },
                Move::Do(Want::Lock),
            ),
        },
        (Stage::Lock { program, since }, Seen::Lock(locked)) => match locked {
            Ok(true) => (Stage::Again { program }, Move::Do(Want::Probe)),
            Ok(false) => {
                if has_run_out(since, now, LOCK_TIMEOUT_MS) {
                    (
                        Stage::Over,
                        Move::Failed(
                            EnsureError::Discovery(
                                DiscoveryError::LockTimeout { seconds: LOCK_TIMEOUT_MS / 1000 },
                            ),
                        ),
                    )
                } else {
                    (Stage::Lock { program, since }, Move::Do(Want::LockLater))
                }
            },
            Err(said) => (
                Stage::Over,
                Move::Failed(EnsureError::Discovery(DiscoveryError::Spawn(said))),
            ),
        },
        (Stage::Again { program }, Seen::Probed(probed)) => match probed {
            Err(err) => (Stage::Over, Move::Failed(EnsureError::Probe(err))),
            Ok(Probed::Answering { connection, identity }) => (
                Stage::Over,
                Move::Found { connection, identity, spawned: false },
            ),
            Ok(Probed::Absent) => (Stage::Spawning, Move::Do(Want::Spawn { program })),
        },
        (Stage::Spawning, Seen::Spawned(spawned)) => match spawned {
            Ok(_) => (Stage::Ready { since: now }, Move::Do(Want::Probe)),
            Err(said) => (
                Stage::Over,
                Move::Failed(EnsureError::Discovery(DiscoveryError::Spawn(said))),
            ),
        },
        (Stage::Ready { since }, Seen::Probed(probed)) => match probed {
            Err(err) => (Stage::Over, Move::Failed(EnsureError::Probe(err))),
            Ok(Probed::Answering { connection, identity }) => (
                Stage::Over,
                Move::Found { connection, identity, spawned: true },
            ),
            Ok(Probed::Absent) => {
                if has_run_out(since, now, READY_TIMEOUT_MS) {
                    let at = endpoint.listening().spelling().to_owned();
                    (
                        Stage::Over,
                        Move::Failed(
                            EnsureError::Discovery(
                                DiscoveryError::NeverReady {
                                    endpoint: at,
                                    seconds: READY_TIMEOUT_MS / 1000,
                                },
                            ),
                        ),
                    )
                } else {
                    (Stage::Ready { since }, Move::Do(Want::ProbeLater))
                }
            },
        },
        (stage, _) => (stage, Move::Wait),
    }
}

/// How a daemon is to be run.
#[derive(Debug)]
pub struct Launch {
    /// The binary.
    pub program: String,
    /// Its arguments.
    pub args: Vec<String>,
    /// What is put in its environment, over what it inherits.
    pub env: Vec<(String, String)>,
    /// The file its output and its errors are appended to.
    pub log: String,
}

/// How `program` is to be run as the daemon of `endpoint`.
///
/// The endpoint is named, not inherited: a daemon that resolved its own would bind somewhere
/// else wherever the spawner had pinned one.
pub fn spawn_daemon(program: String, endpoint: &Endpoint) -> (out: Launch)
    ensures
        out.program == program,
        views(out.args@) == seq!["--daemon"@],
        out.env@.len() == 2,
        out.env@[0].0@ == "NYSIA_RUNTIME_DIR"@,
        out.env@[0].1@ == endpoint@.runtime_dir,
        out.env@[1].0@ == "NYSIA_ENDPOINT"@,
        out.env@[1].1@ == endpoint@.spelled,
        out.log@ == endpoint.beside(".log"@),
{
    let args: Vec<String> = vec!["--daemon".to_owned()];
    assert(views(args@) =~= seq!["--daemon"@]);
    let env: Vec<(String, String)> = vec![
        (RUNTIME_DIR_VAR.to_owned(), endpoint.runtime_dir().to_owned()),
        (ENDPOINT_VAR.to_owned(), endpoint.listening().spelling().to_owned()),
    ];
    Launch { program, args, env, log: endpoint.log_path() }
}

/// Where a search stands after a run of things it was told, each with the time.
pub open spec fn searched<T, E>(told: Seq<(Seen<T, E>, u64)>) -> Stage
    decreases told.len(),
{
    if told.len() == 0 {
        Stage::First
    } else {
        stage_after(searched(told.drop_last()), told.last().0, told.last().1)
    }
}

/// How often a search asked for a daemon to be started over a run of things it was told.
pub open spec fn started<T, E>(told: Seq<(Seen<T, E>, u64)>) -> nat
    decreases told.len(),
{
    if told.len() == 0 {
        0
    } else {
        let asks = wanted(searched(told.drop_last()), told.last().0, told.last().1) matches Some(
            Want::Spawn { program: _ },
        );
        started(told.drop_last()) + if asks {
            1nat
        } else {
            0
        }
    }
}

/// One search never starts two daemons, whatever it is told and however often.
pub proof fn law_a_search_starts_at_most_one_daemon<T, E>(told: Seq<(Seen<T, E>, u64)>)
    ensures
        started(told) <= 1,
        !(searched(told) is Spawning || searched(told) is Ready || searched(told) is Over)
            ==> started(told) == 0,
    decreases told.len(),
{
    if told.len() > 0 {
        law_a_search_starts_at_most_one_daemon(told.drop_last());
    }
}

/// Whether something told a search that nothing is listening.
pub open spec fn says_absent<T, E>(seen: Seen<T, E>) -> bool {
    seen matches Seen::Probed(Ok(Probed::Absent))
}

/// Whether something told a search that it may start a daemon.
pub open spec fn says_allowed<T, E>(seen: Seen<T, E>) -> bool {
    seen matches Seen::Policy(Ok(SpawnPolicy::IfAbsent { program: _ }))
}

/// Whether something told a search that it holds the lock.
pub open spec fn says_locked<T, E>(seen: Seen<T, E>) -> bool {
    seen matches Seen::Lock(Ok(true))
}

proof fn lemma_asked_for_a_policy<T, E>(told: Seq<(Seen<T, E>, u64)>) -> (a: int)
    requires
        searched(told) is Policy,
    ensures
        0 <= a < told.len(),
        says_absent(told[a].0),
    decreases told.len(),
{
    let before = told.drop_last();
    if searched(before) is Policy {
        lemma_asked_for_a_policy(before)
    } else {
        told.len() - 1
    }
}

proof fn lemma_waited_for_the_lock<T, E>(told: Seq<(Seen<T, E>, u64)>) -> (at: (int, int))
    requires
        searched(told) is Lock,
    ensures
        0 <= at.0 < at.1 < told.len(),
        says_absent(told[at.0].0),
        says_allowed(told[at.1].0),
    decreases told.len(),
{
    let before = told.drop_last();
    if searched(before) is Lock {
        lemma_waited_for_the_lock(before)
    } else {
        let a = lemma_asked_for_a_policy(before);
        (a, told.len() - 1)
    }
}

proof fn lemma_held_the_lock<T, E>(told: Seq<(Seen<T, E>, u64)>) -> (at: (int, int, int))
    requires
        searched(told) is Again,
    ensures
        0 <= at.0 < at.1 < at.2 < told.len(),
        says_absent(told[at.0].0),
        says_allowed(told[at.1].0),
        says_locked(told[at.2].0),
    decreases told.len(),
{
    let before = told.drop_last();
    if searched(before) is Again {
        lemma_held_the_lock(before)
    } else {
        let (a, b) = lemma_waited_for_the_lock(before);
        (a, b, told.len() - 1)
    }
}

/// A daemon is started only after nothing was listening, then the policy allowed it, then the
/// lock was taken, and then, with the lock held, nothing was listening still.
pub proof fn law_a_daemon_is_started_only_under_the_lock<T, E>(told: Seq<(Seen<T, E>, u64)>)
    requires
        started(told) > 0,
    ensures
        exists|a: int, b: int, c: int, d: int|
            #![trigger told[a], told[b], told[c], told[d]]
            0 <= a < b < c < d < told.len() && says_absent(told[a].0) && says_allowed(told[b].0)
                && says_locked(told[c].0) && says_absent(told[d].0),
    decreases told.len(),
{
    let before = told.drop_last();
    if started(before) > 0 {
        law_a_daemon_is_started_only_under_the_lock(before);
        let (a, b, c, d) = choose|a: int, b: int, c: int, d: int|
            #![trigger before[a], before[b], before[c], before[d]]
            0 <= a < b < c < d < before.len() && says_absent(before[a].0) && says_allowed(
                before[b].0,
            ) && says_locked(before[c].0) && says_absent(before[d].0);
        assert(told[a] == before[a] && told[b] == before[b] && told[c] == before[c] && told[d]
            == before[d]);
    } else {
        let (a, b, c) = lemma_held_the_lock(before);
        let d = told.len() - 1;
        assert(told[a] == before[a] && told[b] == before[b] && told[c] == before[c]);
        assert(says_absent(told[d].0));
    }
}

/// Every discovery failure tells whoever asked what to do next.
pub proof fn law_every_discovery_failure_is_actionable(err: DiscoveryError)
    requires
        err matches DiscoveryError::Client(ClientError::Verb { envelope, printed: _ }) ==> actionable(
            envelope@.steps,
        ),
    ensures
        actionable(discovery_failure(err).steps),
{
    match err {
        DiscoveryError::Client(err) => {
            law_every_client_failure_is_actionable(err);
        },
        DiscoveryError::Absent { endpoint: _ } => {
            law_steps_are_always_actionable(
                "start one with `nysia --daemon`"@,
                seq!["or drop --no-spawn and let the verb start one for you"@],
            );
        },
        DiscoveryError::Spawn(_) => {
            law_steps_are_always_actionable(
                "check that the `nysia` binary is on PATH and executable"@,
                seq!["`nysia --daemon` run by hand will say why it cannot start"@],
            );
        },
        DiscoveryError::NeverReady { endpoint: _, seconds: _ } => {
            law_steps_are_always_actionable(
                "read the daemon log in the runtime directory to see why it did not bind"@,
                seq!["`nysia --daemon` run in the foreground prints the same diagnosis"@],
            );
        },
        DiscoveryError::LockTimeout { seconds: _ } => {
            law_steps_are_always_actionable(
                "retry in a moment"@,
                seq!["another client is starting the daemon this one wants"@],
            );
        },
    }
}

/// A lease vouches for a daemon if it could be read, holds a record and the record has the
/// daemon's process, start and launch; a missing or unreadable one does not.
pub proof fn law_a_lease_vouches_for_the_daemon_it_records(
    record: PidRecord,
    err: LeaseError,
    identity: DaemonIdentity,
)
    ensures
        leased(Ok(Some(record)), identity) <==> record.pid == identity.pid && record.started_at_ms
            == identity.started_at_ms && record.launch_nonce@ == identity.launch_nonce@,
        !leased(Ok(None), identity),
        !leased(Err(err), identity),
{
}

/// Time has run out once the limit has passed since the start, and stays run out.
pub proof fn law_time_runs_out_at_its_limit(since: u64, now: u64, later: u64, limit: u64)
    ensures
        run_out(since, now, limit) <==> now - since >= limit,
        now <= later && run_out(since, now, limit) ==> run_out(since, later, limit),
{
}

/// Where nothing answers and starting one is allowed, a daemon is started: once nothing was
/// found, the policy allows it, the lock is had and there is still nothing, the program that the
/// policy named is started, once, and is then waited for from that moment.
pub proof fn law_an_absent_daemon_is_started<T, E>(
    program: String,
    t0: u64,
    t1: u64,
    t2: u64,
    t3: u64,
    t4: u64,
)
    ensures
        ({
            let absent = Seen::<T, E>::Probed(Ok(Probed::Absent));
            let allowed = Seen::<T, E>::Policy(Ok(SpawnPolicy::IfAbsent { program }));
            let locked = Seen::<T, E>::Lock(Ok(true));
            let spawned = Seen::<T, E>::Spawned(Ok(()));
            let a = stage_after(Stage::First, absent, t0);
            let b = stage_after(a, allowed, t1);
            let c = stage_after(b, locked, t2);
            let d = stage_after(c, absent, t3);
            let e = stage_after(d, spawned, t4);
            &&& wanted(Stage::First, absent, t0) == Some(Want::Policy)
            &&& wanted(a, allowed, t1) == Some(Want::Lock)
            &&& wanted(b, locked, t2) == Some(Want::Probe)
            &&& wanted(c, absent, t3) == Some(Want::Spawn { program })
            &&& wanted(d, spawned, t4) == Some(Want::Probe)
            &&& e == (Stage::Ready { since: t4 })
            &&& started(
                seq![(absent, t0), (allowed, t1), (locked, t2), (absent, t3), (spawned, t4)],
            ) == 1
        }),
{
    let absent = Seen::<T, E>::Probed(Ok(Probed::Absent));
    let allowed = Seen::<T, E>::Policy(Ok(SpawnPolicy::IfAbsent { program }));
    let locked = Seen::<T, E>::Lock(Ok(true));
    let spawned = Seen::<T, E>::Spawned(Ok(()));
    let none = Seq::<(Seen<T, E>, u64)>::empty();
    let s1 = none.push((absent, t0));
    let s2 = s1.push((allowed, t1));
    let s3 = s2.push((locked, t2));
    let s4 = s3.push((absent, t3));
    let s5 = s4.push((spawned, t4));
    assert(s1.drop_last() =~= none);
    assert(s2.drop_last() =~= s1);
    assert(s3.drop_last() =~= s2);
    assert(s4.drop_last() =~= s3);
    assert(s5.drop_last() =~= s4);
    assert(searched(none) is First && started(none) == 0);
    assert(searched(s1) is Policy && started(s1) == 0);
    assert(searched(s2) is Lock && started(s2) == 0);
    assert(searched(s3) == (Stage::Again { program }) && started(s3) == 0);
    assert(searched(s4) is Spawning && started(s4) == 1);
    assert(started(s5) == 1);
    assert(s5 =~= seq![(absent, t0), (allowed, t1), (locked, t2), (absent, t3), (spawned, t4)]);
}

/// A lock that another holds is waited for, for thirty seconds, with the same program in mind;
/// a daemon that was started is asked again for twenty. Then the search is over.
pub proof fn law_a_search_waits_as_long_as_it_says<T, E>(program: String, since: u64, now: u64)
    ensures
        ({
            let stage = Stage::Lock { program, since };
            let held = Seen::<T, E>::Lock(Ok(false));
            &&& now - since < 30_000 ==> stage_after(stage, held, now) == stage && wanted(
                stage,
                held,
                now,
            ) == Some(Want::LockLater)
            &&& now - since >= 30_000 ==> stage_after(stage, held, now) is Over && wanted(
                stage,
                held,
                now,
            ) is None
        }),
        ({
            let stage = Stage::Ready { since };
            let absent = Seen::<T, E>::Probed(Ok(Probed::Absent));
            &&& now - since < 20_000 ==> stage_after(stage, absent, now) == stage && wanted(
                stage,
                absent,
                now,
            ) == Some(Want::ProbeLater)
            &&& now - since >= 20_000 ==> stage_after(stage, absent, now) is Over && wanted(
                stage,
                absent,
                now,
            ) is None
        }),
{
}

/// A daemon that answers ends the search wherever it is asked, and so does anything that fails
/// and a policy against starting one; nothing more is then wanted, and nothing starts it again.
pub proof fn law_an_answer_or_a_failure_ends_the_search<T, E>(
    stage: Stage,
    connection: T,
    identity: DaemonIdentity,
    err: E,
    said: String,
    seen: Seen<T, E>,
    now: u64,
)
    ensures
        ({
            let answering = Seen::<T, E>::Probed(Ok(Probed::Answering { connection, identity }));
            let failed = Seen::<T, E>::Probed(Err(err));
            stage is First || stage is Again || stage is Ready ==> {
                &&& stage_after(stage, answering, now) is Over
                &&& wanted(stage, answering, now) is None
                &&& stage_after(stage, failed, now) is Over
                &&& wanted(stage, failed, now) is None
            }
        }),
        stage is Policy ==> stage_after(stage, Seen::<T, E>::Policy(Ok(SpawnPolicy::Never)), now)
            is Over && stage_after(stage, Seen::<T, E>::Policy(Err(err)), now) is Over,
        stage is Lock ==> stage_after(stage, Seen::<T, E>::Lock(Err(said)), now) is Over,
        stage is Spawning ==> stage_after(stage, Seen::<T, E>::Spawned(Err(said)), now) is Over,
        stage is Over ==> stage_after(stage, seen, now) is Over && wanted(stage, seen, now) is None,
        probing(stage) <==> stage is First || stage is Again || stage is Ready,
{
}

/// A search that gives up says why: what a probe or the policy failed with, that nothing listens
/// where it was told not to start one, what the lock or the start failed with, or how long it
/// waited for which.
pub proof fn law_a_search_says_why_it_gave_up<T, E>(
    why: EnsureError<E>,
    stage: Stage,
    seen: Seen<T, E>,
    endpoint: Seq<char>,
)
    requires
        gives_up(why, stage, seen, endpoint),
    ensures
        seen matches Seen::Probed(Err(err)) ==> why == EnsureError::Probe(err),
        seen matches Seen::Policy(Err(err)) ==> why == EnsureError::Policy(err),
        seen matches Seen::Policy(Ok(_)) ==> why is Discovery && (why->Discovery_0
            matches DiscoveryError::Absent { endpoint: at } && at@ == endpoint),
        seen matches Seen::Lock(Err(said)) ==> why is Discovery && why->Discovery_0
            == DiscoveryError::Spawn(said),
        seen matches Seen::Spawned(Err(said)) ==> why is Discovery && why->Discovery_0
            == DiscoveryError::Spawn(said),
        seen matches Seen::Lock(Ok(_)) ==> why is Discovery && why->Discovery_0 == (
        DiscoveryError::LockTimeout { seconds: 30 }),
        seen matches Seen::Probed(Ok(_)) ==> why is Discovery && (why->Discovery_0
            matches DiscoveryError::NeverReady { endpoint: at, seconds } && at@ == endpoint
            && seconds == 20),
{
}

/// Each way that a search fails says what it is about and whether to try again, and offers the
/// command that starts a daemon where there is none.
pub proof fn law_a_discovery_failure_says_what_to_do(err: DiscoveryError)
    ensures
        err matches DiscoveryError::Client(why) ==> discovery_failure(err) == client_failure(why)
            && discovery_said(err) == client_said(why),
        !(err is Client) ==> discovery_failure(err).message == discovery_said(err),
        err is Absent || err is NeverReady || err is LockTimeout ==> discovery_failure(
            err,
        ).retryable,
        err is Spawn ==> !discovery_failure(err).retryable,
        err is Spawn ==> discovery_failure(err).code == ErrorCode::SpawnFailed,
        err is Absent || err is NeverReady ==> discovery_failure(err).code == ErrorCode::Internal,
        err is LockTimeout ==> discovery_failure(err).code == ErrorCode::SessionBusy,
        err is Absent ==> discovery_failure(err).command == seq!["nysia"@, "--daemon"@],
        err is Spawn || err is NeverReady || err is LockTimeout ==> discovery_failure(
            err,
        ).command.len() == 0,
        err matches DiscoveryError::Absent { endpoint } ==> discovery_said(err).skip(
            discovery_said(err).len() - endpoint@.len(),
        ) == endpoint@,
        err matches DiscoveryError::Spawn(said) ==> discovery_said(err).skip(
            discovery_said(err).len() - said@.len(),
        ) == said@,
        err matches DiscoveryError::NeverReady { endpoint, seconds } ==> discovery_said(err).skip(
            discovery_said(err).len() - decimal(seconds as nat).len() - 1,
        ) == decimal(seconds as nat).push('s'),
        err matches DiscoveryError::LockTimeout { seconds } ==> discovery_said(err).skip(
            discovery_said(err).len() - decimal(seconds as nat).len() - 1,
        ) == decimal(seconds as nat).push('s'),
{
    reveal_strlit("s");
    let said = discovery_said(err);
    match err {
        DiscoveryError::Absent { endpoint } => {
            assert(said.skip(said.len() - endpoint@.len()) =~= endpoint@);
        },
        DiscoveryError::Spawn(why) => {
            assert(said.skip(said.len() - why@.len()) =~= why@);
        },
        DiscoveryError::NeverReady { endpoint, seconds } => {
            let n = decimal(seconds as nat);
            assert(said.skip(said.len() - n.len() - 1) =~= n.push('s'));
        },
        DiscoveryError::LockTimeout { seconds } => {
            let n = decimal(seconds as nat);
            assert(said.skip(said.len() - n.len() - 1) =~= n.push('s'));
        },
        DiscoveryError::Client(_) => {},
    }
}

/// What is handed to a caller is what was found, with what is known of it; what a search failed
/// with is handed on as it is.
pub proof fn law_what_was_found_is_handed_on<T>(
    ensured: Ensured<T>,
    err: DiscoveryError,
)
    ensures
        ({
            let out = <Discovered<T> as vstd::std_specs::convert::FromSpec<Ensured<T>>>::from_spec(
                ensured,
            );
            &&& <Discovered<T> as vstd::std_specs::convert::FromSpec<
                Ensured<T>,
            >>::obeys_from_spec()
            &&& out.client == ensured.connection
            &&& out.spawned == ensured.spawned
            &&& out.lease_matches == ensured.lease_matches
        }),
        <DiscoveryError as vstd::std_specs::convert::FromSpec<
            EnsureError<DiscoveryError>,
        >>::obeys_from_spec(),
        <DiscoveryError as vstd::std_specs::convert::FromSpec<
            EnsureError<DiscoveryError>,
        >>::from_spec(EnsureError::Probe(err)) == err,
        <DiscoveryError as vstd::std_specs::convert::FromSpec<
            EnsureError<DiscoveryError>,
        >>::from_spec(EnsureError::Policy(err)) == err,
        <DiscoveryError as vstd::std_specs::convert::FromSpec<
            EnsureError<DiscoveryError>,
        >>::from_spec(EnsureError::Discovery(err)) == err,
{
}

} // verus!
