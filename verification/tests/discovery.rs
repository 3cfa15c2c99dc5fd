use std::collections::VecDeque;

use nysia_core::client::{Client, ClientError, HelloReply, TransportError};
use nysia_core::discovery::{
    ensure_daemon, settle, spawn_daemon, try_connect, Discovered, DiscoveryError, EnsureError,
    Ensured, Move, Probed, Seen, SpawnPolicy, Stage, Want, LOCK_TIMEOUT_MS, READY_TIMEOUT_MS,
};
use nysia_core::endpoint::{Endpoint, EnvSource};
use nysia_core::lease::{DaemonIdentity, LeaseError, LeaseFile, PidRecord, PidRecordFile};
use nysia_core::server::handshake::RejectReason;
use nysia_core::wire::{ErrorCode, Platform};

fn endpoint(tag: &str) -> Endpoint {
    let env = EnvSource {
        runtime_dir_override: Some(format!("/run/{tag}")),
        endpoint_override: None,
        home: None,
        xdg_runtime_dir: None,
        account: "me".to_owned(),
        isolated: true,
    };
    Endpoint::resolve(1, &env, Platform::Unix, Ok(()), Ok(String::new())).expect("resolves")
}

fn identity(nonce: &str) -> DaemonIdentity {
    DaemonIdentity {
        pid: 42,
        started_at_ms: 7,
        launch_nonce: nonce.to_owned(),
        app_version: "0.1.0".to_owned(),
    }
}

fn answering(tag: &'static str) -> Probed<&'static str> {
    Probed::Answering { connection: tag, identity: identity("one") }
}

fn if_absent() -> SpawnPolicy {
    SpawnPolicy::IfAbsent { program: "/bin/echo".to_owned() }
}

/// What a search did on the way to its end.
#[derive(Default)]
struct Trace {
    probes: usize,
    policies: usize,
    probes_before_policy: usize,
    locks: usize,
    spawns: Vec<String>,
    now: u64,
}

type Ended = Result<(&'static str, DaemonIdentity, bool), EnsureError<DiscoveryError>>;

/// Run a search to its end: probes answer from a script and then find nothing, the lock is
/// free unless somebody holds it, and each look takes ten milliseconds of the clock.
fn search(
    endpoint: &Endpoint,
    probes: Vec<Result<Probed<&'static str>, DiscoveryError>>,
    mut policy: Option<Result<SpawnPolicy, DiscoveryError>>,
    lock_free: bool,
    spawn: Result<(), String>,
) -> (Ended, Trace) {
    let mut script = VecDeque::from(probes);
    let mut trace = Trace::default();
    let mut stage = Stage::First;
    let mut want = Want::Probe;
    loop {
        trace.now += 10;
        let seen = match want {
            Want::Probe | Want::ProbeLater => {
                trace.probes += 1;
                Seen::Probed(script.pop_front().unwrap_or(Ok(Probed::Absent)))
            }
            Want::Policy => {
                trace.policies += 1;
                trace.probes_before_policy = trace.probes;
                Seen::Policy(policy.take().expect("the policy is asked for once"))
            }
            Want::Lock | Want::LockLater => {
                trace.locks += 1;
                Seen::Lock(Ok(lock_free))
            }
            Want::Spawn { program } => {
                trace.spawns.push(program);
                Seen::Spawned(spawn.clone())
            }
        };
        let (next, step) = ensure_daemon(endpoint, stage, seen, trace.now);
        stage = next;
        match step {
            Move::Do(asked) => want = asked,
            Move::Wait => panic!("everything asked for was answered"),
            Move::Found { connection, identity, spawned } => {
                return (Ok((connection, identity, spawned)), trace);
            }
            Move::Failed(why) => return (Err(why), trace),
        }
    }
}

#[test]
fn nothing_listening_and_no_permission_to_spawn_says_how_to_start_one() {
    let (ended, _) = search(&endpoint("absent"), vec![], Some(Ok(SpawnPolicy::Never)), true, Ok(()));
    let err = DiscoveryError::from(ended.expect_err("nothing is listening"));
    assert!(matches!(err, DiscoveryError::Absent { .. }));
    assert_eq!(err.message(), "no daemon is listening on /run/absent/nysiad-v1.sock");
    let envelope = err.envelope();
    assert!(envelope.is_retryable(), "starting one would fix it");
    assert_eq!(*envelope.next_command_args(), ["nysia".to_owned(), "--daemon".to_owned()]);
}

#[test]
fn a_spawner_that_cannot_take_the_lock_starts_nothing() {
    let (ended, trace) = search(&endpoint("lock"), vec![], Some(Ok(if_absent())), false, Ok(()));
    assert!(matches!(
        ended,
        Err(EnsureError::Discovery(DiscoveryError::LockTimeout { seconds: 30 }))
    ));
    assert!(trace.spawns.is_empty(), "a second spawner must not also believe it won");
    assert!(trace.now >= LOCK_TIMEOUT_MS);

    let (ended, trace) = search(
        &endpoint("lock"),
        vec![Ok(Probed::Absent), Ok(Probed::Absent), Ok(answering("mine"))],
        Some(Ok(if_absent())),
        true,
        Ok(()),
    );
    assert!(ended.is_ok(), "a free lock must let the next spawner in");
    assert_eq!(trace.spawns, ["/bin/echo"]);
}

#[test]
fn a_lease_that_describes_nothing_listening_is_not_taken_for_a_live_daemon() {
    let (ended, trace) = search(&endpoint("stale"), vec![], Some(Ok(SpawnPolicy::Never)), true, Ok(()));
    assert!(matches!(ended, Err(EnsureError::Discovery(DiscoveryError::Absent { .. }))));
    assert_eq!(trace.probes, 1, "only the probe is asked, never the lease");
}

#[test]
fn a_daemon_that_is_already_there_is_used_and_no_lock_is_taken() {
    let (ended, trace) =
        search(&endpoint("present"), vec![Ok(answering("live"))], None, true, Ok(()));
    let (connection, _, spawned) = ended.expect("something answered");
    assert_eq!(connection, "live");
    assert!(!spawned, "nothing was started");
    assert_eq!(trace.probes, 1, "one dial");
    assert_eq!(trace.locks, 0, "and no lock");
}

#[test]
fn nothing_listening_and_no_permission_to_spawn_is_absent_through_the_seam_too() {
    let (ended, trace) = search(&endpoint("absent"), vec![], Some(Ok(SpawnPolicy::Never)), true, Ok(()));
    assert!(matches!(ended, Err(EnsureError::Discovery(DiscoveryError::Absent { .. }))));
    assert_eq!(trace.locks, 0);
}

#[test]
fn the_policy_is_never_asked_for_when_something_already_answers() {
    let failing = Some(Err(DiscoveryError::Spawn(
        "the runtime is not installed beside the app".to_owned(),
    )));
    let (ended, trace) =
        search(&endpoint("late"), vec![Ok(answering("live"))], failing, true, Ok(()));
    assert_eq!(ended.expect("something answered").0, "live");
    assert_eq!(trace.policies, 0);
}

#[test]
fn nothing_listening_resolves_the_policy_once_and_only_after_the_probe() {
    let (ended, trace) = search(
        &endpoint("once"),
        vec![Ok(Probed::Absent), Ok(answering("the one it started"))],
        Some(Ok(if_absent())),
        true,
        Ok(()),
    );
    assert_eq!(ended.expect("the re-probe answered").0, "the one it started");
    assert_eq!(trace.policies, 1);
    assert!(trace.probes_before_policy >= 1);
}

#[test]
fn a_policy_that_cannot_be_resolved_stops_before_the_lock_and_keeps_its_own_words() {
    let failing = Some(Err(DiscoveryError::Spawn("reinstall Nysia".to_owned())));
    let (ended, trace) = search(&endpoint("fails"), vec![], failing, true, Ok(()));
    match ended.expect_err("there is nothing to start") {
        EnsureError::Policy(cause) => assert!(cause.message().contains("reinstall Nysia")),
        other => panic!("got {other:?}"),
    }
    assert_eq!(trace.locks, 0, "the lock was taken for a spawn that could never happen");
    assert!(trace.spawns.is_empty());
}

#[test]
fn a_probe_that_fails_for_any_other_reason_never_starts_a_daemon() {
    let (ended, trace) = search(
        &endpoint("refused"),
        vec![Err(DiscoveryError::LockTimeout { seconds: 1 })],
        Some(Ok(if_absent())),
        true,
        Ok(()),
    );
    assert!(matches!(ended, Err(EnsureError::Probe(DiscoveryError::LockTimeout { .. }))));
    assert!(trace.spawns.is_empty(), "a refusal started a daemon");
}

#[test]
fn the_loser_of_the_race_re_probes_under_the_lock_rather_than_spawning() {
    let (ended, trace) = search(
        &endpoint("loser"),
        vec![Ok(Probed::Absent), Ok(answering("the winner's"))],
        Some(Ok(if_absent())),
        true,
        Ok(()),
    );
    let (connection, _, spawned) = ended.expect("the winner's daemon answered");
    assert_eq!(connection, "the winner's");
    assert!(!spawned, "the loser started a second daemon for one endpoint");
    assert_eq!(trace.probes, 2, "the re-probe under the lock is missing");
    assert!(trace.spawns.is_empty());
}

#[test]
fn a_spawn_waits_for_the_daemon_to_answer_before_handing_it_back() {
    let (ended, trace) = search(
        &endpoint("spawn"),
        vec![
            Ok(Probed::Absent),
            Ok(Probed::Absent),
            Ok(Probed::Absent),
            Ok(answering("the one it started")),
        ],
        Some(Ok(if_absent())),
        true,
        Ok(()),
    );
    let (connection, _, spawned) = ended.expect("it answered on the third poll");
    assert_eq!(connection, "the one it started");
    assert!(spawned, "this search is the one that started it");
    assert!(trace.probes >= 4);
    assert_eq!(trace.spawns.len(), 1);
}

#[test]
fn a_program_that_cannot_be_run_is_a_spawn_failure_naming_it() {
    let (ended, _) = search(
        &endpoint("missing"),
        vec![],
        Some(Ok(SpawnPolicy::IfAbsent { program: "/run/missing/no-such-nysia-binary".to_owned() })),
        true,
        Err("no such file".to_owned()),
    );
    let Err(EnsureError::Discovery(err)) = ended else {
        panic!("there is no such program");
    };
    assert!(matches!(err, DiscoveryError::Spawn(_)));
    assert_eq!(err.message(), "could not start a daemon: no such file");
    assert_eq!(err.envelope().code(), ErrorCode::SpawnFailed);
}

#[test]
fn a_daemon_that_never_answers_is_given_up_on() {
    let (ended, trace) = search(&endpoint("mute"), vec![], Some(Ok(if_absent())), true, Ok(()));
    let Err(EnsureError::Discovery(err)) = ended else {
        panic!("nothing ever answered");
    };
    assert_eq!(
        err.message(),
        "started a daemon on /run/mute/nysiad-v1.sock but it did not answer within 20s"
    );
    assert!(err.envelope().is_retryable());
    assert!(trace.now >= READY_TIMEOUT_MS);
    assert_eq!(trace.spawns.len(), 1);
}

#[test]
fn the_lease_beside_a_daemon_that_answered_is_still_checked() {
    let lease = PidRecordFile::at(endpoint("lease").pid_record_path());
    let read = |nonce: &str| -> Result<Option<PidRecord>, LeaseError> {
        lease.read(LeaseFile::Holds(identity(nonce).pid_record()))
    };
    let matching = settle("live", &identity("one"), read("one"), false);
    assert!(matching.lease_matches);
    let impostor = settle("live", &identity("two"), read("one"), true);
    assert!(!impostor.lease_matches);
    assert!(impostor.spawned);
    let gone = settle("live", &identity("one"), lease.read(LeaseFile::Absent), false);
    assert!(!gone.lease_matches, "a lease that is gone describes nothing");
    let failed = Err(lease.write_failed("read", "denied".to_owned()));
    assert!(!settle("live", &identity("one"), failed, false).lease_matches);
}

#[test]
fn a_dial_that_finds_nothing_listening_is_not_an_error() {
    let nothing = ClientError::Transport(TransportError::NotListening { said: "none".to_owned() });
    assert!(matches!(try_connect::<Client>(Err(nothing)), Ok(None)));
    let client = Client::connect(Some(HelloReply::Accepted(identity("one"))));
    assert!(matches!(try_connect(client), Ok(Some(_))));
    let refused = ClientError::Rejected {
        reason: RejectReason::ShuttingDown,
        printed: "ShuttingDown".to_owned(),
        retryable: true,
    };
    assert!(matches!(
        try_connect::<Client>(Err(refused)),
        Err(DiscoveryError::Client(ClientError::Rejected { .. }))
    ));
}

#[test]
fn what_was_not_asked_for_changes_nothing() {
    let endpoint = endpoint("odd");
    let told: Seen<(), ()> = Seen::Spawned(Ok(()));
    let (stage, step) = ensure_daemon(&endpoint, Stage::First, told, 5);
    assert!(matches!(stage, Stage::First));
    assert!(matches!(step, Move::Wait));
}

#[test]
fn a_daemon_is_told_where_to_listen_rather_than_left_to_work_it_out() {
    let launch = spawn_daemon("/usr/bin/nysia".to_owned(), &endpoint("told"));
    assert_eq!(launch.program, "/usr/bin/nysia");
    assert_eq!(launch.args, ["--daemon"]);
    assert_eq!(
        launch.env,
        [
            ("NYSIA_RUNTIME_DIR".to_owned(), "/run/told".to_owned()),
            ("NYSIA_ENDPOINT".to_owned(), "/run/told/nysiad-v1.sock".to_owned()),
        ]
    );
    assert_eq!(launch.log, "/run/told/nysiad-v1.log");
}

#[test]
fn what_was_ensured_is_what_was_discovered() {
    let client = Client::connect(Some(HelloReply::Accepted(identity("one")))).expect("connects");
    let found = Discovered::from(Ensured { connection: client, spawned: true, lease_matches: false });
    assert!(found.spawned);
    assert!(!found.lease_matches);
    assert_eq!(found.client.identity().launch_nonce, "one");
    let err = DiscoveryError::from(EnsureError::Probe(DiscoveryError::Client(ClientError::NoAnswer)));
    assert!(matches!(err, DiscoveryError::Client(ClientError::NoAnswer)));
    assert_eq!(err.envelope().next_steps()[0], "retry the command");
    let busy = DiscoveryError::LockTimeout { seconds: 30 };
    assert_eq!(busy.message(), "another process has been starting a daemon for 30s");
    assert_eq!(busy.envelope().code(), ErrorCode::SessionBusy);
}
