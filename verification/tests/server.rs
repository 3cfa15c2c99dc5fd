use std::collections::HashMap;

use nysia_core::control::ControlError;
use nysia_core::endpoint::{Endpoint, EndpointResolveError, EnvSource};
use nysia_core::lease::{LeaseError, LeaseFile, PidRecordFile};
use nysia_core::peer::PeerCredentials;
use nysia_core::server::daemon::{
    finish, internal, receipt_for, unreadable, Caller, Daemon, DaemonConfig, Decoded, Dispatched,
    Done, ReadNext, RequestPayload, ResponsePayload, Saw, ServeNext, ServerError, Step, Work,
};
use nysia_core::server::handshake::{
    reject_reason, vet, ClientRole, FirstFrame, HelloRequest, ProtocolRange, RejectReason, Vetted,
};
use nysia_core::server::receipts::{Receipts, RECEIPT_CAPACITY};
use nysia_core::server::retire::{should_retire, Load, DEFAULT_IDLE_RETIRE_MS};
use nysia_core::session::failure::{ResolveError, SessionError, SpawnError};
use nysia_core::session::program::{CanonicalPath, ShellProfile};
use nysia_core::session::pump::attach;
use nysia_core::session::registry::{
    AgentRefusal, SessionCreate, SessionCreated, SessionKind, Spawned, Surroundings,
};
use nysia_core::session::verbs::{ReadMode, WaitFor, WaitOutcome};
use nysia_core::wire::{
    CreditFrame, CreditWindow, ErrorCode, FrameBody, Platform, SessionExit, SessionHandle,
    StreamId,
};

const VERSION: u32 = 1;
const ATTACHABLE: ProtocolRange = ProtocolRange { min: 1, max: 1 };
const CLIENT: &str = "nysia-test";

const WINDOW: CreditWindow = CreditWindow {
    per_stream_initial: 2048,
    per_stream_max: 4096,
    total_initial: 4096,
    total_max: 8192,
    pending_cap: 1024,
    ack_batch: 512,
    chunk: 256,
};

fn endpoint(dir: &str) -> Endpoint {
    let env = EnvSource {
        runtime_dir_override: Some(dir.to_owned()),
        endpoint_override: None,
        home: None,
        xdg_runtime_dir: None,
        account: "me".to_owned(),
        isolated: true,
    };
    Endpoint::resolve(VERSION, &env, Platform::Unix, Ok(()), Ok(String::new())).expect("resolves")
}

fn bind(grace: Option<u64>) -> Daemon {
    let config = DaemonConfig {
        idle_retire_after: grace,
        ..DaemonConfig::new(endpoint("/run/nysia"), "0.1.0".to_owned(), WINDOW)
    };
    Daemon::bind(config, 42, 7, "nonce".to_owned(), true, WINDOW, Platform::Unix)
}

fn hello(role: ClientRole) -> HelloRequest {
    HelloRequest { version: VERSION, role, client_id: CLIENT.to_owned() }
}

fn mine() -> PeerCredentials {
    PeerCredentials { pid: Some(100), user: "me".to_owned(), daemon_user: "me".to_owned() }
}

fn handle(text: &str) -> SessionHandle {
    SessionHandle { text: text.to_owned() }
}

fn shell() -> SessionCreate {
    SessionCreate {
        pane_key: None,
        kind: SessionKind::Shell,
        profile: None,
        cwd: None,
        env_overrides: Vec::new(),
        cols: 80,
        rows: 24,
    }
}

fn world() -> Surroundings {
    Surroundings {
        default_profile: ShellProfile::LoginShell,
        shell_label: "shell".to_owned(),
        agent: Err(AgentRefusal::Launch(nysia_core::session::failure::LaunchError::Unavailable {
            agent: "an-agent".to_owned(),
            source: ResolveError::NotFound { program: "an-agent".to_owned() },
        })),
        absolute: true,
        folder: Ok(CanonicalPath { text: "/".to_owned(), components: vec!["/".to_owned()] }),
    }
}

/// Start a session the way a driver of the daemon does: run the verb, do the work, finish it.
fn start(daemon: &mut Daemon, request: &str, name: &str, pid: u32) -> ResponsePayload {
    let step = daemon.run(RequestPayload::SessionCreate(shell()), CLIENT, request);
    let Step::Do(Work::Spawn(create)) = step else {
        panic!("a create needs a spawn, got {step:?}");
    };
    let plan = daemon.sessions.plan_create(create, world()).expect("a plan");
    let spawned = Ok(Spawned { handle: handle(name), pid: Some(pid) });
    let created = daemon.sessions.create(plan, spawned, Ok(()), Platform::Unix, 99);
    finish(Done::Created(created), Platform::Unix)
}

fn started(answer: ResponsePayload) -> SessionCreated {
    match answer {
        ResponsePayload::SessionCreate(created) => created,
        other => panic!("a session, got {other:?}"),
    }
}

fn refused(answer: ResponsePayload) -> nysia_core::wire::ErrorEnvelope {
    match answer {
        ResponsePayload::Error(envelope) => envelope,
        other => panic!("a refusal, got {other:?}"),
    }
}

fn answer(step: Step) -> ResponsePayload {
    match step {
        Step::Answer(answer) => answer,
        other => panic!("an answer, got {other:?}"),
    }
}

#[test]
fn receipts_replay_the_first_answer_and_forget_the_oldest() {
    let mut receipts = Receipts::new();
    receipts.put("me", "req-first", ResponsePayload::SessionClose);
    assert!(receipts.get("me", "req-first").is_some());
    assert!(receipts.get("someone-else", "req-first").is_none());

    for n in 0..RECEIPT_CAPACITY {
        receipts.put("me", &format!("req-{n}"), ResponsePayload::SessionClose);
    }
    assert!(
        receipts.get("me", "req-first").is_none(),
        "the oldest receipt should have been forgotten"
    );
    assert!(receipts.get("me", "req-0").is_some(), "and no other");
}

#[test]
fn a_receipt_can_be_forgotten_when_its_answer_never_left() {
    let mut receipts = Receipts::new();
    receipts.put("me", "req-attach", ResponsePayload::StreamDetach);
    receipts.put("me", "req-created", ResponsePayload::SessionClose);

    receipts.forget("me", "req-attach");
    assert!(receipts.get("me", "req-attach").is_none());
    assert!(
        receipts.get("me", "req-created").is_some(),
        "forgetting one receipt must not disturb another"
    );
    receipts.forget("me", "req-attach");
    assert!(matches!(receipts.get("me", "req-created"), Some(ResponsePayload::SessionClose)));
}

#[test]
fn a_receipt_stored_again_keeps_its_place() {
    let mut receipts = Receipts::new();
    receipts.put("me", "req-first", 1);
    for n in 1..RECEIPT_CAPACITY {
        receipts.put("me", &format!("req-{n}"), 0);
    }
    receipts.put("me", "req-first", 2);
    assert_eq!(receipts.get("me", "req-first"), Some(&2));
    receipts.put("me", "one-more", 3);
    assert_eq!(receipts.get("me", "req-first"), None, "it is still the oldest");
}

#[test]
fn binding_writes_a_lease_that_describes_the_daemon_and_removing_it_is_the_clean_path() {
    let mut daemon = bind(None);
    let lease = PidRecordFile::at(daemon.endpoint().pid_record_path());
    assert_eq!(lease.path(), "/run/nysia/nysiad-v1.pid.json");
    let written = daemon.identity().pid_record();
    let record = lease.read(LeaseFile::Holds(written)).expect("reads").expect("is there");
    assert!(record.describes(daemon.identity()));

    assert!(daemon.shutdown().is_empty());
    assert!(lease.read(LeaseFile::Absent).expect("reads").is_none());
}

#[test]
fn a_daemon_that_has_served_nobody_does_not_retire_out_from_under_its_spawner() {
    let mut daemon = bind(Some(0));
    assert!(!daemon.should_retire(1));
    daemon.served_anyone = true;
    assert!(!daemon.should_retire(2), "the first tick only arms the timer");
    assert!(daemon.should_retire(2), "and the second finds the grace spent");
}

#[test]
fn a_daemon_holding_a_client_or_a_request_never_retires() {
    let mut daemon = bind(Some(0));
    daemon.served_anyone = true;

    daemon.clients = 1;
    assert!(!daemon.should_retire(1));
    assert!(!daemon.should_retire(2));

    daemon.clients = 0;
    daemon.in_flight = 1;
    assert!(!daemon.should_retire(3));
    assert!(!daemon.should_retire(4));

    daemon.in_flight = 0;
    assert!(!daemon.should_retire(5), "the timer had to be re-armed");
    assert!(daemon.should_retire(5));
}

#[test]
fn a_daemon_told_never_to_retire_does_not() {
    let mut daemon = bind(None);
    daemon.served_anyone = true;
    for now in 0..4 {
        assert!(!daemon.should_retire(now * 1_000_000));
    }
}

#[test]
fn a_daemon_holding_a_session_does_not_retire() {
    let mut daemon = bind(Some(0));
    daemon.served_anyone = true;
    start(&mut daemon, "req-1", "session-1", 10);
    assert!(!daemon.should_retire(1));
    assert!(!daemon.should_retire(2));
    assert_eq!(daemon.shutdown().len(), 1);
    assert!(!daemon.should_retire(3));
    assert!(daemon.should_retire(3));
}

#[test]
fn the_grace_is_counted_from_the_look_that_found_it_idle() {
    let load = Load { served_anyone: true, clients: 0, in_flight: 0, sessions: 0 };
    let grace = Some(DEFAULT_IDLE_RETIRE_MS);
    let mut since = None;
    assert!(!should_retire(&mut since, grace, load, 1_000));
    assert_eq!(since, Some(1_000));
    assert!(!should_retire(&mut since, grace, load, 30_999));
    assert!(should_retire(&mut since, grace, load, 31_000));
    assert!(!should_retire(&mut since, grace, Load { clients: 1, ..load }, 31_001));
    assert_eq!(since, None, "a client restarts the clock");
}

#[test]
fn the_accept_loop_stops_for_an_interrupt_or_for_idleness_and_for_nothing_else() {
    let mut daemon = bind(Some(0));
    assert_eq!(daemon.serve(Saw::Connection, 1), ServeNext::Connect);
    assert_eq!(daemon.serve(Saw::AcceptFailed, 1), ServeNext::Wait);
    assert_eq!(daemon.serve(Saw::Tick, 1), ServeNext::Wait);
    assert_eq!(daemon.serve(Saw::Interrupt, 1), ServeNext::Stop);
    daemon.answered(true, None);
    daemon.left(None);
    assert_eq!(daemon.serve(Saw::Tick, 2), ServeNext::Wait);
    assert_eq!(daemon.serve(Saw::Tick, 3), ServeNext::Stop);
}

#[test]
fn a_stream_connection_is_attachable_before_its_hello_is_answered() {
    let mut daemon = bind(None);
    let bound = daemon.open(&hello(ClientRole::Stream)).expect("a stream connection is bound");
    assert_eq!(daemon.streams().bound(), 1);
    assert!(daemon.streams.attach(CLIENT).is_some());
    assert_eq!(daemon.clients, 0, "nothing has been answered yet");

    daemon.answered(false, Some(bound.key));
    assert_eq!(daemon.streams().connections(), 0, "an answer that never left binds nothing");
    assert!(daemon.streams.attach(CLIENT).is_none());
    assert!(!daemon.served_anyone);
    assert!(daemon.open(&hello(ClientRole::Control)).is_none());
}

#[test]
fn every_hello_that_is_not_acceptable_is_refused_with_the_right_retryability() {
    let good = hello(ClientRole::Control);
    let mine = mine();
    let theirs = PeerCredentials { user: "them".to_owned(), ..mine.clone() };
    assert!(reject_reason(false, good.version, VERSION, ATTACHABLE, Some(&mine)).is_none());

    for peer in [Some(&theirs), None] {
        let reason = reject_reason(false, good.version, VERSION, ATTACHABLE, peer)
            .expect("an unproven peer is refused");
        assert!(matches!(reason, RejectReason::Unauthorized { .. }));
        assert!(!reason.retryable(), "retrying reproduces it exactly");
    }

    let reason = reject_reason(false, VERSION + 1, VERSION, ATTACHABLE, Some(&mine))
        .expect("a version outside the range is refused");
    match reason {
        RejectReason::UnsupportedVersion { daemon, attachable } => {
            assert_eq!(daemon, VERSION);
            assert_eq!(attachable, ATTACHABLE);
        }
        other => panic!("expected an unsupported version, got {other:?}"),
    }

    let reason = reject_reason(true, good.version, VERSION, ATTACHABLE, Some(&mine))
        .expect("a retiring daemon takes no new clients");
    assert!(matches!(reason, RejectReason::ShuttingDown));
    assert!(reason.retryable());
    assert!(!RejectReason::Unknown.retryable());
}

#[test]
fn a_first_frame_is_vetted_before_anything_else() {
    let peer = mine();
    let vetted = |first| vet(first, false, VERSION, ATTACHABLE, Some(&peer));
    assert!(matches!(vetted(FirstFrame::Closed), Vetted::Finished));
    match vetted(FirstFrame::TimedOut) {
        Vetted::Refuse(RejectReason::Malformed { detail }) => {
            assert_eq!(detail, ControlError::Truncated.message());
        }
        other => panic!("a refusal, got {other:?}"),
    }
    match vetted(FirstFrame::Failed(ControlError::Malformed("what was sent".to_owned()))) {
        Vetted::Refuse(RejectReason::Malformed { detail }) => {
            assert!(detail.contains("what was sent"), "{detail}");
        }
        other => panic!("a refusal, got {other:?}"),
    }
    match vetted(FirstFrame::Hello(hello(ClientRole::Stream))) {
        Vetted::Accept(hello) => assert_eq!(hello.client_id, CLIENT),
        other => panic!("let in, got {other:?}"),
    }
    let stranger = vet(FirstFrame::Hello(hello(ClientRole::Stream)), false, VERSION, ATTACHABLE, None);
    assert!(matches!(stranger, Vetted::Refuse(RejectReason::Unauthorized { .. })));
}

#[test]
fn a_retry_replays_the_first_answer_rather_than_doing_the_work_twice() {
    let mut daemon = bind(None);
    let first = start(&mut daemon, "req-1", "session-1", 10);
    daemon.keep(true, "me/nysia-test", "req-1", first);
    let receipt = receipt_for(true, "req-1", None).expect("a mutation answers with a receipt");
    assert!(!receipt.replayed, "the first attempt is not a replay");
    assert_eq!(receipt.request_id, "req-1");

    let again = daemon.dispatch(
        true,
        Some("req-1"),
        RequestPayload::SessionCreate(shell()),
        CLIENT,
        "me/nysia-test",
        "req-2",
    );
    assert!(matches!(again, Dispatched::Replay));
    match daemon.replay(true, Some("req-1"), "me/nysia-test") {
        Some(ResponsePayload::SessionCreate(created)) => {
            assert_eq!(created.handle.text, "session-1", "the stored answer comes back");
        }
        other => panic!("the stored answer, got {other:?}"),
    }
    assert_eq!(daemon.sessions().len(), 1, "a retried create must leave one session, not two");
    let receipt = receipt_for(true, "req-2", Some("req-1")).expect("a receipt");
    assert!(receipt.replayed);
    assert_eq!(receipt.request_id, "req-1");

    assert!(daemon.replay(true, Some("req-1"), "them/nysia-test").is_none(), "somebody else's");
    assert!(daemon.replay(true, None, "me/nysia-test").is_none(), "not a retry");
    assert!(daemon.replay(false, Some("req-1"), "me/nysia-test").is_none(), "changes nothing");
    assert!(receipt_for(false, "req-3", None).is_none());
}

#[test]
fn a_refusal_is_not_kept_for_a_retry() {
    let mut daemon = bind(None);
    let no = finish(Done::NotRun("the pool is gone".to_owned()), Platform::Unix);
    daemon.keep(true, "me", "req-1", no);
    assert!(daemon.replay(true, Some("req-1"), "me").is_none());
    daemon.keep(false, "me", "req-2", ResponsePayload::TerminalSend);
    assert!(daemon.replay(true, Some("req-2"), "me").is_none());
}

#[test]
fn a_verb_naming_nothing_fails_with_something_to_do_about_it() {
    let mut daemon = bind(None);
    let ghost = || handle("sess_0e2fa1f4-4f3e-4c5f-9f2a-1b2c3d4e5f60");
    let verbs = [
        RequestPayload::TerminalRead {
            handle: ghost(),
            mode: ReadMode::Screen,
            cursor: None,
            limit: None,
        },
        RequestPayload::TerminalSend {
            handle: ghost(),
            interrupt: false,
            text: "ls".to_owned(),
            enter: true,
        },
        RequestPayload::TerminalResize { handle: ghost(), cols: 80, rows: 24 },
        RequestPayload::TerminalWait { handle: ghost(), wait_for: WaitFor::Exit, timeout_ms: None },
        RequestPayload::SessionClose { handle: ghost() },
        RequestPayload::StreamAttach { handle: ghost() },
    ];
    for verb in verbs {
        let envelope = refused(answer(daemon.run(verb, CLIENT, "req-1")));
        assert_eq!(envelope.code(), ErrorCode::UnknownSession);
        assert!(!envelope.next_steps().is_empty());
        assert!(!envelope.next_command_args().is_empty());
    }
}

#[test]
fn attaching_without_a_stream_connection_says_to_open_one() {
    let mut daemon = bind(None);
    let created = started(start(&mut daemon, "req-1", "session-1", 10));
    let verb = RequestPayload::StreamAttach { handle: created.handle };
    let envelope = refused(answer(daemon.run(verb, CLIENT, "req-2")));
    assert!(envelope.is_retryable(), "opening the connection would fix it");
    assert!(envelope.next_steps().iter().any(|step| step.contains("stream")));
    assert_eq!(envelope.code(), ErrorCode::InvalidRequest);
}

#[test]
fn the_verb_surface_says_what_is_to_be_done() {
    let mut daemon = bind(None);
    let created = started(start(&mut daemon, "req-1", "session-1", 10));
    let it = || handle("session-1");
    assert_eq!(created.handle, it());

    match answer(daemon.run(RequestPayload::SessionList, CLIENT, "req-2")) {
        ResponsePayload::SessionList { sessions } => {
            assert_eq!(sessions.len(), 1);
            assert_eq!(sessions[0].handle, it());
            assert_eq!(sessions[0].created_at_ms, 99);
        }
        other => panic!("a list, got {other:?}"),
    }
    let verb = RequestPayload::TerminalSend {
        handle: it(),
        interrupt: true,
        text: "ls".to_owned(),
        enter: true,
    };
    match daemon.run(verb, CLIENT, "req-3") {
        Step::Do(Work::Write { handle, bytes }) => {
            assert_eq!(handle, it());
            assert_eq!(bytes, b"\x03ls\r");
        }
        other => panic!("a write, got {other:?}"),
    }
    let verb = RequestPayload::TerminalSend {
        handle: it(),
        interrupt: false,
        text: String::new(),
        enter: false,
    };
    assert!(matches!(
        answer(daemon.run(verb, CLIENT, "req-4")),
        ResponsePayload::TerminalSend
    ));
    let verb = RequestPayload::TerminalResize { handle: it(), cols: 0, rows: 24 };
    let envelope = refused(answer(daemon.run(verb, CLIENT, "req-5")));
    assert_eq!(envelope.code(), ErrorCode::InvalidRequest);
    let verb = RequestPayload::TerminalResize { handle: it(), cols: 90, rows: 30 };
    assert!(matches!(
        daemon.run(verb, CLIENT, "req-6"),
        Step::Do(Work::Resize { cols: 90, rows: 30, .. })
    ));
    let verb = RequestPayload::TerminalRead {
        handle: it(),
        mode: ReadMode::Stream,
        cursor: Some(3),
        limit: Some(0),
    };
    assert!(matches!(
        daemon.run(verb, CLIENT, "req-7"),
        Step::Do(Work::Read { mode: ReadMode::Stream, cursor: Some(3), limit: 1, .. })
    ));
    let verb =
        RequestPayload::TerminalWait { handle: it(), wait_for: WaitFor::Idle, timeout_ms: Some(5) };
    assert!(matches!(
        daemon.run(verb, CLIENT, "req-8"),
        Step::Do(Work::Wait { wait_for: WaitFor::Idle, timeout_ms: Some(5), .. })
    ));
    match daemon.run(RequestPayload::SessionClose { handle: it() }, CLIENT, "req-9") {
        Step::Do(Work::TearDown(session)) => assert_eq!(session.handle, it()),
        other => panic!("a teardown, got {other:?}"),
    }
    assert!(daemon.sessions().is_empty());
}

#[test]
fn what_came_of_the_work_is_the_answer() {
    let platform = Platform::Unix;
    let page = Done::Read {
        mode: ReadMode::Stream,
        text: "one\ntwo".to_owned(),
        next_cursor: 2,
        log_end: 5,
    };
    match finish(page, platform) {
        ResponsePayload::TerminalRead(page) => {
            assert_eq!(page.lines, ["one", "two"]);
            assert_eq!(page.cursor, 2);
            assert!(page.truncated);
        }
        other => panic!("a page, got {other:?}"),
    }
    assert!(matches!(finish(Done::TornDown, platform), ResponsePayload::SessionClose));
    assert!(matches!(finish(Done::Written(Ok(())), platform), ResponsePayload::TerminalSend));
    assert!(matches!(finish(Done::Resized(Ok(())), platform), ResponsePayload::TerminalResize));
    let gone = SessionError::Closing("broken pipe".to_owned());
    let words = gone.message();
    for done in [
        Done::Written(Err("broken pipe".to_owned())),
        Done::Resized(Err("broken pipe".to_owned())),
    ] {
        assert_eq!(refused(finish(done, platform)).message(), words);
    }
    let outcome = WaitOutcome::Exited { status: SessionExit::Exited { code: 3 } };
    match finish(Done::Waited { handle: handle("session-1"), outcome }, platform) {
        ResponsePayload::TerminalWait { handle, outcome: came } => {
            assert_eq!(handle.text, "session-1");
            assert_eq!(came, outcome);
        }
        other => panic!("a wait, got {other:?}"),
    }
    let failed = SessionError::Spawn(SpawnError::OpenPty("no ptys".to_owned()));
    let envelope = refused(finish(Done::Created(Err(failed)), platform));
    assert!(!envelope.next_steps().is_empty());
    let envelope = refused(finish(Done::NotRun("the pool is gone".to_owned()), platform));
    assert_eq!(envelope.message(), "the daemon failed while serving this verb: the pool is gone");
    assert!(envelope.is_retryable());
    assert_eq!(internal("x").code(), ErrorCode::Internal);
    let envelope = unreadable("not json".to_owned());
    assert_eq!(envelope.message(), "not json");
    assert!(!envelope.is_retryable());
}

#[test]
fn an_attach_answers_before_a_byte_of_replay_is_enqueued() {
    let mut daemon = bind(None);
    let created = started(start(&mut daemon, "req-1", "session-1", 10));
    let mut bound = daemon.open(&hello(ClientRole::Stream)).expect("bound");
    daemon.answered(true, Some(bound.key));
    daemon.begin_verb();
    let verb = RequestPayload::StreamAttach { handle: created.handle };
    let Step::Attached { answer, pending } = daemon.run(verb, CLIENT, "req-2") else {
        panic!("an attach");
    };
    match &answer {
        ResponsePayload::StreamAttach { handle, stream_id } => {
            assert_eq!(handle.text, "session-1");
            assert_eq!(*stream_id, StreamId { raw: 1 });
        }
        other => panic!("an id, got {other:?}"),
    }
    assert!(bound.outbox.try_recv().is_err(), "nothing may be enqueued before the answer is out");

    let owed = daemon.end_verb(true, Some(pending), "me").expect("the replay is now owed");
    assert_eq!(daemon.in_flight, 0);
    let mut watching = Vec::new();
    attach(&mut daemon.streams, &mut watching, owed.stream, &b"scrollback".to_vec(), None);
    assert!(matches!(
        bound.outbox.try_recv().expect("the grant").body,
        FrameBody::Credit(CreditFrame::Grant { .. })
    ));
    match bound.outbox.try_recv().expect("the replay").body {
        FrameBody::Output(bytes) => assert_eq!(bytes, b"scrollback"),
        other => panic!("output, got {other:?}"),
    }
    assert!(matches!(bound.outbox.try_recv().expect("the boundary").body, FrameBody::ReplayEnd));
}

#[test]
fn an_attach_whose_answer_never_left_is_given_back_with_its_receipt() {
    let mut daemon = bind(None);
    let created = started(start(&mut daemon, "req-1", "session-1", 10));
    daemon.keep(true, "me", "req-1", ResponsePayload::SessionClose);
    let _bound = daemon.open(&hello(ClientRole::Stream)).expect("bound");
    daemon.begin_verb();
    let verb = RequestPayload::StreamAttach { handle: created.handle };
    let Step::Attached { answer, pending } = daemon.run(verb, CLIENT, "req-2") else {
        panic!("an attach");
    };
    let stream = pending.stream;
    daemon.keep(true, "me", "req-2", answer);
    assert!(daemon.end_verb(false, Some(pending), "me").is_none());
    assert!(daemon.streams().sink(stream.connection, stream.stream).is_none());
    assert!(daemon.replay(true, Some("req-2"), "me").is_none());
    assert!(daemon.replay(true, Some("req-1"), "me").is_some(), "only the attach is forgotten");
}

#[test]
fn a_second_stream_connection_does_not_take_the_first_one_s_streams_down() {
    let mut daemon = bind(None);
    let first = daemon.open(&hello(ClientRole::Stream)).expect("bound");
    daemon.answered(true, Some(first.key));
    let second = daemon.open(&hello(ClientRole::Stream)).expect("bound");
    daemon.answered(true, Some(second.key));
    assert_eq!(second.superseded, Some(first.key));
    let stream = daemon.streams.attach(CLIENT).expect("attaches");
    assert_eq!(stream.connection, second.key);

    daemon.left(Some(first.key));
    let sink = daemon.streams().sink(stream.connection, stream.stream).expect("still there");
    assert!(!sink.is_closed(), "the old connection leaving must not deafen the new one");
    assert_eq!(daemon.clients, 1);
}

#[test]
fn a_client_grant_cannot_talk_the_daemon_out_of_its_own_window() {
    let mut daemon = bind(None);
    let bound = daemon.open(&hello(ClientRole::Stream)).expect("bound");
    let stream = daemon.streams.attach(CLIENT).expect("attaches");
    let credit = |daemon: &Daemon| {
        daemon.streams().sink(stream.connection, stream.stream).expect("open").credit()
    };
    let opening = credit(&daemon);
    let huge = CreditWindow { per_stream_initial: u32::MAX, per_stream_max: u32::MAX, ..WINDOW };
    let grant = Decoded::Credit {
        stream: stream.stream,
        credit: Some(CreditFrame::Grant { bytes: u32::MAX, window: huge }),
    };
    assert_eq!(daemon.take_credit(bound.key, grant), ReadNext::Decode);
    assert_eq!(credit(&daemon), opening);
    assert_eq!(daemon.streams().window(), WINDOW);

    let ack = Decoded::Credit {
        stream: stream.stream,
        credit: Some(CreditFrame::Ack { bytes: 512 }),
    };
    assert_eq!(daemon.take_credit(bound.key, ack), ReadNext::Decode);
    assert_eq!(credit(&daemon), opening + 512);
    for _ in 0..100 {
        daemon.take_credit(bound.key, ack);
    }
    assert_eq!(credit(&daemon), i64::from(WINDOW.per_stream_max));

    let noise = Decoded::Credit { stream: stream.stream, credit: None };
    assert_eq!(daemon.take_credit(bound.key, noise), ReadNext::Decode);
    assert_eq!(daemon.take_credit(bound.key, Decoded::Other), ReadNext::Decode);
    assert_eq!(daemon.take_credit(bound.key, Decoded::Incomplete), ReadNext::Read);
    assert_eq!(daemon.take_credit(bound.key, Decoded::Lost), ReadNext::Close);
}

#[test]
fn a_stream_is_detached_once_and_detaching_it_again_is_no_error() {
    let mut daemon = bind(None);
    let _bound = daemon.open(&hello(ClientRole::Stream)).expect("bound");
    let stream = daemon.streams.attach(CLIENT).expect("attaches");
    for _ in 0..2 {
        let verb = RequestPayload::StreamDetach { stream_id: stream.stream };
        assert!(matches!(
            answer(daemon.run(verb, CLIENT, "req-1")),
            ResponsePayload::StreamDetach
        ));
        assert!(daemon.streams().sink(stream.connection, stream.stream).is_none());
    }
}

#[test]
fn a_caller_is_known_by_its_account_its_id_and_the_session_it_descends_from() {
    let mut daemon = bind(None);
    start(&mut daemon, "req-1", "session-1", 10);
    let parents = HashMap::from([(100, 50), (50, 10), (10, 1)]);
    let caller = Caller::new(Some(&mine()), CLIENT, daemon.sessions(), &parents);
    assert_eq!(caller.client_id, CLIENT);
    assert_eq!(caller.fingerprint, "me/nysia-test");
    assert_eq!(caller.session.expect("a descendant").handle, handle("session-1"));

    let outside = HashMap::from([(100, 1)]);
    assert!(Caller::new(Some(&mine()), CLIENT, daemon.sessions(), &outside).session.is_none());
    let unnamed = Caller::new(None, CLIENT, daemon.sessions(), &parents);
    assert_eq!(unnamed.fingerprint, "unknown/nysia-test");
    assert!(unnamed.session.is_none());
}

#[test]
fn a_window_that_does_not_add_up_is_not_served() {
    let broken = CreditWindow { chunk: 0, ..WINDOW };
    let config = DaemonConfig::new(endpoint("/run/nysia"), "0.1.0".to_owned(), broken);
    assert_eq!(config.idle_retire_after, Some(DEFAULT_IDLE_RETIRE_MS));
    let daemon = Daemon::bind(config, 42, 7, "nonce".to_owned(), false, WINDOW, Platform::Unix);
    assert_eq!(daemon.streams().window(), WINDOW);
    assert_eq!(daemon.identity().app_version, "0.1.0");
}

#[test]
fn a_daemon_that_cannot_start_says_why_in_the_words_of_what_went_wrong() {
    assert_eq!(ServerError::Transport("address in use".to_owned()).message(), "address in use");
    let resolve = EndpointResolveError::RuntimeDir { reason: "no home".to_owned() };
    let words = resolve.message();
    assert_eq!(ServerError::Endpoint(resolve).message(), words);
    let lease = PidRecordFile::at("/x".to_owned()).write_failed("write", "full".to_owned());
    let words = lease.message();
    assert!(matches!(lease, LeaseError::Io { .. }));
    assert_eq!(ServerError::Lease(lease).message(), words);
}

#[test]
fn a_retiring_daemon_still_names_a_wrong_version_and_a_stranger_for_what_they_are() {
    let mine = mine();
    let theirs = PeerCredentials { user: "them".to_owned(), ..mine.clone() };
    let reason = reject_reason(true, VERSION + 1, VERSION, ATTACHABLE, Some(&theirs));
    assert!(matches!(reason, Some(RejectReason::UnsupportedVersion { .. })));
    for peer in [Some(&theirs), None] {
        let reason = reject_reason(true, VERSION, VERSION, ATTACHABLE, peer).expect("refused");
        assert!(matches!(reason, RejectReason::Unauthorized { .. }));
        assert!(!reason.retryable(), "a fresh daemon would say the same");
    }
    let first = FirstFrame::Hello(hello(ClientRole::Control));
    let vetted = vet(first, true, VERSION, ATTACHABLE, Some(&theirs));
    assert!(matches!(vetted, Vetted::Refuse(RejectReason::Unauthorized { .. })));
    let first = FirstFrame::Hello(hello(ClientRole::Control));
    let vetted = vet(first, true, VERSION, ATTACHABLE, Some(&mine));
    assert!(matches!(vetted, Vetted::Refuse(RejectReason::ShuttingDown)));
}
