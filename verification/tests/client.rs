use nysia_core::client::{
    start_args, Answer, Client, ClientError, HelloReply, TransportError,
};
use nysia_core::control::ControlError;
use nysia_core::endpoint::EndpointResolveError;
use nysia_core::lease::{DaemonIdentity, LeaseFile, PidRecordFile};
use nysia_core::server::daemon::{internal, ResponsePayload};
use nysia_core::server::handshake::{ProtocolRange, RejectReason};
use nysia_core::session::registry::SessionCreated;
use nysia_core::session::verbs::{read, ReadMode, WaitOutcome};
use nysia_core::wire::{ErrorCode, Incarnation, PaneKey, SessionHandle, StreamId};

fn identity() -> DaemonIdentity {
    DaemonIdentity {
        pid: 42,
        started_at_ms: 7,
        launch_nonce: "nonce".to_owned(),
        app_version: "0.1.0".to_owned(),
    }
}

fn answered(verb: &'static str, payload: ResponsePayload) -> Option<Answer> {
    Some(Answer { request_id: "req-1".to_owned(), verb, payload, printed: "as printed".to_owned() })
}

fn handle() -> SessionHandle {
    SessionHandle { text: "session-1".to_owned() }
}

fn rejected(reason: RejectReason, retryable: bool) -> ClientError {
    let reply = HelloReply::Rejected { reason, printed: "Why".to_owned(), retryable };
    Client::connect(Some(reply)).expect_err("refused")
}

#[test]
fn the_handshake_names_a_daemon_the_lease_beside_it_describes() {
    let client = Client::connect(Some(HelloReply::Accepted(identity()))).expect("connects");
    let lease = PidRecordFile::at("/run/nysia/nysiad-v1.pid.json".to_owned());
    let record = lease
        .read(LeaseFile::Holds(identity().pid_record()))
        .expect("the lease reads")
        .expect("the lease is there");
    assert!(record.describes(client.identity()));
}

#[test]
fn a_connection_closed_without_a_word_is_no_answer() {
    assert!(matches!(Client::connect(None), Err(ClientError::NoAnswer)));
    let err = Client::request("session_list", "req-1", None).expect_err("no answer");
    assert!(matches!(err, ClientError::NoAnswer));
    let envelope = err.envelope();
    assert!(envelope.is_retryable());
    assert_eq!(envelope.next_steps()[0], "retry the command");
}

#[test]
fn a_refused_client_comes_back_exactly_when_the_daemon_says_to() {
    let range = ProtocolRange { min: 1, max: 2 };
    let cases = [
        (RejectReason::UnsupportedVersion { daemon: 2, attachable: range }, "different protocols"),
        (RejectReason::Unauthorized { detail: "no".to_owned() }, "serves one account"),
        (RejectReason::ShuttingDown, "retiring"),
        (RejectReason::Malformed { detail: "no".to_owned() }, "upgrade"),
        (RejectReason::Unknown, "upgrade"),
    ];
    for (at, (reason, step)) in cases.into_iter().enumerate() {
        let retryable = at % 2 == 0;
        let err = rejected(reason, retryable);
        assert_eq!(err.message(), "the daemon refused the connection: Why");
        let envelope = err.envelope();
        assert_eq!(envelope.is_retryable(), retryable);
        assert_eq!(envelope.code(), ErrorCode::Unsupported);
        assert!(envelope.next_steps()[0].contains(step), "{:?}", envelope.next_steps());
    }
}

#[test]
fn an_answer_is_taken_only_for_the_request_and_the_verb_it_names() {
    let ok = Client::request("session_close", "req-1", answered("session_close", ResponsePayload::SessionClose));
    assert!(matches!(ok, Ok(ResponsePayload::SessionClose)));

    let other = Client::request("session_close", "req-2", answered("session_close", ResponsePayload::SessionClose));
    assert!(matches!(
        other,
        Err(ClientError::Mismatched { asked: "session_close", answered: "session_close" })
    ));
    let wrong = Client::request("session_list", "req-1", answered("session_close", ResponsePayload::SessionClose));
    let err = wrong.expect_err("the wrong verb");
    assert_eq!(err.message(), "asked for session_list and the daemon answered session_close");
    assert!(err.envelope().next_steps()[0].contains("report this"));
    let lying = Client::session_list("req-1", answered("session_list", ResponsePayload::SessionClose));
    assert!(matches!(lying, Err(ClientError::Mismatched { .. })));
}

#[test]
fn a_verb_the_daemon_refused_keeps_the_envelope_it_sent() {
    let sent = internal("the pool is gone");
    let words = sent.message().to_owned();
    let steps = sent.next_steps().clone();
    let err = Client::session_list("req-1", answered("error", ResponsePayload::Error(sent)))
        .expect_err("refused");
    assert_eq!(err.message(), "as printed");
    let envelope = err.envelope();
    assert_eq!(envelope.message(), words);
    assert_eq!(*envelope.next_steps(), steps);
    assert!(envelope.is_retryable());

    let foreign = Client::session_list("req-9", answered("error", ResponsePayload::Error(internal("x"))));
    assert!(matches!(foreign, Err(ClientError::Mismatched { answered: "error", .. })));
}

#[test]
fn each_verb_reads_its_own_answer() {
    let pane_key = PaneKey { text: "tab:leaf".to_owned() };
    let incarnation = Incarnation { pane: pane_key.clone(), generation: 0 };
    let created = SessionCreated { handle: handle(), pane_key, incarnation };
    let got = Client::session_create(
        "req-1",
        answered("session_create", ResponsePayload::SessionCreate(created)),
    );
    assert_eq!(got.expect("created").handle, handle());
    let got = Client::session_list(
        "req-1",
        answered("session_list", ResponsePayload::SessionList { sessions: Vec::new() }),
    );
    assert!(got.expect("listed").is_empty());
    let page = read(ReadMode::Screen, "one", 1, 1);
    let got =
        Client::terminal_read("req-1", answered("terminal_read", ResponsePayload::TerminalRead(page)));
    assert_eq!(got.expect("read").lines, ["one"]);
    let wait = ResponsePayload::TerminalWait { handle: handle(), outcome: WaitOutcome::Idle };
    let got = Client::terminal_wait("req-1", answered("terminal_wait", wait)).expect("waited");
    assert_eq!(got, (handle(), WaitOutcome::Idle));
    let attach =
        ResponsePayload::StreamAttach { handle: handle(), stream_id: StreamId { raw: 3 } };
    let got = Client::stream_attach("req-1", answered("stream_attach", attach)).expect("attached");
    assert_eq!(got, (handle(), StreamId { raw: 3 }));
    assert!(Client::session_close("req-1", answered("session_close", ResponsePayload::SessionClose)).is_ok());
    assert!(Client::terminal_send("req-1", answered("terminal_send", ResponsePayload::TerminalSend)).is_ok());
    assert!(
        Client::terminal_resize("req-1", answered("terminal_resize", ResponsePayload::TerminalResize))
            .is_ok()
    );
    assert!(Client::stream_detach("req-1", answered("stream_detach", ResponsePayload::StreamDetach)).is_ok());
}

#[test]
fn every_client_failure_says_what_to_do() {
    let absent = ClientError::Transport(TransportError::NotListening {
        said: "nothing is listening".to_owned(),
    });
    assert_eq!(absent.message(), "nothing is listening");
    let envelope = absent.envelope();
    assert!(envelope.is_retryable());
    assert_eq!(*envelope.next_command_args(), start_args());
    assert_eq!(start_args(), ["nysia", "--daemon"]);

    let lost =
        ClientError::Transport(TransportError::Failed { said: "connection reset".to_owned() });
    assert!(lost.envelope().is_retryable());
    assert!(lost.envelope().next_command_args().is_empty());
    let garbled = ClientError::Control(ControlError::LineTooLong);
    assert_eq!(garbled.envelope().next_steps()[0], "retry the command");
    let nowhere =
        ClientError::Endpoint(EndpointResolveError::RuntimeDir { reason: "no home".to_owned() });
    let envelope = nowhere.envelope();
    assert!(!envelope.is_retryable());
    assert!(envelope.next_steps()[0].contains("NYSIA_RUNTIME_DIR"));
    assert!(envelope.message().contains("no home"));
}
