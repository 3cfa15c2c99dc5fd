use nysia_core::session::exit::{exit_status, signal_number, status_from};
use nysia_core::session::failure::{
    spawn_log_line, LaunchError, ProfileError, ResolveError, SessionError, SpawnError,
    MAX_WORKING_DIRECTORY,
};
use nysia_core::session::program::{
    core_profile, deepest_containing, is_network_folder, menu_profiles, profile_availability,
    runs_through_cmd, spawn_refusal, windows_length, CanonicalPath, PathError, SessionProgram,
    ShellProfile, WireProfile,
};
use nysia_core::session::pump::{attach, blocked, close, flush_all, Output, Pump, Turn};
use nysia_core::session::registry::{
    pane_of, synthetic_pane, AgentRefusal, SessionCreate, SessionCreated, SessionKind, SessionRegistry,
    Spawned, Surroundings, WorkingDirectory, PANE_KEY_VAR,
};
use nysia_core::session::verbs::{
    check_size, input_bytes, read, read_limit, resize, wait, ReadMode, WaitFor, WaitOutcome,
    IDLE_QUIET_MS,
};
use nysia_core::stream::registry::{AttachedStream, BoundStream, StreamRegistry};
use nysia_core::wire::{
    CreditFrame, CreditWindow, ErrorCode, FrameBody, PaneKey, Platform, SessionExit, SessionHandle,
};

fn window(initial: u32, chunk: u32) -> CreditWindow {
    CreditWindow {
        per_stream_initial: initial,
        per_stream_max: initial,
        total_initial: initial,
        total_max: initial,
        pending_cap: 1024,
        ack_batch: initial,
        chunk,
    }
}

/// A registry with one client connected and one stream attached.
fn attached(window: CreditWindow) -> (StreamRegistry, BoundStream, AttachedStream) {
    let mut registry = StreamRegistry::new(window);
    let bound = registry.bind("nysia-test");
    let stream = registry.attach("nysia-test").expect("attaches");
    (registry, bound, stream)
}

fn bodies(bound: &mut BoundStream) -> Vec<FrameBody> {
    let mut out = Vec::new();
    while let Ok(frame) = bound.outbox.try_recv() {
        out.push(frame.body);
    }
    out
}

fn pattern(len: u32) -> Vec<u8> {
    (0..len).map(|byte| (byte % 251) as u8).collect()
}

#[test]
fn a_replay_is_chunked_to_the_window_rather_than_to_the_flush_ceiling() {
    let window = window(2 * 1024, 256);
    let (mut registry, mut bound, stream) = attached(window);
    let mut watching = Vec::new();
    attach(&mut registry, &mut watching, stream, &pattern(8000), None);

    let mut frames = 0;
    for body in bodies(&mut bound) {
        if let FrameBody::Output(bytes) = body {
            frames += 1;
            assert!(bytes.len() <= window.chunk as usize, "a frame of {} bytes", bytes.len());
        }
    }
    assert!(frames > 0, "the session had scrollback to replay");
    let credit = registry.sink(stream.connection, stream.stream).expect("open").credit();
    assert!(credit >= 0, "a replay must stop at the allowance: {credit} left");
    assert_eq!(watching, [stream]);
}

#[test]
fn a_replay_the_allowance_cut_short_still_ends_with_its_boundary() {
    let (mut registry, mut bound, stream) = attached(window(512, 128));
    let mut watching = Vec::new();
    attach(&mut registry, &mut watching, stream, &pattern(4000), None);

    let bodies = bodies(&mut bound);
    assert!(matches!(bodies.first(), Some(FrameBody::Credit(CreditFrame::Grant { .. }))));
    let replayed = bodies.iter().filter(|body| matches!(body, FrameBody::Output(_))).count();
    assert_eq!(replayed, 4, "the allowance ran out after four chunks");
    let ends = bodies.iter().filter(|body| matches!(body, FrameBody::ReplayEnd)).count();
    assert_eq!(ends, 1, "a truncated replay still owes exactly one boundary");
    assert!(matches!(bodies.last(), Some(FrameBody::ReplayEnd)));
}

#[test]
fn a_sink_that_stops_half_way_resumes_rather_than_being_offered_the_buffer_again() {
    let window = window(256, 64);
    let (mut registry, mut bound, stream) = attached(window);
    let mut watching = vec![stream];
    let source = pattern(4096);
    let mut pending = source.clone();
    let mut oldest = Some(1);
    let mut turns = 0;
    while !pending.is_empty() && turns < 200 {
        flush_all(&mut registry, &mut watching, &mut pending, &mut oldest);
        registry.apply_credit(
            stream.connection,
            stream.stream,
            &CreditFrame::Ack { bytes: window.per_stream_max },
        );
        turns += 1;
    }
    assert!(pending.is_empty(), "the buffer never drained: {} bytes left", pending.len());
    assert!(oldest.is_none(), "a drained buffer has no age");

    let mut delivered = Vec::new();
    for body in bodies(&mut bound) {
        match body {
            FrameBody::Output(bytes) => delivered.extend_from_slice(&bytes),
            _ => panic!("nothing but output"),
        }
    }
    assert_eq!(delivered, source, "every byte exactly once and in order");
}

#[test]
fn a_slow_stream_holds_the_buffer_and_a_quick_one_is_not_offered_it_again() {
    let window = window(64, 32);
    let mut registry = StreamRegistry::new(window);
    let mut quick = registry.bind("quick");
    let mut slow = registry.bind("slow");
    let a = registry.attach("quick").expect("attaches");
    let b = registry.attach("slow").expect("attaches");
    let mut watching = vec![a, b];
    let source = pattern(160);
    let mut pending = source.clone();
    for _ in 0..10 {
        flush_all(&mut registry, &mut watching, &mut pending, &mut None);
        registry.apply_credit(a.connection, a.stream, &CreditFrame::Ack { bytes: 64 });
    }
    assert_eq!(pending.len(), 160 - 64, "what the slow one has not had stays");
    assert!(!blocked(&mut registry, &mut watching), "one of the two can still take output");
    for _ in 0..10 {
        registry.apply_credit(b.connection, b.stream, &CreditFrame::Ack { bytes: 64 });
        flush_all(&mut registry, &mut watching, &mut pending, &mut None);
    }
    assert!(pending.is_empty());
    for bound in [&mut quick, &mut slow] {
        let mut got = Vec::new();
        for body in bodies(bound) {
            if let FrameBody::Output(bytes) = body {
                got.extend(bytes);
            }
        }
        assert_eq!(got, source);
    }
}

#[test]
fn a_pump_coalesces_flushes_and_announces_the_exit_once() {
    let (mut registry, mut bound, stream) = attached(window(1024 * 1024, 4096));
    let mut watching = vec![stream];
    let mut pump = Pump::new(0);
    assert!(!pump.take(&mut registry, &mut watching, Output::Chunk(b"abc".to_vec()), 1, None));
    assert!(bodies(&mut bound).is_empty(), "three bytes wait to be coalesced");
    assert_eq!(pump.last_output, 1);
    assert!(!pump.take(&mut registry, &mut watching, Output::Timeout, 16, None));
    assert_eq!(pump.begin(&mut registry, &mut watching, false, 16), Turn::Receive);
    assert!(bodies(&mut bound).is_empty(), "the interval is not over");
    assert_eq!(pump.begin(&mut registry, &mut watching, false, 17), Turn::Receive);
    let sent = bodies(&mut bound);
    assert_eq!(sent.len(), 1);
    assert!(matches!(&sent[0], FrameBody::Output(bytes) if bytes == b"abc"));

    let status = SessionExit::Exited { code: 7 };
    pump.take(&mut registry, &mut watching, Output::Timeout, 40, Some(status));
    pump.take(&mut registry, &mut watching, Output::Eof, 60, Some(status));
    let exits = bodies(&mut bound)
        .iter()
        .filter(|body| matches!(body, FrameBody::Exit(SessionExit::Exited { code: 7 })))
        .count();
    assert_eq!(exits, 1);
}

#[test]
fn a_pump_with_nobody_able_to_take_output_stops_reading() {
    let (mut registry, _bound, stream) = attached(window(64, 64));
    let mut watching = vec![stream];
    let mut pump = Pump::new(0);
    assert!(matches!(pump.begin(&mut registry, &mut watching, false, 0), Turn::Receive));
    pump.take(&mut registry, &mut watching, Output::Chunk(pattern(4096)), 1, None);
    assert!(matches!(pump.begin(&mut registry, &mut watching, false, 2), Turn::Sleep));
    assert!(blocked(&mut registry, &mut watching));
    assert_eq!(pump.pending.len(), 4096 - 64);
    assert!(matches!(pump.begin(&mut registry, &mut watching, true, 22), Turn::Stop));
}

#[test]
fn a_session_that_is_torn_down_lets_go_of_its_streams() {
    let (mut registry, mut bound, stream) = attached(window(1024, 64));
    let mut watching = vec![stream];
    close(&mut registry, &mut watching, Some(SessionExit::Signaled { signal: 9 }));
    assert!(watching.is_empty());
    assert!(registry.sink(stream.connection, stream.stream).expect("still listed").is_closed());
    assert!(matches!(
        bodies(&mut bound).last(),
        Some(FrameBody::Exit(SessionExit::Signaled { signal: 9 }))
    ));
}

fn world() -> Surroundings {
    Surroundings {
        default_profile: ShellProfile::LoginShell,
        shell_label: "shell".to_owned(),
        agent: Err(AgentRefusal::Launch(missing_agent())),
        absolute: true,
        folder: Ok(folder("/home/me/repo")),
    }
}

fn folder(text: &str) -> CanonicalPath {
    let mut components = vec!["/".to_owned()];
    components.extend(text.split('/').filter(|part| !part.is_empty()).map(str::to_owned));
    CanonicalPath { text: text.to_owned(), components }
}

fn missing_agent() -> LaunchError {
    LaunchError::Unavailable {
        agent: "an-agent".to_owned(),
        source: ResolveError::NotFound { program: "an-agent".to_owned() },
    }
}

fn shell(pane: Option<PaneKey>) -> SessionCreate {
    SessionCreate {
        pane_key: pane,
        kind: SessionKind::Shell,
        profile: None,
        cwd: None,
        env_overrides: Vec::new(),
        cols: 80,
        rows: 24,
    }
}

fn pane(text: &str) -> PaneKey {
    PaneKey { text: text.to_owned() }
}

fn handle(text: &str) -> SessionHandle {
    SessionHandle { text: text.to_owned() }
}

fn spawned(name: &str, pid: u32) -> Result<Spawned, SpawnError> {
    Ok(Spawned { handle: handle(name), pid: Some(pid) })
}

fn create(registry: &mut SessionRegistry, pane: Option<PaneKey>, name: &str) -> SessionCreated {
    let plan = registry.plan_create(shell(pane), world()).expect("a plan");
    registry.create(plan, spawned(name, 4242), Ok(()), Platform::Unix, 99).expect("a session starts")
}

#[test]
fn a_read_defaults_to_the_screen_and_says_which_mode_it_ran() {
    let page = read(ReadMode::Screen, "one\ntwo", 5, 9);
    assert_eq!(page.mode, ReadMode::Screen);
    assert!(!page.truncated, "the screen is never a truncated answer");
    assert_eq!(page.lines, ["one", "two"]);

    let page = read(ReadMode::Stream, "", 5, 9);
    assert_eq!(page.mode, ReadMode::Stream);
    assert!(page.truncated, "there is more to page to");
    assert!(page.lines.is_empty());
    assert_eq!(page.cursor, 5);
    assert!(!read(ReadMode::Stream, "x", 9, 9).truncated);
}

#[test]
fn a_pane_that_already_has_a_session_is_refused_rather_than_rebound() {
    let mut registry = SessionRegistry::new();
    let mine = pane("tab_1:leaf_1");
    let first = create(&mut registry, Some(mine.clone()), "session-1");

    match registry.plan_create(shell(Some(mine.clone())), world()) {
        Err(SessionError::PaneTaken { pane, handle }) => {
            assert_eq!(pane, mine);
            assert_eq!(handle, first.handle);
        }
        other => panic!("the pane is taken, got {other:?}"),
    }

    registry.close(&first.handle).expect("closes");
    let third = create(&mut registry, Some(mine.clone()), "session-3");
    assert_eq!(third.pane_key, mine);
    assert_ne!(third.incarnation, first.incarnation);
    assert_eq!(first.incarnation.generation, 0);
    assert_eq!(third.incarnation.generation, 1);
}

#[test]
fn a_pane_whose_session_has_ended_is_free_again() {
    let mut registry = SessionRegistry::new();
    let mine = pane("tab_1:leaf_1");
    let first = create(&mut registry, Some(mine.clone()), "session-1");
    assert!(registry.note_exit(&first.handle, SessionExit::Exited { code: 0 }));
    let second = create(&mut registry, Some(mine), "session-2");
    assert_eq!(second.incarnation.generation, 1);
    assert_eq!(registry.len(), 2, "the one that ended is still listed");
}

#[test]
fn a_closed_session_is_gone_from_the_list_and_its_handle_stops_resolving() {
    let mut registry = SessionRegistry::new();
    let created = create(&mut registry, None, "session-1");
    assert_eq!(registry.len(), 1);
    assert!(registry.list().iter().any(|row| row.handle == created.handle));

    registry.close(&created.handle).expect("closes");
    assert!(registry.is_empty());
    assert!(matches!(registry.get(&created.handle), Err(SessionError::Unknown { .. })));
    assert!(matches!(registry.close(&created.handle), Err(SessionError::Unknown { .. })));
}

#[test]
fn waiting_for_exit_returns_the_status_the_child_actually_had() {
    let status = exit_status(&portable_pty::ExitStatus::with_exit_code(7));
    match wait(WaitFor::Exit, Some(status), 10, 10, Some(1_000)) {
        Some(WaitOutcome::Exited { status: SessionExit::Exited { code } }) => assert_eq!(code, 7),
        other => panic!("expected a clean exit with code 7, got {other:?}"),
    }
    let mut registry = SessionRegistry::new();
    let created = create(&mut registry, None, "session-1");
    registry.note_exit(&created.handle, status);
    let summary = registry.get(&created.handle).expect("is there").summary();
    assert_eq!(summary.exit_status, Some(status));
}

#[test]
fn a_bounded_wait_that_runs_out_says_so_rather_than_failing() {
    assert_eq!(wait(WaitFor::Exit, None, 149, 0, Some(150)), None);
    assert_eq!(wait(WaitFor::Exit, None, 150, 0, Some(150)), Some(WaitOutcome::TimedOut));
    assert_eq!(wait(WaitFor::Exit, None, u64::MAX, 0, None), None);
}

#[test]
fn a_quiet_session_is_idle() {
    assert_eq!(wait(WaitFor::Idle, None, 100 + IDLE_QUIET_MS, 100, None), Some(WaitOutcome::Idle));
    assert_eq!(wait(WaitFor::Idle, None, 99 + IDLE_QUIET_MS, 100, None), None);
    assert_eq!(wait(WaitFor::Idle, None, 0, 100, None), None, "a clock that went back is not quiet");
}

#[test]
fn a_working_directory_that_is_not_one_is_refused_with_next_steps() {
    let registry = SessionRegistry::new();
    let wrong = [
        ("relative/path", false, Err(PathError::Missing), "a working directory must be absolute"),
        ("/no/such/place/at/all", true, Err(PathError::Missing), "it does not exist"),
        ("/etc/hosts", true, Err(PathError::NotADirectory), "it is not a directory"),
        ("/root", true, Err(PathError::Unreadable("denied".to_owned())), "denied"),
    ];
    for (path, absolute, folder, why) in wrong {
        let request = SessionCreate {
            cwd: Some(WorkingDirectory::Path { path: path.to_owned() }),
            ..shell(None)
        };
        let refused = registry.plan_create(request, Surroundings { absolute, folder, ..world() });
        let Err(error) = refused else {
            panic!("{path} should have been refused");
        };
        let envelope = error.into_envelope(Platform::Unix);
        assert_eq!(envelope.code(), ErrorCode::PathRefused);
        assert!(!envelope.next_steps().is_empty());
        assert_eq!(envelope.message(), format!("that working directory was refused: {why}"));
    }
}

#[test]
fn only_a_program_run_through_cmd_is_refused_a_network_folder() {
    let through_cmd = [
        SessionProgram::Shell(ShellProfile::CommandPrompt),
        SessionProgram::Resolved {
            argv: vec![r"C:\WINDOWS\System32\CMD.EXE".to_owned(), "/d".to_owned()],
            label: "an agent".to_owned(),
        },
    ];
    let not_through_cmd = [
        SessionProgram::Shell(ShellProfile::PowerShell7),
        SessionProgram::Shell(ShellProfile::GitBash),
        SessionProgram::Resolved {
            argv: vec![r"C:\Users\me\.local\bin\an-agent.exe".to_owned()],
            label: "an agent".to_owned(),
        },
    ];
    for program in &through_cmd {
        assert!(runs_through_cmd(program), "{program:?} runs through cmd.exe");
    }
    for program in &not_through_cmd {
        assert!(!runs_through_cmd(program), "{program:?} does not");
    }

    for network in [
        r"\\server\share\repo",
        r"\\localhost\C$\Users\me\repo",
        r"\\?\UNC\server\share\repo",
        r"\\?\unc\server\share\repo",
    ] {
        assert!(is_network_folder(network), "{network} is a network folder");
    }
    for local in [
        r"C:\src\repo",
        r"\\?\C:\src\a-folder-too-long-to-lose-its-prefix",
        r"\\.\pipe\nysiad",
        "/home/me/repo",
    ] {
        assert!(!is_network_folder(local), "{local} is not a network folder");
    }
}

#[test]
fn a_command_prompt_asked_for_a_network_folder_is_refused_rather_than_opened_elsewhere() {
    let registry = SessionRegistry::new();
    let request = SessionCreate {
        profile: Some(WireProfile::Cmd),
        cwd: Some(WorkingDirectory::Path { path: r"\\localhost\C$\repo".to_owned() }),
        ..shell(None)
    };
    let share = CanonicalPath {
        text: r"\\localhost\C$\repo".to_owned(),
        components: vec![r"\\localhost\C$".to_owned(), r"\".to_owned(), "repo".to_owned()],
    };
    let err = match registry.plan_create(request, Surroundings { folder: Ok(share), ..world() }) {
        Err(err @ SessionError::CmdOnNetworkFolder) => err,
        other => panic!("it would have opened in C:\\Windows, got {other:?}"),
    };
    assert!(registry.list().is_empty(), "something was spawned anyway");
    let envelope = err.into_envelope(Platform::Windows);
    assert!(envelope.message().contains("network folder"));
    assert!(envelope.message().contains("Command Prompt"));
}

#[test]
fn a_folder_too_long_to_start_in_says_so_rather_than_blaming_the_shell() {
    let failed = || SpawnError::Spawn { program: "cmd.exe".to_owned(), reason: "refused".to_owned() };
    let at_length = |length: usize| {
        let text = format!(r"C:\{}", "a".repeat(length - 3));
        assert_eq!(windows_length(&text), length);
        folder(&text)
    };
    let longest = at_length(MAX_WORKING_DIRECTORY);
    assert!(matches!(
        spawn_refusal(failed(), Some(&longest), Platform::Windows),
        SessionError::Spawn(_)
    ));

    for length in [MAX_WORKING_DIRECTORY + 1, MAX_WORKING_DIRECTORY + 2] {
        let long = at_length(length);
        assert!(matches!(
            spawn_refusal(failed(), Some(&long), Platform::Unix),
            SessionError::Spawn(_)
        ));
        let err = match spawn_refusal(failed(), Some(&long), Platform::Windows) {
            err @ SessionError::FolderTooLong { .. } => err,
            other => panic!("a {length}-character folder was refused as {other:?}"),
        };
        let envelope = err.into_envelope(Platform::Windows);
        let said = format!("{} {:?}", envelope.message(), envelope.next_steps());
        assert!(said.contains(&format!("{length} characters")), "{said}");
        for blamed in ["installed", "PATH", "shim"] {
            assert!(!said.contains(blamed), "the refusal still blames the shell: {said}");
        }
    }
    assert_eq!(windows_length(r"\\?\C:\ab"), 5);
    assert_eq!(windows_length(r"\\?\UNC\s\x"), 5);
    assert_eq!(windows_length("\u{1f600}"), 2, "a pair of units");
    assert_eq!(windows_length("\u{e9}"), 1);
}

#[test]
fn which_shells_are_offered_is_what_resolution_finds_on_path_not_a_platform_list() {
    let absent = |profile: &str| {
        Some(ProfileError::Unavailable {
            profile: profile.to_owned(),
            source: ResolveError::NotFound { program: "pwsh".to_owned() },
        })
    };
    let broken = Some(ProfileError::Unavailable {
        profile: "pwsh".to_owned(),
        source: ResolveError::NotExecutable {
            path: "/tmp/a-clients-private-toolchain/pwsh".to_owned(),
        },
    });

    let offered = profile_availability(&vec![None, None, None, None]);
    assert_eq!(offered.len(), menu_profiles().len(), "one row per menu entry");
    assert!(matches!(
        (&offered[0].profile, &offered[1].profile, &offered[2].profile, &offered[3].profile),
        (WireProfile::Pwsh, WireProfile::Cmd, WireProfile::GitBash, WireProfile::Wsl { distro: None })
    ));
    assert_eq!(offered[0].unavailable, None);

    let missing = profile_availability(&vec![absent("pwsh"), None, None, None]);
    let reason = missing[0].unavailable.as_deref().expect("no pwsh on PATH");
    assert!(reason.contains("pwsh") && reason.contains("not found"), "{reason:?}");
    assert_eq!(missing[1].unavailable, None);

    let rejected = profile_availability(&vec![broken, None, None, None]);
    let reason = rejected[0].unavailable.as_deref().expect("not offered");
    assert!(!reason.contains("a-clients-private-toolchain"), "{reason:?} names a folder");
}

fn agent_request() -> SessionCreate {
    SessionCreate { kind: SessionKind::Agent, ..shell(None) }
}

#[test]
fn an_agent_request_is_a_program_to_resolve_rather_than_a_refusal() {
    let registry = SessionRegistry::new();
    assert!(matches!(
        registry.plan_create(agent_request(), world()),
        Err(SessionError::Launch(_))
    ));
    assert!(matches!(registry.precheck(agent_request(), world()), Err(SessionError::Launch(_))));

    let found = Surroundings {
        agent: Ok((vec!["/usr/bin/an-agent".to_owned()], "an-agent".to_owned())),
        ..world()
    };
    let plan = registry.plan_create(agent_request(), found).expect("the agent resolves");
    assert!(matches!(plan.program, SessionProgram::Resolved { .. }), "not one of the shells");
    assert_eq!(plan.title, "an-agent", "a tab is labelled with a name, never a path");
}

#[test]
fn a_missing_agent_cli_is_actionable_rather_than_a_blank_refusal() {
    let envelope = SessionError::Launch(missing_agent()).into_envelope(Platform::Unix);
    assert_eq!(envelope.code(), ErrorCode::SpawnFailed);
    assert!(envelope.message().contains("an-agent"), "{:?}", envelope.message());
    assert!(!envelope.next_steps().is_empty());
    assert!(envelope.next_steps().iter().any(|step| step.contains("`which an-agent`")));
    let windows = SessionError::Launch(missing_agent()).into_envelope(Platform::Windows);
    assert!(windows.next_steps().iter().any(|step| step.contains("`where.exe an-agent`")));
}

const SECRET: &str = r"C:\Users\nysia-test\an-agents-private-toolchain\an-agent";
const SECRET_COMPONENT: &str = "an-agents-private-toolchain";
const WHOAMI: &str = "nysia-test";

#[test]
fn no_refusal_this_module_answers_with_carries_a_path() {
    let resolve_failures = [
        ResolveError::NotFound { program: SECRET.to_owned() },
        ResolveError::NotAFile { path: SECRET.to_owned() },
        ResolveError::NotExecutable { path: SECRET.to_owned() },
        ResolveError::UnknownExtension { path: SECRET.to_owned() },
        ResolveError::MissingInterpreter { path: SECRET.to_owned(), interpreter: SECRET.to_owned() },
        ResolveError::UnsafeArgument { argument: SECRET.to_owned() },
    ];
    let mut roster = vec![
        SessionError::Unknown { handle: handle("session-1") },
        SessionError::PaneTaken { pane: synthetic_pane(), handle: handle("session-1") },
        SessionError::Spawn(SpawnError::Spawn {
            program: SECRET.to_owned(),
            reason: format!("CreateProcessW `{SECRET}` in cwd `{SECRET}` failed: …"),
        }),
        SessionError::Spawn(SpawnError::OpenPty(SECRET.to_owned())),
        SessionError::Spawn(SpawnError::Writer(SECRET.to_owned())),
        SessionError::Spawn(SpawnError::Confinement(SECRET.to_owned())),
        SessionError::Spawn(SpawnError::Thread(SECRET.to_owned())),
        SessionError::Spawn(SpawnError::Profile(ProfileError::WrongPlatform {
            profile: "pwsh".to_owned(),
        })),
        SessionError::Spawn(SpawnError::Profile(ProfileError::BadDistro(SECRET.to_owned()))),
        SessionError::PathRefused {
            path: SECRET.to_owned(),
            reason: "it is not a directory".to_owned(),
        },
        SessionError::CmdOnNetworkFolder,
        SessionError::FolderTooLong {
            length: 263,
            source: SpawnError::Spawn {
                program: SECRET.to_owned(),
                reason: format!("CreateProcessW `{SECRET}` in cwd `{SECRET}` failed: …"),
            },
        },
        SessionError::Invalid("a session is at least one cell in each direction".to_owned()),
        SessionError::Closing(SECRET.to_owned()),
    ];
    for source in resolve_failures {
        roster.push(SessionError::Launch(LaunchError::Unavailable {
            agent: "an-agent".to_owned(),
            source: source.clone(),
        }));
        roster.push(SessionError::Spawn(SpawnError::Profile(ProfileError::Unavailable {
            profile: "pwsh".to_owned(),
            source,
        })));
    }
    for error in roster {
        let envelope = error.into_envelope(Platform::Windows);
        let said = format!("{} {:?}", envelope.message(), envelope.next_steps());
        for secret in [SECRET, SECRET_COMPONENT, WHOAMI] {
            assert!(!said.contains(secret), "the refusal carried {secret:?}: {said}");
        }
        assert!(!envelope.next_steps().is_empty(), "and still says what to do: {said}");
    }
}

#[test]
fn a_log_line_about_a_spawn_does_not_repeat_a_refused_distribution_name() {
    let refused = format!("{SECRET} --and-another-argument");
    let err = SpawnError::Profile(ProfileError::BadDistro(refused.clone()));
    let line = spawn_log_line(&err, &format!("bad distribution name {refused:?}"));
    for secret in [SECRET, SECRET_COMPONENT, WHOAMI] {
        assert!(!line.contains(secret), "the log wrote it down anyway: {line}");
    }

    let reason = format!("CreateProcessW `{SECRET}` in cwd `{SECRET}` failed: …");
    let err = SpawnError::Spawn { program: SECRET.to_owned(), reason: reason.clone() };
    let kept = spawn_log_line(&err, &format!("could not start {SECRET}: {reason}"));
    assert!(kept.contains(SECRET), "a failed spawn is diagnosed from its own words: {kept}");
}

#[test]
fn a_degenerate_size_is_refused_rather_than_handed_to_conpty() {
    let registry = SessionRegistry::new();
    for (cols, rows) in [(0, 24), (80, 0), (0, 0)] {
        let request = || SessionCreate { cols, rows, ..shell(None) };
        assert!(matches!(
            registry.plan_create(request(), world()),
            Err(SessionError::Invalid(_))
        ));
        assert!(matches!(registry.precheck(request(), world()), Err(SessionError::Invalid(_))));
        assert!(matches!(check_size(cols, rows), Err(SessionError::Invalid(_))));
        assert!(matches!(resize(cols, rows, Ok(())), Err(SessionError::Invalid(_))));
    }
    assert!(resize(80, 24, Ok(())).is_ok());
    assert!(matches!(resize(80, 24, Err("gone".to_owned())), Err(SessionError::Closing(_))));
}

#[test]
fn a_session_leader_is_offered_to_the_ancestry_walk() {
    let mut registry = SessionRegistry::new();
    let created = create(&mut registry, None, "session-1");
    let leaders = registry.leaders();
    let (handle, incarnation) = leaders.get(&4242).expect("the leader is there");
    assert_eq!(*handle, created.handle);
    assert_eq!(*incarnation, created.incarnation);
    assert_eq!(leaders.len(), 1);
}

#[test]
fn the_daemon_has_the_last_word_on_a_sessions_pane_key() {
    let registry = SessionRegistry::new();
    let request = SessionCreate {
        env_overrides: vec![
            (PANE_KEY_VAR.to_owned(), "forged:pane".to_owned()),
            ("EDITOR".to_owned(), "vi".to_owned()),
        ],
        ..shell(Some(pane("tab_1:leaf_1")))
    };
    let plan = registry.plan_create(request, world()).expect("a plan");
    let last = plan.env.iter().rev().find(|(name, _)| name == PANE_KEY_VAR).expect("set");
    assert_eq!(last.1, "tab_1:leaf_1");
    assert_eq!(plan.env[1], ("EDITOR".to_owned(), "vi".to_owned()));
}

#[test]
fn a_caller_with_no_pane_gets_a_fresh_one_each_time() {
    let one = synthetic_pane();
    let two = synthetic_pane();
    assert_ne!(one, two);
    let (tab, leaf) = one.text.split_once(':').expect("two halves");
    for half in [tab, leaf] {
        assert_eq!(half.len(), 36);
        assert_eq!(half.as_bytes()[14], b'4', "a random uuid");
        assert!(half.chars().all(|c| c == '-' || c.is_ascii_digit() || ('a'..='f').contains(&c)));
    }
}

#[test]
fn a_project_folder_is_refused_rather_than_read_as_no_folder() {
    let registry = SessionRegistry::new();
    let request = SessionCreate {
        cwd: Some(WorkingDirectory::Project { id: "proj_1".to_owned() }),
        ..shell(None)
    };
    let err = registry.plan_create(request, world()).expect_err("refused");
    assert!(err.message().contains("project service"));
}

#[test]
fn a_spawn_that_failed_uses_up_nothing_and_a_pump_that_would_not_start_an_incarnation() {
    let mut registry = SessionRegistry::new();
    let mine = pane("tab_1:leaf_1");
    let plan = registry.plan_create(shell(Some(mine.clone())), world()).expect("a plan");
    let failed = Err(SpawnError::OpenPty("no ptys".to_owned()));
    assert!(registry.create(plan, failed, Ok(()), Platform::Unix, 1).is_err());
    let plan = registry.plan_create(shell(Some(mine.clone())), world()).expect("a plan");
    let stuck = registry.create(plan, spawned("session-1", 1), Err("no threads".to_owned()), Platform::Unix, 1);
    assert!(matches!(stuck, Err(SessionError::Spawn(SpawnError::Thread(_)))));
    assert!(registry.is_empty());
    let created = create(&mut registry, Some(mine), "session-2");
    assert_eq!(created.incarnation.generation, 1);
}

#[test]
fn sessions_as_old_as_each_other_are_listed_in_the_order_of_their_handles() {
    let mut registry = SessionRegistry::new();
    for name in ["session-b", "session-a", "session-c"] {
        create(&mut registry, None, name);
    }
    let listed: Vec<String> = registry.list().into_iter().map(|row| row.handle.text).collect();
    assert_eq!(listed, ["session-a", "session-b", "session-c"]);
    assert_eq!(registry.close_all().len(), 3);
    assert!(registry.is_empty());
}

#[test]
fn a_session_is_listed_under_the_deepest_worktree_it_is_in_and_no_other() {
    let mut registry = SessionRegistry::new();
    let request = SessionCreate {
        cwd: Some(WorkingDirectory::Path { path: "/repo/.nysia/worktrees/feat-x/src".to_owned() }),
        ..shell(None)
    };
    let plan = registry
        .plan_create(
            request,
            Surroundings { folder: Ok(folder("/repo/.nysia/worktrees/feat-x/src")), ..world() },
        )
        .expect("a plan");
    registry.create(plan, spawned("session-1", 1), Ok(()), Platform::Unix, 0).expect("starts");
    let folders = vec![folder("/repo"), folder("/repo/.nysia/worktrees/feat-x"), folder("/repository")];
    assert_eq!(deepest_containing(&folders, &folder("/repo/.nysia/worktrees/feat-x/src")), Some(1));
    assert!(registry.summaries_under(&folders[0], &folders).is_empty());
    assert_eq!(registry.summaries_under(&folders[1], &folders).len(), 1);
    assert!(registry.summaries_under(&folders[2], &folders).is_empty());
    assert_eq!(deepest_containing(&folders, &folder("/elsewhere")), None);
    let session = registry.get(&handle("session-1")).expect("is there");
    assert_eq!(session.cwd().expect("a folder").text, "/repo/.nysia/worktrees/feat-x/src");
    assert_eq!(session.leader_pid(), Some(1));
    assert_eq!(session.handle().text, "session-1");
    assert_eq!(session.incarnation().generation, 0);
    assert_eq!(session.pane_key().text.len(), 73);
}

#[test]
fn a_send_writes_the_interrupt_then_the_text_then_enter() {
    assert_eq!(input_bytes(true, "ls", true).as_deref(), Some(&b"\x03ls\r"[..]));
    assert_eq!(input_bytes(false, "\u{e9}", false).as_deref(), Some(&b"\xc3\xa9"[..]));
    assert_eq!(input_bytes(false, "", false), None);
}

#[test]
fn a_read_is_bounded_both_ways() {
    assert_eq!(read_limit(None), 1000);
    assert_eq!(read_limit(Some(0)), 1);
    assert_eq!(read_limit(Some(5)), 5);
    assert_eq!(read_limit(Some(u32::MAX)), 20_000);
}

#[test]
fn a_profile_nobody_named_is_the_platforms_own() {
    assert!(matches!(core_profile(None, ShellProfile::LoginShell), ShellProfile::LoginShell));
    assert!(matches!(
        core_profile(Some(WireProfile::Pwsh), ShellProfile::LoginShell),
        ShellProfile::PowerShell7
    ));
    match core_profile(Some(WireProfile::Wsl { distro: Some("u".to_owned()) }), ShellProfile::LoginShell) {
        ShellProfile::Wsl { distro } => assert_eq!(distro.as_deref(), Some("u")),
        other => panic!("wsl, got {other:?}"),
    }
}

#[test]
fn a_signal_is_put_as_its_number() {
    assert_eq!(signal_number("Terminated"), Some(15));
    assert_eq!(signal_number("Signal 64"), Some(64));
    assert_eq!(signal_number("Signal x"), None);
    assert_eq!(signal_number("Never heard of it"), None);
    let killed = portable_pty::ExitStatus::with_signal("Killed");
    assert_eq!(exit_status(&killed), SessionExit::Signaled { signal: 9 });
    let odd = portable_pty::ExitStatus::with_signal("Never heard of it");
    assert_eq!(exit_status(&odd), status_from(odd.exit_code(), odd.signal()));
}

#[test]
fn the_oldest_session_is_listed_first_whatever_its_handle() {
    let mut registry = SessionRegistry::new();
    for (name, at) in [("session-b", 30), ("session-c", 10), ("session-a", 20), ("session-d", 10)] {
        let plan = registry.plan_create(shell(None), world()).expect("a plan");
        registry.create(plan, spawned(name, 4242), Ok(()), Platform::Unix, at).expect("starts");
    }
    let rows = registry.list();
    let listed: Vec<(&str, u64)> =
        rows.iter().map(|row| (row.handle.text.as_str(), row.created_at_ms)).collect();
    assert_eq!(
        listed,
        [("session-c", 10), ("session-d", 10), ("session-a", 20), ("session-b", 30)]
    );
}

#[test]
fn an_early_refusal_is_the_one_creating_the_session_gives() {
    let mut registry = SessionRegistry::new();
    let taken = PaneKey { text: "tab_1:leaf_1".to_owned() };
    create(&mut registry, Some(taken.clone()), "session-1");
    let requests: [fn(PaneKey) -> SessionCreate; 2] = [
        |pane| SessionCreate { cols: 0, ..shell(Some(pane)) },
        |pane| shell(Some(pane)),
    ];
    for request in requests {
        let early = registry.precheck(request(taken.clone()), world()).expect_err("refused");
        let late = registry.plan_create(request(taken.clone()), world()).expect_err("refused");
        assert_eq!(format!("{early:?}"), format!("{late:?}"));
    }
}

#[test]
fn a_flush_that_drains_the_buffer_leaves_it_no_age_and_one_that_does_not_leaves_it_its_own() {
    let (mut registry, mut bound, stream) = attached(window(4, 2));
    let mut watching = vec![stream];
    let mut pump = Pump::new(0);
    assert!(!pump.take(&mut registry, &mut watching, Output::Chunk(pattern(6)), 7, None));
    assert_eq!(pump.oldest, Some(7));
    assert_eq!(pump.flush(&mut registry, &mut watching), 4);
    assert_eq!(pump.oldest, Some(7), "two bytes have waited since then");
    registry.apply_credit(stream.connection, stream.stream, &CreditFrame::Ack { bytes: 4 });
    assert_eq!(pump.flush(&mut registry, &mut watching), 2);
    assert!(pump.pending.is_empty());
    assert_eq!(pump.oldest, None, "a drained buffer has no age");
    assert_eq!(bodies(&mut bound).len(), 3);
}

#[test]
fn flushes_acks_and_output_in_any_order_send_every_stream_a_prefix() {
    let window = window(8, 3);
    let mut registry = StreamRegistry::new(window);
    let mut bound = [registry.bind("quick"), registry.bind("slow")];
    let streams =
        [registry.attach("quick").expect("attaches"), registry.attach("slow").expect("attaches")];
    let mut watching = streams.to_vec();
    let mut all = pattern(5);
    let mut pending = all.clone();
    let mut oldest = Some(0);
    let mut sent = [Vec::new(), Vec::new()];
    for turn in 0..40u32 {
        match turn % 4 {
            0 => {
                let more = pattern(turn % 7);
                all.extend_from_slice(&more);
                pending.extend_from_slice(&more);
                oldest = oldest.or(Some(u64::from(turn)));
            }
            1 => {
                let to = streams[0];
                registry.apply_credit(to.connection, to.stream, &CreditFrame::Ack { bytes: 6 });
            }
            2 if turn % 8 == 2 => {
                let to = streams[1];
                registry.apply_credit(to.connection, to.stream, &CreditFrame::Ack { bytes: 2 });
            }
            _ => {}
        }
        flush_all(&mut registry, &mut watching, &mut pending, &mut oldest);
        for (bound, sent) in bound.iter_mut().zip(sent.iter_mut()) {
            for body in bodies(bound) {
                match body {
                    FrameBody::Output(bytes) => {
                        assert!(bytes.len() <= 3);
                        sent.extend_from_slice(&bytes);
                    }
                    _ => panic!("nothing but output"),
                }
            }
            assert!(all.starts_with(sent));
        }
        let shortest = sent[0].len().min(sent[1].len());
        assert_eq!(pending, all[shortest..]);
    }
    assert!(sent[1].len() < sent[0].len(), "one of the two was slower");
}

#[test]
fn the_halves_of_a_pane_key_stand_either_side_of_a_colon() {
    assert_eq!(pane_of("tab", "leaf").text, "tab:leaf");
}
