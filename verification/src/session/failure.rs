//! Why a session verb failed, and what its caller is told.
//!
//! An envelope is the thing a daemon is most likely to log verbatim and a window is the thing
//! a person screenshots, so nothing an envelope says is taken from an error's own text: every
//! phrase is chosen here, by variant.
use vstd::prelude::*;
use crate::errors::{
    envelope, law_every_step_is_kept_in_order, no_more, one, steps_of, three, two,
};
use crate::paths::{final_component, program_name};
use crate::text::{blank, decimal, decimal_of, views, white_space};
use crate::wire::{
    actionable, refusal, EnvelopeView, ErrorCode, ErrorEnvelope, PaneKey, Platform, SessionHandle,
};

verus! {

/// The longest working directory Windows will start a program in, in UTF-16 units.
///
/// `MAX_PATH` less the terminating null and the trailing separator a current directory always
/// carries.
pub const MAX_WORKING_DIRECTORY: usize = 258;

/// Why a program name could not be resolved to a file this platform can launch.
#[derive(Debug, Clone)]
pub enum ResolveError {
    /// Nothing on `PATH` answers to the name.
    NotFound {
        /// The name as the caller spelled it.
        program: String,
    },
    /// The candidate is not a file.
    NotAFile {
        /// The candidate.
        path: String,
    },
    /// The candidate may not be executed.
    NotExecutable {
        /// The candidate.
        path: String,
    },
    /// The candidate's extension is not one this platform launches.
    UnknownExtension {
        /// The candidate.
        path: String,
    },
    /// The candidate is a shim whose interpreter is missing.
    MissingInterpreter {
        /// The candidate.
        path: String,
        /// What it needs.
        interpreter: String,
    },
    /// An argument would be read again by `cmd.exe`.
    UnsafeArgument {
        /// The argument.
        argument: String,
    },
}

/// Why an agent's CLI could not be launched.
#[derive(Debug)]
pub enum LaunchError {
    /// It could not be resolved.
    Unavailable {
        /// The agent's own name.
        agent: String,
        /// What resolution said.
        source: ResolveError,
    },
}

/// Why a shell profile could not be turned into a command.
#[derive(Debug)]
pub enum ProfileError {
    /// Its program could not be resolved.
    Unavailable {
        /// The profile's name.
        profile: String,
        /// What resolution said.
        source: ResolveError,
    },
    /// It does not exist on this platform.
    WrongPlatform {
        /// The profile's name.
        profile: String,
    },
    /// The WSL distribution name was refused.
    BadDistro(String),
}

/// Why a program could not be started on a pty.
#[derive(Debug)]
pub enum SpawnError {
    /// The shell profile could not be turned into a command.
    Profile(ProfileError),
    /// A pty could not be opened.
    OpenPty(String),
    /// The program would not start.
    Spawn {
        /// The program that was tried.
        program: String,
        /// What the pty layer said, the command line and the working directory in it.
        reason: String,
    },
    /// The pty's writer half could not be taken.
    Writer(String),
    /// The process tree could not be confined.
    Confinement(String),
    /// A thread could not be started.
    Thread(String),
}

/// Why a session verb failed.
#[derive(Debug)]
pub enum SessionError {
    /// No session by that handle.
    Unknown {
        /// The handle that named nothing.
        handle: SessionHandle,
    },
    /// The pane already has a live session.
    PaneTaken {
        /// The pane that is taken.
        pane: PaneKey,
        /// What is in it.
        handle: SessionHandle,
    },
    /// The shell could not be started.
    Spawn(SpawnError),
    /// The agent's CLI could not be resolved to something launchable.
    Launch(LaunchError),
    /// The requested working directory was refused.
    PathRefused {
        /// The path that was refused.
        path: String,
        /// Why.
        reason: String,
    },
    /// The session would run through `cmd.exe`, and the folder it was asked for is a network
    /// one, which `cmd.exe` cannot start in.
    CmdOnNetworkFolder,
    /// The program would not start, and the folder's path is longer than Windows will start
    /// one in.
    FolderTooLong {
        /// The folder's length, in the spelling a spawn is handed.
        length: usize,
        /// What the spawn said, kept for the daemon's log.
        source: SpawnError,
    },
    /// The request was not well formed.
    Invalid(String),
    /// The session exists but the write did not land; the text is the operating system's.
    Closing(String),
}

/// What resolution said, as a phrase that names no file.
pub open spec fn resolve_phrase(err: ResolveError) -> Seq<char> {
    match err {
        ResolveError::NotFound { program } => final_component(program@)
            + " was not found on PATH"@,
        ResolveError::NotAFile { .. } => "what that name resolves to is a directory, not a file"@,
        ResolveError::NotExecutable { .. } =>
            "the file it resolves to has no execute permission for anyone"@,
        ResolveError::UnknownExtension { .. } =>
            "the file it resolves to is not something this platform can launch"@,
        ResolveError::MissingInterpreter { interpreter, .. } => "it is a shim needing "@
            + final_component(interpreter@) + ", which is not installed"@,
        ResolveError::UnsafeArgument { .. } =>
            "an argument to it carries a character `cmd.exe` would act on"@,
    }
}

/// What resolution said, as a phrase that names no file.
pub fn resolve_kind(err: &ResolveError) -> (out: String)
    ensures
        out@ == resolve_phrase(*err),
{
    match err {
        ResolveError::NotFound { program } => {
            program_name(program.as_str()).concat(" was not found on PATH")
        },
        ResolveError::NotAFile { .. } => {
            "what that name resolves to is a directory, not a file".to_owned()
        },
        ResolveError::NotExecutable { .. } => {
            "the file it resolves to has no execute permission for anyone".to_owned()
        },
        ResolveError::UnknownExtension { .. } => {
            "the file it resolves to is not something this platform can launch".to_owned()
        },
        ResolveError::MissingInterpreter { interpreter, .. } => {
            "it is a shim needing ".to_owned().concat(
                program_name(interpreter.as_str()).as_str(),
            ).concat(", which is not installed")
        },
        ResolveError::UnsafeArgument { .. } => {
            "an argument to it carries a character `cmd.exe` would act on".to_owned()
        },
    }
}

/// Why a shell profile could not be turned into a command, as a phrase that names no file.
pub open spec fn profile_phrase(err: ProfileError) -> Seq<char> {
    match err {
        ProfileError::Unavailable { profile, source } => "the "@ + profile@
            + " profile is unavailable: "@ + resolve_phrase(source),
        ProfileError::WrongPlatform { profile } => "the "@ + profile@
            + " profile does not exist on this platform"@,
        ProfileError::BadDistro(_) =>
            "the WSL distribution name carries a character that would be read as another argument"@,
    }
}

/// Why a shell profile could not be turned into a command, as a phrase that names no file.
pub fn profile_kind(err: &ProfileError) -> (out: String)
    ensures
        out@ == profile_phrase(*err),
{
    match err {
        ProfileError::Unavailable { profile, source } => {
            "the ".to_owned().concat(profile.as_str()).concat(" profile is unavailable: ").concat(
                resolve_kind(source).as_str(),
            )
        },
        ProfileError::WrongPlatform { profile } => {
            "the ".to_owned().concat(profile.as_str()).concat(
                " profile does not exist on this platform",
            )
        },
        ProfileError::BadDistro(_) => {
            "the WSL distribution name carries a character that would be read as another argument".to_owned()
        },
    }
}

/// Why a spawn failed, as a phrase that names no file.
pub open spec fn spawn_phrase(err: SpawnError) -> Seq<char> {
    match err {
        SpawnError::Profile(err) => profile_phrase(err),
        SpawnError::OpenPty(_) => "a pty could not be opened"@,
        SpawnError::Spawn { .. } => "the program could not be started"@,
        SpawnError::Writer(_) => "the pty's writer half could not be taken"@,
        SpawnError::Confinement(_) =>
            "the process tree could not be confined, so closing the session could not promise to take it with it"@,
        SpawnError::Thread(_) => "one of the session's two threads could not be started"@,
    }
}

/// Why a spawn failed, as a phrase that names no file.
pub fn spawn_kind(err: &SpawnError) -> (out: String)
    ensures
        out@ == spawn_phrase(*err),
{
    match err {
        SpawnError::Profile(err) => profile_kind(err),
        SpawnError::OpenPty(_) => "a pty could not be opened".to_owned(),
        SpawnError::Spawn { .. } => "the program could not be started".to_owned(),
        SpawnError::Writer(_) => "the pty's writer half could not be taken".to_owned(),
        SpawnError::Confinement(_) => {
            "the process tree could not be confined, so closing the session could not promise to take it with it".to_owned()
        },
        SpawnError::Thread(_) => "one of the session's two threads could not be started".to_owned(),
    }
}

/// What the daemon's own log says about a failed spawn: `rendered`, the error's own sentence,
/// unless the error repeats a distribution name that was refused.
pub fn spawn_log_line(err: &SpawnError, rendered: &str) -> (out: String)
    ensures
        out@ == (if err matches SpawnError::Profile(ProfileError::BadDistro(_)) {
            "could not start the session: the WSL distribution name was refused"@
        } else {
            rendered@
        }),
{
    match err {
        SpawnError::Profile(ProfileError::BadDistro(_)) => {
            "could not start the session: the WSL distribution name was refused".to_owned()
        },
        SpawnError::Profile(ProfileError::Unavailable { .. }) => rendered.to_owned(),
        SpawnError::Profile(ProfileError::WrongPlatform { .. }) => rendered.to_owned(),
        SpawnError::OpenPty(_) => rendered.to_owned(),
        SpawnError::Spawn { .. } => rendered.to_owned(),
        SpawnError::Writer(_) => rendered.to_owned(),
        SpawnError::Confinement(_) => rendered.to_owned(),
        SpawnError::Thread(_) => rendered.to_owned(),
    }
}

/// Why an agent could not be launched, as a phrase that names no file.
pub open spec fn launch_phrase(err: LaunchError) -> Seq<char> {
    match err {
        LaunchError::Unavailable { agent, source } => "the "@ + agent@
            + " CLI is unavailable: "@ + resolve_phrase(source),
    }
}

/// Why an agent could not be launched, as a phrase that names no file.
pub fn launch_kind(err: &LaunchError) -> (out: String)
    ensures
        out@ == launch_phrase(*err),
{
    match err {
        LaunchError::Unavailable { agent, source } => {
            "the ".to_owned().concat(agent.as_str()).concat(" CLI is unavailable: ").concat(
                resolve_kind(source).as_str(),
            )
        },
    }
}

/// What an envelope says happened.
pub open spec fn session_message(err: SessionError) -> Seq<char> {
    match err {
        SessionError::Unknown { handle } => "no session "@ + handle.text@,
        SessionError::PaneTaken { pane, handle } => "pane "@ + pane.text@
            + " already has a live session ("@ + handle.text@ + ")"@,
        SessionError::Spawn(err) => "could not start the session: "@ + spawn_phrase(err),
        SessionError::Launch(err) => "could not start the agent: "@ + launch_phrase(err),
        SessionError::PathRefused { reason, .. } => "that working directory was refused: "@
            + reason@,
        SessionError::CmdOnNetworkFolder =>
            "that working directory was refused: it is a network folder, and this session runs through Command Prompt (`cmd.exe`), which cannot start in one and would open in C:\\Windows instead"@,
        SessionError::FolderTooLong { length, .. } =>
            "could not start the session: its folder's path is "@ + decimal(length as nat)
            + " characters long, and Windows will not start a program in a folder whose path is longer than "@
            + decimal(MAX_WORKING_DIRECTORY as nat),
        SessionError::Invalid(said) => said@,
        SessionError::Closing(_) => "the session is closing and took no further input"@,
    }
}

/// Which kind of refusal each failure is.
pub open spec fn session_code(err: SessionError) -> ErrorCode {
    match err {
        SessionError::Unknown { .. } => ErrorCode::UnknownSession,
        SessionError::PaneTaken { .. } => ErrorCode::SessionBusy,
        SessionError::Spawn(_) => ErrorCode::SpawnFailed,
        SessionError::Launch(_) => ErrorCode::SpawnFailed,
        SessionError::PathRefused { .. } => ErrorCode::PathRefused,
        SessionError::CmdOnNetworkFolder => ErrorCode::PathRefused,
        SessionError::FolderTooLong { .. } => ErrorCode::SpawnFailed,
        SessionError::Invalid(_) => ErrorCode::InvalidRequest,
        SessionError::Closing(_) => ErrorCode::SessionBusy,
    }
}

/// The step that runs the daemon's own `PATH` search in a terminal.
pub open spec fn locate_step(agent: Seq<char>, platform: Platform) -> Seq<char> {
    "`"@ + (if platform == Platform::Windows {
        "where.exe"@
    } else {
        "which"@
    }) + " "@ + agent + "` in a terminal runs the same PATH search the daemon ran"@
}

/// What a caller is told to do about each failure.
pub open spec fn session_steps(err: SessionError, platform: Platform) -> Seq<Seq<char>> {
    match err {
        SessionError::Unknown { .. } => steps_of(
            "run `nysia session list` to see the handles this daemon holds"@,
            seq![
                "a handle from before a daemon restart does not survive it; create a new session"@,
            ],
        ),
        SessionError::PaneTaken { .. } => steps_of(
            "close the session in that pane first, or create this one without a pane key"@,
            seq!["`nysia session list` shows which pane holds what"@],
        ),
        SessionError::Spawn(_) => steps_of(
            "check the shell is installed and on PATH"@,
            seq![
                "on Windows an npm-installed shim is a `.cmd`, not an executable; name the real program"@,
                "`nysia session create --profile pwsh` names a profile explicitly"@,
            ],
        ),
        SessionError::Launch(LaunchError::Unavailable { agent, .. }) => steps_of(
            "install the agent's CLI and make sure a terminal can run it by name"@,
            seq![
                locate_step(agent@, platform),
                "the daemon resolves the CLI on `PATH` at the moment a session is asked for, so an install does not need a daemon restart"@,
                "a session started in a worktree searches the daemon's `PATH`, not the project's"@,
            ],
        ),
        SessionError::PathRefused { .. } => steps_of(
            "pass an absolute path to a directory that exists"@,
            seq![
                "the directory this refused is the one the request named; it is not repeated here because an envelope is logged and screenshotted"@,
                "omit --cwd to start the session where the daemon is running"@,
            ],
        ),
        SessionError::CmdOnNetworkFolder => steps_of(
            "open a network folder in PowerShell 7 or Git Bash, which can start in one"@,
            seq![
                "a drive letter mapped to a network share resolves to the share's own path, so it is refused the same way"@,
                "an agent CLI installed as an npm `.cmd` shim runs through Command Prompt too"@,
            ],
        ),
        SessionError::FolderTooLong { .. } => steps_of(
            "open the session in a folder whose path is shorter; the shell itself is not the problem"@,
            Seq::empty(),
        ),
        SessionError::Invalid(_) => steps_of(
            "check the verb's flags with `nysia <verb> --help`"@,
            Seq::empty(),
        ),
        SessionError::Closing(_) => steps_of(
            "the session is being torn down; create a new one"@,
            seq!["`nysia session list` shows what is still live"@],
        ),
    }
}

/// The command each failure suggests; empty for those that suggest none.
pub open spec fn session_command(err: SessionError) -> Seq<Seq<char>> {
    if err is Unknown || err is PaneTaken {
        seq!["nysia"@, "session"@, "list"@]
    } else {
        Seq::empty()
    }
}

/// The envelope a failed session verb answers with. None of them is worth retrying as it is.
pub open spec fn session_failure(err: SessionError, platform: Platform) -> EnvelopeView {
    EnvelopeView {
        code: session_code(err),
        message: session_message(err),
        steps: session_steps(err, platform),
        retryable: false,
        command: session_command(err),
    }
}

fn list_sessions() -> (out: Vec<String>)
    ensures
        views(out@) == seq!["nysia"@, "session"@, "list"@],
{
    let out: Vec<String> = vec!["nysia".to_owned(), "session".to_owned(), "list".to_owned()];
    assert(views(out@) =~= seq!["nysia"@, "session"@, "list"@]);
    out
}

impl SessionError {
    /// What happened, by variant and never from the wrapped error's own text.
    pub fn message(&self) -> (out: String)
        ensures
            out@ == session_message(*self),
    {
        match self {
            SessionError::Unknown { handle } => {
                "no session ".to_owned().concat(handle.text.as_str())
            },
            SessionError::PaneTaken { pane, handle } => {
                "pane ".to_owned().concat(pane.text.as_str()).concat(
                    " already has a live session (",
                ).concat(handle.text.as_str()).concat(")")
            },
            SessionError::Spawn(err) => {
                "could not start the session: ".to_owned().concat(spawn_kind(err).as_str())
            },
            SessionError::Launch(err) => {
                "could not start the agent: ".to_owned().concat(launch_kind(err).as_str())
            },
            SessionError::PathRefused { reason, .. } => {
                "that working directory was refused: ".to_owned().concat(reason.as_str())
            },
            SessionError::CmdOnNetworkFolder => {
                "that working directory was refused: it is a network folder, and this session runs through Command Prompt (`cmd.exe`), which cannot start in one and would open in C:\\Windows instead".to_owned()
            },
            SessionError::FolderTooLong { length, .. } => {
                "could not start the session: its folder's path is ".to_owned().concat(
                    decimal_of(*length as u64).as_str(),
                ).concat(
                    " characters long, and Windows will not start a program in a folder whose path is longer than ",
                ).concat(decimal_of(MAX_WORKING_DIRECTORY as u64).as_str())
            },
            SessionError::Invalid(said) => said.clone(),
            SessionError::Closing(_) => {
                "the session is closing and took no further input".to_owned()
            },
        }
    }

    /// The envelope this failure answers with.
    pub fn into_envelope(self, platform: Platform) -> (out: ErrorEnvelope)
        ensures
            out@ == session_failure(self, platform),
    {
        let message = self.message();
        match self {
            SessionError::Unknown { .. } => envelope(
                ErrorCode::UnknownSession,
                message,
                "run `nysia session list` to see the handles this daemon holds",
                &one(
                    "a handle from before a daemon restart does not survive it; create a new session",
                ),
            ).with_next_command_args(list_sessions()),
            SessionError::PaneTaken { .. } => envelope(
                ErrorCode::SessionBusy,
                message,
                "close the session in that pane first, or create this one without a pane key",
                &one("`nysia session list` shows which pane holds what"),
            ).with_next_command_args(list_sessions()),
            SessionError::Spawn(_) => envelope(
                ErrorCode::SpawnFailed,
                message,
                "check the shell is installed and on PATH",
                &two(
                    "on Windows an npm-installed shim is a `.cmd`, not an executable; name the real program",
                    "`nysia session create --profile pwsh` names a profile explicitly",
                ),
            ),
            SessionError::Launch(LaunchError::Unavailable { agent, .. }) => {
                let tool = if platform == Platform::Windows {
                    "where.exe"
                } else {
                    "which"
                };
                let locate = "`".to_owned().concat(tool).concat(" ").concat(agent.as_str()).concat(
                    "` in a terminal runs the same PATH search the daemon ran",
                );
                envelope(
                    ErrorCode::SpawnFailed,
                    message,
                    "install the agent's CLI and make sure a terminal can run it by name",
                    &three(
                        locate.as_str(),
                        "the daemon resolves the CLI on `PATH` at the moment a session is asked for, so an install does not need a daemon restart",
                        "a session started in a worktree searches the daemon's `PATH`, not the project's",
                    ),
                )
            },
            SessionError::PathRefused { .. } => envelope(
                ErrorCode::PathRefused,
                message,
                "pass an absolute path to a directory that exists",
                &two(
                    "the directory this refused is the one the request named; it is not repeated here because an envelope is logged and screenshotted",
                    "omit --cwd to start the session where the daemon is running",
                ),
            ),
            SessionError::CmdOnNetworkFolder => envelope(
                ErrorCode::PathRefused,
                message,
                "open a network folder in PowerShell 7 or Git Bash, which can start in one",
                &two(
                    "a drive letter mapped to a network share resolves to the share's own path, so it is refused the same way",
                    "an agent CLI installed as an npm `.cmd` shim runs through Command Prompt too",
                ),
            ),
            SessionError::FolderTooLong { .. } => envelope(
                ErrorCode::SpawnFailed,
                message,
                "open the session in a folder whose path is shorter; the shell itself is not the problem",
                &no_more(),
            ),
            SessionError::Invalid(_) => envelope(
                ErrorCode::InvalidRequest,
                message,
                "check the verb's flags with `nysia <verb> --help`",
                &no_more(),
            ),
            SessionError::Closing(_) => envelope(
                ErrorCode::SessionBusy,
                message,
                "the session is being torn down; create a new one",
                &one("`nysia session list` shows what is still live"),
            ).retryable(false),
        }
    }
}

/// Two resolution failures that differ only in the files they name.
pub open spec fn resolve_alike(a: ResolveError, b: ResolveError) -> bool {
    match (a, b) {
        (
            ResolveError::NotFound { program: p },
            ResolveError::NotFound { program: q },
        ) => final_component(p@) == final_component(q@),
        (ResolveError::NotAFile { .. }, ResolveError::NotAFile { .. }) => true,
        (ResolveError::NotExecutable { .. }, ResolveError::NotExecutable { .. }) => true,
        (ResolveError::UnknownExtension { .. }, ResolveError::UnknownExtension { .. }) => true,
        (
            ResolveError::MissingInterpreter { interpreter: p, .. },
            ResolveError::MissingInterpreter { interpreter: q, .. },
        ) => final_component(p@) == final_component(q@),
        (ResolveError::UnsafeArgument { .. }, ResolveError::UnsafeArgument { .. }) => true,
        _ => false,
    }
}

/// Two spawn failures that differ only in files, folders, command lines, refused names and the
/// operating system's own text.
pub open spec fn spawn_alike(a: SpawnError, b: SpawnError) -> bool {
    match (a, b) {
        (
            SpawnError::Profile(ProfileError::Unavailable { profile: p, source: s }),
            SpawnError::Profile(ProfileError::Unavailable { profile: q, source: t }),
        ) => p@ == q@ && resolve_alike(s, t),
        (
            SpawnError::Profile(ProfileError::WrongPlatform { profile: p }),
            SpawnError::Profile(ProfileError::WrongPlatform { profile: q }),
        ) => p@ == q@,
        (
            SpawnError::Profile(ProfileError::BadDistro(_)),
            SpawnError::Profile(ProfileError::BadDistro(_)),
        ) => true,
        (SpawnError::OpenPty(_), SpawnError::OpenPty(_)) => true,
        (SpawnError::Spawn { .. }, SpawnError::Spawn { .. }) => true,
        (SpawnError::Writer(_), SpawnError::Writer(_)) => true,
        (SpawnError::Confinement(_), SpawnError::Confinement(_)) => true,
        (SpawnError::Thread(_), SpawnError::Thread(_)) => true,
        _ => false,
    }
}

/// Two session failures that differ only in what names somebody's disk.
pub open spec fn alike(a: SessionError, b: SessionError) -> bool {
    match (a, b) {
        (SessionError::Spawn(s), SessionError::Spawn(t)) => spawn_alike(s, t),
        (
            SessionError::Launch(LaunchError::Unavailable { agent: p, source: s }),
            SessionError::Launch(LaunchError::Unavailable { agent: q, source: t }),
        ) => p@ == q@ && resolve_alike(s, t),
        (
            SessionError::PathRefused { reason: p, .. },
            SessionError::PathRefused { reason: q, .. },
        ) => p@ == q@,
        (
            SessionError::FolderTooLong { length: m, .. },
            SessionError::FolderTooLong { length: n, .. },
        ) => m == n,
        (SessionError::Closing(_), SessionError::Closing(_)) => true,
        _ => a == b,
    }
}

/// No envelope carries a path: two failures that differ only in the files, folders and command
/// lines they name answer with the same envelope.
pub proof fn law_no_envelope_carries_a_path(a: SessionError, b: SessionError, platform: Platform)
    requires
        alike(a, b),
    ensures
        session_failure(a, platform) == session_failure(b, platform),
{
}

/// Every session failure tells its caller something to do.
pub proof fn law_every_session_failure_is_actionable(err: SessionError, platform: Platform)
    ensures
        actionable(session_failure(err, platform).steps),
{
    let steps = session_steps(err, platform);
    assert forall|first: Seq<char>, rest: Seq<Seq<char>>|
        actionable(#[trigger] steps_of(first, rest)) by {
        crate::errors::law_steps_are_always_actionable(first, rest);
    }
}

/// A text that another ends with.
pub open spec fn ends_with(s: Seq<char>, end: Seq<char>) -> bool {
    end.len() <= s.len() && s.skip(s.len() - end.len()) == end
}

/// Each kind of failure has its own code: what was not found, what is busy, what would not
/// start, what was refused and what was not well formed are told apart, and none of them is
/// worth sending again as it is. The ones that a list of sessions would help with say so.
pub proof fn law_each_failure_has_its_code(err: SessionError, platform: Platform)
    ensures
        ({
            let said = session_failure(err, platform);
            &&& said.code == ErrorCode::UnknownSession <==> err is Unknown
            &&& said.code == ErrorCode::SessionBusy <==> err is PaneTaken || err is Closing
            &&& said.code == ErrorCode::SpawnFailed <==> err is Spawn || err is Launch || err
                is FolderTooLong
            &&& said.code == ErrorCode::PathRefused <==> err is PathRefused || err
                is CmdOnNetworkFolder
            &&& said.code == ErrorCode::InvalidRequest <==> err is Invalid
            &&& !said.retryable
            &&& said.command.len() > 0 <==> err is Unknown || err is PaneTaken
            &&& err is Unknown || err is PaneTaken ==> said.command == seq![
                "nysia"@,
                "session"@,
                "list"@,
            ]
        }),
{
}

/// A failure says what it is about: the handle that named nothing, the pane and the session in
/// it, the reason a start or a folder was refused for, the length of a folder that is too long.
pub proof fn law_a_failure_says_what_it_is_about(err: SessionError, platform: Platform)
    ensures
        session_failure(err, platform).message == session_message(err),
        err matches SessionError::Unknown { handle } ==> ends_with(
            session_message(err),
            handle.text@,
        ),
        err matches SessionError::PaneTaken { pane, handle } ==> ends_with(
            session_message(err),
            handle.text@ + ")"@,
        ) && session_message(err).subrange(5, 5 + pane.text@.len() as int) == pane.text@,
        err matches SessionError::Spawn(why) ==> ends_with(
            session_message(err),
            spawn_phrase(why),
        ),
        err matches SessionError::Launch(why) ==> ends_with(
            session_message(err),
            launch_phrase(why),
        ),
        err matches SessionError::PathRefused { reason, .. } ==> ends_with(
            session_message(err),
            reason@,
        ),
        err matches SessionError::FolderTooLong { .. } ==> ends_with(
            session_message(err),
            decimal(258),
        ),
        err matches SessionError::Invalid(said) ==> session_message(err) == said@,
{
    reveal_strlit("pane ");
    reveal_strlit(")");
    match err {
        SessionError::Unknown { handle } => {
            lemma_ends_with("no session "@, handle.text@);
        },
        SessionError::PaneTaken { pane, handle } => {
            let head = "pane "@ + pane.text@ + " already has a live session ("@;
            assert(session_message(err) =~= head + (handle.text@ + ")"@));
            lemma_ends_with(head, handle.text@ + ")"@);
            assert(session_message(err).subrange(5, 5 + pane.text@.len() as int) =~= pane.text@);
        },
        SessionError::Spawn(why) => {
            lemma_ends_with("could not start the session: "@, spawn_phrase(why));
        },
        SessionError::Launch(why) => {
            lemma_ends_with("could not start the agent: "@, launch_phrase(why));
        },
        SessionError::PathRefused { reason, .. } => {
            lemma_ends_with("that working directory was refused: "@, reason@);
        },
        SessionError::FolderTooLong { length, .. } => {
            lemma_ends_with(
                "could not start the session: its folder's path is "@ + decimal(length as nat)
                    + " characters long, and Windows will not start a program in a folder whose path is longer than "@,
                decimal(258),
            );
        },
        _ => {},
    }
}

proof fn lemma_ends_with(head: Seq<char>, end: Seq<char>)
    ensures
        ends_with(head + end, end),
{
    assert((head + end).skip(head.len() as int) =~= end);
}

/// Two sessions that are told apart are told apart in what is said of them, and a folder's own
/// length is told.
pub proof fn law_different_handles_are_named_differently(
    one: SessionHandle,
    two: SessionHandle,
    long: usize,
    source: SpawnError,
)
    ensures
        session_message(SessionError::Unknown { handle: one }) == session_message(
            SessionError::Unknown { handle: two },
        ) ==> one.text@ == two.text@,
        ({
            let said = session_message(SessionError::FolderTooLong { length: long, source });
            let head = "could not start the session: its folder's path is "@;
            said.subrange(
                head.len() as int,
                ((head.len() + decimal(long as nat).len()) as int) as int,
            ) == decimal(long as nat)
        }),
{
    let a = "no session "@ + one.text@;
    let b = "no session "@ + two.text@;
    if a == b {
        assert(a.skip("no session "@.len() as int) =~= one.text@);
        assert(b.skip("no session "@.len() as int) =~= two.text@);
    }
    let said = session_message(SessionError::FolderTooLong { length: long, source });
    let head = "could not start the session: its folder's path is "@;
    assert(said.subrange(head.len() as int, (head.len() + decimal(long as nat).len()) as int) =~= decimal(
        long as nat,
    ));
}

/// A program that was not found is named, without the folder it was looked for in, and so is an
/// interpreter that is missing; the other causes name nothing of the caller's.
pub proof fn law_a_missing_program_is_named(err: ResolveError, other: ResolveError)
    ensures
        err matches ResolveError::NotFound { program } ==> ({
            let name = final_component(program@);
            resolve_phrase(err).take(name.len() as int) == name && ends_with(
                resolve_phrase(err),
                " was not found on PATH"@,
            )
        }),
        err matches ResolveError::MissingInterpreter { interpreter, .. } ==> ends_with(
            resolve_phrase(err),
            final_component(interpreter@) + ", which is not installed"@,
        ),
        err is NotAFile && other is NotAFile ==> resolve_phrase(err) == resolve_phrase(other),
        err is NotExecutable && other is NotExecutable ==> resolve_phrase(err) == resolve_phrase(
            other,
        ),
        err is UnknownExtension && other is UnknownExtension ==> resolve_phrase(err)
            == resolve_phrase(other),
        err is UnsafeArgument && other is UnsafeArgument ==> resolve_phrase(err)
            == resolve_phrase(other),
        err is NotAFile && other is NotExecutable ==> resolve_phrase(err) != resolve_phrase(other),
        err is NotAFile && other is UnknownExtension ==> resolve_phrase(err) != resolve_phrase(
            other,
        ),
        err is NotExecutable && other is UnknownExtension ==> resolve_phrase(err)
            != resolve_phrase(other),
        err is NotAFile && other is UnsafeArgument ==> resolve_phrase(err) != resolve_phrase(other),
        err is NotExecutable && other is UnsafeArgument ==> resolve_phrase(err) != resolve_phrase(
            other,
        ),
        err is UnknownExtension && other is UnsafeArgument ==> resolve_phrase(err)
            != resolve_phrase(other),
{
    reveal_strlit("what that name resolves to is a directory, not a file");
    reveal_strlit("the file it resolves to has no execute permission for anyone");
    reveal_strlit("the file it resolves to is not something this platform can launch");
    reveal_strlit("an argument to it carries a character `cmd.exe` would act on");
    if let ResolveError::NotFound { program } = err {
        let name = final_component(program@);
        lemma_ends_with(name, " was not found on PATH"@);
        assert(resolve_phrase(err).take(name.len() as int) =~= name);
    }
    if let ResolveError::MissingInterpreter { interpreter, .. } = err {
        let end = final_component(interpreter@) + ", which is not installed"@;
        lemma_ends_with("it is a shim needing "@, end);
        assert(resolve_phrase(err) =~= "it is a shim needing "@ + end);
    }
    let dir = "what that name resolves to is a directory, not a file"@;
    let mode = "the file it resolves to has no execute permission for anyone"@;
    let kind = "the file it resolves to is not something this platform can launch"@;
    let acted_on = "an argument to it carries a character `cmd.exe` would act on"@;
    assert(dir[0] == 'w' && mode[0] == 't' && kind[0] == 't' && acted_on[0] == 'a');
    assert(mode.len() != kind.len());
}

/// What a profile or an agent's CLI is unavailable for is what resolving it said, and the
/// profile or the agent is named.
pub proof fn law_an_unavailable_program_says_why(
    profile: ProfileError,
    launch: LaunchError,
    spawn: SpawnError,
)
    ensures
        profile matches ProfileError::Unavailable { profile: name, source } ==> ends_with(
            profile_phrase(profile),
            resolve_phrase(source),
        ) && profile_phrase(profile).subrange(4, 4 + name@.len() as int) == name@,
        profile matches ProfileError::WrongPlatform { profile: name } ==> profile_phrase(
            profile,
        ).subrange(4, 4 + name@.len() as int) == name@,
        launch matches LaunchError::Unavailable { agent, source } ==> ends_with(
            launch_phrase(launch),
            resolve_phrase(source),
        ) && launch_phrase(launch).subrange(4, 4 + agent@.len() as int) == agent@,
        spawn matches SpawnError::Profile(why) ==> spawn_phrase(spawn) == profile_phrase(why),
{
    reveal_strlit("the ");
    match profile {
        ProfileError::Unavailable { profile: name, source } => {
            let head = "the "@ + name@ + " profile is unavailable: "@;
            lemma_ends_with(head, resolve_phrase(source));
            assert(profile_phrase(profile).subrange(4, 4 + name@.len() as int) =~= name@);
        },
        ProfileError::WrongPlatform { profile: name } => {
            assert(profile_phrase(profile).subrange(4, 4 + name@.len() as int) =~= name@);
        },
        ProfileError::BadDistro(_) => {},
    }
    let LaunchError::Unavailable { agent, source } = launch;
    lemma_ends_with("the "@ + agent@ + " CLI is unavailable: "@, resolve_phrase(source));
    assert(launch_phrase(launch).subrange(4, 4 + agent@.len() as int) =~= agent@);
}

/// An agent's CLI that was not found is looked for by hand with the platform's own command.
pub proof fn law_a_missing_agent_is_looked_for_by_hand(
    agent: String,
    source: ResolveError,
    platform: Platform,
)
    ensures
        ({
            let err = SessionError::Launch(LaunchError::Unavailable { agent, source });
            let steps = session_failure(err, platform).steps;
            let tool = if platform == Platform::Windows {
                "`where.exe "@
            } else {
                "`which "@
            };
            &&& steps.len() == 4
            &&& steps[1].take(tool.len() + agent@.len() as int) == tool + agent@
        }),
{
    reveal_strlit("`");
    reveal_strlit(" ");
    reveal_strlit("where.exe");
    reveal_strlit("which");
    reveal_strlit("`where.exe ");
    reveal_strlit("`which ");
    reveal_strlit("install the agent's CLI and make sure a terminal can run it by name");
    reveal_strlit(
        "the daemon resolves the CLI on `PATH` at the moment a session is asked for, so an install does not need a daemon restart",
    );
    reveal_strlit("a session started in a worktree searches the daemon's `PATH`, not the project's");
    let first = "install the agent's CLI and make sure a terminal can run it by name"@;
    let second = locate_step(agent@, platform);
    let third =
        "the daemon resolves the CLI on `PATH` at the moment a session is asked for, so an install does not need a daemon restart"@;
    let fourth = "a session started in a worktree searches the daemon's `PATH`, not the project's"@;
    let tool = if platform == Platform::Windows {
        "`where.exe "@
    } else {
        "`which "@
    };
    assert(first[0] == 'i' && third[0] == 't' && fourth[0] == 'a' && second[0] == '`');
    assert(!white_space('i') && !white_space('t') && !white_space('a') && !white_space('`'));
    assert(!blank(first) && !blank(second) && !blank(third) && !blank(fourth));
    law_every_step_is_kept_in_order(first, Seq::empty(), second);
    law_every_step_is_kept_in_order(first, Seq::empty().push(second), third);
    law_every_step_is_kept_in_order(first, Seq::empty().push(second).push(third), fourth);
    assert(seq![second, third, fourth] =~= Seq::empty().push(second).push(third).push(fourth));
    assert(second.take(tool.len() + agent@.len() as int) =~= tool + agent@);
}

/// The ways that a session cannot be started are told apart.
pub proof fn law_each_way_a_start_fails_has_its_phrase(a: SpawnError, b: SpawnError)
    ensures
        !(a is Profile) && !(b is Profile) && spawn_phrase(a) == spawn_phrase(b) ==> (a is OpenPty
            <==> b is OpenPty) && (a is Spawn <==> b is Spawn) && (a is Writer <==> b is Writer)
            && (a is Confinement <==> b is Confinement) && (a is Thread <==> b is Thread),
{
    reveal_strlit("a pty could not be opened");
    reveal_strlit("the program could not be started");
    reveal_strlit("the pty's writer half could not be taken");
    reveal_strlit(
        "the process tree could not be confined, so closing the session could not promise to take it with it",
    );
    reveal_strlit("one of the session's two threads could not be started");
    assert("a pty could not be opened"@.len() == 25);
    assert("the program could not be started"@.len() == 32);
    assert("the pty's writer half could not be taken"@.len() == 40);
    assert("one of the session's two threads could not be started"@.len() == 53);
    assert(
        "the process tree could not be confined, so closing the session could not promise to take it with it"@.len()
            > 60);
}

} // verus!
