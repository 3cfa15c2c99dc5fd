//! Where the daemon listens, and where the files that describe it live.
//!
//! The protocol version is in every name. On Unix the endpoint is a socket in the runtime
//! directory; on Windows it is a named pipe, which lives in a machine-global namespace, so a
//! moved runtime directory reaches the pipe's name too.
use vstd::prelude::*;
use crate::digest::{digest, short_digest};
use crate::paths::{
    final_component, inside, join_path, law_a_bare_name_is_its_final_component,
    law_a_joined_path_is_the_directory_and_the_name,
    law_final_component_follows_the_last_separator, law_final_component_holds_no_separator,
    program_name,
};
use crate::text::{
    begins_with, blank, chars_of, decimal, decimal_of, is_blank, law_a_number_reads_back,
    starts_with,
};
use crate::wire::Platform;

verus! {

/// The environment variable that moves the runtime directory.
pub const RUNTIME_DIR_VAR: &'static str = "NYSIA_RUNTIME_DIR";

/// The environment variable that replaces the endpoint outright.
pub const ENDPOINT_VAR: &'static str = "NYSIA_ENDPOINT";

/// The longest socket path every supported kernel takes, in bytes.
pub const UNIX_SOCKET_PATH_MAX: usize = 103;

/// What every name of one protocol version begins with.
pub open spec fn stem_of(version: u32) -> Seq<char> {
    "nysiad-v"@ + decimal(version as nat)
}

/// What every name of one protocol version begins with: `nysiad-v<protocol>`.
pub fn endpoint_stem(version: u32) -> (out: String)
    ensures
        out@ == stem_of(version),
{
    "nysiad-v".to_owned().concat(decimal_of(version as u64).as_str())
}

/// What the formatter prints for a text asked for with `{:?}`: the text in quotes, escaped.
pub uninterp spec fn quoted_text(s: Seq<char>) -> Seq<char>;

/// `format!("{:?}")` on a `str`: its quoted, escaped form, which depends on the text alone.
#[verifier::external_body]
fn quoted(value: &str) -> (out: String)
    ensures
        out@ == quoted_text(value@),
{
    format!("{value:?}")
}

/// Why an endpoint could not be resolved.
#[derive(Debug)]
pub enum EndpointResolveError {
    /// No directory could be chosen for the socket, the lease and the lock.
    RuntimeDir {
        /// What went wrong.
        reason: String,
    },
    /// The runtime directory could not be created.
    CreateRuntimeDir {
        /// The directory that could not be created.
        path: String,
        /// What the operating system said.
        source: String,
    },
    /// The composed socket path would be truncated by the kernel.
    SocketPathTooLong {
        /// The path that would not fit.
        path: String,
        /// How long it came out, in bytes.
        actual: usize,
    },
    /// The Windows pipe name could not be composed; the text is the refusal.
    PipeName(String),
    /// The endpoint variable held something this platform cannot listen on.
    EndpointOverride {
        /// What the variable held.
        value: String,
        /// What it should have held.
        expected: &'static str,
    },
}

/// What a failed resolution says.
pub open spec fn resolve_said(err: EndpointResolveError) -> Seq<char> {
    match err {
        EndpointResolveError::RuntimeDir { reason } =>
            "could not decide where the nysia runtime directory belongs: "@ + reason@
            + "; set NYSIA_RUNTIME_DIR to an absolute path you own"@,
        EndpointResolveError::CreateRuntimeDir { path, source } =>
            "could not create the nysia runtime directory "@ + path@ + ": "@ + source@,
        EndpointResolveError::SocketPathTooLong { path, actual } => "the unix socket path "@ + path@
            + " is "@ + decimal(actual as nat)
            + " bytes and the kernel allows 103; set NYSIA_RUNTIME_DIR to a shorter directory"@,
        EndpointResolveError::PipeName(said) => "could not compose the named pipe: "@ + said@,
        EndpointResolveError::EndpointOverride { value, expected } => "NYSIA_ENDPOINT is set to "@
            + quoted_text(value@) + ", which is not "@ + expected@,
    }
}

impl EndpointResolveError {
    /// What happened.
    pub fn message(&self) -> (out: String)
        ensures
            out@ == resolve_said(*self),
    {
        match self {
            EndpointResolveError::RuntimeDir { reason } => {
                "could not decide where the nysia runtime directory belongs: ".to_owned().concat(
                    reason.as_str(),
                ).concat("; set NYSIA_RUNTIME_DIR to an absolute path you own")
            },
            EndpointResolveError::CreateRuntimeDir { path, source } => {
                "could not create the nysia runtime directory ".to_owned().concat(
                    path.as_str(),
                ).concat(": ").concat(source.as_str())
            },
            EndpointResolveError::SocketPathTooLong { path, actual } => {
                "the unix socket path ".to_owned().concat(path.as_str()).concat(" is ").concat(
                    decimal_of(*actual as u64).as_str(),
                ).concat(
                    " bytes and the kernel allows 103; set NYSIA_RUNTIME_DIR to a shorter directory",
                )
            },
            EndpointResolveError::PipeName(said) => {
                "could not compose the named pipe: ".to_owned().concat(said.as_str())
            },
            EndpointResolveError::EndpointOverride { value, expected } => {
                "NYSIA_ENDPOINT is set to ".to_owned().concat(
                    quoted(value.as_str()).as_str(),
                ).concat(", which is not ").concat(expected)
            },
        }
    }
}

/// Where the daemon listens.
#[derive(Debug)]
pub enum Listening {
    /// A Unix domain socket at this path.
    UnixSocket(String),
    /// A Win32 named pipe with this full name, `\\.\pipe\` included.
    NamedPipe(String),
}

impl Listening {
    /// The path or the name, as it is spelled.
    pub open spec fn spelled(&self) -> Seq<char> {
        match self {
            Listening::UnixSocket(path) => path@,
            Listening::NamedPipe(name) => name@,
        }
    }

    /// The path or the name, as it is spelled.
    pub fn spelling(&self) -> (out: &str)
        ensures
            out@ == self.spelled(),
    {
        match self {
            Listening::UnixSocket(path) => path.as_str(),
            Listening::NamedPipe(name) => name.as_str(),
        }
    }
}

/// The values of the environment variables the resolution rules read, as the process has them.
#[derive(Debug)]
pub struct EnvVars {
    /// `NYSIA_RUNTIME_DIR`.
    pub runtime_dir: Option<String>,
    /// `NYSIA_ENDPOINT`.
    pub endpoint: Option<String>,
    /// `HOME`.
    pub home: Option<String>,
    /// `USERPROFILE`.
    pub user_profile: Option<String>,
    /// `LOCALAPPDATA`.
    pub local_app_data: Option<String>,
    /// `XDG_RUNTIME_DIR`.
    pub xdg_runtime_dir: Option<String>,
    /// `USERNAME`.
    pub username: Option<String>,
    /// `USER`.
    pub user: Option<String>,
}

/// The environment the resolution rules read.
#[derive(Debug)]
pub struct EnvSource {
    /// `NYSIA_RUNTIME_DIR`, when set.
    pub runtime_dir_override: Option<String>,
    /// `NYSIA_ENDPOINT`, when set.
    pub endpoint_override: Option<String>,
    /// The home directory the default layout hangs off.
    pub home: Option<String>,
    /// `XDG_RUNTIME_DIR`, when set. Ignored on Windows.
    pub xdg_runtime_dir: Option<String>,
    /// The account name the Windows pipe is named for.
    pub account: String,
    /// Whether the runtime directory was overridden, which is what makes the Windows pipe name
    /// isolated too.
    pub isolated: bool,
}

/// The text of an optional string.
pub open spec fn text_of(value: Option<String>) -> Option<Seq<char>> {
    match value {
        Some(text) => Some(text@),
        None => None,
    }
}

/// A variable's value, a blank one counting as unset.
pub open spec fn set_value(value: Option<String>) -> Option<Seq<char>> {
    match value {
        Some(text) if !blank(text@) => Some(text@),
        _ => None,
    }
}

/// The first of two that is there.
pub open spec fn either(a: Option<Seq<char>>, b: Option<Seq<char>>) -> Option<Seq<char>> {
    if a is Some {
        a
    } else {
        b
    }
}

/// An environment variable's value, treating a blank one as unset.
pub fn non_empty(value: &Option<String>) -> (out: Option<String>)
    ensures
        text_of(out) == set_value(*value),
{
    match value {
        Some(text) => if is_blank(text.as_str()) {
            None
        } else {
            Some(text.clone())
        },
        None => None,
    }
}

fn first_of(a: Option<String>, b: Option<String>) -> (out: Option<String>)
    ensures
        text_of(out) == either(text_of(a), text_of(b)),
{
    match a {
        Some(text) => Some(text),
        None => b,
    }
}

/// A character a pipe name takes as it is.
pub open spec fn account_char(c: char) -> bool {
    ||| 'a' as u32 <= c as u32 <= 'z' as u32
    ||| 'A' as u32 <= c as u32 <= 'Z' as u32
    ||| '0' as u32 <= c as u32 <= '9' as u32
    ||| c == '-'
    ||| c == '_'
    ||| c == '.'
}

/// An account name with every other character replaced by an underscore.
pub open spec fn cleaned(account: Seq<char>) -> Seq<char> {
    Seq::new(
        account.len(),
        |i: int|
            if account_char(account[i]) {
                account[i]
            } else {
                '_'
            },
    )
}

/// The account half of a login name, made safe for a pipe name.
pub open spec fn account_of(raw: Seq<char>) -> Seq<char> {
    if final_component(raw).len() == 0 {
        "nysia"@
    } else {
        cleaned(final_component(raw))
    }
}

/// Reduce an account name to something a pipe name can carry: the half after the domain, with
/// every character but letters, digits, `-`, `_` and `.` replaced.
pub fn sanitize_account(raw: &str) -> (out: String)
    ensures
        out@ == account_of(raw@),
{
    let account = program_name(raw);
    let cs = chars_of(account.as_str());
    if cs.len() == 0 {
        return "nysia".to_owned();
    }
    let mut out = String::new();
    let mut i: usize = 0;
    while i < cs.len()
        invariant
            i <= cs.len(),
            cs@ == account@,
            out@ == cleaned(account@).take(i as int),
        decreases cs.len() - i,
    {
        let c = cs[i];
        let n: u32 = c as u32;
        let kept = (97 <= n && n <= 122) || (65 <= n && n <= 90) || (48 <= n && n <= 57) || c == '-'
            || c == '_' || c == '.';
        if kept {
            out.push(c);
        } else {
            out.push('_');
        }
        i = i + 1;
        assert(out@ =~= cleaned(account@).take(i as int));
    }
    assert(cleaned(account@).take(i as int) =~= cleaned(account@));
    out
}

/// Whatever the login name, what comes out can stand in a pipe name: it is not empty and holds
/// letters, digits, `-`, `_` and `.` alone.
pub proof fn law_a_sanitized_account_is_composable(raw: Seq<char>)
    ensures
        account_of(raw).len() > 0,
        forall|i: int| 0 <= i < account_of(raw).len() ==> account_char(#[trigger] account_of(raw)[i]),
{
    reveal_strlit("nysia");
}

/// Where the lease, the lock and the socket belong, if the environment says.
pub open spec fn chosen_dir(env: EnvSource, platform: Platform) -> Option<Seq<char>> {
    if env.runtime_dir_override is Some {
        Some(env.runtime_dir_override->0@)
    } else if platform == Platform::Unix && env.xdg_runtime_dir is Some {
        Some(inside(platform, env.xdg_runtime_dir->0@, "nysia"@))
    } else if env.home is Some {
        Some(inside(platform, inside(platform, env.home->0@, ".nysia"@), "run"@))
    } else {
        None
    }
}

impl EnvSource {
    /// What the process environment holds, given the variables' values.
    pub fn process(vars: &EnvVars) -> (out: EnvSource)
        ensures
            text_of(out.runtime_dir_override) == set_value(vars.runtime_dir),
            out.isolated == (set_value(vars.runtime_dir) is Some),
            text_of(out.endpoint_override) == set_value(vars.endpoint),
            text_of(out.home) == either(
                either(set_value(vars.home), set_value(vars.user_profile)),
                set_value(vars.local_app_data),
            ),
            text_of(out.xdg_runtime_dir) == set_value(vars.xdg_runtime_dir),
            out.account@ == account_of(
                match either(set_value(vars.username), set_value(vars.user)) {
                    Some(name) => name,
                    None => Seq::empty(),
                },
            ),
    {
        let runtime_dir_override = non_empty(&vars.runtime_dir);
        let name = match first_of(non_empty(&vars.username), non_empty(&vars.user)) {
            Some(name) => name,
            None => String::new(),
        };
        EnvSource {
            isolated: runtime_dir_override.is_some(),
            runtime_dir_override,
            endpoint_override: non_empty(&vars.endpoint),
            home: first_of(
                first_of(non_empty(&vars.home), non_empty(&vars.user_profile)),
                non_empty(&vars.local_app_data),
            ),
            xdg_runtime_dir: non_empty(&vars.xdg_runtime_dir),
            account: sanitize_account(name.as_str()),
        }
    }

    /// Where the lease, the lock and the socket belong.
    pub fn runtime_dir(&self, platform: Platform) -> (out: Result<String, EndpointResolveError>)
        ensures
            out is Ok <==> chosen_dir(*self, platform) is Some,
            out is Ok ==> Some(out->Ok_0@) == chosen_dir(*self, platform),
            out matches Err(err) ==> (err matches EndpointResolveError::RuntimeDir { reason }
                && reason@ == "neither HOME nor USERPROFILE nor LOCALAPPDATA is set"@),
    {
        if let Some(explicit) = &self.runtime_dir_override {
            return Ok(explicit.clone());
        }
        if platform == Platform::Unix {
            if let Some(xdg) = &self.xdg_runtime_dir {
                return Ok(join_path(platform, xdg.as_str(), "nysia"));
            }
        }
        match &self.home {
            Some(home) => {
                let dotted = join_path(platform, home.as_str(), ".nysia");
                Ok(join_path(platform, dotted.as_str(), "run"))
            },
            None => Err(
                EndpointResolveError::RuntimeDir {
                    reason: "neither HOME nor USERPROFILE nor LOCALAPPDATA is set".to_owned(),
                },
            ),
        }
    }

    /// The account half of this environment's pipe name, for a runtime directory: with a
    /// digest of the directory behind it when the directory was overridden.
    pub fn pipe_account(&self, runtime_dir: &str) -> (out: String)
        ensures
            out@ == (if self.isolated {
                self.account@ + "-"@ + digest(vstd::utf8::encode_utf8(runtime_dir@))
            } else {
                self.account@
            }),
    {
        if self.isolated {
            self.account.clone().concat("-").concat(short_digest(runtime_dir.as_bytes()).as_str())
        } else {
            self.account.clone()
        }
    }
}

/// The endpoint a daemon binds and a client dials, plus the files beside it.
#[derive(Debug)]
pub struct Endpoint {
    listening: Listening,
    runtime_dir: String,
    stem: String,
    platform: Platform,
}

/// What is known of an endpoint.
pub struct EndpointView {
    /// Whether it is a pipe rather than a socket.
    pub pipe: bool,
    /// The path or the name.
    pub spelled: Seq<char>,
    /// The directory beside it.
    pub runtime_dir: Seq<char>,
    /// What its file names begin with.
    pub stem: Seq<char>,
    /// The platform whose spelling its paths have.
    pub platform: Platform,
}

impl View for Endpoint {
    type V = EndpointView;

    closed spec fn view(&self) -> EndpointView {
        EndpointView {
            pipe: self.listening is NamedPipe,
            spelled: self.listening.spelled(),
            runtime_dir: self.runtime_dir@,
            stem: self.stem@,
            platform: self.platform,
        }
    }
}

/// What an endpoint variable must hold on a platform.
pub open spec fn override_fits(platform: Platform, raw: Seq<char>) -> bool {
    match platform {
        Platform::Windows => begins_with(raw, "\\\\.\\pipe\\"@),
        Platform::Unix => raw.len() > 0 && raw[0] == '/',
    }
}

/// Read the endpoint variable as this platform's endpoint.
pub fn explicit_endpoint(platform: Platform, raw: &str) -> (out: Result<
    Listening,
    EndpointResolveError,
>)
    ensures
        out is Ok <==> override_fits(platform, raw@),
        out matches Ok(listening) ==> listening.spelled() == raw@ && (listening is NamedPipe
            <==> platform == Platform::Windows),
        out matches Err(err) ==> (err matches EndpointResolveError::EndpointOverride {
            value,
            expected,
        } && value@ == raw@ && expected@ == (match platform {
            Platform::Windows => "a named pipe beginning with \\\\.\\pipe\\"@,
            Platform::Unix => "an absolute unix socket path"@,
        })),
{
    match platform {
        Platform::Windows => {
            if starts_with(raw, "\\\\.\\pipe\\") {
                Ok(Listening::NamedPipe(raw.to_owned()))
            } else {
                Err(
                    EndpointResolveError::EndpointOverride {
                        value: raw.to_owned(),
                        expected: "a named pipe beginning with \\\\.\\pipe\\",
                    },
                )
            }
        },
        Platform::Unix => {
            let cs = chars_of(raw);
            if cs.len() > 0 && cs[0] == '/' {
                Ok(Listening::UnixSocket(raw.to_owned()))
            } else {
                Err(
                    EndpointResolveError::EndpointOverride {
                        value: raw.to_owned(),
                        expected: "an absolute unix socket path",
                    },
                )
            }
        },
    }
}

/// The path or name an environment resolves to, before the length of a socket path is looked
/// at; `pipe` is the name composed for [`EnvSource::pipe_account`].
pub open spec fn composed(
    version: u32,
    env: EnvSource,
    platform: Platform,
    pipe: Option<Seq<char>>,
) -> Option<Seq<char>> {
    if env.endpoint_override is Some {
        if override_fits(platform, env.endpoint_override->0@) {
            Some(env.endpoint_override->0@)
        } else {
            None
        }
    } else if platform == Platform::Windows {
        pipe
    } else {
        Some(inside(platform, chosen_dir(env, platform)->0, stem_of(version) + ".sock"@))
    }
}

/// A socket path the kernel would truncate.
pub open spec fn overlong(platform: Platform, path: Seq<char>) -> bool {
    platform == Platform::Unix && vstd::utf8::encode_utf8(path).len() as usize
        > UNIX_SOCKET_PATH_MAX
}

impl Endpoint {
    /// Resolve the endpoint for a protocol version against an environment.
    ///
    /// `created` is what creating [`EnvSource::runtime_dir`] answered, and `pipe` what
    /// composing a pipe name for [`EnvSource::pipe_account`] did; the latter is read on
    /// Windows alone, and only where no endpoint was named outright.
    pub fn resolve(
        version: u32,
        env: &EnvSource,
        platform: Platform,
        created: Result<(), String>,
        pipe: Result<String, String>,
    ) -> (out: Result<Endpoint, EndpointResolveError>)
        ensures
            ({
                let dir = chosen_dir(*env, platform);
                let named = composed(
                    version,
                    *env,
                    platform,
                    match pipe {
                        Ok(name) => Some(name@),
                        Err(_) => None,
                    },
                );
                match out {
                    Ok(endpoint) => {
                        &&& dir is Some
                        &&& created is Ok
                        &&& named is Some
                        &&& !overlong(platform, named->0)
                        &&& endpoint@.pipe == (platform == Platform::Windows)
                        &&& endpoint@.spelled == named->0
                        &&& endpoint@.runtime_dir == dir->0
                        &&& endpoint@.stem == stem_of(version)
                        &&& endpoint@.platform == platform
                    },
                    Err(EndpointResolveError::RuntimeDir { reason }) => dir is None && reason@
                        == "neither HOME nor USERPROFILE nor LOCALAPPDATA is set"@,
                    Err(EndpointResolveError::CreateRuntimeDir { path, source }) => {
                        &&& dir == Some(path@)
                        &&& created is Err
                        &&& created->Err_0@ == source@
                    },
                    Err(EndpointResolveError::EndpointOverride { value, expected }) => {
                        &&& dir is Some
                        &&& created is Ok
                        &&& env.endpoint_override is Some
                        &&& named is None
                        &&& value@ == env.endpoint_override->0@
                        &&& expected@ == (match platform {
                            Platform::Windows => "a named pipe beginning with \\\\.\\pipe\\"@,
                            Platform::Unix => "an absolute unix socket path"@,
                        })
                    },
                    Err(EndpointResolveError::PipeName(said)) => {
                        &&& dir is Some
                        &&& created is Ok
                        &&& env.endpoint_override is None
                        &&& named is None
                        &&& pipe is Err
                        &&& pipe->Err_0@ == said@
                    },
                    Err(EndpointResolveError::SocketPathTooLong { path, actual }) => {
                        &&& dir is Some
                        &&& created is Ok
                        &&& named == Some(path@)
                        &&& overlong(platform, path@)
                        &&& actual == vstd::utf8::encode_utf8(path@).len() as usize
                    },
                }
            }),
    {
        let stem = endpoint_stem(version);
        let runtime_dir = match env.runtime_dir(platform) {
            Ok(dir) => dir,
            Err(err) => {
                return Err(err);
            },
        };
        if let Err(source) = created {
            return Err(EndpointResolveError::CreateRuntimeDir { path: runtime_dir, source });
        }
        let listening = match &env.endpoint_override {
            Some(raw) => match explicit_endpoint(platform, raw.as_str()) {
                Ok(listening) => listening,
                Err(err) => {
                    return Err(err);
                },
            },
            None => match platform {
                Platform::Windows => match pipe {
                    Ok(name) => Listening::NamedPipe(name),
                    Err(said) => {
                        return Err(EndpointResolveError::PipeName(said));
                    },
                },
                Platform::Unix => {
                    let file = stem.clone().concat(".sock");
                    Listening::UnixSocket(join_path(platform, runtime_dir.as_str(), file.as_str()))
                },
            },
        };
        if let Listening::UnixSocket(path) = &listening {
            let actual: usize = path.as_str().len();
            if actual > UNIX_SOCKET_PATH_MAX {
                return Err(EndpointResolveError::SocketPathTooLong { path: path.clone(), actual });
            }
        }
        Ok(Endpoint { listening, runtime_dir, stem, platform })
    }

    /// Where the daemon listens.
    pub fn listening(&self) -> (out: &Listening)
        ensures
            out.spelled() == self@.spelled,
            out is NamedPipe <==> self@.pipe,
    {
        &self.listening
    }

    /// The directory holding the lease, the lock and, on Unix, the socket.
    pub fn runtime_dir(&self) -> (out: &str)
        ensures
            out@ == self@.runtime_dir,
    {
        self.runtime_dir.as_str()
    }

    /// A file of this endpoint's, by what follows its stem.
    pub open spec fn beside(&self, suffix: Seq<char>) -> Seq<char> {
        inside(self@.platform, self@.runtime_dir, self@.stem + suffix)
    }

    fn file(&self, suffix: &str) -> (out: String)
        ensures
            out@ == self.beside(suffix@),
    {
        let name = self.stem.clone().concat(suffix);
        join_path(self.platform, self.runtime_dir.as_str(), name.as_str())
    }

    /// The adoption lease's path: `<runtime dir>/nysiad-v<protocol>.pid.json`.
    pub fn pid_record_path(&self) -> (out: String)
        ensures
            out@ == self.beside(".pid.json"@),
    {
        self.file(".pid.json")
    }

    /// The spawn lock's path: `<runtime dir>/nysiad-v<protocol>.lock`.
    pub fn lock_path(&self) -> (out: String)
        ensures
            out@ == self.beside(".lock"@),
    {
        self.file(".lock")
    }

    /// Where a spawned daemon's diagnostics go.
    pub fn log_path(&self) -> (out: String)
        ensures
            out@ == self.beside(".log"@),
    {
        self.file(".log")
    }

    /// Where the window's diagnostics go, beside the daemon's and never in the same file.
    pub fn window_log_path(&self) -> (out: String)
        ensures
            out@ == self.beside(".window.log"@),
    {
        self.file(".window.log")
    }
}

/// The four files beside an endpoint are four different files.
pub proof fn law_the_files_beside_an_endpoint_are_distinct(endpoint: Endpoint)
    ensures
        endpoint.beside(".pid.json"@) != endpoint.beside(".lock"@),
        endpoint.beside(".pid.json"@) != endpoint.beside(".log"@),
        endpoint.beside(".pid.json"@) != endpoint.beside(".window.log"@),
        endpoint.beside(".lock"@) != endpoint.beside(".log"@),
        endpoint.beside(".lock"@) != endpoint.beside(".window.log"@),
        endpoint.beside(".log"@) != endpoint.beside(".window.log"@),
{
    reveal_strlit(".pid.json");
    reveal_strlit(".lock");
    reveal_strlit(".log");
    reveal_strlit(".window.log");
    let v = endpoint@;
    assert(endpoint.beside(".pid.json"@).last() == 'n');
    assert(endpoint.beside(".lock"@).last() == 'k');
    assert(endpoint.beside(".log"@).last() == 'g');
    assert(endpoint.beside(".window.log"@).last() == 'g');
    assert(endpoint.beside(".log"@).len() + 7 == endpoint.beside(".window.log"@).len());
}

/// Daemons that were given different runtime directories, and so different digests, are named
/// apart on Windows too.
pub proof fn law_isolated_directories_get_distinct_accounts(
    account: Seq<char>,
    one: Seq<char>,
    two: Seq<char>,
)
    requires
        digest(vstd::utf8::encode_utf8(one)) != digest(vstd::utf8::encode_utf8(two)),
    ensures
        account + "-"@ + digest(vstd::utf8::encode_utf8(one)) != account + "-"@ + digest(
            vstd::utf8::encode_utf8(two),
        ),
{
    let a = digest(vstd::utf8::encode_utf8(one));
    let b = digest(vstd::utf8::encode_utf8(two));
    let front = account + "-"@;
    if front + a == front + b {
        assert((front + a).skip(front.len() as int) =~= a);
        assert((front + b).skip(front.len() as int) =~= b);
    }
}

/// Two versions never share a name, nor, on the same directory, a socket.
pub proof fn law_each_version_has_its_own_endpoint(
    one: u32,
    two: u32,
    env: EnvSource,
    pipe: Option<Seq<char>>,
)
    requires
        one != two,
    ensures
        stem_of(one) != stem_of(two),
        env.endpoint_override is None ==> composed(one, env, Platform::Unix, pipe) != composed(
            two,
            env,
            Platform::Unix,
            pipe,
        ),
{
    law_a_number_reads_back(one as nat);
    law_a_number_reads_back(two as nat);
    let a = stem_of(one);
    let b = stem_of(two);
    let lead = "nysiad-v"@;
    if a == b {
        assert(a.skip(lead.len() as int) =~= decimal(one as nat));
        assert(b.skip(lead.len() as int) =~= decimal(two as nat));
    }
    if env.endpoint_override is None {
        let dir = chosen_dir(env, Platform::Unix)->0;
        let x = inside(Platform::Unix, dir, a + ".sock"@);
        let y = inside(Platform::Unix, dir, b + ".sock"@);
        law_a_joined_path_is_the_directory_and_the_name(Platform::Unix, dir, a + ".sock"@);
        law_a_joined_path_is_the_directory_and_the_name(Platform::Unix, dir, b + ".sock"@);
        if x == y {
            let from = x.len() - (a + ".sock"@).len();
            assert(x.skip(from) =~= a + ".sock"@);
            assert(y.skip(from) =~= b + ".sock"@);
            assert((a + ".sock"@).take(a.len() as int) =~= a);
            assert((b + ".sock"@).take(a.len() as int) =~= b);
        }
    }
}

/// A socket is in the directory that was chosen for it and is called after its version.
pub proof fn law_a_socket_is_in_the_chosen_directory(
    version: u32,
    env: EnvSource,
    pipe: Option<Seq<char>>,
    dir: Seq<char>,
)
    requires
        env.endpoint_override is None,
        chosen_dir(env, Platform::Unix) == Some(dir),
    ensures
        composed(version, env, Platform::Unix, pipe) is Some,
        ({
            let path = composed(version, env, Platform::Unix, pipe)->0;
            let name = "nysiad-v"@ + decimal(version as nat) + ".sock"@;
            &&& path.take(dir.len() as int) == dir
            &&& path == dir + name || path == dir + seq!['/'] + name
        }),
{
    let name = "nysiad-v"@ + decimal(version as nat) + ".sock"@;
    law_a_joined_path_is_the_directory_and_the_name(Platform::Unix, dir, name);
    assert(dir.push('/') + name =~= dir + seq!['/'] + name);
}

/// An endpoint that was named is the one that is used, whatever the version, the directory and
/// the pipe, and one that this platform cannot listen on is none. On Windows it is otherwise the
/// pipe.
pub proof fn law_a_named_endpoint_is_used(
    version: u32,
    other: u32,
    env: EnvSource,
    platform: Platform,
    pipe: Option<Seq<char>>,
)
    ensures
        env.endpoint_override matches Some(raw) ==> (composed(version, env, platform, pipe)
            is Some <==> override_fits(platform, raw@)),
        env.endpoint_override matches Some(raw) ==> override_fits(platform, raw@) ==> composed(
            version,
            env,
            platform,
            pipe,
        ) == Some(raw@),
        env.endpoint_override is Some ==> composed(version, env, platform, pipe) == composed(
            other,
            env,
            platform,
            None,
        ),
        env.endpoint_override is None ==> composed(version, env, Platform::Windows, pipe) == pipe,
{
}

/// What can be listened on is an absolute path on Unix, and on Windows a name in the pipe
/// namespace.
pub proof fn law_what_can_be_listened_on(raw: Seq<char>, rest: Seq<char>)
    ensures
        override_fits(Platform::Unix, raw) <==> raw.len() > 0 && raw[0] == '/',
        override_fits(Platform::Windows, "\\\\.\\pipe\\"@ + rest),
        override_fits(Platform::Windows, raw) ==> raw.len() >= 9 && raw[0] == '\\' && raw[1]
            == '\\' && raw[2] == '.' && raw[3] == '\\' && raw[8] == '\\',
{
    reveal_strlit("\\\\.\\pipe\\");
    let lead = "\\\\.\\pipe\\"@;
    assert((lead + rest).take(lead.len() as int) =~= lead);
    if override_fits(Platform::Windows, raw) {
        let head = raw.take(9);
        assert(head == lead);
        assert(head[0] == raw[0] && head[1] == raw[1] && head[2] == raw[2] && head[3] == raw[3]
            && head[8] == raw[8]);
    }
}

/// A variable that is set to nothing but white space counts as one that is not set; any other
/// is taken as it is.
pub proof fn law_a_blank_variable_is_not_set(value: Option<String>)
    ensures
        value is None ==> set_value(value) is None,
        value matches Some(text) ==> (set_value(value) is None <==> blank(text@)),
        value matches Some(text) ==> !blank(text@) ==> set_value(value) == Some(text@),
{
}

/// Of two values the first that is there is taken.
pub proof fn law_the_first_value_is_taken(a: Option<Seq<char>>, b: Option<Seq<char>>)
    ensures
        a is Some ==> either(a, b) == a,
        a is None ==> either(a, b) == b,
{
}

/// An account's name is its last component, character for character but for those that a pipe's
/// name cannot hold, each of which is one underscore; one that comes to nothing is `nysia`.
pub proof fn law_an_account_keeps_its_name(raw: Seq<char>, domain: Seq<char>)
    ensures
        final_component(raw).len() > 0 ==> account_of(raw).len() == final_component(raw).len(),
        final_component(raw).len() == 0 ==> account_of(raw) == "nysia"@,
        forall|i: int|
            0 <= i < final_component(raw).len() && account_char(final_component(raw)[i])
                ==> #[trigger] account_of(raw)[i] == final_component(raw)[i],
        forall|i: int|
            0 <= i < final_component(raw).len() && !account_char(final_component(raw)[i])
                ==> #[trigger] account_of(raw)[i] == '_',
        account_of(domain.push('\\') + final_component(raw)) == account_of(final_component(raw)),
{
    law_final_component_holds_no_separator(raw);
    let name = final_component(raw);
    law_final_component_follows_the_last_separator(domain, '\\', name);
    law_a_bare_name_is_its_final_component(name);
}

/// The characters that a pipe's name can hold are the letters and digits of ASCII, the hyphen,
/// the underscore and the full stop.
pub proof fn law_what_an_account_may_hold(c: char)
    ensures
        c as u32 > 0x7f ==> !account_char(c),
        c == '\\' || c == '/' || c == ':' || c == ' ' || c == '@' ==> !account_char(c),
        c == '-' || c == '_' || c == '.' ==> account_char(c),
        'a' as u32 <= c as u32 <= 'z' as u32 ==> account_char(c),
        'A' as u32 <= c as u32 <= 'Z' as u32 ==> account_char(c),
        '0' as u32 <= c as u32 <= '9' as u32 ==> account_char(c),
{
}

/// The directory that was named is used on every platform; then, on Unix alone, the one that the
/// session manager made; then one in the home directory; and without any of them there is none.
pub proof fn law_the_runtime_directory_that_is_chosen(env: EnvSource, platform: Platform)
    ensures
        env.runtime_dir_override matches Some(dir) ==> chosen_dir(env, platform) == Some(dir@),
        env.runtime_dir_override is None && platform == Platform::Unix && env.xdg_runtime_dir
            is Some ==> chosen_dir(env, platform) is Some && chosen_dir(env, platform)->0.take(
            env.xdg_runtime_dir->0@.len() as int,
        ) == env.xdg_runtime_dir->0@ && chosen_dir(env, platform)->0.skip(
            chosen_dir(env, platform)->0.len() - "nysia"@.len(),
        ) == "nysia"@,
        env.runtime_dir_override is None && (platform == Platform::Windows || env.xdg_runtime_dir
            is None) && env.home is Some ==> chosen_dir(env, platform) is Some && chosen_dir(
            env,
            platform,
        )->0.take(env.home->0@.len() as int) == env.home->0@ && chosen_dir(
            env,
            platform,
        )->0.skip(chosen_dir(env, platform)->0.len() - "run"@.len()) == "run"@,
        env.runtime_dir_override is None && env.home is None && (platform == Platform::Windows
            || env.xdg_runtime_dir is None) ==> chosen_dir(env, platform) is None,
        platform == Platform::Windows ==> chosen_dir(env, platform) == chosen_dir(
            (EnvSource { xdg_runtime_dir: None, ..env }),
            platform,
        ),
{
    if let Some(xdg) = env.xdg_runtime_dir {
        law_a_joined_path_is_the_directory_and_the_name(Platform::Unix, xdg@, "nysia"@);
        let whole = inside(Platform::Unix, xdg@, "nysia"@);
        assert(whole.skip(whole.len() - "nysia"@.len()) =~= "nysia"@);
    }
    if let Some(home) = env.home {
        let first = inside(platform, home@, ".nysia"@);
        law_a_joined_path_is_the_directory_and_the_name(platform, home@, ".nysia"@);
        law_a_joined_path_is_the_directory_and_the_name(platform, first, "run"@);
        let whole = inside(platform, first, "run"@);
        assert(whole.take(home@.len() as int) =~= first.take(home@.len() as int));
        assert(whole.skip(whole.len() - "run"@.len()) =~= "run"@);
    }
}

/// A socket's path is too long above 103 bytes, on Unix alone.
pub proof fn law_a_socket_path_has_room_for_103_bytes(platform: Platform, path: Seq<char>)
    requires
        vstd::utf8::encode_utf8(path).len() <= usize::MAX,
    ensures
        platform == Platform::Windows ==> !overlong(platform, path),
        platform == Platform::Unix ==> (overlong(platform, path) <==> vstd::utf8::encode_utf8(
            path,
        ).len() >= 104),
{
}

/// What a failure to find an endpoint says ends with what it came from.
pub proof fn law_an_endpoint_failure_says_why(err: EndpointResolveError)
    ensures
        err matches EndpointResolveError::CreateRuntimeDir { path, source } ==> resolve_said(
            err,
        ).skip(resolve_said(err).len() - source@.len()) == source@,
        err matches EndpointResolveError::PipeName(said) ==> resolve_said(err).skip(
            resolve_said(err).len() - said@.len(),
        ) == said@,
        err matches EndpointResolveError::EndpointOverride { value, expected } ==> resolve_said(
            err,
        ).skip(resolve_said(err).len() - expected@.len()) == expected@,
        err matches EndpointResolveError::RuntimeDir { reason } ==> resolve_said(err).subrange(
            "could not decide where the nysia runtime directory belongs: "@.len() as int,
            "could not decide where the nysia runtime directory belongs: "@.len() as int
                + reason@.len() as int,
        ) == reason@,
        err matches EndpointResolveError::SocketPathTooLong { path, actual } ==> {
            let said = resolve_said(err);
            let end = decimal(actual as nat)
                + " bytes and the kernel allows 103; set NYSIA_RUNTIME_DIR to a shorter directory"@;
            let lead = "the unix socket path "@;
            &&& said.skip(said.len() - end.len()) == end
            &&& said.subrange(lead.len() as int, lead.len() as int + path@.len() as int) == path@
        },
{
    match err {
        EndpointResolveError::SocketPathTooLong { path, actual } => {
            let said = resolve_said(err);
            let end = decimal(actual as nat)
                + " bytes and the kernel allows 103; set NYSIA_RUNTIME_DIR to a shorter directory"@;
            let lead = "the unix socket path "@;
            assert(said.skip(said.len() - end.len()) =~= end);
            assert(said.subrange(lead.len() as int, lead.len() as int + path@.len() as int)
                =~= path@);
        },
        EndpointResolveError::CreateRuntimeDir { path, source } => {
            assert(resolve_said(err).skip(resolve_said(err).len() - source@.len()) =~= source@);
        },
        EndpointResolveError::PipeName(said) => {
            assert(resolve_said(err).skip(resolve_said(err).len() - said@.len()) =~= said@);
        },
        EndpointResolveError::EndpointOverride { value, expected } => {
            assert(resolve_said(err).skip(resolve_said(err).len() - expected@.len())
                =~= expected@);
        },
        EndpointResolveError::RuntimeDir { reason } => {
            let lead = "could not decide where the nysia runtime directory belongs: "@;
            assert(resolve_said(err).subrange(
                lead.len() as int,
                lead.len() as int + reason@.len() as int,
            ) =~= reason@);
        },
    }
}

/// The files beside an endpoint are in its own directory and are called after it.
pub proof fn law_the_files_beside_an_endpoint_are_called_after_it(
    endpoint: Endpoint,
    suffix: Seq<char>,
)
    ensures
        ({
            let path = endpoint.beside(suffix);
            let dir = endpoint@.runtime_dir;
            let name = endpoint@.stem + suffix;
            &&& path.take(dir.len() as int) == dir
            &&& path.skip(path.len() - name.len()) == name
            &&& path.len() <= dir.len() + 1 + name.len()
        }),
{
    let path = endpoint.beside(suffix);
    let dir = endpoint@.runtime_dir;
    let name = endpoint@.stem + suffix;
    law_a_joined_path_is_the_directory_and_the_name(endpoint@.platform, dir, name);
    assert(path.skip(path.len() - name.len()) =~= name);
}

} // verus!
