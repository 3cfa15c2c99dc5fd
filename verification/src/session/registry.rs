//! Every session the daemon holds, and the incarnation counter behind them.
use std::collections::HashMap;
use vstd::prelude::*;
use crate::session::failure::{LaunchError, SessionError, SpawnError};
use crate::session::program::{
    called_cmd, confine_cwd, core_profile, cwd_refusal, deepest, deepest_containing,
    is_network_folder, law_a_folder_is_taken_only_if_it_is_there, law_what_runs_through_cmd,
    network_spelling, profile_for, runs_through_cmd, spawn_refusal, through_cmd, windows_measure,
    CanonicalPath, PathError, SessionProgram, ShellProfile, WireProfile,
};
use crate::text::{
    is_before, lemma_text_before_total, lemma_text_before_transitive, same, text_before,
    white_space,
};
use crate::wire::{Incarnation, PaneKey, Platform, SessionExit, SessionHandle};

verus! {

/// The pane key every session carries in its environment.
pub const PANE_KEY_VAR: &'static str = "NYSIA_PANE_KEY";

/// What a session is.
#[derive(Clone, Copy, Debug, PartialEq, Eq, Structural)]
pub enum SessionKind {
    /// A shell.
    Shell,
    /// An agent's CLI.
    Agent,
}

/// Where a session is asked to start.
#[derive(Debug)]
pub enum WorkingDirectory {
    /// In this folder.
    Path {
        /// The folder.
        path: String,
    },
    /// In the folder a project is registered under.
    Project {
        /// The project.
        id: String,
    },
}

/// A request for a session.
#[derive(Debug)]
pub struct SessionCreate {
    /// The pane it is for; a caller that owns none gets a fresh one.
    pub pane_key: Option<PaneKey>,
    /// What it is.
    pub kind: SessionKind,
    /// The shell, where it is one; none takes the platform's default.
    pub profile: Option<WireProfile>,
    /// Where it starts; none inherits the daemon's folder.
    pub cwd: Option<WorkingDirectory>,
    /// Variables to set in its environment, in order.
    pub env_overrides: Vec<(String, String)>,
    /// Columns.
    pub cols: u16,
    /// Rows.
    pub rows: u16,
}

/// What a caller is told of the session it got.
#[derive(Debug)]
pub struct SessionCreated {
    /// How to route to it.
    pub handle: SessionHandle,
    /// The pane it is in.
    pub pane_key: PaneKey,
    /// Which spawn in that pane it is.
    pub incarnation: Incarnation,
}

/// One session the daemon owns.
#[derive(Debug)]
pub struct OwnedSession {
    /// The runtime-scoped routing id.
    pub handle: SessionHandle,
    /// The durable pane identity.
    pub pane_key: PaneKey,
    /// This spawn, distinct from a later relaunch in the same pane.
    pub incarnation: Incarnation,
    /// What it is.
    pub kind: SessionKind,
    /// What to call it.
    pub title: String,
    /// When it was created, in Unix milliseconds.
    pub created_at_ms: u64,
    /// The folder it was started in, where it was given one.
    pub cwd: Option<CanonicalPath>,
    /// The session leader's pid, where the platform reports one.
    pub leader_pid: Option<u32>,
    /// How its process ended, if it has.
    pub exit: Option<SessionExit>,
}

/// The row a session contributes to a list.
#[derive(Debug)]
pub struct SessionSummary {
    /// The runtime-scoped routing id.
    pub handle: SessionHandle,
    /// The durable pane identity.
    pub pane_key: PaneKey,
    /// What it is.
    pub kind: SessionKind,
    /// What to call it.
    pub title: String,
    /// When it was created.
    pub created_at_ms: u64,
    /// How its process ended, if it has.
    pub exit_status: Option<SessionExit>,
}

/// The row a session contributes to a list.
pub open spec fn row_of(session: OwnedSession) -> SessionSummary {
    SessionSummary {
        handle: session.handle,
        pane_key: session.pane_key,
        kind: session.kind,
        title: session.title,
        created_at_ms: session.created_at_ms,
        exit_status: session.exit,
    }
}

impl OwnedSession {
    /// The row this session contributes to a list.
    pub fn summary(&self) -> (out: SessionSummary)
        ensures
            out == row_of(*self),
    {
        SessionSummary {
            handle: self.handle.clone(),
            pane_key: self.pane_key.clone(),
            kind: self.kind,
            title: self.title.clone(),
            created_at_ms: self.created_at_ms,
            exit_status: self.exit,
        }
    }

    /// The runtime-scoped routing id.
    pub fn handle(&self) -> (out: &SessionHandle)
        ensures
            *out == self.handle,
    {
        &self.handle
    }

    /// The durable pane identity.
    pub fn pane_key(&self) -> (out: &PaneKey)
        ensures
            *out == self.pane_key,
    {
        &self.pane_key
    }

    /// This spawn.
    pub fn incarnation(&self) -> (out: &Incarnation)
        ensures
            *out == self.incarnation,
    {
        &self.incarnation
    }

    /// The folder it was started in, where it was given one.
    pub fn cwd(&self) -> (out: Option<&CanonicalPath>)
        ensures
            match self.cwd {
                Some(folder) => out == Some(&folder),
                None => out is None,
            },
    {
        match &self.cwd {
            Some(folder) => Some(folder),
            None => None,
        }
    }

    /// The session leader's pid, where the platform reports one.
    pub fn leader_pid(&self) -> (out: Option<u32>)
        ensures
            out == self.leader_pid,
    {
        self.leader_pid
    }
}

/// Why an agent's CLI could not be had.
#[derive(Debug)]
pub enum AgentRefusal {
    /// It could not be resolved.
    Launch(LaunchError),
    /// What it resolved to cannot be run on a pty.
    Spawn(SpawnError),
}

/// What the machine says while a session is being prepared.
#[derive(Debug)]
pub struct Surroundings {
    /// The platform's default shell.
    pub default_profile: ShellProfile,
    /// What the shell that was asked for is called.
    pub shell_label: String,
    /// The agent's CLI: its command line and what to call it. Read for an agent alone.
    pub agent: Result<(Vec<String>, String), AgentRefusal>,
    /// Whether the folder asked for is absolute. Read where one was asked for.
    pub absolute: bool,
    /// What resolving that folder found. Read where it is absolute.
    pub folder: Result<CanonicalPath, PathError>,
}

/// Everything a spawn needs.
#[derive(Debug)]
pub struct SpawnPlan {
    /// The pane the session is for.
    pub pane_key: PaneKey,
    /// What it is.
    pub kind: SessionKind,
    /// What to run.
    pub program: SessionProgram,
    /// What to call it.
    pub title: String,
    /// Where to start it.
    pub cwd: Option<CanonicalPath>,
    /// Variables to set, in order; a later one has the last word.
    pub env: Vec<(String, String)>,
    /// Columns.
    pub cols: u16,
    /// Rows.
    pub rows: u16,
}

/// A program that was started on a pty.
#[derive(Debug)]
pub struct Spawned {
    /// The handle the pty layer minted.
    pub handle: SessionHandle,
    /// The session leader's pid, where the platform reports one.
    pub pid: Option<u32>,
}

/// A hyphenated, lower-case, random identifier: the first digit of its third group says so,
/// and the first of its fourth which layout it has.
pub open spec fn uuid_shaped(s: Seq<char>) -> bool {
    &&& s.len() == 36
    &&& s[8] == '-' && s[13] == '-' && s[18] == '-' && s[23] == '-'
    &&& s[14] == '4'
    &&& s[19] == '8' || s[19] == '9' || s[19] == 'a' || s[19] == 'b'
    &&& forall|i: int|
        0 <= i < 36 && i != 8 && i != 13 && i != 18 && i != 23 ==> (('0' as u32
            <= #[trigger] s[i] as u32 <= '9' as u32) || ('a' as u32 <= s[i] as u32 <= 'f' as u32))
}

/// `uuid::Uuid::new_v4` spelled through `as_hyphenated`: random bytes but for the bits that give
/// the version and the variant, as lower-case hex digits in groups of eight, four, four, four
/// and twelve with hyphens between. Which of the other digits is chance, so nothing more is
/// said of them.
#[verifier::external_body]
fn fresh_uuid() -> (out: String)
    ensures
        uuid_shaped(out@),
{
    uuid::Uuid::new_v4().as_hyphenated().to_string()
}

/// A half of a pane key: not empty, and holding no separator, white space or control character.
pub open spec fn pane_half(s: Seq<char>) -> bool {
    &&& s.len() > 0
    &&& forall|i: int|
        0 <= i < s.len() ==> #[trigger] s[i] != ':' && s[i] != '@' && !white_space(s[i]) && s[i]
            as u32 >= 0x20 && !(0x7f <= s[i] as u32 <= 0x9f)
}

/// A pane key: two halves with a colon between.
pub open spec fn pane_shaped(s: Seq<char>) -> bool {
    exists|tab: Seq<char>, leaf: Seq<char>|
        pane_half(tab) && pane_half(leaf) && s == #[trigger] (tab + ":"@ + leaf)
}

/// The pane key of two halves: the tab's, a colon, and the leaf's.
pub fn pane_of(tab: &str, leaf: &str) -> (out: PaneKey)
    ensures
        out.text@ == tab@ + ":"@ + leaf@,
        pane_half(tab@) && pane_half(leaf@) ==> pane_shaped(out.text@),
{
    PaneKey { text: tab.to_owned().concat(":").concat(leaf) }
}

/// A pane key for a caller that owns no pane: two fresh random halves. Which they are is chance;
/// [`pane_of`] says what is made of them.
pub fn synthetic_pane() -> (out: PaneKey)
    ensures
        exists|tab: Seq<char>, leaf: Seq<char>|
            uuid_shaped(tab) && uuid_shaped(leaf) && out.text@ == #[trigger] (tab + ":"@ + leaf),
        pane_shaped(out.text@),
{
    let tab = fresh_uuid();
    let leaf = fresh_uuid();
    proof {
        lemma_uuid_is_a_half(tab@);
        lemma_uuid_is_a_half(leaf@);
    }
    pane_of(tab.as_str(), leaf.as_str())
}

proof fn lemma_uuid_is_a_half(s: Seq<char>)
    requires
        uuid_shaped(s),
    ensures
        pane_half(s),
{
    assert forall|i: int| 0 <= i < s.len() implies #[trigger] s[i] != ':' && s[i] != '@'
        && !white_space(s[i]) && s[i] as u32 >= 0x20 && !(0x7f <= s[i] as u32 <= 0x9f) by {
        if i == 8 || i == 13 || i == 18 || i == 23 {
            assert(s[i] == '-');
        } else {
            assert(('0' as u32 <= s[i] as u32 <= '9' as u32) || ('a' as u32 <= s[i] as u32
                <= 'f' as u32));
        }
    }
}

/// Whether the session at `i` is the first that is live in `pane`.
pub open spec fn holds_pane(all: Seq<OwnedSession>, pane: Seq<char>, i: int) -> bool {
    &&& 0 <= i < all.len()
    &&& all[i].pane_key.text@ == pane
    &&& all[i].exit is None
    &&& forall|j: int|
        0 <= j < i ==> (#[trigger] all[j]).pane_key.text@ != pane || all[j].exit is Some
}

/// Whether a live session is in `pane`.
pub open spec fn pane_taken(all: Seq<OwnedSession>, pane: Seq<char>) -> bool {
    exists|i: int| #[trigger] holds_pane(all, pane, i)
}

/// What a request for a session comes to, in the order it is looked at.
pub enum CreateStage {
    /// A terminal of no size.
    Size,
    /// The pane is taken.
    PaneTaken,
    /// The folder is a project's, which only the project registry can resolve.
    ProjectFolder,
    /// The agent's CLI cannot be had.
    Agent,
    /// The folder is refused.
    Folder,
    /// The folder is a network one and the program runs through `cmd.exe`.
    CmdOnNetwork,
    /// It can be tried.
    Fine,
}

/// What the request runs, given what the machine says.
pub open spec fn program_of(request: SessionCreate, world: Surroundings) -> SessionProgram {
    match request.kind {
        SessionKind::Shell => SessionProgram::Shell(
            profile_for(request.profile, world.default_profile),
        ),
        SessionKind::Agent => SessionProgram::Resolved {
            argv: world.agent->Ok_0.0,
            label: world.agent->Ok_0.1,
        },
    }
}

/// What the pre-flight looks at: the size, the pane, and whether the agent's CLI can be had.
pub open spec fn precheck_stage(
    all: Seq<OwnedSession>,
    request: SessionCreate,
    world: Surroundings,
) -> CreateStage {
    if request.cols == 0 || request.rows == 0 {
        CreateStage::Size
    } else if request.pane_key is Some && pane_taken(all, request.pane_key->0.text@) {
        CreateStage::PaneTaken
    } else if request.kind == SessionKind::Agent && world.agent is Err {
        CreateStage::Agent
    } else {
        CreateStage::Fine
    }
}

/// What a request comes to, given the sessions there are and what the machine says.
pub open spec fn create_stage(
    all: Seq<OwnedSession>,
    request: SessionCreate,
    world: Surroundings,
) -> CreateStage {
    if request.cols == 0 || request.rows == 0 {
        CreateStage::Size
    } else if request.pane_key is Some && pane_taken(all, request.pane_key->0.text@) {
        CreateStage::PaneTaken
    } else if request.cwd is Some && request.cwd->0 is Project {
        CreateStage::ProjectFolder
    } else if request.kind == SessionKind::Agent && world.agent is Err {
        CreateStage::Agent
    } else if request.cwd is Some && cwd_refusal(world.absolute, world.folder) is Some {
        CreateStage::Folder
    } else if request.cwd is Some && through_cmd(program_of(request, world)) && network_spelling(
        world.folder->Ok_0.text@,
    ) {
        CreateStage::CmdOnNetwork
    } else {
        CreateStage::Fine
    }
}

/// Whether `err` is the refusal a stage answers with.
pub open spec fn stage_refusal(
    all: Seq<OwnedSession>,
    request: SessionCreate,
    world: Surroundings,
    stage: CreateStage,
    err: SessionError,
) -> bool {
    match stage {
        CreateStage::Size => err matches SessionError::Invalid(said) && said@
            == "a session is at least one cell in each direction"@,
        CreateStage::PaneTaken => err matches SessionError::PaneTaken { pane, handle } && pane
            == request.pane_key->0 && exists|i: int| #[trigger]
            holds_pane(all, pane.text@, i) && handle == all[i].handle,
        CreateStage::ProjectFolder => err matches SessionError::Invalid(said) && said@
            == "a project's folder is resolved from its registration, and this session registry holds none; the request has to reach the project service"@,
        CreateStage::Agent => match world.agent->Err_0 {
            AgentRefusal::Launch(why) => err == SessionError::Launch(why),
            AgentRefusal::Spawn(why) => err == SessionError::Spawn(why),
        },
        CreateStage::Folder => err matches SessionError::PathRefused { path, reason }
            && request.cwd->0 matches WorkingDirectory::Path { path: asked } && path@ == asked@
            && Some(reason@) == cwd_refusal(world.absolute, world.folder),
        CreateStage::CmdOnNetwork => err is CmdOnNetworkFolder,
        CreateStage::Fine => false,
    }
}

/// What an environment variable holds once a list of settings has been applied in order: the
/// last one has the last word.
pub open spec fn env_value(env: Seq<(String, String)>, name: Seq<char>) -> Option<Seq<char>>
    decreases env.len(),
{
    if env.len() == 0 {
        None
    } else if env.last().0@ == name {
        Some(env.last().1@)
    } else {
        env_value(env.drop_last(), name)
    }
}

/// Whether `env` is the request's overrides with the daemon's pane key behind them.
pub open spec fn env_of(
    env: Seq<(String, String)>,
    overrides: Seq<(String, String)>,
    pane: Seq<char>,
) -> bool {
    &&& env.len() == overrides.len() + 1
    &&& env.take(overrides.len() as int) == overrides
    &&& env.last().0@ == PANE_KEY_VAR@
    &&& env.last().1@ == pane
}

/// Whatever a caller sets, the pane key in a session's environment is the daemon's.
pub proof fn law_the_daemon_has_the_last_word_on_the_pane_key(
    env: Seq<(String, String)>,
    overrides: Seq<(String, String)>,
    pane: Seq<char>,
)
    requires
        env_of(env, overrides, pane),
    ensures
        env_value(env, PANE_KEY_VAR@) == Some(pane),
{
}

/// A refusal a request earns before anything is changed is the one that creating the session
/// would earn it, for a request that names no project's folder: such a folder is resolved
/// before a session is created, and refused where it was not.
pub proof fn law_an_early_refusal_is_the_one_create_gives(
    all: Seq<OwnedSession>,
    request: SessionCreate,
    world: Surroundings,
    err: SessionError,
)
    requires
        !(request.cwd is Some && request.cwd->0 is Project),
    ensures
        !(precheck_stage(all, request, world) is Fine) ==> create_stage(all, request, world)
            == precheck_stage(all, request, world),
        !(precheck_stage(all, request, world) is Fine) ==> stage_refusal(
            all,
            request,
            world,
            precheck_stage(all, request, world),
            err,
        ) == stage_refusal(all, request, world, create_stage(all, request, world), err),
{
}

#[derive(Debug)]
struct Generation {
    pane: String,
    next: u32,
}

/// Every session the daemon holds.
#[derive(Debug)]
pub struct SessionRegistry {
    sessions: Vec<OwnedSession>,
    generations: Vec<Generation>,
}

/// Sessions in the order of their handles, no two under one handle.
pub open spec fn in_order(all: Seq<OwnedSession>) -> bool {
    forall|i: int, j: int|
        0 <= i < j < all.len() ==> text_before(
            (#[trigger] all[i]).handle.text@,
            (#[trigger] all[j]).handle.text@,
        )
}

/// Rows with the oldest session's first.
pub open spec fn oldest_first(rows: Seq<SessionSummary>) -> bool {
    forall|i: int, j: int|
        0 <= i <= j < rows.len() ==> (#[trigger] rows[i]).created_at_ms <= (
        #[trigger] rows[j]).created_at_ms
}

/// Rows of which those of one age are in the order of their handles.
pub open spec fn ties_by_handle(rows: Seq<SessionSummary>) -> bool {
    forall|i: int, j: int|
        0 <= i < j < rows.len() && (#[trigger] rows[i]).created_at_ms == (
        #[trigger] rows[j]).created_at_ms ==> text_before(
            rows[i].handle.text@,
            rows[j].handle.text@,
        )
}

/// Whether `rows` is the list of those sessions: one row for each of them, the oldest first,
/// and, where the sessions were in the order of their handles, those of one age in that order.
pub open spec fn lists(rows: Seq<SessionSummary>, all: Seq<OwnedSession>) -> bool {
    &&& rows.to_multiset() == all.map_values(|s: OwnedSession| row_of(s)).to_multiset()
    &&& oldest_first(rows)
    &&& in_order(all) ==> ties_by_handle(rows)
}

/// The session under a handle, if there is one.
pub open spec fn named(all: Seq<OwnedSession>, handle: Seq<char>) -> Option<OwnedSession>
    decreases all.len(),
{
    if all.len() == 0 {
        None
    } else if all.last().handle.text@ == handle {
        Some(all.last())
    } else {
        named(all.drop_last(), handle)
    }
}

proof fn lemma_named(all: Seq<OwnedSession>, handle: Seq<char>)
    ensures
        named(all, handle) matches Some(session) ==> exists|i: int|
            0 <= i < all.len() && #[trigger] all[i] == session && session.handle.text@ == handle,
        named(all, handle) is None ==> forall|i: int|
            0 <= i < all.len() ==> (#[trigger] all[i]).handle.text@ != handle,
    decreases all.len(),
{
    if all.len() > 0 {
        if all.last().handle.text@ == handle {
            assert(all[all.len() - 1] == all.last());
        } else {
            lemma_named(all.drop_last(), handle);
            if named(all.drop_last(), handle) is Some {
                let i = choose|i: int|
                    0 <= i < all.drop_last().len() && #[trigger] all.drop_last()[i] == named(
                        all.drop_last(),
                        handle,
                    )->0;
                assert(all[i] == named(all, handle)->0);
            } else {
                assert forall|i: int| 0 <= i < all.len() implies (#[trigger] all[i]).handle.text@
                    != handle by {
                    if i < all.len() - 1 {
                        assert(all.drop_last()[i] == all[i]);
                    }
                }
            }
        }
    }
}

proof fn lemma_named_at(all: Seq<OwnedSession>, i: int)
    requires
        in_order(all),
        0 <= i < all.len(),
    ensures
        named(all, all[i].handle.text@) == Some(all[i]),
{
    let handle = all[i].handle.text@;
    lemma_named(all, handle);
    if named(all, handle) is Some {
        let j = choose|j: int|
            0 <= j < all.len() && #[trigger] all[j] == named(all, handle)->0
                && all[j].handle.text@ == handle;
        if i < j {
            lemma_text_before_total(all[i].handle.text@, all[j].handle.text@);
        } else if j < i {
            lemma_text_before_total(all[j].handle.text@, all[i].handle.text@);
        }
    }
}

proof fn lemma_not_named(all: Seq<OwnedSession>, handle: Seq<char>)
    requires
        forall|i: int| 0 <= i < all.len() ==> (#[trigger] all[i]).handle.text@ != handle,
    ensures
        named(all, handle) is None,
{
    lemma_named(all, handle);
}

/// The sessions' leaders: each leader's pid with the session it leads.
pub open spec fn leaders_of(all: Seq<OwnedSession>) -> Map<u32, (SessionHandle, Incarnation)>
    decreases all.len(),
{
    if all.len() == 0 {
        Map::empty()
    } else {
        let rest = leaders_of(all.drop_last());
        match all.last().leader_pid {
            Some(pid) => rest.insert(pid, (all.last().handle, all.last().incarnation)),
            None => rest,
        }
    }
}

impl SessionRegistry {
    /// Every session, in the order of their handles.
    pub closed spec fn all(&self) -> Seq<OwnedSession> {
        self.sessions@
    }

    /// How many spawns a pane has had.
    pub closed spec fn generation(&self, pane: Seq<char>) -> u32 {
        generation_of(self.generations@, pane)
    }

    /// The registry's invariant: sessions are in the order of their handles, and no two are
    /// under one.
    pub open spec fn wf(&self) -> bool {
        in_order(self.all())
    }

    /// The session under a handle, if there is one.
    pub open spec fn session(&self, handle: Seq<char>) -> Option<OwnedSession> {
        named(self.all(), handle)
    }
}

spec fn generation_of(s: Seq<Generation>, pane: Seq<char>) -> u32
    decreases s.len(),
{
    if s.len() == 0 {
        0
    } else if s.last().pane@ == pane {
        s.last().next
    } else {
        generation_of(s.drop_last(), pane)
    }
}

proof fn lemma_generation_updated(s: Seq<Generation>, at: int, entry: Generation)
    requires
        0 <= at < s.len(),
        entry.pane@ == s[at].pane@,
        forall|j: int| at < j < s.len() ==> (#[trigger] s[j]).pane@ != entry.pane@,
    ensures
        forall|pane: Seq<char>|
            #[trigger] generation_of(s.update(at, entry), pane) == (if pane == entry.pane@ {
                entry.next
            } else {
                generation_of(s, pane)
            }),
    decreases s.len(),
{
    let t = s.update(at, entry);
    if at == s.len() - 1 {
        assert(t.drop_last() =~= s.drop_last());
    } else {
        lemma_generation_updated(s.drop_last(), at, entry);
        assert(t.drop_last() =~= s.drop_last().update(at, entry));
        assert(s[s.len() - 1].pane@ != entry.pane@);
        assert(t.last() == s.last());
        assert forall|pane: Seq<char>| #[trigger] generation_of(t, pane) == (if pane
            == entry.pane@ {
            entry.next
        } else {
            generation_of(s, pane)
        }) by {
            assert(generation_of(s.drop_last().update(at, entry), pane) == generation_of(
                t.drop_last(),
                pane,
            ));
        }
    }
}

proof fn lemma_generation_absent(s: Seq<Generation>, pane: Seq<char>)
    requires
        forall|j: int| 0 <= j < s.len() ==> (#[trigger] s[j]).pane@ != pane,
    ensures
        generation_of(s, pane) == 0,
    decreases s.len(),
{
    if s.len() > 0 {
        assert(s[s.len() - 1].pane@ != pane);
        lemma_generation_absent(s.drop_last(), pane);
    }
}

proof fn lemma_generation_at(s: Seq<Generation>, at: int)
    requires
        0 <= at < s.len(),
        forall|j: int| at < j < s.len() ==> (#[trigger] s[j]).pane@ != s[at].pane@,
    ensures
        generation_of(s, s[at].pane@) == s[at].next,
    decreases s.len(),
{
    if at < s.len() - 1 {
        assert(s[s.len() - 1].pane@ != s[at].pane@);
        lemma_generation_at(s.drop_last(), at);
    }
}

/// A set of settings and one more behind it.
fn with_setting(
    overrides: Vec<(String, String)>,
    name: &str,
    value: &str,
) -> (out: Vec<(String, String)>)
    ensures
        out@.len() == overrides@.len() + 1,
        out@.take(overrides@.len() as int) == overrides@,
        out@.last().0@ == name@,
        out@.last().1@ == value@,
{
    let mut out = overrides;
    let ghost before = out@;
    out.push((name.to_owned(), value.to_owned()));
    assert(out@.take(before.len() as int) =~= before);
    out
}

/// What a request asks to be run.
///
/// A shell is named on the wire; an agent's CLI arrives already resolved, or refused.
pub fn program_for(
    kind: SessionKind,
    profile: Option<WireProfile>,
    default: ShellProfile,
    agent: Result<(Vec<String>, String), AgentRefusal>,
) -> (out: Result<SessionProgram, SessionError>)
    ensures
        kind == SessionKind::Shell ==> out == Ok::<SessionProgram, SessionError>(
            SessionProgram::Shell(profile_for(profile, default)),
        ),
        kind == SessionKind::Agent ==> out == (match agent {
            Ok(launch) => Ok::<SessionProgram, SessionError>(
                SessionProgram::Resolved { argv: launch.0, label: launch.1 },
            ),
            Err(AgentRefusal::Launch(why)) => Err(SessionError::Launch(why)),
            Err(AgentRefusal::Spawn(why)) => Err(SessionError::Spawn(why)),
        }),
{
    match kind {
        SessionKind::Shell => Ok(SessionProgram::Shell(core_profile(profile, default))),
        SessionKind::Agent => match agent {
            Ok(launch) => Ok(SessionProgram::Resolved { argv: launch.0, label: launch.1 }),
            Err(AgentRefusal::Launch(why)) => Err(SessionError::Launch(why)),
            Err(AgentRefusal::Spawn(why)) => Err(SessionError::Spawn(why)),
        },
    }
}

impl SessionRegistry {
    /// An empty registry.
    pub fn new() -> (out: SessionRegistry)
        ensures
            out.wf(),
            out.all().len() == 0,
            forall|pane: Seq<char>| out.generation(pane) == 0,
    {
        SessionRegistry { sessions: Vec::new(), generations: Vec::new() }
    }

    /// Which session is live in `pane`, if any.
    pub fn pane_holder(&self, pane: &PaneKey) -> (out: Option<SessionHandle>)
        ensures
            out is Some <==> pane_taken(self.all(), pane.text@),
            out is Some ==> exists|i: int| #[trigger]
                holds_pane(self.all(), pane.text@, i) && out->0 == self.all()[i].handle,
    {
        let mut i: usize = 0;
        while i < self.sessions.len()
            invariant
                i <= self.sessions.len(),
                forall|j: int|
                    0 <= j < i ==> (#[trigger] self.all()[j]).pane_key.text@ != pane.text@
                        || self.all()[j].exit is Some,
            decreases self.sessions.len() - i,
        {
            if same(self.sessions[i].pane_key.text.as_str(), pane.text.as_str())
                && self.sessions[i].exit.is_none() {
                assert(holds_pane(self.all(), pane.text@, i as int));
                return Some(self.sessions[i].handle.clone());
            }
            i = i + 1;
        }
        assert forall|k: int| !holds_pane(self.all(), pane.text@, k) by {}
        None
    }

    /// Answer every refusal a request can earn before its caller changes anything: the size,
    /// the pane, and, for an agent, whether its CLI can be had.
    pub fn precheck(&self, request: SessionCreate, world: Surroundings) -> (out: Result<
        (),
        SessionError,
    >)
        ensures
            out is Ok <==> precheck_stage(self.all(), request, world) is Fine,
            out matches Err(err) ==> stage_refusal(
                self.all(),
                request,
                world,
                precheck_stage(self.all(), request, world),
                err,
            ),
    {
        if request.cols == 0 || request.rows == 0 {
            return Err(
                SessionError::Invalid(
                    "a session is at least one cell in each direction".to_owned(),
                ),
            );
        }
        if let Some(pane) = &request.pane_key {
            if let Some(handle) = self.pane_holder(pane) {
                return Err(SessionError::PaneTaken { pane: pane.clone(), handle });
            }
        }
        match program_for(request.kind, request.profile, world.default_profile, world.agent) {
            Ok(_) => Ok(()),
            Err(err) => Err(err),
        }
    }

    /// Decide what a request for a session comes to, and prepare the spawn.
    ///
    /// A pane that is taken is refused, never rebound. A project's folder is refused rather
    /// than read as no folder. The caller's variables go in first and the daemon's pane key
    /// last.
    pub fn plan_create(&self, request: SessionCreate, world: Surroundings) -> (out: Result<
        SpawnPlan,
        SessionError,
    >)
        ensures
            out is Ok <==> create_stage(self.all(), request, world) is Fine,
            out matches Err(err) ==> stage_refusal(
                self.all(),
                request,
                world,
                create_stage(self.all(), request, world),
                err,
            ),
            out matches Ok(plan) ==> {
                &&& plan.kind == request.kind
                &&& plan.program == program_of(request, world)
                &&& plan.title@ == (match request.kind {
                    SessionKind::Shell => world.shell_label@,
                    SessionKind::Agent => world.agent->Ok_0.1@,
                })
                &&& plan.cols == request.cols && plan.rows == request.rows
                &&& plan.cwd is Some <==> request.cwd is Some
                &&& plan.cwd is Some ==> plan.cwd->0 == world.folder->Ok_0
                &&& env_of(plan.env@, request.env_overrides@, plan.pane_key.text@)
                &&& match request.pane_key {
                    Some(pane) => plan.pane_key == pane,
                    None => pane_shaped(plan.pane_key.text@),
                }
            },
    {
        if request.cols == 0 || request.rows == 0 {
            return Err(
                SessionError::Invalid(
                    "a session is at least one cell in each direction".to_owned(),
                ),
            );
        }
        let pane_key = match request.pane_key {
            Some(pane) => {
                if let Some(handle) = self.pane_holder(&pane) {
                    proof {
                        let i = choose|i: int| #[trigger]
                            holds_pane(self.all(), pane.text@, i) && handle
                                == self.all()[i].handle;
                        assert(holds_pane(self.all(), request.pane_key->0.text@, i));
                        assert(create_stage(self.all(), request, world) is PaneTaken);
                    }
                    return Err(SessionError::PaneTaken { pane, handle });
                }
                pane
            },
            None => synthetic_pane(),
        };
        let requested: Option<String> = match request.cwd {
            None => None,
            Some(WorkingDirectory::Path { path }) => Some(path),
            Some(WorkingDirectory::Project { .. }) => {
                return Err(
                    SessionError::Invalid(
                        "a project's folder is resolved from its registration, and this session registry holds none; the request has to reach the project service".to_owned(),
                    ),
                );
            },
        };
        let program = match program_for(
            request.kind,
            request.profile,
            world.default_profile,
            world.agent,
        ) {
            Ok(program) => program,
            Err(err) => {
                return Err(err);
            },
        };
        let title = match &program {
            SessionProgram::Shell(_) => world.shell_label,
            SessionProgram::Resolved { label, .. } => label.clone(),
        };
        let cwd: Option<CanonicalPath> = match requested {
            None => None,
            Some(path) => match confine_cwd(path.as_str(), world.absolute, world.folder) {
                Ok(folder) => {
                    if runs_through_cmd(&program) && is_network_folder(folder.text.as_str()) {
                        return Err(SessionError::CmdOnNetworkFolder);
                    }
                    Some(folder)
                },
                Err(err) => {
                    return Err(err);
                },
            },
        };
        let env = with_setting(request.env_overrides, PANE_KEY_VAR, pane_key.text.as_str());
        Ok(
            SpawnPlan {
                pane_key,
                kind: request.kind,
                program,
                title,
                cwd,
                env,
                cols: request.cols,
                rows: request.rows,
            },
        )
    }

    /// The next incarnation for `pane`, counting from zero and owned here.
    pub fn next_incarnation(&mut self, pane: &PaneKey) -> (out: Incarnation)
        ensures
            out.pane == *pane,
            out.generation == old(self).generation(pane.text@),
            final(self).all() == old(self).all(),
            forall|p: Seq<char>|
                #[trigger] final(self).generation(p) == (if p == pane.text@ && old(self).generation(p) < u32::MAX {
                    (old(self).generation(p) + 1) as u32
                } else {
                    old(self).generation(p)
                }),
    {
        let ghost before = self.generations@;
        let mut i: usize = self.generations.len();
        while i > 0
            invariant
                i <= self.generations.len(),
                self.generations@ == before,
                self.sessions == old(self).sessions,
                before == old(self).generations@,
                forall|j: int| i <= j < before.len() ==> (#[trigger] before[j]).pane@ != pane.text@,
            decreases i,
        {
            if same(self.generations[i - 1].pane.as_str(), pane.text.as_str()) {
                let generation: u32 = self.generations[i - 1].next;
                proof {
                    lemma_generation_at(before, i - 1);
                }
                let next: u32 = if generation < u32::MAX {
                    generation + 1
                } else {
                    generation
                };
                self.generations[i - 1].next = next;
                proof {
                    let entry = self.generations@[i - 1];
                    assert(self.generations@ =~= before.update(i - 1, entry));
                    lemma_generation_updated(before, i - 1, entry);
                }
                return Incarnation { pane: pane.clone(), generation };
            }
            i = i - 1;
        }
        proof {
            lemma_generation_absent(before, pane.text@);
        }
        self.generations.push(Generation { pane: pane.text.clone(), next: 1 });
        proof {
            assert(self.generations@.drop_last() =~= before);
        }
        Incarnation { pane: pane.clone(), generation: 0 }
    }

    /// Put a session under its handle; one already there is replaced.
    fn insert(&mut self, session: OwnedSession)
        requires
            old(self).wf(),
        ensures
            final(self).wf(),
            final(self).generations == old(self).generations,
            forall|h: Seq<char>|
                #[trigger] final(self).session(h) == (if h == session.handle.text@ {
                    Some(session)
                } else {
                    old(self).session(h)
                }),
            final(self).all().len() == old(self).all().len() + (if old(self).session(
                session.handle.text@,
            ) is Some {
                0nat
            } else {
                1nat
            }),
    {
        let ghost before = self.sessions@;
        let ghost new = session;
        let ghost key = session.handle.text@;
        let mut at: usize = 0;
        while at < self.sessions.len() && is_before(
            self.sessions[at].handle.text.as_str(),
            session.handle.text.as_str(),
        )
            invariant
                at <= self.sessions.len(),
                self.sessions@ == before,
                self.generations == old(self).generations,
                key == session.handle.text@,
                forall|k: int|
                    0 <= k < at ==> text_before((#[trigger] before[k]).handle.text@, key),
            decreases self.sessions.len() - at,
        {
            at = at + 1;
        }
        let replaces = at < self.sessions.len() && same(
            self.sessions[at].handle.text.as_str(),
            session.handle.text.as_str(),
        );
        proof {
            assert forall|k: int| at < k < before.len() implies text_before(
                key,
                (#[trigger] before[k]).handle.text@,
            ) by {
                lemma_text_before_total(before[at as int].handle.text@, key);
                if before[at as int].handle.text@ != key {
                    lemma_text_before_transitive(
                        key,
                        before[at as int].handle.text@,
                        before[k].handle.text@,
                    );
                }
            }
            if at < before.len() && !replaces {
                lemma_text_before_total(before[at as int].handle.text@, key);
            }
        }
        if replaces {
            self.sessions[at] = session;
            proof {
                let now = self.sessions@;
                assert(now =~= before.update(at as int, new));
                lemma_named_at(before, at as int);
                lemma_named_at(now, at as int);
                assert forall|h: Seq<char>| h != key implies #[trigger] named(now, h) == named(
                    before,
                    h,
                ) by {
                    lemma_named(before, h);
                    if named(before, h) is Some {
                        let j = choose|j: int|
                            0 <= j < before.len() && #[trigger] before[j] == named(before, h)->0
                                && before[j].handle.text@ == h;
                        assert(now[j] == before[j]);
                        lemma_named_at(now, j);
                    } else {
                        assert forall|j: int| 0 <= j < now.len() implies (
                        #[trigger] now[j]).handle.text@ != h by {
                            if j != at {
                                assert(now[j] == before[j]);
                            }
                        }
                        lemma_not_named(now, h);
                    }
                }
            }
        } else {
            self.sessions.insert(at, session);
            proof {
                let now = self.sessions@;
                assert(now =~= before.insert(at as int, new));
                assert forall|i: int, j: int| 0 <= i < j < now.len() implies text_before(
                    (#[trigger] now[i]).handle.text@,
                    (#[trigger] now[j]).handle.text@,
                ) by {
                    if i < at {
                        assert(now[i] == before[i]);
                    } else if i > at {
                        assert(now[i] == before[i - 1]);
                    }
                    if j < at {
                        assert(now[j] == before[j]);
                    } else if j > at {
                        assert(now[j] == before[j - 1]);
                    }
                }
                lemma_named_at(now, at as int);
                assert(named(before, key) is None) by {
                    assert forall|j: int| 0 <= j < before.len() implies (
                    #[trigger] before[j]).handle.text@ != key by {
                        lemma_text_before_total(before[j].handle.text@, key);
                    }
                    lemma_not_named(before, key);
                }
                assert forall|h: Seq<char>| h != key implies #[trigger] named(now, h) == named(
                    before,
                    h,
                ) by {
                    lemma_named(before, h);
                    if named(before, h) is Some {
                        let j = choose|j: int|
                            0 <= j < before.len() && #[trigger] before[j] == named(before, h)->0
                                && before[j].handle.text@ == h;
                        let k = if j < at {
                            j
                        } else {
                            j + 1
                        };
                        assert(now[k] == before[j]);
                        lemma_named_at(now, k);
                    } else {
                        assert forall|j: int| 0 <= j < now.len() implies (
                        #[trigger] now[j]).handle.text@ != h by {
                            if j < at {
                                assert(now[j] == before[j]);
                            } else if j > at {
                                assert(now[j] == before[j - 1]);
                            }
                        }
                        lemma_not_named(now, h);
                    }
                }
            }
        }
    }

    /// Take on a session whose spawn was tried.
    ///
    /// `spawned` is what the spawn answered and `pump` what starting its pump did. A spawn
    /// that failed changes nothing; one whose pump would not start uses up an incarnation and
    /// holds no session; otherwise the session is held under its handle.
    pub fn create(
        &mut self,
        plan: SpawnPlan,
        spawned: Result<Spawned, SpawnError>,
        pump: Result<(), String>,
        platform: Platform,
        now: u64,
    ) -> (out: Result<SessionCreated, SessionError>)
        requires
            old(self).wf(),
        ensures
            final(self).wf(),
            out is Ok <==> spawned is Ok && pump is Ok,
            spawned matches Err(why) ==> {
                &&& final(self).all() == old(self).all()
                &&& forall|p: Seq<char>|
                    #[trigger] final(self).generation(p) == old(self).generation(p)
                &&& out->Err_0 == (if platform == Platform::Windows && why is Spawn && plan.cwd
                    is Some && windows_measure(plan.cwd->0.text@)
                    > crate::session::failure::MAX_WORKING_DIRECTORY {
                    SessionError::FolderTooLong {
                        length: windows_measure(plan.cwd->0.text@) as usize,
                        source: why,
                    }
                } else {
                    SessionError::Spawn(why)
                })
            },
            spawned is Ok ==> forall|p: Seq<char>|
                #[trigger] final(self).generation(p) == (if p == plan.pane_key.text@ && old(self).generation(p) < u32::MAX {
                    (old(self).generation(p) + 1) as u32
                } else {
                    old(self).generation(p)
                }),
            spawned is Ok && pump is Err ==> final(self).all() == old(self).all() && out->Err_0
                == SessionError::Spawn(SpawnError::Thread(pump->Err_0)),
            out matches Ok(created) ==> {
                let held = OwnedSession {
                    handle: spawned->Ok_0.handle,
                    pane_key: plan.pane_key,
                    incarnation: created.incarnation,
                    kind: plan.kind,
                    title: plan.title,
                    created_at_ms: now,
                    cwd: plan.cwd,
                    leader_pid: spawned->Ok_0.pid,
                    exit: None,
                };
                &&& created.handle == spawned->Ok_0.handle
                &&& created.pane_key == plan.pane_key
                &&& created.incarnation.pane == plan.pane_key
                &&& created.incarnation.generation == old(self).generation(plan.pane_key.text@)
                &&& forall|h: Seq<char>|
                    #[trigger] final(self).session(h) == (if h == held.handle.text@ {
                        Some(held)
                    } else {
                        old(self).session(h)
                    })
            },
    {
        let started = match spawned {
            Ok(started) => started,
            Err(why) => {
                return Err(spawn_refusal(why, plan.cwd.as_ref(), platform));
            },
        };
        let incarnation = self.next_incarnation(&plan.pane_key);
        let ghost counted = *self;
        if let Err(said) = pump {
            return Err(SessionError::Spawn(SpawnError::Thread(said)));
        }
        let created = SessionCreated {
            handle: started.handle.clone(),
            pane_key: plan.pane_key.clone(),
            incarnation: incarnation.clone(),
        };
        self.insert(
            OwnedSession {
                handle: started.handle,
                pane_key: plan.pane_key,
                incarnation,
                kind: plan.kind,
                title: plan.title,
                created_at_ms: now,
                cwd: plan.cwd,
                leader_pid: started.pid,
                exit: None,
            },
        );
        assert forall|p: Seq<char>| #[trigger] self.generation(p) == counted.generation(p) by {}
        Ok(created)
    }

    fn find(&self, handle: &SessionHandle) -> (out: Option<usize>)
        requires
            self.wf(),
        ensures
            out is Some <==> self.session(handle.text@) is Some,
            out is Some ==> out->0 < self.sessions@.len() && self.sessions@[out->0 as int]
                == self.session(handle.text@)->0 && self.sessions@[out->0 as int].handle.text@
                == handle.text@,
    {
        let mut i: usize = 0;
        while i < self.sessions.len()
            invariant
                self.wf(),
                i <= self.sessions.len(),
                forall|j: int|
                    0 <= j < i ==> (#[trigger] self.sessions@[j]).handle.text@ != handle.text@,
            decreases self.sessions.len() - i,
        {
            if same(self.sessions[i].handle.text.as_str(), handle.text.as_str()) {
                proof {
                    lemma_named_at(self.sessions@, i as int);
                }
                return Some(i);
            }
            i = i + 1;
        }
        proof {
            lemma_not_named(self.sessions@, handle.text@);
        }
        None
    }

    /// The session a handle names.
    pub fn get(&self, handle: &SessionHandle) -> (out: Result<&OwnedSession, SessionError>)
        requires
            self.wf(),
        ensures
            out is Ok <==> self.session(handle.text@) is Some,
            out is Ok ==> *out->Ok_0 == self.session(handle.text@)->0,
            out matches Err(err) ==> err == (SessionError::Unknown { handle: *handle }),
    {
        match self.find(handle) {
            Some(at) => Ok(&self.sessions[at]),
            None => Err(SessionError::Unknown { handle: handle.clone() }),
        }
    }

    /// Record how a session's process ended, reporting whether the session was there.
    pub fn note_exit(&mut self, handle: &SessionHandle, status: SessionExit) -> (out: bool)
        requires
            old(self).wf(),
        ensures
            final(self).wf(),
            out == (old(self).session(handle.text@) is Some),
            forall|p: Seq<char>| #[trigger] final(self).generation(p) == old(self).generation(p),
            forall|h: Seq<char>|
                #[trigger] final(self).session(h) == (if out && h == handle.text@ {
                    Some(OwnedSession { exit: Some(status), ..old(self).session(h)->0 })
                } else {
                    old(self).session(h)
                }),
    {
        let ghost before = self.sessions@;
        match self.find(handle) {
            Some(at) => {
                self.sessions[at].exit = Some(status);
                proof {
                    let now = self.sessions@;
                    assert(now =~= before.update(at as int, now[at as int]));
                    lemma_named_at(now, at as int);
                    assert forall|h: Seq<char>| h != handle.text@ implies #[trigger] named(now, h)
                        == named(before, h) by {
                        lemma_named(before, h);
                        if named(before, h) is Some {
                            let j = choose|j: int|
                                0 <= j < before.len() && #[trigger] before[j] == named(before, h)->0
                                    && before[j].handle.text@ == h;
                            assert(now[j] == before[j]);
                            lemma_named_at(now, j);
                        } else {
                            assert forall|j: int| 0 <= j < now.len() implies (
                            #[trigger] now[j]).handle.text@ != h by {
                                if j != at {
                                    assert(now[j] == before[j]);
                                }
                            }
                            lemma_not_named(now, h);
                        }
                    }
                }
                true
            },
            None => false,
        }
    }

    /// Forget a session and hand it back, to be torn down.
    pub fn close(&mut self, handle: &SessionHandle) -> (out: Result<OwnedSession, SessionError>)
        requires
            old(self).wf(),
        ensures
            final(self).wf(),
            out is Ok <==> old(self).session(handle.text@) is Some,
            out is Ok ==> out->Ok_0 == old(self).session(handle.text@)->0,
            out matches Err(err) ==> err == (SessionError::Unknown { handle: *handle })
                && final(self).all() == old(self).all(),
            out is Ok ==> final(self).all().len() == old(self).all().len() - 1,
            forall|p: Seq<char>| #[trigger] final(self).generation(p) == old(self).generation(p),
            forall|h: Seq<char>|
                #[trigger] final(self).session(h) == (if h == handle.text@ {
                    None
                } else {
                    old(self).session(h)
                }),
    {
        let ghost before = self.sessions@;
        match self.find(handle) {
            Some(at) => {
                let closed = self.sessions.remove(at);
                proof {
                    let now = self.sessions@;
                    assert(now =~= before.remove(at as int));
                    assert forall|i: int, j: int| 0 <= i < j < now.len() implies text_before(
                        (#[trigger] now[i]).handle.text@,
                        (#[trigger] now[j]).handle.text@,
                    ) by {
                        let i0 = if i < at {
                            i
                        } else {
                            i + 1
                        };
                        let j0 = if j < at {
                            j
                        } else {
                            j + 1
                        };
                        assert(now[i] == before[i0] && now[j] == before[j0]);
                    }
                    assert forall|j: int| 0 <= j < now.len() implies (
                    #[trigger] now[j]).handle.text@ != handle.text@ by {
                        if j < at {
                            assert(now[j] == before[j]);
                            lemma_text_before_total(
                                before[j].handle.text@,
                                before[at as int].handle.text@,
                            );
                        } else {
                            assert(now[j] == before[j + 1]);
                            lemma_text_before_total(
                                before[at as int].handle.text@,
                                before[j + 1].handle.text@,
                            );
                        }
                    }
                    lemma_not_named(now, handle.text@);
                    assert forall|h: Seq<char>| h != handle.text@ implies #[trigger] named(now, h)
                        == named(before, h) by {
                        lemma_named(before, h);
                        if named(before, h) is Some {
                            let j = choose|j: int|
                                0 <= j < before.len() && #[trigger] before[j] == named(before, h)->0
                                    && before[j].handle.text@ == h;
                            let k = if j < at {
                                j
                            } else {
                                j - 1
                            };
                            assert(now[k] == before[j]);
                            lemma_named_at(now, k);
                        } else {
                            assert forall|j: int| 0 <= j < now.len() implies (
                            #[trigger] now[j]).handle.text@ != h by {
                                if j < at {
                                    assert(now[j] == before[j]);
                                } else {
                                    assert(now[j] == before[j + 1]);
                                }
                            }
                            lemma_not_named(now, h);
                        }
                    }
                }
                Ok(closed)
            },
            None => {
                proof {
                    assert(self.session(handle.text@) is None);
                }
                Err(SessionError::Unknown { handle: handle.clone() })
            },
        }
    }

    /// Every session's row, the oldest session first. Of two that are as old as each other, the
    /// one whose handle comes first goes first.
    pub fn list(&self) -> (out: Vec<SessionSummary>)
        ensures
            lists(out@, self.all()),
    {
        let mut out: Vec<SessionSummary> = Vec::new();
        let ghost all = self.all();
        let ghost row = |s: OwnedSession| row_of(s);
        let mut i: usize = 0;
        proof {
            assert(all.take(0).map_values(row) =~= Seq::empty());
            assert(out@ =~= Seq::empty());
        }
        while i < self.sessions.len()
            invariant
                i <= self.sessions.len(),
                all == self.sessions@,
                row == (|s: OwnedSession| row_of(s)),
                out@.to_multiset() == all.take(i as int).map_values(row).to_multiset(),
                out@.len() == i,
                oldest_first(out@),
                in_order(all) ==> ties_by_handle(out@),
                in_order(all) ==> forall|k: int, m: int|
                    0 <= k < i <= m < all.len() ==> text_before(
                        (#[trigger] out@[k]).handle.text@,
                        (#[trigger] all[m]).handle.text@,
                    ),
            decreases self.sessions.len() - i,
        {
            let summary = self.sessions[i].summary();
            let ghost before = out@;
            let mut at: usize = out.len();
            while at > 0 && out[at - 1].created_at_ms > summary.created_at_ms
                invariant
                    at <= out.len(),
                    out@ == before,
                    oldest_first(before),
                    forall|k: int|
                        at <= k < before.len() ==> (#[trigger] before[k]).created_at_ms
                            > summary.created_at_ms,
                decreases at,
            {
                at = at - 1;
            }
            out.insert(at, summary);
            proof {
                let s = all[i as int];
                assert(summary == row_of(s));
                vstd::seq_lib::to_multiset_insert(before, at as int, summary);
                vstd::seq_lib::to_multiset_build(all.take(i as int).map_values(row), summary);
                assert(all.take(i + 1).map_values(row) =~= all.take(i as int).map_values(row).push(
                    summary,
                ));
                assert forall|k: int| 0 <= k < out@.len() implies #[trigger] out@[k] == (if k < at {
                    before[k]
                } else if k == at {
                    summary
                } else {
                    before[k - 1]
                }) by {}
            }
            i = i + 1;
        }
        assert(all.take(i as int) =~= all);
        out
    }

    /// The rows of the sessions running inside `folder` and in no deeper one of `folders`, in
    /// the order of their handles. A session with no folder belongs to none.
    pub fn summaries_under(&self, folder: &CanonicalPath, folders: &Vec<CanonicalPath>) -> (out:
        Vec<SessionSummary>)
        ensures
            out@ == self.all().filter(
                |s: OwnedSession| belongs(s, *folder, folders@),
            ).map_values(|s: OwnedSession| row_of(s)),
    {
        let ghost inside = |s: OwnedSession| belongs(s, *folder, folders@);
        let ghost row = |s: OwnedSession| row_of(s);
        let mut out: Vec<SessionSummary> = Vec::new();
        let mut i: usize = 0;
        proof {
            reveal(Seq::filter);
            assert(out@ =~= self.all().take(0).filter(inside).map_values(row));
        }
        while i < self.sessions.len()
            invariant
                i <= self.sessions.len(),
                inside == (|s: OwnedSession| belongs(s, *folder, folders@)),
                row == (|s: OwnedSession| row_of(s)),
                out@ == self.all().take(i as int).filter(inside).map_values(row),
            decreases self.sessions.len() - i,
        {
            let ghost before = self.all().take(i as int).filter(inside);
            let ghost was = out@;
            proof {
                reveal(Seq::filter);
                assert(self.all().take(i + 1).drop_last() =~= self.all().take(i as int));
            }
            let mut under = false;
            if let Some(cwd) = &self.sessions[i].cwd {
                match deepest_containing(folders, cwd) {
                    Some(at) => {
                        if same(folders[at].text.as_str(), folder.text.as_str()) {
                            under = true;
                            assert(deepest(folders@, *cwd, at as int));
                        } else {
                            proof {
                                assert forall|k: int| #[trigger] deepest(folders@, *cwd, k) implies k
                                    == at by {
                                    crate::session::program::law_the_deepest_folder_is_unique(
                                        folders@,
                                        *cwd,
                                        k,
                                        at as int,
                                    );
                                }
                            }
                        }
                    },
                    None => {},
                }
            }
            assert(under == belongs(self.sessions@[i as int], *folder, folders@));
            if under {
                out.push(self.sessions[i].summary());
                assert(out@ =~= was.push(row_of(self.sessions@[i as int])));
                assert(before.push(self.sessions@[i as int]).map_values(row) =~= before.map_values(
                    row,
                ).push(row_of(self.sessions@[i as int])));
            }
            i = i + 1;
        }
        assert(self.all().take(i as int) =~= self.all());
        out
    }

    /// Every session leader's pid, with the session it leads.
    pub fn leaders(&self) -> (out: HashMap<u32, (SessionHandle, Incarnation)>)
        ensures
            out@ == leaders_of(self.all()),
    {
        broadcast use vstd::std_specs::hash::group_hash_axioms;

        let mut out: HashMap<u32, (SessionHandle, Incarnation)> = HashMap::new();
        let mut i: usize = 0;
        while i < self.sessions.len()
            invariant
                i <= self.sessions.len(),
                out@ == leaders_of(self.all().take(i as int)),
            decreases self.sessions.len() - i,
        {
            assert(self.all().take(i + 1).drop_last() =~= self.all().take(i as int));
            if let Some(pid) = self.sessions[i].leader_pid {
                out.insert(
                    pid,
                    (self.sessions[i].handle.clone(), self.sessions[i].incarnation.clone()),
                );
            }
            i = i + 1;
        }
        assert(self.all().take(i as int) =~= self.all());
        out
    }

    /// How many sessions the daemon holds.
    pub fn len(&self) -> (out: usize)
        ensures
            out == self.all().len(),
    {
        self.sessions.len()
    }

    /// Whether the daemon holds no session.
    pub fn is_empty(&self) -> (out: bool)
        ensures
            out == (self.all().len() == 0),
    {
        self.sessions.len() == 0
    }

    /// Forget every session and hand them all back, to be torn down.
    pub fn close_all(&mut self) -> (out: Vec<OwnedSession>)
        ensures
            out@ == old(self).all(),
            final(self).all().len() == 0,
            final(self).wf(),
            forall|p: Seq<char>| #[trigger] final(self).generation(p) == old(self).generation(p),
    {
        let mut out: Vec<OwnedSession> = Vec::new();
        out.append(&mut self.sessions);
        assert(out@ =~= old(self).all());
        out
    }
}

/// Whether a session belongs to `folder`: that is the deepest of `folders` its own is inside.
pub open spec fn belongs(
    session: OwnedSession,
    folder: CanonicalPath,
    folders: Seq<CanonicalPath>,
) -> bool {
    session.cwd is Some && exists|at: int| #[trigger]
        deepest(folders, session.cwd->0, at) && folders[at].text@ == folder.text@
}

/// A session is listed under one worktree, however they nest: two folders it belongs to are
/// the same folder.
pub proof fn law_a_session_belongs_to_one_folder(
    session: OwnedSession,
    one: CanonicalPath,
    two: CanonicalPath,
    folders: Seq<CanonicalPath>,
)
    requires
        belongs(session, one, folders),
        belongs(session, two, folders),
    ensures
        one.text@ == two.text@,
{
    let a = choose|at: int| #[trigger]
        deepest(folders, session.cwd->0, at) && folders[at].text@ == one.text@;
    let b = choose|at: int| #[trigger]
        deepest(folders, session.cwd->0, at) && folders[at].text@ == two.text@;
    crate::session::program::law_the_deepest_folder_is_unique(folders, session.cwd->0, a, b);
}

/// A pane is taken while, and only while, a session that has not ended is in it.
pub proof fn law_a_live_session_takes_its_pane(all: Seq<OwnedSession>, pane: Seq<char>)
    ensures
        pane_taken(all, pane) <==> exists|i: int|
            0 <= i < all.len() && (#[trigger] all[i]).pane_key.text@ == pane && all[i].exit is None,
    decreases all.len(),
{
    if exists|i: int|
        0 <= i < all.len() && (#[trigger] all[i]).pane_key.text@ == pane && all[i].exit is None {
        let i = choose|i: int|
            0 <= i < all.len() && (#[trigger] all[i]).pane_key.text@ == pane && all[i].exit is None;
        lemma_someone_holds_the_pane(all, pane, i);
    }
    if pane_taken(all, pane) {
        let i = choose|i: int| #[trigger] holds_pane(all, pane, i);
        assert(all[i].pane_key.text@ == pane && all[i].exit is None);
    }
}

proof fn lemma_someone_holds_the_pane(all: Seq<OwnedSession>, pane: Seq<char>, i: int)
    requires
        0 <= i < all.len(),
        all[i].pane_key.text@ == pane,
        all[i].exit is None,
    ensures
        pane_taken(all, pane),
    decreases i,
{
    if exists|j: int|
        0 <= j < i && (#[trigger] all[j]).pane_key.text@ == pane && all[j].exit is None {
        let j = choose|j: int|
            0 <= j < i && (#[trigger] all[j]).pane_key.text@ == pane && all[j].exit is None;
        lemma_someone_holds_the_pane(all, pane, j);
    } else {
        assert(holds_pane(all, pane, i));
    }
}

/// The one that holds a pane is in it and alive, and is the first such.
pub proof fn law_a_pane_has_one_holder(all: Seq<OwnedSession>, pane: Seq<char>, a: int, b: int)
    requires
        holds_pane(all, pane, a),
        0 <= b < all.len(),
        all[b].pane_key.text@ == pane,
        all[b].exit is None,
    ensures
        a <= b,
        all[a].pane_key.text@ == pane,
        all[a].exit is None,
{
}

/// A create goes ahead exactly when nothing stands against it: it asks for at least one cell in
/// each direction, no live session is in the pane it names, its folder is not a project's, an
/// agent's command line was found, and the folder it asks for is absolute and there, and is not
/// a network one that a Command Prompt would have to start in.
pub proof fn law_a_create_goes_ahead_unless_something_stands_against_it(
    all: Seq<OwnedSession>,
    request: SessionCreate,
    world: Surroundings,
)
    ensures
        create_stage(all, request, world) is Fine <==> {
            &&& request.cols >= 1 && request.rows >= 1
            &&& request.pane_key is Some ==> forall|i: int|
                0 <= i < all.len() && (#[trigger] all[i]).pane_key.text@
                    == request.pane_key->0.text@ ==> all[i].exit is Some
            &&& !(request.cwd is Some && request.cwd->0 is Project)
            &&& request.kind == SessionKind::Agent ==> world.agent is Ok
            &&& request.cwd is Some ==> world.absolute && world.folder is Ok && !(network_spelling(
                world.folder->Ok_0.text@,
            ) && match request.kind {
                SessionKind::Shell => match request.profile {
                    Some(profile) => profile is Cmd,
                    None => world.default_profile is CommandPrompt,
                },
                SessionKind::Agent => world.agent->Ok_0.0@.len() > 0 && called_cmd(
                    world.agent->Ok_0.0@[0]@,
                ),
            })
        },
{
    if let Some(pane) = request.pane_key {
        law_a_live_session_takes_its_pane(all, pane.text@);
    }
    law_what_runs_through_cmd(program_of(request, world));
    law_a_folder_is_taken_only_if_it_is_there(world.absolute, world.folder);
}

/// A create that is refused is refused for the first thing that stands against it: the size
/// before the pane, the pane before the folder's project, that before the agent, and the agent
/// before the folder.
pub proof fn law_a_create_is_refused_for_the_first_reason(
    all: Seq<OwnedSession>,
    request: SessionCreate,
    world: Surroundings,
)
    ensures
        ({
            let stage = create_stage(all, request, world);
            let size = request.cols == 0 || request.rows == 0;
            let pane = request.pane_key is Some && exists|i: int|
                0 <= i < all.len() && (#[trigger] all[i]).pane_key.text@
                    == request.pane_key->0.text@ && all[i].exit is None;
            let project = request.cwd is Some && request.cwd->0 is Project;
            let agent = request.kind == SessionKind::Agent && world.agent is Err;
            let folder = request.cwd is Some && !(world.absolute && world.folder is Ok);
            &&& size ==> stage is Size
            &&& !size && pane ==> stage is PaneTaken
            &&& !size && !pane && project ==> stage is ProjectFolder
            &&& !size && !pane && !project && agent ==> stage is Agent
            &&& !size && !pane && !project && !agent && folder ==> stage is Folder
            &&& stage is CmdOnNetwork ==> !size && !pane && !project && !agent && !folder
            &&& !size && !pane && !project && !agent && !folder ==> stage is CmdOnNetwork || stage
                is Fine
        }),
        ({
            let stage = precheck_stage(all, request, world);
            let size = request.cols == 0 || request.rows == 0;
            let pane = request.pane_key is Some && exists|i: int|
                0 <= i < all.len() && (#[trigger] all[i]).pane_key.text@
                    == request.pane_key->0.text@ && all[i].exit is None;
            let agent = request.kind == SessionKind::Agent && world.agent is Err;
            &&& size ==> stage is Size
            &&& !size && pane ==> stage is PaneTaken
            &&& !size && !pane && agent ==> stage is Agent
            &&& !size && !pane && !agent ==> stage is Fine
        }),
{
    if let Some(pane) = request.pane_key {
        law_a_live_session_takes_its_pane(all, pane.text@);
    }
    law_a_folder_is_taken_only_if_it_is_there(world.absolute, world.folder);
}

/// Each refusal says what it was for: a pane that is taken names itself and the live session in
/// it, an agent's refusal is the agent's own, a folder's names the folder that was asked for.
pub proof fn law_a_refusal_says_what_it_was_for(
    all: Seq<OwnedSession>,
    request: SessionCreate,
    world: Surroundings,
    stage: CreateStage,
    err: SessionError,
)
    requires
        stage_refusal(all, request, world, stage, err),
    ensures
        stage is Size ==> (err matches SessionError::Invalid(said) && said@
            == "a session is at least one cell in each direction"@),
        stage is ProjectFolder ==> (err matches SessionError::Invalid(said) && said@
            == "a project's folder is resolved from its registration, and this session registry holds none; the request has to reach the project service"@),
        stage is PaneTaken ==> (err matches SessionError::PaneTaken { pane, handle } && pane
            == request.pane_key->0 && exists|i: int|
            0 <= i < all.len() && (#[trigger] all[i]).handle == handle && all[i].pane_key.text@
                == pane.text@ && all[i].exit is None),
        stage is Agent ==> (world.agent->Err_0 matches AgentRefusal::Launch(why) ==> err
            == SessionError::Launch(why)),
        stage is Agent ==> (world.agent->Err_0 matches AgentRefusal::Spawn(why) ==> err
            == SessionError::Spawn(why)),
        stage is Folder ==> (err matches SessionError::PathRefused { path, reason } && path@
            == request.cwd->0->path@ && (world.absolute && world.folder
            == Err::<CanonicalPath, PathError>(PathError::Missing) ==> reason@
            == "it does not exist"@) && (world.absolute && world.folder
            == Err::<CanonicalPath, PathError>(PathError::NotADirectory) ==> reason@
            == "it is not a directory"@)),
        stage is CmdOnNetwork ==> err is CmdOnNetworkFolder,
        !(stage is Fine),
{
    if stage is PaneTaken {
        let i = choose|i: int| #[trigger]
            holds_pane(all, request.pane_key->0.text@, i) && err->PaneTaken_handle == all[i].handle;
        assert(all[i].handle == err->PaneTaken_handle);
    }
    if stage is Folder {
        law_a_folder_is_taken_only_if_it_is_there(world.absolute, world.folder);
    }
}

/// What a session runs is what was asked for: the shell that was named, the platform's own
/// where none was, or the agent's own command line.
pub proof fn law_a_session_runs_what_was_asked_for(request: SessionCreate, world: Surroundings)
    ensures
        request.kind == SessionKind::Agent && world.agent is Ok ==> program_of(request, world) == (
        SessionProgram::Resolved { argv: world.agent->Ok_0.0, label: world.agent->Ok_0.1 }),
        request.kind == SessionKind::Shell ==> (program_of(request, world) matches
            SessionProgram::Shell(shell) && match request.profile {
            None => shell == world.default_profile,
            Some(WireProfile::Pwsh) => shell is PowerShell7,
            Some(WireProfile::Cmd) => shell is CommandPrompt,
            Some(WireProfile::GitBash) => shell is GitBash,
            Some(WireProfile::Wsl { distro }) => shell is Wsl && shell->distro == distro,
        }),
{
}

/// A variable that is set again has the value it was set to last, and setting one leaves the
/// others.
pub proof fn law_a_variable_has_its_last_value(
    env: Seq<(String, String)>,
    setting: (String, String),
    name: Seq<char>,
)
    ensures
        env_value(env.push(setting), setting.0@) == Some(setting.1@),
        name != setting.0@ ==> env_value(env.push(setting), name) == env_value(env, name),
        env_value(Seq::empty(), name) is None,
{
    assert(env.push(setting).drop_last() =~= env);
}

/// A session sees every variable that was set for it, as it was set, but for the pane key.
pub proof fn law_overrides_reach_the_session(
    env: Seq<(String, String)>,
    overrides: Seq<(String, String)>,
    pane: Seq<char>,
    name: Seq<char>,
)
    requires
        env_of(env, overrides, pane),
        name != "NYSIA_PANE_KEY"@,
    ensures
        env_value(env, name) == env_value(overrides, name),
        env_value(env, "NYSIA_PANE_KEY"@) == Some(pane),
{
    assert(env.drop_last() =~= overrides);
}

/// A row shows its session as it is.
pub proof fn law_a_row_shows_its_session(session: OwnedSession)
    ensures
        row_of(session).handle == session.handle,
        row_of(session).pane_key == session.pane_key,
        row_of(session).kind == session.kind,
        row_of(session).title == session.title,
        row_of(session).created_at_ms == session.created_at_ms,
        row_of(session).exit_status == session.exit,
{
}

/// The list shows every session, each once, the oldest first.
pub proof fn law_the_list_shows_every_session(
    rows: Seq<SessionSummary>,
    all: Seq<OwnedSession>,
    s: int,
    i: int,
    j: int,
)
    requires
        lists(rows, all),
        0 <= s < all.len(),
        0 <= i < j < rows.len(),
    ensures
        rows.len() == all.len(),
        rows.contains(row_of(all[s])),
        exists|k: int| 0 <= k < all.len() && row_of(#[trigger] all[k]) == rows[i],
        rows[i].created_at_ms <= rows[j].created_at_ms,
        in_order(all) && rows[i].created_at_ms == rows[j].created_at_ms ==> text_before(
            rows[i].handle.text@,
            rows[j].handle.text@,
        ),
{
    let shown = all.map_values(|o: OwnedSession| row_of(o));
    rows.to_multiset_ensures();
    shown.to_multiset_ensures();
    assert(shown[s] == row_of(all[s]));
    assert(shown.contains(row_of(all[s])));
    assert(shown.to_multiset().contains(row_of(all[s])));
    assert(rows.contains(rows[i]));
    assert(rows.to_multiset().contains(rows[i]));
    assert(shown.contains(rows[i]));
    let k = choose|k: int| 0 <= k < shown.len() && shown[k] == rows[i];
    assert(row_of(all[k]) == rows[i]);
}

/// A handle finds the session that has it: what is found is one of the sessions and has that
/// handle, and nothing is found only where none has it.
pub proof fn law_a_handle_finds_its_session(all: Seq<OwnedSession>, handle: Seq<char>)
    ensures
        named(all, handle) matches Some(found) ==> found.handle.text@ == handle && all.contains(
            found,
        ),
        named(all, handle) is None <==> forall|i: int|
            0 <= i < all.len() ==> (#[trigger] all[i]).handle.text@ != handle,
        in_order(all) ==> forall|i: int|
            0 <= i < all.len() && (#[trigger] all[i]).handle.text@ == handle ==> named(all, handle)
                == Some(all[i]),
    decreases all.len(),
{
    if all.len() > 0 {
        let head = all.drop_last();
        law_a_handle_finds_its_session(head, handle);
        let last = all[all.len() - 1];
        assert(all.last() == last);
        if last.handle.text@ != handle {
            if let Some(found) = named(head, handle) {
                let i = choose|i: int| 0 <= i < head.len() && head[i] == found;
                assert(all[i] == found);
            } else {
                assert forall|i: int| 0 <= i < all.len() implies (#[trigger] all[i]).handle.text@
                    != handle by {
                    if i < head.len() {
                        assert(head[i] == all[i]);
                    }
                }
            }
        }
        if in_order(all) {
            assert forall|i: int, j: int| 0 <= i < j < head.len() implies text_before(
                (#[trigger] head[i]).handle.text@,
                (#[trigger] head[j]).handle.text@,
            ) by {
                assert(all[i] == head[i] && all[j] == head[j]);
            }
            assert forall|i: int|
                0 <= i < all.len() && (#[trigger] all[i]).handle.text@ == handle implies named(
                all,
                handle,
            ) == Some(all[i]) by {
                if i < head.len() {
                    assert(head[i] == all[i]);
                    assert(text_before(all[i].handle.text@, last.handle.text@));
                    lemma_text_before_total(handle, last.handle.text@);
                }
            }
        }
    }
}

/// A process is found to lead the session that was started with it: every session with a leader
/// is there under that pid, and nothing else is.
pub proof fn law_a_leader_leads_its_session(all: Seq<OwnedSession>, pid: u32)
    ensures
        leaders_of(all).dom().contains(pid) <==> exists|i: int|
            0 <= i < all.len() && (#[trigger] all[i]).leader_pid == Some(pid),
        leaders_of(all).dom().contains(pid) ==> exists|i: int|
            0 <= i < all.len() && (#[trigger] all[i]).leader_pid == Some(pid) && leaders_of(
                all,
            )[pid] == (all[i].handle, all[i].incarnation) && forall|j: int|
                i < j < all.len() ==> (#[trigger] all[j]).leader_pid != Some(pid),
    decreases all.len(),
{
    if all.len() > 0 {
        let head = all.drop_last();
        let n = all.len() - 1;
        law_a_leader_leads_its_session(head, pid);
        assert(all.last() == all[n]);
        if all[n].leader_pid == Some(pid) {
        } else if leaders_of(head).dom().contains(pid) {
            let i = choose|i: int|
                0 <= i < head.len() && (#[trigger] head[i]).leader_pid == Some(pid) && leaders_of(
                    head,
                )[pid] == (head[i].handle, head[i].incarnation) && forall|j: int|
                    i < j < head.len() ==> (#[trigger] head[j]).leader_pid != Some(pid);
            assert(all[i] == head[i]);
            assert forall|j: int| i < j < all.len() implies (#[trigger] all[j]).leader_pid != Some(
                pid,
            ) by {
                if j < n {
                    assert(head[j] == all[j]);
                }
            }
        } else {
            assert forall|i: int| 0 <= i < all.len() implies (#[trigger] all[i]).leader_pid
                != Some(pid) by {
                if i < n {
                    assert(head[i] == all[i]);
                }
            }
        }
    }
}

/// A session belongs to the deepest folder that holds the one it was started in; one that was
/// given no folder belongs to none, and one whose folder is held by some belongs to one of them.
pub proof fn law_a_session_belongs_to_the_deepest_folder(
    session: OwnedSession,
    folder: CanonicalPath,
    folders: Seq<CanonicalPath>,
)
    requires
        belongs(session, folder, folders),
    ensures
        session.cwd is Some,
        exists|at: int|
            0 <= at < folders.len() && (#[trigger] folders[at]).text@ == folder.text@
                && folders[at].holds(&session.cwd->0) && forall|i: int|
                0 <= i < folders.len() && (#[trigger] folders[i]).holds(&session.cwd->0)
                    ==> folders[i].components@.len() <= folders[at].components@.len(),
{
    let at = choose|at: int| #[trigger]
        deepest(folders, session.cwd->0, at) && folders[at].text@ == folder.text@;
    assert(folders[at].text@ == folder.text@);
}

/// A pane key is two halves with one colon between them: there is no other colon, no at sign,
/// no white space and no control character in it, and neither half is empty.
pub proof fn law_a_pane_key_has_two_halves(s: Seq<char>)
    requires
        pane_shaped(s),
    ensures
        exists|at: int|
            0 < at < s.len() - 1 && #[trigger] s[at] == ':' && forall|i: int|
                0 <= i < s.len() && i != at ==> #[trigger] s[i] != ':',
        forall|i: int|
            0 <= i < s.len() ==> #[trigger] s[i] != '@' && s[i] != ' ' && s[i] != '\n' && s[i]
                != '\t' && s[i] as u32 >= 0x20 && s[i] as u32 != 0x7f,
{
    reveal_strlit(":");
    let (tab, leaf) = choose|tab: Seq<char>, leaf: Seq<char>|
        pane_half(tab) && pane_half(leaf) && s == #[trigger] (tab + ":"@ + leaf);
    let at = tab.len() as int;
    assert(s[at] == ':');
    assert forall|i: int| 0 <= i < s.len() && i != at implies #[trigger] s[i] != ':' && s[i] != '@'
        && !white_space(s[i]) && s[i] as u32 >= 0x20 && !(0x7f <= s[i] as u32 <= 0x9f) by {
        if i < at {
            assert(s[i] == tab[i]);
        } else {
            assert(s[i] == leaf[i - at - 1]);
        }
    }
    assert(white_space(' ') && white_space('\n') && white_space('\t'));
}

/// Two such halves make such a key, whatever they are.
pub proof fn law_two_halves_make_a_pane_key(tab: Seq<char>, leaf: Seq<char>)
    requires
        pane_half(tab),
        pane_half(leaf),
    ensures
        pane_shaped(tab + seq![':'] + leaf),
{
    reveal_strlit(":");
    assert(":"@ =~= seq![':']);
    assert(tab + ":"@ + leaf == tab + seq![':'] + leaf);
}

/// Any text of printing ASCII without a colon or an at sign can be half of a pane key, and
/// nothing else of ASCII can.
pub proof fn law_what_half_a_pane_key_may_hold(s: Seq<char>)
    requires
        s.len() > 0,
        forall|i: int| 0 <= i < s.len() ==> (#[trigger] s[i]) as u32 <= 0x7f,
    ensures
        pane_half(s) <==> forall|i: int|
            0 <= i < s.len() ==> 0x21 <= (#[trigger] s[i]) as u32 && s[i] as u32 != 0x7f && s[i]
                != ':' && s[i] != '@',
{
    if pane_half(s) {
        assert forall|i: int| 0 <= i < s.len() implies 0x21 <= (#[trigger] s[i]) as u32 && s[i]
            as u32 != 0x7f && s[i] != ':' && s[i] != '@' by {
            assert(!white_space(s[i]));
        }
    }
}

} // verus!
