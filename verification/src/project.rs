//! The three project verbs: registering a folder, listing what is registered, forgetting it.
//!
//! A project is two halves and only one of them is stored. The store holds a folder, a name and
//! a group; git says which worktrees the folder has, and the session registry says what runs in
//! each. No answer here carries a path: a refusal is matched on and replaced, never rendered.
use vstd::prelude::*;
use crate::errors::{envelope, one, steps_of, two};
use crate::session::program::{deepest, CanonicalPath, PathError};
use crate::session::registry::{belongs, row_of, OwnedSession, SessionRegistry, SessionSummary};
use crate::text::{same, views};
use crate::wire::{refusal, EnvelopeView, ErrorCode, ErrorEnvelope, Platform};

verus! {

/// How long git has to describe one project while a list is being composed, in milliseconds.
pub const LIST_DEADLINE_MS: u64 = 2_000;

/// Why git would not describe a folder.
#[derive(Debug)]
pub enum GitError {
    /// The folder itself.
    Path(PathError),
    /// There is no git to run.
    NotInstalled,
    /// It could not be started.
    Spawn,
    /// It ran past its deadline.
    TimedOut,
    /// It reported a failure.
    Failed,
    /// It refused its arguments.
    Usage,
    /// Its answer could not be read.
    Unparsable,
    /// It would not open the repository.
    Refused,
}

/// A path failure's kind, as a word for a log line.
pub open spec fn path_word(err: PathError) -> Seq<char> {
    match err {
        PathError::Missing => "the folder is not there"@,
        PathError::Unreadable(_) => "the folder could not be read"@,
        PathError::NotADirectory => "the path is a file"@,
    }
}

/// A path failure's kind, as a word for a log line.
pub fn path_kind(err: &PathError) -> (out: &'static str)
    ensures
        out@ == path_word(*err),
{
    match err {
        PathError::Missing => "the folder is not there",
        PathError::Unreadable(_) => "the folder could not be read",
        PathError::NotADirectory => "the path is a file",
    }
}

/// A git failure's kind, as a word for a log line: never its own message, which names a path.
pub open spec fn git_word(err: GitError) -> Seq<char> {
    match err {
        GitError::Path(err) => path_word(err),
        GitError::NotInstalled => "git is not installed"@,
        GitError::Spawn => "git could not be started"@,
        GitError::TimedOut => "git ran past its deadline"@,
        GitError::Failed => "git reported a failure"@,
        GitError::Usage => "git refused the arguments"@,
        GitError::Unparsable => "git's answer could not be read"@,
        GitError::Refused => "git would not open the repository"@,
    }
}

/// A git failure's kind, as a word for a log line.
pub fn git_kind(err: &GitError) -> (out: &'static str)
    ensures
        out@ == git_word(*err),
{
    match err {
        GitError::Path(err) => path_kind(err),
        GitError::NotInstalled => "git is not installed",
        GitError::Spawn => "git could not be started",
        GitError::TimedOut => "git ran past its deadline",
        GitError::Failed => "git reported a failure",
        GitError::Usage => "git refused the arguments",
        GitError::Unparsable => "git's answer could not be read",
        GitError::Refused => "git would not open the repository",
    }
}

/// Why a folder is not registered, where that is about the folder. How each reads is the
/// wire's own.
#[derive(Debug)]
pub enum RegisterRefusal {
    /// It does not exist, or cannot be read.
    Unreadable,
    /// There is no repository in it.
    NotARepository,
    /// There are several, and a project is one.
    ManyRepositories {
        /// Their folders' names.
        found: Vec<String>,
    },
}

/// Why a folder is not registered.
#[derive(Debug)]
pub enum NotRegistered {
    /// Because of the folder.
    Folder(RegisterRefusal),
    /// Because of anything else.
    Refused(ErrorEnvelope),
}

/// What every project verb answers on a machine with no git.
pub open spec fn no_git() -> EnvelopeView {
    refusal(
        ErrorCode::Internal,
        "this machine has no `git` that Nysia can run"@,
        steps_of(
            "install git and restart the daemon; it resolves git once, at startup"@,
            seq![
                "a git installed after the daemon started is not picked up until it restarts"@,
                "`git --version` in a terminal is the same question this daemon asked"@,
            ],
        ),
    )
}

/// The answer every project verb owes on a machine with no git.
pub fn no_git_envelope() -> (out: ErrorEnvelope)
    ensures
        out@ == no_git(),
{
    envelope(
        ErrorCode::Internal,
        "this machine has no `git` that Nysia can run".to_owned(),
        "install git and restart the daemon; it resolves git once, at startup",
        &two(
            "a git installed after the daemon started is not picked up until it restarts",
            "`git --version` in a terminal is the same question this daemon asked",
        ),
    ).retryable(false)
}

/// What a git that ran and did not answer comes to.
pub open spec fn git_silent(err: GitError) -> EnvelopeView {
    EnvelopeView {
        retryable: true,
        ..refusal(
            ErrorCode::Internal,
            "git could not describe that folder: "@ + git_word(err),
            steps_of(
                "check that the folder opens in a terminal and that `git status` answers in it"@,
                seq!["a folder on a network share that has gone away is the usual cause"@],
            ),
        )
    }
}

/// The refusal a git failure becomes. Only a failed path is about the folder: a git that ran
/// and did not answer has not said that the folder is no repository.
pub fn git_refusal(err: &GitError) -> (out: NotRegistered)
    ensures
        match err {
            GitError::Path(_) => out == NotRegistered::Folder(RegisterRefusal::Unreadable),
            GitError::NotInstalled => out matches NotRegistered::Refused(envelope) && envelope@
                == no_git(),
            _ => out matches NotRegistered::Refused(envelope) && envelope@ == git_silent(*err),
        },
{
    match err {
        GitError::Path(_) => NotRegistered::Folder(RegisterRefusal::Unreadable),
        GitError::NotInstalled => NotRegistered::Refused(no_git_envelope()),
        _ => NotRegistered::Refused(
            envelope(
                ErrorCode::Internal,
                "git could not describe that folder: ".to_owned().concat(git_kind(err)),
                "check that the folder opens in a terminal and that `git status` answers in it",
                &one("a folder on a network share that has gone away is the usual cause"),
            ).retryable(true),
        ),
    }
}

/// What a store failure means to a caller registering or forgetting a project.
pub open spec fn store_failed(said: Seq<char>) -> EnvelopeView {
    EnvelopeView {
        retryable: true,
        ..refusal(
            ErrorCode::Internal,
            "the daemon could not record that project: "@ + said,
            steps_of(
                "retry the verb; nothing was written if it failed"@,
                seq!["check that the daemon's runtime directory is writable and not full"@],
            ),
        )
    }
}

/// What a store failure means to a caller registering or forgetting a project.
pub fn store_refusal(said: &str) -> (out: ErrorEnvelope)
    ensures
        out@ == store_failed(said@),
{
    envelope(
        ErrorCode::Internal,
        "the daemon could not record that project: ".to_owned().concat(said),
        "retry the verb; nothing was written if it failed",
        &one("check that the daemon's runtime directory is writable and not full"),
    ).retryable(true)
}

/// What a store failure means to a listing: one row that cannot be read fails the whole list,
/// because a list that quietly shortened itself would contradict the verb beside it.
pub open spec fn list_failed(said: Seq<char>) -> EnvelopeView {
    refusal(
        ErrorCode::Internal,
        "the daemon could not read its project list: "@ + said,
        steps_of(
            "stop the daemon and move that database file aside, then register the folders again"@,
            seq![
                "forgetting one project cannot fix this: the row that will not read is the one with no id to name it by"@,
                "nothing on disk is lost — a registration is a folder Nysia remembers, never a folder it owns"@,
            ],
        ),
    )
}

/// What a store failure means to a listing.
pub fn list_refusal(said: &str) -> (out: ErrorEnvelope)
    ensures
        out@ == list_failed(said@),
{
    envelope(
        ErrorCode::Internal,
        "the daemon could not read its project list: ".to_owned().concat(said),
        "stop the daemon and move that database file aside, then register the folders again",
        &two(
            "forgetting one project cannot fix this: the row that will not read is the one with no id to name it by",
            "nothing on disk is lost — a registration is a folder Nysia remembers, never a folder it owns",
        ),
    ).retryable(false)
}

/// What an id nothing is registered under answers.
pub open spec fn not_registered(id: Seq<char>) -> EnvelopeView {
    EnvelopeView {
        command: seq!["nysia"@, "project"@, "list"@],
        ..refusal(
            ErrorCode::UnknownProject,
            "no project is registered under "@ + id,
            steps_of(
                "run `nysia project list` to see the projects this daemon holds"@,
                seq!["forgetting a project that was already forgotten is not something to retry"@],
            ),
        )
    }
}

/// The answer for an id nothing is registered under.
pub fn unknown_project(id: &str) -> (out: ErrorEnvelope)
    ensures
        out@ == not_registered(id@),
{
    let args: Vec<String> = vec!["nysia".to_owned(), "project".to_owned(), "list".to_owned()];
    assert(views(args@) =~= seq!["nysia"@, "project"@, "list"@]);
    envelope(
        ErrorCode::UnknownProject,
        "no project is registered under ".to_owned().concat(id),
        "run `nysia project list` to see the projects this daemon holds",
        &one("forgetting a project that was already forgotten is not something to retry"),
    ).with_next_command_args(args)
}

/// What a listing that could not be run answers.
pub open spec fn not_run(detail: Seq<char>) -> EnvelopeView {
    EnvelopeView {
        retryable: true,
        ..refusal(
            ErrorCode::Internal,
            "the daemon failed while listing projects: "@ + detail,
            steps_of(
                "retry the verb"@,
                seq!["`nysia session list` will show whether the daemon is still serving"@],
            ),
        )
    }
}

/// The answer for a listing that could not be run.
pub fn joining(detail: &str) -> (out: ErrorEnvelope)
    ensures
        out@ == not_run(detail@),
{
    envelope(
        ErrorCode::Internal,
        "the daemon failed while listing projects: ".to_owned().concat(detail),
        "retry the verb",
        &one("`nysia session list` will show whether the daemon is still serving"),
    ).retryable(true)
}

/// A worktree, as git lists it.
#[derive(Debug)]
pub struct GitWorktree {
    /// The branch checked out in it; none for a detached head or a bare repository.
    pub branch: Option<String>,
    /// Its folder, where it is still there.
    pub canonical: Option<CanonicalPath>,
    /// Whether it is the checkout that holds the folder git was asked about.
    pub is_primary: bool,
}

/// What git says of a repository.
#[derive(Debug)]
pub struct Repository {
    /// Its worktrees, in git's own order.
    pub worktrees: Vec<GitWorktree>,
}

/// What there is in a folder that was offered.
#[derive(Debug)]
pub enum Folder {
    /// It is in a repository.
    Repository(Repository),
    /// It holds several.
    ManyRepositories {
        /// The name of each one's folder; none for one that has none.
        names: Vec<Option<String>>,
    },
    /// It holds none.
    NoRepository,
}

/// What resolving a folder, and then asking git about it, came to.
#[derive(Debug)]
pub enum Offered {
    /// It could not be resolved, and git was not asked.
    Unresolved(PathError),
    /// It was, and this is what git said.
    Inspected {
        /// The folder.
        requested: CanonicalPath,
        /// What is in it.
        folder: Result<Folder, GitError>,
    },
}

/// What the store is to record.
#[derive(Debug)]
pub struct Registration {
    /// The folder.
    pub path: CanonicalPath,
    /// What it is called.
    pub name: String,
    /// The group it is listed in.
    pub group: String,
}

/// A project, as the store holds it.
#[derive(Debug)]
pub struct StoredProject {
    /// Its id.
    pub id: String,
    /// What it is called.
    pub name: String,
    /// The group it is listed in.
    pub group: String,
}

/// A worktree, as a project lists it: keyed by its branch.
#[derive(Debug)]
pub struct Worktree {
    /// The branch.
    pub branch: String,
    /// Whether it is the checkout that was registered.
    pub is_primary: bool,
    /// What runs in it.
    pub sessions: Vec<SessionSummary>,
}

/// A worktree of a project, by value.
pub struct WorktreeView {
    /// The branch.
    pub branch: Seq<char>,
    /// Whether it is the checkout that was registered.
    pub is_primary: bool,
    /// What runs in it.
    pub sessions: Seq<SessionSummary>,
}

impl View for Worktree {
    type V = WorktreeView;

    open spec fn view(&self) -> WorktreeView {
        WorktreeView {
            branch: self.branch@,
            is_primary: self.is_primary,
            sessions: self.sessions@,
        }
    }
}

/// A project, with its live half.
#[derive(Debug)]
pub struct Project {
    /// Its id.
    pub id: String,
    /// What it is called.
    pub name: String,
    /// The group it is listed in.
    pub group: String,
    /// Its worktrees.
    pub worktrees: Vec<Worktree>,
}

impl Project {
    /// Its worktrees, by value.
    pub open spec fn listed(&self) -> Seq<WorktreeView> {
        self.worktrees@.map_values(|w: Worktree| w@)
    }

    /// Whether the stored half of it is that.
    pub open spec fn is_of(&self, stored: StoredProject) -> bool {
        self.id@ == stored.id@ && self.name@ == stored.name@ && self.group@ == stored.group@
    }
}

/// What a registration answered.
#[derive(Debug)]
pub struct ProjectRegistered {
    /// Whether the folder was registered already.
    pub already_registered: bool,
    /// The project.
    pub project: Project,
}

/// A folder's own name; none for the root of a file system.
pub open spec fn own_name(platform: Platform, folder: CanonicalPath) -> Option<Seq<char>> {
    let parts = folder.components@;
    if parts.len() == 0 || parts.last()@ == "/"@ || (platform == Platform::Windows && parts.last()@
        == "\\"@) {
        None
    } else {
        Some(parts.last()@)
    }
}

/// A folder's own name; none for the root of a file system.
pub fn folder_name(platform: Platform, folder: &CanonicalPath) -> (out: Option<String>)
    ensures
        match out {
            Some(name) => own_name(platform, *folder) == Some(name@),
            None => own_name(platform, *folder) is None,
        },
{
    let n: usize = folder.components.len();
    if n == 0 {
        return None;
    }
    let last = folder.components[n - 1].as_str();
    if same(last, "/") || (platform == Platform::Windows && same(last, "\\")) {
        None
    } else {
        Some(last.to_owned())
    }
}

/// The first worktree git marks as primary, or the number of worktrees.
pub open spec fn primary_at(worktrees: Seq<GitWorktree>) -> int
    decreases worktrees.len(),
{
    if worktrees.len() == 0 || worktrees[0].is_primary {
        0
    } else {
        1 + primary_at(worktrees.skip(1))
    }
}

/// The folder a registration is recorded against: the primary worktree's, or the one that was
/// offered where there is no such folder.
pub open spec fn root_of(worktrees: Seq<GitWorktree>, requested: CanonicalPath) -> CanonicalPath {
    let at = primary_at(worktrees);
    if at < worktrees.len() && worktrees[at].canonical is Some {
        worktrees[at].canonical->0
    } else {
        requested
    }
}

/// Which folder a registration is recorded against.
///
/// The repository, not the folder that was pointed at: one repository told in two spellings is
/// one project.
pub fn registration_root(repository: &Repository, requested: CanonicalPath) -> (out: CanonicalPath)
    ensures
        out.text@ == root_of(repository.worktrees@, requested).text@,
        views(out.components@) == views(root_of(repository.worktrees@, requested).components@),
{
    let worktrees = &repository.worktrees;
    let mut i: usize = 0;
    assert(worktrees@.skip(0) =~= worktrees@);
    while i < worktrees.len()
        invariant
            i <= worktrees.len(),
            worktrees@ == repository.worktrees@,
            primary_at(worktrees@) == i + primary_at(worktrees@.skip(i as int)),
        decreases worktrees.len() - i,
    {
        assert(worktrees@.skip(i as int).skip(1) =~= worktrees@.skip(i + 1));
        if worktrees[i].is_primary {
            return match &worktrees[i].canonical {
                Some(folder) => folder.clone(),
                None => requested,
            };
        }
        i = i + 1;
    }
    requested
}

/// The names that are there, in order.
pub open spec fn named(names: Seq<Option<String>>) -> Seq<Seq<char>>
    decreases names.len(),
{
    if names.len() == 0 {
        Seq::empty()
    } else {
        match names.last() {
            Some(name) => named(names.drop_last()).push(name@),
            None => named(names.drop_last()),
        }
    }
}

fn kept_names(names: Vec<Option<String>>) -> (out: Vec<String>)
    ensures
        views(out@) == named(names@),
{
    let ghost all = names@;
    let mut out: Vec<String> = Vec::new();
    assert(views(out@) =~= Seq::empty());
    assert(all.take(0) =~= Seq::empty());
    for name in each: names
        invariant
            each.seq() == all,
            views(out@) == named(all.take(each.index())),
    {
        let ghost before = views(out@);
        proof {
            let i = each.index();
            assert(all.take(i + 1).drop_last() =~= all.take(i));
            assert(all.take(i + 1).last() == all[i]);
        }
        if let Some(name) = name {
            let ghost kept = name@;
            out.push(name);
            assert(views(out@) =~= before.push(kept));
        }
    }
    assert(all.take(all.len() as int) =~= all);
    out
}

/// The folders of the worktrees that have one, in order.
pub open spec fn folders_of(worktrees: Seq<GitWorktree>) -> Seq<CanonicalPath>
    decreases worktrees.len(),
{
    if worktrees.len() == 0 {
        Seq::empty()
    } else {
        match worktrees.last().canonical {
            Some(folder) => folders_of(worktrees.drop_last()).push(folder),
            None => folders_of(worktrees.drop_last()),
        }
    }
}

/// The rows of the sessions that belong to `folder`, among `folders`.
pub open spec fn running_in(
    sessions: Seq<OwnedSession>,
    folder: CanonicalPath,
    folders: Seq<CanonicalPath>,
) -> Seq<SessionSummary> {
    sessions.filter(|s: OwnedSession| belongs(s, folder, folders)).map_values(
        |s: OwnedSession| row_of(s),
    )
}

/// The worktrees a project lists: those with a branch to be keyed by and a folder on disk, each
/// with the sessions it is the deepest of all the repository's worktrees for.
pub open spec fn composed(
    worktrees: Seq<GitWorktree>,
    sessions: Seq<OwnedSession>,
    folders: Seq<CanonicalPath>,
) -> Seq<WorktreeView>
    decreases worktrees.len(),
{
    if worktrees.len() == 0 {
        Seq::empty()
    } else {
        let before = composed(worktrees.drop_last(), sessions, folders);
        let last = worktrees.last();
        if last.branch is Some && last.canonical is Some {
            before.push(
                WorktreeView {
                    branch: last.branch->0@,
                    is_primary: last.is_primary,
                    sessions: running_in(sessions, last.canonical->0, folders),
                },
            )
        } else {
            before
        }
    }
}

/// A registered project as it reads when git has not described it: what is stored, and no
/// worktrees.
pub fn without_worktrees(stored: &StoredProject) -> (out: Project)
    ensures
        out.is_of(*stored),
        out.listed() == Seq::<WorktreeView>::empty(),
{
    let out = Project {
        id: stored.id.clone(),
        name: stored.name.clone(),
        group: stored.group.clone(),
        worktrees: Vec::new(),
    };
    assert(out.listed() =~= Seq::empty());
    out
}

/// Fill in a project's live half from what git found.
///
/// A worktree with no branch has no key and one with no folder has nothing to open, so neither
/// is listed. A folder still counts where its worktree is not listed: a session in it belongs
/// there, and not to the worktree around it.
pub fn compose(stored: &StoredProject, repository: &Repository, sessions: &SessionRegistry) -> (out:
    Project)
    ensures
        out.is_of(*stored),
        out.listed() == composed(
            repository.worktrees@,
            sessions.all(),
            folders_of(repository.worktrees@),
        ),
{
    let folders = folders_in(repository);
    let ghost all = repository.worktrees@;
    let mut project = without_worktrees(stored);
    let mut worktrees: Vec<Worktree> = Vec::new();
    let mut i: usize = 0;
    let ghost view = |w: Worktree| w@;
    proof {
        assert(all.take(0) =~= Seq::empty());
        assert(worktrees@.map_values(view) =~= Seq::empty());
    }
    while i < repository.worktrees.len()
        invariant
            i <= repository.worktrees.len(),
            all == repository.worktrees@,
            same_folders(folders@, folders_of(all)),
            view == (|w: Worktree| w@),
            worktrees@.map_values(view) == composed(
                all.take(i as int),
                sessions.all(),
                folders_of(all),
            ),
        decreases repository.worktrees.len() - i,
    {
        proof {
            assert(all.take(i + 1).drop_last() =~= all.take(i as int));
            assert(all.take(i + 1).last() == all[i as int]);
        }
        let worktree = &repository.worktrees[i];
        if let Some(branch) = &worktree.branch {
            if let Some(folder) = &worktree.canonical {
                let ghost before = worktrees@.map_values(view);
                let rows = sessions.summaries_under(folder, &folders);
                proof {
                    lemma_running_in(sessions.all(), *folder, folders@, folders_of(all));
                }
                worktrees.push(
                    Worktree {
                        branch: branch.clone(),
                        is_primary: worktree.is_primary,
                        sessions: rows,
                    },
                );
                assert(worktrees@.map_values(view) =~= before.push(worktrees@.last()@));
            }
        }
        i = i + 1;
    }
    assert(all.take(i as int) =~= all);
    project.worktrees = worktrees;
    project
}

/// Whether two lists hold the same folders, by what they are spelled.
pub open spec fn same_folders(a: Seq<CanonicalPath>, b: Seq<CanonicalPath>) -> bool {
    &&& a.len() == b.len()
    &&& forall|i: int|
        #![trigger a[i]]
        #![trigger b[i]]
        0 <= i < a.len() ==> a[i].text@ == b[i].text@ && views(a[i].components@) == views(
            b[i].components@,
        )
}

fn folders_in(repository: &Repository) -> (out: Vec<CanonicalPath>)
    ensures
        same_folders(out@, folders_of(repository.worktrees@)),
{
    let ghost all = repository.worktrees@;
    let mut out: Vec<CanonicalPath> = Vec::new();
    let mut i: usize = 0;
    assert(all.take(0) =~= Seq::empty());
    while i < repository.worktrees.len()
        invariant
            i <= repository.worktrees.len(),
            all == repository.worktrees@,
            same_folders(out@, folders_of(all.take(i as int))),
        decreases repository.worktrees.len() - i,
    {
        proof {
            assert(all.take(i + 1).drop_last() =~= all.take(i as int));
            assert(all.take(i + 1).last() == all[i as int]);
        }
        if let Some(folder) = &repository.worktrees[i].canonical {
            out.push(folder.clone());
        }
        i = i + 1;
    }
    assert(all.take(i as int) =~= all);
    out
}

proof fn lemma_holds(a: CanonicalPath, b: CanonicalPath, cwd: CanonicalPath)
    requires
        views(a.components@) == views(b.components@),
    ensures
        a.holds(&cwd) == b.holds(&cwd),
        a.components@.len() == b.components@.len(),
{
    let (x, y) = (views(a.components@), views(b.components@));
    assert(x.len() == a.components@.len() && y.len() == b.components@.len());
    assert forall|i: int| 0 <= i < a.components@.len() implies (#[trigger] a.components@[i])@
        == b.components@[i]@ by {
        assert(x[i] == a.components@[i]@ && y[i] == b.components@[i]@);
    }
    assert forall|i: int| 0 <= i < b.components@.len() implies (#[trigger] b.components@[i])@
        == a.components@[i]@ by {
        assert(x[i] == a.components@[i]@ && y[i] == b.components@[i]@);
    }
}

proof fn lemma_deepest(a: Seq<CanonicalPath>, b: Seq<CanonicalPath>, cwd: CanonicalPath, at: int)
    requires
        same_folders(a, b),
        deepest(a, cwd, at),
    ensures
        deepest(b, cwd, at),
{
    assert forall|i: int| 0 <= i < a.len() implies (#[trigger] a[i]).holds(&cwd) == b[i].holds(&cwd)
        && a[i].components@.len() == b[i].components@.len() by {
        lemma_holds(a[i], b[i], cwd);
    }
    assert forall|i: int| 0 <= i < b.len() implies (#[trigger] b[i]).holds(&cwd) == a[i].holds(&cwd)
        && a[i].components@.len() == b[i].components@.len() by {
        lemma_holds(a[i], b[i], cwd);
    }
}

proof fn lemma_running_in(
    sessions: Seq<OwnedSession>,
    folder: CanonicalPath,
    a: Seq<CanonicalPath>,
    b: Seq<CanonicalPath>,
)
    requires
        same_folders(a, b),
    ensures
        running_in(sessions, folder, a) == running_in(sessions, folder, b),
{
    let p = |s: OwnedSession| belongs(s, folder, a);
    let q = |s: OwnedSession| belongs(s, folder, b);
    assert forall|s: OwnedSession| #[trigger] p(s) == q(s) by {
        if p(s) {
            let at = choose|at: int| #[trigger]
                deepest(a, s.cwd->0, at) && a[at].text@ == folder.text@;
            lemma_deepest(a, b, s.cwd->0, at);
        }
        if q(s) {
            let at = choose|at: int| #[trigger]
                deepest(b, s.cwd->0, at) && b[at].text@ == folder.text@;
            lemma_deepest(b, a, s.cwd->0, at);
        }
    }
    assert(p =~= q);
}

/// What asking the store to record a registration answered.
#[derive(Debug)]
pub struct Recorded {
    /// Whether the folder was registered already.
    pub already_registered: bool,
    /// The project, as the store holds it.
    pub project: StoredProject,
}

/// Why a listing has no rows to work from.
#[derive(Debug)]
pub enum NotListed {
    /// The store could not be read; the text is the store's.
    Store(String),
    /// The listing could not be run; the text says why.
    NotRun(String),
}

/// What forgetting a registration came to.
#[derive(Debug)]
pub enum Forgotten {
    /// It is gone.
    Removed,
    /// Nothing was registered under that id.
    Unknown,
    /// The store refused; the text is the store's.
    Failed(String),
}

/// The project verbs of one daemon, which may or may not have found a git to run.
#[derive(Debug)]
pub struct ProjectService {
    git: bool,
}

impl ProjectService {
    /// Whether there is a git to run.
    pub closed spec fn has_git(&self) -> bool {
        self.git
    }

    /// Serve projects with, or without, a git to run. A daemon with none still starts.
    pub fn new(git: bool) -> (out: ProjectService)
        ensures
            out.has_git() == git,
    {
        ProjectService { git }
    }

    /// What every project verb answers where there is no git to run.
    pub fn git(&self) -> (out: Result<(), ErrorEnvelope>)
        ensures
            out is Ok <==> self.has_git(),
            out matches Err(envelope) ==> envelope@ == no_git(),
    {
        if self.git {
            Ok(())
        } else {
            Err(no_git_envelope())
        }
    }

    /// Decide what registering an offered folder asks of the store, or why it is not
    /// registered. What git said comes back beside it, for the answer.
    ///
    /// A folder of several repositories registers none of them.
    pub fn registration(&self, platform: Platform, group: &str, offered: Offered) -> (out: Result<
        (Registration, Repository),
        NotRegistered,
    >)
        ensures
            if !self.has_git() {
                out matches Err(NotRegistered::Refused(envelope)) && envelope@ == no_git()
            } else {
                match offered {
                    Offered::Unresolved(_) => out == Err::<(Registration, Repository), NotRegistered>(
                        NotRegistered::Folder(RegisterRefusal::Unreadable),
                    ),
                    Offered::Inspected { requested, folder: Ok(Folder::Repository(repository)) } => {
                        let root = root_of(repository.worktrees@, requested);
                        &&& out is Ok
                        &&& out->Ok_0.1 == repository
                        &&& out->Ok_0.0.path.text@ == root.text@
                        &&& views(out->Ok_0.0.path.components@) == views(root.components@)
                        &&& out->Ok_0.0.name@ == (match own_name(platform, root) {
                            Some(name) => name,
                            None => root.text@,
                        })
                        &&& out->Ok_0.0.group@ == group@
                    },
                    Offered::Inspected {
                        requested: _,
                        folder: Ok(Folder::ManyRepositories { names }),
                    } => out matches Err(
                        NotRegistered::Folder(RegisterRefusal::ManyRepositories { found }),
                    ) && views(found@) == named(names@),
                    Offered::Inspected { requested: _, folder: Ok(Folder::NoRepository) } => out
                        == Err::<(Registration, Repository), NotRegistered>(
                        NotRegistered::Folder(RegisterRefusal::NotARepository),
                    ),
                    Offered::Inspected { requested: _, folder: Err(err) } => match err {
                        GitError::Path(_) => out == Err::<
                            (Registration, Repository),
                            NotRegistered,
                        >(NotRegistered::Folder(RegisterRefusal::Unreadable)),
                        GitError::NotInstalled => out matches Err(NotRegistered::Refused(envelope))
                            && envelope@ == no_git(),
                        _ => out matches Err(NotRegistered::Refused(envelope)) && envelope@
                            == git_silent(err),
                    },
                }
            },
    {
        if let Err(envelope) = self.git() {
            return Err(NotRegistered::Refused(envelope));
        }
        match offered {
            Offered::Unresolved(_) => Err(NotRegistered::Folder(RegisterRefusal::Unreadable)),
            Offered::Inspected { requested, folder } => match folder {
                Ok(Folder::Repository(repository)) => {
                    let root = registration_root(&repository, requested);
                    let ghost known = root_of(repository.worktrees@, requested);
                    proof {
                        assert(views(root.components@).len() == root.components@.len());
                        assert(views(known.components@).len() == known.components@.len());
                        if root.components@.len() > 0 {
                            let n = root.components@.len() - 1;
                            assert(views(root.components@)[n] == root.components@[n]@);
                            assert(views(known.components@)[n] == known.components@[n]@);
                        }
                    }
                    let name = match folder_name(platform, &root) {
                        Some(name) => name,
                        None => root.text.clone(),
                    };
                    Ok((Registration { path: root, name, group: group.to_owned() }, repository))
                },
                Ok(Folder::ManyRepositories { names }) => Err(
                    NotRegistered::Folder(
                        RegisterRefusal::ManyRepositories { found: kept_names(names) },
                    ),
                ),
                Ok(Folder::NoRepository) => Err(
                    NotRegistered::Folder(RegisterRefusal::NotARepository),
                ),
                Err(err) => Err(git_refusal(&err)),
            },
        }
    }

    /// Answer a registration, given what the store did with it.
    pub fn register(
        &self,
        recorded: Result<Recorded, String>,
        repository: &Repository,
        sessions: &SessionRegistry,
    ) -> (out: Result<ProjectRegistered, ErrorEnvelope>)
        ensures
            match recorded {
                Ok(recorded) => out matches Ok(registered) && registered.already_registered
                    == recorded.already_registered && registered.project.is_of(recorded.project)
                    && registered.project.listed() == composed(
                    repository.worktrees@,
                    sessions.all(),
                    folders_of(repository.worktrees@),
                ),
                Err(said) => out matches Err(envelope) && envelope@ == store_failed(said@),
            },
    {
        match recorded {
            Ok(recorded) => Ok(
                ProjectRegistered {
                    already_registered: recorded.already_registered,
                    project: compose(&recorded.project, repository, sessions),
                },
            ),
            Err(said) => Err(store_refusal(said.as_str())),
        }
    }

    /// One stored project with what git says about it, or `None` when git will not say: it is
    /// no repository any more, or there is no telling.
    pub fn reached(&self, stored: &StoredProject, offered: Offered, sessions: &SessionRegistry) -> (out:
        Option<Project>)
        ensures
            match offered {
                Offered::Inspected {
                    requested: _,
                    folder: Ok(Folder::Repository(repository)),
                } if self.has_git() => out matches Some(project) && project.is_of(*stored)
                    && project.listed() == composed(
                    repository.worktrees@,
                    sessions.all(),
                    folders_of(repository.worktrees@),
                ),
                _ => out is None,
            },
    {
        if !self.git {
            return None;
        }
        match offered {
            Offered::Inspected { requested: _, folder: Ok(Folder::Repository(repository)) } => Some(
                compose(stored, &repository, sessions),
            ),
            _ => None,
        }
    }

    /// Every registered project, each with what [`ProjectService::reached`] made of it within
    /// its own deadline. One that could not be reached is listed still, with no worktrees.
    pub fn list(&self, rows: Result<Vec<(StoredProject, Option<Project>)>, NotListed>) -> (out: Result<
        Vec<Project>,
        ErrorEnvelope,
    >)
        ensures
            match rows {
                Ok(rows) => out matches Ok(projects) && projects@.len() == rows@.len() && (
                forall|i: int|
                    0 <= i < rows@.len() ==> match (#[trigger] rows@[i]).1 {
                        Some(project) => projects@[i] == project,
                        None => projects@[i].is_of(rows@[i].0) && projects@[i].listed() == Seq::<
                            WorktreeView,
                        >::empty(),
                    }),
                Err(NotListed::Store(said)) => out matches Err(envelope) && envelope@
                    == list_failed(said@),
                Err(NotListed::NotRun(said)) => out matches Err(envelope) && envelope@ == not_run(
                    said@,
                ),
            },
    {
        let rows = match rows {
            Ok(rows) => rows,
            Err(NotListed::Store(said)) => {
                return Err(list_refusal(said.as_str()));
            },
            Err(NotListed::NotRun(said)) => {
                return Err(joining(said.as_str()));
            },
        };
        let ghost all = rows@;
        let mut projects: Vec<Project> = Vec::new();
        for row in each: rows
            invariant
                each.seq() == all,
                projects@.len() == each.index(),
                forall|i: int|
                    0 <= i < each.index() ==> match (#[trigger] all[i]).1 {
                        Some(project) => projects@[i] == project,
                        None => projects@[i].is_of(all[i].0) && projects@[i].listed() == Seq::<
                            WorktreeView,
                        >::empty(),
                    },
        {
            let (stored, reached) = row;
            match reached {
                Some(project) => projects.push(project),
                None => projects.push(without_worktrees(&stored)),
            }
        }
        Ok(projects)
    }

    /// Answer a forget, given what the store did. An id nothing is registered under is an
    /// error: whoever sent it believes something is there.
    pub fn forget(&self, id: &str, forgotten: Forgotten) -> (out: Result<(), ErrorEnvelope>)
        ensures
            match forgotten {
                Forgotten::Removed => out is Ok,
                Forgotten::Unknown => out matches Err(envelope) && envelope@ == not_registered(id@),
                Forgotten::Failed(said) => out matches Err(envelope) && envelope@ == store_failed(
                    said@,
                ),
            },
    {
        match forgotten {
            Forgotten::Removed => Ok(()),
            Forgotten::Unknown => Err(unknown_project(id)),
            Forgotten::Failed(said) => Err(store_refusal(said.as_str())),
        }
    }
}

/// One repository told in two spellings is recorded against one folder, where its primary
/// worktree has one.
pub proof fn law_two_spellings_of_a_repository_are_one_project(
    worktrees: Seq<GitWorktree>,
    one: CanonicalPath,
    two: CanonicalPath,
)
    requires
        primary_at(worktrees) < worktrees.len(),
        worktrees[primary_at(worktrees)].canonical is Some,
    ensures
        root_of(worktrees, one) == root_of(worktrees, two),
{
}

/// Every worktree a project lists is one git listed, with the branch it is keyed by.
pub proof fn law_a_listed_worktree_has_a_branch_of_its_own(
    worktrees: Seq<GitWorktree>,
    sessions: Seq<OwnedSession>,
    folders: Seq<CanonicalPath>,
    i: int,
)
    requires
        0 <= i < composed(worktrees, sessions, folders).len(),
    ensures
        exists|j: int|
            0 <= j < worktrees.len() && (#[trigger] worktrees[j]).branch is Some
                && worktrees[j].canonical is Some && worktrees[j].branch->0@ == composed(
                worktrees,
                sessions,
                folders,
            )[i].branch,
    decreases worktrees.len(),
{
    let rest = worktrees.drop_last();
    let before = composed(rest, sessions, folders);
    if i < before.len() {
        law_a_listed_worktree_has_a_branch_of_its_own(rest, sessions, folders, i);
        let j = choose|j: int|
            0 <= j < rest.len() && (#[trigger] rest[j]).branch is Some && rest[j].canonical is Some
                && rest[j].branch->0@ == before[i].branch;
        assert(worktrees[j] == rest[j]);
    } else {
        assert(worktrees[worktrees.len() - 1] == worktrees.last());
    }
}

/// A folder is called by its last component, unless that is the root of its platform.
pub proof fn law_a_folder_is_called_by_its_last_component(
    platform: Platform,
    folder: CanonicalPath,
)
    ensures
        folder.components@.len() == 0 ==> own_name(platform, folder) is None,
        own_name(platform, folder) matches Some(name) ==> folder.components@.len() > 0 && name
            == folder.components@[folder.components@.len() - 1]@,
        folder.components@.len() > 0 && folder.components@.last()@ != "/"@
            && folder.components@.last()@ != "\\"@ ==> own_name(platform, folder) is Some,
        folder.components@.len() > 0 && folder.components@.last()@ == "/"@ ==> own_name(
            platform,
            folder,
        ) is None,
        folder.components@.len() > 0 && folder.components@.last()@ == "\\"@ ==> (own_name(
            platform,
            folder,
        ) is None <==> platform == Platform::Windows),
{
    reveal_strlit("/");
    reveal_strlit("\\");
    assert("/"@[0] != "\\"@[0]);
}

/// The checkout that holds a folder is the first that git says does, if any.
pub proof fn law_the_primary_checkout_is_the_first(worktrees: Seq<GitWorktree>, i: int)
    requires
        0 <= i < worktrees.len(),
    ensures
        0 <= primary_at(worktrees) <= worktrees.len(),
        primary_at(worktrees) < worktrees.len() ==> worktrees[primary_at(worktrees)].is_primary,
        i < primary_at(worktrees) ==> !worktrees[i].is_primary,
    decreases worktrees.len(),
{
    if !worktrees[0].is_primary {
        let rest = worktrees.skip(1);
        if rest.len() > 0 {
            let k = if i > 0 {
                i - 1
            } else {
                0
            };
            law_the_primary_checkout_is_the_first(rest, k);
            assert(i > 0 ==> rest[i - 1] == worktrees[i]);
            let at = primary_at(rest);
            assert(at < rest.len() ==> rest[at] == worktrees[at + 1]);
        } else {
            assert(primary_at(rest) == 0);
        }
    }
}

/// A project is the folder of the checkout that holds what was asked for, wherever in it that
/// was; only where git knows of none, or its folder is gone, is it what was asked for.
pub proof fn law_a_project_is_its_checkouts_folder(
    worktrees: Seq<GitWorktree>,
    requested: CanonicalPath,
    at: int,
)
    requires
        0 <= at < worktrees.len(),
        worktrees[at].is_primary,
        forall|i: int| 0 <= i < at ==> !(#[trigger] worktrees[i]).is_primary,
    ensures
        worktrees[at].canonical matches Some(folder) ==> root_of(worktrees, requested) == folder,
        worktrees[at].canonical is None ==> root_of(worktrees, requested) == requested,
{
    law_the_primary_checkout_is_the_first(worktrees, at);
    let p = primary_at(worktrees);
    if p < at {
        assert(!worktrees[p].is_primary);
    }
}

/// Where no checkout holds it, a project is the folder that was asked for.
pub proof fn law_without_a_checkout_a_project_is_what_was_asked_for(
    worktrees: Seq<GitWorktree>,
    requested: CanonicalPath,
)
    requires
        forall|i: int| 0 <= i < worktrees.len() ==> !(#[trigger] worktrees[i]).is_primary,
    ensures
        root_of(worktrees, requested) == requested,
{
    if worktrees.len() > 0 {
        law_the_primary_checkout_is_the_first(worktrees, 0);
    }
}

/// Every repository that has a name is named, in its order, and none that has not.
pub proof fn law_every_named_repository_is_named(names: Seq<Option<String>>, name: String)
    ensures
        named(names.push(Some(name))) == named(names).push(name@),
        named(names.push(None)) == named(names),
        named(Seq::empty()).len() == 0,
{
    assert(names.push(Some(name)).drop_last() =~= names);
    assert(names.push(None).drop_last() =~= names);
}

/// Every checkout whose folder is there counts as a folder, in git's own order, and no other.
pub proof fn law_every_checkout_that_is_there_is_a_folder(
    worktrees: Seq<GitWorktree>,
    one: GitWorktree,
)
    ensures
        one.canonical matches Some(folder) ==> folders_of(worktrees.push(one)) == folders_of(
            worktrees,
        ).push(folder),
        one.canonical is None ==> folders_of(worktrees.push(one)) == folders_of(worktrees),
        folders_of(Seq::empty()).len() == 0,
{
    assert(worktrees.push(one).drop_last() =~= worktrees);
}

/// A checkout with a branch and a folder is listed with that branch, behind those before it, and
/// with the sessions that run in it; one without either is not listed and changes nothing.
pub proof fn law_a_checkout_is_listed_with_its_branch(
    worktrees: Seq<GitWorktree>,
    sessions: Seq<OwnedSession>,
    folders: Seq<CanonicalPath>,
    one: GitWorktree,
)
    ensures
        one.branch is Some && one.canonical is Some ==> ({
            let rows = composed(worktrees.push(one), sessions, folders);
            &&& rows.len() == composed(worktrees, sessions, folders).len() + 1
            &&& rows.drop_last() == composed(worktrees, sessions, folders)
            &&& rows.last().branch == one.branch->0@
            &&& rows.last().is_primary == one.is_primary
            &&& forall|s: int|
                0 <= s < sessions.len() && belongs(#[trigger] sessions[s], one.canonical->0, folders)
                    ==> rows.last().sessions.contains(row_of(sessions[s]))
            &&& forall|k: int|
                0 <= k < rows.last().sessions.len() ==> is_row_of_one_in(
                    #[trigger] rows.last().sessions[k],
                    sessions,
                    one.canonical->0,
                    folders,
                )
        }),
        one.branch is None || one.canonical is None ==> composed(
            worktrees.push(one),
            sessions,
            folders,
        ) == composed(worktrees, sessions, folders),
        composed(Seq::empty(), sessions, folders).len() == 0,
{
    assert(worktrees.push(one).drop_last() =~= worktrees);
    if one.branch is Some && one.canonical is Some {
        let folder = one.canonical->0;
        let rows = composed(worktrees.push(one), sessions, folders);
        assert(rows.drop_last() =~= composed(worktrees, sessions, folders));
        let inside = |s: OwnedSession| belongs(s, folder, folders);
        let kept = sessions.filter(inside);
        let shown = rows.last().sessions;
        assert(shown == kept.map_values(|s: OwnedSession| row_of(s)));
        assert forall|s: int|
            0 <= s < sessions.len() && belongs(
                #[trigger] sessions[s],
                folder,
                folders,
            ) implies shown.contains(row_of(sessions[s])) by {
            sessions.lemma_filter_contains(inside, s);
            let k = choose|k: int| 0 <= k < kept.len() && kept[k] == sessions[s];
            assert(shown[k] == row_of(sessions[s]));
        }
        assert forall|k: int| 0 <= k < shown.len() implies is_row_of_one_in(
            #[trigger] shown[k],
            sessions,
            folder,
            folders,
        ) by {
            sessions.lemma_filter_pred(inside, k);
            assert(belongs(kept[k], folder, folders));
            assert(sessions.contains(kept[k])) by {
                lemma_filtered_was_there(sessions, inside, k);
            }
            let s = choose|s: int| 0 <= s < sessions.len() && sessions[s] == kept[k];
            assert(row_of(sessions[s]) == shown[k]);
        }
    }
}

/// A row that shows one of the sessions that belong to a folder.
pub open spec fn is_row_of_one_in(
    row: SessionSummary,
    sessions: Seq<OwnedSession>,
    folder: CanonicalPath,
    folders: Seq<CanonicalPath>,
) -> bool {
    exists|s: int|
        0 <= s < sessions.len() && belongs(#[trigger] sessions[s], folder, folders) && row_of(
            sessions[s],
        ) == row
}

proof fn lemma_filtered_was_there(
    all: Seq<OwnedSession>,
    p: spec_fn(OwnedSession) -> bool,
    k: int,
)
    requires
        0 <= k < all.filter(p).len(),
    ensures
        all.contains(all.filter(p)[k]),
    decreases all.len(),
{
    reveal(Seq::filter);
    if all.len() > 0 {
        let head = all.drop_last();
        if k < head.filter(p).len() {
            lemma_filtered_was_there(head, p, k);
            let i = choose|i: int| 0 <= i < head.len() && head[i] == head.filter(p)[k];
            assert(all[i] == all.filter(p)[k]);
        } else {
            assert(all[all.len() - 1] == all.filter(p)[k]);
        }
    }
}

/// Each way that a folder cannot be read is told apart from the others, and git's own ways too.
pub proof fn law_each_cause_has_its_word(a: GitError, b: GitError, p: PathError, q: PathError)
    ensures
        path_word(p) == path_word(q) ==> (p is Missing <==> q is Missing) && (p is Unreadable
            <==> q is Unreadable),
        git_word(GitError::Path(p)) == path_word(p),
        !(a is Path) && !(b is Path) && git_word(a) == git_word(b) ==> a == b,
{
    reveal_strlit("the folder is not there");
    reveal_strlit("the folder could not be read");
    reveal_strlit("the path is a file");
    reveal_strlit("git is not installed");
    reveal_strlit("git could not be started");
    reveal_strlit("git ran past its deadline");
    reveal_strlit("git reported a failure");
    reveal_strlit("git refused the arguments");
    reveal_strlit("git's answer could not be read");
    reveal_strlit("git would not open the repository");
    assert("the folder is not there"@.len() == 23);
    assert("the folder could not be read"@.len() == 28);
    assert("the path is a file"@.len() == 18);
    assert("git is not installed"@.len() == 20);
    assert("git could not be started"@.len() == 24);
    assert("git ran past its deadline"@.len() == 25);
    assert("git reported a failure"@.len() == 22);
    assert("git refused the arguments"@.len() == 25);
    assert("git's answer could not be read"@.len() == 30);
    assert("git would not open the repository"@.len() == 33);
    assert("git ran past its deadline"@[5] == 'a' && "git refused the arguments"@[5] == 'e');
}

/// Each failure says what it came from and whether to try again: what the store or git may yet
/// do is worth another try, a list that cannot be read and a project that is not there are not.
pub proof fn law_a_project_failure_says_what_to_do(said: Seq<char>, err: GitError)
    ensures
        !no_git().retryable && no_git().code == ErrorCode::Internal,
        git_silent(err).retryable && git_silent(err).code == ErrorCode::Internal,
        git_silent(err).message.skip(git_silent(err).message.len() - git_word(err).len())
            == git_word(err),
        store_failed(said).retryable && store_failed(said).code == ErrorCode::Internal,
        store_failed(said).message.skip(store_failed(said).message.len() - said.len()) == said,
        !list_failed(said).retryable && list_failed(said).code == ErrorCode::Internal,
        list_failed(said).message.skip(list_failed(said).message.len() - said.len()) == said,
        !not_registered(said).retryable && not_registered(said).code == ErrorCode::UnknownProject,
        not_registered(said).message.skip(not_registered(said).message.len() - said.len()) == said,
        not_registered(said).command == seq!["nysia"@, "project"@, "list"@],
        not_run(said).retryable && not_run(said).code == ErrorCode::Internal,
        not_run(said).message.skip(not_run(said).message.len() - said.len()) == said,
{
    let word = git_word(err);
    assert(git_silent(err).message.skip(git_silent(err).message.len() - word.len()) =~= word);
    assert(store_failed(said).message.skip(store_failed(said).message.len() - said.len()) =~= said);
    assert(list_failed(said).message.skip(list_failed(said).message.len() - said.len()) =~= said);
    assert(not_registered(said).message.skip(not_registered(said).message.len() - said.len())
        =~= said);
    assert(not_run(said).message.skip(not_run(said).message.len() - said.len()) =~= said);
}

/// The sessions in a folder are those that belong to it, each once and in the order they are
/// held in.
pub proof fn law_a_session_is_shown_where_it_belongs(
    sessions: Seq<OwnedSession>,
    one: OwnedSession,
    folder: CanonicalPath,
    folders: Seq<CanonicalPath>,
)
    ensures
        belongs(one, folder, folders) ==> running_in(sessions.push(one), folder, folders)
            == running_in(sessions, folder, folders).push(row_of(one)),
        !belongs(one, folder, folders) ==> running_in(sessions.push(one), folder, folders)
            == running_in(sessions, folder, folders),
        running_in(Seq::empty(), folder, folders).len() == 0,
{
    reveal(Seq::filter);
    let inside = |s: OwnedSession| belongs(s, folder, folders);
    assert(sessions.push(one).drop_last() =~= sessions);
    assert(sessions.push(one).last() == one);
    let none = Seq::<OwnedSession>::empty();
    assert(none.filter(inside) =~= none);
    if belongs(one, folder, folders) {
        assert(sessions.push(one).filter(inside) == sessions.filter(inside).push(one));
        assert(running_in(sessions.push(one), folder, folders) =~= running_in(
            sessions,
            folder,
            folders,
        ).push(row_of(one)));
    } else {
        assert(sessions.push(one).filter(inside) == sessions.filter(inside));
    }
}

/// A project is the one that is stored if it has its id, its name and its group.
pub proof fn law_a_project_is_the_one_that_is_stored(project: Project, stored: StoredProject)
    ensures
        project.is_of(stored) <==> project.id@ == stored.id@ && project.name@ == stored.name@
            && project.group@ == stored.group@,
{
}

} // verus!
