//! A project's issues, queried live.
//!
//! One success and several refusals, each with its own words: a repository with no issues and a
//! token that has expired must not read the same. No message names a path or a repository.
use vstd::prelude::*;
use crate::errors::{envelope, one, steps_of, two};
use crate::text::{
    ascii_lower, eq_ignoring_case, law_only_the_case_of_letters_is_ignored, same_ignoring_case,
    views,
};
use crate::wire::{refusal, EnvelopeView, ErrorCode, ErrorEnvelope};

verus! {

/// What an invocation of the GitHub CLI that gave no list amounted to.
#[derive(Clone, Copy, Debug, PartialEq, Eq, Structural)]
pub enum GhFailure {
    /// It is not installed.
    NotInstalled,
    /// It is installed and would not start.
    CouldNotRun,
    /// It has no credentials for the repository.
    Unauthenticated,
    /// The folder has no GitHub repository.
    NoRepository,
    /// GitHub did not answer.
    QueryFailed,
    /// Its answer could not be read.
    Unreadable,
}

/// What a machine with no GitHub CLI answers.
pub open spec fn no_gh() -> EnvelopeView {
    refusal(
        ErrorCode::GhMissing,
        "the GitHub CLI is not installed, so issues cannot be listed"@,
        steps_of(
            "install the GitHub CLI from https://cli.github.com"@,
            seq![
                "then run `gh auth login` to sign in"@,
                "tasks are GitHub Issues queried live, so Nysia has no copy to show instead"@,
            ],
        ),
    )
}

/// The answer for a machine with no GitHub CLI.
pub fn gh_missing() -> (out: ErrorEnvelope)
    ensures
        out@ == no_gh(),
{
    envelope(
        ErrorCode::GhMissing,
        "the GitHub CLI is not installed, so issues cannot be listed".to_owned(),
        "install the GitHub CLI from https://cli.github.com",
        &two(
            "then run `gh auth login` to sign in",
            "tasks are GitHub Issues queried live, so Nysia has no copy to show instead",
        ),
    )
}

/// What a reply that could not be read answers.
pub open spec fn unread() -> EnvelopeView {
    refusal(
        ErrorCode::QueryFailed,
        "the GitHub CLI's answer could not be read"@,
        steps_of(
            "check that `gh` is recent enough to support `gh issue list --json`"@,
            seq![
                "`gh --version` reports the installed version"@,
                "a very large issue list can also exceed what the daemon will read in one answer"@,
            ],
        ),
    )
}

/// The answer for a reply that could not be read.
pub fn unreadable() -> (out: ErrorEnvelope)
    ensures
        out@ == unread(),
{
    envelope(
        ErrorCode::QueryFailed,
        "the GitHub CLI's answer could not be read".to_owned(),
        "check that `gh` is recent enough to support `gh issue list --json`",
        &two(
            "`gh --version` reports the installed version",
            "a very large issue list can also exceed what the daemon will read in one answer",
        ),
    )
}

/// What a failed invocation says to a person.
pub open spec fn gh_said(failure: GhFailure) -> EnvelopeView {
    match failure {
        GhFailure::NotInstalled => no_gh(),
        GhFailure::CouldNotRun => refusal(
            ErrorCode::QueryFailed,
            "the GitHub CLI is installed and would not start"@,
            steps_of(
                "check that `gh --version` runs in a terminal"@,
                seq![
                    "a policy or an antivirus that blocks new processes stops it here"@,
                    "an installation part-way through an upgrade resolves and does not launch"@,
                ],
            ),
        ),
        GhFailure::Unauthenticated => EnvelopeView {
            command: seq!["gh"@, "auth"@, "login"@],
            ..refusal(
                ErrorCode::GhUnauthenticated,
                "the GitHub CLI has no credentials for this repository"@,
                steps_of(
                    "run `gh auth login` to sign in"@,
                    seq![
                        "if you signed in before, the token may have expired; sign in again"@,
                        "`gh auth status` shows which account the CLI is using"@,
                    ],
                ),
            )
        },
        GhFailure::NoRepository => refusal(
            ErrorCode::QueryFailed,
            "this project has no GitHub repository to list issues from"@,
            steps_of(
                "check the project's folder is a git repository with a GitHub remote"@,
                seq![
                    "a repository that has never been pushed has no remote to query"@,
                    "`git remote -v` in the project's folder shows what is configured"@,
                ],
            ),
        ),
        GhFailure::QueryFailed => EnvelopeView {
            retryable: true,
            ..refusal(
                ErrorCode::QueryFailed,
                "GitHub did not answer the issue query"@,
                steps_of(
                    "check your network connection and try again"@,
                    seq![
                        "if you are signed in and online, GitHub may be rate-limiting you"@,
                        "a repository that was renamed or deleted answers the same way"@,
                    ],
                ),
            )
        },
        GhFailure::Unreadable => unread(),
    }
}

/// What a failed invocation says to a person.
///
/// Only a query GitHub did not answer is worth sending again: waiting fixes no token, no
/// missing repository and no program that will not start.
pub fn gh_refusal(failure: GhFailure) -> (out: ErrorEnvelope)
    ensures
        out@ == gh_said(failure),
{
    match failure {
        GhFailure::NotInstalled => gh_missing(),
        GhFailure::CouldNotRun => envelope(
            ErrorCode::QueryFailed,
            "the GitHub CLI is installed and would not start".to_owned(),
            "check that `gh --version` runs in a terminal",
            &two(
                "a policy or an antivirus that blocks new processes stops it here",
                "an installation part-way through an upgrade resolves and does not launch",
            ),
        ),
        GhFailure::Unauthenticated => {
            let args: Vec<String> = vec!["gh".to_owned(), "auth".to_owned(), "login".to_owned()];
            assert(views(args@) =~= seq!["gh"@, "auth"@, "login"@]);
            envelope(
                ErrorCode::GhUnauthenticated,
                "the GitHub CLI has no credentials for this repository".to_owned(),
                "run `gh auth login` to sign in",
                &two(
                    "if you signed in before, the token may have expired; sign in again",
                    "`gh auth status` shows which account the CLI is using",
                ),
            ).with_next_command_args(args)
        },
        GhFailure::NoRepository => envelope(
            ErrorCode::QueryFailed,
            "this project has no GitHub repository to list issues from".to_owned(),
            "check the project's folder is a git repository with a GitHub remote",
            &two(
                "a repository that has never been pushed has no remote to query",
                "`git remote -v` in the project's folder shows what is configured",
            ),
        ),
        GhFailure::QueryFailed => envelope(
            ErrorCode::QueryFailed,
            "GitHub did not answer the issue query".to_owned(),
            "check your network connection and try again",
            &two(
                "if you are signed in and online, GitHub may be rate-limiting you",
                "a repository that was renamed or deleted answers the same way",
            ),
        ).retryable(true),
        GhFailure::Unreadable => unreadable(),
    }
}

/// What an id nothing is registered under answers. It does not repeat the id: nobody typed it.
pub open spec fn no_such_project() -> EnvelopeView {
    refusal(
        ErrorCode::UnknownProject,
        "no project is registered under that id"@,
        steps_of(
            "run `nysia project list` to see the ids this daemon holds"@,
            seq!["a project that was forgotten keeps its folder and loses its id"@],
        ),
    )
}

/// The answer for an id nothing is registered under.
pub fn unknown_project() -> (out: ErrorEnvelope)
    ensures
        out@ == no_such_project(),
{
    envelope(
        ErrorCode::UnknownProject,
        "no project is registered under that id".to_owned(),
        "run `nysia project list` to see the ids this daemon holds",
        &one("a project that was forgotten keeps its folder and loses its id"),
    )
}

/// What a store that would not answer says. `said` names an action and never a row.
pub open spec fn store_silent(said: Seq<char>) -> EnvelopeView {
    refusal(
        ErrorCode::Internal,
        said,
        steps_of(
            "retry the verb"@,
            seq!["check that the daemon's runtime directory is writable and not full"@],
        ),
    )
}

/// The answer when the store itself would not answer.
pub fn store_refusal(said: String) -> (out: ErrorEnvelope)
    ensures
        out@ == store_silent(said@),
{
    envelope(
        ErrorCode::Internal,
        said,
        "retry the verb",
        &one("check that the daemon's runtime directory is writable and not full"),
    )
}

/// What a project whose folder cannot be opened answers.
pub open spec fn folder_shut() -> EnvelopeView {
    refusal(
        ErrorCode::PathUnreadable,
        "that project's folder could not be opened"@,
        steps_of(
            "check the folder is still there and that you can open it"@,
            seq![
                "a project on a drive that is not plugged in lists but cannot be queried"@,
                "`nysia project forget <id>` removes the registration and nothing on disk"@,
            ],
        ),
    )
}

/// Whether an issue is open.
#[derive(Clone, Copy, Debug, PartialEq, Eq, Structural)]
pub enum IssueState {
    /// It is.
    Open,
    /// It is not.
    Closed,
}

/// Who opened an issue, as the GitHub CLI answers.
#[derive(Debug)]
pub struct GhAuthor {
    /// Absent, or empty, for an account that is gone.
    pub login: Option<String>,
}

/// A label, as the GitHub CLI answers.
#[derive(Debug)]
pub struct GhLabel {
    /// What it is called.
    pub name: Option<String>,
}

/// One issue, as the GitHub CLI answers.
#[derive(Debug)]
pub struct GhIssue {
    /// Its number.
    pub number: u64,
    /// Its title.
    pub title: String,
    /// `OPEN` or `CLOSED`.
    pub state: String,
    /// When it last changed.
    pub updated_at: String,
    /// Where it is read.
    pub url: String,
    /// Who opened it.
    pub author: Option<GhAuthor>,
    /// Its labels.
    pub labels: Vec<GhLabel>,
}

/// One issue, as a client reads it.
#[derive(Debug)]
pub struct Issue {
    /// Its number.
    pub number: u64,
    /// Its title.
    pub title: String,
    /// Whether it is open.
    pub state: IssueState,
    /// When it last changed.
    pub updated_at: String,
    /// Where it is read.
    pub url: String,
    /// Who opened it, where somebody still answers to the name.
    pub author: Option<String>,
    /// The names of its labels.
    pub labels: Vec<String>,
}

/// The names of the labels that have one, in order.
pub open spec fn label_names(labels: Seq<GhLabel>) -> Seq<Seq<char>>
    decreases labels.len(),
{
    if labels.len() == 0 {
        Seq::empty()
    } else {
        let before = label_names(labels.drop_last());
        match labels.last().name {
            Some(name) => if name@.len() > 0 {
                before.push(name@)
            } else {
                before
            },
            None => before,
        }
    }
}

/// Whether an issue reads as that row of the GitHub CLI's answer: anything that is not open is
/// closed, an author is a login that is not empty, and a label is a name that is not empty.
pub open spec fn reads_as(out: Issue, row: GhIssue) -> bool {
    &&& out.number == row.number
    &&& out.title == row.title
    &&& out.updated_at == row.updated_at
    &&& out.url == row.url
    &&& out.state == (if same_ignoring_case(row.state@, "open"@) {
        IssueState::Open
    } else {
        IssueState::Closed
    })
    &&& out.author == (match row.author {
        Some(GhAuthor { login: Some(login) }) => if login@.len() > 0 {
            Some(login)
        } else {
            None
        },
        _ => None,
    })
    &&& views(out.labels@) == label_names(row.labels@)
}

fn names_of(labels: Vec<GhLabel>) -> (out: Vec<String>)
    ensures
        views(out@) == label_names(labels@),
{
    let ghost all = labels@;
    let mut out: Vec<String> = Vec::new();
    assert(views(out@) =~= Seq::empty());
    assert(all.take(0) =~= Seq::empty());
    for label in each: labels
        invariant
            each.seq() == all,
            views(out@) == label_names(all.take(each.index())),
    {
        let ghost before = views(out@);
        proof {
            let i = each.index();
            assert(all.take(i + 1).drop_last() =~= all.take(i));
            assert(all.take(i + 1).last() == all[i]);
        }
        if let Some(name) = label.name {
            if !name.as_str().is_empty() {
                let ghost kept = name@;
                out.push(name);
                assert(views(out@) =~= before.push(kept));
            }
        }
    }
    assert(all.take(all.len() as int) =~= all);
    out
}

/// One row of the GitHub CLI's answer, as a client reads it.
pub fn issue(row: GhIssue) -> (out: Issue)
    ensures
        reads_as(out, row),
{
    let state = if eq_ignoring_case(row.state.as_str(), "open") {
        IssueState::Open
    } else {
        IssueState::Closed
    };
    let author = match row.author {
        Some(GhAuthor { login: Some(login) }) => if !login.as_str().is_empty() {
            Some(login)
        } else {
            None
        },
        _ => None,
    };
    Issue {
        number: row.number,
        title: row.title,
        state,
        updated_at: row.updated_at,
        url: row.url,
        author,
        labels: names_of(row.labels),
    }
}

/// What asking for a project's issues came to, up to the first step that failed.
#[derive(Debug)]
pub enum Asked {
    /// The store would not answer; the text is the store's.
    StoreFailed(String),
    /// Nothing is registered under that id.
    UnknownProject,
    /// The registered folder could not be resolved.
    FolderGone,
    /// The GitHub CLI gave no list.
    Failed(GhFailure),
    /// It answered something that is not a list of issues.
    Unparsed,
    /// It answered this.
    Answered(Vec<GhIssue>),
}

/// The issue lists a daemon can answer for, with or without a GitHub CLI to run.
#[derive(Debug)]
pub struct TasksService {
    gh: bool,
}

impl TasksService {
    /// Whether there is a GitHub CLI to run.
    pub closed spec fn has_gh(&self) -> bool {
        self.gh
    }

    /// Serve issue lists with, or without, a GitHub CLI to run. A daemon with none still
    /// starts.
    pub fn new(gh: bool) -> (out: TasksService)
        ensures
            out.has_gh() == gh,
    {
        TasksService { gh }
    }

    /// A project's open issues. An empty list is a success.
    ///
    /// Nothing is remembered between two calls, so two that race cannot overwrite each other.
    pub fn list(&self, asked: Asked) -> (out: Result<Vec<Issue>, ErrorEnvelope>)
        ensures
            if !self.has_gh() {
                out matches Err(envelope) && envelope@ == no_gh()
            } else {
                match asked {
                    Asked::StoreFailed(said) => out matches Err(envelope) && envelope@
                        == store_silent(said@),
                    Asked::UnknownProject => out matches Err(envelope) && envelope@
                        == no_such_project(),
                    Asked::FolderGone => out matches Err(envelope) && envelope@ == folder_shut(),
                    Asked::Failed(failure) => out matches Err(envelope) && envelope@ == gh_said(
                        failure,
                    ),
                    Asked::Unparsed => out matches Err(envelope) && envelope@ == unread(),
                    Asked::Answered(rows) => out matches Ok(issues) && issues@.len() == rows@.len()
                        && (forall|i: int|
                        0 <= i < rows@.len() ==> reads_as(#[trigger] issues@[i], rows@[i])),
                }
            },
    {
        if !self.gh {
            return Err(gh_missing());
        }
        let rows = match asked {
            Asked::StoreFailed(said) => {
                return Err(store_refusal(said));
            },
            Asked::UnknownProject => {
                return Err(unknown_project());
            },
            Asked::FolderGone => {
                return Err(
                    envelope(
                        ErrorCode::PathUnreadable,
                        "that project's folder could not be opened".to_owned(),
                        "check the folder is still there and that you can open it",
                        &two(
                            "a project on a drive that is not plugged in lists but cannot be queried",
                            "`nysia project forget <id>` removes the registration and nothing on disk",
                        ),
                    ),
                );
            },
            Asked::Failed(failure) => {
                return Err(gh_refusal(failure));
            },
            Asked::Unparsed => {
                return Err(unreadable());
            },
            Asked::Answered(rows) => rows,
        };
        let ghost all = rows@;
        let mut issues: Vec<Issue> = Vec::new();
        for row in each: rows
            invariant
                each.seq() == all,
                issues@.len() == each.index(),
                forall|i: int| 0 <= i < each.index() ==> reads_as(#[trigger] issues@[i], all[i]),
        {
            issues.push(issue(row));
        }
        Ok(issues)
    }
}

/// Only a query GitHub did not answer is worth sending again.
pub proof fn law_only_an_unanswered_query_is_retryable(failure: GhFailure)
    ensures
        gh_said(failure).retryable <==> failure is QueryFailed,
{
}

/// A missing CLI, a missing login and a failed query each have a code of their own, and no
/// other failure has either of the first two.
pub proof fn law_each_refusal_has_its_code(failure: GhFailure)
    ensures
        gh_said(failure).code == ErrorCode::GhMissing <==> failure is NotInstalled,
        gh_said(failure).code == ErrorCode::GhUnauthenticated <==> failure is Unauthenticated,
        gh_said(failure).code == ErrorCode::QueryFailed <==> !(failure is NotInstalled || failure
            is Unauthenticated),
{
}

/// Every label that has a name is there, in its order, and nothing else is.
pub proof fn law_every_named_label_is_kept(labels: Seq<GhLabel>, label: GhLabel)
    ensures
        label.name matches Some(name) ==> name@.len() > 0 ==> label_names(labels.push(label))
            == label_names(labels).push(name@),
        label.name is None || label.name->0@.len() == 0 ==> label_names(labels.push(label))
            == label_names(labels),
        label_names(Seq::empty()).len() == 0,
{
    assert(labels.push(label).drop_last() =~= labels);
}

/// An issue reads as GitHub has it: its number, title, time and place; open where GitHub says so
/// in whatever case and closed otherwise; by its author where there is one with a name.
pub proof fn law_an_issue_reads_as_it_is(out: Issue, row: GhIssue)
    requires
        reads_as(out, row),
    ensures
        out.number == row.number,
        out.title == row.title,
        out.updated_at == row.updated_at,
        out.url == row.url,
        out.state == IssueState::Open <==> row.state@.len() == 4 && (row.state@[0] == 'o'
            || row.state@[0] == 'O') && (row.state@[1] == 'p' || row.state@[1] == 'P') && (
        row.state@[2] == 'e' || row.state@[2] == 'E') && (row.state@[3] == 'n' || row.state@[3]
            == 'N'),
        out.author matches Some(login) ==> login@.len() > 0 && row.author is Some
            && row.author->0.login == Some(login),
        row.author is None || row.author->0.login is None ==> out.author is None,
        row.author is Some && row.author->0.login is Some && row.author->0.login->0@.len() > 0
            ==> out.author == row.author->0.login,
        views(out.labels@) == label_names(row.labels@),
        out.labels@.len() <= row.labels@.len(),
{
    assert(views(out.labels@).len() == out.labels@.len());
    lemma_no_label_is_added(row.labels@);
    reveal_strlit("open");
    let open = "open"@;
    assert(open[0] == 'o' && open[1] == 'p' && open[2] == 'e' && open[3] == 'n');
    let s = row.state@;
    if s.len() == 4 {
        law_only_the_case_of_letters_is_ignored(s[0], 'o');
        law_only_the_case_of_letters_is_ignored(s[1], 'p');
        law_only_the_case_of_letters_is_ignored(s[2], 'e');
        law_only_the_case_of_letters_is_ignored(s[3], 'n');
        assert(ascii_lower('O') == 'o' && ascii_lower('P') == 'p' && ascii_lower('E') == 'e'
            && ascii_lower('N') == 'n');
        lemma_lower_is(s[0], 'o', 'O');
        lemma_lower_is(s[1], 'p', 'P');
        lemma_lower_is(s[2], 'e', 'E');
        lemma_lower_is(s[3], 'n', 'N');
        if same_ignoring_case(s, open) {
            assert(ascii_lower(s[0]) == ascii_lower(open[0]));
            assert(ascii_lower(s[1]) == ascii_lower(open[1]));
            assert(ascii_lower(s[2]) == ascii_lower(open[2]));
            assert(ascii_lower(s[3]) == ascii_lower(open[3]));
        }
    }
}

proof fn lemma_no_label_is_added(labels: Seq<GhLabel>)
    ensures
        label_names(labels).len() <= labels.len(),
    decreases labels.len(),
{
    if labels.len() > 0 {
        lemma_no_label_is_added(labels.drop_last());
    }
}

proof fn lemma_lower_is(c: char, small: char, large: char)
    requires
        'a' as u32 <= small as u32 <= 'z' as u32,
        large as u32 == small as u32 - 32,
    ensures
        ascii_lower(c) == small <==> c == small || c == large,
{
    vstd::utf8::char_u32_cast(c, c as u32);
    vstd::utf8::char_u32_cast(large, large as u32);
    vstd::utf8::char_u32_cast(small, small as u32);
}

/// What stands in the way of a list of issues is told apart: what GitHub's CLI lacks, a project
/// that is not there, a folder that will not open, and a store that will not answer, in its own
/// words. A login is offered where it is what is missing.
pub proof fn law_a_tasks_failure_says_what_is_wrong(said: Seq<char>, failure: GhFailure)
    ensures
        no_gh().code == ErrorCode::GhMissing && !no_gh().retryable,
        unread().code == ErrorCode::QueryFailed && !unread().retryable,
        no_such_project().code == ErrorCode::UnknownProject && !no_such_project().retryable,
        folder_shut().code == ErrorCode::PathUnreadable && !folder_shut().retryable,
        store_silent(said).code == ErrorCode::Internal && !store_silent(said).retryable,
        store_silent(said).message == said,
        failure is Unauthenticated ==> gh_said(failure).command == seq!["gh"@, "auth"@, "login"@],
        !(failure is Unauthenticated) ==> gh_said(failure).command.len() == 0,
        failure is NotInstalled ==> gh_said(failure) == no_gh(),
        failure is Unreadable ==> gh_said(failure) == unread(),
{
}

} // verus!
