use nysia_core::project::{
    compose, folder_name, git_kind, git_refusal, joining, list_refusal, path_kind,
    registration_root, store_refusal, unknown_project, without_worktrees, Folder, Forgotten,
    GitError, GitWorktree, NotListed, NotRegistered, Offered, ProjectService, Recorded,
    RegisterRefusal, Repository, StoredProject,
};
use nysia_core::session::failure::{LaunchError, ResolveError};
use nysia_core::session::program::{CanonicalPath, PathError, ShellProfile};
use nysia_core::session::registry::{
    AgentRefusal, SessionCreate, SessionKind, SessionRegistry, Spawned, Surroundings,
    WorkingDirectory,
};
use nysia_core::wire::{ErrorCode, Platform, SessionHandle};

fn folder(text: &str) -> CanonicalPath {
    let mut components = vec!["/".to_owned()];
    components.extend(text.split('/').filter(|part| !part.is_empty()).map(str::to_owned));
    CanonicalPath { text: text.to_owned(), components }
}

fn worktree(branch: Option<&str>, path: Option<&str>, is_primary: bool) -> GitWorktree {
    GitWorktree {
        branch: branch.map(str::to_owned),
        canonical: path.map(folder),
        is_primary,
    }
}

/// A repository with a linked worktree nested inside its primary one, and one that is gone.
fn repository() -> Repository {
    Repository {
        worktrees: vec![
            worktree(Some("main"), Some("/src/repo"), true),
            worktree(Some("feat"), Some("/src/repo/.nysia/feat"), false),
            worktree(Some("lost"), None, false),
            worktree(None, Some("/src/detached"), false),
        ],
    }
}

fn stored() -> StoredProject {
    StoredProject {
        id: "proj_1".to_owned(),
        name: "repo".to_owned(),
        group: "Projects".to_owned(),
    }
}

fn session_in(registry: &mut SessionRegistry, name: &str, path: &str) {
    let request = SessionCreate {
        pane_key: None,
        kind: SessionKind::Shell,
        profile: None,
        cwd: Some(WorkingDirectory::Path { path: path.to_owned() }),
        env_overrides: Vec::new(),
        cols: 80,
        rows: 24,
    };
    let world = Surroundings {
        default_profile: ShellProfile::LoginShell,
        shell_label: "shell".to_owned(),
        agent: Err(AgentRefusal::Launch(LaunchError::Unavailable {
            agent: "an-agent".to_owned(),
            source: ResolveError::NotFound { program: "an-agent".to_owned() },
        })),
        absolute: true,
        folder: Ok(folder(path)),
    };
    let plan = registry.plan_create(request, world).expect("a plan");
    let handle = SessionHandle { text: name.to_owned() };
    registry
        .create(plan, Ok(Spawned { handle, pid: None }), Ok(()), Platform::Unix, 0)
        .expect("a session starts");
}

fn inspected(path: &str, folder_is: Result<Folder, GitError>) -> Offered {
    Offered::Inspected { requested: folder(path), folder: folder_is }
}

#[test]
fn a_worktree_offered_by_any_of_its_spellings_is_the_same_project() {
    let service = ProjectService::new(true);
    for path in ["/src/repo", "/src/repo/.nysia/feat", "/src/detached"] {
        let (registration, _) = service
            .registration(
                Platform::Unix,
                "Projects",
                inspected(path, Ok(Folder::Repository(repository()))),
            )
            .expect("a repository registers");
        assert_eq!(registration.path.text, "/src/repo", "offered as {path}");
        assert_eq!(registration.name, "repo");
        assert_eq!(registration.group, "Projects");
    }
    let bare = Repository { worktrees: vec![worktree(Some("main"), None, true)] };
    assert_eq!(registration_root(&bare, folder("/src/bare")).text, "/src/bare");
}

#[test]
fn a_folder_that_is_no_one_repository_is_refused_and_says_which_kind() {
    let service = ProjectService::new(true);
    let refused = |offered| {
        service.registration(Platform::Unix, "Projects", offered).expect_err("refused")
    };
    assert!(matches!(
        refused(Offered::Unresolved(PathError::Missing)),
        NotRegistered::Folder(RegisterRefusal::Unreadable)
    ));
    assert!(matches!(
        refused(inspected("/src", Ok(Folder::NoRepository))),
        NotRegistered::Folder(RegisterRefusal::NotARepository)
    ));
    let many = Folder::ManyRepositories { names: vec![Some("a".to_owned()), Some("b".to_owned())] };
    match refused(inspected("/src", Ok(many))) {
        NotRegistered::Folder(RegisterRefusal::ManyRepositories { found }) => {
            assert_eq!(found, ["a", "b"]);
        }
        other => panic!("many, got {other:?}"),
    }
    assert!(matches!(
        refused(inspected("/src", Err(GitError::Path(PathError::NotADirectory)))),
        NotRegistered::Folder(RegisterRefusal::Unreadable)
    ));
    match refused(inspected("/src", Err(GitError::TimedOut))) {
        NotRegistered::Refused(envelope) => {
            assert!(envelope.message().contains("git ran past its deadline"), "{envelope:?}");
        }
        other => panic!("an envelope, got {other:?}"),
    }
    let none = ProjectService::new(false);
    assert!(none.git().is_err());
    assert!(service.git().is_ok());
    assert!(matches!(
        none.registration(Platform::Unix, "Projects", inspected("/src", Ok(Folder::NoRepository))),
        Err(NotRegistered::Refused(_))
    ));
}

#[test]
fn a_session_is_shown_under_the_deepest_worktree_that_holds_it() {
    let mut sessions = SessionRegistry::new();
    session_in(&mut sessions, "session-1", "/src/repo/lib");
    session_in(&mut sessions, "session-2", "/src/repo/.nysia/feat");
    session_in(&mut sessions, "session-3", "/elsewhere");
    let project = compose(&stored(), &repository(), &sessions);
    assert_eq!(project.id, "proj_1");
    assert_eq!(project.name, "repo");
    let shown: Vec<(&str, bool, Vec<&str>)> = project
        .worktrees
        .iter()
        .map(|tree| {
            let held = tree.sessions.iter().map(|row| row.handle.text.as_str()).collect();
            (tree.branch.as_str(), tree.is_primary, held)
        })
        .collect();
    assert_eq!(
        shown,
        [
            ("main", true, vec!["session-1"]),
            ("feat", false, vec!["session-2"]),
        ]
    );
}

#[test]
fn what_was_recorded_is_what_is_answered() {
    let sessions = SessionRegistry::new();
    let service = ProjectService::new(true);
    let recorded = Ok(Recorded { already_registered: true, project: stored() });
    let answered = service.register(recorded, &repository(), &sessions).expect("registered");
    assert!(answered.already_registered);
    assert_eq!(answered.project.worktrees.len(), 2);
    let refused =
        service.register(Err("locked".to_owned()), &repository(), &sessions).expect_err("refused");
    assert_eq!(refused.message(), store_refusal("locked").message());
    assert!(refused.is_retryable());
}

#[test]
fn a_project_that_cannot_be_reached_is_listed_without_worktrees() {
    let sessions = SessionRegistry::new();
    let service = ProjectService::new(true);
    let there = inspected("/src/repo", Ok(Folder::Repository(repository())));
    let reached = service.reached(&stored(), there, &sessions);
    assert_eq!(reached.as_ref().expect("reached").worktrees.len(), 2);
    let gone = service.reached(&stored(), Offered::Unresolved(PathError::Missing), &sessions);
    assert!(gone.is_none());
    let there = inspected("/src/repo", Ok(Folder::Repository(repository())));
    assert!(ProjectService::new(false).reached(&stored(), there, &sessions).is_none());

    let listed = service
        .list(Ok(vec![(stored(), reached), (stored(), None)]))
        .expect("a list");
    assert_eq!(listed.len(), 2);
    assert_eq!(listed[0].worktrees.len(), 2);
    assert!(listed[1].worktrees.is_empty());
    assert_eq!(listed[1].group, "Projects");
    assert!(without_worktrees(&stored()).worktrees.is_empty());

    let refused = service.list(Err(NotListed::Store("torn".to_owned()))).expect_err("refused");
    assert_eq!(refused.message(), list_refusal("torn").message());
    assert!(!refused.is_retryable(), "a row that will not read is not fixed by waiting");
    let refused = service.list(Err(NotListed::NotRun("gone".to_owned()))).expect_err("refused");
    assert_eq!(refused.message(), joining("gone").message());
    assert!(refused.is_retryable());
}

#[test]
fn forgetting_a_project_nobody_registered_names_it_back() {
    let service = ProjectService::new(false);
    assert!(service.forget("proj_1", Forgotten::Removed).is_ok());
    let refused = service.forget("proj_1", Forgotten::Unknown).expect_err("refused");
    assert_eq!(refused.code(), ErrorCode::UnknownProject);
    assert_eq!(refused.message(), "no project is registered under proj_1");
    assert_eq!(*refused.next_command_args(), ["nysia", "project", "list"]);
    assert_eq!(refused.message(), unknown_project("proj_1").message());
    let refused = service.forget("proj_1", Forgotten::Failed("locked".to_owned()));
    assert_eq!(refused.expect_err("refused").code(), ErrorCode::Internal);
}

#[test]
fn a_failure_is_logged_by_its_kind_and_never_by_its_path() {
    assert_eq!(path_kind(&PathError::Missing), "the folder is not there");
    assert_eq!(
        path_kind(&PathError::Unreadable("/home/me".to_owned())),
        "the folder could not be read"
    );
    assert_eq!(path_kind(&PathError::NotADirectory), "the path is a file");
    assert_eq!(git_kind(&GitError::Path(PathError::Missing)), "the folder is not there");
    assert_eq!(git_kind(&GitError::Refused), "git would not open the repository");
    match git_refusal(&GitError::NotInstalled) {
        NotRegistered::Refused(envelope) => {
            assert_eq!(envelope.message(), "this machine has no `git` that Nysia can run");
        }
        other => panic!("an envelope, got {other:?}"),
    }
}

#[test]
fn a_folder_is_called_by_its_last_component_and_a_root_by_nothing() {
    assert_eq!(folder_name(Platform::Unix, &folder("/src/repo")).as_deref(), Some("repo"));
    assert_eq!(folder_name(Platform::Unix, &folder("/")), None);
    let drive = CanonicalPath {
        text: r"C:\".to_owned(),
        components: vec!["C:".to_owned(), "\\".to_owned()],
    };
    assert_eq!(folder_name(Platform::Windows, &drive), None);
}
