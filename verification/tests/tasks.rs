use nysia_core::tasks::{
    gh_missing, gh_refusal, issue, store_refusal, unknown_project, unreadable, Asked, GhAuthor,
    GhFailure, GhIssue, GhLabel, Issue, IssueState, TasksService,
};
use nysia_core::wire::ErrorCode;
use serde_json::Value;

/// gh's real answer shape, with the fields nobody asks for.
const GH_ANSWER: &str = r#"[
      {
        "author": {"id": "U_kgDOERlJTQ", "is_bot": false, "login": "leamcprice20", "name": ""},
        "labels": [
          {"id": "LA_1", "name": "bug", "description": "broken", "color": "d73a4a"},
          {"id": "LA_2", "name": "area:daemon", "description": "", "color": "0e8a16"}
        ],
        "number": 200,
        "state": "OPEN",
        "title": "The issue list, served from the daemon",
        "updatedAt": "2026-09-16T09:12:44Z",
        "url": "https://github.com/Shironex/nysia/issues/200"
      }
    ]"#;

fn text(value: &Value, name: &str) -> Option<String> {
    value.get(name)?.as_str().map(str::to_owned)
}

fn row(value: &Value) -> Option<GhIssue> {
    let labels = value.get("labels")?.as_array()?;
    Some(GhIssue {
        number: value.get("number")?.as_u64()?,
        title: text(value, "title")?,
        state: text(value, "state")?,
        updated_at: text(value, "updatedAt")?,
        url: text(value, "url")?,
        author: value
            .get("author")
            .filter(|author| !author.is_null())
            .map(|author| GhAuthor { login: text(author, "login") }),
        labels: labels.iter().map(|label| GhLabel { name: text(label, "name") }).collect(),
    })
}

fn parse(answer: &[u8]) -> Option<Vec<Issue>> {
    let value: Value = serde_json::from_slice(answer).ok()?;
    value.as_array()?.iter().map(|value| row(value).map(issue)).collect()
}

#[test]
fn ghs_author_object_becomes_a_login_rather_than_no_author() {
    let issues = parse(GH_ANSWER.as_bytes()).expect("gh's measured answer parses");
    assert_eq!(issues.len(), 1);
    assert_eq!(issues[0].author.as_deref(), Some("leamcprice20"));
}

#[test]
fn ghs_label_objects_become_names_and_lose_their_colour() {
    let issues = parse(GH_ANSWER.as_bytes()).expect("gh's measured answer parses");
    assert_eq!(issues[0].labels, ["bug", "area:daemon"]);
}

#[test]
fn ghs_uppercase_state_becomes_the_wires_enum() {
    let issues = parse(GH_ANSWER.as_bytes()).expect("gh's measured answer parses");
    assert_eq!(issues[0].state, IssueState::Open);
    assert_eq!(issues[0].number, 200);
    assert_eq!(issues[0].updated_at, "2026-09-16T09:12:44Z");
}

#[test]
fn an_issue_with_no_author_survives_as_a_row_without_one() {
    let answers = [
        r#"[{"author": null, "labels": [], "number": 7, "state": "OPEN",
             "title": "t", "updatedAt": "2026-01-01T00:00:00Z", "url": "u"}]"#,
        r#"[{"author": {"login": ""}, "labels": [], "number": 7, "state": "OPEN",
             "title": "t", "updatedAt": "2026-01-01T00:00:00Z", "url": "u"}]"#,
    ];
    for answer in answers {
        let issues = parse(answer.as_bytes()).expect("an authorless issue parses");
        assert_eq!(issues.len(), 1, "the row must survive: {answer}");
        assert_eq!(issues[0].author, None, "{answer}");
    }
}

#[test]
fn an_empty_list_parses_as_an_empty_list_and_not_as_a_failure() {
    assert!(parse(b"[]").expect("an empty answer parses").is_empty());
    let listed = TasksService::new(true).list(Asked::Answered(Vec::new()));
    assert!(listed.expect("an empty list is a success").is_empty());
}

#[test]
fn an_answer_that_is_not_a_list_of_issues_is_refused_rather_than_guessed_at() {
    for broken in [&b"[{\"number\": 1"[..], &b"{\"issues\": []}"[..], &b"not json at all"[..]] {
        assert!(parse(broken).is_none(), "{:?}", String::from_utf8_lossy(broken));
    }
    let refused = TasksService::new(true).list(Asked::Unparsed).expect_err("refused");
    assert_eq!(refused.message(), unreadable().message());
}

#[test]
fn unknown_fields_in_a_future_gh_do_not_fail_the_verb() {
    let answer = r#"[{"number": 1, "title": "t", "state": "OPEN",
            "updatedAt": "2026-01-01T00:00:00Z", "url": "u", "author": null, "labels": [],
            "somethingGhAddedLater": {"nested": true}}]"#;
    assert_eq!(parse(answer.as_bytes()).expect("an unknown field is ignored").len(), 1);
}

#[test]
fn the_three_refusals_carry_the_three_codes_the_screen_branches_on() {
    assert_eq!(gh_refusal(GhFailure::NotInstalled).code(), ErrorCode::GhMissing);
    assert_eq!(gh_refusal(GhFailure::Unauthenticated).code(), ErrorCode::GhUnauthenticated);
    for failure in [
        GhFailure::CouldNotRun,
        GhFailure::NoRepository,
        GhFailure::QueryFailed,
        GhFailure::Unreadable,
    ] {
        assert_eq!(gh_refusal(failure).code(), ErrorCode::QueryFailed);
    }
}

#[test]
fn a_gh_that_will_not_start_is_not_reported_as_a_gh_that_is_absent() {
    let absent = gh_refusal(GhFailure::NotInstalled);
    let stalled = gh_refusal(GhFailure::CouldNotRun);
    assert_eq!(absent.code(), ErrorCode::GhMissing);
    assert_ne!(stalled.code(), ErrorCode::GhMissing);
    assert!(!stalled.message().contains("not installed"), "{}", stalled.message());
    assert!(!stalled.next_steps().iter().any(|step| step.contains("cli.github.com")));
}

#[test]
fn an_expired_token_is_the_one_refusal_that_says_so() {
    let expired = gh_refusal(GhFailure::Unauthenticated);
    assert!(expired.next_steps().iter().any(|step| step.contains("expired")));
    assert_eq!(*expired.next_command_args(), ["gh", "auth", "login"]);
    assert!(!expired.is_retryable());
    assert!(
        gh_refusal(GhFailure::QueryFailed).is_retryable(),
        "a dropped connection is exactly what a retry is for"
    );
}

#[test]
fn no_refusal_names_a_path_or_a_repository() {
    for failure in [
        GhFailure::NotInstalled,
        GhFailure::CouldNotRun,
        GhFailure::Unauthenticated,
        GhFailure::NoRepository,
        GhFailure::QueryFailed,
        GhFailure::Unreadable,
    ] {
        let envelope = gh_refusal(failure);
        let text = format!("{} {}", envelope.message(), envelope.next_steps().join(" "));
        for shape in ['\\', ':'] {
            let suspicious = text
                .split_whitespace()
                .filter(|word| word.contains(shape))
                .filter(|word| !word.starts_with("https://"))
                .collect::<Vec<_>>();
            assert!(suspicious.is_empty(), "a refusal carries a path: {suspicious:?}");
        }
    }
}

#[test]
fn an_unknown_project_is_refused_without_repeating_the_id_back() {
    let refused = unknown_project();
    assert_eq!(refused.code(), ErrorCode::UnknownProject);
    assert!(!refused.message().contains("proj_"), "{}", refused.message());
}

#[test]
fn each_step_that_fails_is_answered_in_its_own_words() {
    let service = TasksService::new(true);
    let code = |asked| service.list(asked).expect_err("refused").code();
    assert_eq!(code(Asked::UnknownProject), ErrorCode::UnknownProject);
    assert_eq!(code(Asked::FolderGone), ErrorCode::PathUnreadable);
    assert_eq!(code(Asked::Failed(GhFailure::Unauthenticated)), ErrorCode::GhUnauthenticated);
    let refused = service.list(Asked::StoreFailed("locked".to_owned())).expect_err("refused");
    assert_eq!(refused.message(), "locked");
    assert_eq!(store_refusal("locked".to_owned()).code(), ErrorCode::Internal);

    let none = TasksService::new(false);
    let refused = none.list(Asked::Answered(Vec::new())).expect_err("nothing to run");
    assert_eq!(refused.message(), gh_missing().message());
}

#[test]
fn a_label_with_no_name_is_left_out_and_an_odd_state_is_closed() {
    let answer = r#"[{"number": 1, "title": "t", "state": "MERGED", "url": "u",
        "updatedAt": "2026-01-01T00:00:00Z", "author": {"id": "x"},
        "labels": [{"name": ""}, {"id": "LA_3"}, {"name": "kept"}]}]"#;
    let issues = parse(answer.as_bytes()).expect("parses");
    assert_eq!(issues[0].state, IssueState::Closed);
    assert_eq!(issues[0].labels, ["kept"]);
    assert_eq!(issues[0].author, None);
    let answer = answer.replace("MERGED", "oPen");
    assert_eq!(parse(answer.as_bytes()).expect("parses")[0].state, IssueState::Open);
}
