use localtools::ci::client::{cancel_request, response_lines, retry_request, status_request};
use localtools::ci::error::CiError;
use localtools::ci::ipc::{Request, Response, RunState, RunSummary};
use localtools::ci::types::{AttemptNumber, CommitSha, RepoName};

fn run(repo: &str, sha_char: char, message: &str, attempt: u32, state: RunState, total: usize, passed: usize, failed: usize) -> RunSummary {
    RunSummary {
        repo: RepoName::try_from(repo.to_string()).unwrap(),
        sha: CommitSha::try_from(sha_char.to_string().repeat(40)).unwrap(),
        commit_message: message.to_string(),
        attempt: AttemptNumber::try_from(attempt).unwrap(),
        state,
        jobs_total: total,
        jobs_passed: passed,
        jobs_failed: failed,
    }
}

#[test]
fn plain_answers_are_printed_as_they_are() {
    let (out, err) = response_lines(&Response::Okay { message: "cancelled 2 runs".to_string() });
    assert_eq!(out, vec!["cancelled 2 runs".to_string()]);
    assert!(err.is_empty());
    let (out, err) = response_lines(&Response::Error { message: "unknown repo".to_string() });
    assert!(out.is_empty());
    assert_eq!(err, vec!["error: unknown repo".to_string()]);
    let (out, _) = response_lines(&Response::Status { runs: Vec::new() });
    assert_eq!(out, vec!["no runs recorded".to_string()]);
}

#[test]
fn status_groups_runs_by_repository_in_name_order() {
    let runs = vec![
        run("web", 'a', "fix login", 1, RunState::Passed, 3, 3, 0),
        run("api", 'b', "", 2, RunState::Failed, 4, 2, 2),
        run("web", 'c', "wip", 1, RunState::Running, 3, 1, 0),
    ];
    let (out, err) = response_lines(&Response::Status { runs });
    assert!(err.is_empty());
    assert_eq!(
        out,
        vec![
            "api:".to_string(),
            "  `bbbbbbbb` [2/4 passed, 2 failed] attempt 2 FAILED".to_string(),
            "web:".to_string(),
            "  `aaaaaaaa` fix login [3/3 passed] attempt 1 PASSED".to_string(),
            "  `cccccccc` wip [1/3 passed] attempt 1 RUNNING".to_string(),
        ]
    );
}

#[test]
fn requests_are_built_from_arguments() {
    assert!(matches!(status_request(None), Ok(Request::Status { repo: None })));
    match status_request(Some(" web ".to_string())) {
        Ok(Request::Status { repo: Some(r) }) => assert_eq!(r.as_str(), "web"),
        other => panic!("unexpected {other:?}"),
    }
    match status_request(Some("bad name".to_string())) {
        Err(CiError::Ipc { detail }) => {
            assert_eq!(detail, "invalid repo name: 'bad name' contains invalid characters (only a-z, 0-9, -, _ allowed)")
        }
        other => panic!("unexpected {other:?}"),
    }
    match cancel_request("xyz".to_string(), None) {
        Err(CiError::Ipc { detail }) => assert_eq!(detail, "invalid commit sha 'xyz': must be exactly 40 characters"),
        other => panic!("unexpected {other:?}"),
    }
    match retry_request("".to_string(), "a".repeat(40)) {
        Err(CiError::Ipc { detail }) => assert_eq!(detail, "invalid repo name: must be non-empty"),
        other => panic!("unexpected {other:?}"),
    }
    match retry_request("web".to_string(), "A".repeat(40)) {
        Ok(Request::Retry { repo, sha }) => {
            assert_eq!(repo.as_str(), "web");
            assert_eq!(sha.as_str(), "a".repeat(40));
        }
        other => panic!("unexpected {other:?}"),
    }
}
