use localtools::ci::daemon::{
    aborted_result, attempt_dir_name, attempt_dirs, build_status_response, cancel_all_response,
    cancel_matches, cancel_response, commits_to_run, find_run_dir_for_sha,
    invalid_request_response, next_attempt_in, record_finished, retry_message, retry_response,
    run_dir_name, scan_max_run_number, shutdown_response, unknown_repo_response, ActiveRunInfo,
    PollStart, RepoState, TextSet,
};
use localtools::ci::error::CiError;
use localtools::ci::ipc::{Response, RunState};
use localtools::ci::poller::CommitInfo;
use localtools::ci::runner::{JobResult, RunResult, StepOutcome, StepResult};
use localtools::ci::types::{AttemptNumber, CommitSha, RepoName};

fn sha(c: char) -> CommitSha {
    CommitSha::try_from(c.to_string().repeat(40)).unwrap()
}

fn repo(n: &str) -> RepoName {
    RepoName::try_from(n.to_string()).unwrap()
}

fn commit(c: char, msg: &str) -> CommitInfo {
    CommitInfo { sha: sha(c), message: msg.into() }
}

fn run(r: &str, c: char, cancelled: bool, jobs: Vec<JobResult>, total: usize) -> RunResult {
    RunResult {
        repo_name: repo(r),
        sha: sha(c),
        commit_message: format!("msg {c}"),
        attempt: AttemptNumber::first(),
        jobs,
        total_jobs: total,
        all_job_names: vec![],
        cancelled,
    }
}

fn job(outcome: StepOutcome) -> JobResult {
    JobResult {
        job_name: "j".into(),
        steps: vec![StepResult {
            step_name: "s".into(),
            outcome,
            stdout_path: String::new(),
            stderr_path: String::new(),
            duration_ms: 0,
        }],
        duration_ms: 0,
    }
}

fn message(r: &Response) -> (bool, String) {
    match r {
        Response::Okay { message } => (true, message.clone()),
        Response::Error { message } => (false, message.clone()),
        other => panic!("unexpected: {other:?}"),
    }
}

#[test]
fn text_sets() {
    let mut s = TextSet::new();
    assert!(!s.contains("a"));
    s.insert("a");
    s.insert("a");
    s.insert("b");
    assert!(s.contains("a") && s.contains("b"));
    s.remove("a");
    assert!(!s.contains("a"));
    assert!(s.contains("b"));
}

#[test]
fn repo_state_from_history() {
    let runs = vec![
        run("p", 'a', true, vec![], 1),
        run("p", 'b', false, vec![job(StepOutcome::Success)], 1),
        run("p", 'c', false, vec![], 2),
    ];
    let st = RepoState::from_history(&runs, 7);
    assert!(st.cancelled_shas.contains(sha('a').as_str()));
    assert!(st.completed_shas.contains(sha('b').as_str()));
    assert!(!st.completed_shas.contains(sha('c').as_str()));
    assert_eq!(st.last_seen_sha.as_ref().unwrap().as_str(), sha('c').as_str());
    assert!(st.initialized);
    assert_eq!(st.run_counter, 7);
    let fresh = RepoState::from_history(&[], 0);
    assert!(!fresh.initialized && fresh.last_seen_sha.is_none());
}

#[test]
fn run_numbers_and_skips() {
    let mut st = RepoState::from_history(&[], u32::MAX - 1);
    assert_eq!(st.next_run_number(), u32::MAX - 1);
    assert_eq!(st.next_run_number(), u32::MAX);
    assert_eq!(st.next_run_number(), u32::MAX);
    st.completed_shas.insert(sha('d').as_str());
    assert!(st.should_skip(&sha('d')));
    st.mark_cancelled(sha('d').as_str());
    assert!(st.should_skip(&sha('d')));
    assert!(!st.completed_shas.contains(sha('d').as_str()));
}

#[test]
fn first_poll_runs_the_latest() {
    let mut st = RepoState::from_history(&[], 0);
    match st.poll_start(&commit('a', "tip")) {
        PollStart::Run(v) => assert_eq!(v[0].message, "tip"),
        other => panic!("unexpected: {other:?}"),
    }
    assert!(st.initialized);
    let (to_run, skipped) = st.take_new_commits(&sha('a'), &[commit('a', "tip")]);
    assert_eq!((to_run.len(), skipped), (1, 0));
    assert!(matches!(st.poll_start(&commit('a', "tip")), PollStart::UpToDate));
    match st.poll_start(&commit('b', "next")) {
        PollStart::ListSince(s) => assert_eq!(s.as_str(), sha('a').as_str()),
        other => panic!("unexpected: {other:?}"),
    }
}

#[test]
fn new_commits_are_taken_once() {
    let mut st = RepoState::from_history(&[run("p", 'a', true, vec![], 1)], 0);
    let listed = vec![commit('a', "old"), commit('b', "one"), commit('b', "again"), commit('c', "two")];
    let (to_run, skipped) = st.take_new_commits(&sha('c'), &listed);
    assert_eq!(to_run.len(), 2);
    assert_eq!(skipped, 2);
    assert_eq!(to_run[0].message, "one");
    assert_eq!(to_run[1].message, "two");
    assert!(st.completed_shas.contains(sha('b').as_str()));
    assert_eq!(st.last_seen_sha.unwrap().as_str(), sha('c').as_str());
}

#[test]
fn listing_falls_back_to_the_latest() {
    let latest = commit('f', "tip");
    assert_eq!(commits_to_run(&latest, Ok(vec![commit('e', "a")]))[0].message, "a");
    assert_eq!(commits_to_run(&latest, Ok(vec![]))[0].message, "tip");
    let err = CiError::Git { context: "x".into(), detail: "y".into() };
    assert_eq!(commits_to_run(&latest, Err(err))[0].message, "tip");
}

#[test]
fn directory_numbers() {
    let names: Vec<String> =
        ["00003_aaaaaaaa", "summary.json", "00010_bbbbbbbb", "x_1", "7"].iter().map(|s| s.to_string()).collect();
    assert_eq!(scan_max_run_number(&names), 11);
    assert_eq!(scan_max_run_number(&[]), 0);
    let attempts: Vec<String> = ["attempt-1", "attempt-3", "repo", "attempt-x"].iter().map(|s| s.to_string()).collect();
    assert_eq!(next_attempt_in(&attempts).get(), 4);
    assert_eq!(next_attempt_in(&[]).get(), 1);
    assert_eq!(run_dir_name(42, &sha('a')), "00042_aaaaaaaa");
    assert_eq!(run_dir_name(123456, &sha('b')), "123456_bbbbbbbb");
    assert_eq!(attempt_dir_name(AttemptNumber::first()), "attempt-1");
    let (a, c) = attempt_dirs("/r/00001_aaaaaaaa", AttemptNumber::first());
    assert_eq!(a, "/r/00001_aaaaaaaa/attempt-1");
    assert_eq!(c, "/r/00001_aaaaaaaa/attempt-1/repo");
}

#[test]
fn run_directories_are_found_by_commit() {
    let entries = vec![
        ("00001_aaaaaaaa".to_string(), false),
        ("00002_bbbbbbbb".to_string(), true),
        ("00003_aaaaaaaa".to_string(), true),
    ];
    assert_eq!(find_run_dir_for_sha(&entries, &sha('a')), Some("00003_aaaaaaaa".to_string()));
    assert_eq!(find_run_dir_for_sha(&entries, &sha('c')), None);
}

#[test]
fn status_answer_lists_active_then_finished() {
    let active = vec![
        ActiveRunInfo { repo_name: repo("p"), sha: sha('a'), commit_message: "m".into(), attempt: AttemptNumber::first() },
        ActiveRunInfo { repo_name: repo("q"), sha: sha('b'), commit_message: "n".into(), attempt: AttemptNumber::first() },
    ];
    let finished = vec![
        run("p", 'c', false, vec![job(StepOutcome::Success), job(StepOutcome::Failed { exit_code: Some(1) })], 2),
        run("q", 'd', true, vec![], 1),
        run("p", 'e', false, vec![job(StepOutcome::Success)], 3),
    ];
    match build_status_response(&active, &finished, None) {
        Response::Status { runs } => {
            assert_eq!(runs.len(), 5);
            assert_eq!(runs[0].state, RunState::Running);
            assert_eq!(runs[2].state, RunState::Failed);
            assert_eq!((runs[2].jobs_total, runs[2].jobs_passed, runs[2].jobs_failed), (2, 1, 1));
            assert_eq!(runs[3].state, RunState::Cancelled);
            assert_eq!(runs[4].state, RunState::Passed);
            assert_eq!(runs[4].jobs_total, 1);
        }
        other => panic!("unexpected: {other:?}"),
    }
    let p = repo("p");
    match build_status_response(&active, &finished, Some(&p)) {
        Response::Status { runs } => {
            assert_eq!(runs.len(), 3);
            assert!(runs.iter().all(|r| r.repo.as_str() == "p"));
        }
        other => panic!("unexpected: {other:?}"),
    }
}

#[test]
fn cancel_answers() {
    assert!(cancel_matches(&sha('a'), &repo("p"), &sha('a'), None));
    assert!(!cancel_matches(&sha('a'), &repo("p"), &sha('a'), Some(&repo("q"))));
    assert!(!cancel_matches(&sha('b'), &repo("p"), &sha('a'), None));
    assert_eq!(message(&cancel_response(2, &sha('a'))), (true, "cancellation requested for 2 run(s) of aaaaaaaa".into()));
    assert_eq!(message(&cancel_response(0, &sha('a'))), (false, "no active run for aaaaaaaa".into()));
    assert_eq!(message(&cancel_all_response(3)), (true, "cancellation requested for 3 active run(s)".into()));
    assert_eq!(message(&shutdown_response()), (true, "shutting down".into()));
    assert_eq!(message(&invalid_request_response("bad json")), (false, "invalid request: bad json".into()));
}

#[test]
fn retry_answers() {
    assert_eq!(message(&unknown_repo_response(&repo("zz"))), (false, "unknown repo 'zz'".into()));
    let runs = vec![run("p", 'b', false, vec![], 0), run("p", 'a', false, vec![], 0)];
    assert_eq!(retry_message(&runs, &sha('a')), "msg a");
    assert_eq!(retry_message(&runs, &sha('c')), "");
    let second = AttemptNumber::first().next().unwrap();
    assert_eq!(
        message(&retry_response(Ok(second), &sha('a'), &repo("p"))),
        (true, "retry launched for aaaaaaaa in repo 'p' (attempt 2)".into())
    );
    let err = CiError::Internal { detail: "boom".into() };
    assert_eq!(
        message(&retry_response(Err(err), &sha('a'), &repo("p"))),
        (false, "failed to launch retry: internal error: boom".into())
    );
}

#[test]
fn finished_runs_newest_first() {
    let info = ActiveRunInfo { repo_name: repo("p"), sha: sha('a'), commit_message: "m".into(), attempt: AttemptNumber::first() };
    let aborted = aborted_result(info);
    assert!(aborted.cancelled);
    assert!(aborted.jobs.is_empty());
    let mut list = vec![run("p", 'b', false, vec![], 0)];
    record_finished(&mut list, aborted);
    assert_eq!(list.len(), 2);
    assert_eq!(list[0].sha.as_str(), sha('a').as_str());
}
