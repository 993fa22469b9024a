use localtools::ci::runner::{JobResult, RunResult, StepOutcome, StepResult};
use localtools::ci::summary::{
    commit_summary_md, format_duration_ms, format_job_log_line, format_summary,
    format_whole_secs, job_status_icon, render_repo_summary_md, upsert_run,
};
use localtools::ci::types::{AttemptNumber, CommitSha, RepoName};

fn sample_sha() -> CommitSha {
    CommitSha::try_from("a".repeat(40)).unwrap()
}

fn sample_repo() -> RepoName {
    RepoName::try_from("my-project".to_string()).unwrap()
}

fn make_run_result(jobs: Vec<JobResult>, cancelled: bool) -> RunResult {
    let total_jobs = jobs.len();
    let all_job_names = jobs.iter().map(|j| j.job_name.clone()).collect();
    RunResult {
        repo_name: sample_repo(),
        sha: sample_sha(),
        commit_message: "test commit".into(),
        attempt: AttemptNumber::first(),
        jobs,
        total_jobs,
        all_job_names,
        cancelled,
    }
}

fn job_with(name: &str, outcome: StepOutcome, ms: u64) -> JobResult {
    JobResult {
        job_name: name.to_string(),
        steps: vec![StepResult {
            step_name: "step1".into(),
            outcome,
            stdout_path: "/dev/null".into(),
            stderr_path: "/dev/null".into(),
            duration_ms: ms,
        }],
        duration_ms: ms,
    }
}

fn passing_job(name: &str) -> JobResult {
    job_with(name, StepOutcome::Success, 1500)
}

fn failing_job(name: &str) -> JobResult {
    job_with(name, StepOutcome::Failed { exit_code: Some(1) }, 300)
}

#[test]
fn format_duration_seconds_only() {
    assert_eq!(format_whole_secs(5), "5s");
    assert_eq!(format_whole_secs(0), "0s");
    assert_eq!(format_duration_ms(59_400), "59s");
}

#[test]
fn format_duration_minutes_and_seconds() {
    assert_eq!(format_whole_secs(60), "1m");
    assert_eq!(format_whole_secs(61), "1m 1s");
    assert_eq!(format_whole_secs(305), "5m 5s");
    assert_eq!(format_whole_secs(908), "15m 8s");
}

#[test]
fn format_duration_hours() {
    assert_eq!(format_whole_secs(3600), "1h");
    assert_eq!(format_whole_secs(3660), "1h 1m");
    assert_eq!(format_whole_secs(3661), "1h 1m 1s");
    assert_eq!(format_whole_secs(8022), "2h 13m 42s");
}

#[test]
fn durations_round_half_up() {
    assert_eq!(format_duration_ms(1500), "2s");
    assert_eq!(format_duration_ms(1499), "1s");
    assert_eq!(format_duration_ms(59_500), "1m");
}

#[test]
fn format_summary_all_passed() {
    let result = make_run_result(vec![passing_job("build"), passing_job("test")], false);
    let text = format_summary(&result);
    assert!(text.contains("PASSED"));
    assert!(text.contains("my-project"));
    assert!(text.contains("build"));
    assert!(text.contains("test"));
}

#[test]
fn format_summary_with_failure() {
    let result = make_run_result(vec![passing_job("build"), failing_job("test")], false);
    let text = format_summary(&result);
    assert!(text.contains("FAILED"));
    assert!(text.contains("build"));
    assert!(text.contains("[FAIL exit=1]"));
}

#[test]
fn format_summary_cancelled() {
    let result = make_run_result(vec![passing_job("build")], true);
    let text = format_summary(&result);
    assert!(text.contains("CANCELLED"));
}

#[test]
fn format_summary_exact_text() {
    let result = make_run_result(
        vec![job_with("t", StepOutcome::Failed { exit_code: Some(-3) }, 61_000)],
        false,
    );
    assert_eq!(
        format_summary(&result),
        "=== my-project | aaaaaaaa attempt 1 \u{2014} FAILED ===\n  \u{2717} t 1m 1s\n    [FAIL exit=-3] step1 (1m 1s)\n"
    );
}

#[test]
fn format_job_log_line_ok() {
    let job = passing_job("Fast Checks");
    let line = format_job_log_line("ci-local", "ce49b0f4", &job);
    assert!(line.contains("repo=ci-local"));
    assert!(line.contains("sha=ce49b0f4"));
    assert!(line.contains("job=\"Fast Checks\""));
    assert!(line.contains("status=ok"));
    assert!(line.contains("duration="));
}

#[test]
fn format_job_log_line_fail() {
    let job = failing_job("test");
    let line = format_job_log_line("proj", "abcdef01", &job);
    assert!(line.contains("status=FAIL"));
    assert_eq!(
        line,
        "job finished: repo=proj sha=abcdef01 job=\"test\" status=FAIL duration=0s"
    );
}

#[test]
fn status_icons() {
    assert_eq!(job_status_icon(&passing_job("a")), "\u{2713}");
    assert_eq!(job_status_icon(&job_with("b", StepOutcome::TimedOut, 0)), "\u{29D6}");
    assert_eq!(job_status_icon(&job_with("c", StepOutcome::Cancelled, 0)), "\u{2717}");
    assert_eq!(job_status_icon(&failing_job("d")), "\u{2717}");
}

#[test]
fn commit_summary_lists_finished_and_running_jobs() {
    let mut result = make_run_result(
        vec![
            job_with("Fast Checks", StepOutcome::Success, 305_000),
            job_with("Check unit-tests", StepOutcome::Success, 908_000),
        ],
        false,
    );
    result.all_job_names.push("Deploy".into());
    result.total_jobs = 3;
    let md = commit_summary_md(&result);
    assert!(md.starts_with("# aaaaaaaa test commit\n"));
    assert!(md.contains("Fast Checks"));
    assert!(md.contains("5m 5s"));
    assert!(md.contains("15m 8s"));
    assert!(md.contains('\u{2713}'));
    assert!(md.ends_with("* Deploy \u{2026} running\n"));
}

#[test]
fn repo_summary_without_runs() {
    assert_eq!(render_repo_summary_md("proj", &[]), "# proj\n\nNo runs recorded.\n");
}

#[test]
fn repo_summary_lines() {
    let ok = make_run_result(vec![passing_job("build")], false);
    let bad = make_run_result(vec![passing_job("build"), failing_job("test")], false);
    let mut partial = make_run_result(vec![passing_job("build")], false);
    partial.total_jobs = 2;
    let cancelled = make_run_result(vec![passing_job("build")], true);
    let md = render_repo_summary_md("my-project", &[ok, bad, partial, cancelled]);
    assert!(md.starts_with("# my-project\n\n"));
    assert!(md.contains("1. `aaaaaaaa` test commit [1/1 passed] attempt 1\n"));
    assert!(md.contains("2. `aaaaaaaa` test commit [1/2 passed, 1 failed] attempt 1 FAILED\n"));
    assert!(md.contains("3. `aaaaaaaa` test commit [1/2 passed] attempt 1 RUNNING\n"));
    assert!(md.contains("4. `aaaaaaaa` test commit [1/1 passed] attempt 1 CANCELLED\n"));
}

#[test]
fn upsert_replaces_the_same_run_and_appends_others() {
    let mut runs: Vec<RunResult> = Vec::new();
    let mut partial = make_run_result(vec![passing_job("build")], false);
    partial.total_jobs = 2;
    upsert_run(&mut runs, partial);
    assert_eq!(runs.len(), 1);
    assert!(render_repo_summary_md("proj", &runs).contains("RUNNING"));
    let complete = make_run_result(vec![passing_job("build"), passing_job("test")], false);
    upsert_run(&mut runs, complete);
    assert_eq!(runs.len(), 1);
    let md = render_repo_summary_md("proj", &runs);
    assert!(md.contains("2/2 passed"));
    assert!(!md.contains("RUNNING"));
    let mut other = make_run_result(vec![failing_job("test")], false);
    other.sha = CommitSha::try_from("b".repeat(40)).unwrap();
    upsert_run(&mut runs, other);
    assert_eq!(runs.len(), 2);
    let mut retry = make_run_result(vec![passing_job("build")], false);
    retry.attempt = AttemptNumber::first().next().unwrap();
    upsert_run(&mut runs, retry);
    assert_eq!(runs.len(), 3);
}
