use localtools::ci::runner::{
    collect_job_results, next_job_to_start, next_ready_job,
    decide_job_start, decide_step_start, dependency_indices, make_cancelled_job,
    make_skipped_job, make_unstarted_job, sanitize_dir_name, skipped_steps_from, step_log_name,
    JobResult, JobStart, RunResult, StepOutcome, StepResult, StepStart,
};
use localtools::ci::types::{AttemptNumber, CommitSha, RepoName};
use localtools::ci::workflow::{WorkflowJob, WorkflowStep};

fn sample_sha() -> CommitSha {
    CommitSha::try_from("b".repeat(40)).unwrap()
}

fn sample_repo() -> RepoName {
    RepoName::try_from("test-repo".to_string()).unwrap()
}

fn step(name: &str, outcome: StepOutcome) -> StepResult {
    StepResult {
        step_name: name.into(),
        outcome,
        stdout_path: String::new(),
        stderr_path: String::new(),
        duration_ms: 0,
    }
}

fn job(name: &str, steps: Vec<StepResult>) -> JobResult {
    JobResult { job_name: name.into(), steps, duration_ms: 0 }
}

#[test]
fn job_result_all_success() {
    let j = job("build", vec![step("s1", StepOutcome::Success), step("s2", StepOutcome::Success)]);
    assert!(j.succeeded());
}

#[test]
fn job_result_with_failure() {
    let j = job(
        "build",
        vec![
            step("s1", StepOutcome::Success),
            step("s2", StepOutcome::Failed { exit_code: Some(1) }),
        ],
    );
    assert!(!j.succeeded());
}

#[test]
fn job_result_with_cancelled_step() {
    let j = job("build", vec![step("s1", StepOutcome::Cancelled)]);
    assert!(!j.succeeded());
}

#[test]
fn job_result_with_skipped_step() {
    let j = job("build", vec![step("s1", StepOutcome::Skipped)]);
    assert!(!j.succeeded());
}

#[test]
fn run_result_all_passed() {
    let result = RunResult {
        repo_name: sample_repo(),
        sha: sample_sha(),
        commit_message: "test".into(),
        attempt: AttemptNumber::first(),
        jobs: vec![
            job("j1", vec![step("s", StepOutcome::Success)]),
            job("j2", vec![step("s", StepOutcome::Success)]),
        ],
        total_jobs: 2,
        all_job_names: vec!["j1".into(), "j2".into()],
        cancelled: false,
    };
    assert!(result.all_passed());
    assert_eq!(result.jobs_passed(), 2);
    assert_eq!(result.jobs_failed(), 0);
}

#[test]
fn run_result_cancelled_not_all_passed() {
    let result = RunResult {
        repo_name: sample_repo(),
        sha: sample_sha(),
        commit_message: "test".into(),
        attempt: AttemptNumber::first(),
        jobs: vec![job("j1", vec![step("s", StepOutcome::Success)])],
        total_jobs: 1,
        all_job_names: vec!["j1".into()],
        cancelled: true,
    };
    assert!(!result.all_passed());
}

#[test]
fn run_result_mixed() {
    let result = RunResult {
        repo_name: sample_repo(),
        sha: sample_sha(),
        commit_message: "test".into(),
        attempt: AttemptNumber::first(),
        jobs: vec![
            job("pass", vec![step("s", StepOutcome::Success)]),
            job("fail", vec![step("s", StepOutcome::Failed { exit_code: Some(2) })]),
        ],
        total_jobs: 2,
        all_job_names: vec!["pass".into(), "fail".into()],
        cancelled: false,
    };
    assert!(!result.all_passed());
    assert_eq!(result.jobs_passed(), 1);
    assert_eq!(result.jobs_failed(), 1);
}

#[test]
fn run_result_incomplete_is_not_all_passed() {
    let result = RunResult {
        repo_name: sample_repo(),
        sha: sample_sha(),
        commit_message: "test".into(),
        attempt: AttemptNumber::first(),
        jobs: vec![job("j1", vec![step("s", StepOutcome::Success)])],
        total_jobs: 2,
        all_job_names: vec!["j1".into(), "j2".into()],
        cancelled: false,
    };
    assert!(!result.is_complete());
    assert!(!result.all_passed());
    assert_eq!(result.jobs_passed() + result.jobs_failed(), result.jobs.len());
}

#[test]
fn step_outcome_equality() {
    assert_eq!(StepOutcome::Success, StepOutcome::Success);
    assert_ne!(StepOutcome::Success, StepOutcome::Cancelled);
    assert_eq!(
        StepOutcome::Failed { exit_code: Some(1) },
        StepOutcome::Failed { exit_code: Some(1) }
    );
    assert_ne!(
        StepOutcome::Failed { exit_code: Some(1) },
        StepOutcome::Failed { exit_code: Some(2) }
    );
}

fn wf_job(name: &str, needs: Vec<&str>, steps: Vec<(&str, &str)>, id: &str) -> WorkflowJob {
    WorkflowJob {
        name: name.into(),
        needs: needs.into_iter().map(String::from).collect(),
        steps: steps
            .into_iter()
            .map(|(n, r)| WorkflowStep { name: n.into(), run: r.into() })
            .collect(),
        job_id: id.into(),
    }
}

#[test]
fn make_cancelled_job_marks_all_steps() {
    let j = wf_job("build", vec![], vec![("s1", "nix build .#x"), ("s2", "nix build .#y")], "build");
    let result = make_cancelled_job(&j);
    assert_eq!(result.job_name, "build");
    assert_eq!(result.steps.len(), 2);
    for s in &result.steps {
        assert_eq!(s.outcome, StepOutcome::Cancelled);
    }
}

#[test]
fn make_skipped_job_marks_all_steps() {
    let j = wf_job("test", vec!["build"], vec![("run", "nix run .#test")], "test");
    let result = make_skipped_job(&j);
    assert_eq!(result.job_name, "test");
    assert_eq!(result.steps.len(), 1);
    assert_eq!(result.steps[0].outcome, StepOutcome::Skipped);
}

#[test]
fn make_unstarted_job_fails_every_step_without_code() {
    let j = wf_job("lint", vec![], vec![("a", "nix fmt"), ("b", "nix flake check")], "lint");
    let result = make_unstarted_job(&j);
    assert_eq!(result.steps.len(), 2);
    assert_eq!(result.steps[1].step_name, "b");
    assert_eq!(result.steps[0].outcome, StepOutcome::Failed { exit_code: None });
}

#[test]
fn sanitize_dir_name_handles_special_chars() {
    assert_eq!(sanitize_dir_name("build"), "build");
    assert_eq!(sanitize_dir_name("checks (unit)"), "checks__unit_");
    assert_eq!(sanitize_dir_name("checks (a=1, b=2)"), "checks__a_1__b_2_");
}

#[test]
fn step_log_names_are_zero_padded() {
    assert_eq!(step_log_name(3, "unit tests", "stdout"), "03_unit_tests_stdout.log");
    assert_eq!(step_log_name(12, "b", "stderr"), "12_b_stderr.log");
}

#[test]
fn dependencies_follow_needs_and_matrix_names() {
    let jobs = vec![
        wf_job("build", vec![], vec![], "build"),
        wf_job("test (a)", vec!["build"], vec![], "test (a)"),
        wf_job("test (b)", vec!["build"], vec![], "test (b)"),
        wf_job("deploy", vec!["test", "build"], vec![], "deploy"),
    ];
    let deps = dependency_indices(&jobs);
    assert_eq!(deps[0], Vec::<usize>::new());
    assert_eq!(deps[1], vec![0]);
    assert_eq!(deps[3], vec![0, 1, 2]);
}

#[test]
fn job_start_decisions() {
    assert_eq!(decide_job_start(true, &[Some(true)]), JobStart::Cancel);
    assert_eq!(decide_job_start(false, &[Some(true), Some(false)]), JobStart::Skip);
    assert_eq!(decide_job_start(false, &[Some(true), None]), JobStart::Run);
}

#[test]
fn step_start_decisions() {
    assert_eq!(decide_step_start(true, 0, None), StepStart::Cancelled);
    assert_eq!(decide_step_start(false, 10, Some(10)), StepStart::TimedOut);
    assert_eq!(decide_step_start(false, 4, Some(10)), StepStart::Run { timeout_secs: Some(6) });
    assert_eq!(decide_step_start(false, 4, None), StepStart::Run { timeout_secs: None });
}

#[test]
fn steps_after_a_failure_are_skipped() {
    let j = wf_job("j", vec![], vec![("a", "x"), ("b", "y"), ("c", "z")], "j");
    let rest = skipped_steps_from(&j, 1);
    assert_eq!(rest.len(), 2);
    assert_eq!(rest[0].step_name, "b");
    assert_eq!(rest[1].outcome, StepOutcome::Skipped);
}

#[test]
fn the_first_job_whose_needs_have_finished_is_next() {
    let deps = vec![vec![1], vec![], vec![0, 1]];
    assert_eq!(next_ready_job(&[None, None, None], &deps), Some(1));
    assert_eq!(next_ready_job(&[None, Some(true), None], &deps), Some(0));
    assert_eq!(next_ready_job(&[Some(false), Some(true), None], &deps), Some(2));
    assert_eq!(next_ready_job(&[Some(false), Some(true), Some(false)], &deps), None);
    let cycle = vec![vec![1], vec![0]];
    assert_eq!(next_ready_job(&[None, None], &cycle), None);
    assert_eq!(next_ready_job(&[None], &[vec![5]].to_vec()), None);
}

#[test]
fn job_results_keep_job_order() {
    let a = JobResult { job_name: "a".into(), steps: vec![], duration_ms: 3 };
    let c = JobResult { job_name: "c".into(), steps: vec![], duration_ms: 4 };
    let out = collect_job_results(vec![Some(a), None, Some(c)]);
    assert_eq!(out.len(), 3);
    assert_eq!(out[0].job_name, "a");
    assert_eq!(out[1].job_name, "unknown");
    assert!(out[1].steps.is_empty());
    assert_eq!(out[1].duration_ms, 0);
    assert_eq!(out[2].job_name, "c");
}

#[test]
fn running_jobs_are_not_started_twice() {
    let deps = vec![vec![], vec![], vec![0]];
    assert_eq!(next_job_to_start(&[None, None, None], &[false, false, false], &deps), Some(0));
    assert_eq!(next_job_to_start(&[None, None, None], &[true, false, false], &deps), Some(1));
    assert_eq!(next_job_to_start(&[None, None, None], &[true, true, false], &deps), None);
    assert_eq!(next_job_to_start(&[Some(true), None, None], &[false, true, false], &deps), Some(2));
}
