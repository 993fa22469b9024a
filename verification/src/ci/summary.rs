//! Text summaries of runs: durations, status icons, log lines and markdown.
use vstd::prelude::*;
use vstd::string::*;
use crate::ci::runner::{count_jobs, job_succeeded, JobResult, RunResult, StepOutcome, StepResult};
use crate::ci::types::{AttemptNumber, CommitSha};
use crate::text::{chars_eq, chars_of, decimal, u64_to_string};

verus! {

/// A whole number of seconds as the summaries show it: `42s`, `5m`, `5m 5s`,
/// `2h`, `2h 13m`, `2h 13m 42s`.
pub open spec fn duration_text(total: nat) -> Seq<char> {
    if total < 60 {
        decimal(total) + "s"@
    } else if total < 3600 {
        let m = total / 60;
        let s = total % 60;
        if s == 0 {
            decimal(m) + "m"@
        } else {
            decimal(m) + "m "@ + decimal(s) + "s"@
        }
    } else {
        let h = total / 3600;
        let m = (total % 3600) / 60;
        let s = total % 60;
        if s == 0 && m == 0 {
            decimal(h) + "h"@
        } else if s == 0 {
            decimal(h) + "h "@ + decimal(m) + "m"@
        } else {
            decimal(h) + "h "@ + decimal(m) + "m "@ + decimal(s) + "s"@
        }
    }
}

/// Milliseconds rounded to the nearest second, halves rounded up.
pub open spec fn rounded_secs(ms: nat) -> nat {
    ms / 1000 + if ms % 1000 >= 500 { 1nat } else { 0nat }
}

/// A whole number of seconds as text (see `duration_text`).
pub fn format_whole_secs(total: u64) -> (r: String)
    ensures
        r@ == duration_text(total as nat),
{
    proof {
        reveal_strlit("s");
        reveal_strlit("m");
        reveal_strlit("m ");
        reveal_strlit("h");
        reveal_strlit("h ");
    }
    let mut out = String::new();
    if total < 60 {
        out.append(u64_to_string(total).as_str());
        out.append("s");
    } else if total < 3600 {
        let m = total / 60;
        let s = total % 60;
        out.append(u64_to_string(m).as_str());
        if s == 0 {
            out.append("m");
        } else {
            out.append("m ");
            out.append(u64_to_string(s).as_str());
            out.append("s");
        }
    } else {
        let h = total / 3600;
        let m = (total % 3600) / 60;
        let s = total % 60;
        out.append(u64_to_string(h).as_str());
        if s == 0 && m == 0 {
            out.append("h");
        } else if s == 0 {
            out.append("h ");
            out.append(u64_to_string(m).as_str());
            out.append("m");
        } else {
            out.append("h ");
            out.append(u64_to_string(m).as_str());
            out.append("m ");
            out.append(u64_to_string(s).as_str());
            out.append("s");
        }
    }
    out
}

/// A duration in milliseconds as text, rounded to the nearest second.
pub fn format_duration_ms(ms: u64) -> (r: String)
    ensures
        r@ == duration_text(rounded_secs(ms as nat)),
{
    let secs = ms / 1000 + if ms % 1000 >= 500 { 1 } else { 0 };
    format_whole_secs(secs)
}

/// Whether some step of `j` ended with `o`.
pub open spec fn some_step(j: JobResult, o: StepOutcome) -> bool {
    exists|i: int| 0 <= i < j.steps@.len() && (#[trigger] j.steps@[i]).outcome == o
}

fn has_step_outcome(j: &JobResult, o: StepOutcome) -> (r: bool)
    ensures
        r == some_step(*j, o),
{
    let mut i: usize = 0;
    while i < j.steps.len()
        invariant
            i <= j.steps@.len(),
            forall|k: int| 0 <= k < i ==> (#[trigger] j.steps@[k]).outcome != o,
        decreases j.steps@.len() - i,
    {
        if j.steps[i].outcome == o {
            return true;
        }
        i = i + 1;
    }
    false
}

/// The icon of a job: a check mark when it succeeded, an hourglass when a step
/// timed out (and none was cancelled), a cross otherwise.
pub open spec fn status_icon(j: JobResult) -> Seq<char> {
    if job_succeeded(j) {
        "\u{2713}"@
    } else if some_step(j, StepOutcome::Cancelled) {
        "\u{2717}"@
    } else if some_step(j, StepOutcome::TimedOut) {
        "\u{29D6}"@
    } else {
        "\u{2717}"@
    }
}

/// The icon of a job (see `status_icon`).
pub fn job_status_icon(job: &JobResult) -> (r: &'static str)
    ensures
        r@ == status_icon(*job),
{
    if job.succeeded() {
        "\u{2713}"
    } else if has_step_outcome(job, StepOutcome::Cancelled) {
        "\u{2717}"
    } else if has_step_outcome(job, StepOutcome::TimedOut) {
        "\u{29D6}"
    } else {
        "\u{2717}"
    }
}

/// The log line written when a job finishes.
pub open spec fn job_log_line(repo: Seq<char>, sha: Seq<char>, j: JobResult) -> Seq<char> {
    "job finished: repo="@ + repo + " sha="@ + sha + " job=\""@ + j.job_name@ + "\" status="@
        + (if job_succeeded(j) { "ok"@ } else { "FAIL"@ }) + " duration="@
        + duration_text(rounded_secs(j.duration_ms as nat))
}

/// The log line written when a job finishes (see `job_log_line`).
pub fn format_job_log_line(repo_name: &str, sha_short: &str, job: &JobResult) -> (r: String)
    ensures
        r@ == job_log_line(repo_name@, sha_short@, *job),
{
    proof {
        reveal_strlit("job finished: repo=");
        reveal_strlit(" sha=");
        reveal_strlit(" job=\"");
        reveal_strlit("\" status=");
        reveal_strlit("ok");
        reveal_strlit("FAIL");
        reveal_strlit(" duration=");
    }
    let mut out = String::from_str("job finished: repo=");
    out.append(repo_name);
    out.append(" sha=");
    out.append(sha_short);
    out.append(" job=\"");
    out.append(job.job_name.as_str());
    out.append("\" status=");
    out.append(if job.succeeded() { "ok" } else { "FAIL" });
    out.append(" duration=");
    out.append(format_duration_ms(job.duration_ms).as_str());
    out
}

/// The first eight characters of a commit id.
pub open spec fn short_of(sha: CommitSha) -> Seq<char> {
    sha@.subrange(0, 8)
}

/// The line of the repository summary for the run numbered `ordinal`.
pub open spec fn run_line(ordinal: nat, run: RunResult) -> Seq<char> {
    let passed = count_jobs(run.jobs@, true);
    let failed = count_jobs(run.jobs@, false);
    let msg = if run.commit_message@.len() == 0 { Seq::empty() } else { " "@ + run.commit_message@ };
    let status_tag = if run.cancelled {
        " CANCELLED"@
    } else if run.jobs@.len() != run.total_jobs {
        " RUNNING"@
    } else if failed == 0 {
        Seq::empty()
    } else {
        " FAILED"@
    };
    let failed_part = if failed > 0 { ", "@ + decimal(failed) + " failed"@ } else { Seq::empty() };
    decimal(ordinal) + ". `"@ + short_of(run.sha) + "`"@ + msg + " ["@ + decimal(passed) + "/"@
        + decimal(run.total_jobs as nat) + " passed"@ + failed_part + "] attempt "@
        + decimal(run.attempt.spec_get() as nat) + status_tag + "\n"@
}

/// The lines of the repository summary for `runs`, numbered from one.
pub open spec fn run_lines(runs: Seq<RunResult>) -> Seq<char>
    decreases runs.len(),
{
    if runs.len() == 0 {
        Seq::empty()
    } else {
        run_lines(runs.drop_last()) + run_line(runs.len(), runs.last())
    }
}

/// The markdown summary of a repository's runs.
pub open spec fn repo_summary_md(repo: Seq<char>, runs: Seq<RunResult>) -> Seq<char> {
    "# "@ + repo + "\n\n"@ + if runs.len() == 0 { "No runs recorded.\n"@ } else { run_lines(runs) }
}

/// Every job failed or not, so a run with no failed job and all jobs present
/// has passed unless it was cancelled.
proof fn lemma_no_failed_all_succeeded(js: Seq<JobResult>)
    ensures
        count_jobs(js, false) == 0 <==> forall|i: int| 0 <= i < js.len() ==> job_succeeded(#[trigger] js[i]),
    decreases js.len(),
{
    if js.len() > 0 {
        lemma_no_failed_all_succeeded(js.drop_last());
        assert forall|i: int| 0 <= i < js.len() - 1 implies #[trigger] js.drop_last()[i] == js[i] by {}
        if count_jobs(js, false) == 0 {
            assert forall|i: int| 0 <= i < js.len() implies job_succeeded(#[trigger] js[i]) by {
                if i < js.len() - 1 {
                    assert(js.drop_last()[i] == js[i]);
                }
            }
        } else if !job_succeeded(js.last()) {
            assert(!job_succeeded(js[js.len() - 1]));
        } else {
            let k = choose|k: int| 0 <= k < js.drop_last().len() && !job_succeeded(#[trigger] js.drop_last()[k]);
            assert(!job_succeeded(js[k]));
        }
    }
}

fn run_line_exec(ordinal: u64, run: &RunResult) -> (r: String)
    ensures
        r@ == run_line(ordinal as nat, *run),
{
    proof {
        reveal_strlit(" ");
        reveal_strlit(" CANCELLED");
        reveal_strlit(" RUNNING");
        reveal_strlit(" FAILED");
        reveal_strlit(", ");
        reveal_strlit(" failed");
        reveal_strlit(". `");
        reveal_strlit("`");
        reveal_strlit(" [");
        reveal_strlit("/");
        reveal_strlit(" passed");
        reveal_strlit("] attempt ");
        reveal_strlit("\n");
        lemma_no_failed_all_succeeded(run.jobs@);
    }
    let passed = run.jobs_passed();
    let failed = run.jobs_failed();
    let mut out = u64_to_string(ordinal);
    out.append(". `");
    out.append(run.sha.short());
    out.append("`");
    if !run.commit_message.as_str().is_empty() {
        out.append(" ");
        out.append(run.commit_message.as_str());
    }
    out.append(" [");
    out.append(u64_to_string(passed as u64).as_str());
    out.append("/");
    out.append(u64_to_string(run.total_jobs as u64).as_str());
    out.append(" passed");
    if failed > 0 {
        out.append(", ");
        out.append(u64_to_string(failed as u64).as_str());
        out.append(" failed");
    }
    out.append("] attempt ");
    out.append(u64_to_string(run.attempt.get() as u64).as_str());
    if run.cancelled {
        out.append(" CANCELLED");
    } else if !run.is_complete() {
        out.append(" RUNNING");
    } else if !run.all_passed() {
        out.append(" FAILED");
    }
    out.append("\n");
    out
}

/// The markdown summary of a repository's runs (see `repo_summary_md`): a title,
/// then one numbered line per run, or a note that there is none.
pub fn render_repo_summary_md(repo_name: &str, runs: &[RunResult]) -> (r: String)
    ensures
        r@ == repo_summary_md(repo_name@, runs@),
{
    proof {
        reveal_strlit("# ");
        reveal_strlit("\n\n");
        reveal_strlit("No runs recorded.\n");
    }
    let mut out = String::from_str("# ");
    out.append(repo_name);
    out.append("\n\n");
    let ghost head = out@;
    if runs.len() == 0 {
        out.append("No runs recorded.\n");
        return out;
    }
    let mut i: usize = 0;
    while i < runs.len()
        invariant
            i <= runs@.len(),
            out@ == head + run_lines(runs@.take(i as int)),
        decreases runs@.len() - i,
    {
        let line = run_line_exec(i as u64 + 1, &runs[i]);
        out.append(line.as_str());
        proof {
            assert(runs@.take(i + 1).drop_last() =~= runs@.take(i as int));
            assert(runs@.take(i + 1).last() == runs@[i as int]);
            assert(head + run_lines(runs@.take(i as int)) + line@ =~= head + (run_lines(runs@.take(i as int)) + line@));
        }
        i = i + 1;
    }
    proof {
        assert(runs@.take(runs@.len() as int) =~= runs@);
    }
    out
}

/// The line of a commit summary for a finished job: name, icon and duration.
pub open spec fn job_line(j: JobResult) -> Seq<char> {
    "* "@ + j.job_name@ + " "@ + status_icon(j) + " "@ + duration_text(rounded_secs(j.duration_ms as nat)) + "\n"@
}

/// The lines of a commit summary for the finished jobs `js`.
pub open spec fn job_lines(js: Seq<JobResult>) -> Seq<char>
    decreases js.len(),
{
    if js.len() == 0 {
        Seq::empty()
    } else {
        job_lines(js.drop_last()) + job_line(js.last())
    }
}

/// Whether some job of `js` is named `name`.
pub open spec fn has_job_named(js: Seq<JobResult>, name: Seq<char>) -> bool {
    exists|k: int| 0 <= k < js.len() && (#[trigger] js[k]).job_name@ == name
}

/// The lines of a commit summary for the jobs of `names` that have no result
/// in `js` yet.
pub open spec fn pending_lines(names: Seq<String>, js: Seq<JobResult>) -> Seq<char>
    decreases names.len(),
{
    if names.len() == 0 {
        Seq::empty()
    } else {
        pending_lines(names.drop_last(), js) + if has_job_named(js, names.last()@) {
            Seq::empty()
        } else {
            "* "@ + names.last()@ + " \u{2026} running\n"@
        }
    }
}

/// The markdown summary of one run: the commit, then a line per finished job,
/// then a line per job still running.
pub open spec fn commit_summary(run: RunResult) -> Seq<char> {
    "# "@ + short_of(run.sha) + " "@ + run.commit_message@ + "\n"@ + job_lines(run.jobs@)
        + pending_lines(run.all_job_names@, run.jobs@)
}

fn has_job_named_exec(js: &Vec<JobResult>, name: &String) -> (r: bool)
    ensures
        r == has_job_named(js@, name@),
{
    let mut k: usize = 0;
    while k < js.len()
        invariant
            k <= js@.len(),
            forall|q: int| 0 <= q < k ==> (#[trigger] js@[q]).job_name@ != name@,
        decreases js@.len() - k,
    {
        if js[k].job_name == *name {
            return true;
        }
        k = k + 1;
    }
    false
}

/// The markdown summary of one run (see `commit_summary`).
pub fn commit_summary_md(result: &RunResult) -> (r: String)
    ensures
        r@ == commit_summary(*result),
{
    proof {
        reveal_strlit("# ");
        reveal_strlit(" ");
        reveal_strlit("\n");
        reveal_strlit("* ");
        reveal_strlit(" \u{2026} running\n");
    }
    let mut out = String::from_str("# ");
    out.append(result.sha.short());
    out.append(" ");
    out.append(result.commit_message.as_str());
    out.append("\n");
    let ghost head = out@;
    let mut i: usize = 0;
    while i < result.jobs.len()
        invariant
            i <= result.jobs@.len(),
            out@ == head + job_lines(result.jobs@.take(i as int)),
        decreases result.jobs@.len() - i,
    {
        let job = &result.jobs[i];
        out.append("* ");
        out.append(job.job_name.as_str());
        out.append(" ");
        out.append(job_status_icon(job));
        out.append(" ");
        out.append(format_duration_ms(job.duration_ms).as_str());
        out.append("\n");
        proof {
            assert(result.jobs@.take(i + 1).drop_last() =~= result.jobs@.take(i as int));
            assert(result.jobs@.take(i + 1).last() == result.jobs@[i as int]);
        }
        i = i + 1;
    }
    proof {
        assert(result.jobs@.take(result.jobs@.len() as int) =~= result.jobs@);
    }
    let ghost mid = out@;
    let mut n: usize = 0;
    while n < result.all_job_names.len()
        invariant
            n <= result.all_job_names@.len(),
            out@ == mid + pending_lines(result.all_job_names@.take(n as int), result.jobs@),
        decreases result.all_job_names@.len() - n,
    {
        let name = &result.all_job_names[n];
        if !has_job_named_exec(&result.jobs, name) {
            out.append("* ");
            out.append(name.as_str());
            out.append(" \u{2026} running\n");
        }
        proof {
            assert(result.all_job_names@.take(n + 1).drop_last() =~= result.all_job_names@.take(n as int));
            assert(result.all_job_names@.take(n + 1).last() == result.all_job_names@[n as int]);
        }
        n = n + 1;
    }
    proof {
        assert(result.all_job_names@.take(result.all_job_names@.len() as int) =~= result.all_job_names@);
    }
    out
}

/// Whether `runs[i]` is the run of commit `sha` at attempt `attempt`.
pub open spec fn same_run(r: RunResult, sha: Seq<char>, attempt: AttemptNumber) -> bool {
    r.sha@ == sha && r.attempt == attempt
}

/// The index of the first run of `runs` for commit `sha` at attempt `attempt`,
/// from `i` on, or `runs.len()` when there is none.
pub open spec fn find_run_from(runs: Seq<RunResult>, sha: Seq<char>, attempt: AttemptNumber, i: int) -> int
    decreases runs.len() - i,
{
    if i >= runs.len() {
        runs.len() as int
    } else if same_run(runs[i], sha, attempt) {
        i
    } else {
        find_run_from(runs, sha, attempt, i + 1)
    }
}

/// The runs recorded for a repository once `run` is recorded: it takes the place
/// of the earlier record of the same commit and attempt, or comes last.
pub open spec fn upserted(runs: Seq<RunResult>, run: RunResult) -> Seq<RunResult> {
    let p = find_run_from(runs, run.sha@, run.attempt, 0);
    if p < runs.len() {
        runs.update(p, run)
    } else {
        runs.push(run)
    }
}

proof fn lemma_find_run_from(runs: Seq<RunResult>, sha: Seq<char>, attempt: AttemptNumber, i: int)
    requires
        0 <= i <= runs.len(),
    ensures
        i <= find_run_from(runs, sha, attempt, i) <= runs.len(),
        find_run_from(runs, sha, attempt, i) < runs.len() ==> same_run(runs[find_run_from(runs, sha, attempt, i)], sha, attempt),
        forall|k: int| i <= k < find_run_from(runs, sha, attempt, i) ==> !same_run(#[trigger] runs[k], sha, attempt),
    decreases runs.len() - i,
{
    if i < runs.len() && !same_run(runs[i], sha, attempt) {
        lemma_find_run_from(runs, sha, attempt, i + 1);
    }
}

/// Records `run` among `runs` (see `upserted`).
pub fn upsert_run(runs: &mut Vec<RunResult>, run: RunResult)
    ensures
        final(runs)@ == upserted(old(runs)@, run),
{
    proof {
        lemma_find_run_from(runs@, run.sha@, run.attempt, 0);
    }
    let mut i: usize = 0;
    while i < runs.len()
        invariant
            i <= runs@.len(),
            runs@ == old(runs)@,
            forall|k: int| 0 <= k < i ==> !same_run(#[trigger] runs@[k], run.sha@, run.attempt),
            find_run_from(runs@, run.sha@, run.attempt, 0) >= i,
            find_run_from(runs@, run.sha@, run.attempt, 0) < runs@.len() ==> same_run(runs@[find_run_from(runs@, run.sha@, run.attempt, 0)], run.sha@, run.attempt),
            forall|k: int| 0 <= k < find_run_from(runs@, run.sha@, run.attempt, 0) ==> !same_run(#[trigger] runs@[k], run.sha@, run.attempt),
        decreases runs@.len() - i,
    {
        let same_sha = chars_eq(&chars_of(runs[i].sha.as_str()), &chars_of(run.sha.as_str()));
        if same_sha && runs[i].attempt == run.attempt {
            runs.set(i, run);
            return;
        }
        i = i + 1;
    }
    runs.push(run);
}

/// Recording a run whose commit and attempt are already recorded keeps the
/// number of runs; recording a new one adds one at the end, and either way the
/// runs of other commits or attempts stay as they were.
pub proof fn law_upsert_replaces_or_appends(runs: Seq<RunResult>, run: RunResult)
    ensures
        (exists|k: int| 0 <= k < runs.len() && same_run(#[trigger] runs[k], run.sha@, run.attempt))
            ==> upserted(runs, run).len() == runs.len(),
        !(exists|k: int| 0 <= k < runs.len() && same_run(#[trigger] runs[k], run.sha@, run.attempt))
            ==> upserted(runs, run) == runs.push(run),
        forall|k: int| 0 <= k < runs.len() && !same_run(#[trigger] runs[k], run.sha@, run.attempt)
            ==> upserted(runs, run)[k] == runs[k],
        exists|k: int| 0 <= k < upserted(runs, run).len() && #[trigger] upserted(runs, run)[k] == run,
{
    lemma_find_run_from(runs, run.sha@, run.attempt, 0);
    let p = find_run_from(runs, run.sha@, run.attempt, 0);
    if p < runs.len() {
        assert(upserted(runs, run)[p] == run);
    } else {
        assert(upserted(runs, run)[runs.len() as int] == run);
    }
}

/// An integer in decimal, with a leading `-` when negative.
pub open spec fn signed_decimal(i: int) -> Seq<char> {
    if i < 0 { "-"@ + decimal((-i) as nat) } else { decimal(i as nat) }
}

fn i32_to_string(i: i32) -> (r: String)
    ensures
        r@ == signed_decimal(i as int),
{
    proof {
        reveal_strlit("-");
    }
    if i < 0 {
        let mag: u64 = (0i64 - (i as i64)) as u64;
        let mut out = String::from_str("-");
        out.append(u64_to_string(mag).as_str());
        out
    } else {
        u64_to_string(i as u64)
    }
}

/// The tag of a step's outcome in the text summary.
pub open spec fn outcome_tag(o: StepOutcome) -> Seq<char> {
    match o {
        StepOutcome::Success => "ok"@,
        StepOutcome::Failed { .. } => "FAIL"@,
        StepOutcome::Cancelled => "CANCEL"@,
        StepOutcome::Skipped => "SKIP"@,
        StepOutcome::TimedOut => "TIMEOUT"@,
    }
}

/// The line of the text summary for one step; a failure with an exit code shows it.
pub open spec fn step_line(st: StepResult) -> Seq<char> {
    let tag = match st.outcome {
        StepOutcome::Failed { exit_code: Some(c) } => "FAIL exit="@ + signed_decimal(c as int),
        _ => outcome_tag(st.outcome),
    };
    "    ["@ + tag + "] "@ + st.step_name@ + " ("@ + duration_text(rounded_secs(st.duration_ms as nat)) + ")\n"@
}

/// The lines of the text summary for the steps `sts`.
pub open spec fn step_lines(sts: Seq<StepResult>) -> Seq<char>
    decreases sts.len(),
{
    if sts.len() == 0 {
        Seq::empty()
    } else {
        step_lines(sts.drop_last()) + step_line(sts.last())
    }
}

/// The lines of the text summary for one job and its steps.
pub open spec fn job_block(j: JobResult) -> Seq<char> {
    "  "@ + status_icon(j) + " "@ + j.job_name@ + " "@ + duration_text(rounded_secs(j.duration_ms as nat)) + "\n"@
        + step_lines(j.steps@)
}

/// The lines of the text summary for the jobs `js`.
pub open spec fn job_blocks(js: Seq<JobResult>) -> Seq<char>
    decreases js.len(),
{
    if js.len() == 0 {
        Seq::empty()
    } else {
        job_blocks(js.drop_last()) + job_block(js.last())
    }
}

/// Whether the run passed: not cancelled, every job present and successful.
pub open spec fn run_passed(run: RunResult) -> bool {
    !run.cancelled && run.jobs@.len() == run.total_jobs && forall|i: int|
        0 <= i < run.jobs@.len() ==> job_succeeded(#[trigger] run.jobs@[i])
}

/// The text summary of a run: a header with its verdict, then each job and its steps.
pub open spec fn run_summary_text(run: RunResult) -> Seq<char> {
    let status = if run.cancelled {
        "CANCELLED"@
    } else if run_passed(run) {
        "PASSED"@
    } else {
        "FAILED"@
    };
    "=== "@ + run.repo_name@ + " | "@ + short_of(run.sha) + " attempt "@ + decimal(run.attempt.spec_get() as nat)
        + " \u{2014} "@ + status + " ===\n"@ + job_blocks(run.jobs@)
}

fn step_line_exec(st: &StepResult) -> (r: String)
    ensures
        r@ == step_line(*st),
{
    proof {
        reveal_strlit("    [");
        reveal_strlit("FAIL exit=");
        reveal_strlit("ok");
        reveal_strlit("FAIL");
        reveal_strlit("CANCEL");
        reveal_strlit("SKIP");
        reveal_strlit("TIMEOUT");
        reveal_strlit("] ");
        reveal_strlit(" (");
        reveal_strlit(")\n");
    }
    let mut out = String::from_str("    [");
    match st.outcome {
        StepOutcome::Success => out.append("ok"),
        StepOutcome::Failed { exit_code: Some(c) } => {
            out.append("FAIL exit=");
            out.append(i32_to_string(c).as_str());
        },
        StepOutcome::Failed { exit_code: None } => out.append("FAIL"),
        StepOutcome::Cancelled => out.append("CANCEL"),
        StepOutcome::Skipped => out.append("SKIP"),
        StepOutcome::TimedOut => out.append("TIMEOUT"),
    }
    out.append("] ");
    out.append(st.step_name.as_str());
    out.append(" (");
    out.append(format_duration_ms(st.duration_ms).as_str());
    out.append(")\n");
    out
}

fn job_block_exec(j: &JobResult) -> (r: String)
    ensures
        r@ == job_block(*j),
{
    proof {
        reveal_strlit("  ");
        reveal_strlit(" ");
        reveal_strlit("\n");
    }
    let mut out = String::from_str("  ");
    out.append(job_status_icon(j));
    out.append(" ");
    out.append(j.job_name.as_str());
    out.append(" ");
    out.append(format_duration_ms(j.duration_ms).as_str());
    out.append("\n");
    let ghost head = out@;
    let mut i: usize = 0;
    while i < j.steps.len()
        invariant
            i <= j.steps@.len(),
            out@ == head + step_lines(j.steps@.take(i as int)),
        decreases j.steps@.len() - i,
    {
        let line = step_line_exec(&j.steps[i]);
        out.append(line.as_str());
        proof {
            assert(j.steps@.take(i + 1).drop_last() =~= j.steps@.take(i as int));
            assert(j.steps@.take(i + 1).last() == j.steps@[i as int]);
        }
        i = i + 1;
    }
    proof {
        assert(j.steps@.take(j.steps@.len() as int) =~= j.steps@);
    }
    out
}

/// The text summary of a run (see `run_summary_text`).
pub fn format_summary(result: &RunResult) -> (r: String)
    ensures
        r@ == run_summary_text(*result),
{
    proof {
        reveal_strlit("=== ");
        reveal_strlit(" | ");
        reveal_strlit(" attempt ");
        reveal_strlit(" \u{2014} ");
        reveal_strlit("CANCELLED");
        reveal_strlit("PASSED");
        reveal_strlit("FAILED");
        reveal_strlit(" ===\n");
    }
    let status = if result.cancelled {
        "CANCELLED"
    } else if result.all_passed() {
        "PASSED"
    } else {
        "FAILED"
    };
    let mut out = String::from_str("=== ");
    out.append(result.repo_name.as_str());
    out.append(" | ");
    out.append(result.sha.short());
    out.append(" attempt ");
    out.append(u64_to_string(result.attempt.get() as u64).as_str());
    out.append(" \u{2014} ");
    out.append(status);
    out.append(" ===\n");
    let ghost head = out@;
    let mut i: usize = 0;
    while i < result.jobs.len()
        invariant
            i <= result.jobs@.len(),
            out@ == head + job_blocks(result.jobs@.take(i as int)),
        decreases result.jobs@.len() - i,
    {
        let block = job_block_exec(&result.jobs[i]);
        out.append(block.as_str());
        proof {
            assert(result.jobs@.take(i + 1).drop_last() =~= result.jobs@.take(i as int));
            assert(result.jobs@.take(i + 1).last() == result.jobs@[i as int]);
        }
        i = i + 1;
    }
    proof {
        assert(result.jobs@.take(result.jobs@.len() as int) =~= result.jobs@);
    }
    out
}

} // verus!
