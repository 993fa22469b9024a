//! Runs of jobs: outcomes, results, which jobs wait on which, and the decisions
//! taken while a run goes on.
use vstd::prelude::*;
use vstd::string::*;
use crate::ci::types::{is_alnum, is_alphanumeric, AttemptNumber, CommitSha, RepoName};
use crate::ci::workflow::{WorkflowJob, WorkflowStep};
use crate::text::{chars_eq, chars_of, decimal, has_prefix, push_char, slice_chars, starts_with, u64_to_string};

verus! {

/// How a step ended.
#[derive(Debug, Clone, Copy, PartialEq, Eq, Structural)]
pub enum StepOutcome {
    Success,
    Failed { exit_code: Option<i32> },
    Cancelled,
    Skipped,
    TimedOut,
}

/// A step's result: its name, how it ended, where its output went, and how long
/// it took in milliseconds.
#[derive(Debug)]
pub struct StepResult {
    pub step_name: String,
    pub outcome: StepOutcome,
    pub stdout_path: String,
    pub stderr_path: String,
    pub duration_ms: u64,
}

/// A job's result: its name, its steps' results, and how long it took in
/// milliseconds.
#[derive(Debug)]
pub struct JobResult {
    pub job_name: String,
    pub steps: Vec<StepResult>,
    pub duration_ms: u64,
}

/// A run's result.
#[derive(Debug)]
pub struct RunResult {
    pub repo_name: RepoName,
    pub sha: CommitSha,
    pub commit_message: String,
    pub attempt: AttemptNumber,
    pub jobs: Vec<JobResult>,
    pub total_jobs: usize,
    pub all_job_names: Vec<String>,
    pub cancelled: bool,
}

/// A job succeeded when every one of its steps did.
pub open spec fn job_succeeded(j: JobResult) -> bool {
    forall|i: int| 0 <= i < j.steps@.len() ==> (#[trigger] j.steps@[i]).outcome == StepOutcome::Success
}

/// How many of `js` satisfy `passed == job_succeeded`.
pub open spec fn count_jobs(js: Seq<JobResult>, passed: bool) -> nat
    decreases js.len(),
{
    if js.len() == 0 {
        0
    } else {
        count_jobs(js.drop_last(), passed) + if job_succeeded(js.last()) == passed { 1nat } else { 0nat }
    }
}

/// Each job either passed or failed.
pub proof fn lemma_passed_plus_failed(js: Seq<JobResult>)
    ensures
        count_jobs(js, true) + count_jobs(js, false) == js.len(),
    decreases js.len(),
{
    if js.len() > 0 {
        lemma_passed_plus_failed(js.drop_last());
    }
}

impl JobResult {
    /// Whether every step succeeded.
    pub fn succeeded(&self) -> (r: bool)
        ensures
            r == job_succeeded(*self),
    {
        let mut i: usize = 0;
        while i < self.steps.len()
            invariant
                i <= self.steps@.len(),
                forall|k: int| 0 <= k < i ==> (#[trigger] self.steps@[k]).outcome == StepOutcome::Success,
            decreases self.steps@.len() - i,
        {
            if self.steps[i].outcome != StepOutcome::Success {
                return false;
            }
            i = i + 1;
        }
        true
    }
}

fn count_exec(js: &Vec<JobResult>, passed: bool) -> (r: usize)
    ensures
        r == count_jobs(js@, passed),
{
    let mut n: usize = 0;
    let mut i: usize = 0;
    while i < js.len()
        invariant
            i <= js@.len(),
            n == count_jobs(js@.subrange(0, i as int), passed),
            n <= i,
        decreases js@.len() - i,
    {
        proof {
            assert(js@.subrange(0, i + 1).drop_last() =~= js@.subrange(0, i as int));
        }
        if js[i].succeeded() == passed {
            n = n + 1;
        }
        i = i + 1;
    }
    proof {
        assert(js@.subrange(0, js@.len() as int) =~= js@);
    }
    n
}

impl RunResult {
    /// Whether the run was not cancelled, every job ran, and every job succeeded.
    pub fn all_passed(&self) -> (r: bool)
        ensures
            r == (!self.cancelled && self.jobs@.len() == self.total_jobs && forall|i: int|
                0 <= i < self.jobs@.len() ==> job_succeeded(#[trigger] self.jobs@[i])),
    {
        if self.cancelled || self.jobs.len() != self.total_jobs {
            return false;
        }
        let mut i: usize = 0;
        while i < self.jobs.len()
            invariant
                i <= self.jobs@.len(),
                forall|k: int| 0 <= k < i ==> job_succeeded(#[trigger] self.jobs@[k]),
            decreases self.jobs@.len() - i,
        {
            if !self.jobs[i].succeeded() {
                return false;
            }
            i = i + 1;
        }
        true
    }

    /// How many jobs succeeded.
    pub fn jobs_passed(&self) -> (r: usize)
        ensures
            r == count_jobs(self.jobs@, true),
    {
        count_exec(&self.jobs, true)
    }

    /// How many jobs did not succeed.
    pub fn jobs_failed(&self) -> (r: usize)
        ensures
            r == count_jobs(self.jobs@, false),
    {
        count_exec(&self.jobs, false)
    }

    /// Whether every job has a result.
    pub fn is_complete(&self) -> (r: bool)
        ensures
            r == (self.jobs@.len() == self.total_jobs),
    {
        self.jobs.len() == self.total_jobs
    }
}

/// A character kept in a directory name: alphanumeric (see `is_alnum`), `-`,
/// `_` or `.`.
pub open spec fn dir_char_ok(c: char) -> bool {
    is_alnum(c) || c == '-' || c == '_' || c == '.'
}

/// `s` with every character that may not stand in a directory name made `_`.
pub open spec fn sanitized(s: Seq<char>) -> Seq<char> {
    s.map_values(|c: char| if dir_char_ok(c) { c } else { '_' })
}

/// A directory name for `s` (see `sanitized`).
pub fn sanitize_dir_name(s: &str) -> (r: String)
    ensures
        r@ == sanitized(s@),
{
    let v = chars_of(s);
    let mut out = String::new();
    let mut i: usize = 0;
    while i < v.len()
        invariant
            i <= v@.len(),
            out@ == sanitized(v@.subrange(0, i as int)),
        decreases v@.len() - i,
    {
        let c = v[i];
        let keep = is_alphanumeric(c) || c == '-' || c == '_' || c == '.';
        push_char(&mut out, if keep { c } else { '_' });
        proof {
            assert(sanitized(v@.subrange(0, i + 1)) =~= sanitized(v@.subrange(0, i as int)).push(if dir_char_ok(c) { c } else { '_' }));
        }
        i = i + 1;
    }
    proof {
        assert(v@.subrange(0, v@.len() as int) =~= v@);
    }
    out
}

/// `r` is the result of `job` in which every step has the outcome `outcome`, no
/// output and no duration.
pub open spec fn blank_result(r: JobResult, job: WorkflowJob, outcome: StepOutcome) -> bool {
    &&& r.job_name@ == job.name@
    &&& r.duration_ms == 0
    &&& r.steps@.len() == job.steps@.len()
    &&& forall|i: int| 0 <= i < r.steps@.len() ==> {
        &&& (#[trigger] r.steps@[i]).step_name@ == job.steps@[i].name@
        &&& r.steps@[i].outcome == outcome
        &&& r.steps@[i].stdout_path@.len() == 0
        &&& r.steps@[i].stderr_path@.len() == 0
        &&& r.steps@[i].duration_ms == 0
    }
}

fn job_with_outcome(job: &WorkflowJob, outcome: StepOutcome) -> (r: JobResult)
    ensures
        blank_result(r, *job, outcome),
{
    let mut steps: Vec<StepResult> = Vec::new();
    let mut i: usize = 0;
    while i < job.steps.len()
        invariant
            i <= job.steps@.len(),
            steps@.len() == i,
            forall|k: int| 0 <= k < i ==> {
                &&& (#[trigger] steps@[k]).step_name@ == job.steps@[k].name@
                &&& steps@[k].outcome == outcome
                &&& steps@[k].stdout_path@.len() == 0
                &&& steps@[k].stderr_path@.len() == 0
                &&& steps@[k].duration_ms == 0
            },
        decreases job.steps@.len() - i,
    {
        steps.push(StepResult {
            step_name: job.steps[i].name.clone(),
            outcome,
            stdout_path: String::new(),
            stderr_path: String::new(),
            duration_ms: 0,
        });
        i = i + 1;
    }
    JobResult { job_name: job.name.clone(), steps, duration_ms: 0 }
}

/// The result of a job that was cancelled before it started: every step cancelled.
pub fn make_cancelled_job(job: &WorkflowJob) -> (r: JobResult)
    ensures
        blank_result(r, *job, StepOutcome::Cancelled),
{
    job_with_outcome(job, StepOutcome::Cancelled)
}

/// The result of a job skipped because a job it needs failed: every step skipped.
pub fn make_skipped_job(job: &WorkflowJob) -> (r: JobResult)
    ensures
        blank_result(r, *job, StepOutcome::Skipped),
{
    job_with_outcome(job, StepOutcome::Skipped)
}

/// The result of a job whose log directory could not be made: every step failed
/// without an exit code.
pub fn make_unstarted_job(job: &WorkflowJob) -> (r: JobResult)
    ensures
        blank_result(r, *job, StepOutcome::Failed { exit_code: None }),
{
    job_with_outcome(job, StepOutcome::Failed { exit_code: None })
}

/// Whether job id `id` answers the need `need`: the same id, or, when no job has
/// that id, a matrix job named `<need> (...)`.
pub open spec fn answers_need(jobs: Seq<WorkflowJob>, need: Seq<char>, k: int) -> bool {
    let id = jobs[k].job_id@;
    if exists|m: int| 0 <= m < jobs.len() && (#[trigger] jobs[m]).job_id@ == need {
        id == need
    } else {
        has_prefix(id, need) && has_prefix(id.subrange(need.len() as int, id.len() as int), " ("@)
    }
}

/// Whether job `k` is one that job `j` waits for.
pub open spec fn depends_on(jobs: Seq<WorkflowJob>, j: int, k: int) -> bool {
    exists|n: int| 0 <= n < jobs[j].needs@.len() && answers_need(jobs, #[trigger] jobs[j].needs@[n]@, k)
}

fn id_exists(jobs: &[WorkflowJob], need: &Vec<char>) -> (r: bool)
    ensures
        r == exists|m: int| 0 <= m < jobs@.len() && (#[trigger] jobs@[m]).job_id@ == need@,
{
    let mut m: usize = 0;
    while m < jobs.len()
        invariant
            m <= jobs@.len(),
            forall|q: int| 0 <= q < m ==> (#[trigger] jobs@[q]).job_id@ != need@,
        decreases jobs@.len() - m,
    {
        if chars_eq(&chars_of(jobs[m].job_id.as_str()), need) {
            return true;
        }
        m = m + 1;
    }
    false
}

fn answers_need_exec(jobs: &[WorkflowJob], need: &Vec<char>, exact: bool, k: usize) -> (r: bool)
    requires
        k < jobs@.len(),
        exact == exists|m: int| 0 <= m < jobs@.len() && (#[trigger] jobs@[m]).job_id@ == need@,
    ensures
        r == answers_need(jobs@, need@, k as int),
{
    let id = chars_of(jobs[k].job_id.as_str());
    if exact {
        chars_eq(&id, need)
    } else {
        if !starts_with(&id, need) {
            return false;
        }
        let rest = slice_chars(&id, need.len(), id.len());
        starts_with(&rest, &chars_of(" ("))
    }
}

/// For each job, the indices of the jobs it waits for, in increasing order and
/// each once (see `depends_on`).
pub fn dependency_indices(jobs: &[WorkflowJob]) -> (r: Vec<Vec<usize>>)
    ensures
        r@.len() == jobs@.len(),
        forall|j: int| 0 <= j < jobs@.len() ==> {
            &&& forall|a: int, b: int| 0 <= a < b < (#[trigger] r@[j])@.len() ==> r@[j]@[a] < r@[j]@[b]
            &&& forall|a: int| 0 <= a < r@[j]@.len() ==> r@[j]@[a] < jobs@.len() && depends_on(jobs@, j, r@[j]@[a] as int)
            &&& forall|k: int| 0 <= k < jobs@.len() && depends_on(jobs@, j, k) ==> r@[j]@.contains(k as usize)
        },
{
    let n = jobs.len();
    let mut out: Vec<Vec<usize>> = Vec::new();
    let mut j: usize = 0;
    while j < n
        invariant
            n == jobs@.len(),
            j <= n,
            out@.len() == j,
            forall|jj: int| 0 <= jj < j ==> {
                &&& forall|a: int, b: int| 0 <= a < b < (#[trigger] out@[jj])@.len() ==> out@[jj]@[a] < out@[jj]@[b]
                &&& forall|a: int| 0 <= a < out@[jj]@.len() ==> out@[jj]@[a] < jobs@.len() && depends_on(jobs@, jj, out@[jj]@[a] as int)
                &&& forall|k: int| 0 <= k < jobs@.len() && depends_on(jobs@, jj, k) ==> out@[jj]@.contains(k as usize)
            },
        decreases n - j,
    {
        let needs = &jobs[j].needs;
        let mut need_chars: Vec<Vec<char>> = Vec::new();
        let mut exact: Vec<bool> = Vec::new();
        let mut q: usize = 0;
        while q < needs.len()
            invariant
                q <= needs@.len(),
                need_chars@.len() == q,
                exact@.len() == q,
                forall|t: int| 0 <= t < q ==> (#[trigger] need_chars@[t])@ == needs@[t]@,
                forall|t: int| 0 <= t < q ==> exact@[t] == exists|m: int| 0 <= m < jobs@.len() && (#[trigger] jobs@[m]).job_id@ == needs@[t]@,
            decreases needs@.len() - q,
        {
            let nc = chars_of(needs[q].as_str());
            let e = id_exists(jobs, &nc);
            need_chars.push(nc);
            exact.push(e);
            q = q + 1;
        }
        let mut deps: Vec<usize> = Vec::new();
        let mut k: usize = 0;
        while k < n
            invariant
                n == jobs@.len(),
                j < n,
                k <= n,
                needs == &jobs@[j as int].needs,
                need_chars@.len() == needs@.len(),
                exact@.len() == needs@.len(),
                forall|t: int| 0 <= t < needs@.len() ==> (#[trigger] need_chars@[t])@ == needs@[t]@,
                forall|t: int| 0 <= t < needs@.len() ==> exact@[t] == exists|m: int| 0 <= m < jobs@.len() && (#[trigger] jobs@[m]).job_id@ == needs@[t]@,
                forall|a: int, b: int| 0 <= a < b < deps@.len() ==> deps@[a] < deps@[b],
                forall|a: int| 0 <= a < deps@.len() ==> deps@[a] < k && depends_on(jobs@, j as int, deps@[a] as int),
                forall|kk: int| 0 <= kk < k && depends_on(jobs@, j as int, kk) ==> deps@.contains(kk as usize),
            decreases n - k,
        {
            let mut hit = false;
            let mut t: usize = 0;
            while t < need_chars.len() && !hit
                invariant
                    k < n,
                    n == jobs@.len(),
                    t <= need_chars@.len(),
                    needs == &jobs@[j as int].needs,
                    need_chars@.len() == needs@.len(),
                    exact@.len() == needs@.len(),
                    forall|u: int| 0 <= u < needs@.len() ==> (#[trigger] need_chars@[u])@ == needs@[u]@,
                    forall|u: int| 0 <= u < needs@.len() ==> exact@[u] == exists|m: int| 0 <= m < jobs@.len() && (#[trigger] jobs@[m]).job_id@ == needs@[u]@,
                    hit ==> depends_on(jobs@, j as int, k as int),
                    !hit ==> forall|u: int| 0 <= u < t ==> !answers_need(jobs@, #[trigger] needs@[u]@, k as int),
                decreases need_chars@.len() - t + (if hit { 0int } else { 1int }),
            {
                if answers_need_exec(jobs, &need_chars[t], exact[t], k) {
                    assert(answers_need(jobs@, jobs@[j as int].needs@[t as int]@, k as int));
                    hit = true;
                } else {
                    t = t + 1;
                }
            }
            proof {
                if !hit {
                    assert forall|u: int| 0 <= u < jobs@[j as int].needs@.len() implies !answers_need(jobs@, #[trigger] jobs@[j as int].needs@[u]@, k as int) by {
                        assert(needs@[u] == jobs@[j as int].needs@[u]);
                    }
                }
            }
            let ghost before = deps@;
            if hit {
                deps.push(k);
            }
            proof {
                assert forall|kk: int| 0 <= kk < k + 1 && depends_on(jobs@, j as int, kk) implies deps@.contains(kk as usize) by {
                    if kk == k {
                        assert(deps@[deps@.len() - 1] == k);
                    } else {
                        assert(before.contains(kk as usize));
                        let w = choose|w: int| 0 <= w < before.len() && before[w] == kk as usize;
                        assert(deps@[w] == before[w]);
                    }
                }
            }
            k = k + 1;
        }
        out.push(deps);
        j = j + 1;
    }
    out
}

/// What to do with a job once the jobs it needs have finished.
#[derive(Debug, Clone, Copy, PartialEq, Eq, Structural)]
pub enum JobStart {
    Cancel,
    Skip,
    Run,
}

/// A cancelled run cancels the job; a job needing a job that finished without
/// success is skipped; otherwise it runs. `deps[i]` is whether the i-th needed job
/// succeeded, if it has a result.
pub fn decide_job_start(cancel_requested: bool, deps: &[Option<bool>]) -> (r: JobStart)
    ensures
        cancel_requested ==> r == JobStart::Cancel,
        !cancel_requested && (exists|i: int| 0 <= i < deps@.len() && #[trigger] deps@[i] == Some(false)) ==> r == JobStart::Skip,
        !cancel_requested && !(exists|i: int| 0 <= i < deps@.len() && #[trigger] deps@[i] == Some(false)) ==> r == JobStart::Run,
{
    if cancel_requested {
        return JobStart::Cancel;
    }
    let mut i: usize = 0;
    while i < deps.len()
        invariant
            !cancel_requested,
            i <= deps@.len(),
            forall|k: int| 0 <= k < i ==> #[trigger] deps@[k] != Some(false),
        decreases deps@.len() - i,
    {
        match deps[i] {
            Some(false) => return JobStart::Skip,
            _ => {},
        }
        i = i + 1;
    }
    JobStart::Run
}

/// Whether job `i` can be decided: it has no result yet (`done[i]`), and each job
/// it waits for (`deps[i]`) has one.
pub open spec fn job_ready(done: Seq<Option<bool>>, deps: Seq<Seq<usize>>, i: int) -> bool {
    &&& done[i] is None
    &&& forall|k: int| 0 <= k < deps[i].len() ==> {
        let d = #[trigger] deps[i][k];
        d < done.len() && done[d as int] is Some
    }
}

/// The dependency lists as sequences.
pub open spec fn deps_view(deps: Seq<Vec<usize>>) -> Seq<Seq<usize>> {
    deps.map_values(|d: Vec<usize>| d@)
}

/// The first job that can be decided, if any: no result yet and every job it
/// waits for finished (see `job_ready`). `done[i]` is whether job `i` succeeded,
/// once it has a result.
pub fn next_ready_job(done: &[Option<bool>], deps: &Vec<Vec<usize>>) -> (r: Option<usize>)
    requires
        done@.len() == deps@.len(),
    ensures
        r matches Some(i) ==> i < done@.len() && job_ready(done@, deps_view(deps@), i as int),
        r matches Some(i) ==> forall|j: int| 0 <= j < i ==> !job_ready(done@, deps_view(deps@), j),
        r is None ==> forall|j: int| 0 <= j < done@.len() ==> !job_ready(done@, deps_view(deps@), j),
{
    let mut i: usize = 0;
    while i < done.len()
        invariant
            i <= done@.len(),
            done@.len() == deps@.len(),
            forall|j: int| 0 <= j < i ==> !job_ready(done@, deps_view(deps@), j),
        decreases done@.len() - i,
    {
        let ghost dv = deps_view(deps@);
        assert(dv.len() == deps@.len());
        assert(dv[i as int] == deps@[i as int]@);
        if done[i].is_none() {
            let ds = &deps[i];
            let mut k: usize = 0;
            let mut all = true;
            while k < ds.len()
                invariant
                    k <= ds@.len(),
                    ds@ == dv[i as int],
                    all ==> forall|q: int| 0 <= q < k ==> {
                        let d = #[trigger] ds@[q];
                        d < done@.len() && done@[d as int] is Some
                    },
                    !all ==> exists|q: int| 0 <= q < ds@.len() && {
                        let d = #[trigger] ds@[q];
                        !(d < done@.len() && done@[d as int] is Some)
                    },
                ensures
                    all ==> forall|q: int| 0 <= q < ds@.len() ==> {
                        let d = #[trigger] ds@[q];
                        d < done@.len() && done@[d as int] is Some
                    },
                    !all ==> exists|q: int| 0 <= q < ds@.len() && {
                        let d = #[trigger] ds@[q];
                        !(d < done@.len() && done@[d as int] is Some)
                    },
                decreases ds@.len() - k,
            {
                let d = ds[k];
                if d >= done.len() || done[d].is_none() {
                    all = false;
                    assert(ds@[k as int] == d);
                    break;
                }
                k += 1;
            }
            if all {
                return Some(i);
            }
        }
        i += 1;
    }
    None
}

/// The first job that can be started while the jobs marked in `running` run:
/// one not running that can be decided (see `job_ready`).
pub fn next_job_to_start(done: &[Option<bool>], running: &[bool], deps: &Vec<Vec<usize>>) -> (r: Option<usize>)
    requires
        done@.len() == deps@.len(),
        running@.len() == deps@.len(),
    ensures
        r matches Some(i) ==> i < done@.len() && !running@[i as int] && job_ready(done@, deps_view(deps@), i as int),
        r matches Some(i) ==> forall|j: int| 0 <= j < i ==> running@[j] || !job_ready(done@, deps_view(deps@), j),
        r is None ==> forall|j: int| 0 <= j < done@.len() ==> running@[j] || !job_ready(done@, deps_view(deps@), j),
{
    let mut i: usize = 0;
    while i < done.len()
        invariant
            i <= done@.len(),
            done@.len() == deps@.len(),
            running@.len() == deps@.len(),
            forall|j: int| 0 <= j < i ==> running@[j] || !job_ready(done@, deps_view(deps@), j),
        decreases done@.len() - i,
    {
        let ghost dv = deps_view(deps@);
        assert(dv.len() == deps@.len());
        assert(dv[i as int] == deps@[i as int]@);
        if !running[i] && done[i].is_none() {
            let ds = &deps[i];
            let mut k: usize = 0;
            let mut all = true;
            while k < ds.len()
                invariant
                    k <= ds@.len(),
                    ds@ == dv[i as int],
                    all ==> forall|q: int| 0 <= q < k ==> {
                        let d = #[trigger] ds@[q];
                        d < done@.len() && done@[d as int] is Some
                    },
                    !all ==> exists|q: int| 0 <= q < ds@.len() && {
                        let d = #[trigger] ds@[q];
                        !(d < done@.len() && done@[d as int] is Some)
                    },
                ensures
                    all ==> forall|q: int| 0 <= q < ds@.len() ==> {
                        let d = #[trigger] ds@[q];
                        d < done@.len() && done@[d as int] is Some
                    },
                    !all ==> exists|q: int| 0 <= q < ds@.len() && {
                        let d = #[trigger] ds@[q];
                        !(d < done@.len() && done@[d as int] is Some)
                    },
                decreases ds@.len() - k,
            {
                let d = ds[k];
                if d >= done.len() || done[d].is_none() {
                    all = false;
                    assert(ds@[k as int] == d);
                    break;
                }
                k += 1;
            }
            if all {
                return Some(i);
            }
        }
        i += 1;
    }
    None
}

/// The result of a job that never finished (a job waiting, directly or not, for
/// itself): named unknown, with no steps.
pub open spec fn unknown_job(r: JobResult) -> bool {
    r.job_name@ == "unknown"@ && r.steps@.len() == 0 && r.duration_ms == 0
}

/// The jobs' results in job order: each job's result, or, for a job that has
/// none, the unknown one (see `unknown_job`).
pub fn collect_job_results(results: Vec<Option<JobResult>>) -> (r: Vec<JobResult>)
    ensures
        r@.len() == results@.len(),
        forall|i: int| 0 <= i < r@.len() ==> match #[trigger] results@[i] {
            Some(j) => r@[i] == j,
            None => unknown_job(r@[i]),
        },
{
    let mut rest = results;
    let mut out: Vec<JobResult> = Vec::new();
    let ghost all = rest@;
    while rest.len() > 0
        invariant
            out@.len() + rest@.len() == all.len(),
            rest@ == all.subrange(out@.len() as int, all.len() as int),
            forall|i: int| 0 <= i < out@.len() ==> match #[trigger] all[i] {
                Some(j) => out@[i] == j,
                None => unknown_job(out@[i]),
            },
        decreases rest@.len(),
    {
        let ghost n = out@.len() as int;
        let slot = rest.remove(0);
        assert(all[n] == slot);
        match slot {
            Some(j) => out.push(j),
            None => {
                let j = JobResult { job_name: String::from_str("unknown"), steps: Vec::new(), duration_ms: 0 };
                proof {
                    reveal_strlit("unknown");
                }
                out.push(j);
            },
        }
        assert(rest@ =~= all.subrange(out@.len() as int, all.len() as int));
    }
    out
}

/// What to do with the next step of a running job.
#[derive(Debug, Clone, Copy, PartialEq, Eq, Structural)]
pub enum StepStart {
    Cancelled,
    TimedOut,
    Run { timeout_secs: Option<u64> },
}

/// A cancelled run marks the step cancelled; a job past its time limit times the
/// step out; otherwise the step runs with what is left of the limit.
pub fn decide_step_start(cancel_requested: bool, elapsed_secs: u64, timeout_secs: Option<u64>) -> (r: StepStart)
    ensures
        cancel_requested ==> r == StepStart::Cancelled,
        !cancel_requested ==> match timeout_secs {
            Some(t) => if elapsed_secs >= t {
                r == StepStart::TimedOut
            } else {
                r == (StepStart::Run { timeout_secs: Some((t - elapsed_secs) as u64) })
            },
            None => r == (StepStart::Run { timeout_secs: None }),
        },
{
    if cancel_requested {
        return StepStart::Cancelled;
    }
    match timeout_secs {
        Some(t) => if elapsed_secs >= t {
            StepStart::TimedOut
        } else {
            StepStart::Run { timeout_secs: Some(t - elapsed_secs) }
        },
        None => StepStart::Run { timeout_secs: None },
    }
}

/// Results for the steps of `job` from index `from` on, all skipped.
pub fn skipped_steps_from(job: &WorkflowJob, from: usize) -> (r: Vec<StepResult>)
    requires
        from <= job.steps@.len(),
    ensures
        r@.len() == job.steps@.len() - from,
        forall|i: int| 0 <= i < r@.len() ==> (#[trigger] r@[i]).step_name@ == job.steps@[from + i].name@
            && r@[i].outcome == StepOutcome::Skipped && r@[i].stdout_path@.len() == 0
            && r@[i].stderr_path@.len() == 0 && r@[i].duration_ms == 0,
{
    let mut out: Vec<StepResult> = Vec::new();
    let mut i = from;
    while i < job.steps.len()
        invariant
            from <= i <= job.steps@.len(),
            out@.len() == i - from,
            forall|k: int| 0 <= k < out@.len() ==> (#[trigger] out@[k]).step_name@ == job.steps@[from + k].name@
                && out@[k].outcome == StepOutcome::Skipped && out@[k].stdout_path@.len() == 0
                && out@[k].stderr_path@.len() == 0 && out@[k].duration_ms == 0,
        decreases job.steps@.len() - i,
    {
        out.push(StepResult {
            step_name: job.steps[i].name.clone(),
            outcome: StepOutcome::Skipped,
            stdout_path: String::new(),
            stderr_path: String::new(),
            duration_ms: 0,
        });
        i = i + 1;
    }
    out
}

/// `n` in decimal, at least two digits (zero-padded).
pub open spec fn two_digits(n: nat) -> Seq<char> {
    if n < 10 { seq!['0'] + decimal(n) } else { decimal(n) }
}

/// The file name of a step's log: `<NN>_<sanitized name>_<stream>.log`.
pub fn step_log_name(step_idx: u64, step_name: &str, stream: &str) -> (r: String)
    ensures
        r@ == two_digits(step_idx as nat) + "_"@ + sanitized(step_name@) + "_"@ + stream@ + ".log"@,
{
    proof {
        reveal_strlit("0");
        reveal_strlit("_");
        reveal_strlit(".log");
    }
    let mut out = String::new();
    if step_idx < 10 {
        out.append("0");
    }
    let d = u64_to_string(step_idx);
    out.append(d.as_str());
    assert(out@ == two_digits(step_idx as nat));
    out.append("_");
    let safe = sanitize_dir_name(step_name);
    out.append(safe.as_str());
    out.append("_");
    out.append(stream);
    out.append(".log");
    out
}

} // verus!
