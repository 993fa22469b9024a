//! Talking to git: which commands find, fetch and check out commits, and what
//! their output means. The commands themselves are run by the caller, which hands
//! back each process's outcome.
use vstd::prelude::*;
use vstd::string::*;
use crate::ci::error::CiError;
use crate::ci::types::{sha_text, valid_sha_text, BranchName, CommitSha, GitSource, ShaDefect};
use crate::text::{chars_of, has_prefix, lines_of, slice_chars, split_words, starts_with, string_of, text_lines, trim, trim_chars, trim_str, words};

verus! {

/// A commit: its id and subject line.
#[derive(Debug)]
pub struct CommitInfo {
    pub sha: CommitSha,
    pub message: String,
}

impl Clone for CommitInfo {
    fn clone(&self) -> (r: Self)
        ensures
            r.sha@ == self.sha@,
            r.message@ == self.message@,
    {
        CommitInfo { sha: self.sha.clone(), message: self.message.clone() }
    }
}

/// A process to run: the program, its arguments, and the directory to run it in
/// (the caller's own when `None`).
#[derive(Debug)]
pub struct ProcessCall {
    pub program: String,
    pub args: Vec<String>,
    pub current_dir: Option<String>,
}

/// How a process ended: it ran to its end with an exit status and its output
/// (decoded as UTF-8, invalid sequences replaced), or it could not be started.
#[derive(Debug)]
pub enum ProcessOutcome {
    Finished { success: bool, stdout: String, stderr: String },
    SpawnFailed { detail: String },
}

/// `c` runs `program` with `args` in `dir`.
pub open spec fn call_is(c: ProcessCall, program: Seq<char>, args: Seq<Seq<char>>, dir: Option<Seq<char>>) -> bool {
    &&& c.program@ == program
    &&& c.args@.len() == args.len()
    &&& forall|i: int| 0 <= i < args.len() ==> (#[trigger] c.args@[i])@ == args[i]
    &&& match (c.current_dir, dir) {
        (None, None) => true,
        (Some(d), Some(e)) => d@ == e,
        _ => false,
    }
}

/// `e` is a git error with this context and detail.
pub open spec fn git_error(e: CiError, context: Seq<char>, detail: Seq<char>) -> bool {
    e matches CiError::Git { context: c, detail: d } && c@ == context && d@ == detail
}

/// The message of a refused commit id (see `InvalidCommitSha::message`).
pub open spec fn invalid_sha_message(value: Seq<char>) -> Seq<char> {
    "invalid commit sha '"@ + value + "': "@ + if crate::text::utf8_len(sha_text(value)) != 40 {
        "must be exactly 40 characters"@
    } else {
        "must contain only hexadecimal characters"@
    }
}

fn text(s: &str) -> (r: String)
    ensures
        r@ == s@,
{
    String::from_str(s)
}

fn cat(a: &str, b: &str) -> (r: String)
    ensures
        r@ == a@ + b@,
{
    let mut out = String::from_str(a);
    out.append(b);
    out
}

fn git_err(context: &str, detail: String) -> (r: CiError)
    ensures
        git_error(r, context@, detail@),
{
    CiError::Git { context: text(context), detail }
}

/// Parses `value` as a commit id; a refusal is a git error with `context`.
fn parse_sha(value: String, context: &str) -> (r: Result<CommitSha, CiError>)
    ensures
        r is Ok <==> valid_sha_text(sha_text(value@)),
        r matches Ok(sha) ==> sha@ == sha_text(value@),
        r matches Err(e) ==> git_error(e, context@, invalid_sha_message(value@)),
{
    proof {
        reveal_strlit("invalid commit sha '");
        reveal_strlit("': ");
        reveal_strlit("must be exactly 40 characters");
        reveal_strlit("must contain only hexadecimal characters");
    }
    match CommitSha::try_from(value) {
        Ok(sha) => Ok(sha),
        Err(e) => {
            let m = e.message();
            Err(git_err(context, m))
        },
    }
}

/// The command that finds the latest commit of `branch`: `git log` in a local
/// repository, `git ls-remote` on a remote, the GitHub API for a slug.
pub open spec fn latest_commit_call(source: GitSource, branch: Seq<char>) -> (Seq<char>, Seq<Seq<char>>) {
    match source {
        GitSource::Local { path } => ("git"@, seq!["-C"@, path@, "log"@, "-1"@, "--format=%H%n%s"@, branch]),
        GitSource::Remote { url } => ("git"@, seq!["ls-remote"@, url@, "refs/heads/"@ + branch]),
        GitSource::Github { owner, repo } => (
            "gh"@,
            seq!["api"@, "repos/"@ + owner@ + "/"@ + repo@ + "/commits/"@ + branch, "--jq"@, ".sha + \"\\n\" + .commit.message"@],
        ),
    }
}

/// The command that finds the latest commit of `branch` (see `latest_commit_call`).
pub fn latest_commit_command(source: &GitSource, branch: &BranchName) -> (r: ProcessCall)
    ensures
        call_is(r, latest_commit_call(*source, branch@).0, latest_commit_call(*source, branch@).1, None),
{
    match source {
        GitSource::Local { path } => ProcessCall {
            program: text("git"),
            args: vec![text("-C"), path.clone(), text("log"), text("-1"), text("--format=%H%n%s"), text(branch.as_str())],
            current_dir: None,
        },
        GitSource::Remote { url } => ProcessCall {
            program: text("git"),
            args: vec![text("ls-remote"), url.clone(), cat("refs/heads/", branch.as_str())],
            current_dir: None,
        },
        GitSource::Github { owner, repo } => {
            let mut endpoint = text("repos/");
            endpoint.append(owner.as_str());
            endpoint.append("/");
            endpoint.append(repo.as_str());
            endpoint.append("/commits/");
            endpoint.append(branch.as_str());
            ProcessCall {
                program: text("gh"),
                args: vec![text("api"), endpoint, text("--jq"), text(".sha + \"\\n\" + .commit.message")],
                current_dir: None,
            }
        },
    }
}

/// The trimmed line `k` of `s`, or the empty text when `s` has fewer lines.
pub open spec fn trimmed_line(s: Seq<char>, k: int) -> Seq<char> {
    if 0 <= k < text_lines(s).len() { trim(text_lines(s)[k]) } else { Seq::empty() }
}

/// The first whitespace-separated word of the first line of `s`, or the empty text.
pub open spec fn first_word(s: Seq<char>) -> Seq<char> {
    if text_lines(s).len() > 0 && words(text_lines(s)[0]).len() > 0 {
        words(text_lines(s)[0])[0]
    } else {
        Seq::empty()
    }
}

fn trimmed_line_exec(lines: &Vec<Vec<char>>, k: usize) -> (r: String)
    ensures
        r@ == (if k < lines@.len() { trim(lines@[k as int]@) } else { Seq::empty() }),
{
    if k < lines.len() {
        string_of(&trim_chars(&lines[k]))
    } else {
        String::new()
    }
}

/// The contexts of the errors of `latest_commit` for each source: starting the
/// process, the process failing, and a refused commit id.
pub open spec fn latest_contexts(source: GitSource) -> (Seq<char>, Seq<char>, Seq<char>) {
    match source {
        GitSource::Local { .. } => (
            "spawning git log for local repo"@,
            "git log on local repo"@,
            "parsing commit sha from local git log"@,
        ),
        GitSource::Remote { .. } => ("spawning git ls-remote"@, "git ls-remote"@, "parsing commit sha from ls-remote"@),
        GitSource::Github { .. } => ("spawning gh api"@, "gh api query for latest commit"@, "parsing commit sha from gh api"@),
    }
}

/// The text the commit id is read from: the first word of `git ls-remote`'s
/// output, the trimmed first line otherwise.
pub open spec fn latest_sha_field(source: GitSource, out: Seq<char>) -> Seq<char> {
    match source {
        GitSource::Remote { .. } => first_word(out),
        _ => trimmed_line(out, 0),
    }
}

/// The latest commit of `branch`, from the outcome of `latest_commit_command`.
/// `git log` and the GitHub API give the id on the first line and the subject on
/// the second; `git ls-remote` gives no subject, and no line at all when the
/// branch does not exist.
pub fn latest_commit(source: &GitSource, branch: &BranchName, outcome: &ProcessOutcome) -> (r: Result<CommitInfo, CiError>)
    ensures
        outcome matches ProcessOutcome::SpawnFailed { detail } ==> (r matches Err(e) && git_error(e, latest_contexts(*source).0, detail@)),
        outcome matches ProcessOutcome::Finished { success, stdout, stderr } ==> {
            let field = latest_sha_field(*source, stdout@);
            &&& !*success ==> (r matches Err(e) && git_error(e, latest_contexts(*source).1, stderr@))
            &&& *success && source is Remote && field.len() == 0 ==> (r matches Err(e) && git_error(
                e,
                "git ls-remote"@,
                "no ref found for branch '"@ + branch@ + "'"@,
            ))
            &&& *success && (source is Remote ==> field.len() > 0) ==> {
                &&& r is Ok <==> valid_sha_text(sha_text(field))
                &&& r matches Ok(info) ==> info.sha@ == sha_text(field) && info.message@ == (if source is Remote {
                    Seq::empty()
                } else {
                    trimmed_line(stdout@, 1)
                })
                &&& r matches Err(e) ==> git_error(e, latest_contexts(*source).2, invalid_sha_message(field))
            }
        },
{
    proof {
        reveal_strlit("no ref found for branch '");
        reveal_strlit("'");
    }
    let (spawn_ctx, fail_ctx, parse_ctx) = match source {
        GitSource::Local { .. } => (
            "spawning git log for local repo",
            "git log on local repo",
            "parsing commit sha from local git log",
        ),
        GitSource::Remote { .. } => ("spawning git ls-remote", "git ls-remote", "parsing commit sha from ls-remote"),
        GitSource::Github { .. } => ("spawning gh api", "gh api query for latest commit", "parsing commit sha from gh api"),
    };
    match outcome {
        ProcessOutcome::SpawnFailed { detail } => Err(git_err(spawn_ctx, detail.clone())),
        ProcessOutcome::Finished { success, stdout, stderr } => {
            if !*success {
                return Err(git_err(fail_ctx, stderr.clone()));
            }
            let lines = lines_of(&chars_of(stdout.as_str()));
            match source {
                GitSource::Remote { .. } => {
                    let field = if lines.len() > 0 {
                        let ws = split_words(&lines[0]);
                        proof {
                            assert(ws@.map_values(|w: Vec<char>| w@).len() == ws@.len());
                        }
                        if ws.len() > 0 {
                            proof {
                                assert(ws@.map_values(|w: Vec<char>| w@)[0] == ws@[0]@);
                            }
                            string_of(&ws[0])
                        } else {
                            String::new()
                        }
                    } else {
                        String::new()
                    };
                    if field.as_str().is_empty() {
                        let mut detail = text("no ref found for branch '");
                        detail.append(branch.as_str());
                        detail.append("'");
                        return Err(git_err("git ls-remote", detail));
                    }
                    let sha = parse_sha(field, parse_ctx)?;
                    Ok(CommitInfo { sha, message: String::new() })
                },
                _ => {
                    let field = trimmed_line_exec(&lines, 0);
                    let message = trimmed_line_exec(&lines, 1);
                    let sha = parse_sha(field, parse_ctx)?;
                    Ok(CommitInfo { sha, message })
                },
            }
        },
    }
}

/// The stages of preparing a checkout of a commit.
#[derive(Debug, Clone, Copy, PartialEq, Eq, Structural)]
pub enum PrepareStage {
    /// `git worktree add` in a local repository.
    WorktreeAdd,
    /// `git clone --no-checkout` of the source.
    Clone,
    /// The first `git checkout` of the commit.
    Checkout,
    /// `git fetch origin <sha>` after the first checkout failed.
    Fetch,
    /// The second `git checkout`, after the fetch.
    CheckoutRetry,
}

/// What to do next while preparing a checkout: run a command at a stage, or stop
/// with the result.
#[derive(Debug)]
pub enum PrepareStep {
    Run { stage: PrepareStage, call: ProcessCall },
    Finished(Result<(), CiError>),
}

/// The URL a source is cloned from; a local path clones as itself.
pub open spec fn clone_url(source: GitSource) -> Seq<char> {
    match source {
        GitSource::Local { path } => path@,
        GitSource::Remote { url } => url@,
        GitSource::Github { owner, repo } => "https://github.com/"@ + owner@ + "/"@ + repo@,
    }
}

/// The command run at `stage` to check `sha` out into `dest`.
pub open spec fn prepare_call(source: GitSource, sha: Seq<char>, dest: Seq<char>, stage: PrepareStage) -> (Seq<char>, Seq<Seq<char>>, Option<Seq<char>>) {
    match stage {
        PrepareStage::WorktreeAdd => (
            "git"@,
            seq!["-C"@, clone_url(source), "worktree"@, "add"@, "--detach"@, dest, sha],
            None,
        ),
        PrepareStage::Clone => ("git"@, seq!["clone"@, "--no-checkout"@, clone_url(source), dest], None),
        PrepareStage::Checkout => ("git"@, seq!["checkout"@, sha], Some(dest)),
        PrepareStage::Fetch => ("git"@, seq!["fetch"@, "origin"@, sha], Some(dest)),
        PrepareStage::CheckoutRetry => ("git"@, seq!["checkout"@, sha], Some(dest)),
    }
}

/// `st` runs the command of `stage`.
pub open spec fn runs_stage(st: PrepareStep, source: GitSource, sha: Seq<char>, dest: Seq<char>, stage: PrepareStage) -> bool {
    st matches PrepareStep::Run { stage: s, call } && s == stage && call_is(
        call,
        prepare_call(source, sha, dest, stage).0,
        prepare_call(source, sha, dest, stage).1,
        prepare_call(source, sha, dest, stage).2,
    )
}

fn prepare_command(source: &GitSource, sha: &CommitSha, dest: &str, stage: PrepareStage) -> (r: PrepareStep)
    ensures
        runs_stage(r, *source, sha@, dest@, stage),
{
    let url = source.hash_key();
    let call = match stage {
        PrepareStage::WorktreeAdd => ProcessCall {
            program: text("git"),
            args: vec![text("-C"), url, text("worktree"), text("add"), text("--detach"), text(dest), text(sha.as_str())],
            current_dir: None,
        },
        PrepareStage::Clone => ProcessCall {
            program: text("git"),
            args: vec![text("clone"), text("--no-checkout"), url, text(dest)],
            current_dir: None,
        },
        PrepareStage::Checkout => ProcessCall {
            program: text("git"),
            args: vec![text("checkout"), text(sha.as_str())],
            current_dir: Some(text(dest)),
        },
        PrepareStage::Fetch => ProcessCall {
            program: text("git"),
            args: vec![text("fetch"), text("origin"), text(sha.as_str())],
            current_dir: Some(text(dest)),
        },
        PrepareStage::CheckoutRetry => ProcessCall {
            program: text("git"),
            args: vec![text("checkout"), text(sha.as_str())],
            current_dir: Some(text(dest)),
        },
    };
    PrepareStep::Run { stage, call }
}

/// The first step of checking `sha` out into `dest`: a worktree of a local
/// repository, a clone of anything else.
pub fn prepare_worktree(source: &GitSource, sha: &CommitSha, dest: &str) -> (r: PrepareStep)
    ensures
        runs_stage(r, *source, sha@, dest@, if source is Local { PrepareStage::WorktreeAdd } else { PrepareStage::Clone }),
{
    match source {
        GitSource::Local { .. } => prepare_command(source, sha, dest, PrepareStage::WorktreeAdd),
        _ => prepare_command(source, sha, dest, PrepareStage::Clone),
    }
}

/// The step after the command of `stage` ended with `outcome`.
/// A failed worktree falls back to a clone; a failed first checkout fetches the
/// commit and checks out again, whatever the fetch gave; a failed clone or second
/// checkout, or a command that could not start, ends with a git error.
pub fn prepare_worktree_next(
    source: &GitSource,
    sha: &CommitSha,
    dest: &str,
    stage: PrepareStage,
    outcome: &ProcessOutcome,
) -> (r: PrepareStep)
    ensures
        stage == PrepareStage::Fetch ==> runs_stage(r, *source, sha@, dest@, PrepareStage::CheckoutRetry),
        stage != PrepareStage::Fetch ==> match outcome {
            ProcessOutcome::SpawnFailed { detail } => r matches PrepareStep::Finished(Err(e)) && git_error(
                e,
                match stage {
                    PrepareStage::WorktreeAdd => "spawning git worktree add"@,
                    PrepareStage::Clone => "spawning git clone"@,
                    PrepareStage::Checkout => "spawning git checkout"@,
                    _ => "spawning git checkout (retry)"@,
                },
                detail@,
            ),
            ProcessOutcome::Finished { success, stderr, .. } => if *success {
                if stage == PrepareStage::Clone {
                    runs_stage(r, *source, sha@, dest@, PrepareStage::Checkout)
                } else {
                    r matches PrepareStep::Finished(Ok(()))
                }
            } else {
                match stage {
                    PrepareStage::WorktreeAdd => runs_stage(r, *source, sha@, dest@, PrepareStage::Clone),
                    PrepareStage::Clone => r matches PrepareStep::Finished(Err(e)) && git_error(e, "git clone"@, stderr@),
                    PrepareStage::Checkout => runs_stage(r, *source, sha@, dest@, PrepareStage::Fetch),
                    _ => r matches PrepareStep::Finished(Err(e)) && git_error(e, "git checkout"@, stderr@),
                }
            },
        },
{
    if stage == PrepareStage::Fetch {
        return prepare_command(source, sha, dest, PrepareStage::CheckoutRetry);
    }
    match outcome {
        ProcessOutcome::SpawnFailed { detail } => {
            let ctx = match stage {
                PrepareStage::WorktreeAdd => "spawning git worktree add",
                PrepareStage::Clone => "spawning git clone",
                PrepareStage::Checkout => "spawning git checkout",
                _ => "spawning git checkout (retry)",
            };
            PrepareStep::Finished(Err(git_err(ctx, detail.clone())))
        },
        ProcessOutcome::Finished { success, stderr, .. } => {
            if *success {
                if stage == PrepareStage::Clone {
                    prepare_command(source, sha, dest, PrepareStage::Checkout)
                } else {
                    PrepareStep::Finished(Ok(()))
                }
            } else {
                match stage {
                    PrepareStage::WorktreeAdd => prepare_command(source, sha, dest, PrepareStage::Clone),
                    PrepareStage::Clone => PrepareStep::Finished(Err(git_err("git clone", stderr.clone()))),
                    PrepareStage::Checkout => prepare_command(source, sha, dest, PrepareStage::Fetch),
                    _ => PrepareStep::Finished(Err(git_err("git checkout", stderr.clone()))),
                }
            }
        },
    }
}

/// The subject of a commit from `git log -1 --format=%s`: the trimmed output when
/// the command succeeded, the empty text otherwise.
pub fn commit_message_from(outcome: &ProcessOutcome) -> (r: String)
    ensures
        r@ == match outcome {
            ProcessOutcome::Finished { success: true, stdout, .. } => trim(stdout@),
            _ => Seq::empty(),
        },
{
    match outcome {
        ProcessOutcome::Finished { success, stdout, .. } => if *success {
            string_of(&trim_str(stdout.as_str()))
        } else {
            String::new()
        },
        _ => String::new(),
    }
}

/// The command that reads the subject of `sha` in `repo_dir`.
pub fn read_commit_message_command(repo_dir: &str, sha: &CommitSha) -> (r: ProcessCall)
    ensures
        call_is(r, "git"@, seq!["-C"@, repo_dir@, "log"@, "-1"@, "--format=%s"@, sha@], None),
{
    ProcessCall {
        program: text("git"),
        args: vec![text("-C"), text(repo_dir), text("log"), text("-1"), text("--format=%s"), text(sha.as_str())],
        current_dir: None,
    }
}

/// The command that removes the worktree at `dest`; only a local repository has one.
pub fn cleanup_worktree_command(source: &GitSource, dest: &str) -> (r: Option<ProcessCall>)
    ensures
        match source {
            GitSource::Local { path } => r matches Some(c) && call_is(
                c,
                "git"@,
                seq!["-C"@, path@, "worktree"@, "remove"@, "--force"@, dest@],
                None,
            ),
            _ => r is None,
        },
{
    match source {
        GitSource::Local { path } => Some(ProcessCall {
            program: text("git"),
            args: vec![text("-C"), path.clone(), text("worktree"), text("remove"), text("--force"), text(dest)],
            current_dir: None,
        }),
        _ => None,
    }
}

/// The command that brings the bare mirror of a non-local source up to date:
/// a fetch of `branch` into an existing mirror, a bare clone otherwise. A local
/// repository needs none.
pub fn mirror_command(source: &GitSource, branch: &BranchName, mirror_dir: &str, mirror_present: bool) -> (r: Option<ProcessCall>)
    ensures
        source is Local ==> r is None,
        !(source is Local) && mirror_present ==> (r matches Some(c) && call_is(
            c,
            "git"@,
            seq!["-C"@, mirror_dir@, "fetch"@, "origin"@, "+refs/heads/"@ + branch@ + ":refs/heads/"@ + branch@],
            None,
        )),
        !(source is Local) && !mirror_present ==> (r matches Some(c) && call_is(
            c,
            "git"@,
            seq!["clone"@, "--bare"@, clone_url(*source), mirror_dir@],
            None,
        )),
{
    if let GitSource::Local { .. } = source {
        return None;
    }
    if mirror_present {
        let mut spec = text("+refs/heads/");
        spec.append(branch.as_str());
        spec.append(":refs/heads/");
        spec.append(branch.as_str());
        Some(ProcessCall {
            program: text("git"),
            args: vec![text("-C"), text(mirror_dir), text("fetch"), text("origin"), spec],
            current_dir: None,
        })
    } else {
        Some(ProcessCall {
            program: text("git"),
            args: vec![text("clone"), text("--bare"), source.hash_key(), text(mirror_dir)],
            current_dir: None,
        })
    }
}

/// What the mirror command's outcome means: nothing to report, or a git error
/// (`mirror fetch` or `mirror clone`) with the reason it could not start or the
/// process's error output.
pub fn mirror_result(mirror_present: bool, outcome: &ProcessOutcome) -> (r: Result<(), CiError>)
    ensures
        ({
            let ctx = if mirror_present { "mirror fetch"@ } else { "mirror clone"@ };
            match outcome {
                ProcessOutcome::SpawnFailed { detail } => r matches Err(e) && git_error(e, ctx, detail@),
                ProcessOutcome::Finished { success, stderr, .. } => if *success {
                    r is Ok
                } else {
                    r matches Err(e) && git_error(e, ctx, stderr@)
                },
            }
        }),
{
    let ctx = if mirror_present { "mirror fetch" } else { "mirror clone" };
    match outcome {
        ProcessOutcome::SpawnFailed { detail } => Err(git_err(ctx, detail.clone())),
        ProcessOutcome::Finished { success, stderr, .. } => if *success {
            Ok(())
        } else {
            Err(git_err(ctx, stderr.clone()))
        },
    }
}

/// The command that lists the commits after `since` up to `branch`, oldest first,
/// each as its id line and subject line; it runs in the local repository or in
/// the mirror.
pub fn rev_list_command(source: &GitSource, branch: &BranchName, since: &CommitSha, mirror_dir: &str) -> (r: ProcessCall)
    ensures
        call_is(
            r,
            "git"@,
            seq![
                "-C"@,
                match *source {
                    GitSource::Local { path } => path@,
                    _ => mirror_dir@,
                },
                "rev-list"@,
                "--reverse"@,
                "--format=%s"@,
                since@ + ".."@ + branch@,
            ],
            None,
        ),
{
    let dir = match source {
        GitSource::Local { path } => path.clone(),
        _ => text(mirror_dir),
    };
    let mut range = text(since.as_str());
    range.append("..");
    range.append(branch.as_str());
    ProcessCall {
        program: text("git"),
        args: vec![text("-C"), dir, text("rev-list"), text("--reverse"), text("--format=%s"), range],
        current_dir: None,
    }
}

/// The id text of a `git rev-list` header line: the rest after `commit `, or the
/// whole line, trimmed.
pub open spec fn rev_list_sha(line: Seq<char>) -> Seq<char> {
    if has_prefix(line, "commit "@) { trim(line.subrange(7, line.len() as int)) } else { trim(line) }
}

/// The commits of the lines `ls` from `k` on, taken two lines at a time (id, then
/// subject); a pair with an empty id is passed over; the first id that is not a
/// commit id ends the reading with that text.
pub open spec fn rev_list_from(ls: Seq<Seq<char>>, k: int) -> Result<Seq<(Seq<char>, Seq<char>)>, Seq<char>>
    decreases ls.len() + 2 - k,
{
    if k < 0 || k >= ls.len() {
        Ok(Seq::empty())
    } else {
        let sha = rev_list_sha(ls[k]);
        let msg = if k + 1 < ls.len() { trim(ls[k + 1]) } else { Seq::empty() };
        if sha.len() == 0 {
            rev_list_from(ls, k + 2)
        } else if !valid_sha_text(sha_text(sha)) {
            Err(sha)
        } else {
            match rev_list_from(ls, k + 2) {
                Ok(rest) => Ok(seq![(sha_text(sha), msg)] + rest),
                Err(e) => Err(e),
            }
        }
    }
}

/// The commits `git rev-list --format=%s` printed (see `rev_list_from`).
pub open spec fn rev_list_commits(out: Seq<char>) -> Result<Seq<(Seq<char>, Seq<char>)>, Seq<char>> {
    rev_list_from(text_lines(out), 0)
}

/// The commits as ids and subjects.
pub open spec fn commit_pairs(cs: Seq<CommitInfo>) -> Seq<(Seq<char>, Seq<char>)> {
    cs.map_values(|c: CommitInfo| (c.sha@, c.message@))
}

/// `Ok(p + rest)` for `Ok(rest)`; an error stays.
pub open spec fn prepended(p: Seq<(Seq<char>, Seq<char>)>, r: Result<Seq<(Seq<char>, Seq<char>)>, Seq<char>>) -> Result<Seq<(Seq<char>, Seq<char>)>, Seq<char>> {
    match r {
        Ok(rest) => Ok(p + rest),
        Err(e) => Err(e),
    }
}

/// The commits in the output of `git rev-list --reverse --format=%s`, in order
/// (see `rev_list_commits`); an id that is not a commit id is a git error.
pub fn parse_rev_list_output(stdout: &str) -> (r: Result<Vec<CommitInfo>, CiError>)
    ensures
        match rev_list_commits(stdout@) {
            Ok(cs) => r matches Ok(v) && commit_pairs(v@) == cs,
            Err(bad) => r matches Err(e) && git_error(e, "parsing commit sha from rev-list"@, invalid_sha_message(bad)),
        },
{
    proof {
        reveal_strlit("commit ");
        assert("commit "@.len() == 7);
    }
    let lines = lines_of(&chars_of(stdout));
    let ghost ls = text_lines(stdout@);
    let mut out: Vec<CommitInfo> = Vec::new();
    let mut k: usize = 0;
    let prefix = chars_of("commit ");
    while k < lines.len()
        invariant
            lines@.len() == ls.len(),
            forall|q: int| 0 <= q < lines@.len() ==> (#[trigger] lines@[q])@ == ls[q],
            ls == text_lines(stdout@),
            prefix@ == "commit "@,
            prefix@.len() == 7,
            rev_list_commits(stdout@) == prepended(commit_pairs(out@), rev_list_from(ls, k as int)),
        decreases lines@.len() - k,
    {
        let line = &lines[k];
        let sha_chars = if starts_with(line, &prefix) {
            trim_chars(&slice_chars(line, 7, line.len()))
        } else {
            trim_chars(line)
        };
        let message = if k + 1 < lines.len() {
            string_of(&trim_chars(&lines[k + 1]))
        } else {
            String::new()
        };
        let next = if lines.len() - k > 2 { k + 2 } else { lines.len() };
        proof {
            assert(rev_list_from(ls, next as int) == rev_list_from(ls, k + 2));
        }
        if sha_chars.len() > 0 {
            let sha_string = string_of(&sha_chars);
            let sha = parse_sha(sha_string, "parsing commit sha from rev-list")?;
            let ghost before = out@;
            out.push(CommitInfo { sha, message });
            proof {
                let item = (sha_text(sha_chars@), if k + 1 < ls.len() { trim(ls[k + 1 as int]) } else { Seq::empty() });
                assert(commit_pairs(out@) =~= commit_pairs(before) + seq![item]);
                match rev_list_from(ls, k + 2) {
                    Ok(rest) => {
                        assert(commit_pairs(before) + (seq![item] + rest) =~= commit_pairs(out@) + rest);
                    },
                    Err(e) => {},
                }
            }
        }
        k = next;
    }
    proof {
        assert(commit_pairs(out@) + Seq::empty() =~= commit_pairs(out@));
    }
    Ok(out)
}

/// The commits after `since` on the branch, from the outcome of `rev_list_command`.
pub fn list_commits_since(outcome: &ProcessOutcome) -> (r: Result<Vec<CommitInfo>, CiError>)
    ensures
        match outcome {
            ProcessOutcome::SpawnFailed { detail } => r matches Err(e) && git_error(e, "spawning git rev-list"@, detail@),
            ProcessOutcome::Finished { success, stdout, stderr } => if !*success {
                r matches Err(e) && git_error(e, "git rev-list"@, stderr@)
            } else {
                match rev_list_commits(stdout@) {
                    Ok(cs) => r matches Ok(v) && commit_pairs(v@) == cs,
                    Err(bad) => r matches Err(e) && git_error(e, "parsing commit sha from rev-list"@, invalid_sha_message(bad)),
                }
            },
        },
{
    match outcome {
        ProcessOutcome::SpawnFailed { detail } => Err(git_err("spawning git rev-list", detail.clone())),
        ProcessOutcome::Finished { success, stdout, stderr } => if !*success {
            Err(git_err("git rev-list", stderr.clone()))
        } else {
            parse_rev_list_output(stdout.as_str())
        },
    }
}

} // verus!
