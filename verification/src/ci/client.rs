//! Building the client's requests from its command-line arguments.
use vstd::prelude::*;
use crate::ci::error::CiError;
use crate::ci::ipc::{Request, Response, RunState, RunSummary};
use crate::ci::types::{CommitSha, InvalidCommitSha, InvalidRepoName, RepoName, sha_text, valid_sha_text, repo_name_chars};
use crate::text::{decimal, lemma_text_lt_order, lemma_text_lt_transitive, text_less, text_lt, trim, chars_of, str_eq, u64_to_string};
use vstd::string::*;

verus! {

/// Whether `r` names a valid repository (see `RepoName::try_from`).
pub open spec fn valid_repo_text(r: Seq<char>) -> bool {
    trim(r).len() > 0 && repo_name_chars(trim(r))
}

/// The message for a refused repository name.
pub open spec fn repo_error_text(value: Seq<char>) -> Seq<char> {
    "invalid repo name: "@ + if trim(value).len() == 0 {
        "must be non-empty"@
    } else {
        "'"@ + trim(value) + "' contains invalid characters (only a-z, 0-9, -, _ allowed)"@
    }
}

/// The message for a refused commit id.
pub open spec fn sha_error_text(value: Seq<char>) -> Seq<char> {
    "invalid commit sha '"@ + value + "': "@ + if crate::text::utf8_len(sha_text(value)) != 40 {
        "must be exactly 40 characters"@
    } else {
        "must contain only hexadecimal characters"@
    }
}

fn repo_arg(repo: Option<String>) -> (r: Result<Option<RepoName>, CiError>)
    ensures
        match repo {
            None => r matches Ok(None),
            Some(s) => if valid_repo_text(s@) {
                r matches Ok(Some(n)) && n@ == trim(s@)
            } else {
                r matches Err(CiError::Ipc { detail }) && detail@ == repo_error_text(s@)
            },
        },
{
    match repo {
        None => Ok(None),
        Some(s) => match RepoName::try_from(s) {
            Ok(n) => Ok(Some(n)),
            Err(e) => Err(CiError::Ipc { detail: e.message() }),
        },
    }
}

/// The status request, for one repository or all.
pub fn status_request(repo: Option<String>) -> (r: Result<Request, CiError>)
    ensures
        match repo {
            None => r matches Ok(Request::Status { repo: None }),
            Some(s) => if valid_repo_text(s@) {
                r matches Ok(Request::Status { repo: Some(n) }) && n@ == trim(s@)
            } else {
                r matches Err(CiError::Ipc { detail }) && detail@ == repo_error_text(s@)
            },
        },
{
    let repo = repo_arg(repo)?;
    Ok(Request::Status { repo })
}

/// The request to cancel the runs of a commit, optionally in one repository.
pub fn cancel_request(sha_str: String, repo: Option<String>) -> (r: Result<Request, CiError>)
    ensures
        !valid_sha_text(sha_text(sha_str@)) ==> (r matches Err(CiError::Ipc { detail }) && detail@ == sha_error_text(sha_str@)),
        valid_sha_text(sha_text(sha_str@)) && repo is None ==> (r matches Ok(Request::Cancel { sha, repo: None })
            && sha@ == sha_text(sha_str@)),
        valid_sha_text(sha_text(sha_str@)) && repo is Some && valid_repo_text(repo->0@) ==> (r matches Ok(
            Request::Cancel { sha, repo: Some(n) }) && sha@ == sha_text(sha_str@) && n@ == trim(repo->0@)),
        valid_sha_text(sha_text(sha_str@)) && repo is Some && !valid_repo_text(repo->0@) ==> (r matches Err(CiError::Ipc { detail })
            && detail@ == repo_error_text(repo->0@)),
{
    let sha = match CommitSha::try_from(sha_str) {
        Ok(s) => s,
        Err(e) => return Err(CiError::Ipc { detail: e.message() }),
    };
    let repo = repo_arg(repo)?;
    Ok(Request::Cancel { sha, repo })
}

/// The request to cancel every active run.
pub fn cancel_all_request() -> (r: Request)
    ensures
        r matches Request::CancelAll,
{
    Request::CancelAll
}

/// The request to run a commit of a repository again.
pub fn retry_request(repo_str: String, sha_str: String) -> (r: Result<Request, CiError>)
    ensures
        !valid_repo_text(repo_str@) ==> (r matches Err(CiError::Ipc { detail }) && detail@ == repo_error_text(repo_str@)),
        valid_repo_text(repo_str@) && !valid_sha_text(sha_text(sha_str@)) ==> (r matches Err(CiError::Ipc { detail })
            && detail@ == sha_error_text(sha_str@)),
        valid_repo_text(repo_str@) && valid_sha_text(sha_text(sha_str@)) ==> (r matches Ok(Request::Retry { repo, sha })
            && repo@ == trim(repo_str@) && sha@ == sha_text(sha_str@)),
{
    let repo = match RepoName::try_from(repo_str) {
        Ok(r) => r,
        Err(e) => return Err(CiError::Ipc { detail: e.message() }),
    };
    let sha = match CommitSha::try_from(sha_str) {
        Ok(s) => s,
        Err(e) => return Err(CiError::Ipc { detail: e.message() }),
    };
    Ok(Request::Retry { repo, sha })
}

/// The request to stop the daemon.
pub fn shutdown_request() -> (r: Request)
    ensures
        r matches Request::Shutdown,
{
    Request::Shutdown
}


/// The state of a run as the status listing shows it.
pub open spec fn state_label(s: RunState) -> Seq<char> {
    match s {
        RunState::Running => "RUNNING"@,
        RunState::Passed => "PASSED"@,
        RunState::Failed => "FAILED"@,
        RunState::Cancelled => "CANCELLED"@,
    }
}

/// The line of the status listing for one run: its short commit id, its commit
/// message, how many jobs passed (and failed), its attempt and its state.
pub open spec fn run_status_line(r: RunSummary) -> Seq<char> {
    let msg_part = if r.commit_message@.len() == 0 {
        Seq::empty()
    } else {
        " "@ + r.commit_message@
    };
    let failed_part = if r.jobs_failed > 0 {
        ", "@ + decimal(r.jobs_failed as nat) + " failed"@
    } else {
        Seq::empty()
    };
    "  `"@ + r.sha@.subrange(0, 8) + "`"@ + msg_part + " ["@ + decimal(r.jobs_passed as nat) + "/"@
        + decimal(r.jobs_total as nat) + " passed"@ + failed_part + "] attempt "@ + decimal(r.attempt.spec_get() as nat)
        + " "@ + state_label(r.state)
}

/// A name put into a list of names in increasing order, unless it is there.
pub open spec fn insert_name(ns: Seq<Seq<char>>, n: Seq<char>) -> Seq<Seq<char>>
    decreases ns.len(),
{
    if ns.len() == 0 {
        seq![n]
    } else if ns[0] == n {
        ns
    } else if text_lt(n, ns[0]) {
        seq![n] + ns
    } else {
        seq![ns[0]] + insert_name(ns.drop_first(), n)
    }
}

/// The repositories of the runs, each once, in increasing order of name.
pub open spec fn repo_names(runs: Seq<RunSummary>) -> Seq<Seq<char>>
    decreases runs.len(),
{
    if runs.len() == 0 {
        Seq::empty()
    } else {
        insert_name(repo_names(runs.drop_last()), runs.last().repo@)
    }
}

/// The lines of the runs of one repository, in order.
pub open spec fn repo_run_lines(runs: Seq<RunSummary>, name: Seq<char>) -> Seq<Seq<char>>
    decreases runs.len(),
{
    if runs.len() == 0 {
        Seq::empty()
    } else {
        let rest = repo_run_lines(runs.drop_last(), name);
        if runs.last().repo@ == name {
            rest.push(run_status_line(runs.last()))
        } else {
            rest
        }
    }
}

/// For each of the names, a `<name>:` line followed by the lines of its runs.
pub open spec fn grouped_lines(names: Seq<Seq<char>>, runs: Seq<RunSummary>) -> Seq<Seq<char>>
    decreases names.len(),
{
    if names.len() == 0 {
        Seq::empty()
    } else {
        grouped_lines(names.drop_last(), runs) + seq![names.last() + ":"@] + repo_run_lines(runs, names.last())
    }
}

/// What the client prints for an answer: the lines on standard output and
/// those on standard error.
pub open spec fn printed(response: Response) -> (Seq<Seq<char>>, Seq<Seq<char>>) {
    match response {
        Response::Okay { message } => (seq![message@], Seq::empty()),
        Response::Error { message } => (Seq::empty(), seq!["error: "@ + message@]),
        Response::Status { runs } => if runs@.len() == 0 {
            (seq!["no runs recorded"@], Seq::empty())
        } else {
            (grouped_lines(repo_names(runs@), runs@), Seq::empty())
        },
    }
}

/// The views of lines.
pub open spec fn lines_view(v: Seq<String>) -> Seq<Seq<char>> {
    v.map_values(|t: String| t@)
}

/// The line of the status listing for one run (see `run_status_line`).
pub fn format_run_line(r: &RunSummary) -> (out: String)
    ensures
        out@ == run_status_line(*r),
{
    let mut out = String::from_str("  `");
    out.append(r.sha.short());
    out.append("`");
    if !r.commit_message.as_str().is_empty() {
        out.append(" ");
        out.append(r.commit_message.as_str());
    }
    out.append(" [");
    out.append(u64_to_string(r.jobs_passed as u64).as_str());
    out.append("/");
    out.append(u64_to_string(r.jobs_total as u64).as_str());
    out.append(" passed");
    if r.jobs_failed > 0 {
        out.append(", ");
        out.append(u64_to_string(r.jobs_failed as u64).as_str());
        out.append(" failed");
    }
    out.append("] attempt ");
    out.append(u64_to_string(r.attempt.get() as u64).as_str());
    out.append(" ");
    out.append(r.state.label());
    proof {
        let msg_part = if r.commit_message@.len() == 0 {
            Seq::<char>::empty()
        } else {
            " "@ + r.commit_message@
        };
        let failed_part = if r.jobs_failed > 0 {
            ", "@ + decimal(r.jobs_failed as nat) + " failed"@
        } else {
            Seq::<char>::empty()
        };
        assert(out@ =~= "  `"@ + r.sha@.subrange(0, 8) + "`"@ + msg_part + " ["@ + decimal(r.jobs_passed as nat) + "/"@
            + decimal(r.jobs_total as nat) + " passed"@ + failed_part + "] attempt "@ + decimal(r.attempt.spec_get() as nat)
            + " "@ + state_label(r.state));
    }
    out
}

proof fn lemma_insert_name_split(ns: Seq<Seq<char>>, n: Seq<char>, j: int)
    requires
        0 <= j <= ns.len(),
        forall|t: int| 0 <= t < j ==> ns[t] != n && !text_lt(n, #[trigger] ns[t]),
    ensures
        insert_name(ns, n) == ns.subrange(0, j) + insert_name(ns.subrange(j, ns.len() as int), n),
    decreases j,
{
    if j > 0 {
        assert(ns[0] != n && !text_lt(n, ns[0]));
        let tail = ns.drop_first();
        assert forall|t: int| 0 <= t < j - 1 implies tail[t] != n && !text_lt(n, #[trigger] tail[t]) by {
            assert(tail[t] == ns[t + 1]);
        }
        lemma_insert_name_split(tail, n, j - 1);
        assert(tail.subrange(j - 1, tail.len() as int) =~= ns.subrange(j, ns.len() as int));
        assert(seq![ns[0]] + tail.subrange(0, j - 1) =~= ns.subrange(0, j));
        assert(insert_name(ns, n) =~= ns.subrange(0, j) + insert_name(ns.subrange(j, ns.len() as int), n));
    } else {
        assert(ns.subrange(0, ns.len() as int) =~= ns);
        assert(ns.subrange(0, 0) + insert_name(ns, n) =~= insert_name(ns, n));
    }
}

fn add_name(names: &mut Vec<String>, n: &str)
    ensures
        lines_view(final(names)@) == insert_name(lines_view(old(names)@), n@),
{
    let ghost ns = lines_view(names@);
    let nc = chars_of(n);
    let mut j: usize = 0;
    while j < names.len()
        invariant
            j <= names@.len(),
            ns == lines_view(names@),
            ns == lines_view(old(names)@),
            nc@ == n@,
            forall|t: int| 0 <= t < j ==> ns[t] != n@ && !text_lt(n@, #[trigger] ns[t]),
        decreases names@.len() - j,
    {
        if str_eq(names[j].as_str(), n) {
            proof {
                lemma_insert_name_split(ns, n@, j as int);
                assert(ns.subrange(j as int, ns.len() as int)[0] == n@);
                assert(ns.subrange(0, j as int) + ns.subrange(j as int, ns.len() as int) =~= ns);
            }
            return;
        }
        if text_less(&nc, &chars_of(names[j].as_str())) {
            let ghost old_names = names@;
            names.insert(j, String::from_str(n));
            proof {
                lemma_insert_name_split(ns, n@, j as int);
                let tail = ns.subrange(j as int, ns.len() as int);
                assert(tail[0] == ns[j as int]);
                assert(insert_name(tail, n@) == seq![n@] + tail);
                assert(lines_view(names@) =~= ns.subrange(0, j as int) + (seq![n@] + tail));
            }
            return;
        }
        j = j + 1;
    }
    proof {
        lemma_insert_name_split(ns, n@, j as int);
        assert(ns.subrange(j as int, ns.len() as int) =~= Seq::<Seq<char>>::empty());
    }
    let ghost old_names = names@;
    names.push(String::from_str(n));
    proof {
        assert(lines_view(names@) =~= ns.subrange(0, j as int) + seq![n@]);
    }
}

/// The repositories of the runs, each once, in increasing order of name (see
/// `repo_names`).
pub fn status_repo_names(runs: &Vec<RunSummary>) -> (r: Vec<String>)
    ensures
        lines_view(r@) == repo_names(runs@),
{
    let mut names: Vec<String> = Vec::new();
    let mut i: usize = 0;
    while i < runs.len()
        invariant
            i <= runs@.len(),
            lines_view(names@) == repo_names(runs@.subrange(0, i as int)),
        decreases runs@.len() - i,
    {
        proof {
            assert(runs@.subrange(0, i + 1).drop_last() =~= runs@.subrange(0, i as int));
        }
        add_name(&mut names, runs[i].repo.as_str());
        i = i + 1;
    }
    proof {
        assert(runs@.subrange(0, runs@.len() as int) =~= runs@);
    }
    names
}

fn push_repo_lines(out: &mut Vec<String>, runs: &Vec<RunSummary>, name: &str)
    ensures
        lines_view(final(out)@) == lines_view(old(out)@) + repo_run_lines(runs@, name@),
{
    let ghost start = lines_view(out@);
    let mut i: usize = 0;
    while i < runs.len()
        invariant
            i <= runs@.len(),
            lines_view(out@) == start + repo_run_lines(runs@.subrange(0, i as int), name@),
        decreases runs@.len() - i,
    {
        proof {
            assert(runs@.subrange(0, i + 1).drop_last() =~= runs@.subrange(0, i as int));
        }
        if str_eq(runs[i].repo.as_str(), name) {
            let ghost before = lines_view(out@);
            let line = format_run_line(&runs[i]);
            out.push(line);
            proof {
                assert(lines_view(out@) =~= before.push(line@));
            }
        }
        i = i + 1;
    }
    proof {
        assert(runs@.subrange(0, runs@.len() as int) =~= runs@);
    }
}

/// What the client prints for an answer (see `printed`): the lines on standard
/// output, then those on standard error.
pub fn response_lines(response: &Response) -> (r: (Vec<String>, Vec<String>))
    ensures
        (lines_view(r.0@), lines_view(r.1@)) == printed(*response),
{
    let mut out: Vec<String> = Vec::new();
    let mut err: Vec<String> = Vec::new();
    match response {
        Response::Okay { message } => {
            out.push(message.clone());
        },
        Response::Error { message } => {
            let mut line = String::from_str("error: ");
            line.append(message.as_str());
            err.push(line);
        },
        Response::Status { runs } => {
            if runs.len() == 0 {
                out.push(String::from_str("no runs recorded"));
            } else {
                let names = status_repo_names(runs);
                let ghost ns = lines_view(names@);
                let mut k: usize = 0;
                while k < names.len()
                    invariant
                        k <= names@.len(),
                        ns == lines_view(names@),
                        lines_view(out@) == grouped_lines(ns.subrange(0, k as int), runs@),
                    decreases names@.len() - k,
                {
                    proof {
                        assert(ns.subrange(0, k + 1).drop_last() =~= ns.subrange(0, k as int));
                    }
                    let ghost before = lines_view(out@);
                    let mut head = names[k].clone();
                    head.append(":");
                    out.push(head);
                    proof {
                        assert(lines_view(out@) =~= before + seq![ns[k as int] + ":"@]);
                    }
                    push_repo_lines(&mut out, runs, names[k].as_str());
                    k = k + 1;
                }
                proof {
                    assert(ns.subrange(0, ns.len() as int) =~= ns);
                }
            }
        },
    }
    proof {
        assert(lines_view(out@) =~= printed(*response).0);
        assert(lines_view(err@) =~= printed(*response).1);
    }
    (out, err)
}


/// Whether the names are in strictly increasing order.
pub open spec fn strictly_sorted(ns: Seq<Seq<char>>) -> bool {
    forall|i: int, j: int| 0 <= i < j < ns.len() ==> text_lt(#[trigger] ns[i], #[trigger] ns[j])
}

proof fn lemma_insert_name(ns: Seq<Seq<char>>, n: Seq<char>)
    requires
        strictly_sorted(ns),
    ensures
        strictly_sorted(insert_name(ns, n)),
        forall|x: Seq<char>| #[trigger] insert_name(ns, n).contains(x) <==> (ns.contains(x) || x == n),
    decreases ns.len(),
{
    if ns.len() == 0 {
        assert(insert_name(ns, n) =~= seq![n]);
        assert(insert_name(ns, n)[0] == n);
    } else if ns[0] == n {
    } else if text_lt(n, ns[0]) {
        let r = seq![n] + ns;
        assert forall|i: int, j: int| 0 <= i < j < r.len() implies text_lt(#[trigger] r[i], #[trigger] r[j]) by {
            if i == 0 && j > 1 {
                lemma_text_lt_transitive(n, ns[0], ns[j - 1]);
            }
            if i > 0 {
                assert(r[i] == ns[i - 1] && r[j] == ns[j - 1]);
            }
        }
        assert forall|x: Seq<char>| r.contains(x) <==> (ns.contains(x) || x == n) by {
            if ns.contains(x) {
                let t = choose|t: int| 0 <= t < ns.len() && ns[t] == x;
                assert(r[t + 1] == x);
            }
            if r.contains(x) && x != n {
                let t = choose|t: int| 0 <= t < r.len() && r[t] == x;
                assert(ns[t - 1] == x);
            }
            if x == n {
                assert(r[0] == x);
            }
        }
    } else {
        let tail = ns.drop_first();
        assert forall|i: int, j: int| 0 <= i < j < tail.len() implies text_lt(#[trigger] tail[i], #[trigger] tail[j]) by {
            assert(tail[i] == ns[i + 1] && tail[j] == ns[j + 1]);
        }
        lemma_insert_name(tail, n);
        let it = insert_name(tail, n);
        let r = seq![ns[0]] + it;
        lemma_text_lt_order(n, ns[0], n);
        assert(text_lt(ns[0], n));
        assert forall|k: int| 0 <= k < it.len() implies text_lt(ns[0], #[trigger] it[k]) by {
            assert(it.contains(it[k]));
            assert(tail.contains(it[k]) || it[k] == n);
            if it[k] != n {
                let t = choose|t: int| 0 <= t < tail.len() && tail[t] == it[k];
                assert(ns[t + 1] == it[k]);
            }
        }
        assert forall|i: int, j: int| 0 <= i < j < r.len() implies text_lt(#[trigger] r[i], #[trigger] r[j]) by {
            if i == 0 {
                assert(r[j] == it[j - 1]);
            } else {
                assert(r[i] == it[i - 1] && r[j] == it[j - 1]);
            }
        }
        assert forall|x: Seq<char>| r.contains(x) <==> (ns.contains(x) || x == n) by {
            if ns.contains(x) {
                let t = choose|t: int| 0 <= t < ns.len() && ns[t] == x;
                if t == 0 {
                    assert(r[0] == x);
                } else {
                    assert(tail[t - 1] == x);
                    assert(it.contains(x));
                    let u = choose|u: int| 0 <= u < it.len() && it[u] == x;
                    assert(r[u + 1] == x);
                }
            }
            if x == n {
                assert(it.contains(x));
                let u = choose|u: int| 0 <= u < it.len() && it[u] == x;
                assert(r[u + 1] == x);
            }
            if r.contains(x) {
                let t = choose|t: int| 0 <= t < r.len() && r[t] == x;
                if t == 0 {
                    assert(ns[0] == x);
                } else {
                    assert(it[t - 1] == x);
                    assert(it.contains(x));
                    if x != n {
                        let u = choose|u: int| 0 <= u < tail.len() && tail[u] == x;
                        assert(ns[u + 1] == x);
                    }
                }
            }
        }
    }
}

/// The status listing names each repository of the runs once, in increasing
/// order of name, and no other.
pub proof fn law_status_lists_each_repo_once_in_order(runs: Seq<RunSummary>)
    ensures
        strictly_sorted(repo_names(runs)),
        forall|x: Seq<char>| #[trigger] repo_names(runs).contains(x) <==> exists|i: int| 0 <= i < runs.len() && (#[trigger] runs[i]).repo@ == x,
    decreases runs.len(),
{
    if runs.len() > 0 {
        let prev = runs.drop_last();
        law_status_lists_each_repo_once_in_order(prev);
        lemma_insert_name(repo_names(prev), runs.last().repo@);
        assert forall|x: Seq<char>| repo_names(runs).contains(x) <==> exists|i: int| 0 <= i < runs.len() && (#[trigger] runs[i]).repo@ == x by {
            if repo_names(runs).contains(x) && x != runs.last().repo@ {
                assert(repo_names(prev).contains(x));
                let i = choose|i: int| 0 <= i < prev.len() && (#[trigger] prev[i]).repo@ == x;
                assert(runs[i] == prev[i]);
            }
            if exists|i: int| 0 <= i < runs.len() && (#[trigger] runs[i]).repo@ == x {
                let i = choose|i: int| 0 <= i < runs.len() && (#[trigger] runs[i]).repo@ == x;
                if i < runs.len() - 1 {
                    assert(prev[i] == runs[i]);
                    assert(repo_names(prev).contains(x));
                }
                assert(repo_names(runs).contains(x));
            }
        }
    }
}

} // verus!
