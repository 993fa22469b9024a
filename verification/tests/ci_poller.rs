use localtools::ci::error::CiError;
use localtools::ci::poller::{
    cleanup_worktree_command, commit_message_from, latest_commit, latest_commit_command,
    list_commits_since, mirror_command, mirror_result, parse_rev_list_output, prepare_worktree,
    prepare_worktree_next, read_commit_message_command, rev_list_command, PrepareStage,
    PrepareStep, ProcessOutcome,
};
use localtools::ci::types::{BranchName, CommitSha, GitSource};

fn sha(c: char) -> String {
    c.to_string().repeat(40)
}

fn ok(stdout: &str) -> ProcessOutcome {
    ProcessOutcome::Finished { success: true, stdout: stdout.into(), stderr: String::new() }
}

fn failed(stderr: &str) -> ProcessOutcome {
    ProcessOutcome::Finished { success: false, stdout: String::new(), stderr: stderr.into() }
}

fn branch() -> BranchName {
    BranchName::try_from("main".to_string()).unwrap()
}

fn git_detail(e: &CiError) -> (String, String) {
    match e {
        CiError::Git { context, detail } => (context.clone(), detail.clone()),
        other => panic!("unexpected: {other:?}"),
    }
}

#[test]
fn latest_commit_local_command_and_parse() {
    let src = GitSource::Local { path: "/repo".into() };
    let call = latest_commit_command(&src, &branch());
    assert_eq!(call.program, "git");
    assert_eq!(call.args, vec!["-C", "/repo", "log", "-1", "--format=%H%n%s", "main"]);
    let out = format!("{}\n  initial commit \n", sha('A'));
    let info = latest_commit(&src, &branch(), &ok(&out)).unwrap();
    assert_eq!(info.sha.as_str(), sha('a'));
    assert_eq!(info.message, "initial commit");
}

#[test]
fn latest_commit_failure_carries_stderr() {
    let src = GitSource::Local { path: "/repo".into() };
    let e = latest_commit(&src, &branch(), &failed("fatal: bad revision")).unwrap_err();
    assert_eq!(git_detail(&e), ("git log on local repo".into(), "fatal: bad revision".into()));
    let e = latest_commit(&src, &branch(), &ProcessOutcome::SpawnFailed { detail: "no git".into() })
        .unwrap_err();
    assert_eq!(git_detail(&e).0, "spawning git log for local repo");
}

#[test]
fn latest_commit_remote_reads_first_word() {
    let src = GitSource::Remote { url: "https://example.com/r.git".into() };
    let call = latest_commit_command(&src, &branch());
    assert_eq!(call.args, vec!["ls-remote", "https://example.com/r.git", "refs/heads/main"]);
    let out = format!("{}\trefs/heads/main\n", sha('b'));
    let info = latest_commit(&src, &branch(), &ok(&out)).unwrap();
    assert_eq!(info.sha.as_str(), sha('b'));
    assert_eq!(info.message, "");
    let e = latest_commit(&src, &branch(), &ok("")).unwrap_err();
    assert_eq!(
        git_detail(&e),
        ("git ls-remote".into(), "no ref found for branch 'main'".into())
    );
}

#[test]
fn latest_commit_github_bad_sha() {
    let src = GitSource::Github { owner: "o".into(), repo: "r".into() };
    let call = latest_commit_command(&src, &branch());
    assert_eq!(call.program, "gh");
    assert_eq!(call.args[1], "repos/o/r/commits/main");
    let e = latest_commit(&src, &branch(), &ok("xyz\nmsg\n")).unwrap_err();
    assert_eq!(
        git_detail(&e),
        (
            "parsing commit sha from gh api".into(),
            "invalid commit sha 'xyz': must be exactly 40 characters".into()
        )
    );
}

#[test]
fn rev_list_output_is_read_in_pairs() {
    let out = format!("commit {}\nfirst\ncommit {}\nsecond\n", sha('1'), sha('2'));
    let commits = parse_rev_list_output(&out).unwrap();
    assert_eq!(commits.len(), 2);
    assert_eq!(commits[0].sha.as_str(), sha('1'));
    assert_eq!(commits[0].message, "first");
    assert_eq!(commits[1].message, "second");
    assert!(parse_rev_list_output("").unwrap().is_empty());
    let e = parse_rev_list_output("commit nope\nmsg\n").unwrap_err();
    assert_eq!(git_detail(&e).0, "parsing commit sha from rev-list");
}

#[test]
fn list_commits_since_outcomes() {
    let out = format!("commit {}\nonly\n", sha('3'));
    assert_eq!(list_commits_since(&ok(&out)).unwrap().len(), 1);
    let e = list_commits_since(&failed("bad range")).unwrap_err();
    assert_eq!(git_detail(&e), ("git rev-list".into(), "bad range".into()));
}

#[test]
fn rev_list_and_mirror_commands() {
    let since = CommitSha::try_from(sha('c')).unwrap();
    let local = GitSource::Local { path: "/repo".into() };
    let remote = GitSource::Remote { url: "u".into() };
    let call = rev_list_command(&local, &branch(), &since, "/mirror");
    assert_eq!(call.args[1], "/repo");
    assert_eq!(call.args[5], format!("{}..main", sha('c')));
    assert_eq!(rev_list_command(&remote, &branch(), &since, "/mirror").args[1], "/mirror");
    assert!(mirror_command(&local, &branch(), "/mirror", false).is_none());
    let fetch = mirror_command(&remote, &branch(), "/mirror", true).unwrap();
    assert_eq!(fetch.args[4], "+refs/heads/main:refs/heads/main");
    let clone = mirror_command(&remote, &branch(), "/mirror", false).unwrap();
    assert_eq!(clone.args, vec!["clone", "--bare", "u", "/mirror"]);
    assert!(mirror_result(true, &ok("")).is_ok());
    let e = mirror_result(false, &failed("denied")).unwrap_err();
    assert_eq!(git_detail(&e), ("mirror clone".into(), "denied".into()));
}

#[test]
fn prepare_worktree_steps() {
    let s = CommitSha::try_from(sha('d')).unwrap();
    let local = GitSource::Local { path: "/repo".into() };
    let gh = GitSource::Github { owner: "o".into(), repo: "r".into() };
    match prepare_worktree(&local, &s, "/work") {
        PrepareStep::Run { stage, call } => {
            assert_eq!(stage, PrepareStage::WorktreeAdd);
            assert_eq!(call.args[..4], ["-C", "/repo", "worktree", "add"]);
        }
        other => panic!("unexpected: {other:?}"),
    }
    match prepare_worktree(&gh, &s, "/work") {
        PrepareStep::Run { stage, call } => {
            assert_eq!(stage, PrepareStage::Clone);
            assert_eq!(call.args, vec!["clone", "--no-checkout", "https://github.com/o/r", "/work"]);
        }
        other => panic!("unexpected: {other:?}"),
    }
    match prepare_worktree_next(&local, &s, "/work", PrepareStage::WorktreeAdd, &failed("x")) {
        PrepareStep::Run { stage, call } => {
            assert_eq!(stage, PrepareStage::Clone);
            assert_eq!(call.args[2], "/repo");
        }
        other => panic!("unexpected: {other:?}"),
    }
    match prepare_worktree_next(&gh, &s, "/work", PrepareStage::Clone, &ok("")) {
        PrepareStep::Run { stage, call } => {
            assert_eq!(stage, PrepareStage::Checkout);
            assert_eq!(call.current_dir.as_deref(), Some("/work"));
        }
        other => panic!("unexpected: {other:?}"),
    }
    match prepare_worktree_next(&gh, &s, "/work", PrepareStage::Checkout, &failed("missing")) {
        PrepareStep::Run { stage, .. } => assert_eq!(stage, PrepareStage::Fetch),
        other => panic!("unexpected: {other:?}"),
    }
    match prepare_worktree_next(&gh, &s, "/work", PrepareStage::Fetch, &failed("offline")) {
        PrepareStep::Run { stage, .. } => assert_eq!(stage, PrepareStage::CheckoutRetry),
        other => panic!("unexpected: {other:?}"),
    }
    match prepare_worktree_next(&gh, &s, "/work", PrepareStage::CheckoutRetry, &failed("gone")) {
        PrepareStep::Finished(Err(e)) => {
            assert_eq!(git_detail(&e), ("git checkout".into(), "gone".into()))
        }
        other => panic!("unexpected: {other:?}"),
    }
    assert!(matches!(
        prepare_worktree_next(&gh, &s, "/work", PrepareStage::Checkout, &ok("")),
        PrepareStep::Finished(Ok(()))
    ));
}

#[test]
fn commit_messages_and_cleanup() {
    let s = CommitSha::try_from(sha('e')).unwrap();
    assert_eq!(commit_message_from(&ok(" subject \n")), "subject");
    assert_eq!(commit_message_from(&failed("x")), "");
    let call = read_commit_message_command("/r", &s);
    assert_eq!(call.args[4], "--format=%s");
    let local = GitSource::Local { path: "/repo".into() };
    assert_eq!(
        cleanup_worktree_command(&local, "/w").unwrap().args,
        vec!["-C", "/repo", "worktree", "remove", "--force", "/w"]
    );
    assert!(cleanup_worktree_command(&GitSource::Remote { url: "u".into() }, "/w").is_none());
}
