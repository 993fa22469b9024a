use localtools::ci::types::{
    AttemptNumber, BranchName, CommitSha, GitSource, MaxParallel, PollInterval, RepoName,
    ShaDefect, WorkDir, WorkDirDefect,
};

#[test]
fn commit_sha_valid_lowercase() {
    let sha = CommitSha::try_from("a".repeat(40)).unwrap();
    assert_eq!(sha.as_str(), "a".repeat(40));
}

#[test]
fn commit_sha_valid_mixed_case_normalizes() {
    let input = format!("{}{}", "A".repeat(20), "b".repeat(20));
    let sha = CommitSha::try_from(input).unwrap();
    assert_eq!(
        sha.as_str(),
        format!("{}{}", "a".repeat(20), "b".repeat(20))
    );
}

#[test]
fn commit_sha_valid_with_whitespace_trimmed() {
    let input = format!("  {}  ", "f".repeat(40));
    let sha = CommitSha::try_from(input).unwrap();
    assert_eq!(sha.as_str(), "f".repeat(40));
}

#[test]
fn commit_sha_too_short() {
    assert!(CommitSha::try_from("abc123".to_string()).is_err());
}

#[test]
fn commit_sha_too_long() {
    assert!(CommitSha::try_from("a".repeat(41)).is_err());
}

#[test]
fn commit_sha_non_hex() {
    let mut bad = "a".repeat(39);
    bad.push('g');
    assert!(CommitSha::try_from(bad).is_err());
}

#[test]
fn commit_sha_length_is_counted_in_bytes() {
    let mut wide = "a".repeat(39);
    wide.push('\u{e9}');
    let e = CommitSha::try_from(wide).unwrap_err();
    assert!(e.message().ends_with("must be exactly 40 characters"));
    let mut narrow = "a".repeat(39);
    narrow.push('g');
    let e = CommitSha::try_from(narrow).unwrap_err();
    assert!(e.message().ends_with("must contain only hexadecimal characters"));
}

#[test]
fn commit_sha_reads_back_as_itself() {
    let sha = CommitSha::try_from(format!("  {}\n", "ABCDEF0123".repeat(4))).unwrap();
    assert_eq!(sha.as_str(), "abcdef0123".repeat(4));
    let again = CommitSha::try_from(sha.as_str().to_string()).unwrap();
    assert_eq!(again.as_str(), sha.as_str());
    assert_eq!(sha.display_string(), sha.as_str());
}

#[test]
fn commit_sha_short_returns_first_8() {
    let sha = CommitSha::try_from("abcdef01".to_string() + &"0".repeat(32)).unwrap();
    assert_eq!(sha.short(), "abcdef01");
}

#[test]
fn commit_sha_display() {
    let hex = "1".repeat(40);
    let sha = CommitSha::try_from(hex.clone()).unwrap();
    assert_eq!(sha.display_string(), hex);
}

#[test]
fn commit_sha_errors_name_their_reason() {
    let short = CommitSha::try_from("abc".to_string()).unwrap_err();
    assert_eq!(short.reason(), ShaDefect::WrongLength);
    assert_eq!(short.value(), "abc");
    assert_eq!(
        short.message(),
        "invalid commit sha 'abc': must be exactly 40 characters"
    );
    let mut bad = "a".repeat(39);
    bad.push('z');
    let e = CommitSha::try_from(bad).unwrap_err();
    assert_eq!(e.reason(), ShaDefect::NotHex);
}

#[test]
fn branch_name_valid() {
    let b = BranchName::try_from("main".to_string()).unwrap();
    assert_eq!(b.as_str(), "main");
}

#[test]
fn branch_name_trims_whitespace() {
    let b = BranchName::try_from("  develop  ".to_string()).unwrap();
    assert_eq!(b.as_str(), "develop");
}

#[test]
fn branch_name_empty_rejected() {
    assert!(BranchName::try_from("".to_string()).is_err());
}

#[test]
fn branch_name_whitespace_only_rejected() {
    assert!(BranchName::try_from("   ".to_string()).is_err());
}

#[test]
fn repo_name_alphanumeric() {
    let r = RepoName::try_from("my-project_01".to_string()).unwrap();
    assert_eq!(r.as_str(), "my-project_01");
}

#[test]
fn repo_name_empty_rejected() {
    assert!(RepoName::try_from("".to_string()).is_err());
}

#[test]
fn repo_name_special_chars_rejected() {
    assert!(RepoName::try_from("my project".to_string()).is_err());
    assert!(RepoName::try_from("foo/bar".to_string()).is_err());
    assert!(RepoName::try_from("a.b".to_string()).is_err());
}

#[test]
fn repo_name_error_details() {
    let e = RepoName::try_from("  ".to_string()).unwrap_err();
    assert_eq!(e.detail, "must be non-empty");
    let e = RepoName::try_from(" a.b ".to_string()).unwrap_err();
    assert_eq!(
        e.message(),
        "invalid repo name: 'a.b' contains invalid characters (only a-z, 0-9, -, _ allowed)"
    );
}

#[test]
fn max_parallel_valid() {
    let m = MaxParallel::try_from(8u16).unwrap();
    assert_eq!(m.get(), 8);
}

#[test]
fn max_parallel_one_is_ok() {
    assert!(MaxParallel::try_from(1u16).is_ok());
}

#[test]
fn max_parallel_zero_rejected() {
    assert!(MaxParallel::try_from(0u16).is_err());
}

#[test]
fn max_parallel_default_from_cpu_count() {
    assert_eq!(MaxParallel::default_for(Some(12)).get(), 12);
    assert_eq!(MaxParallel::default_for(None).get(), 4);
    assert_eq!(MaxParallel::default_for(Some(65536)).get(), 1);
    assert_eq!(MaxParallel::default_for(Some(65537)).get(), 1);
}

#[test]
fn poll_interval_valid() {
    let p = PollInterval::try_from(60u64).unwrap();
    assert_eq!(p.as_duration(), std::time::Duration::from_secs(60));
}

#[test]
fn poll_interval_minimum_5() {
    assert!(PollInterval::try_from(5u64).is_ok());
    assert!(PollInterval::try_from(4u64).is_err());
}

#[test]
fn poll_interval_default_is_30() {
    assert_eq!(
        PollInterval::default().as_duration(),
        std::time::Duration::from_secs(30)
    );
}

#[test]
fn attempt_number_first_is_1() {
    assert_eq!(AttemptNumber::first().get(), 1);
}

#[test]
fn attempt_number_zero_rejected() {
    assert!(AttemptNumber::try_from(0u32).is_err());
}

#[test]
fn attempt_number_next() {
    let a = AttemptNumber::first();
    let b = a.next().unwrap();
    assert_eq!(b.get(), 2);
}

#[test]
fn attempt_number_next_at_max_returns_none() {
    let a = AttemptNumber::try_from(u32::MAX).unwrap();
    assert!(a.next().is_none());
}

#[test]
fn git_source_local_absolute() {
    match GitSource::parse("/home/me/repo", None).unwrap() {
        GitSource::Local { path } => assert_eq!(path, "/home/me/repo"),
        other => panic!("expected Local, got {other:?}"),
    }
}

#[test]
fn git_source_local_relative_dot() {
    match GitSource::parse("./my-repo", None).unwrap() {
        GitSource::Local { path } => assert_eq!(path, "./my-repo"),
        other => panic!("expected Local, got {other:?}"),
    }
}

#[test]
fn git_source_local_tilde_uses_home() {
    match GitSource::parse("~/projects/foo", Some("/home/me")).unwrap() {
        GitSource::Local { path } => assert_eq!(path, "/home/me/projects/foo"),
        other => panic!("expected Local, got {other:?}"),
    }
    match GitSource::parse("~/projects/foo", None).unwrap() {
        GitSource::Local { path } => assert_eq!(path, "~/projects/foo"),
        other => panic!("expected Local, got {other:?}"),
    }
}

#[test]
fn git_source_remote_https() {
    match GitSource::parse("https://github.com/foo/bar.git", None).unwrap() {
        GitSource::Remote { url } => {
            assert_eq!(url, "https://github.com/foo/bar.git");
        }
        other => panic!("expected Remote, got {other:?}"),
    }
}

#[test]
fn git_source_remote_git_at() {
    match GitSource::parse("git@github.com:foo/bar.git", None).unwrap() {
        GitSource::Remote { url } => {
            assert_eq!(url, "git@github.com:foo/bar.git");
        }
        other => panic!("expected Remote, got {other:?}"),
    }
}

#[test]
fn git_source_github_slug() {
    match GitSource::parse("octocat/hello-world", None).unwrap() {
        GitSource::Github { owner, repo } => {
            assert_eq!(owner, "octocat");
            assert_eq!(repo, "hello-world");
        }
        other => panic!("expected Github, got {other:?}"),
    }
}

#[test]
fn git_source_empty_rejected() {
    assert!(GitSource::parse("", None).is_err());
    assert!(GitSource::parse("   ", None).is_err());
}

#[test]
fn git_source_bad_slug_rejected() {
    let e = GitSource::parse("justaname", None).unwrap_err();
    assert_eq!(
        e.detail,
        "'justaname' is not a local path, URL, or owner/repo slug"
    );
    assert!(GitSource::parse("owner/", None).is_err());
    assert!(GitSource::parse("/", None).is_ok());
}

#[test]
fn git_source_display_name() {
    let local = GitSource::Local {
        path: "/tmp/repo".to_string(),
    };
    assert!(local.display_name().starts_with("local:"));

    let remote = GitSource::Remote {
        url: "https://example.com/repo.git".into(),
    };
    assert!(remote.display_name().starts_with("remote:"));

    let gh = GitSource::Github {
        owner: "foo".into(),
        repo: "bar".into(),
    };
    assert_eq!(gh.display_name(), "github:foo/bar");
}

#[test]
fn git_source_short_hash_is_eight_hex_digits() {
    let gh = GitSource::Github {
        owner: "foo".into(),
        repo: "bar".into(),
    };
    let h = gh.short_hash();
    assert_eq!(h.len(), 8);
    assert!(h.chars().all(|c| c.is_ascii_hexdigit() && !c.is_ascii_uppercase()));
    assert_eq!(h, gh.short_hash());
    assert_eq!(localtools::ci::types::short_hash_of(0x0123_4567_89ab_cdef), "01234567");
    assert_eq!(localtools::ci::types::short_hash_of(0xff), "00000000");
}

#[test]
fn slug_and_its_url_share_a_short_hash() {
    let gh = GitSource::Github { owner: "foo".into(), repo: "bar".into() };
    let url = GitSource::Remote { url: "https://github.com/foo/bar".into() };
    let other = GitSource::Remote { url: "https://github.com/foo/baz".into() };
    assert_eq!(gh.short_hash(), url.short_hash());
    assert_ne!(gh.short_hash(), other.short_hash());
}

#[test]
fn workdir_empty_path_rejected() {
    let e = WorkDir::plan(String::new(), false, false).unwrap_err();
    assert_eq!(e.reason, WorkDirDefect::Empty);
}

#[test]
fn workdir_relative_path_rejected() {
    let e = WorkDir::plan("relative/path".to_string(), false, false).unwrap_err();
    assert_eq!(e.reason, WorkDirDefect::NotAbsolute);
}

#[test]
fn workdir_file_not_dir_rejected() {
    let e = WorkDir::plan("/tmp/a-file".to_string(), true, false).unwrap_err();
    assert_eq!(e.reason, WorkDirDefect::NotADirectory);
    assert_eq!(e.reason_text(), "path exists but is not a directory");
}

#[test]
fn workdir_plans_creation_when_missing() {
    let p = WorkDir::plan("/tmp/sub/nested".to_string(), false, false).unwrap();
    assert!(p.create);
    assert_eq!(p.dir.path(), "/tmp/sub/nested");
    let p = WorkDir::plan("/tmp".to_string(), true, true).unwrap();
    assert!(!p.create);
}

#[test]
fn workdir_join() {
    let wd = WorkDir::plan("/tmp/base".to_string(), true, true).unwrap().dir;
    assert_eq!(wd.join("foo"), "/tmp/base/foo");
    assert_eq!(wd.join("/abs"), "/abs");
    let root = WorkDir::plan("/".to_string(), true, true).unwrap().dir;
    assert_eq!(root.join("x"), "/x");
}
