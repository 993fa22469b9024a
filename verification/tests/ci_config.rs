use localtools::ci::config::{
    base_dir_path, config_settings, expand_env, note_repo_name, parse_repo, Config, RawConfig,
    RawRepo,
};
use localtools::ci::error::CiError;
use localtools::ci::types::{GitSource, MaxParallel, WorkDir};

fn repo(name: &str, source: &str, branch: Option<&str>) -> RawRepo {
    RawRepo { name: name.into(), source: source.into(), branch: branch.map(String::from) }
}

fn raw(base_dir: &str, repos: Vec<RawRepo>) -> RawConfig {
    RawConfig {
        poll_interval_secs: None,
        max_parallel: None,
        timeout_secs: None,
        base_dir: base_dir.into(),
        repos,
    }
}

fn env(vars: &[(&str, &str)]) -> Vec<(String, String)> {
    vars.iter().map(|(k, v)| (k.to_string(), v.to_string())).collect()
}

/// The checks `Config::parse` makes once the file is read, with the base
/// directory taken to exist.
fn parse(raw: &RawConfig, origin: &str, env: &[(String, String)]) -> Result<Config, CiError> {
    let default = MaxParallel::try_from(4).unwrap();
    let (poll, par) = config_settings(raw, default)?;
    let path = base_dir_path(&raw.base_dir, origin, env);
    let base = match WorkDir::plan(path, true, true) {
        Ok(p) => p.dir,
        Err(e) => {
            return Err(CiError::ConfigValidation { detail: format!("base_dir: {}", e.message()) })
        }
    };
    Config::assemble(raw, poll, par, base, env, Some("/home/me"))
}

fn detail(e: CiError) -> String {
    match e {
        CiError::ConfigValidation { detail } => detail,
        other => panic!("unexpected: {other:?}"),
    }
}

#[test]
fn parse_minimal_valid_config() {
    let r = raw("/tmp/ci-base", vec![repo("test-repo", "/tmp/fake-source", None)]);
    let cfg = parse(&r, "/fake/ci-local.toml", &[]).unwrap();
    assert_eq!(cfg.repos.len(), 1);
    assert_eq!(cfg.repos[0].name.as_str(), "test-repo");
    assert_eq!(cfg.repos[0].branch.as_str(), "main");
    assert_eq!(cfg.max_parallel.get(), 4);
    assert_eq!(cfg.poll_interval.as_duration(), std::time::Duration::from_secs(30));
    assert!(cfg.repos[0].repo_dir.starts_with("/tmp/ci-base/"));
}

#[test]
fn parse_with_custom_globals() {
    let mut r = raw("/tmp/ci-base", vec![repo("proj", "/tmp/src", Some("develop"))]);
    r.poll_interval_secs = Some(60);
    r.max_parallel = Some(2);
    let cfg = parse(&r, "/x.toml", &[]).unwrap();
    assert_eq!(cfg.poll_interval.as_duration(), std::time::Duration::from_secs(60));
    assert_eq!(cfg.max_parallel.get(), 2);
    assert_eq!(cfg.repos[0].branch.as_str(), "develop");
}

#[test]
fn parse_multiple_repos() {
    let r = raw("/tmp/ci-base", vec![repo("alpha", "/tmp/a", None), repo("beta", "owner/repo", None)]);
    let cfg = parse(&r, "/x.toml", &[]).unwrap();
    assert_eq!(cfg.repos.len(), 2);
    assert_eq!(cfg.repos[0].name.as_str(), "alpha");
    assert_eq!(cfg.repos[1].name.as_str(), "beta");
    assert_ne!(cfg.repos[0].repo_dir, cfg.repos[1].repo_dir);
}

#[test]
fn reject_no_repos() {
    let r = raw("/tmp/ci-base", vec![]);
    assert!(parse(&r, "/x.toml", &[]).is_err());
}

#[test]
fn reject_empty_repos_list() {
    let r = raw("/tmp/ci-base", vec![]);
    assert_eq!(detail(parse(&r, "/x.toml", &[]).unwrap_err()), "at least one [[repo]] must be defined");
}

#[test]
fn reject_duplicate_repo_names() {
    let r = raw("/tmp/ci-base", vec![repo("same-name", "/tmp/a", None), repo("same-name", "/tmp/b", None)]);
    let msg = detail(parse(&r, "/x.toml", &[]).unwrap_err());
    assert!(msg.contains("duplicate"), "expected duplicate error, got: {msg}");
    assert_eq!(msg, "duplicate repo name 'same-name'");
}

#[test]
fn reject_poll_interval_too_low() {
    let mut r = raw("/tmp/ci-base", vec![repo("proj", "/tmp/src", None)]);
    r.poll_interval_secs = Some(2);
    assert_eq!(detail(parse(&r, "/x.toml", &[]).unwrap_err()), "poll_interval_secs must be >= 5");
}

#[test]
fn reject_max_parallel_zero() {
    let mut r = raw("/tmp/ci-base", vec![repo("proj", "/tmp/src", None)]);
    r.max_parallel = Some(0);
    assert_eq!(detail(parse(&r, "/x.toml", &[]).unwrap_err()), "max_parallel must be >= 1");
}

#[test]
fn git_source_variants_in_config() {
    let r = raw("/tmp/ci-base", vec![repo("local-proj", "/home/me/code", None)]);
    let cfg = parse(&r, "/x.toml", &[]).unwrap();
    assert!(matches!(cfg.repos[0].source, GitSource::Local { .. }));
    let r2 = raw("/tmp/ci-base", vec![repo("gh-proj", "octocat/hello", None)]);
    let cfg2 = parse(&r2, "/x.toml", &[]).unwrap();
    assert!(matches!(cfg2.repos[0].source, GitSource::Github { .. }));
}

#[test]
fn repo_dir_contains_name_and_hash() {
    let r = raw("/tmp/ci-base", vec![repo("my-project", "/home/me/code", None)]);
    let cfg = parse(&r, "/x.toml", &[]).unwrap();
    let dir_name = cfg.repos[0].repo_dir.rsplit('/').next().unwrap().to_string();
    assert!(dir_name.starts_with("my-project-"), "got: {dir_name}");
    let hash_part = dir_name.strip_prefix("my-project-").unwrap();
    assert_eq!(hash_part.len(), 8);
    assert!(hash_part.chars().all(|c| c.is_ascii_hexdigit()));
}

#[test]
fn repo_errors_name_the_entry() {
    let base = WorkDir::plan("/tmp/ci-base".into(), true, true).unwrap().dir;
    let e = parse_repo(&repo("bad name", "/x", None), &base, &[], None).unwrap_err();
    assert_eq!(
        detail(e),
        "repo name: invalid repo name: 'bad name' contains invalid characters (only a-z, 0-9, -, _ allowed)"
    );
    let e = parse_repo(&repo("p", "nonsense", None), &base, &[], None).unwrap_err();
    assert_eq!(
        detail(e),
        "repo 'p': invalid git source: 'nonsense' is not a local path, URL, or owner/repo slug"
    );
    let e = parse_repo(&repo("p", "/x", Some("  ")), &base, &[], None).unwrap_err();
    assert_eq!(detail(e), "repo 'p': branch name must be non-empty");
}

#[test]
fn repo_names_are_noted_once() {
    let base = WorkDir::plan("/tmp/ci-base".into(), true, true).unwrap().dir;
    let a = parse_repo(&repo("a", "/x", None), &base, &[], None).unwrap();
    let mut seen = Vec::new();
    assert!(note_repo_name(&mut seen, &a).is_ok());
    assert_eq!(seen, vec!["a".to_string()]);
    assert_eq!(detail(note_repo_name(&mut seen, &a).unwrap_err()), "duplicate repo name 'a'");
    assert_eq!(seen.len(), 1);
}

#[test]
fn expand_env_dollar_var() {
    let e = env(&[("CI_LOCAL_TEST_VAR", "/some/path")]);
    assert_eq!(expand_env("$CI_LOCAL_TEST_VAR/foo", &e), "/some/path/foo");
}

#[test]
fn expand_env_brace_var() {
    let e = env(&[("CI_LOCAL_TEST_VAR2", "/other")]);
    assert_eq!(expand_env("${CI_LOCAL_TEST_VAR2}/bar", &e), "/other/bar");
}

#[test]
fn expand_env_unset_var_kept() {
    assert_eq!(expand_env("$CI_LOCAL_NONEXISTENT_9999", &[]), "$CI_LOCAL_NONEXISTENT_9999");
    assert_eq!(expand_env("${CI_LOCAL_NONEXISTENT_9999}", &[]), "${CI_LOCAL_NONEXISTENT_9999}");
}

#[test]
fn expand_env_no_vars() {
    assert_eq!(expand_env("/plain/path", &[]), "/plain/path");
}

#[test]
fn expand_env_edge_cases() {
    assert_eq!(expand_env("cost $5 and $", &[]), "cost $5 and $");
    assert_eq!(expand_env("a${}b", &[]), "ab");
    assert_eq!(expand_env("${OPEN", &[]), "${OPEN}");
    assert_eq!(expand_env("$-x", &[]), "$-x");
    let e = env(&[("A", "1"), ("A", "2")]);
    assert_eq!(expand_env("$A$A", &e), "11");
}

#[test]
fn expand_env_in_source() {
    let e = env(&[("CI_LOCAL_TEST_SRC", "/home/me/project")]);
    let r = raw("/tmp/ci-base", vec![repo("proj", "$CI_LOCAL_TEST_SRC", None)]);
    let cfg = parse(&r, "/x.toml", &e).unwrap();
    match &cfg.repos[0].source {
        GitSource::Local { path } => assert_eq!(path, "/home/me/project"),
        other => panic!("expected Local, got {other:?}"),
    }
}

#[test]
fn expand_env_in_base_dir() {
    let e = env(&[("CI_LOCAL_TEST_BASE", "/tmp/elsewhere")]);
    let r = raw("${CI_LOCAL_TEST_BASE}", vec![repo("proj", "/tmp/src", None)]);
    let cfg = parse(&r, "/x.toml", &e).unwrap();
    assert_eq!(cfg.base_dir.path(), "/tmp/elsewhere");
}

#[test]
fn relative_base_dir_follows_the_config_file() {
    assert_eq!(base_dir_path("runs", "/etc/ci/ci-local.toml", &[]), "/etc/ci/runs");
    assert_eq!(base_dir_path("runs", "ci-local.toml", &[]), "runs");
    assert_eq!(base_dir_path("/abs", "/etc/ci/ci-local.toml", &[]), "/abs");
}
