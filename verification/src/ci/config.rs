//! The CI runner's configuration: the values read from the TOML file, checked
//! and resolved into repositories to watch.
use vstd::prelude::*;
use vstd::string::*;
use crate::ci::error::CiError;
use crate::ci::types::{
    parsed_source, source_detail, source_ok, BranchName, GitSource, MaxParallel, PollInterval, RepoName,
    WorkDir, repo_name_chars,
};
use crate::text::{lemma_trim_unpadded, chars_of, find_char, find_char_from, join_path, lemma_find_char_from, path_join, push_char, slice_chars, string_of, trim};

verus! {

/// The name of an environment variable may hold ASCII letters, digits and `_`.
pub open spec fn var_char(c: char) -> bool {
    ('a' <= c && c <= 'z') || ('A' <= c && c <= 'Z') || ('0' <= c && c <= '9') || c == '_'
}

/// The index of the first character at or after `i` that cannot stand in a
/// variable name, or `s.len()`.
pub open spec fn name_end(s: Seq<char>, i: int) -> int
    decreases s.len() - i,
{
    if i < 0 || i >= s.len() {
        s.len() as int
    } else if var_char(s[i]) {
        name_end(s, i + 1)
    } else {
        i
    }
}

pub proof fn lemma_name_end(s: Seq<char>, i: int)
    requires
        0 <= i <= s.len(),
    ensures
        i <= name_end(s, i) <= s.len(),
    decreases s.len() - i,
{
    if i < s.len() && var_char(s[i]) {
        lemma_name_end(s, i + 1);
    }
}

/// The value of variable `name` in `env` (the first entry of that name).
pub open spec fn env_lookup(env: Seq<(String, String)>, name: Seq<char>) -> Option<Seq<char>>
    decreases env.len(),
{
    if env.len() == 0 {
        None
    } else if env[0].0@ == name {
        Some(env[0].1@)
    } else {
        env_lookup(env.drop_first(), name)
    }
}

/// `s` from index `i` on with its variables replaced by their values in `env`:
/// `${NAME}` and `$NAME` (a name of ASCII letters, digits and `_`). An unknown
/// variable stays as it was written (a `${` without its `}` gets one); `${}`
/// disappears; a `$` not followed by a name stays.
pub open spec fn expand_from(s: Seq<char>, env: Seq<(String, String)>, i: int) -> Seq<char>
    decreases s.len() - i,
{
    if i < 0 || i >= s.len() {
        Seq::empty()
    } else if s[i] != '$' {
        seq![s[i]] + expand_from(s, env, i + 1)
    } else if i + 1 < s.len() && s[i + 1] == '{' {
        let j = find_char_from(s, '}', i + 2);
        let name = s.subrange(i + 2, if j <= s.len() { j } else { s.len() as int });
        let next = if j < s.len() { j + 1 } else { s.len() as int };
        let piece = if name.len() == 0 {
            Seq::empty()
        } else {
            match env_lookup(env, name) {
                Some(v) => v,
                None => "${"@ + name + "}"@,
            }
        };
        proof {
            lemma_find_char_from(s, '}', i + 2);
        }
        piece + expand_from(s, env, next)
    } else {
        let j = name_end(s, i + 1);
        proof {
            lemma_name_end(s, i + 1);
        }
        if j == i + 1 {
            "$"@ + expand_from(s, env, i + 1)
        } else {
            let name = s.subrange(i + 1, j);
            (match env_lookup(env, name) {
                Some(v) => v,
                None => "$"@ + name,
            }) + expand_from(s, env, j)
        }
    }
}

/// `s` with its variables replaced (see `expand_from`).
pub open spec fn expanded(s: Seq<char>, env: Seq<(String, String)>) -> Seq<char> {
    expand_from(s, env, 0)
}

fn lookup(env: &[(String, String)], name: &String) -> (r: Option<String>)
    ensures
        match env_lookup(env@, name@) {
            Some(v) => r matches Some(x) && x@ == v,
            None => r is None,
        },
{
    proof {
        assert(env@.subrange(0, env@.len() as int) =~= env@);
    }
    let mut k: usize = 0;
    while k < env.len()
        invariant
            k <= env@.len(),
            env_lookup(env@.subrange(k as int, env@.len() as int), name@) == env_lookup(env@, name@),
        decreases env@.len() - k,
    {
        proof {
            assert(env@.subrange(k as int, env@.len() as int).drop_first() =~= env@.subrange(k + 1, env@.len() as int));
        }
        if env[k].0 == *name {
            return Some(env[k].1.clone());
        }
        k = k + 1;
    }
    None
}

fn name_end_exec(v: &[char], i: usize) -> (r: usize)
    requires
        i <= v@.len(),
    ensures
        r == name_end(v@, i as int),
{
    let mut j = i;
    while j < v.len() && (('a' <= v[j] && v[j] <= 'z') || ('A' <= v[j] && v[j] <= 'Z') || ('0' <= v[j] && v[j] <= '9') || v[j] == '_')
        invariant
            i <= j <= v@.len(),
            name_end(v@, j as int) == name_end(v@, i as int),
        decreases v@.len() - j,
    {
        j = j + 1;
    }
    j
}

/// `s` with its environment variables replaced by their values in `env` (see
/// `expand_from`).
pub fn expand_env(s: &str, env: &[(String, String)]) -> (r: String)
    ensures
        r@ == expanded(s@, env@),
{
    proof {
        reveal_strlit("${");
        reveal_strlit("}");
        reveal_strlit("$");
    }
    let v = chars_of(s);
    let mut out = String::new();
    let mut i: usize = 0;
    proof {
        assert(out@ + expand_from(v@, env@, 0) =~= expand_from(v@, env@, 0));
    }
    while i < v.len()
        invariant
            i <= v@.len(),
            v@ == s@,
            out@ + expand_from(v@, env@, i as int) == expand_from(v@, env@, 0),
        decreases v@.len() - i,
    {
        let ghost before = out@;
        let c = v[i];
        if c != '$' {
            push_char(&mut out, c);
            proof {
                assert(before + expand_from(v@, env@, i as int) =~= out@ + expand_from(v@, env@, i + 1));
            }
            i = i + 1;
        } else if i + 1 < v.len() && v[i + 1] == '{' {
            let j = find_char(&v, '}', i + 2);
            proof {
                lemma_find_char_from(v@, '}', i + 2);
            }
            let name = string_of(&slice_chars(&v, i + 2, j));
            if !name.as_str().is_empty() {
                match lookup(env, &name) {
                    Some(val) => out.append(val.as_str()),
                    None => {
                        out.append("${");
                        out.append(name.as_str());
                        out.append("}");
                    },
                }
            }
            let next = if j < v.len() { j + 1 } else { v.len() };
            proof {
                let piece = out@.subrange(before.len() as int, out@.len() as int);
                assert(out@ =~= before + piece);
                assert(before + expand_from(v@, env@, i as int) =~= before + piece + expand_from(v@, env@, next as int));
            }
            i = next;
        } else {
            let j = name_end_exec(&v, i + 1);
            proof {
                lemma_name_end(v@, i + 1);
            }
            if j == i + 1 {
                out.append("$");
                proof {
                    assert(before + expand_from(v@, env@, i as int) =~= out@ + expand_from(v@, env@, i + 1));
                }
                i = i + 1;
            } else {
                let name = string_of(&slice_chars(&v, i + 1, j));
                match lookup(env, &name) {
                    Some(val) => out.append(val.as_str()),
                    None => {
                        out.append("$");
                        out.append(name.as_str());
                    },
                }
                proof {
                    let piece = out@.subrange(before.len() as int, out@.len() as int);
                    assert(out@ =~= before + piece);
                    assert(before + expand_from(v@, env@, i as int) =~= before + piece + expand_from(v@, env@, j as int));
                }
                i = j;
            }
        }
    }
    proof {
        assert(out@ + expand_from(v@, env@, i as int) =~= out@);
    }
    out
}

/// What `Path::parent` gives for a path: the path without its last component,
/// or none for a root or an empty path.
pub uninterp spec fn path_parent(p: Seq<char>) -> Option<Seq<char>>;

/// `Path::new(p).parent()`, named by `path_parent`; the parent of a UTF-8 path is
/// UTF-8, so the text comes back unchanged.
#[verifier::external_body]
fn parent_of(p: &str) -> (r: Option<String>)
    ensures
        match path_parent(p@) {
            Some(q) => r matches Some(x) && x@ == q,
            None => r is None,
        },
{
    match std::path::Path::new(p).parent() {
        Some(q) => Some(q.to_string_lossy().into_owned()),
        None => None,
    }
}

/// A repository as the file lists it.
#[derive(Debug, Clone)]
pub struct RawRepo {
    pub name: String,
    pub source: String,
    pub branch: Option<String>,
}

/// The configuration as the file holds it, before any check.
#[derive(Debug, Clone)]
pub struct RawConfig {
    pub poll_interval_secs: Option<u64>,
    pub max_parallel: Option<u16>,
    pub timeout_secs: Option<u64>,
    pub base_dir: String,
    pub repos: Vec<RawRepo>,
}

/// A repository to watch: its name, where it comes from, its branch, and the
/// directory its runs use.
#[derive(Debug, Clone)]
pub struct RepoConfig {
    pub name: RepoName,
    pub source: GitSource,
    pub branch: BranchName,
    pub repo_dir: String,
}

/// The checked configuration.
#[derive(Debug, Clone)]
pub struct Config {
    pub poll_interval: PollInterval,
    pub max_parallel: MaxParallel,
    pub timeout_secs: Option<u64>,
    pub base_dir: WorkDir,
    pub repos: Vec<RepoConfig>,
}

/// `e` is a validation error with this detail.
pub open spec fn validation_error(e: CiError, detail: Seq<char>) -> bool {
    e matches CiError::ConfigValidation { detail: d } && d@ == detail
}

fn validation(detail: String) -> (r: CiError)
    ensures
        validation_error(r, detail@),
{
    CiError::ConfigValidation { detail }
}

/// The poll interval and the parallelism the file asks for, each checked;
/// what it leaves out takes the default (thirty seconds, and `default_parallel`).
pub fn config_settings(raw: &RawConfig, default_parallel: MaxParallel) -> (r: Result<(PollInterval, MaxParallel), CiError>)
    ensures
        raw.poll_interval_secs matches Some(p) && p < 5 ==> (r matches Err(e) && validation_error(e, "poll_interval_secs must be >= 5"@)),
        !(raw.poll_interval_secs matches Some(p) && p < 5) && raw.max_parallel == Some(0u16) ==> (r matches Err(e)
            && validation_error(e, "max_parallel must be >= 1"@)),
        !(raw.poll_interval_secs matches Some(p) && p < 5) && raw.max_parallel != Some(0u16) ==> (r matches Ok((pi, mp))
            && pi.spec_secs() == (match raw.poll_interval_secs { Some(p) => p, None => 30u64 })
            && mp.spec_get() == (match raw.max_parallel { Some(m) => m, None => default_parallel.spec_get() })),
{
    let poll = match raw.poll_interval_secs {
        Some(s) => match PollInterval::try_from(s) {
            Ok(p) => p,
            Err(e) => return Err(validation(e.message())),
        },
        None => PollInterval::default(),
    };
    let par = match raw.max_parallel {
        Some(n) => match MaxParallel::try_from(n) {
            Ok(m) => m,
            Err(e) => return Err(validation(e.message())),
        },
        None => default_parallel,
    };
    Ok((poll, par))
}

/// The base directory the file names: its variables expanded, and a relative
/// path taken from the directory of the file (`origin`), or from `.` when the
/// file's path has no parent.
pub open spec fn base_dir_spec(raw: Seq<char>, origin: Seq<char>, env: Seq<(String, String)>) -> Seq<char> {
    let p = expanded(raw, env);
    if p.len() > 0 && p[0] == '/' {
        p
    } else {
        path_join(match path_parent(origin) {
            Some(q) => q,
            None => "."@,
        }, p)
    }
}

/// The base directory the file names (see `base_dir_spec`).
pub fn base_dir_path(raw_base: &str, origin: &str, env: &[(String, String)]) -> (r: String)
    ensures
        r@ == base_dir_spec(raw_base@, origin@, env@),
{
    let p = expand_env(raw_base, env);
    let pc = chars_of(p.as_str());
    if pc.len() > 0 && pc[0] == '/' {
        return p;
    }
    match parent_of(origin) {
        Some(q) => join_path(q.as_str(), p.as_str()),
        None => join_path(".", p.as_str()),
    }
}

/// Why a repository entry is refused, when it is: its name, then its source
/// (variables expanded), then its branch.
pub open spec fn repo_problem(raw: RawRepo, env: Seq<(String, String)>) -> Option<Seq<char>> {
    let n = trim(raw.name@);
    let src = trim(expanded(raw.source@, env));
    if !(n.len() > 0 && repo_name_chars(n)) {
        Some("repo name: invalid repo name: "@ + if n.len() == 0 {
            "must be non-empty"@
        } else {
            "'"@ + n + "' contains invalid characters (only a-z, 0-9, -, _ allowed)"@
        })
    } else if !source_ok(src) {
        Some("repo '"@ + raw.name@ + "': invalid git source: "@ + source_detail(src))
    } else if raw.branch matches Some(b) && trim(b@).len() == 0 {
        Some("repo '"@ + raw.name@ + "': branch name must be non-empty"@)
    } else {
        None
    }
}

/// `repo` is what the entry `raw` gives: the trimmed name, the source it names,
/// the trimmed branch or `main`, and a directory `<name>-<8 hex digits>` under
/// `base`.
pub open spec fn repo_from(raw: RawRepo, env: Seq<(String, String)>, home: Option<Seq<char>>, base: Seq<char>, repo: RepoConfig) -> bool {
    &&& repo.name@ == trim(raw.name@)
    &&& parsed_source(trim(expanded(raw.source@, env)), home, repo.source)
    &&& repo.branch@ == match raw.branch {
        Some(b) => trim(b@),
        None => "main"@,
    }
    &&& exists|h: Seq<char>| h.len() == 8 && #[trigger] path_join(base, repo.name@ + "-"@ + h) == repo.repo_dir@
}

/// Checks one repository entry (see `repo_problem` and `repo_from`); `home`
/// stands for `~` in a local source.
pub fn parse_repo(raw: &RawRepo, base_dir: &WorkDir, env: &[(String, String)], home: Option<&str>) -> (r: Result<RepoConfig, CiError>)
    ensures
        match repo_problem(*raw, env@) {
            Some(d) => r matches Err(e) && validation_error(e, d),
            None => r matches Ok(repo) && repo_from(*raw, env@, match home {
                Some(h) => Some(h@),
                None => None,
            }, base_dir@, repo),
        },
{
    proof {
        reveal_strlit("repo name: ");
        reveal_strlit("repo name: invalid repo name: ");
        reveal_strlit("invalid repo name: ");
        reveal_strlit("repo '");
        reveal_strlit("': ");
        reveal_strlit("': invalid git source: ");
        reveal_strlit("invalid git source: ");
        reveal_strlit("': branch name must be non-empty");
        reveal_strlit("branch name must be non-empty");
        reveal_strlit("main");
        reveal_strlit("-");
    }
    let name = match RepoName::try_from(raw.name.clone()) {
        Ok(n) => n,
        Err(e) => {
            let mut d = String::from_str("repo name: ");
            d.append(e.message().as_str());
            assert("repo name: "@ + "invalid repo name: "@ =~= "repo name: invalid repo name: "@);
            assert(d@ =~= "repo name: invalid repo name: "@ + e.detail@);
            return Err(validation(d));
        },
    };
    let source = match GitSource::parse(expand_env(raw.source.as_str(), env).as_str(), home) {
        Ok(s) => s,
        Err(e) => {
            let mut d = String::from_str("repo '");
            d.append(raw.name.as_str());
            d.append("': ");
            d.append(e.message().as_str());
            assert("': "@ + "invalid git source: "@ =~= "': invalid git source: "@);
            assert(d@ =~= "repo '"@ + raw.name@ + "': invalid git source: "@ + e.detail@);
            return Err(validation(d));
        },
    };
    let branch = match &raw.branch {
        Some(b) => match BranchName::try_from(b.clone()) {
            Ok(b) => b,
            Err(e) => {
                let mut d = String::from_str("repo '");
                d.append(raw.name.as_str());
                d.append("': ");
                d.append(e.message().as_str());
                assert("': "@ + "branch name must be non-empty"@ =~= "': branch name must be non-empty"@);
                assert(d@ =~= "repo '"@ + raw.name@ + "': branch name must be non-empty"@);
                return Err(validation(d));
            },
        },
        None => match BranchName::try_from(String::from_str("main")) {
            Ok(b) => b,
            Err(e) => return Err(validation(e.message())),
        },
    };
    let hash = source.short_hash();
    let mut leaf = String::from_str(name.as_str());
    leaf.append("-");
    leaf.append(hash.as_str());
    let repo_dir = base_dir.join(leaf.as_str());
    proof {
        assert(path_join(base_dir@, name@ + "-"@ + hash@) == repo_dir@);
        assert(name@ == trim(raw.name@));
        assert(branch@ == match raw.branch {
            Some(b) => trim(b@),
            None => "main"@,
        });
        assert(parsed_source(trim(expanded(raw.source@, env@)), match home {
            Some(h) => Some(h@),
            None => None,
        }, source));
    }
    Ok(RepoConfig { name, source, branch, repo_dir })
}

/// The first problem of the entries from `k` on, given the names `seen` before
/// them: an entry refused (see `repo_problem`), or a name used twice.
pub open spec fn first_problem(raws: Seq<RawRepo>, env: Seq<(String, String)>, k: int, seen: Seq<Seq<char>>) -> Option<Seq<char>>
    decreases raws.len() - k,
{
    if k < 0 || k >= raws.len() {
        None
    } else {
        match repo_problem(raws[k], env) {
            Some(d) => Some(d),
            None => {
                let n = trim(raws[k].name@);
                if seen.contains(n) {
                    Some("duplicate repo name '"@ + n + "'"@)
                } else {
                    first_problem(raws, env, k + 1, seen.push(n))
                }
            },
        }
    }
}

/// Whether the name of `repo` is among `seen`; when it is not, it is added.
/// A name already seen is a validation error.
pub fn note_repo_name(seen: &mut Vec<String>, repo: &RepoConfig) -> (r: Result<(), CiError>)
    ensures
        views_of(old(seen)@).contains(repo.name@) ==> (r matches Err(e) && validation_error(
            e,
            "duplicate repo name '"@ + repo.name@ + "'"@,
        ) && final(seen)@ == old(seen)@),
        !views_of(old(seen)@).contains(repo.name@) ==> (r is Ok && views_of(final(seen)@) == views_of(old(seen)@).push(repo.name@)),
{
    proof {
        reveal_strlit("duplicate repo name '");
        reveal_strlit("'");
    }
    let name = String::from_str(repo.name.as_str());
    let mut k: usize = 0;
    while k < seen.len()
        invariant
            k <= seen@.len(),
            seen@ == old(seen)@,
            name@ == repo.name@,
            forall|q: int| 0 <= q < k ==> (#[trigger] seen@[q])@ != name@,
        decreases seen@.len() - k,
    {
        if seen[k] == name {
            assert(views_of(seen@)[k as int] == repo.name@);
            let mut d = String::from_str("duplicate repo name '");
            d.append(repo.name.as_str());
            d.append("'");
            return Err(validation(d));
        }
        k = k + 1;
    }
    proof {
        assert forall|q: int| 0 <= q < views_of(seen@).len() implies views_of(seen@)[q] != repo.name@ by {
            assert(views_of(seen@)[q] == seen@[q]@);
        }
    }
    let ghost before = seen@;
    seen.push(name);
    proof {
        assert(views_of(seen@) =~= views_of(before).push(repo.name@));
    }
    Ok(())
}

/// The texts of the strings `v`.
pub open spec fn views_of(v: Seq<String>) -> Seq<Seq<char>> {
    v.map_values(|t: String| t@)
}

impl Config {
    /// The configuration from what the file holds, once the settings are checked
    /// and the base directory is known: at least one repository, each accepted
    /// (see `parse_repo`), and no name twice. The first problem is the error.
    pub fn assemble(
        raw: &RawConfig,
        poll_interval: PollInterval,
        max_parallel: MaxParallel,
        base_dir: WorkDir,
        env: &[(String, String)],
        home: Option<&str>,
    ) -> (r: Result<Config, CiError>)
        ensures
            raw.repos@.len() == 0 ==> (r matches Err(e) && validation_error(e, "at least one [[repo]] must be defined"@)),
            raw.repos@.len() > 0 ==> match first_problem(raw.repos@, env@, 0, Seq::empty()) {
                Some(d) => r matches Err(e) && validation_error(e, d),
                None => r is Ok,
            },
            r matches Ok(c) ==> {
                &&& c.poll_interval == poll_interval
                &&& c.max_parallel == max_parallel
                &&& c.timeout_secs == raw.timeout_secs
                &&& c.base_dir@ == base_dir@
                &&& c.repos@.len() == raw.repos@.len()
                &&& forall|k: int| 0 <= k < c.repos@.len() ==> repo_from(raw.repos@[k], env@, match home {
                    Some(h) => Some(h@),
                    None => None,
                }, base_dir@, #[trigger] c.repos@[k])
            },
    {
        if raw.repos.len() == 0 {
            return Err(validation(String::from_str("at least one [[repo]] must be defined")));
        }
        let ghost h = match home {
            Some(x) => Some(x@),
            None => None,
        };
        let mut seen: Vec<String> = Vec::new();
        let mut repos: Vec<RepoConfig> = Vec::new();
        let mut k: usize = 0;
        proof {
            assert(views_of(seen@) =~= Seq::<Seq<char>>::empty());
        }
        while k < raw.repos.len()
            invariant
                k <= raw.repos@.len(),
                repos@.len() == k,
                views_of(seen@).len() == k,
                h == match home {
                    Some(x) => Some(x@),
                    None => None,
                },
                forall|q: int| 0 <= q < k ==> views_of(seen@)[q] == trim(raw.repos@[q].name@),
                forall|q: int| 0 <= q < k ==> repo_from(raw.repos@[q], env@, h, base_dir@, #[trigger] repos@[q]),
                first_problem(raw.repos@, env@, 0, Seq::empty()) == first_problem(raw.repos@, env@, k as int, views_of(seen@)),
            decreases raw.repos@.len() - k,
        {
            let repo = parse_repo(&raw.repos[k], &base_dir, env, home)?;
            let ghost seen_before = views_of(seen@);
            note_repo_name(&mut seen, &repo)?;
            repos.push(repo);
            k = k + 1;
        }
        proof {
            assert(first_problem(raw.repos@, env@, k as int, views_of(seen@)) is None);
        }
        Ok(Config { poll_interval, max_parallel, timeout_secs: raw.timeout_secs, base_dir, repos })
    }
}

} // verus!
