//! Validated value types of the CI runner: commit ids, branch and repo names,
//! limits, attempt counters and git sources.
use vstd::prelude::*;
use vstd::string::*;
use std::hash::{Hash, Hasher};
use crate::text::{ascii_lower, chars_of, to_ascii_lowercase, lower_char, is_ascii_text, lowercase_of, spec_is_ws, to_lowercase, utf8_len, utf8_width, ws_back, ws_skip, join_path, path_join, concat_chars, contains_text, find_char, find_char_from, has_prefix, lemma_find_char_from, occurs_in, slice_chars, starts_with, string_of, trim, trim_str};

verus! {

/// What `char::is_alphanumeric` says of a character (Unicode Alphabetic or Numeric).
pub uninterp spec fn alphanumeric(c: char) -> bool;

/// Whether `c` is alphanumeric as `char::is_alphanumeric` says: among ASCII
/// characters exactly the letters and the digits, otherwise `alphanumeric`.
pub open spec fn is_alnum(c: char) -> bool {
    if (c as int) < 0x80 {
        ('a' <= c && c <= 'z') || ('A' <= c && c <= 'Z') || ('0' <= c && c <= '9')
    } else {
        alphanumeric(c)
    }
}

/// `char::is_alphanumeric`, named by `alphanumeric`. Among ASCII characters
/// exactly the letters and the digits are Alphabetic or Numeric.
#[verifier::external_body]
pub(crate) fn is_alphanumeric(c: char) -> (r: bool)
    ensures
        r == alphanumeric(c),
        (c as int) < 0x80 ==> r == (('a' <= c && c <= 'z') || ('A' <= c && c <= 'Z') || ('0' <= c && c <= '9')),
        r == is_alnum(c),
{
    c.is_alphanumeric()
}

pub open spec fn is_hex_digit(c: char) -> bool {
    ('0' <= c && c <= '9') || ('a' <= c && c <= 'f') || ('A' <= c && c <= 'F')
}

pub open spec fn all_hex(s: Seq<char>) -> bool {
    forall|i: int| 0 <= i < s.len() ==> is_hex_digit(#[trigger] s[i])
}

/// The text a commit id is stored as: trimmed, then lower-cased
/// (`str::to_lowercase`), then its ASCII letters lower-cased. The last step
/// changes nothing in a text that `to_lowercase` gives; it lets proofs see
/// that the stored id is in lower case.
pub open spec fn sha_text(value: Seq<char>) -> Seq<char> {
    ascii_lower(lowercase_of(trim(value)))
}

pub open spec fn valid_sha_text(t: Seq<char>) -> bool {
    t.len() == 40 && all_hex(t)
}

/// The test `CommitSha::try_from` makes of the stored text: 40 bytes in UTF-8,
/// all hexadecimal digits.
pub open spec fn accepted_sha_text(t: Seq<char>) -> bool {
    utf8_len(t) == 40 && all_hex(t)
}

/// Hexadecimal digits take one UTF-8 byte each.
pub proof fn lemma_hex_utf8_len(t: Seq<char>)
    requires
        all_hex(t),
    ensures
        utf8_len(t) == t.len(),
    decreases t.len(),
{
    if t.len() > 0 {
        assert(all_hex(t.drop_last())) by {
            assert forall|i: int| 0 <= i < t.drop_last().len() implies is_hex_digit(#[trigger] t.drop_last()[i]) by {
                assert(t.drop_last()[i] == t[i]);
            }
        }
        lemma_hex_utf8_len(t.drop_last());
        assert(is_hex_digit(t[t.len() - 1]));
    }
}

/// Whether `t` is all lower-case hexadecimal digits.
pub open spec fn lower_hex_text(t: Seq<char>) -> bool {
    forall|i: int| 0 <= i < t.len() ==> ('0' <= #[trigger] t[i] && t[i] <= '9') || ('a' <= t[i] && t[i] <= 'f')
}

/// A commit id in lower-case hex reads back as itself: it is its own trimmed
/// text, that text is ASCII, and lower-casing it changes nothing, so (by
/// `CommitSha::try_from`) parsing the id's text accepts it and gives the same
/// id. Every id is in lower-case hex (see `CommitSha::as_str`).
pub proof fn law_commit_id_reads_as_itself(t: Seq<char>)
    requires
        valid_sha_text(t),
        lower_hex_text(t),
    ensures
        trim(t) == t,
        is_ascii_text(t),
        ascii_lower(t) == t,
        accepted_sha_text(t),
{
    assert(!spec_is_ws(t[0]));
    assert(!spec_is_ws(t[39]));
    assert(ws_skip(t, 0) == 0);
    assert(t.subrange(0, 40) =~= t);
    assert(ws_back(t, 40) == 40);
    assert(trim(t) =~= t);
    assert(ascii_lower(t) =~= t) by {
        assert forall|i: int| 0 <= i < t.len() implies ascii_lower(t)[i] == t[i] by {
            assert(lower_char(t[i]) == t[i]);
        }
    }
    lemma_sha_tests_agree(t);
}

/// The stored text passes the byte-length test exactly when it is a valid id.
pub proof fn lemma_sha_tests_agree(t: Seq<char>)
    ensures
        accepted_sha_text(t) <==> valid_sha_text(t),
{
    if all_hex(t) {
        lemma_hex_utf8_len(t);
    }
}

/// Whether `v` takes exactly `n` bytes in UTF-8.
fn utf8_len_is(v: &[char], n: usize) -> (r: bool)
    ensures
        r == (utf8_len(v@) == n),
{
    let mut total: usize = 0;
    let mut i: usize = 0;
    while i < v.len()
        invariant
            i <= v@.len(),
            total == utf8_len(v@.take(i as int)),
            total <= n,
        decreases v@.len() - i,
    {
        let c = v[i];
        let mut w: usize = 4;
        if '\u{80}' > c {
            w = 1;
        } else if '\u{800}' > c {
            w = 2;
        } else if '\u{10000}' > c {
            w = 3;
        }
        proof {
            assert(v@.take(i + 1).drop_last() =~= v@.take(i as int));
            assert(w == utf8_width(v@[i as int]));
        }
        if w > n - total {
            proof {
                lemma_utf8_len_grows(v@, i as int + 1);
            }
            return false;
        }
        total = total + w;
        i = i + 1;
    }
    proof {
        assert(v@.take(v@.len() as int) =~= v@);
    }
    total == n
}

/// The UTF-8 length of a text is at least that of each of its prefixes.
proof fn lemma_utf8_len_grows(s: Seq<char>, k: int)
    requires
        0 <= k <= s.len(),
    ensures
        utf8_len(s.take(k)) <= utf8_len(s),
    decreases s.len() - k,
{
    if k < s.len() {
        lemma_utf8_len_grows(s, k + 1);
        assert(s.take(k + 1).drop_last() =~= s.take(k));
    } else {
        assert(s.take(k) =~= s);
    }
}

fn all_hex_exec(v: &[char]) -> (r: bool)
    ensures
        r == all_hex(v@),
{
    let mut i: usize = 0;
    while i < v.len()
        invariant
            i <= v@.len(),
            forall|k: int| 0 <= k < i ==> is_hex_digit(#[trigger] v@[k]),
        decreases v@.len() - i,
    {
        let c = v[i];
        if !(('0' <= c && c <= '9') || ('a' <= c && c <= 'f') || ('A' <= c && c <= 'F')) {
            assert(!is_hex_digit(v@[i as int]));
            return false;
        }
        i = i + 1;
    }
    true
}

/// A full 40-character hexadecimal git commit id.
#[derive(Debug, PartialEq, Eq, Hash)]
pub struct CommitSha(String);

impl Clone for CommitSha {
    fn clone(&self) -> (r: Self)
        ensures
            r@ == self@,
    {
        proof {
            use_type_invariant(self);
        }
        CommitSha(self.0.clone())
    }
}

/// Why a text was refused as a commit id.
#[derive(Debug, Clone, Copy, PartialEq, Eq)]
pub enum ShaDefect {
    WrongLength,
    NotHex,
}

/// A text that is not a commit id, and why.
#[derive(Debug)]
pub struct InvalidCommitSha {
    value: String,
    reason: ShaDefect,
}

impl InvalidCommitSha {
    pub closed spec fn spec_value(&self) -> Seq<char> {
        self.value@
    }

    pub closed spec fn spec_reason(&self) -> ShaDefect {
        self.reason
    }

    /// The refused text, as it was given.
    pub fn value(&self) -> (r: &str)
        ensures
            r@ == self.spec_value(),
    {
        self.value.as_str()
    }

    /// Why it was refused.
    pub fn reason(&self) -> (r: ShaDefect)
        ensures
            r == self.spec_reason(),
    {
        self.reason
    }

    /// The human-readable message: `invalid commit sha '<value>': <reason>`.
    pub fn message(&self) -> (r: String)
        ensures
            r@ == "invalid commit sha '"@ + self.spec_value() + "': "@ + (match self.spec_reason() {
                ShaDefect::WrongLength => "must be exactly 40 characters"@,
                ShaDefect::NotHex => "must contain only hexadecimal characters"@,
            }),
    {
        let mut out = String::from_str("invalid commit sha '");
        out.append(self.value.as_str());
        out.append("': ");
        match self.reason {
            ShaDefect::WrongLength => out.append("must be exactly 40 characters"),
            ShaDefect::NotHex => out.append("must contain only hexadecimal characters"),
        }
        out
    }
}

impl View for CommitSha {
    type V = Seq<char>;

    closed spec fn view(&self) -> Seq<char> {
        self.0@
    }
}

impl CommitSha {
    #[verifier::type_invariant]
    closed spec fn inv(self) -> bool {
        valid_sha_text(self.0@) && lower_hex_text(self.0@)
    }

    /// Accepts `value` when, trimmed and lower-cased, it is 40 bytes long and all
    /// hexadecimal digits; the commit id is then that text.
    pub fn try_from(value: String) -> (r: Result<CommitSha, InvalidCommitSha>)
        ensures
            r is Ok <==> accepted_sha_text(sha_text(value@)),
            r is Ok <==> valid_sha_text(sha_text(value@)),
            r matches Ok(sha) ==> sha@ == sha_text(value@),
            is_ascii_text(trim(value@)) ==> sha_text(value@) == ascii_lower(trim(value@)),
            r matches Ok(sha) ==> lower_hex_text(sha@),
            r matches Err(e) ==> e.spec_value() == value@ && e.spec_reason() == (if utf8_len(sha_text(
                value@,
            )) != 40 {
                ShaDefect::WrongLength
            } else {
                ShaDefect::NotHex
            }),
    {
        let trimmed_chars = trim_str(value.as_str());
        let trimmed_string = string_of(&trimmed_chars);
        let lowered = to_lowercase(trimmed_string.as_str());
        let stored = to_ascii_lowercase(lowered.as_str());
        let chars = chars_of(stored.as_str());
        proof {
            crate::text::lemma_ascii_lower_twice(trim(value@));
            if all_hex(chars@) {
                assert forall|i: int| 0 <= i < chars@.len() implies ('0' <= #[trigger] chars@[i] && chars@[i] <= '9')
                    || ('a' <= chars@[i] && chars@[i] <= 'f') by {
                    assert(chars@[i] == lower_char(lowered@[i]));
                    assert(is_hex_digit(chars@[i]));
                }
            }
        }
        if !utf8_len_is(&chars, 40) {
            proof {
                lemma_sha_tests_agree(chars@);
            }
            return Err(InvalidCommitSha { value, reason: ShaDefect::WrongLength });
        }
        if !all_hex_exec(&chars) {
            proof {
                lemma_sha_tests_agree(chars@);
            }
            return Err(InvalidCommitSha { value, reason: ShaDefect::NotHex });
        }
        proof {
            lemma_hex_utf8_len(chars@);
        }
        Ok(CommitSha(stored))
    }

    /// The full 40-character id.
    pub fn as_str(&self) -> (r: &str)
        ensures
            r@ == self@,
            valid_sha_text(r@),
            lower_hex_text(r@),
    {
        proof {
            use_type_invariant(self);
        }
        self.0.as_str()
    }

    /// The first eight characters of the id.
    pub fn short(&self) -> (r: &str)
        ensures
            r@ == self@.subrange(0, 8),
            r@.len() == 8,
    {
        proof {
            use_type_invariant(self);
        }
        self.0.as_str().substring_char(0, 8)
    }

    /// The id as it is displayed: the full text.
    pub fn display_string(&self) -> (r: String)
        ensures
            r@ == self@,
    {
        self.0.clone()
    }
}

/// A non-empty, trimmed git branch name.
#[derive(Debug, PartialEq, Eq, Hash)]
pub struct BranchName(String);

impl Clone for BranchName {
    fn clone(&self) -> (r: Self)
        ensures
            r@ == self@,
    {
        proof {
            use_type_invariant(self);
        }
        BranchName(self.0.clone())
    }
}

/// The branch name was empty once trimmed.
#[derive(Debug)]
pub struct InvalidBranchName;

impl InvalidBranchName {
    /// The human-readable message.
    pub fn message(&self) -> (r: String)
        ensures
            r@ == "branch name must be non-empty"@,
    {
        String::from_str("branch name must be non-empty")
    }
}

impl View for BranchName {
    type V = Seq<char>;

    closed spec fn view(&self) -> Seq<char> {
        self.0@
    }
}

impl BranchName {
    #[verifier::type_invariant]
    closed spec fn inv(self) -> bool {
        self.0@.len() > 0
    }

    /// Accepts any text that is non-empty once trimmed; the name is the trimmed text.
    pub fn try_from(value: String) -> (r: Result<BranchName, InvalidBranchName>)
        ensures
            r is Ok <==> trim(value@).len() > 0,
            r matches Ok(b) ==> b@ == trim(value@),
    {
        let t = trim_str(value.as_str());
        if t.len() == 0 {
            return Err(InvalidBranchName);
        }
        Ok(BranchName(string_of(&t)))
    }

    /// The name.
    pub fn as_str(&self) -> (r: &str)
        ensures
            r@ == self@,
    {
        self.0.as_str()
    }

    /// The name as it is displayed.
    pub fn display_string(&self) -> (r: String)
        ensures
            r@ == self@,
    {
        self.0.clone()
    }
}

/// Whether every character of a repository name is alphanumeric, `-` or `_`.
pub open spec fn repo_name_chars(s: Seq<char>) -> bool {
    forall|i: int| 0 <= i < s.len() ==> (is_alnum(#[trigger] s[i]) || s[i] == '-' || s[i] == '_')
}

/// A non-empty repository name of alphanumeric characters, `-` and `_`.
#[derive(Debug, PartialEq, Eq, Hash)]
pub struct RepoName(String);

impl Clone for RepoName {
    fn clone(&self) -> (r: Self)
        ensures
            r@ == self@,
    {
        proof {
            use_type_invariant(self);
        }
        RepoName(self.0.clone())
    }
}

/// Why a text was refused as a repository name.
#[derive(Debug)]
pub struct InvalidRepoName {
    pub detail: String,
}

impl View for RepoName {
    type V = Seq<char>;

    closed spec fn view(&self) -> Seq<char> {
        self.0@
    }
}

fn repo_chars_ok(v: &[char]) -> (r: bool)
    ensures
        r == repo_name_chars(v@),
{
    let mut i: usize = 0;
    while i < v.len()
        invariant
            i <= v@.len(),
            forall|k: int|
                0 <= k < i ==> (is_alnum(#[trigger] v@[k]) || v@[k] == '-' || v@[k] == '_'),
        decreases v@.len() - i,
    {
        let c = v[i];
        if !(is_alphanumeric(c) || c == '-' || c == '_') {
            return false;
        }
        i = i + 1;
    }
    true
}

impl InvalidRepoName {
    /// The human-readable message: `invalid repo name: <detail>`.
    pub fn message(&self) -> (r: String)
        ensures
            r@ == "invalid repo name: "@ + self.detail@,
    {
        let mut out = String::from_str("invalid repo name: ");
        out.append(self.detail.as_str());
        out
    }
}

impl RepoName {
    #[verifier::type_invariant]
    closed spec fn inv(self) -> bool {
        self.0@.len() > 0 && repo_name_chars(self.0@)
    }

    /// Accepts a text that, trimmed, is non-empty and made of alphanumeric
    /// characters, `-` and `_`; the name is the trimmed text.
    pub fn try_from(value: String) -> (r: Result<RepoName, InvalidRepoName>)
        ensures
            r is Ok <==> (trim(value@).len() > 0 && repo_name_chars(trim(value@))),
            r matches Ok(n) ==> n@ == trim(value@),
            r matches Err(e) ==> e.detail@ == (if trim(value@).len() == 0 {
                "must be non-empty"@
            } else {
                "'"@ + trim(value@) + "' contains invalid characters (only a-z, 0-9, -, _ allowed)"@
            }),
    {
        let t = trim_str(value.as_str());
        if t.len() == 0 {
            return Err(InvalidRepoName { detail: String::from_str("must be non-empty") });
        }
        if !repo_chars_ok(&t) {
            let mut detail = String::from_str("'");
            let ts = string_of(&t);
            detail.append(ts.as_str());
            detail.append("' contains invalid characters (only a-z, 0-9, -, _ allowed)");
            return Err(InvalidRepoName { detail });
        }
        Ok(RepoName(string_of(&t)))
    }

    /// The name.
    pub fn as_str(&self) -> (r: &str)
        ensures
            r@ == self@,
    {
        self.0.as_str()
    }

    /// The name as it is displayed.
    pub fn display_string(&self) -> (r: String)
        ensures
            r@ == self@,
    {
        self.0.clone()
    }
}


/// A directory path: non-empty and absolute (it starts at the root `/`).
#[derive(Debug)]
pub struct WorkDir(String);

impl Clone for WorkDir {
    fn clone(&self) -> (r: Self)
        ensures
            r@ == self@,
    {
        proof {
            use_type_invariant(self);
        }
        WorkDir(self.0.clone())
    }
}

/// Why a path was refused as a work directory.
#[derive(Debug, Clone, Copy, PartialEq, Eq)]
pub enum WorkDirDefect {
    Empty,
    NotAbsolute,
    NotADirectory,
    CannotCreate,
}

/// A path refused as a work directory, and why.
#[derive(Debug)]
pub struct InvalidWorkDir {
    pub path: String,
    pub reason: WorkDirDefect,
}

impl InvalidWorkDir {
    /// The human-readable message: `invalid work directory '<path>': <reason>`.
    pub fn message(&self) -> (r: String)
        ensures
            r@ == "invalid work directory '"@ + self.path@ + "': "@ + (match self.reason {
                WorkDirDefect::Empty => "path is empty"@,
                WorkDirDefect::NotAbsolute => "path must be absolute"@,
                WorkDirDefect::NotADirectory => "path exists but is not a directory"@,
                WorkDirDefect::CannotCreate => "could not create directory"@,
            }),
    {
        let mut out = String::from_str("invalid work directory '");
        out.append(self.path.as_str());
        out.append("': ");
        out.append(self.reason_text());
        out
    }

    /// The reason as it is printed.
    pub fn reason_text(&self) -> (r: &'static str)
        ensures
            r@ == (match self.reason {
                WorkDirDefect::Empty => "path is empty"@,
                WorkDirDefect::NotAbsolute => "path must be absolute"@,
                WorkDirDefect::NotADirectory => "path exists but is not a directory"@,
                WorkDirDefect::CannotCreate => "could not create directory"@,
            }),
    {
        match self.reason {
            WorkDirDefect::Empty => "path is empty",
            WorkDirDefect::NotAbsolute => "path must be absolute",
            WorkDirDefect::NotADirectory => "path exists but is not a directory",
            WorkDirDefect::CannotCreate => "could not create directory",
        }
    }
}

/// A work directory and whether it still has to be created.
#[derive(Debug)]
pub struct WorkDirPlan {
    pub dir: WorkDir,
    pub create: bool,
}

impl View for WorkDir {
    type V = Seq<char>;

    closed spec fn view(&self) -> Seq<char> {
        self.0@
    }
}

impl WorkDir {
    #[verifier::type_invariant]
    closed spec fn inv(self) -> bool {
        self.0@.len() > 0 && self.0@[0] == '/'
    }

    /// Decides on `path` given what is on disk: refused when empty, relative, or
    /// present but not a directory; otherwise accepted, to be created when absent.
    pub fn plan(path: String, present: bool, is_directory: bool) -> (r: Result<WorkDirPlan, InvalidWorkDir>)
        ensures
            r matches Ok(p) ==> p.dir@ == path@ && p.create == !present,
            r matches Err(e) ==> e.path@ == path@,
            path@.len() == 0 ==> (r matches Err(e) && e.reason == WorkDirDefect::Empty),
            path@.len() > 0 && path@[0] != '/' ==> (r matches Err(e) && e.reason
                == WorkDirDefect::NotAbsolute),
            path@.len() > 0 && path@[0] == '/' && present && !is_directory ==> (r matches Err(e)
                && e.reason == WorkDirDefect::NotADirectory),
            path@.len() > 0 && path@[0] == '/' && (!present || is_directory) ==> r is Ok,
    {
        let n = path.as_str().unicode_len();
        if n == 0 {
            return Err(InvalidWorkDir { path, reason: WorkDirDefect::Empty });
        }
        if path.as_str().get_char(0) != '/' {
            return Err(InvalidWorkDir { path, reason: WorkDirDefect::NotAbsolute });
        }
        if present && !is_directory {
            return Err(InvalidWorkDir { path, reason: WorkDirDefect::NotADirectory });
        }
        Ok(WorkDirPlan { dir: WorkDir(path), create: !present })
    }

    /// The directory's path.
    pub fn path(&self) -> (r: &str)
        ensures
            r@ == self@,
            r@.len() > 0 && r@[0] == '/',
    {
        proof {
            use_type_invariant(self);
        }
        self.0.as_str()
    }

    /// The path of `component` inside the directory.
    pub fn join(&self, component: &str) -> (r: String)
        ensures
            r@ == path_join(self@, component@),
    {
        join_path(self.0.as_str(), component)
    }
}

/// The number of jobs that may run at once: at least one.
#[derive(Debug, Clone, Copy)]
pub struct MaxParallel(u16);

/// Zero was given as the number of parallel jobs.
#[derive(Debug)]
pub struct InvalidMaxParallel;

impl InvalidMaxParallel {
    /// The human-readable message.
    pub fn message(&self) -> (r: String)
        ensures
            r@ == "max_parallel must be >= 1"@,
    {
        String::from_str("max_parallel must be >= 1")
    }
}

impl MaxParallel {
    #[verifier::type_invariant]
    closed spec fn inv(self) -> bool {
        self.0 >= 1
    }

    pub closed spec fn spec_get(self) -> u16 {
        self.0
    }

    /// Accepts any value but zero.
    pub fn try_from(value: u16) -> (r: Result<MaxParallel, InvalidMaxParallel>)
        ensures
            r is Ok <==> value != 0,
            r matches Ok(m) ==> m.spec_get() == value,
    {
        if value == 0 {
            return Err(InvalidMaxParallel);
        }
        Ok(MaxParallel(value))
    }

    /// The default from the machine's parallelism: the count cut to 16 bits
    /// (as `as u16` does), at least one; four when the count is unknown.
    pub fn default_for(cpus: Option<usize>) -> (r: MaxParallel)
        ensures
            r.spec_get() == (match cpus {
                Some(n) => if n % 65536 == 0 { 1 } else { n % 65536 },
                None => 4,
            }),
    {
        let v: u16 = match cpus {
            Some(n) => (n % 65536) as u16,
            None => 4,
        };
        if v == 0 {
            MaxParallel(1)
        } else {
            MaxParallel(v)
        }
    }

    /// The number of parallel jobs.
    pub fn get(self) -> (r: u16)
        ensures
            r == self.spec_get(),
            r >= 1,
    {
        proof {
            use_type_invariant(&self);
        }
        self.0
    }
}

/// What `Duration::from_secs` gives for a number of seconds.
pub uninterp spec fn duration_of_secs(secs: u64) -> std::time::Duration;

/// `std::time::Duration::from_secs`, named by `duration_of_secs`.
#[verifier::external_body]
fn duration_from_secs(secs: u64) -> (d: std::time::Duration)
    ensures
        d == duration_of_secs(secs),
{
    std::time::Duration::from_secs(secs)
}

/// Seconds between polls: at least five.
#[derive(Debug, Clone, Copy)]
pub struct PollInterval(u64);

/// A poll interval under five seconds was given.
#[derive(Debug)]
pub struct InvalidPollInterval;

impl InvalidPollInterval {
    /// The human-readable message.
    pub fn message(&self) -> (r: String)
        ensures
            r@ == "poll_interval_secs must be >= 5"@,
    {
        String::from_str("poll_interval_secs must be >= 5")
    }
}

impl PollInterval {
    #[verifier::type_invariant]
    closed spec fn inv(self) -> bool {
        self.0 >= 5
    }

    pub closed spec fn spec_secs(self) -> u64 {
        self.0
    }

    /// Accepts five seconds or more.
    pub fn try_from(value: u64) -> (r: Result<PollInterval, InvalidPollInterval>)
        ensures
            r is Ok <==> value >= 5,
            r matches Ok(p) ==> p.spec_secs() == value,
    {
        if value < 5 {
            return Err(InvalidPollInterval);
        }
        Ok(PollInterval(value))
    }

    /// The interval in seconds.
    pub fn secs(self) -> (r: u64)
        ensures
            r == self.spec_secs(),
            r >= 5,
    {
        proof {
            use_type_invariant(&self);
        }
        self.0
    }

    /// The interval as a `Duration`.
    pub fn as_duration(self) -> (r: std::time::Duration)
        ensures
            r == duration_of_secs(self.spec_secs()),
    {
        duration_from_secs(self.0)
    }
}

impl Default for PollInterval {
    /// Thirty seconds.
    fn default() -> (r: Self)
        ensures
            r.spec_secs() == 30,
    {
        PollInterval(30)
    }
}

/// The number of an attempt at a run: one for the first.
#[derive(Debug, Clone, Copy, PartialEq, Eq, Hash, Structural)]
pub struct AttemptNumber(u32);

/// Zero was given as an attempt number.
#[derive(Debug)]
pub struct InvalidAttemptNumber;

impl InvalidAttemptNumber {
    /// The human-readable message.
    pub fn message(&self) -> (r: String)
        ensures
            r@ == "attempt number must be >= 1"@,
    {
        String::from_str("attempt number must be >= 1")
    }
}

impl AttemptNumber {
    #[verifier::type_invariant]
    closed spec fn inv(self) -> bool {
        self.0 >= 1
    }

    pub closed spec fn spec_get(self) -> u32 {
        self.0
    }

    /// Accepts any number but zero.
    pub fn try_from(value: u32) -> (r: Result<AttemptNumber, InvalidAttemptNumber>)
        ensures
            r is Ok <==> value != 0,
            r matches Ok(a) ==> a.spec_get() == value,
    {
        if value == 0 {
            return Err(InvalidAttemptNumber);
        }
        Ok(AttemptNumber(value))
    }

    /// The first attempt.
    pub fn first() -> (r: AttemptNumber)
        ensures
            r.spec_get() == 1,
    {
        AttemptNumber(1)
    }

    /// The following attempt, unless the counter is at its maximum.
    pub fn next(self) -> (r: Option<AttemptNumber>)
        ensures
            r is Some <==> self.spec_get() < u32::MAX,
            r matches Some(a) ==> a.spec_get() == self.spec_get() + 1,
    {
        if self.0 == u32::MAX {
            None
        } else {
            Some(AttemptNumber(self.0 + 1))
        }
    }

    /// The attempt's number.
    pub fn get(self) -> (r: u32)
        ensures
            r == self.spec_get(),
            r >= 1,
    {
        proof {
            use_type_invariant(&self);
        }
        self.0
    }
}


/// Where a repository comes from.
#[derive(Debug, Clone)]
pub enum GitSource {
    Local { path: String },
    Remote { url: String },
    Github { owner: String, repo: String },
}

/// Why a text was refused as a git source.
#[derive(Debug)]
pub struct InvalidGitSource {
    pub detail: String,
}

impl InvalidGitSource {
    /// The human-readable message: `invalid git source: <detail>`.
    pub fn message(&self) -> (r: String)
        ensures
            r@ == "invalid git source: "@ + self.detail@,
    {
        let mut out = String::from_str("invalid git source: ");
        out.append(self.detail.as_str());
        out
    }
}

/// A leading `~` replaced by the home directory, when one is known.
pub open spec fn expand_home(t: Seq<char>, home: Option<Seq<char>>) -> Seq<char> {
    if t.len() > 0 && t[0] == '~' && home is Some {
        home->0 + t.subrange(1, t.len() as int)
    } else {
        t
    }
}

/// Whether a (trimmed) source text names a local path.
pub open spec fn looks_local(t: Seq<char>) -> bool {
    t.len() > 0 && (t[0] == '/' || t[0] == '.' || t[0] == '~')
}

/// Whether a (trimmed) source text names a remote URL.
pub open spec fn looks_remote(t: Seq<char>) -> bool {
    occurs_in(t, "://"@) || has_prefix(t, "git@"@)
}

/// Whether a (trimmed) source text is an `owner/repo` slug: both parts non-empty,
/// split at the first `/`.
pub open spec fn looks_slug(t: Seq<char>) -> bool {
    let k = find_char_from(t, '/', 0);
    0 < k && k + 1 < t.len()
}

/// Whether a trimmed source text is accepted: a local path, a URL or a slug.
pub open spec fn source_ok(t: Seq<char>) -> bool {
    t.len() > 0 && (looks_local(t) || looks_remote(t) || looks_slug(t))
}

/// `src` is the source the trimmed text `t` names, `~` standing for `home`.
pub open spec fn parsed_source(t: Seq<char>, home: Option<Seq<char>>, src: GitSource) -> bool {
    if looks_local(t) {
        src matches GitSource::Local { path } && path@ == expand_home(t, home)
    } else if looks_remote(t) {
        src matches GitSource::Remote { url } && url@ == t
    } else {
        src matches GitSource::Github { owner, repo } && owner@ == t.subrange(0, find_char_from(t, '/', 0))
            && repo@ == t.subrange(find_char_from(t, '/', 0) + 1, t.len() as int)
    }
}

/// Why a trimmed source text is refused.
pub open spec fn source_detail(t: Seq<char>) -> Seq<char> {
    if t.len() == 0 {
        "source must be non-empty"@
    } else {
        "'"@ + t + "' is not a local path, URL, or owner/repo slug"@
    }
}

impl GitSource {
    /// Reads a source: a local path (starting with `/`, `.` or `~`, where `~` stands
    /// for `home`), a URL (holding `://` or starting with `git@`), or an
    /// `owner/repo` GitHub slug; anything else, or nothing, is refused.
    pub fn parse(value: &str, home: Option<&str>) -> (r: Result<GitSource, InvalidGitSource>)
        ensures
            r is Ok <==> source_ok(trim(value@)),
            r matches Ok(src) ==> parsed_source(trim(value@), match home {
                Some(x) => Some(x@),
                None => None,
            }, src),
            r matches Err(e) ==> e.detail@ == source_detail(trim(value@)),
    {
        let t = trim_str(value);
        if t.len() == 0 {
            return Err(InvalidGitSource { detail: String::from_str("source must be non-empty") });
        }
        if t[0] == '/' || t[0] == '.' || t[0] == '~' {
            let path = if t[0] == '~' {
                match home {
                    Some(h) => {
                        let rest = slice_chars(&t, 1, t.len());
                        let hv = chars_of(h);
                        string_of(&concat_chars(&hv, &rest))
                    },
                    None => string_of(&t),
                }
            } else {
                string_of(&t)
            };
            return Ok(GitSource::Local { path });
        }
        let sep = chars_of("://");
        let git_at = chars_of("git@");
        if contains_text(&t, &sep) || starts_with(&t, &git_at) {
            return Ok(GitSource::Remote { url: string_of(&t) });
        }
        let k = find_char(&t, '/', 0);
        if 0 < k && k < t.len() - 1 {
            let owner = string_of(&slice_chars(&t, 0, k));
            let repo = string_of(&slice_chars(&t, k + 1, t.len()));
            return Ok(GitSource::Github { owner, repo });
        }
        let mut detail = String::from_str("'");
        let ts = string_of(&t);
        detail.append(ts.as_str());
        detail.append("' is not a local path, URL, or owner/repo slug");
        Err(InvalidGitSource { detail })
    }

    /// `local:<path>`, `remote:<url>` or `github:<owner>/<repo>`.
    pub fn display_name(&self) -> (r: String)
        ensures
            r@ == (match self {
                GitSource::Local { path } => "local:"@ + path@,
                GitSource::Remote { url } => "remote:"@ + url@,
                GitSource::Github { owner, repo } => "github:"@ + owner@ + "/"@ + repo@,
            }),
    {
        match self {
            GitSource::Local { path } => {
                let mut out = String::from_str("local:");
                out.append(path.as_str());
                out
            },
            GitSource::Remote { url } => {
                let mut out = String::from_str("remote:");
                out.append(url.as_str());
                out
            },
            GitSource::Github { owner, repo } => {
                let mut out = String::from_str("github:");
                out.append(owner.as_str());
                out.append("/");
                out.append(repo.as_str());
                out
            },
        }
    }

    /// The text whose hash names the repository's directory: the path, the URL,
    /// or the GitHub URL of the slug.
    pub fn hash_key(&self) -> (r: String)
        ensures
            r@ == (match self {
                GitSource::Local { path } => path@,
                GitSource::Remote { url } => url@,
                GitSource::Github { owner, repo } => "https://github.com/"@ + owner@ + "/"@ + repo@,
            }),
    {
        match self {
            GitSource::Local { path } => path.clone(),
            GitSource::Remote { url } => url.clone(),
            GitSource::Github { owner, repo } => {
                let mut out = String::from_str("https://github.com/");
                out.append(owner.as_str());
                out.append("/");
                out.append(repo.as_str());
                out
            },
        }
    }

    /// The hash key as a spec value (see `hash_key`).
    pub open spec fn spec_hash_key(&self) -> Seq<char> {
        match self {
            GitSource::Local { path } => path@,
            GitSource::Remote { url } => url@,
            GitSource::Github { owner, repo } => "https://github.com/"@ + owner@ + "/"@ + repo@,
        }
    }

    /// Eight lower-case hex digits derived from the source's hash (see
    /// `short_hash_of`): for a URL or a GitHub slug, the first eight of the
    /// sixteen hex digits of the string hash of the hash key, so a slug and its
    /// GitHub URL give the same digits. A local path is hashed as a `Path`,
    /// whose hash is not named (it also depends on the width of `usize`).
    pub fn short_hash(&self) -> (r: String)
        ensures
            r@.len() == 8,
            forall|i: int| 0 <= i < 8 ==> is_hex_digit(#[trigger] r@[i]),
            lower_hex_text(r@),
            !(self is Local) ==> r@ == named_short_hash(self.spec_hash_key()),
    {
        let key = self.hash_key();
        let h = match self {
            GitSource::Local { .. } => std_hash_path(key.as_str()),
            _ => std_hash_str(key.as_str()),
        };
        short_hash_of(h)
    }
}

/// `DefaultHasher::new()` fed with `Path::new(p)`, then `finish()`. The value depends
/// on the standard library's hashing algorithm, which is unspecified, so nothing is
/// stated of it.
#[verifier::external_body]
fn std_hash_path(p: &str) -> u64 {
    let mut hasher = std::collections::hash_map::DefaultHasher::new();
    std::path::Path::new(p).hash(&mut hasher);
    hasher.finish()
}

/// The eight hex digits that name a key hashed as a string: the first eight of
/// the sixteen hex digits of its hash.
pub open spec fn named_short_hash(key: Seq<char>) -> Seq<char> {
    hex_digits(str_hash_of(key) as nat, 16).subrange(0, 8)
}

/// A GitHub slug and its `https://github.com/` URL have the same hash key, so
/// they name the same directory; two URLs with the same text do too.
pub proof fn law_slug_and_url_share_a_directory(owner: String, repo: String, url: String)
    requires
        url@ == "https://github.com/"@ + owner@ + "/"@ + repo@,
    ensures
        (GitSource::Github { owner, repo }).spec_hash_key() == (GitSource::Remote { url }).spec_hash_key(),
        named_short_hash((GitSource::Github { owner, repo }).spec_hash_key())
            == named_short_hash((GitSource::Remote { url }).spec_hash_key()),
{
}

/// What a fresh `DefaultHasher` gives for a `String` with text `s`: the
/// hasher's `finish()` after the string's `hash`.
pub uninterp spec fn str_hash_of(s: Seq<char>) -> u64;

/// `DefaultHasher::new()` fed with the `String` `s`, then `finish()`, named by
/// `str_hash_of`. std documents that every `DefaultHasher` made by `new` is the
/// same (no per-process seed), and a `String` hashes as its bytes followed by
/// `0xff`, so the value depends on the text alone. The algorithm itself is
/// unspecified, so nothing more is stated.
#[verifier::external_body]
fn std_hash_str(s: &str) -> (r: u64)
    ensures
        r == str_hash_of(s@),
{
    let mut hasher = std::collections::hash_map::DefaultHasher::new();
    s.to_string().hash(&mut hasher);
    hasher.finish()
}

/// The lower-case hex digit of `d` (`d < 16`).
pub open spec fn hex_char(d: nat) -> char {
    if d < 10 {
        ((d + 48) as u8) as char
    } else {
        ((d + 87) as u8) as char
    }
}

/// The last `n` lower-case hex digits of `x`, zero-padded, most significant first.
pub open spec fn hex_digits(x: nat, n: nat) -> Seq<char>
    decreases n,
{
    if n == 0 {
        seq![]
    } else {
        hex_digits(x / 16, (n - 1) as nat).push(hex_char(x % 16))
    }
}

fn hex_char_exec(d: u64) -> (c: char)
    requires
        d < 16,
    ensures
        c == hex_char(d as nat),
        is_hex_digit(c),
        ('0' <= c && c <= '9') || ('a' <= c && c <= 'f'),
{
    let digits = ['0', '1', '2', '3', '4', '5', '6', '7', '8', '9', 'a', 'b', 'c', 'd', 'e', 'f'];
    let c = digits[d as usize];
    proof {
        assert(digits@[d as int] == c);
        if d == 0 { assert(c == '0'); } else if d == 1 { assert(c == '1'); } else if d == 2 { assert(c == '2'); }
        else if d == 3 { assert(c == '3'); } else if d == 4 { assert(c == '4'); } else if d == 5 { assert(c == '5'); }
        else if d == 6 { assert(c == '6'); } else if d == 7 { assert(c == '7'); } else if d == 8 { assert(c == '8'); }
        else if d == 9 { assert(c == '9'); } else if d == 10 { assert(c == 'a'); } else if d == 11 { assert(c == 'b'); }
        else if d == 12 { assert(c == 'c'); } else if d == 13 { assert(c == 'd'); } else if d == 14 { assert(c == 'e'); }
        else { assert(c == 'f'); }
    }
    c
}

/// The last `n` hex digits of `x`, as `hex_digits` states.
pub fn hex_fixed(x: u64, n: usize) -> (r: Vec<char>)
    ensures
        r@ == hex_digits(x as nat, n as nat),
        r@.len() == n,
        forall|i: int| 0 <= i < n ==> is_hex_digit(#[trigger] r@[i]),
        lower_hex_text(r@),
    decreases n,
{
    if n == 0 {
        Vec::new()
    } else {
        let mut v = hex_fixed(x / 16, n - 1);
        let c = hex_char_exec(x % 16);
        v.push(c);
        v
    }
}

/// The first eight of the sixteen zero-padded lower-case hex digits of `h`
/// (what `format!("{:016x}", h)[..8]` gives).
pub fn short_hash_of(h: u64) -> (r: String)
    ensures
        r@ == hex_digits(h as nat, 16).subrange(0, 8),
        r@.len() == 8,
        forall|i: int| 0 <= i < 8 ==> is_hex_digit(#[trigger] r@[i]),
        lower_hex_text(r@),
{
    let full = hex_fixed(h, 16);
    string_of(&slice_chars(&full, 0, 8))
}

} // verus!
