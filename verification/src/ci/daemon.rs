//! The daemon's decisions: what it remembers of each repository, which commits a
//! poll runs, where a run's files go, and how it answers its clients.
use vstd::prelude::*;
use vstd::string::*;
use crate::ci::ipc::{Response, RunState, RunSummary};
use crate::ci::poller::{commit_pairs, CommitInfo};
use crate::ci::runner::{count_jobs, RunResult};
use crate::ci::types::{AttemptNumber, CommitSha, RepoName};
use crate::text::{
    chars_of, find_char, find_char_from, has_prefix, has_suffix, lemma_find_char_from, parse_u32,
    parse_u32_spec, slice_chars, starts_with, ends_with, decimal, u64_to_string,
};

verus! {

/// A set of texts.
#[derive(Debug)]
pub struct TextSet {
    items: Vec<String>,
}

impl View for TextSet {
    type V = Set<Seq<char>>;

    closed spec fn view(&self) -> Set<Seq<char>> {
        Set::new(|t: Seq<char>| exists|i: int| 0 <= i < self.items@.len() && (#[trigger] self.items@[i])@ == t)
    }
}

impl TextSet {
    /// The empty set.
    pub fn new() -> (r: TextSet)
        ensures
            r@ == Set::<Seq<char>>::empty(),
    {
        let r = TextSet { items: Vec::new() };
        assert(r@ =~= Set::<Seq<char>>::empty());
        r
    }

    /// Whether `t` is in the set.
    pub fn contains(&self, t: &str) -> (r: bool)
        ensures
            r == self@.contains(t@),
    {
        let mut i: usize = 0;
        while i < self.items.len()
            invariant
                i <= self.items@.len(),
                forall|k: int| 0 <= k < i ==> (#[trigger] self.items@[k])@ != t@,
            decreases self.items@.len() - i,
        {
            if self.items[i].as_str().to_string() == t.to_string() {
                assert((self.items@[i as int])@ == t@);
                return true;
            }
            i = i + 1;
        }
        false
    }

    /// Adds `t`.
    pub fn insert(&mut self, t: &str)
        ensures
            final(self)@ == old(self)@.insert(t@),
    {
        let ghost before = self@;
        let ghost items = self.items@;
        self.items.push(t.to_string());
        proof {
            assert forall|x: Seq<char>| self@.contains(x) <==> before.insert(t@).contains(x) by {
                if before.contains(x) {
                    let i = choose|i: int| 0 <= i < items.len() && (#[trigger] items[i])@ == x;
                    assert(self.items@[i] == items[i]);
                }
                if self@.contains(x) && x != t@ {
                    let i = choose|i: int| 0 <= i < self.items@.len() && (#[trigger] self.items@[i])@ == x;
                    assert(i < items.len());
                    assert(items[i] == self.items@[i]);
                }
                if x == t@ {
                    assert(self.items@[items.len() as int]@ == t@);
                }
            }
            assert(self@ =~= before.insert(t@));
        }
    }

    /// Takes `t` out.
    pub fn remove(&mut self, t: &str)
        ensures
            final(self)@ == old(self)@.remove(t@),
    {
        let ghost before = self@;
        let mut kept: Vec<String> = Vec::new();
        let mut i: usize = 0;
        while i < self.items.len()
            invariant
                i <= self.items@.len(),
                before == self@,
                forall|k: int| 0 <= k < kept@.len() ==> (#[trigger] kept@[k])@ != t@,
                forall|k: int| 0 <= k < kept@.len() ==> exists|j: int| 0 <= j < i && (#[trigger] self.items@[j])@ == (#[trigger] kept@[k])@,
                forall|j: int| 0 <= j < i && (#[trigger] self.items@[j])@ != t@ ==> exists|k: int| 0 <= k < kept@.len() && (#[trigger] kept@[k])@ == self.items@[j]@,
            decreases self.items@.len() - i,
        {
            if !(self.items[i].as_str().to_string() == t.to_string()) {
                let ghost kept_before = kept@;
                kept.push(self.items[i].clone());
                proof {
                    assert(kept@[kept_before.len() as int]@ == self.items@[i as int]@);
                    assert forall|k: int| 0 <= k < kept@.len() implies exists|j: int| 0 <= j < i + 1 && (#[trigger] self.items@[j])@ == (#[trigger] kept@[k])@ by {
                        if k < kept_before.len() {
                            assert(kept@[k] == kept_before[k]);
                        }
                    }
                    assert forall|j: int| 0 <= j < i + 1 && (#[trigger] self.items@[j])@ != t@ implies exists|k: int| 0 <= k < kept@.len() && (#[trigger] kept@[k])@ == self.items@[j]@ by {
                        if j < i {
                            let k = choose|k: int| 0 <= k < kept_before.len() && (#[trigger] kept_before[k])@ == self.items@[j]@;
                            assert(kept@[k] == kept_before[k]);
                        }
                    }
                }
            }
            i = i + 1;
        }
        let ghost old_items = self.items@;
        self.items = kept;
        proof {
            assert forall|x: Seq<char>| self@.contains(x) <==> before.remove(t@).contains(x) by {
                if self@.contains(x) {
                    let k = choose|k: int| 0 <= k < self.items@.len() && (#[trigger] self.items@[k])@ == x;
                    let j = choose|j: int| 0 <= j < old_items.len() && (#[trigger] old_items[j])@ == self.items@[k]@;
                }
                if before.remove(t@).contains(x) {
                    let j = choose|j: int| 0 <= j < old_items.len() && (#[trigger] old_items[j])@ == x;
                }
            }
            assert(self@ =~= before.remove(t@));
        }
    }
}

/// What the daemon remembers of a repository: the last commit it saw, the
/// commits whose runs were cancelled or have run, whether it has polled (or has
/// history), and the number the next run directory gets.
#[derive(Debug)]
pub struct RepoState {
    pub last_seen_sha: Option<CommitSha>,
    pub cancelled_shas: TextSet,
    pub completed_shas: TextSet,
    pub initialized: bool,
    pub run_counter: u32,
}

/// The commits of the recorded runs `runs` whose run was cancelled.
pub open spec fn cancelled_in(runs: Seq<RunResult>) -> Set<Seq<char>> {
    Set::new(|t: Seq<char>| exists|i: int| 0 <= i < runs.len() && (#[trigger] runs[i]).cancelled && runs[i].sha@ == t)
}

/// The commits of the recorded runs `runs` that ran to the end without being
/// cancelled.
pub open spec fn completed_in(runs: Seq<RunResult>) -> Set<Seq<char>> {
    Set::new(|t: Seq<char>| exists|i: int| 0 <= i < runs.len() && !(#[trigger] runs[i]).cancelled
        && runs[i].jobs@.len() == runs[i].total_jobs && runs[i].sha@ == t)
}

impl RepoState {
    /// The state of a repository from its recorded runs (oldest first) and the
    /// number after the highest run directory on disk: the last run's commit is
    /// the last seen, and a repository with history counts as polled.
    pub fn from_history(runs: &[RunResult], max_on_disk: u32) -> (r: RepoState)
        ensures
            r.cancelled_shas@ == cancelled_in(runs@),
            r.completed_shas@ == completed_in(runs@),
            runs@.len() == 0 ==> r.last_seen_sha is None,
            runs@.len() > 0 ==> (r.last_seen_sha matches Some(s) && s@ == runs@.last().sha@),
            r.initialized == (runs@.len() > 0),
            r.run_counter == max_on_disk,
    {
        let mut cancelled = TextSet::new();
        let mut completed = TextSet::new();
        let mut i: usize = 0;
        while i < runs.len()
            invariant
                i <= runs@.len(),
                cancelled@ == cancelled_in(runs@.take(i as int)),
                completed@ == completed_in(runs@.take(i as int)),
            decreases runs@.len() - i,
        {
            let ghost c0 = cancelled@;
            let ghost d0 = completed@;
            if runs[i].cancelled {
                cancelled.insert(runs[i].sha.as_str());
            } else if runs[i].is_complete() {
                completed.insert(runs[i].sha.as_str());
            }
            proof {
                let t0 = runs@.take(i as int);
                let t1 = runs@.take(i + 1);
                assert forall|k: int| 0 <= k < i implies #[trigger] t1[k] == t0[k] by {}
                assert(t1[i as int] == runs@[i as int]);
                assert(cancelled@ =~= cancelled_in(t1));
                assert(completed@ =~= completed_in(t1));
            }
            i = i + 1;
        }
        proof {
            assert(runs@.take(runs@.len() as int) =~= runs@);
        }
        let last = if runs.len() > 0 { Some(runs[runs.len() - 1].sha.clone()) } else { None };
        RepoState {
            last_seen_sha: last,
            cancelled_shas: cancelled,
            completed_shas: completed,
            initialized: runs.len() > 0,
            run_counter: max_on_disk,
        }
    }

    /// The number of the next run directory; the counter moves on by one, and
    /// stays at its maximum once there.
    pub fn next_run_number(&mut self) -> (r: u32)
        ensures
            r == old(self).run_counter,
            final(self).run_counter == (if old(self).run_counter == u32::MAX { u32::MAX } else { (old(self).run_counter + 1) as u32 }),
            final(self).last_seen_sha == old(self).last_seen_sha,
            final(self).cancelled_shas@ == old(self).cancelled_shas@,
            final(self).completed_shas@ == old(self).completed_shas@,
            final(self).initialized == old(self).initialized,
    {
        let n = self.run_counter;
        self.run_counter = if n == u32::MAX { u32::MAX } else { n + 1 };
        n
    }

    /// Whether a run of `sha` was cancelled or has run already.
    pub fn should_skip(&self, sha: &CommitSha) -> (r: bool)
        ensures
            r == (self.cancelled_shas@.contains(sha@) || self.completed_shas@.contains(sha@)),
    {
        self.cancelled_shas.contains(sha.as_str()) || self.completed_shas.contains(sha.as_str())
    }

    /// Records that the runs of `sha` were cancelled: it counts as cancelled, no
    /// longer as run.
    pub fn mark_cancelled(&mut self, sha: &str)
        ensures
            final(self).cancelled_shas@ == old(self).cancelled_shas@.insert(sha@),
            final(self).completed_shas@ == old(self).completed_shas@.remove(sha@),
            final(self).last_seen_sha == old(self).last_seen_sha,
            final(self).initialized == old(self).initialized,
            final(self).run_counter == old(self).run_counter,
    {
        self.cancelled_shas.insert(sha);
        self.completed_shas.remove(sha);
    }
}

/// After a cancellation (see `mark_cancelled`) no later poll runs the commit:
/// whatever commits a poll lists, the ones it picks never include it.
pub proof fn law_cancelled_commits_are_skipped(
    before: RepoState,
    after: RepoState,
    sha: Seq<char>,
    listed: Seq<(Seq<char>, Seq<char>)>,
)
    requires
        after.cancelled_shas@ == before.cancelled_shas@.insert(sha),
        after.completed_shas@ == before.completed_shas@.remove(sha),
    ensures
        forall|i: int| 0 <= i < picked(listed, 0, after.cancelled_shas@ + after.completed_shas@).len()
            ==> (#[trigger] picked(listed, 0, after.cancelled_shas@ + after.completed_shas@)[i]).0 != sha,
{
    law_picked_commits_are_new_and_distinct(listed, 0, after.cancelled_shas@ + after.completed_shas@);
    assert((after.cancelled_shas@ + after.completed_shas@).contains(sha));
}

/// The run number a directory name starts with: the part before the first `_`,
/// read as a `u32`.
pub open spec fn run_number_of(name: Seq<char>) -> Option<u32> {
    parse_u32_spec(name.subrange(0, find_char_from(name, '_', 0)))
}

/// The number after the highest run number among `names`: each name whose number
/// is at least the highest so far moves it to that number plus one.
pub open spec fn scan_max(names: Seq<Seq<char>>) -> int
    decreases names.len(),
{
    if names.len() == 0 {
        0
    } else {
        let m = scan_max(names.drop_last());
        match run_number_of(names.last()) {
            Some(n) => if n >= m { n + 1 } else { m },
            None => m,
        }
    }
}

/// The texts of the strings `v`.
pub open spec fn texts(v: Seq<String>) -> Seq<Seq<char>> {
    v.map_values(|t: String| t@)
}

fn run_number_exec(name: &str) -> (r: Option<u32>)
    ensures
        r == run_number_of(name@),
{
    let v = chars_of(name);
    let k = find_char(&v, '_', 0);
    parse_u32(&slice_chars(&v, 0, k))
}

/// The number the next run directory gets, from the names of the entries of a
/// repository's directory (see `scan_max`). A run numbered `u32::MAX` has no
/// next number and is left out.
pub fn scan_max_run_number(names: &[String]) -> (r: u32)
    requires
        forall|i: int| 0 <= i < names@.len() ==> run_number_of(#[trigger] names@[i]@) != Some(u32::MAX),
    ensures
        r == scan_max(texts(names@)),
{
    let mut max: u32 = 0;
    let mut i: usize = 0;
    while i < names.len()
        invariant
            i <= names@.len(),
            forall|q: int| 0 <= q < names@.len() ==> run_number_of(#[trigger] names@[q]@) != Some(u32::MAX),
            max == scan_max(texts(names@).take(i as int)),
        decreases names@.len() - i,
    {
        proof {
            assert(texts(names@).take(i + 1).drop_last() =~= texts(names@).take(i as int));
            assert(texts(names@).take(i + 1).last() == names@[i as int]@);
        }
        match run_number_exec(names[i].as_str()) {
            Some(n) => if n >= max {
                max = n + 1;
            },
            None => {},
        }
        i = i + 1;
    }
    proof {
        assert(texts(names@).take(names@.len() as int) =~= texts(names@));
    }
    max
}

/// The attempt number a directory name `attempt-<n>` carries.
pub open spec fn attempt_of(name: Seq<char>) -> Option<u32> {
    if has_prefix(name, "attempt-"@) { parse_u32_spec(name.subrange(8, name.len() as int)) } else { None }
}

/// The highest attempt number among `names`, or zero.
pub open spec fn max_attempt(names: Seq<Seq<char>>) -> int
    decreases names.len(),
{
    if names.len() == 0 {
        0
    } else {
        let m = max_attempt(names.drop_last());
        match attempt_of(names.last()) {
            Some(n) => if n > m { n as int } else { m },
            None => m,
        }
    }
}

/// The number of the next attempt in a run directory with entries `names`: one
/// more than the highest `attempt-<n>`, or the first. An attempt numbered
/// `u32::MAX` has no next one and is left out.
pub fn next_attempt_in(names: &[String]) -> (r: AttemptNumber)
    requires
        forall|i: int| 0 <= i < names@.len() ==> attempt_of(#[trigger] names@[i]@) != Some(u32::MAX),
    ensures
        r.spec_get() == max_attempt(texts(names@)) + 1,
{
    proof {
        reveal_strlit("attempt-");
    }
    let prefix = chars_of("attempt-");
    let mut max: u32 = 0;
    let mut i: usize = 0;
    while i < names.len()
        invariant
            i <= names@.len(),
            prefix@ == "attempt-"@,
            prefix@.len() == 8,
            forall|q: int| 0 <= q < names@.len() ==> attempt_of(#[trigger] names@[q]@) != Some(u32::MAX),
            max == max_attempt(texts(names@).take(i as int)),
            max < u32::MAX,
        decreases names@.len() - i,
    {
        proof {
            assert(texts(names@).take(i + 1).drop_last() =~= texts(names@).take(i as int));
            assert(texts(names@).take(i + 1).last() == names@[i as int]@);
        }
        let v = chars_of(names[i].as_str());
        if starts_with(&v, &prefix) {
            match parse_u32(&slice_chars(&v, 8, v.len())) {
                Some(n) => if n > max {
                    max = n;
                },
                None => {},
            }
        }
        i = i + 1;
    }
    proof {
        assert(texts(names@).take(names@.len() as int) =~= texts(names@));
    }
    if max == 0 {
        AttemptNumber::first()
    } else {
        match AttemptNumber::try_from(max + 1) {
            Ok(a) => a,
            Err(_) => AttemptNumber::first(),
        }
    }
}

/// The name of the run directory of `sha` numbered `n`: the number zero-padded
/// to five digits, `_`, and the short commit id.
pub open spec fn run_dir_name_spec(n: nat, sha: CommitSha) -> Seq<char> {
    let d = decimal(n);
    Seq::new((if d.len() < 5 { 5 - d.len() } else { 0 }) as nat, |i: int| '0') + d + "_"@ + sha@.subrange(0, 8)
}

/// The name of a run directory (see `run_dir_name_spec`).
pub fn run_dir_name(n: u32, sha: &CommitSha) -> (r: String)
    ensures
        r@ == run_dir_name_spec(n as nat, *sha),
{
    proof {
        reveal_strlit("0");
        reveal_strlit("_");
    }
    let d = u64_to_string(n as u64);
    let len = d.as_str().unicode_len();
    let pad: usize = if len < 5 { 5 - len } else { 0 };
    let mut out = String::new();
    let mut k: usize = 0;
    while k < pad
        invariant
            k <= pad,
            out@ == Seq::new(k as nat, |i: int| '0'),
        decreases pad - k,
    {
        out.append("0");
        proof {
            reveal_strlit("0");
            assert(out@ =~= Seq::new((k + 1) as nat, |i: int| '0'));
        }
        k = k + 1;
    }
    out.append(d.as_str());
    out.append("_");
    out.append(sha.short());
    out
}

/// The name of the directory of attempt `a`: `attempt-<n>`.
pub fn attempt_dir_name(a: AttemptNumber) -> (r: String)
    ensures
        r@ == "attempt-"@ + decimal(a.spec_get() as nat),
{
    let mut out = String::from_str("attempt-");
    out.append(u64_to_string(a.get() as u64).as_str());
    out
}

/// The first entry (name, and whether it is a directory) that is the run
/// directory of `sha`: a directory whose name ends with `_` and the short id.
pub open spec fn is_run_dir_of(name: Seq<char>, is_dir: bool, sha: CommitSha) -> bool {
    is_dir && has_suffix(name, "_"@ + sha@.subrange(0, 8))
}

/// The name of the first entry of `entries` that is the run directory of `sha`
/// (see `is_run_dir_of`), if any.
pub fn find_run_dir_for_sha(entries: &[(String, bool)], sha: &CommitSha) -> (r: Option<String>)
    ensures
        match r {
            Some(n) => exists|i: int| 0 <= i < entries@.len() && is_run_dir_of(entries@[i].0@, entries@[i].1, *sha)
                && entries@[i].0@ == n@ && forall|j: int| 0 <= j < i ==> !is_run_dir_of(#[trigger] entries@[j].0@, entries@[j].1, *sha),
            None => forall|j: int| 0 <= j < entries@.len() ==> !is_run_dir_of(#[trigger] entries@[j].0@, entries@[j].1, *sha),
        },
{
    proof {
        reveal_strlit("_");
    }
    let mut suffix = String::from_str("_");
    suffix.append(sha.short());
    let sv = chars_of(suffix.as_str());
    let mut i: usize = 0;
    while i < entries.len()
        invariant
            i <= entries@.len(),
            sv@ == "_"@ + sha@.subrange(0, 8),
            forall|j: int| 0 <= j < i ==> !is_run_dir_of(#[trigger] entries@[j].0@, entries@[j].1, *sha),
        decreases entries@.len() - i,
    {
        if entries[i].1 && ends_with(&chars_of(entries[i].0.as_str()), &sv) {
            return Some(entries[i].0.clone());
        }
        i = i + 1;
    }
    None
}

/// The commit ids of `v`.
pub open spec fn shas_of(v: Seq<CommitInfo>) -> Set<Seq<char>> {
    Set::new(|t: Seq<char>| exists|i: int| 0 <= i < v.len() && (#[trigger] v[i]).sha@ == t)
}

/// How a poll goes on once the latest commit is known.
#[derive(Debug)]
pub enum PollStart {
    /// The latest commit is the one last seen: nothing to do.
    UpToDate,
    /// Run these commits (the latest, on the first poll).
    Run(Vec<CommitInfo>),
    /// List the commits since this one, then run them (see `commits_to_run`).
    ListSince(CommitSha),
}

fn same_sha(a: &CommitSha, b: &CommitSha) -> (r: bool)
    ensures
        r == (a@ == b@),
{
    crate::text::chars_eq(&chars_of(a.as_str()), &chars_of(b.as_str()))
}

impl RepoState {
    /// The start of a poll that found `latest` at the branch tip: nothing when it
    /// was seen last; on the first poll, the latest commit alone (and the
    /// repository counts as polled from then on); otherwise the commits since the
    /// last one seen.
    pub fn poll_start(&mut self, latest: &CommitInfo) -> (r: PollStart)
        ensures
            (old(self).last_seen_sha matches Some(s) && s@ == latest.sha@) ==> (r is UpToDate && *final(self) == *old(self)),
            !(old(self).last_seen_sha matches Some(s) && s@ == latest.sha@) ==> {
                &&& !old(self).initialized ==> (r matches PollStart::Run(v) && v@.len() == 1 && v@[0].sha@ == latest.sha@
                    && v@[0].message@ == latest.message@)
                &&& old(self).initialized && old(self).last_seen_sha is Some ==> (r matches PollStart::ListSince(s)
                    && s@ == old(self).last_seen_sha->0@)
                &&& old(self).initialized && old(self).last_seen_sha is None ==> (r matches PollStart::Run(v) && v@.len() == 1
                    && v@[0].sha@ == latest.sha@ && v@[0].message@ == latest.message@)
                &&& final(self).initialized
                &&& final(self).last_seen_sha == old(self).last_seen_sha
                &&& final(self).cancelled_shas == old(self).cancelled_shas
                &&& final(self).completed_shas == old(self).completed_shas
                &&& final(self).run_counter == old(self).run_counter
            },
    {
        if let Some(last) = &self.last_seen_sha {
            if same_sha(last, &latest.sha) {
                return PollStart::UpToDate;
            }
        }
        if !self.initialized {
            self.initialized = true;
            return PollStart::Run(vec![latest.clone()]);
        }
        match &self.last_seen_sha {
            Some(last) => PollStart::ListSince(last.clone()),
            None => PollStart::Run(vec![latest.clone()]),
        }
    }

    /// Records that `latest` is now the last commit seen, and picks the commits of
    /// `commits` to run, in order: those neither cancelled nor run before, each
    /// commit once (see `picked`). The picked commits count as run from now on.
    /// Also gives how many were passed over.
    pub fn take_new_commits(&mut self, latest: &CommitSha, commits: &[CommitInfo]) -> (r: (Vec<CommitInfo>, usize))
        ensures
            final(self).last_seen_sha matches Some(s) && s@ == latest@,
            final(self).initialized == old(self).initialized,
            final(self).run_counter == old(self).run_counter,
            final(self).cancelled_shas@ == old(self).cancelled_shas@,
            commit_pairs(r.0@) == picked(commit_pairs(commits@), 0, old(self).cancelled_shas@ + old(self).completed_shas@),
            r.0@.len() + r.1 == commits@.len(),
            final(self).completed_shas@ == old(self).completed_shas@ + shas_of(r.0@),
    {
        self.last_seen_sha = Some(latest.clone());
        let ghost pairs = commit_pairs(commits@);
        let ghost skip0 = self.cancelled_shas@ + self.completed_shas@;
        let ghost c0 = self.completed_shas@;
        let mut out: Vec<CommitInfo> = Vec::new();
        let mut skipped: usize = 0;
        let mut k: usize = 0;
        proof {
            assert(commit_pairs(out@) =~= Seq::<(Seq<char>, Seq<char>)>::empty());
            assert(shas_of(out@) =~= Set::<Seq<char>>::empty());
            assert(self.completed_shas@ =~= c0 + shas_of(out@));
            assert(commit_pairs(out@) + picked(pairs, 0, skip0) =~= picked(pairs, 0, skip0));
            lemma_picked_len(pairs, 0, skip0);
            assert(pairs.len() == commits@.len());
        }
        while k < commits.len()
            invariant
                k <= commits@.len(),
                pairs == commit_pairs(commits@),
                out@.len() + skipped == k,
                self.cancelled_shas@ == old(self).cancelled_shas@,
                skip0 == old(self).cancelled_shas@ + old(self).completed_shas@,
                c0 == old(self).completed_shas@,
                self.completed_shas@ == c0 + shas_of(out@),
                commit_pairs(out@) + picked(pairs, k as int, self.cancelled_shas@ + self.completed_shas@) == picked(pairs, 0, skip0),
                picked(pairs, k as int, self.cancelled_shas@ + self.completed_shas@).len() + out@.len() <= commits@.len(),
                self.last_seen_sha matches Some(s) && s@ == latest@,
                self.initialized == old(self).initialized,
                self.run_counter == old(self).run_counter,
            decreases commits@.len() - k,
        {
            let c = &commits[k];
            let ghost out0 = out@;
            let ghost skip_k = self.cancelled_shas@ + self.completed_shas@;
            proof {
                assert(pairs[k as int] == (c.sha@, c.message@));
                lemma_picked_len(pairs, k + 1, skip_k.insert(c.sha@));
                lemma_picked_len(pairs, k + 1, skip_k);
            }
            if self.should_skip(&c.sha) {
                skipped = skipped + 1;
                proof {
                    assert(skip_k.contains(c.sha@));
                }
            } else {
                self.completed_shas.insert(c.sha.as_str());
                out.push(c.clone());
                proof {
                    assert(commit_pairs(out@) =~= commit_pairs(out0).push((c.sha@, c.message@)));
                    assert forall|t: Seq<char>| #[trigger] shas_of(out@).contains(t) <==> shas_of(out0).insert(c.sha@).contains(t) by {
                        if shas_of(out@).contains(t) {
                            let i = choose|i: int| 0 <= i < out@.len() && (#[trigger] out@[i]).sha@ == t;
                            if i < out0.len() {
                                assert(out0[i] == out@[i]);
                            }
                        }
                        if shas_of(out0).contains(t) {
                            let i = choose|i: int| 0 <= i < out0.len() && (#[trigger] out0[i]).sha@ == t;
                            assert(out@[i] == out0[i]);
                        }
                        if t == c.sha@ {
                            assert(out@[out0.len() as int].sha@ == c.sha@);
                        }
                    }
                    assert(shas_of(out@) =~= shas_of(out0).insert(c.sha@));
                    assert(self.completed_shas@ =~= c0 + shas_of(out@));
                    assert(self.cancelled_shas@ + self.completed_shas@ =~= skip_k.insert(c.sha@));
                    assert(commit_pairs(out@) + picked(pairs, k + 1, skip_k.insert(c.sha@)) =~= commit_pairs(out0) + picked(pairs, k as int, skip_k));
                }
            }
            k = k + 1;
        }
        proof {
            assert(commit_pairs(out@) + picked(pairs, k as int, self.cancelled_shas@ + self.completed_shas@) =~= commit_pairs(out@));
        }
        (out, skipped)
    }
}

/// The pairs (id, subject) of `ps` from `k` on that are to run, `skip` holding
/// the ids not to run: each pair whose id is not skipped, after which its id is.
pub open spec fn picked(ps: Seq<(Seq<char>, Seq<char>)>, k: int, skip: Set<Seq<char>>) -> Seq<(Seq<char>, Seq<char>)>
    decreases ps.len() - k,
{
    if k < 0 || k >= ps.len() {
        Seq::empty()
    } else if skip.contains(ps[k].0) {
        picked(ps, k + 1, skip)
    } else {
        seq![ps[k]] + picked(ps, k + 1, skip.insert(ps[k].0))
    }
}

proof fn lemma_picked_len(ps: Seq<(Seq<char>, Seq<char>)>, k: int, skip: Set<Seq<char>>)
    requires
        0 <= k,
    ensures
        picked(ps, k, skip).len() <= if k <= ps.len() { ps.len() - k } else { 0 },
    decreases ps.len() - k,
{
    if k < ps.len() {
        if skip.contains(ps[k].0) {
            lemma_picked_len(ps, k + 1, skip);
        } else {
            lemma_picked_len(ps, k + 1, skip.insert(ps[k].0));
        }
    }
}

/// The commits a poll runs after listing those since the last one seen: the
/// listed ones, or the latest alone when the listing failed or found none.
pub fn commits_to_run(latest: &CommitInfo, listed: Result<Vec<CommitInfo>, crate::ci::error::CiError>) -> (r: Vec<CommitInfo>)
    ensures
        match listed {
            Ok(v) => if v@.len() > 0 {
                r@ == v@
            } else {
                r@.len() == 1 && r@[0].sha@ == latest.sha@ && r@[0].message@ == latest.message@
            },
            Err(_) => r@.len() == 1 && r@[0].sha@ == latest.sha@ && r@[0].message@ == latest.message@,
        },
{
    match listed {
        Ok(v) => if v.len() > 0 {
            v
        } else {
            vec![latest.clone()]
        },
        Err(_) => vec![latest.clone()],
    }
}

/// A poll never runs a commit twice, nor one that was cancelled or already run:
/// the picked ids are distinct and none of them was to be skipped.
pub proof fn law_picked_commits_are_new_and_distinct(ps: Seq<(Seq<char>, Seq<char>)>, k: int, skip: Set<Seq<char>>)
    requires
        0 <= k,
    ensures
        forall|i: int| 0 <= i < picked(ps, k, skip).len() ==> !skip.contains(#[trigger] picked(ps, k, skip)[i].0),
        forall|i: int, j: int| 0 <= i < j < picked(ps, k, skip).len() ==> (#[trigger] picked(ps, k, skip)[i]).0 != (#[trigger] picked(ps, k, skip)[j]).0,
    decreases ps.len() - k,
{
    if k < ps.len() {
        if skip.contains(ps[k].0) {
            law_picked_commits_are_new_and_distinct(ps, k + 1, skip);
            assert(picked(ps, k, skip) == picked(ps, k + 1, skip));
        } else {
            let s2 = skip.insert(ps[k].0);
            law_picked_commits_are_new_and_distinct(ps, k + 1, s2);
            let rest = picked(ps, k + 1, s2);
            assert(picked(ps, k, skip) == seq![ps[k]] + rest);
            assert forall|i: int| 0 <= i < picked(ps, k, skip).len() implies !skip.contains(#[trigger] picked(ps, k, skip)[i].0) by {
                if i > 0 {
                    assert(picked(ps, k, skip)[i] == rest[i - 1]);
                }
            }
            assert forall|i: int, j: int| 0 <= i < j < picked(ps, k, skip).len() implies (#[trigger] picked(ps, k, skip)[i]).0 != (#[trigger] picked(ps, k, skip)[j]).0 by {
                assert(picked(ps, k, skip)[j] == rest[j - 1]);
                if i > 0 {
                    assert(picked(ps, k, skip)[i] == rest[i - 1]);
                } else {
                    assert(!s2.contains(rest[j - 1].0));
                }
            }
        }
    }
}

/// A run still going, as the status answer shows it.
#[derive(Debug)]
pub struct ActiveRunInfo {
    pub repo_name: RepoName,
    pub sha: CommitSha,
    pub commit_message: String,
    pub attempt: AttemptNumber,
}

/// Whether a run of repository `repo` passes the filter of a request.
pub open spec fn passes_filter(repo: Seq<char>, filter: Option<Seq<char>>) -> bool {
    match filter {
        Some(f) => repo == f,
        None => true,
    }
}

/// The state of a finished run in the status answer: cancelled, failed when a
/// job failed, passed otherwise.
pub open spec fn finished_state(r: RunResult) -> RunState {
    if r.cancelled {
        RunState::Cancelled
    } else if count_jobs(r.jobs@, false) > 0 {
        RunState::Failed
    } else {
        RunState::Passed
    }
}

/// `s` shows the active run `a`: running, with no job counts.
pub open spec fn shows_active(s: RunSummary, a: ActiveRunInfo) -> bool {
    &&& s.repo@ == a.repo_name@
    &&& s.sha@ == a.sha@
    &&& s.commit_message@ == a.commit_message@
    &&& s.attempt == a.attempt
    &&& s.state == RunState::Running
    &&& s.jobs_total == 0 && s.jobs_passed == 0 && s.jobs_failed == 0
}

/// `s` shows the finished run `r`: its state and its jobs counted.
pub open spec fn shows_finished(s: RunSummary, r: RunResult) -> bool {
    &&& s.repo@ == r.repo_name@
    &&& s.sha@ == r.sha@
    &&& s.commit_message@ == r.commit_message@
    &&& s.attempt == r.attempt
    &&& s.state == finished_state(r)
    &&& s.jobs_total == r.jobs@.len()
    &&& s.jobs_passed == count_jobs(r.jobs@, true)
    &&& s.jobs_failed == count_jobs(r.jobs@, false)
}

/// The runs of `v` that pass the filter, in order.
pub open spec fn active_shown(v: Seq<ActiveRunInfo>, filter: Option<Seq<char>>) -> Seq<ActiveRunInfo>
    decreases v.len(),
{
    if v.len() == 0 {
        Seq::empty()
    } else {
        active_shown(v.drop_last(), filter) + if passes_filter(v.last().repo_name@, filter) { seq![v.last()] } else { Seq::empty() }
    }
}

/// The finished runs of `v` that pass the filter, in order.
pub open spec fn finished_shown(v: Seq<RunResult>, filter: Option<Seq<char>>) -> Seq<RunResult>
    decreases v.len(),
{
    if v.len() == 0 {
        Seq::empty()
    } else {
        finished_shown(v.drop_last(), filter) + if passes_filter(v.last().repo_name@, filter) { seq![v.last()] } else { Seq::empty() }
    }
}

fn passes(repo: &RepoName, filter: Option<&RepoName>) -> (r: bool)
    ensures
        r == passes_filter(repo@, match filter {
            Some(f) => Some(f@),
            None => None,
        }),
{
    match filter {
        Some(f) => crate::text::chars_eq(&chars_of(repo.as_str()), &chars_of(f.as_str())),
        None => true,
    }
}

/// The answer to a status request: the active runs, then the finished ones, each
/// passing the repository filter, in the order given.
pub fn build_status_response(active: &[ActiveRunInfo], finished: &[RunResult], filter: Option<&RepoName>) -> (r: Response)
    ensures
        r matches Response::Status { runs } && {
            let f = match filter {
                Some(x) => Some(x@),
                None => None,
            };
            let a = active_shown(active@, f);
            let d = finished_shown(finished@, f);
            &&& runs@.len() == a.len() + d.len()
            &&& forall|i: int| 0 <= i < a.len() ==> shows_active(#[trigger] runs@[i], a[i])
            &&& forall|i: int| 0 <= i < d.len() ==> shows_finished(#[trigger] runs@[a.len() + i], d[i])
        },
{
    let ghost f = match filter {
        Some(x) => Some(x@),
        None => None,
    };
    let mut runs: Vec<RunSummary> = Vec::new();
    let mut i: usize = 0;
    while i < active.len()
        invariant
            i <= active@.len(),
            f == match filter {
                Some(x) => Some(x@),
                None => None,
            },
            runs@.len() == active_shown(active@.take(i as int), f).len(),
            forall|q: int| 0 <= q < runs@.len() ==> shows_active(#[trigger] runs@[q], active_shown(active@.take(i as int), f)[q]),
        decreases active@.len() - i,
    {
        let a = &active[i];
        let ghost before = runs@;
        proof {
            assert(active@.take(i + 1).drop_last() =~= active@.take(i as int));
            assert(active@.take(i + 1).last() == active@[i as int]);
        }
        if passes(&a.repo_name, filter) {
            runs.push(RunSummary {
                repo: a.repo_name.clone(),
                sha: a.sha.clone(),
                commit_message: a.commit_message.clone(),
                attempt: a.attempt,
                state: RunState::Running,
                jobs_total: 0,
                jobs_passed: 0,
                jobs_failed: 0,
            });
            proof {
                let sh = active_shown(active@.take(i + 1), f);
                assert forall|q: int| 0 <= q < runs@.len() implies shows_active(#[trigger] runs@[q], sh[q]) by {
                    if q < before.len() {
                        assert(runs@[q] == before[q]);
                    }
                }
            }
        } else {
            proof {
                assert(active_shown(active@.take(i + 1), f) =~= active_shown(active@.take(i as int), f));
            }
        }
        i = i + 1;
    }
    proof {
        assert(active@.take(active@.len() as int) =~= active@);
    }
    let ghost na = runs@.len();
    let mut j: usize = 0;
    while j < finished.len()
        invariant
            j <= finished@.len(),
            f == match filter {
                Some(x) => Some(x@),
                None => None,
            },
            na == active_shown(active@, f).len(),
            runs@.len() == na + finished_shown(finished@.take(j as int), f).len(),
            forall|q: int| 0 <= q < na ==> shows_active(#[trigger] runs@[q], active_shown(active@, f)[q]),
            forall|q: int| 0 <= q < finished_shown(finished@.take(j as int), f).len() ==> shows_finished(#[trigger] runs@[na + q], finished_shown(finished@.take(j as int), f)[q]),
        decreases finished@.len() - j,
    {
        let r = &finished[j];
        let ghost before = runs@;
        proof {
            assert(finished@.take(j + 1).drop_last() =~= finished@.take(j as int));
            assert(finished@.take(j + 1).last() == finished@[j as int]);
        }
        if passes(&r.repo_name, filter) {
            let passed = r.jobs_passed();
            let failed = r.jobs_failed();
            let st = if r.cancelled {
                RunState::Cancelled
            } else if failed > 0 {
                RunState::Failed
            } else {
                RunState::Passed
            };
            runs.push(RunSummary {
                repo: r.repo_name.clone(),
                sha: r.sha.clone(),
                commit_message: r.commit_message.clone(),
                attempt: r.attempt,
                state: st,
                jobs_total: r.jobs.len(),
                jobs_passed: passed,
                jobs_failed: failed,
            });
            proof {
                let sh = finished_shown(finished@.take(j + 1), f);
                assert forall|q: int| 0 <= q < na implies shows_active(#[trigger] runs@[q], active_shown(active@, f)[q]) by {
                    assert(runs@[q] == before[q]);
                }
                assert forall|q: int| 0 <= q < sh.len() implies shows_finished(#[trigger] runs@[na + q], sh[q]) by {
                    if q < sh.len() - 1 {
                        assert(runs@[na + q] == before[na + q]);
                    }
                }
            }
        } else {
            proof {
                assert(finished_shown(finished@.take(j + 1), f) =~= finished_shown(finished@.take(j as int), f));
            }
        }
        j = j + 1;
    }
    proof {
        assert(finished@.take(finished@.len() as int) =~= finished@);
    }
    Response::Status { runs }
}

/// Whether the active run (`run_sha`, `run_repo`) is one a cancel request for
/// `sha`, filtered by `filter`, stops.
pub fn cancel_matches(run_sha: &CommitSha, run_repo: &RepoName, sha: &CommitSha, filter: Option<&RepoName>) -> (r: bool)
    ensures
        r == (run_sha@ == sha@ && passes_filter(run_repo@, match filter {
            Some(f) => Some(f@),
            None => None,
        })),
{
    same_sha(run_sha, sha) && passes(run_repo, filter)
}

/// The answer to a cancel request that stopped `count` runs of `sha`: a
/// confirmation, or an error when none was running.
pub fn cancel_response(count: usize, sha: &CommitSha) -> (r: Response)
    ensures
        count > 0 ==> (r matches Response::Okay { message } && message@ == "cancellation requested for "@
            + decimal(count as nat) + " run(s) of "@ + sha@.subrange(0, 8)),
        count == 0 ==> (r matches Response::Error { message } && message@ == "no active run for "@ + sha@.subrange(0, 8)),
{
    if count > 0 {
        let mut m = String::from_str("cancellation requested for ");
        m.append(u64_to_string(count as u64).as_str());
        m.append(" run(s) of ");
        m.append(sha.short());
        Response::Okay { message: m }
    } else {
        let mut m = String::from_str("no active run for ");
        m.append(sha.short());
        Response::Error { message: m }
    }
}

/// The answer to a request to cancel all `count` active runs.
pub fn cancel_all_response(count: usize) -> (r: Response)
    ensures
        r matches Response::Okay { message } && message@ == "cancellation requested for "@ + decimal(count as nat)
            + " active run(s)"@,
{
    let mut m = String::from_str("cancellation requested for ");
    m.append(u64_to_string(count as u64).as_str());
    m.append(" active run(s)");
    Response::Okay { message: m }
}

/// The answer to a shutdown request.
pub fn shutdown_response() -> (r: Response)
    ensures
        r matches Response::Okay { message } && message@ == "shutting down"@,
{
    Response::Okay { message: String::from_str("shutting down") }
}

/// The answer to a line that is no request; `detail` says why it could not be read.
pub fn invalid_request_response(detail: &str) -> (r: Response)
    ensures
        r matches Response::Error { message } && message@ == "invalid request: "@ + detail@,
{
    let mut m = String::from_str("invalid request: ");
    m.append(detail);
    Response::Error { message: m }
}

/// The answer to a retry for a repository the configuration does not name.
pub fn unknown_repo_response(repo: &RepoName) -> (r: Response)
    ensures
        r matches Response::Error { message } && message@ == "unknown repo '"@ + repo@ + "'"@,
{
    let mut m = String::from_str("unknown repo '");
    m.append(repo.as_str());
    m.append("'");
    Response::Error { message: m }
}

/// The subject a retry of `sha` reuses: that of the first finished run of the
/// commit among `runs` (the repository's, newest first), or none.
pub fn retry_message(runs: &[RunResult], sha: &CommitSha) -> (r: String)
    ensures
        (exists|i: int| 0 <= i < runs@.len() && (#[trigger] runs@[i]).sha@ == sha@) ==> exists|i: int| 0 <= i < runs@.len()
            && (#[trigger] runs@[i]).sha@ == sha@ && r@ == runs@[i].commit_message@
            && forall|j: int| 0 <= j < i ==> (#[trigger] runs@[j]).sha@ != sha@,
        !(exists|i: int| 0 <= i < runs@.len() && (#[trigger] runs@[i]).sha@ == sha@) ==> r@.len() == 0,
{
    let mut i: usize = 0;
    while i < runs.len()
        invariant
            i <= runs@.len(),
            forall|j: int| 0 <= j < i ==> (#[trigger] runs@[j]).sha@ != sha@,
        decreases runs@.len() - i,
    {
        if same_sha(&runs[i].sha, sha) {
            return runs[i].commit_message.clone();
        }
        i = i + 1;
    }
    String::new()
}

/// The answer to a retry of `sha` in `repo`: the attempt it launched, or why it
/// could not.
pub fn retry_response(launched: Result<AttemptNumber, crate::ci::error::CiError>, sha: &CommitSha, repo: &RepoName) -> (r: Response)
    ensures
        match launched {
            Ok(a) => r matches Response::Okay { message } && message@ == "retry launched for "@ + sha@.subrange(0, 8)
                + " in repo '"@ + repo@ + "' (attempt "@ + decimal(a.spec_get() as nat) + ")"@,
            Err(e) => r matches Response::Error { message } && message@ == "failed to launch retry: "@
                + crate::ci::error::ci_error_message(e),
        },
{
    match launched {
        Ok(a) => {
            let mut m = String::from_str("retry launched for ");
            m.append(sha.short());
            m.append(" in repo '");
            m.append(repo.as_str());
            m.append("' (attempt ");
            m.append(u64_to_string(a.get() as u64).as_str());
            m.append(")");
            Response::Okay { message: m }
        },
        Err(e) => {
            let mut m = String::from_str("failed to launch retry: ");
            m.append(e.message().as_str());
            Response::Error { message: m }
        },
    }
}

/// The result recorded for a run whose task ended without giving one: cancelled,
/// with no job.
pub fn aborted_result(run: ActiveRunInfo) -> (r: RunResult)
    ensures
        r.repo_name@ == run.repo_name@,
        r.sha@ == run.sha@,
        r.commit_message@ == run.commit_message@,
        r.attempt == run.attempt,
        r.jobs@.len() == 0,
        r.total_jobs == 0,
        r.all_job_names@.len() == 0,
        r.cancelled,
{
    RunResult {
        repo_name: run.repo_name,
        sha: run.sha,
        commit_message: run.commit_message,
        attempt: run.attempt,
        jobs: Vec::new(),
        total_jobs: 0,
        all_job_names: Vec::new(),
        cancelled: true,
    }
}

/// Records a finished run first among a repository's finished runs (newest first).
pub fn record_finished(runs: &mut Vec<RunResult>, result: RunResult)
    ensures
        final(runs)@ == seq![result] + old(runs)@,
{
    runs.insert(0, result);
    assert(runs@ =~= seq![result] + old(runs)@);
}

/// The directory of an attempt and the checkout inside it, under the run
/// directory `run_dir`: `<run_dir>/attempt-<n>` and `<that>/repo`.
pub fn attempt_dirs(run_dir: &str, attempt: AttemptNumber) -> (r: (String, String))
    ensures
        r.0@ == crate::text::path_join(run_dir@, "attempt-"@ + decimal(attempt.spec_get() as nat)),
        r.1@ == crate::text::path_join(r.0@, "repo"@),
{
    let name = attempt_dir_name(attempt);
    let a = crate::text::join_path(run_dir, name.as_str());
    let c = crate::text::join_path(a.as_str(), "repo");
    (a, c)
}

} // verus!
