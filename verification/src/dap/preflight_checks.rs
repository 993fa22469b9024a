//! Checking a list of patches before any is applied, against the files they would
//! find: each patch is checked against the tree as the patches before it left it.
use vstd::prelude::*;
use crate::dap::hunks::{apply_all, apply_hunks, concat_lines, lemma_occurrences_valid, HunkFailureV};
use crate::dap::matcher::{block_at, find_occurrences, occurrences};
use crate::dap::types::{hunks_view, Hunk, HunkV, OpV, Patch, PatchOp, PatchV};
use crate::text::{chars_eq, chars_of, concat_all, concat_chars, decimal, path_key, path_key_of, split_lines, split_lines_incl, string_of, trim, trim_chars, u64_to_string};

verus! {

/// What a file is, as far as the checks can tell.
#[derive(Debug, PartialEq)]
pub enum ProjectedFile {
    Absent,
    Text(String),
    Unreadable(String),
}

impl ProjectedFile {
    /// Whether the file is absent.
    pub fn is_absent(&self) -> (r: bool)
        ensures
            r == (self@ is Absent),
    {
        match self {
            ProjectedFile::Absent => true,
            _ => false,
        }
    }
}

impl Clone for ProjectedFile {
    fn clone(&self) -> (r: Self)
        ensures
            r@ == self@,
    {
        match self {
            ProjectedFile::Absent => ProjectedFile::Absent,
            ProjectedFile::Text(s) => ProjectedFile::Text(s.clone()),
            ProjectedFile::Unreadable(e) => ProjectedFile::Unreadable(e.clone()),
        }
    }
}

/// The view of a projected file.
pub enum FileV {
    Absent,
    Text(Seq<char>),
    Unreadable(Seq<char>),
}

impl View for ProjectedFile {
    type V = FileV;

    open spec fn view(&self) -> FileV {
        match self {
            ProjectedFile::Absent => FileV::Absent,
            ProjectedFile::Text(s) => FileV::Text(s@),
            ProjectedFile::Unreadable(e) => FileV::Unreadable(e@),
        }
    }
}

/// The state of each file as the checked patches would leave it, keyed by the
/// path's components (see `path_key`), as a map keyed by `PathBuf` is. Later
/// entries stand over earlier ones for the same key.
#[derive(Debug)]
pub struct ProjectedTree {
    entries: Vec<(String, ProjectedFile)>,
}

pub open spec fn entries_map(es: Seq<(String, ProjectedFile)>) -> Map<Seq<char>, FileV>
    decreases es.len(),
{
    if es.len() == 0 {
        Map::empty()
    } else {
        entries_map(es.drop_last()).insert(es.last().0@, es.last().1@)
    }
}

proof fn lemma_entries_map_latest(es: Seq<(String, ProjectedFile)>, i: int)
    requires
        0 <= i < es.len(),
        forall|j: int| i < j < es.len() ==> (#[trigger] es[j]).0@ != es[i].0@,
    ensures
        entries_map(es).contains_key(es[i].0@),
        entries_map(es)[es[i].0@] == es[i].1@,
    decreases es.len(),
{
    if i < es.len() - 1 {
        lemma_entries_map_latest(es.drop_last(), i);
        assert(es.drop_last()[i] == es[i]);
    }
}

proof fn lemma_entries_map_absent(es: Seq<(String, ProjectedFile)>, k: Seq<char>)
    requires
        forall|j: int| 0 <= j < es.len() ==> (#[trigger] es[j]).0@ != k,
    ensures
        !entries_map(es).contains_key(k),
    decreases es.len(),
{
    if es.len() > 0 {
        lemma_entries_map_absent(es.drop_last(), k);
    }
}

impl View for ProjectedTree {
    type V = Map<Seq<char>, FileV>;

    closed spec fn view(&self) -> Map<Seq<char>, FileV> {
        entries_map(self.entries@)
    }
}

impl ProjectedTree {
    /// A tree that knows no file yet.
    pub fn new() -> (r: ProjectedTree)
        ensures
            r@ == Map::<Seq<char>, FileV>::empty(),
    {
        ProjectedTree { entries: Vec::new() }
    }

    /// What the tree knows of `path`, if anything; paths are compared as
    /// `std::path::Path` compares them (see `path_key`).
    pub fn get(&self, path: &str) -> (r: Option<ProjectedFile>)
        ensures
            match r {
                Some(f) => self@.contains_key(path_key(path@)) && self@[path_key(path@)] == f@,
                None => !self@.contains_key(path_key(path@)),
            },
    {
        let key = chars_of(path_key_of(path).as_str());
        let mut i = self.entries.len();
        while i > 0
            invariant
                i <= self.entries@.len(),
                key@ == path_key(path@),
                forall|j: int| i <= j < self.entries@.len() ==> (#[trigger] self.entries@[j]).0@ != path_key(path@),
            decreases i,
        {
            let k = chars_of(self.entries[i - 1].0.as_str());
            if chars_eq(&k, &key) {
                proof {
                    lemma_entries_map_latest(self.entries@, i - 1);
                }
                return Some(self.entries[i - 1].1.clone());
            }
            i = i - 1;
        }
        proof {
            lemma_entries_map_absent(self.entries@, path_key(path@));
        }
        None
    }

    /// Records the state of `path`.
    pub fn set(&mut self, path: &str, state: ProjectedFile)
        ensures
            final(self)@ == old(self)@.insert(path_key(path@), state@),
    {
        let p = path_key_of(path);
        self.entries.push((p, state));
        proof {
            assert(self.entries@.drop_last() =~= old(self).entries@);
        }
    }

    /// Records what is on disk at `path`, unless the tree already knows the path.
    pub fn load(&mut self, path: &str, on_disk: ProjectedFile)
        ensures
            old(self)@.contains_key(path_key(path@)) ==> final(self)@ == old(self)@,
            !old(self)@.contains_key(path_key(path@)) ==> final(self)@ == old(self)@.insert(path_key(path@), on_disk@),
    {
        match self.get(path) {
            Some(_) => {},
            None => self.set(path, on_disk),
        }
    }

    /// Whether the tree knows `path`.
    pub fn knows(&self, path: &str) -> (r: bool)
        ensures
            r == self@.contains_key(path_key(path@)),
    {
        self.get(path).is_some()
    }
}

/// The paths a patch's check reads: its file, and the destination of a move.
pub open spec fn paths_of(p: Patch) -> Seq<Seq<char>> {
    match p.op {
        PatchOp::Move(dest) => seq![p.file_path@, dest@],
        _ => seq![p.file_path@],
    }
}

/// The paths a patch's check reads (see `paths_of`).
pub fn paths_to_load(patch: &Patch) -> (r: Vec<String>)
    ensures
        r@.map_values(|s: String| s@) == paths_of(*patch),
{
    let mut out: Vec<String> = Vec::new();
    out.push(patch.file_path.clone());
    match &patch.op {
        PatchOp::Move(dest) => out.push(dest.clone()),
        _ => {},
    }
    proof {
        assert(out@.map_values(|s: String| s@) =~= paths_of(*patch));
    }
    out
}

/// What a check answers, and the tree it leaves.
pub struct CheckV {
    pub result: Result<Seq<char>, Seq<char>>,
    pub tree: Map<Seq<char>, FileV>,
}

pub open spec fn unchanged(m: Map<Seq<char>, FileV>, msg: Seq<char>) -> CheckV {
    CheckV { result: Err(msg), tree: m }
}

/// A move needs its source and a free destination; the source's state moves over.
pub open spec fn move_spec(source: Seq<char>, dest: Seq<char>, m: Map<Seq<char>, FileV>) -> CheckV {
    let moved = m[path_key(source)];
    if moved is Absent {
        unchanged(m, "FAILED (Source file not found)"@)
    } else if !(m[path_key(dest)] is Absent) {
        unchanged(m, "FAILED (Destination file '"@ + dest + "' already exists)"@)
    } else {
        CheckV { result: Ok("OK (Move to '"@ + dest + "')"@), tree: m.insert(path_key(source), FileV::Absent).insert(path_key(dest), moved) }
    }
}

/// A deletion needs the file.
pub open spec fn delete_spec(path: Seq<char>, m: Map<Seq<char>, FileV>) -> CheckV {
    if m[path_key(path)] is Absent {
        unchanged(m, "FAILED (File not found, cannot delete)"@)
    } else {
        CheckV { result: Ok("OK (File scheduled for deletion)"@), tree: m.insert(path_key(path), FileV::Absent) }
    }
}

/// The text of a file, or why there is none.
pub open spec fn text_of(f: FileV) -> Result<Seq<char>, Seq<char>> {
    match f {
        FileV::Text(c) => Ok(c),
        FileV::Absent => Err("FAILED (File not found)"@),
        FileV::Unreadable(e) => Err("FAILED (Could not read file: "@ + e + ")"@),
    }
}

/// A search/replace block: an empty search writes the whole file; otherwise the
/// search block must stand exactly once in the file's text, and is replaced.
pub open spec fn modify_spec(path: Seq<char>, search: Seq<char>, replace: Seq<char>, m: Map<Seq<char>, FileV>) -> CheckV {
    if trim(search).len() == 0 {
        CheckV {
            result: Ok(if m[path_key(path)] is Absent { "OK (New file creation)"@ } else { "OK (File will be overwritten)"@ }),
            tree: m.insert(path_key(path), FileV::Text(replace)),
        }
    } else {
        match text_of(m[path_key(path)]) {
            Err(e) => unchanged(m, e),
            Ok(content) => {
                let src = split_lines_incl(content);
                let pat = split_lines_incl(search);
                let ms = occurrences(src, pat, None);
                if ms.len() == 0 {
                    unchanged(m, "FAILED (Search block not found)"@)
                } else if ms.len() > 1 {
                    unchanged(m, "FAILED (Search block is ambiguous, found "@ + decimal(ms.len()) + " times)"@)
                } else {
                    let next = concat_all(src.subrange(0, ms[0])) + replace + concat_all(src.subrange(ms[0] + pat.len(), src.len() as int));
                    CheckV { result: Ok("OK"@), tree: m.insert(path_key(path), FileV::Text(next)) }
                }
            },
        }
    }
}

/// Hunks: a missing file may only be created by hunks of which one starts at line
/// zero; there must be hunks; and they must apply.
pub open spec fn udiff_check_spec(path: Seq<char>, hs: Seq<HunkV>, m: Map<Seq<char>, FileV>) -> CheckV {
    let creates = m[path_key(path)] is Absent;
    if creates && !(exists|i: int| 0 <= i < hs.len() && #[trigger] hs[i].old_start == 0) {
        unchanged(m, "FAILED (File not found)"@)
    } else if hs.len() == 0 {
        unchanged(m, "FAILED (Udiff patch contains no hunks)"@)
    } else {
        let content: Result<Seq<char>, Seq<char>> = if creates { Ok(seq![]) } else { text_of(m[path_key(path)]) };
        match content {
            Err(e) => unchanged(m, e),
            Ok(c) => match apply_all(c, hs) {
                Err(f) => unchanged(m, "FAILED (Hunk #"@ + decimal((f.index + 1) as nat) + " failed. Expected 1 match, found "@ + decimal(f.matches as nat) + ")"@),
                Ok(p) => CheckV {
                    result: Ok(if creates { "OK (New file creation via Udiff)"@ } else { "OK"@ }),
                    tree: m.insert(path_key(path), FileV::Text(p)),
                },
            },
        }
    }
}

/// A patch's check: a read-only file is refused; otherwise by the kind of patch.
pub open spec fn check_spec(p: PatchV, read_only: bool, m: Map<Seq<char>, FileV>) -> CheckV {
    if read_only {
        unchanged(m, "FAILED (File is read-only)"@)
    } else {
        match p.op {
            OpV::Move(dest) => move_spec(p.file_path, dest, m),
            OpV::Delete => delete_spec(p.file_path, m),
            OpV::Modify { search, replace } => modify_spec(p.file_path, search, replace, m),
            OpV::Udiff(hs) => udiff_check_spec(p.file_path, hs, m),
        }
    }
}


pub open spec fn result_view(r: Result<String, String>) -> Result<Seq<char>, Seq<char>> {
    match r {
        Ok(s) => Ok(s@),
        Err(e) => Err(e@),
    }
}

fn state_of(tree: &ProjectedTree, path: &str) -> (r: ProjectedFile)
    requires
        tree@.contains_key(path_key(path@)),
    ensures
        r@ == tree@[path_key(path@)],
{
    match tree.get(path) {
        Some(f) => f,
        None => ProjectedFile::Absent,
    }
}

fn str_cat3(a: &str, b: &str, c: &str) -> (r: String)
    ensures
        r@ == a@ + b@ + c@,
{
    let mut out = String::from_str(a);
    out.append(b);
    out.append(c);
    out
}

fn check_move(source: &str, dest: &str, tree: &mut ProjectedTree) -> (r: Result<String, String>)
    requires
        old(tree)@.contains_key(path_key(source@)),
        old(tree)@.contains_key(path_key(dest@)),
    ensures
        result_view(r) == move_spec(source@, dest@, old(tree)@).result,
        final(tree)@ == move_spec(source@, dest@, old(tree)@).tree,
{
    let moved = state_of(tree, source);
    if moved.is_absent() {
        return Err(String::from_str("FAILED (Source file not found)"));
    }
    let target = state_of(tree, dest);
    if !target.is_absent() {
        return Err(str_cat3("FAILED (Destination file '", dest, "' already exists)"));
    }
    tree.set(source, ProjectedFile::Absent);
    tree.set(dest, moved);
    Ok(str_cat3("OK (Move to '", dest, "')"))
}

fn check_delete(path: &str, tree: &mut ProjectedTree) -> (r: Result<String, String>)
    requires
        old(tree)@.contains_key(path_key(path@)),
    ensures
        result_view(r) == delete_spec(path@, old(tree)@).result,
        final(tree)@ == delete_spec(path@, old(tree)@).tree,
{
    if state_of(tree, path).is_absent() {
        return Err(String::from_str("FAILED (File not found, cannot delete)"));
    }
    tree.set(path, ProjectedFile::Absent);
    Ok(String::from_str("OK (File scheduled for deletion)"))
}

fn text_from(f: ProjectedFile) -> (r: Result<String, String>)
    ensures
        result_view(r) == text_of(f@),
{
    match f {
        ProjectedFile::Text(c) => Ok(c),
        ProjectedFile::Absent => Err(String::from_str("FAILED (File not found)")),
        ProjectedFile::Unreadable(e) => Err(str_cat3("FAILED (Could not read file: ", e.as_str(), ")")),
    }
}

fn check_modify(path: &str, search: &str, replace: &str, tree: &mut ProjectedTree) -> (r: Result<String, String>)
    requires
        old(tree)@.contains_key(path_key(path@)),
    ensures
        result_view(r) == modify_spec(path@, search@, replace@, old(tree)@).result,
        final(tree)@ == modify_spec(path@, search@, replace@, old(tree)@).tree,
{
    let sv = chars_of(search);
    if trim_chars(&sv).len() == 0 {
        let overwrites = !state_of(tree, path).is_absent();
        tree.set(path, ProjectedFile::Text(string_of(&chars_of(replace))));
        return Ok(if overwrites {
            String::from_str("OK (File will be overwritten)")
        } else {
            String::from_str("OK (New file creation)")
        });
    }
    let content = match text_from(state_of(tree, path)) {
        Ok(c) => c,
        Err(e) => return Err(e),
    };
    let cv = chars_of(content.as_str());
    let source_lines = split_lines(&cv);
    let ghost src = split_lines_incl(cv@);
    proof {
        assert(source_lines@.map_values(|l: Vec<char>| l@) =~= src);
    }
    let (matches, match_len) = find_occurrences(&source_lines, &sv, None);
    proof {
        assert(matches@.len() == occurrences(src, split_lines_incl(search@), None).len());
    }
    if matches.len() == 0 {
        return Err(String::from_str("FAILED (Search block not found)"));
    }
    if matches.len() > 1 {
        let n = u64_to_string(matches.len() as u64);
        return Err(str_cat3("FAILED (Search block is ambiguous, found ", n.as_str(), " times)"));
    }
    let start_idx = matches[0];
    let n_lines = source_lines.len();
    proof {
        crate::dap::hunks::lemma_single_occurrence_fits(src, split_lines_incl(search@), None);
        assert(occurrences(src, split_lines_incl(search@), None)[0] == start_idx as int);
        assert(start_idx + match_len <= n_lines);
    }
    let before = concat_lines(&source_lines, 0, start_idx);
    let after = concat_lines(&source_lines, start_idx + match_len, source_lines.len());
    let mid = concat_chars(&before, &chars_of(replace));
    let next = concat_chars(&mid, &after);
    tree.set(path, ProjectedFile::Text(string_of(&next)));
    Ok(String::from_str("OK"))
}

fn has_zero_start(hunks: &Vec<Hunk>) -> (r: bool)
    ensures
        r == exists|i: int| 0 <= i < hunks_view(hunks@).len() && #[trigger] hunks_view(hunks@)[i].old_start == 0,
{
    let ghost hs = hunks_view(hunks@);
    let mut i: usize = 0;
    while i < hunks.len()
        invariant
            hs == hunks_view(hunks@),
            i <= hunks@.len(),
            forall|k: int| 0 <= k < i ==> #[trigger] hs[k].old_start != 0,
        decreases hunks@.len() - i,
    {
        if hunks[i].old_start == 0 {
            assert(hs[i as int].old_start == 0);
            return true;
        }
        i = i + 1;
    }
    false
}

fn check_udiff(path: &str, hunks: &Vec<Hunk>, tree: &mut ProjectedTree) -> (r: Result<String, String>)
    requires
        old(tree)@.contains_key(path_key(path@)),
    ensures
        result_view(r) == udiff_check_spec(path@, hunks_view(hunks@), old(tree)@).result,
        final(tree)@ == udiff_check_spec(path@, hunks_view(hunks@), old(tree)@).tree,
{
    let creates_file = state_of(tree, path).is_absent();
    if creates_file && !has_zero_start(hunks) {
        return Err(String::from_str("FAILED (File not found)"));
    }
    if hunks.len() == 0 {
        return Err(String::from_str("FAILED (Udiff patch contains no hunks)"));
    }
    let content = if creates_file {
        String::new()
    } else {
        match text_from(state_of(tree, path)) {
            Ok(c) => c,
            Err(e) => return Err(e),
        }
    };
    proof {
        crate::dap::hunks::lemma_apply_from_failure_index(content@, hunks_view(hunks@), 0, 0);
    }
    match apply_hunks(content.as_str(), hunks.as_slice()) {
        Err(failure) => {
            let idx = u64_to_string((failure.index as u64) + 1);
            let found = u64_to_string(failure.matches as u64);
            let mut msg = String::from_str("FAILED (Hunk #");
            msg.append(idx.as_str());
            msg.append(" failed. Expected 1 match, found ");
            msg.append(found.as_str());
            msg.append(")");
            Err(msg)
        },
        Ok(patched) => {
            tree.set(path, ProjectedFile::Text(patched));
            Ok(if creates_file {
                String::from_str("OK (New file creation via Udiff)")
            } else {
                String::from_str("OK")
            })
        },
    }
}

/// Checks one patch against the tree, and applies it to the tree when it passes
/// (see `check_spec`). The tree must already know every path the patch names.
pub fn check_patch(patch: &Patch, read_only: bool, tree: &mut ProjectedTree) -> (r: Result<String, String>)
    requires
        forall|i: int| 0 <= i < paths_of(*patch).len() ==> old(tree)@.contains_key(path_key(#[trigger] paths_of(*patch)[i])),
    ensures
        result_view(r) == check_spec(patch@, read_only, old(tree)@).result,
        final(tree)@ == check_spec(patch@, read_only, old(tree)@).tree,
{
    assert(paths_of(*patch)[0] == patch.file_path@);
    if read_only {
        return Err(String::from_str("FAILED (File is read-only)"));
    }
    match &patch.op {
        PatchOp::Move(dest) => {
            assert(paths_of(*patch)[1] == dest@);
            check_move(patch.file_path.as_str(), dest.as_str(), tree)
        },
        PatchOp::Delete => check_delete(patch.file_path.as_str(), tree),
        PatchOp::Modify { search, replace } => check_modify(patch.file_path.as_str(), search.as_str(), replace.as_str(), tree),
        PatchOp::Udiff(hunks) => check_udiff(patch.file_path.as_str(), hunks, tree),
    }
}

/// The report line for patch number `index` (counted from zero) on `path`:
/// `  - Patch #<index + 1> for '<path>': <outcome>`.
pub fn report_line(index: usize, path: &str, outcome: &str) -> (r: String)
    requires
        index < u64::MAX,
    ensures
        r@ == "  - Patch #"@ + decimal((index + 1) as nat) + " for '"@ + path@ + "': "@ + outcome@,
{
    let n = u64_to_string((index as u64) + 1);
    let mut out = String::from_str("  - Patch #");
    out.append(n.as_str());
    out.append(" for '");
    out.append(path);
    out.append("': ");
    out.append(outcome);
    out
}

} // verus!
