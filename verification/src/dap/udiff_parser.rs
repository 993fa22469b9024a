//! Unified and git diff sections: file headers, renames, hunks, and the patches a
//! finished section stands for.
use vstd::prelude::*;
use crate::dap::parser::ParserState;
use crate::dap::types::{hunks_view, Hunk, HunkLine, HunkV, LineV, OpV, Patch, PatchOp, PatchV, patches_view};
use crate::text::{chars_eq, chars_of, path_key, path_key_of, str_eq, find_char, find_char_from, has_prefix, parse_usize, parse_usize_spec, slice_chars, split_words, starts_with, string_of, trim, trim_chars, words};

verus! {

pub const UDIFF_OLD_FILE_PREFIX: &'static str = "--- ";
pub const UDIFF_NEW_FILE_PREFIX: &'static str = "+++ ";
pub const UDIFF_HUNK_HEADER_PREFIX: &'static str = "@@ ";
pub const UDIFF_GIT_HEADER_PREFIX: &'static str = "diff --git ";

/// How the paths of `---`/`+++` headers are read: as written, or with git's
/// `a/` and `b/` prefixes.
#[derive(Debug, Clone, Copy, PartialEq, Eq, Structural)]
pub enum PathStyle {
    Verbatim,
    Git,
}

impl Default for PathStyle {
    fn default() -> (r: Self)
        ensures
            r == PathStyle::Verbatim,
    {
        PathStyle::Verbatim
    }
}

/// Which header a path comes from.
#[derive(Debug, Clone, Copy, PartialEq, Eq, Structural)]
pub enum HeaderSide {
    Old,
    New,
}

pub open spec fn dev_null() -> Seq<char> {
    "/dev/null"@
}

/// The path a header names: the text before any tab, trimmed; `/dev/null` as it
/// is; in git style without the `a/` (old side) or `b/` (new side) prefix.
pub open spec fn header_path(value: Seq<char>, style: PathStyle, side: HeaderSide) -> Seq<char> {
    let name = trim(value.subrange(0, find_char_from(value, '\t', 0)));
    if name == dev_null() {
        name
    } else {
        match style {
            PathStyle::Verbatim => name,
            PathStyle::Git => {
                let prefix = match side {
                    HeaderSide::Old => "a/"@,
                    HeaderSide::New => "b/"@,
                };
                if has_prefix(name, prefix) {
                    name.subrange(prefix.len() as int, name.len() as int)
                } else {
                    name
                }
            },
        }
    }
}

/// Reads a header path as `header_path` states.
pub fn parse_header_path(value: &[char], style: PathStyle, side: HeaderSide) -> (r: Vec<char>)
    ensures
        r@ == header_path(value@, style, side),
{
    proof {
        crate::text::lemma_find_char_from(value@, '\t', 0);
    }
    let tab = find_char(value, '\t', 0);
    let head = slice_chars(value, 0, tab);
    let name = trim_chars(&head);
    let dn = chars_of("/dev/null");
    if chars_eq(&name, &dn) {
        return name;
    }
    match style {
        PathStyle::Verbatim => name,
        PathStyle::Git => {
            let prefix = match side {
                HeaderSide::Old => chars_of("a/"),
                HeaderSide::New => chars_of("b/"),
            };
            if starts_with(&name, &prefix) {
                slice_chars(&name, prefix.len(), name.len())
            } else {
                name
            }
        },
    }
}

/// Whether two texts name the same path as `std::path::Path` compares paths:
/// component by component (see `path_key`), so `a//b`, `a/./b` and `a/b/` all
/// name `a/b`.
pub open spec fn same_path(a: Seq<char>, b: Seq<char>) -> bool {
    path_key(a) == path_key(b)
}

/// Whether `a` and `b` name the same path (see `same_path`).
fn paths_equal(a: &str, b: &str) -> (r: bool)
    ensures
        r == same_path(a@, b@),
{
    str_eq(path_key_of(a).as_str(), path_key_of(b).as_str())
}

/// The patches for a section from `source` to `target`, the paths compared as
/// paths (see `same_path`): nothing when both are `/dev/null`; a deletion when the target is; the hunks on the target when the
/// source is (a creation) or when the two are the same path (nothing without
/// hunks); otherwise a move, followed by the hunks on the new path if there are any.
pub open spec fn resolve_spec(source: Seq<char>, target: Seq<char>, hunks: Seq<HunkV>) -> Seq<PatchV> {
    let creation = same_path(source, dev_null());
    let deletion = same_path(target, dev_null());
    if creation && deletion {
        seq![]
    } else if deletion {
        seq![PatchV { file_path: source, op: OpV::Delete }]
    } else if creation {
        seq![PatchV { file_path: target, op: OpV::Udiff(hunks) }]
    } else if same_path(source, target) {
        if hunks.len() == 0 {
            seq![]
        } else {
            seq![PatchV { file_path: target, op: OpV::Udiff(hunks) }]
        }
    } else if hunks.len() == 0 {
        seq![PatchV { file_path: source, op: OpV::Move(target) }]
    } else {
        seq![PatchV { file_path: source, op: OpV::Move(target) }, PatchV { file_path: target, op: OpV::Udiff(hunks) }]
    }
}

fn resolve_patches(source: Vec<char>, target: Vec<char>, hunks: Vec<Hunk>) -> (r: Vec<Patch>)
    ensures
        patches_view(r@) == resolve_spec(source@, target@, hunks_view(hunks@)),
{
    let source_text = string_of(&source);
    let target_text = string_of(&target);
    let is_creation = paths_equal(source_text.as_str(), "/dev/null");
    let is_deletion = paths_equal(target_text.as_str(), "/dev/null");
    let mut out: Vec<Patch> = Vec::new();
    if is_creation && is_deletion {
        proof {
            assert(patches_view(out@) =~= Seq::<PatchV>::empty());
        }
        return out;
    }
    if is_deletion {
        out.push(Patch { file_path: string_of(&source), op: PatchOp::Delete });
        proof {
            assert(patches_view(out@) =~= resolve_spec(source@, target@, hunks_view(hunks@)));
        }
        return out;
    }
    if is_creation {
        out.push(Patch { file_path: string_of(&target), op: PatchOp::Udiff(hunks) });
        proof {
            assert(patches_view(out@) =~= resolve_spec(source@, target@, hunks_view(hunks@)));
        }
        return out;
    }
    if paths_equal(source_text.as_str(), target_text.as_str()) {
        if hunks.len() == 0 {
            proof {
                assert(hunks_view(hunks@).len() == 0);
                assert(patches_view(out@) =~= Seq::<PatchV>::empty());
            }
            return out;
        }
        out.push(Patch { file_path: string_of(&target), op: PatchOp::Udiff(hunks) });
        proof {
            assert(patches_view(out@) =~= resolve_spec(source@, target@, hunks_view(hunks@)));
        }
        return out;
    }
    let ghost hv = hunks_view(hunks@);
    let dest = string_of(&target);
    out.push(Patch { file_path: string_of(&source), op: PatchOp::Move(dest) });
    if hunks.len() > 0 {
        out.push(Patch { file_path: string_of(&target), op: PatchOp::Udiff(hunks) });
    }
    proof {
        assert(patches_view(out@) =~= resolve_spec(source@, target@, hv));
    }
    out
}

/// The view of a section of a unified diff.
pub struct SectionV {
    pub style: PathStyle,
    pub old_path: Option<Seq<char>>,
    pub new_path: Option<Seq<char>>,
    pub rename_from: Option<Seq<char>>,
    pub rename_to: Option<Seq<char>>,
    pub hunks: Seq<HunkV>,
}

pub open spec fn opt_view(o: Option<String>) -> Option<Seq<char>> {
    match o {
        Some(s) => Some(s@),
        None => None,
    }
}

/// A section with nothing read yet.
pub open spec fn empty_section() -> SectionV {
    SectionV { style: PathStyle::Verbatim, old_path: None, new_path: None, rename_from: None, rename_to: None, hunks: seq![] }
}

/// The patches a finished section stands for: its rename when both ends were given,
/// else its two header paths (one path serving for both when only one was given),
/// resolved as `resolve_spec` states; nothing without paths.
pub open spec fn finalize_spec(s: SectionV) -> Seq<PatchV> {
    if s.rename_from is Some && s.rename_to is Some {
        resolve_spec(s.rename_from->0, s.rename_to->0, s.hunks)
    } else {
        match (s.old_path, s.new_path) {
            (Some(o), Some(n)) => resolve_spec(o, n, s.hunks),
            (Some(p), None) => resolve_spec(p, p, s.hunks),
            (None, Some(p)) => resolve_spec(p, p, s.hunks),
            (None, None) => seq![],
        }
    }
}

/// The file headers, renames and hunks of one diff section being read.
#[derive(Debug)]
pub struct UdiffSection {
    style: PathStyle,
    old_path: Option<String>,
    new_path: Option<String>,
    rename_from: Option<String>,
    rename_to: Option<String>,
    hunks: Vec<Hunk>,
}

impl View for UdiffSection {
    type V = SectionV;

    closed spec fn view(&self) -> SectionV {
        SectionV {
            style: self.style,
            old_path: opt_view(self.old_path),
            new_path: opt_view(self.new_path),
            rename_from: opt_view(self.rename_from),
            rename_to: opt_view(self.rename_to),
            hunks: hunks_view(self.hunks@),
        }
    }
}

impl Default for UdiffSection {
    fn default() -> (r: Self)
        ensures
            r@ == empty_section(),
    {
        let r = UdiffSection {
            style: PathStyle::Verbatim,
            old_path: None,
            new_path: None,
            rename_from: None,
            rename_to: None,
            hunks: Vec::new(),
        };
        proof {
            assert(hunks_view(r.hunks@) =~= Seq::<HunkV>::empty());
        }
        r
    }
}

impl UdiffSection {
    /// Sets how header paths are read.
    pub fn set_style(&mut self, style: PathStyle)
        ensures
            final(self)@ == (SectionV { style, ..old(self)@ }),
    {
        self.style = style;
    }

    /// Whether an old or new header path was given.
    pub fn has_file_paths(&self) -> (r: bool)
        ensures
            r == (self@.old_path is Some || self@.new_path is Some),
    {
        self.old_path.is_some() || self.new_path.is_some()
    }

    /// Records the `---` path, read in the section's style.
    pub fn set_old_path(&mut self, value: &str)
        ensures
            final(self)@ == (SectionV { old_path: Some(header_path(value@, old(self)@.style, HeaderSide::Old)), ..old(self)@ }),
    {
        let v = chars_of(value);
        let p = parse_header_path(&v, self.style, HeaderSide::Old);
        self.old_path = Some(string_of(&p));
    }

    /// Records the `+++` path, read in the section's style.
    pub fn set_new_path(&mut self, value: &str)
        ensures
            final(self)@ == (SectionV { new_path: Some(header_path(value@, old(self)@.style, HeaderSide::New)), ..old(self)@ }),
    {
        let v = chars_of(value);
        let p = parse_header_path(&v, self.style, HeaderSide::New);
        self.new_path = Some(string_of(&p));
    }

    /// Records the `rename from` path, read as written.
    pub fn set_rename_from(&mut self, value: &str)
        ensures
            final(self)@ == (SectionV { rename_from: Some(header_path(value@, PathStyle::Verbatim, HeaderSide::Old)), ..old(self)@ }),
    {
        let v = chars_of(value);
        let p = parse_header_path(&v, PathStyle::Verbatim, HeaderSide::Old);
        self.rename_from = Some(string_of(&p));
    }

    /// Records the `rename to` path, read as written.
    pub fn set_rename_to(&mut self, value: &str)
        ensures
            final(self)@ == (SectionV { rename_to: Some(header_path(value@, PathStyle::Verbatim, HeaderSide::New)), ..old(self)@ }),
    {
        let v = chars_of(value);
        let p = parse_header_path(&v, PathStyle::Verbatim, HeaderSide::New);
        self.rename_to = Some(string_of(&p));
    }

    /// Ends the section: gives its patches (`finalize_spec`) and leaves it empty.
    pub fn finalize(&mut self) -> (r: Vec<Patch>)
        ensures
            patches_view(r@) == finalize_spec(old(self)@),
            final(self)@ == empty_section(),
    {
        let mut hunks: Vec<Hunk> = Vec::new();
        std::mem::swap(&mut hunks, &mut self.hunks);
        let rename_from = self.rename_from.take();
        let rename_to = self.rename_to.take();
        let old_path = self.old_path.take();
        let new_path = self.new_path.take();
        self.style = PathStyle::Verbatim;
        proof {
            assert(hunks_view(self.hunks@) =~= Seq::<HunkV>::empty());
        }
        match (rename_from, rename_to) {
            (Some(from), Some(to)) => {
                return resolve_patches(chars_of(from.as_str()), chars_of(to.as_str()), hunks);
            },
            _ => {},
        }
        match (old_path, new_path) {
            (Some(o), Some(n)) => resolve_patches(chars_of(o.as_str()), chars_of(n.as_str()), hunks),
            (Some(p), None) => resolve_patches(chars_of(p.as_str()), chars_of(p.as_str()), hunks),
            (None, Some(p)) => resolve_patches(chars_of(p.as_str()), chars_of(p.as_str()), hunks),
            (None, None) => {
                let out: Vec<Patch> = Vec::new();
                proof {
                    assert(patches_view(out@) =~= Seq::<PatchV>::empty());
                }
                out
            },
        }
    }
}


/// The number a hunk-header word `-N` or `-N,M` gives, if it is one.
pub open spec fn old_start_of_word(w: Seq<char>) -> Option<usize> {
    if w.len() > 1 && w[0] == '-' {
        let num = w.subrange(1, w.len() as int);
        parse_usize_spec(num.subrange(0, find_char_from(num, ',', 0)))
    } else {
        None
    }
}

/// The old start of the first word that gives one, from word `i` on; zero if none does.
pub open spec fn first_old_start(ws: Seq<Seq<char>>, i: int) -> usize
    decreases ws.len() - i,
{
    if i < 0 || i >= ws.len() {
        0
    } else {
        match old_start_of_word(ws[i]) {
            Some(n) => n,
            None => first_old_start(ws, i + 1),
        }
    }
}

/// What a hunk header gives: nothing unless it starts with `@@`; otherwise an empty
/// hunk whose old start is read from the first `-N` word (zero when there is none).
pub open spec fn hunk_header_spec(header: Seq<char>) -> Option<HunkV> {
    if has_prefix(header, "@@"@) {
        Some(HunkV { old_start: first_old_start(words(header), 0), old_len: 0, new_start: 0, new_len: 0, lines: seq![] })
    } else {
        None
    }
}

fn old_start_of_word_exec(w: &Vec<char>) -> (r: Option<usize>)
    ensures
        r == old_start_of_word(w@),
{
    if w.len() > 1 && w[0] == '-' {
        let num = slice_chars(w, 1, w.len());
        proof {
            crate::text::lemma_find_char_from(num@, ',', 0);
        }
        let comma = find_char(&num, ',', 0);
        let head = slice_chars(&num, 0, comma);
        parse_usize(&head)
    } else {
        None
    }
}

/// Reads a hunk header as `hunk_header_spec` states.
pub fn parse_udiff_hunk_header(header: &str) -> (r: Option<Hunk>)
    ensures
        match hunk_header_spec(header@) {
            Some(h) => r matches Some(x) && x@ == h,
            None => r is None,
        },
{
    let v = chars_of(header);
    let at = chars_of("@@");
    if !starts_with(&v, &at) {
        return None;
    }
    let ws = split_words(&v);
    let ghost wv = ws@.map_values(|w: Vec<char>| w@);
    let mut old_start: usize = 0;
    let mut found = false;
    let mut i: usize = 0;
    while i < ws.len() && !found
        invariant
            wv == ws@.map_values(|w: Vec<char>| w@),
            wv == words(v@),
            i <= ws@.len(),
            found ==> old_start == first_old_start(wv, 0),
            !found ==> old_start == 0 && first_old_start(wv, i as int) == first_old_start(wv, 0),
        decreases ws@.len() - i + (if found { 0int } else { 1int }),
    {
        assert(ws[i as int]@ == wv[i as int]);
        match old_start_of_word_exec(&ws[i]) {
            Some(n) => {
                old_start = n;
                found = true;
            },
            None => {
                i = i + 1;
            },
        }
    }
    let lines: Vec<HunkLine> = Vec::new();
    let h = Hunk { old_start, old_len: 0, new_start: 0, new_len: 0, lines };
    proof {
        assert(h@.lines =~= Seq::<LineV>::empty());
    }
    Some(h)
}


/// The kind of a line inside a hunk, by its first character: `-` removed, `+`
/// added, a space (or a blank line) context; anything else ends the hunk.
pub open spec fn classify_spec(line: Seq<char>, stripped: Seq<char>) -> Option<LineV> {
    if line.len() > 0 && line[0] == '-' {
        Some(LineV::Remove(line))
    } else if line.len() > 0 && line[0] == '+' {
        Some(LineV::Add(line))
    } else if (line.len() > 0 && line[0] == ' ') || stripped.len() == 0 {
        Some(LineV::Context(line))
    } else {
        None
    }
}

fn classify_hunk_line(line: &str, stripped: &[char]) -> (r: Option<HunkLine>)
    ensures
        match classify_spec(line@, stripped@) {
            Some(l) => r matches Some(x) && x@ == l,
            None => r is None,
        },
{
    let v = chars_of(line);
    if v.len() > 0 && v[0] == '-' {
        Some(HunkLine::Remove(string_of(&v)))
    } else if v.len() > 0 && v[0] == '+' {
        Some(HunkLine::Add(string_of(&v)))
    } else if (v.len() > 0 && v[0] == ' ') || stripped.len() == 0 {
        Some(HunkLine::Context(string_of(&v)))
    } else {
        None
    }
}

/// The starts of git's extended header lines.
pub open spec fn git_metadata_prefixes() -> Seq<Seq<char>> {
    seq![
        "index "@,
        "old mode "@,
        "new mode "@,
        "new file mode "@,
        "deleted file mode "@,
        "similarity index "@,
        "dissimilarity index "@,
        "copy from "@,
        "copy to "@,
        "GIT binary patch"@,
    ]
}

/// Whether a (trimmed) line is git metadata between a `diff --git` line and the hunks.
pub open spec fn is_git_metadata_spec(stripped: Seq<char>) -> bool {
    has_prefix(stripped, "Binary files "@) || exists|i: int|
        0 <= i < git_metadata_prefixes().len() && has_prefix(stripped, #[trigger] git_metadata_prefixes()[i])
}

fn is_git_metadata_line(stripped: &[char]) -> (r: bool)
    ensures
        r == is_git_metadata_spec(stripped@),
{
    if starts_with(stripped, &chars_of("Binary files ")) {
        return true;
    }
    let prefixes: [&str; 10] = [
        "index ",
        "old mode ",
        "new mode ",
        "new file mode ",
        "deleted file mode ",
        "similarity index ",
        "dissimilarity index ",
        "copy from ",
        "copy to ",
        "GIT binary patch",
    ];
    proof {
        assert(prefixes@.map_values(|p: &str| p@) =~= git_metadata_prefixes());
    }
    let mut i: usize = 0;
    while i < 10
        invariant
            i <= 10,
            prefixes@.map_values(|p: &str| p@) == git_metadata_prefixes(),
            forall|k: int| 0 <= k < i ==> !has_prefix(stripped@, #[trigger] git_metadata_prefixes()[k]),
        decreases 10 - i,
    {
        let p = chars_of(prefixes[i]);
        assert(p@ == git_metadata_prefixes()[i as int]);
        if starts_with(stripped, &p) {
            return true;
        }
        i = i + 1;
    }
    false
}

/// What one step of the reader gives: its next state, the patches it finished, the
/// section afterwards, and the line to remember as the previous one, if it changes.
pub struct StepOut {
    pub state: ParserState,
    pub patches: Seq<PatchV>,
    pub section: SectionV,
    pub previous: Option<Seq<char>>,
}

/// A line after a `diff --git` line: `rename from`/`rename to` record the rename,
/// blank and metadata lines are passed over, and any other line ends the section.
pub open spec fn git_header_spec(line: Seq<char>, stripped: Seq<char>, sec: SectionV) -> StepOut {
    if has_prefix(stripped, "rename from "@) {
        StepOut { state: ParserState::InGitHeader, patches: seq![], section: SectionV {
            rename_from: Some(header_path(stripped.subrange(12, stripped.len() as int), PathStyle::Verbatim, HeaderSide::Old)), ..sec
        }, previous: None }
    } else if has_prefix(stripped, "rename to "@) {
        StepOut { state: ParserState::InGitHeader, patches: seq![], section: SectionV {
            rename_to: Some(header_path(stripped.subrange(10, stripped.len() as int), PathStyle::Verbatim, HeaderSide::New)), ..sec
        }, previous: None }
    } else if stripped.len() == 0 || is_git_metadata_spec(stripped) {
        StepOut { state: ParserState::InGitHeader, patches: seq![], section: sec, previous: None }
    } else {
        StepOut { state: ParserState::Idle, patches: finalize_spec(sec), section: empty_section(), previous: Some(line) }
    }
}

/// Handles a line of a git header (see `git_header_spec`).
pub fn handle_git_header_line(line: &str, stripped: &str, section: &mut UdiffSection, previous_line: &mut String) -> (r: (ParserState, Vec<Patch>))
    ensures
        ({
            let o = git_header_spec(line@, stripped@, old(section)@);
            &&& r.0 == o.state
            &&& patches_view(r.1@) == o.patches
            &&& final(section)@ == o.section
            &&& final(previous_line)@ == match o.previous { Some(p) => p, None => old(previous_line)@ }
        }),
{
    let sv = chars_of(stripped);
    let rf = chars_of("rename from ");
    let rt = chars_of("rename to ");
    proof {
        reveal_strlit("rename from ");
        reveal_strlit("rename to ");
    }
    if starts_with(&sv, &rf) {
        let value = string_of(&slice_chars(&sv, 12, sv.len()));
        section.set_rename_from(value.as_str());
        let out: Vec<Patch> = Vec::new();
        proof { assert(patches_view(out@) =~= Seq::<PatchV>::empty()); }
        return (ParserState::InGitHeader, out);
    }
    if starts_with(&sv, &rt) {
        let value = string_of(&slice_chars(&sv, 10, sv.len()));
        section.set_rename_to(value.as_str());
        let out: Vec<Patch> = Vec::new();
        proof { assert(patches_view(out@) =~= Seq::<PatchV>::empty()); }
        return (ParserState::InGitHeader, out);
    }
    if sv.len() == 0 || is_git_metadata_line(&sv) {
        let out: Vec<Patch> = Vec::new();
        proof { assert(patches_view(out@) =~= Seq::<PatchV>::empty()); }
        return (ParserState::InGitHeader, out);
    }
    *previous_line = string_of(&chars_of(line));
    (ParserState::Idle, section.finalize())
}

/// The hunks with `l` added to the last one.
pub open spec fn push_to_last(hs: Seq<HunkV>, l: LineV) -> Seq<HunkV> {
    hs.update(hs.len() - 1, HunkV { lines: hs.last().lines.push(l), ..hs.last() })
}

/// A line after `---`/`+++` headers: `@@` starts a hunk, a binary notice ends the
/// section, hunk lines join the last hunk (a `\` no-newline note is passed over),
/// blank lines before the first hunk are passed over, and any other line ends the
/// section.
pub open spec fn udiff_spec(line: Seq<char>, stripped: Seq<char>, sec: SectionV) -> StepOut {
    if has_prefix(stripped, "@@ "@) {
        StepOut { state: ParserState::InUdiff, patches: seq![], section: SectionV {
            hunks: sec.hunks.push(hunk_header_spec(stripped)->0), ..sec
        }, previous: None }
    } else if has_prefix(stripped, "Binary files "@) {
        StepOut { state: ParserState::InUdiff, patches: finalize_spec(sec), section: empty_section(), previous: None }
    } else if sec.hunks.len() > 0 && classify_spec(line, stripped) is Some {
        StepOut { state: ParserState::InUdiff, patches: seq![], section: SectionV {
            hunks: push_to_last(sec.hunks, classify_spec(line, stripped)->0), ..sec
        }, previous: None }
    } else if sec.hunks.len() > 0 && has_prefix(stripped, "\\"@) {
        StepOut { state: ParserState::InUdiff, patches: seq![], section: sec, previous: None }
    } else if sec.hunks.len() == 0 && stripped.len() == 0 {
        StepOut { state: ParserState::InUdiff, patches: seq![], section: sec, previous: None }
    } else {
        StepOut { state: ParserState::Idle, patches: finalize_spec(sec), section: empty_section(), previous: Some(line) }
    }
}

/// Handles a line of a unified diff (see `udiff_spec`).
pub fn handle_udiff_line(line: &str, stripped: &str, section: &mut UdiffSection, previous_line: &mut String) -> (r: (ParserState, Vec<Patch>))
    ensures
        ({
            let o = udiff_spec(line@, stripped@, old(section)@);
            &&& r.0 == o.state
            &&& patches_view(r.1@) == o.patches
            &&& final(section)@ == o.section
            &&& final(previous_line)@ == match o.previous { Some(p) => p, None => old(previous_line)@ }
        }),
{
    let sv = chars_of(stripped);
    if starts_with(&sv, &chars_of("@@ ")) {
        proof {
            reveal_strlit("@@ ");
            reveal_strlit("@@");
            assert(stripped@.subrange(0, 3) == "@@ "@);
            assert(stripped@[0] == stripped@.subrange(0, 3)[0]);
            assert(stripped@[1] == stripped@.subrange(0, 3)[1]);
            assert(stripped@.subrange(0, 2) =~= "@@"@);
            assert(has_prefix(stripped@, "@@"@));
        }
        match parse_udiff_hunk_header(stripped) {
            Some(h) => {
                section.hunks.push(h);
                proof {
                    assert(hunks_view(section.hunks@) =~= hunks_view(old(section).hunks@).push(h@));
                }
            },
            None => {},
        }
        let out: Vec<Patch> = Vec::new();
        proof { assert(patches_view(out@) =~= Seq::<PatchV>::empty()); }
        return (ParserState::InUdiff, out);
    }
    if starts_with(&sv, &chars_of("Binary files ")) {
        return (ParserState::InUdiff, section.finalize());
    }
    if section.hunks.len() > 0 {
        match classify_hunk_line(line, &sv) {
            Some(hl) => {
                let ghost old_hunks = section.hunks@;
                let mut last = section.hunks.pop().unwrap();
                let ghost lv = hl@;
                let ghost last_before = last@;
                proof {
                    assert(last_before == hunks_view(old_hunks).last());
                    assert(hunks_view(section.hunks@) =~= hunks_view(old_hunks).drop_last());
                }
                last.lines.push(hl);
                proof {
                    assert(last@.lines =~= last_before.lines.push(lv));
                    assert(last@ == (HunkV { lines: last_before.lines.push(lv), ..last_before }));
                }
                section.hunks.push(last);
                proof {
                    assert(hunks_view(section.hunks@) =~= push_to_last(hunks_view(old_hunks), lv));
                }
                let out: Vec<Patch> = Vec::new();
                proof { assert(patches_view(out@) =~= Seq::<PatchV>::empty()); }
                return (ParserState::InUdiff, out);
            },
            None => {},
        }
        if starts_with(&sv, &chars_of("\\")) {
            let out: Vec<Patch> = Vec::new();
            proof { assert(patches_view(out@) =~= Seq::<PatchV>::empty()); }
            return (ParserState::InUdiff, out);
        }
    } else if sv.len() == 0 {
        let out: Vec<Patch> = Vec::new();
        proof { assert(patches_view(out@) =~= Seq::<PatchV>::empty()); }
        return (ParserState::InUdiff, out);
    }
    *previous_line = string_of(&chars_of(line));
    (ParserState::Idle, section.finalize())
}

} // verus!
