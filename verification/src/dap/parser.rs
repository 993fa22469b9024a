//! Reading a text that holds patches in any of the supported formats: search/replace
//! blocks, unified and git diffs, and one-line file commands, in any mix.
use vstd::prelude::*;
use crate::dap::command_parser::{command_spec, parse_line_command};
use crate::dap::diff_parser::{MARKER_DIVIDER, MARKER_REPLACE_END, MARKER_SEARCH_START};
use crate::dap::types::{OpV, Patch, PatchOp, PatchV, patches_view};
use crate::dap::udiff_parser::{empty_section, finalize_spec, git_header_spec, handle_git_header_line, handle_udiff_line, header_path, HeaderSide, PathStyle, SectionV, StepOut, UdiffSection, udiff_spec};
use crate::text::{chars_eq, chars_of, concat_chars, has_prefix, slice_chars, split_lines, split_lines_incl, starts_with, string_of, trim, trim_chars};

verus! {

/// Where the reader stands.
#[derive(Debug, Clone, Copy, PartialEq, Eq, Structural)]
pub enum ParserState {
    Idle,
    InSearch,
    InReplace,
    InGitHeader,
    InUdiff,
}

/// The view of the reader between two lines.
pub struct ReaderV {
    pub patches: Seq<PatchV>,
    pub state: ParserState,
    pub previous: Seq<char>,
    pub file_path: Seq<char>,
    pub search: Seq<char>,
    pub replace: Seq<char>,
    pub section: SectionV,
}

/// The reader before the first line.
pub open spec fn initial_reader() -> ReaderV {
    ReaderV {
        patches: seq![],
        state: ParserState::Idle,
        previous: seq![],
        file_path: seq![],
        search: seq![],
        replace: seq![],
        section: empty_section(),
    }
}

/// A diff-section handler's outcome folded into the reader.
pub open spec fn absorb(r: ReaderV, o: StepOut) -> ReaderV {
    ReaderV {
        state: o.state,
        patches: r.patches + o.patches,
        section: o.section,
        previous: match o.previous {
            Some(p) => p,
            None => r.previous,
        },
        ..r
    }
}

/// What an idle reader does with a line no diff header claimed: a search marker
/// starts a block for the path on the previous line (if there is one, else the
/// last path), a one-line command gives its patch, a code fence is passed over, a
/// blank line is forgotten, and any other line is remembered.
pub open spec fn idle_line(r: ReaderV, line: Seq<char>, stripped: Seq<char>) -> ReaderV {
    if stripped == MARKER_SEARCH_START@ {
        ReaderV {
            file_path: if trim(r.previous).len() > 0 { trim(r.previous) } else { r.file_path },
            state: ParserState::InSearch,
            search: seq![],
            replace: seq![],
            ..r
        }
    } else if command_spec(line) is Some {
        ReaderV { patches: r.patches.push(command_spec(line)->0), previous: seq![], ..r }
    } else if has_prefix(stripped, "```"@) {
        r
    } else if stripped.len() == 0 {
        ReaderV { previous: seq![], ..r }
    } else {
        ReaderV { previous: line, ..r }
    }
}

/// One line of input.
pub open spec fn step_spec(r: ReaderV, line: Seq<char>) -> ReaderV {
    let stripped = trim(line);
    match r.state {
        ParserState::InSearch => if stripped == MARKER_DIVIDER@ {
            ReaderV { state: ParserState::InReplace, ..r }
        } else {
            ReaderV { search: r.search + line, ..r }
        },
        ParserState::InReplace => if stripped == MARKER_REPLACE_END@ {
            ReaderV {
                patches: r.patches.push(PatchV { file_path: r.file_path, op: OpV::Modify { search: r.search, replace: r.replace } }),
                state: ParserState::Idle,
                previous: seq![],
                ..r
            }
        } else {
            ReaderV { replace: r.replace + line, ..r }
        },
        _ => if has_prefix(line, "diff --git "@) {
            ReaderV {
                patches: r.patches + finalize_spec(r.section),
                section: SectionV { style: PathStyle::Git, ..empty_section() },
                state: ParserState::InGitHeader,
                previous: seq![],
                ..r
            }
        } else if has_prefix(stripped, "--- "@) {
            let ended = r.section.old_path is Some || r.section.new_path is Some;
            let sec = if ended { empty_section() } else { r.section };
            ReaderV {
                patches: if ended { r.patches + finalize_spec(r.section) } else { r.patches },
                section: SectionV {
                    old_path: Some(header_path(stripped.subrange(4, stripped.len() as int), sec.style, HeaderSide::Old)),
                    ..sec
                },
                state: ParserState::InUdiff,
                previous: seq![],
                ..r
            }
        } else if has_prefix(stripped, "+++ "@) {
            ReaderV {
                section: SectionV {
                    new_path: Some(header_path(stripped.subrange(4, stripped.len() as int), r.section.style, HeaderSide::New)),
                    ..r.section
                },
                state: ParserState::InUdiff,
                ..r
            }
        } else {
            let r2 = if r.state == ParserState::InGitHeader {
                absorb(r, git_header_spec(line, stripped, r.section))
            } else if r.state == ParserState::InUdiff {
                absorb(r, udiff_spec(line, stripped, r.section))
            } else {
                r
            };
            if r2.state == ParserState::Idle {
                idle_line(r2, line, stripped)
            } else {
                r2
            }
        },
    }
}

/// The reader after the first `n` lines.
pub open spec fn reader_after(lines: Seq<Seq<char>>, n: int) -> ReaderV
    decreases n,
{
    if n <= 0 || n > lines.len() {
        initial_reader()
    } else {
        step_spec(reader_after(lines, n - 1), lines[n - 1])
    }
}

/// The patches a text holds: those found line by line (split as
/// `split_inclusive('\n')`), then those of the diff section still open at the end.
pub open spec fn parse_spec(content: Seq<char>) -> Seq<PatchV> {
    let lines = split_lines_incl(content);
    let r = reader_after(lines, lines.len() as int);
    r.patches + finalize_spec(r.section)
}

struct Reader {
    patches: Vec<Patch>,
    state: ParserState,
    previous: String,
    file_path: String,
    search: Vec<char>,
    replace: Vec<char>,
    section: UdiffSection,
}

impl View for Reader {
    type V = ReaderV;

    closed spec fn view(&self) -> ReaderV {
        ReaderV {
            patches: patches_view(self.patches@),
            state: self.state,
            previous: self.previous@,
            file_path: self.file_path@,
            search: self.search@,
            replace: self.replace@,
            section: self.section@,
        }
    }
}

fn append_patches(dst: &mut Vec<Patch>, src: Vec<Patch>)
    ensures
        patches_view(final(dst)@) == patches_view(old(dst)@) + patches_view(src@),
{
    let mut src = src;
    let ghost s = src@;
    dst.append(&mut src);
    proof {
        assert(patches_view(dst@) =~= patches_view(old(dst)@) + patches_view(s));
    }
}

impl Reader {
    fn new() -> (r: Reader)
        ensures
            r@ == initial_reader(),
    {
        let r = Reader {
            patches: Vec::new(),
            state: ParserState::Idle,
            previous: String::new(),
            file_path: String::new(),
            search: Vec::new(),
            replace: Vec::new(),
            section: UdiffSection::default(),
        };
        proof {
            assert(patches_view(r.patches@) =~= Seq::<PatchV>::empty());
        }
        r
    }

    fn idle(&mut self, line: &str, sv: &Vec<char>)
        requires
            sv@ == trim(line@),
        ensures
            final(self)@ == idle_line(old(self)@, line@, sv@),
    {
        if chars_eq(sv, &chars_of(MARKER_SEARCH_START)) {
            let pt = trim_chars(&chars_of(self.previous.as_str()));
            if pt.len() > 0 {
                self.file_path = string_of(&pt);
            }
            self.state = ParserState::InSearch;
            self.search = Vec::new();
            self.replace = Vec::new();
            return;
        }
        match parse_line_command(line) {
            Some(p) => {
                let ghost before = self.patches@;
                self.patches.push(p);
                proof {
                    assert(patches_view(self.patches@) =~= patches_view(before).push(p@));
                }
                self.previous = String::new();
                return;
            },
            None => {},
        }
        if starts_with(sv, &chars_of("```")) {
            return;
        }
        if sv.len() == 0 {
            self.previous = String::new();
            return;
        }
        self.previous = string_of(&chars_of(line));
    }

    fn step(&mut self, line: &str)
        ensures
            final(self)@ == step_spec(old(self)@, line@),
    {
        let lv = chars_of(line);
        let sv = trim_chars(&lv);
        let stripped = string_of(&sv);
        match self.state {
            ParserState::InSearch => {
                if chars_eq(&sv, &chars_of(MARKER_DIVIDER)) {
                    self.state = ParserState::InReplace;
                } else {
                    self.search = concat_chars(&self.search, &lv);
                }
                return;
            },
            ParserState::InReplace => {
                if chars_eq(&sv, &chars_of(MARKER_REPLACE_END)) {
                    let ghost before = self.patches@;
                    let p = Patch {
                        file_path: self.file_path.clone(),
                        op: PatchOp::Modify { search: string_of(&self.search), replace: string_of(&self.replace) },
                    };
                    self.patches.push(p);
                    proof {
                        assert(patches_view(self.patches@) =~= patches_view(before).push(p@));
                    }
                    self.state = ParserState::Idle;
                    self.previous = String::new();
                } else {
                    self.replace = concat_chars(&self.replace, &lv);
                }
                return;
            },
            _ => {},
        }
        if starts_with(&lv, &chars_of("diff --git ")) {
            let done = self.section.finalize();
            append_patches(&mut self.patches, done);
            self.section.set_style(PathStyle::Git);
            self.state = ParserState::InGitHeader;
            self.previous = String::new();
            return;
        }
        proof {
            reveal_strlit("--- ");
            reveal_strlit("+++ ");
        }
        if starts_with(&sv, &chars_of("--- ")) {
            let value = string_of(&slice_chars(&sv, 4, sv.len()));
            if self.section.has_file_paths() {
                let done = self.section.finalize();
                append_patches(&mut self.patches, done);
            }
            self.section.set_old_path(value.as_str());
            self.state = ParserState::InUdiff;
            self.previous = String::new();
            return;
        }
        if starts_with(&sv, &chars_of("+++ ")) {
            let value = string_of(&slice_chars(&sv, 4, sv.len()));
            self.section.set_new_path(value.as_str());
            self.state = ParserState::InUdiff;
            return;
        }
        if self.state != ParserState::Idle {
            let (new_state, new_patches) = if self.state == ParserState::InGitHeader {
                handle_git_header_line(line, stripped.as_str(), &mut self.section, &mut self.previous)
            } else {
                handle_udiff_line(line, stripped.as_str(), &mut self.section, &mut self.previous)
            };
            self.state = new_state;
            append_patches(&mut self.patches, new_patches);
        }
        if self.state == ParserState::Idle {
            self.idle(line, &sv);
        }
    }
}

/// Every patch in `content` (see `parse_spec`).
pub fn parse(content: &str) -> (r: Vec<Patch>)
    ensures
        patches_view(r@) == parse_spec(content@),
{
    let text = chars_of(content);
    let lines = split_lines(&text);
    let ghost ls = split_lines_incl(content@);
    let mut reader = Reader::new();
    let mut i: usize = 0;
    while i < lines.len()
        invariant
            ls == split_lines_incl(content@),
            lines@.len() == ls.len(),
            forall|k: int| 0 <= k < lines@.len() ==> #[trigger] lines@[k]@ == ls[k],
            i <= lines@.len(),
            reader@ == reader_after(ls, i as int),
        decreases lines@.len() - i,
    {
        let line = string_of(&lines[i]);
        reader.step(line.as_str());
        i = i + 1;
    }
    let mut patches = reader.patches;
    let rest = reader.section.finalize();
    append_patches(&mut patches, rest);
    patches
}

} // verus!
