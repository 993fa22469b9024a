//! One-line file commands: `<path> <<<<<<< DELETE` and
//! `<path> <<<<<<< MOVE >>>>>>> <new path>`.
use vstd::prelude::*;
use crate::dap::diff_parser::{MARKER_DELETE, MARKER_MOVE};
use crate::dap::types::{OpV, Patch, PatchOp, PatchV};
use crate::text::{chars_of, ends_with, find_text, find_text_from, has_suffix, lemma_find_text_from, slice_chars, string_of, trim, trim_chars};

verus! {

/// The patch a line commands, if any: a trimmed line ending with the delete marker
/// after a non-empty path deletes that path; otherwise a line holding the move
/// marker between two non-empty paths moves the first to the second.
pub open spec fn command_spec(line: Seq<char>) -> Option<PatchV> {
    let t = trim(line);
    let del = MARKER_DELETE@;
    let mv = MARKER_MOVE@;
    if has_suffix(t, del) && trim(t.subrange(0, t.len() - del.len())).len() > 0 {
        Some(PatchV { file_path: trim(t.subrange(0, t.len() - del.len())), op: OpV::Delete })
    } else {
        let k = find_text_from(t, mv, 0);
        if k + mv.len() <= t.len() {
            let source = trim(t.subrange(0, k));
            let dest = trim(t.subrange(k + mv.len(), t.len() as int));
            if source.len() > 0 && dest.len() > 0 {
                Some(PatchV { file_path: source, op: OpV::Move(dest) })
            } else {
                None
            }
        } else {
            None
        }
    }
}

/// Reads a one-line command as `command_spec` states.
pub fn parse_line_command(line: &str) -> (r: Option<Patch>)
    ensures
        match command_spec(line@) {
            Some(p) => r matches Some(x) && x@ == p,
            None => r is None,
        },
{
    let t = trim_chars(&chars_of(line));
    let del = chars_of(MARKER_DELETE);
    let mv = chars_of(MARKER_MOVE);
    if ends_with(&t, &del) {
        let path = trim_chars(&slice_chars(&t, 0, t.len() - del.len()));
        if path.len() > 0 {
            return Some(Patch { file_path: string_of(&path), op: PatchOp::Delete });
        }
    }
    proof {
        lemma_find_text_from(t@, mv@, 0);
        reveal_strlit("<<<<<<< MOVE >>>>>>>");
    }
    let k = find_text(&t, &mv, 0);
    if k < t.len() && mv.len() <= t.len() - k {
        let source = trim_chars(&slice_chars(&t, 0, k));
        let dest = trim_chars(&slice_chars(&t, k + mv.len(), t.len()));
        if source.len() > 0 && dest.len() > 0 {
            return Some(Patch { file_path: string_of(&source), op: PatchOp::Move(string_of(&dest)) });
        }
    }
    None
}

} // verus!
