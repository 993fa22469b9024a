//! What applying one patch does to its file and what is reported: the new
//! contents of a modified file, a move or a removal, or the error that stops it.
use vstd::prelude::*;
use vstd::string::*;
use crate::dap::hunks::{apply_all, apply_from, apply_hunks, concat_lines, lemma_single_occurrence_fits, HunkFailureV};
use crate::dap::matcher::{find_occurrences, occurrences};
use crate::dap::types::{hunks_view, HunkV, OpV, Patch, PatchOp, PatchV};
use crate::dap::preflight_checks::{check_spec, FileV};
use crate::text::{chars_of, concat_all, concat_chars, decimal, path_key, split_lines, split_lines_incl, string_of, trim, trim_str, u64_to_string};

verus! {

/// What is done to the file once a patch is accepted.
#[derive(Debug, PartialEq, Eq)]
pub enum PatchEffect {
    MoveTo(String),
    Remove,
    Write(String),
    Nothing,
}

/// The view of an effect.
pub enum EffectV {
    MoveTo(Seq<char>),
    Remove,
    Write(Seq<char>),
    Nothing,
}

/// An accepted patch: what to do to the file, and the line that reports it.
#[derive(Debug)]
pub struct PatchPlan {
    pub effect: PatchEffect,
    pub message: String,
}

/// The view of an effect.
pub open spec fn effect_view(e: PatchEffect) -> EffectV {
    match e {
        PatchEffect::MoveTo(d) => EffectV::MoveTo(d@),
        PatchEffect::Remove => EffectV::Remove,
        PatchEffect::Write(t) => EffectV::Write(t@),
        PatchEffect::Nothing => EffectV::Nothing,
    }
}

/// The file's text with the block `search` replaced by `replace`, when the
/// block stands in it exactly once; else how often it stands there.
pub open spec fn replaced_once(content: Seq<char>, search: Seq<char>, replace: Seq<char>) -> Result<Seq<char>, nat> {
    let src = split_lines_incl(content);
    let pat = split_lines_incl(search);
    let ms = occurrences(src, pat, None);
    if ms.len() != 1 {
        Err(ms.len())
    } else {
        Ok(concat_all(src.subrange(0, ms[0])) + replace + concat_all(src.subrange(ms[0] + pat.len(), src.len() as int)))
    }
}

/// Replaces the block `search` of `content` by `replace` (see `replaced_once`).
pub fn replace_once(content: &str, search: &str, replace: &str) -> (r: Result<String, usize>)
    ensures
        match replaced_once(content@, search@, replace@) {
            Ok(t) => r matches Ok(s) && s@ == t,
            Err(n) => r matches Err(k) && k as nat == n,
        },
{
    let c = chars_of(content);
    let s = chars_of(search);
    let source_lines = split_lines(&c);
    let ghost src = split_lines_incl(content@);
    proof {
        assert(source_lines@.map_values(|l: Vec<char>| l@) =~= src);
    }
    let (matches, match_len) = find_occurrences(&source_lines, &s, None);
    proof {
        assert(matches@.len() == occurrences(src, split_lines_incl(search@), None).len());
    }
    if matches.len() != 1 {
        return Err(matches.len());
    }
    let start_idx = matches[0];
    proof {
        lemma_single_occurrence_fits(src, split_lines_incl(search@), None);
        assert(occurrences(src, split_lines_incl(search@), None)[0] == start_idx as int);
    }
    let end_idx = start_idx + match_len;
    let before = concat_lines(&source_lines, 0, start_idx);
    let after = concat_lines(&source_lines, end_idx, source_lines.len());
    let rep = chars_of(replace);
    let mid = concat_chars(&before, &rep);
    Ok(string_of(&concat_chars(&mid, &after)))
}

proof fn lemma_failure_index(cur: Seq<char>, hs: Seq<HunkV>, i: int, offset: int)
    requires
        0 <= i,
    ensures
        apply_from(cur, hs, i, offset) matches Err(f) ==> i <= f.index < hs.len(),
    decreases hs.len() - i,
{
    if i < hs.len() {
        let sb = crate::dap::hunks::search_block(hs[i].lines);
        let rb = crate::dap::hunks::replace_block(hs[i].lines);
        if sb.len() == 0 && cur.len() == 0 {
            lemma_failure_index(rb, hs, i + 1, offset);
        } else {
            let src = split_lines_incl(cur);
            let pat = split_lines_incl(sb);
            let ms = occurrences(src, pat, crate::dap::hunks::hint_for(hs[i].old_start, offset));
            if ms.len() == 1 {
                let m = ms[0];
                let next = concat_all(src.subrange(0, m)) + rb + concat_all(src.subrange(m + pat.len(), src.len() as int));
                let shift = split_lines_incl(rb).len() - pat.len();
                lemma_failure_index(next, hs, i + 1, crate::dap::hunks::clamp(offset + shift, i64::MIN as int, i64::MAX as int));
            }
        }
    }
}

/// The error line when a block is not found exactly once.
pub open spec fn count_error(n: nat) -> Seq<char> {
    "    [ERROR] Expected 1 replacement, but "@ + decimal(n) + " occurred. Aborting."@
}

/// The error line when a hunk cannot be placed.
pub open spec fn hunk_error(f: HunkFailureV) -> Seq<char> {
    "    [ERROR] Hunk #"@ + decimal((f.index + 1) as nat) + " failed. Expected 1 match for block, found "@
        + decimal(f.matches as nat) + ".\nSearch block:\n---\n"@ + f.search_block + "---"@
}

/// What applying a patch to a file holding `current` gives: for a move or a
/// removal, that effect (nothing on a dry run); for a modification with a blank
/// search block, the replacement written whole; for any other modification,
/// the file with its block replaced (an error unless the block stands there
/// once); for a diff, the file with its hunks applied (an error on the first
/// hunk that cannot be placed). A dry run changes nothing and says what would
/// happen.
pub open spec fn patch_plan(op: OpV, dry_run: bool, current: Seq<char>) -> Result<(EffectV, Seq<char>), Seq<char>> {
    match op {
        OpV::Move(dest) => if dry_run {
            Ok((EffectV::Nothing, "    [DRY RUN] File would be moved to "@ + dest))
        } else {
            Ok((EffectV::MoveTo(dest), "    [SUCCESS] File moved to "@ + dest))
        },
        OpV::Delete => if dry_run {
            Ok((EffectV::Nothing, "    [DRY RUN] File would be deleted."@))
        } else {
            Ok((EffectV::Remove, "    [SUCCESS] File deleted."@))
        },
        OpV::Modify { search, replace } => if trim(search).len() == 0 {
            if dry_run {
                Ok((EffectV::Nothing, "    [DRY RUN] File would be created/overwritten."@))
            } else {
                Ok((EffectV::Write(replace), "    [SUCCESS] File created/overwritten."@))
            }
        } else {
            match replaced_once(current, search, replace) {
                Err(n) => Err(count_error(n)),
                Ok(t) => if dry_run {
                    Ok((EffectV::Nothing, "    [DRY RUN] Patch would be applied successfully."@))
                } else {
                    Ok((EffectV::Write(t), "    [SUCCESS] Patch applied."@))
                },
            }
        },
        OpV::Udiff(hs) => match apply_all(current, hs) {
            Err(f) => Err(hunk_error(f)),
            Ok(t) => if dry_run {
                Ok((EffectV::Nothing, "    [DRY RUN] Udiff patch(es) would be applied."@))
            } else {
                Ok((EffectV::Write(t), "    [SUCCESS] Udiff patch(es) applied."@))
            },
        },
    }
}

fn plan(effect: PatchEffect, message: &str) -> (r: Result<PatchPlan, String>)
    ensures
        r matches Ok(p) && p.effect == effect && p.message@ == message@,
{
    Ok(PatchPlan { effect, message: String::from_str(message) })
}

fn plan_with(effect: PatchEffect, head: &str, tail: &str) -> (r: Result<PatchPlan, String>)
    ensures
        r matches Ok(p) && p.effect == effect && p.message@ == head@ + tail@,
{
    let mut message = String::from_str(head);
    message.append(tail);
    Ok(PatchPlan { effect, message })
}

/// What applying `patch` to a file holding `current` gives (see `patch_plan`):
/// the effect and its report, or the error line. `current` is the file's text
/// (empty when the file does not exist).
pub fn plan_patch(patch: &Patch, dry_run: bool, current: &str) -> (r: Result<PatchPlan, String>)
    ensures
        match patch_plan(patch.op@, dry_run, current@) {
            Ok((e, m)) => r matches Ok(p) && effect_view(p.effect) == e && p.message@ == m,
            Err(m) => r matches Err(s) && s@ == m,
        },
{
    match &patch.op {
        PatchOp::Move(dest) => if dry_run {
            plan_with(PatchEffect::Nothing, "    [DRY RUN] File would be moved to ", dest.as_str())
        } else {
            plan_with(PatchEffect::MoveTo(dest.clone()), "    [SUCCESS] File moved to ", dest.as_str())
        },
        PatchOp::Delete => if dry_run {
            plan(PatchEffect::Nothing, "    [DRY RUN] File would be deleted.")
        } else {
            plan(PatchEffect::Remove, "    [SUCCESS] File deleted.")
        },
        PatchOp::Modify { search, replace } => {
            if trim_str(search.as_str()).len() == 0 {
                if dry_run {
                    plan(PatchEffect::Nothing, "    [DRY RUN] File would be created/overwritten.")
                } else {
                    plan(PatchEffect::Write(replace.clone()), "    [SUCCESS] File created/overwritten.")
                }
            } else {
                match replace_once(current, search.as_str(), replace.as_str()) {
                    Err(n) => {
                        let mut m = String::from_str("    [ERROR] Expected 1 replacement, but ");
                        m.append(u64_to_string(n as u64).as_str());
                        m.append(" occurred. Aborting.");
                        Err(m)
                    },
                    Ok(t) => if dry_run {
                        plan(PatchEffect::Nothing, "    [DRY RUN] Patch would be applied successfully.")
                    } else {
                        plan(PatchEffect::Write(t), "    [SUCCESS] Patch applied.")
                    },
                }
            }
        },
        PatchOp::Udiff(hunks) => match apply_hunks(current, hunks.as_slice()) {
            Err(f) => {
                let count = hunks.len();
                proof {
                    lemma_failure_index(current@, hunks_view(hunks@), 0, 0);
                    assert(hunks_view(hunks@).len() == hunks@.len());
                    assert(f.index < count);
                }
                let mut m = String::from_str("    [ERROR] Hunk #");
                m.append(u64_to_string((f.index + 1) as u64).as_str());
                m.append(" failed. Expected 1 match for block, found ");
                m.append(u64_to_string(f.matches as u64).as_str());
                m.append(".\nSearch block:\n---\n");
                m.append(f.search_block.as_str());
                m.append("---");
                Err(m)
            },
            Ok(t) => if dry_run {
                plan(PatchEffect::Nothing, "    [DRY RUN] Udiff patch(es) would be applied.")
            } else {
                plan(PatchEffect::Write(t), "    [SUCCESS] Udiff patch(es) applied.")
            },
        },
    }
}


/// What the checks foresee is what applying does: a patch the checks accept on
/// a file holding `current` (absent files hold nothing) is applied without
/// error, with the effect its kind calls for, and a written file gets exactly
/// the text the checks projected for it.
pub proof fn law_checked_patch_applies(p: PatchV, m: Map<Seq<char>, FileV>, current: Seq<char>)
    requires
        check_spec(p, false, m).result is Ok,
        m[path_key(p.file_path)] == FileV::Text(current) || (m[path_key(p.file_path)] is Absent && current.len() == 0),
    ensures
        patch_plan(p.op, false, current) is Ok,
        match p.op {
            OpV::Move(dest) => patch_plan(p.op, false, current) matches Ok((EffectV::MoveTo(d), _)) && d == dest,
            OpV::Delete => patch_plan(p.op, false, current) matches Ok((EffectV::Remove, _)),
            _ => patch_plan(p.op, false, current) matches Ok((EffectV::Write(t), _)) && check_spec(p, false, m).tree[path_key(p.file_path)]
                == FileV::Text(t),
        },
{
    match p.op {
        OpV::Udiff(hs) => {
            if m[path_key(p.file_path)] is Absent {
                assert(current =~= seq![]);
            }
        },
        _ => {},
    }
}

} // verus!
