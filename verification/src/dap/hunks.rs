//! Applying the hunks of a unified diff to a file's text, one after another.
use vstd::prelude::*;
use crate::dap::matcher::{block_at, find_occurrences, lemma_positions_from, occurrences, positions_from};
use crate::dap::types::{hunks_view, Hunk, HunkLine, HunkV, LineV};
use crate::text::{chars_of, concat_all, concat_chars, lemma_concat_all_push, lemma_split_lines_concat, slice_chars, split_lines, split_lines_incl, string_of};

verus! {

/// A hunk that could not be placed: its index, how often its search block was
/// found, and the block.
#[derive(Debug, Clone, PartialEq)]
pub struct HunkFailure {
    pub index: usize,
    pub matches: usize,
    pub search_block: String,
}

/// The view of a hunk failure.
pub struct HunkFailureV {
    pub index: int,
    pub matches: int,
    pub search_block: Seq<char>,
}

impl View for HunkFailure {
    type V = HunkFailureV;

    open spec fn view(&self) -> HunkFailureV {
        HunkFailureV { index: self.index as int, matches: self.matches as int, search_block: self.search_block@ }
    }
}

/// The text of a hunk line without its marker character; a line that is only a
/// marker stands for an empty line.
pub open spec fn line_content(raw: Seq<char>) -> Seq<char> {
    if raw.len() >= 2 {
        raw.subrange(1, raw.len() as int)
    } else {
        seq!['\n']
    }
}

pub open spec fn line_text(l: LineV) -> Seq<char> {
    match l {
        LineV::Context(s) => s,
        LineV::Remove(s) => s,
        LineV::Add(s) => s,
    }
}

/// What the hunk expects to find: its context and removed lines.
pub open spec fn search_block(ls: Seq<LineV>) -> Seq<char>
    decreases ls.len(),
{
    if ls.len() == 0 {
        seq![]
    } else {
        search_block(ls.drop_last()) + match ls.last() {
            LineV::Add(_) => seq![],
            _ => line_content(line_text(ls.last())),
        }
    }
}

/// What the hunk puts in its place: its context and added lines.
pub open spec fn replace_block(ls: Seq<LineV>) -> Seq<char>
    decreases ls.len(),
{
    if ls.len() == 0 {
        seq![]
    } else {
        replace_block(ls.drop_last()) + match ls.last() {
            LineV::Remove(_) => seq![],
            _ => line_content(line_text(ls.last())),
        }
    }
}

/// `x` clamped to `[lo, hi]`.
pub open spec fn clamp(x: int, lo: int, hi: int) -> int {
    if x < lo {
        lo
    } else if x > hi {
        hi
    } else {
        x
    }
}

/// The line where a hunk is expected: its old start moved by what the earlier
/// hunks added or removed; none when the hunk gives no start.
pub open spec fn hint_for(old_start: usize, offset: int) -> Option<usize> {
    if old_start > 0 {
        Some(clamp(old_start + offset, 0, usize::MAX as int) as usize)
    } else {
        None
    }
}

/// Applies hunks `i..` to `cur`, the earlier hunks having shifted lines by `offset`.
pub open spec fn apply_from(cur: Seq<char>, hs: Seq<HunkV>, i: int, offset: int) -> Result<Seq<char>, HunkFailureV>
    decreases hs.len() - i,
{
    if i < 0 || i >= hs.len() {
        Ok(cur)
    } else {
        let sb = search_block(hs[i].lines);
        let rb = replace_block(hs[i].lines);
        if sb.len() == 0 && cur.len() == 0 {
            apply_from(rb, hs, i + 1, offset)
        } else {
            let src = split_lines_incl(cur);
            let pat = split_lines_incl(sb);
            let ms = occurrences(src, pat, hint_for(hs[i].old_start, offset));
            if ms.len() != 1 {
                Err(HunkFailureV { index: i, matches: ms.len() as int, search_block: sb })
            } else {
                let m = ms[0];
                let next = concat_all(src.subrange(0, m)) + rb + concat_all(src.subrange(m + pat.len(), src.len() as int));
                let shift = split_lines_incl(rb).len() - pat.len();
                apply_from(next, hs, i + 1, clamp(offset + shift, i64::MIN as int, i64::MAX as int))
            }
        }
    }
}

/// What applying all of `hs` to `content` gives.
pub open spec fn apply_all(content: Seq<char>, hs: Seq<HunkV>) -> Result<Seq<char>, HunkFailureV> {
    apply_from(content, hs, 0, 0)
}

/// A failure names one of the hunks.
pub proof fn lemma_apply_from_failure_index(cur: Seq<char>, hs: Seq<HunkV>, i: int, offset: int)
    requires
        0 <= i,
    ensures
        apply_from(cur, hs, i, offset) matches Err(f) ==> i <= f.index < hs.len(),
    decreases hs.len() - i,
{
    if i < hs.len() {
        let sb = search_block(hs[i].lines);
        let rb = replace_block(hs[i].lines);
        if sb.len() == 0 && cur.len() == 0 {
            lemma_apply_from_failure_index(rb, hs, i + 1, offset);
        } else {
            let src = split_lines_incl(cur);
            let pat = split_lines_incl(sb);
            let ms = occurrences(src, pat, hint_for(hs[i].old_start, offset));
            if ms.len() == 1 {
                let m = ms[0];
                let next = concat_all(src.subrange(0, m)) + rb + concat_all(src.subrange(m + pat.len(), src.len() as int));
                let shift = split_lines_incl(rb).len() - pat.len();
                lemma_apply_from_failure_index(next, hs, i + 1, clamp(offset + shift, i64::MIN as int, i64::MAX as int));
            }
        }
    }
}

/// How many lines a hunk puts into its file, less the lines it takes out.
pub open spec fn line_delta(h: HunkV) -> int {
    split_lines_incl(replace_block(h.lines)).len() - split_lines_incl(search_block(h.lines)).len()
}

/// All the lines that hunks `i..` search for and put in.
pub open spec fn block_lines_from(hs: Seq<HunkV>, i: int) -> nat
    decreases hs.len() - i,
{
    if i < 0 || i >= hs.len() {
        0
    } else {
        split_lines_incl(replace_block(hs[i].lines)).len() + split_lines_incl(search_block(hs[i].lines)).len()
            + block_lines_from(hs, i + 1)
    }
}

/// The hunks with their starting lines moved by `d`; a hunk that names no line keeps none.
pub open spec fn renumbered(hs: Seq<HunkV>, d: int) -> Seq<HunkV> {
    hs.map_values(
        |h: HunkV|
            HunkV {
                old_start: if h.old_start > 0 { (h.old_start + d) as usize } else { 0usize },
                old_len: h.old_len,
                new_start: h.new_start,
                new_len: h.new_len,
                lines: h.lines,
            },
    )
}

/// An outcome of applying hunks counted from the second hunk of a longer diff.
pub open spec fn counted_from_second(r: Result<Seq<char>, HunkFailureV>) -> Result<Seq<char>, HunkFailureV> {
    match r {
        Ok(t) => Ok(t),
        Err(f) => Err(HunkFailureV { index: f.index + 1, matches: f.matches, search_block: f.search_block }),
    }
}

proof fn lemma_apply_from_renumbered(cur: Seq<char>, hs: Seq<HunkV>, d: int, i: int, off: int)
    requires
        1 <= i <= hs.len(),
        forall|j: int| 1 <= j < hs.len() && hs[j].old_start > 0 ==> 1 <= #[trigger] hs[j].old_start + d <= usize::MAX,
        (if off < 0 { -off } else { off }) + block_lines_from(hs, i) <= i64::MAX,
        (if off + d < 0 { -(off + d) } else { off + d }) + block_lines_from(hs, i) <= i64::MAX,
    ensures
        apply_from(cur, hs, i, off + d) == counted_from_second(
            apply_from(cur, renumbered(hs.drop_first(), d), i - 1, off),
        ),
    decreases hs.len() - i,
{
    let rs = renumbered(hs.drop_first(), d);
    assert(rs.len() == hs.len() - 1);
    if i < hs.len() {
        assert(rs[i - 1].lines == hs[i].lines);
        let sb = search_block(hs[i].lines);
        let rb = replace_block(hs[i].lines);
        if sb.len() == 0 && cur.len() == 0 {
            lemma_apply_from_renumbered(rb, hs, d, i + 1, off);
        } else {
            if hs[i].old_start > 0 {
                assert(1 <= hs[i].old_start + d <= usize::MAX);
                assert(rs[i - 1].old_start == hs[i].old_start + d);
            }
            assert(hint_for(hs[i].old_start, off + d) == hint_for(rs[i - 1].old_start, off));
            let src = split_lines_incl(cur);
            let pat = split_lines_incl(sb);
            let ms = occurrences(src, pat, hint_for(hs[i].old_start, off + d));
            if ms.len() == 1 {
                let m = ms[0];
                let next = concat_all(src.subrange(0, m)) + rb + concat_all(src.subrange(m + pat.len(), src.len() as int));
                let shift = split_lines_incl(rb).len() - pat.len();
                assert(clamp(off + d + shift, i64::MIN as int, i64::MAX as int) == (off + shift) + d);
                assert(clamp(off + shift, i64::MIN as int, i64::MAX as int) == off + shift);
                lemma_apply_from_renumbered(next, hs, d, i + 1, off + shift);
            }
        }
    }
}

/// A diff applies as its first hunk followed by the others, whose starting lines
/// are moved by the lines the first hunk put in less those it took out: every later
/// hunk is looked for at its line as numbered in the text the first hunk left.
pub proof fn law_later_hunks_follow_earlier_edits(content: Seq<char>, hs: Seq<HunkV>)
    requires
        hs.len() >= 1,
        content.len() > 0 || search_block(hs[0].lines).len() > 0,
        forall|j: int|
            1 <= j < hs.len() && hs[j].old_start > 0 ==> 1 <= #[trigger] hs[j].old_start + line_delta(hs[0]) <= usize::MAX,
        block_lines_from(hs, 0) <= i64::MAX,
    ensures
        apply_all(content, hs) == match apply_all(content, seq![hs[0]]) {
            Ok(t) => counted_from_second(apply_all(t, renumbered(hs.drop_first(), line_delta(hs[0])))),
            Err(f) => Err(f),
        },
{
    let one = seq![hs[0]];
    let d = line_delta(hs[0]);
    let sb = search_block(hs[0].lines);
    let rb = replace_block(hs[0].lines);
    let src = split_lines_incl(content);
    let pat = split_lines_incl(sb);
    let ms = occurrences(src, pat, hint_for(hs[0].old_start, 0));
    assert(one[0] == hs[0]);
    assert(apply_from(content, one, 0, 0) == if ms.len() != 1 {
        Err::<Seq<char>, HunkFailureV>(HunkFailureV { index: 0, matches: ms.len() as int, search_block: sb })
    } else {
        apply_from(
            concat_all(src.subrange(0, ms[0])) + rb + concat_all(src.subrange(ms[0] + pat.len(), src.len() as int)),
            one,
            1,
            clamp(d, i64::MIN as int, i64::MAX as int),
        )
    });
    if ms.len() == 1 {
        let m = ms[0];
        let next = concat_all(src.subrange(0, m)) + rb + concat_all(src.subrange(m + pat.len(), src.len() as int));
        assert(clamp(0 + d, i64::MIN as int, i64::MAX as int) == d);
        assert(apply_from(next, one, 1, d) == Ok::<Seq<char>, HunkFailureV>(next));
        lemma_apply_from_renumbered(next, hs, d, 1, 0);
        assert(0 + d == d);
    }
}

/// The text of a hunk line without its marker.
pub fn hunk_line_content(line: &HunkLine) -> (r: Vec<char>)
    ensures
        r@ == line_content(line_text(line@)),
{
    let raw = match line {
        HunkLine::Context(s) => s,
        HunkLine::Remove(s) => s,
        HunkLine::Add(s) => s,
    };
    let v = chars_of(raw.as_str());
    if v.len() >= 2 {
        slice_chars(&v, 1, v.len())
    } else {
        let mut nl: Vec<char> = Vec::new();
        nl.push('\n');
        proof {
            assert(nl@ =~= seq!['\n']);
        }
        nl
    }
}

/// The search and replace blocks of a hunk.
pub fn split_hunk_blocks(hunk: &Hunk) -> (r: (Vec<char>, Vec<char>))
    ensures
        r.0@ == search_block(hunk@.lines),
        r.1@ == replace_block(hunk@.lines),
{
    let ghost ls = hunk@.lines;
    let mut search: Vec<char> = Vec::new();
    let mut replace: Vec<char> = Vec::new();
    let mut i: usize = 0;
    while i < hunk.lines.len()
        invariant
            ls == hunk@.lines,
            ls.len() == hunk.lines@.len(),
            i <= ls.len(),
            search@ == search_block(ls.subrange(0, i as int)),
            replace@ == replace_block(ls.subrange(0, i as int)),
        decreases ls.len() - i,
    {
        let line = &hunk.lines[i];
        let content = hunk_line_content(line);
        proof {
            assert(ls.subrange(0, i + 1).drop_last() =~= ls.subrange(0, i as int));
            assert(ls.subrange(0, i + 1).last() == line@);
        }
        match line {
            HunkLine::Context(_) => {
                search = concat_chars(&search, &content);
                replace = concat_chars(&replace, &content);
            },
            HunkLine::Remove(_) => {
                search = concat_chars(&search, &content);
                proof {
                    assert(replace@ + Seq::<char>::empty() =~= replace@);
                }
            },
            HunkLine::Add(_) => {
                replace = concat_chars(&replace, &content);
                proof {
                    assert(search@ + Seq::<char>::empty() =~= search@);
                }
            },
        }
        i = i + 1;
    }
    proof {
        assert(ls.subrange(0, ls.len() as int) =~= ls);
    }
    (search, replace)
}

/// The concatenation of `lines[from..to]`.
pub fn concat_lines(lines: &Vec<Vec<char>>, from: usize, to: usize) -> (r: Vec<char>)
    requires
        from <= to <= lines@.len(),
    ensures
        r@ == concat_all(lines@.map_values(|l: Vec<char>| l@).subrange(from as int, to as int)),
{
    let ghost s = lines@.map_values(|l: Vec<char>| l@);
    let mut out: Vec<char> = Vec::new();
    let mut i = from;
    proof {
        assert(s.subrange(from as int, from as int) =~= Seq::<Seq<char>>::empty());
    }
    while i < to
        invariant
            s == lines@.map_values(|l: Vec<char>| l@),
            from <= i <= to,
            to <= lines@.len(),
            out@ == concat_all(s.subrange(from as int, i as int)),
        decreases to - i,
    {
        proof {
            lemma_concat_all_push(s.subrange(from as int, i as int), s[i as int]);
            assert(s.subrange(from as int, i as int).push(s[i as int]) =~= s.subrange(from as int, i + 1));
        }
        out = concat_chars(&out, &lines[i]);
        i = i + 1;
    }
    out
}

/// A block found exactly once lies within the lines.
pub proof fn lemma_single_occurrence_fits(src: Seq<Seq<char>>, pat: Seq<Seq<char>>, hint: Option<usize>)
    requires
        occurrences(src, pat, hint).len() == 1,
    ensures
        0 <= occurrences(src, pat, hint)[0],
        occurrences(src, pat, hint)[0] + pat.len() <= src.len(),
{
    lemma_occurrences_valid(src, pat, hint);
    assert(block_at(src, pat, occurrences(src, pat, hint)[0]));
}

/// Every position where a block is found is a place where it stands.
pub proof fn lemma_occurrences_valid(src: Seq<Seq<char>>, pat: Seq<Seq<char>>, hint: Option<usize>)
    ensures
        forall|k: int| 0 <= k < occurrences(src, pat, hint).len() ==> block_at(src, pat, #[trigger] occurrences(src, pat, hint)[k]),
{
    lemma_positions_from(src, pat, 0);
}

/// Applies `hunks` to `content` in order (see `apply_all`): each hunk's search
/// block must be found exactly once, else the first hunk that is not is reported.
pub fn apply_hunks(content: &str, hunks: &[Hunk]) -> (r: Result<String, HunkFailure>)
    ensures
        match apply_all(content@, hunks_view(hunks@)) {
            Ok(text) => r matches Ok(s) && s@ == text,
            Err(f) => r matches Err(e) && e@ == f,
        },
{
    let ghost hs = hunks_view(hunks@);
    let mut current = chars_of(content);
    let mut offset: i64 = 0;
    let mut index: usize = 0;
    while index < hunks.len()
        invariant
            hs == hunks_view(hunks@),
            hs.len() == hunks@.len(),
            index <= hs.len(),
            apply_from(current@, hs, index as int, offset as int) == apply_all(content@, hs),
        decreases hs.len() - index,
    {
        let hunk = &hunks[index];
        proof {
            assert(hs[index as int] == hunk@);
        }
        let (search, replace) = split_hunk_blocks(hunk);
        if search.len() == 0 && current.len() == 0 {
            current = replace;
            index = index + 1;
            continue;
        }
        let source_lines = split_lines(&current);
        let ghost src = split_lines_incl(current@);
        proof {
            assert(source_lines@.map_values(|l: Vec<char>| l@) =~= src);
        }
        let hint: Option<usize> = if hunk.old_start > 0 {
            let t: i128 = hunk.old_start as i128 + offset as i128;
            if t < 0 {
                Some(0)
            } else if t > usize::MAX as i128 {
                Some(usize::MAX)
            } else {
                Some(t as usize)
            }
        } else {
            None
        };
        proof {
            assert(hint == hint_for(hunk.old_start, offset as int));
        }
        let (matches, match_len) = find_occurrences(&source_lines, &search, hint);
        proof {
            assert(matches@.len() == occurrences(src, split_lines_incl(search@), hint).len());
        }
        if matches.len() != 1 {
            let sb = string_of(&search);
            return Err(HunkFailure { index, matches: matches.len(), search_block: sb });
        }
        let start_idx = matches[0];
        let n_lines = source_lines.len();
        proof {
            lemma_single_occurrence_fits(src, split_lines_incl(search@), hint);
            assert(occurrences(src, split_lines_incl(search@), hint)[0] == start_idx as int);
            assert(start_idx + match_len <= n_lines);
        }
        let end_idx = start_idx + match_len;
        let replace_lines = split_lines(&replace);
        let before = concat_lines(&source_lines, 0, start_idx);
        let after = concat_lines(&source_lines, end_idx, source_lines.len());
        let mid = concat_chars(&before, &replace);
        current = concat_chars(&mid, &after);
        let t: i128 = offset as i128 + replace_lines.len() as i128 - match_len as i128;
        offset = if t < i64::MIN as i128 {
            i64::MIN
        } else if t > i64::MAX as i128 {
            i64::MAX
        } else {
            t as i64
        };
        index = index + 1;
    }
    Ok(string_of(&current))
}

} // verus!
