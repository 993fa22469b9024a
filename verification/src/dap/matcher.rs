//! Finding a block of lines inside a file's lines. Lines are compared without
//! their trailing white space, so a block matches whatever line endings it has.
use vstd::prelude::*;
use crate::text::{chars_eq, is_ws, lemma_ws_back_bounds, slice_chars, split_lines, split_lines_incl, spec_is_ws, trim_end, ws_back};

verus! {

/// What two lines are compared by: the line without trailing white space.
pub open spec fn line_key(l: Seq<char>) -> Seq<char> {
    trim_end(l)
}

/// Whether the lines `pat` stand in `src` starting at line `i`.
pub open spec fn block_at(src: Seq<Seq<char>>, pat: Seq<Seq<char>>, i: int) -> bool {
    &&& 0 <= i
    &&& i + pat.len() <= src.len()
    &&& forall|j: int| 0 <= j < pat.len() ==> line_key(#[trigger] src[i + j]) == line_key(pat[j])
}

/// The positions at or after `i` where `pat` stands in `src`, in order.
pub open spec fn positions_from(src: Seq<Seq<char>>, pat: Seq<Seq<char>>, i: int) -> Seq<int>
    decreases src.len() - i,
{
    if i < 0 || i >= src.len() || i + pat.len() > src.len() {
        seq![]
    } else if block_at(src, pat, i) {
        seq![i] + positions_from(src, pat, i + 1)
    } else {
        positions_from(src, pat, i + 1)
    }
}

/// Where the block `pat` is found in `src`: every position, except that when the
/// block is found more than once and the (one-based) line `hint` is one of them,
/// that one alone. An empty block is found nowhere.
pub open spec fn occurrences(src: Seq<Seq<char>>, pat: Seq<Seq<char>>, hint: Option<usize>) -> Seq<int> {
    let ms = if pat.len() == 0 { seq![] } else { positions_from(src, pat, 0) };
    if ms.len() > 1 && hint is Some && hint->0 >= 1 && block_at(src, pat, hint->0 - 1) {
        seq![hint->0 - 1]
    } else {
        ms
    }
}

pub proof fn lemma_positions_from(src: Seq<Seq<char>>, pat: Seq<Seq<char>>, i: int)
    requires
        0 <= i,
    ensures
        forall|k: int| 0 <= k < positions_from(src, pat, i).len() ==> {
            &&& i <= #[trigger] positions_from(src, pat, i)[k]
            &&& block_at(src, pat, positions_from(src, pat, i)[k])
        },
    decreases src.len() - i,
{
    if i < src.len() && i + pat.len() <= src.len() {
        lemma_positions_from(src, pat, i + 1);
        let rest = positions_from(src, pat, i + 1);
        if block_at(src, pat, i) {
            assert forall|k: int| 0 <= k < positions_from(src, pat, i).len() implies {
                &&& i <= #[trigger] positions_from(src, pat, i)[k]
                &&& block_at(src, pat, positions_from(src, pat, i)[k])
            } by {
                if k > 0 {
                    assert(positions_from(src, pat, i)[k] == rest[k - 1]);
                }
            }
        }
    }
}

/// The length of `v` without its trailing white space.
fn trim_end_len(v: &[char]) -> (r: usize)
    ensures
        r == ws_back(v@, v@.len() as int),
        r <= v@.len(),
{
    let mut hi = v.len();
    while hi > 0 && is_ws(v[hi - 1])
        invariant
            hi <= v@.len(),
            ws_back(v@, hi as int) == ws_back(v@, v@.len() as int),
        decreases hi,
    {
        hi = hi - 1;
    }
    hi
}

/// Whether two lines have the same key.
pub fn same_line(a: &[char], b: &[char]) -> (r: bool)
    ensures
        r == (line_key(a@) == line_key(b@)),
{
    let la = trim_end_len(a);
    let lb = trim_end_len(b);
    let ka = slice_chars(a, 0, la);
    let kb = slice_chars(b, 0, lb);
    chars_eq(&ka, &kb)
}

fn block_at_exec(src: &Vec<Vec<char>>, pat: &Vec<Vec<char>>, i: usize) -> (r: bool)
    ensures
        r == block_at(src@.map_values(|l: Vec<char>| l@), pat@.map_values(|l: Vec<char>| l@), i as int),
{
    let ghost s = src@.map_values(|l: Vec<char>| l@);
    let ghost p = pat@.map_values(|l: Vec<char>| l@);
    if pat.len() > src.len() || i > src.len() - pat.len() {
        return false;
    }
    let mut j: usize = 0;
    while j < pat.len()
        invariant
            s == src@.map_values(|l: Vec<char>| l@),
            p == pat@.map_values(|l: Vec<char>| l@),
            i + pat@.len() <= src@.len(),
            src@.len() == src.len(),
            pat@.len() == pat.len(),
            j <= pat@.len(),
            forall|k: int| 0 <= k < j ==> line_key(#[trigger] s[i + k]) == line_key(p[k]),
        decreases pat@.len() - j,
    {
        if !same_line(&src[i + j], &pat[j]) {
            assert(line_key(s[i + j]) != line_key(p[j as int]));
            return false;
        }
        j = j + 1;
    }
    true
}

/// The lines of `search` and where they stand in `source_lines` (see `occurrences`),
/// with the number of lines of the block.
pub fn find_occurrences(source_lines: &Vec<Vec<char>>, search: &[char], hint: Option<usize>) -> (r: (Vec<usize>, usize))
    ensures
        r.1 == split_lines_incl(search@).len(),
        r.0@.map_values(|x: usize| x as int) == occurrences(
            source_lines@.map_values(|l: Vec<char>| l@),
            split_lines_incl(search@),
            hint,
        ),
{
    let pat = split_lines(search);
    let ghost s = source_lines@.map_values(|l: Vec<char>| l@);
    let ghost p = split_lines_incl(search@);
    proof {
        assert(pat@.map_values(|l: Vec<char>| l@) =~= p);
    }
    let mut ms: Vec<usize> = Vec::new();
    if pat.len() > 0 && pat.len() <= source_lines.len() {
        let last = source_lines.len() - pat.len();
        let bound = last + 1;
        let mut i: usize = 0;
        while i < bound
            invariant
                bound == last + 1,
                s == source_lines@.map_values(|l: Vec<char>| l@),
                p == pat@.map_values(|l: Vec<char>| l@),
                pat@.len() > 0,
                last == source_lines@.len() - pat@.len(),
                last + 1 <= source_lines@.len(),
                i <= last + 1,
                ms@.map_values(|x: usize| x as int) + positions_from(s, p, i as int) == positions_from(s, p, 0),
            decreases last + 1 - i,
        {
            let ghost before = ms@;
            let hit = block_at_exec(source_lines, &pat, i);
            if hit {
                ms.push(i);
                proof {
                    assert(ms@.map_values(|x: usize| x as int) =~= before.map_values(|x: usize| x as int).push(i as int));
                    assert(before.map_values(|x: usize| x as int).push(i as int) + positions_from(s, p, i + 1)
                        =~= before.map_values(|x: usize| x as int) + (seq![i as int] + positions_from(s, p, i + 1)));
                }
            }
            i = i + 1;
        }
        proof {
            assert(positions_from(s, p, i as int) =~= Seq::<int>::empty());
            assert(ms@.map_values(|x: usize| x as int) =~= positions_from(s, p, 0));
        }
    } else {
        proof {
            if pat@.len() > 0 {
                assert(positions_from(s, p, 0) =~= Seq::<int>::empty());
            }
        }
    }
    proof {
        assert(ms@.map_values(|x: usize| x as int) =~= (if p.len() == 0 { seq![] } else { positions_from(s, p, 0) }));
    }
    if ms.len() > 1 {
        match hint {
            Some(h) => {
                if h >= 1 && block_at_exec(source_lines, &pat, h - 1) {
                    let mut one: Vec<usize> = Vec::new();
                    one.push(h - 1);
                    proof {
                        assert(one@.map_values(|x: usize| x as int) =~= seq![h - 1]);
                    }
                    return (one, pat.len());
                }
            },
            None => {},
        }
    }
    (ms, pat.len())
}

} // verus!
