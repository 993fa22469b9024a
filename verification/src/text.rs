//! Character-level helpers over `String` and `&str`, stated on `Seq<char>`.
use vstd::prelude::*;
use vstd::string::*;

verus! {

/// What `str::to_lowercase` gives for a text (full Unicode case mapping).
pub uninterp spec fn lowercase_of(s: Seq<char>) -> Seq<char>;

/// Whether every character of `s` is ASCII.
pub open spec fn is_ascii_text(s: Seq<char>) -> bool {
    forall|i: int| 0 <= i < s.len() ==> (#[trigger] s[i] as int) < 0x80
}

/// A letter `A`..`Z` as its lower case; any other character as it is.
pub open spec fn lower_char(c: char) -> char {
    if 'A' <= c && c <= 'Z' {
        ((c as u32) + 32) as char
    } else {
        c
    }
}

/// A text with its ASCII letters in lower case.
pub open spec fn ascii_lower(s: Seq<char>) -> Seq<char> {
    s.map_values(|c: char| lower_char(c))
}

/// `str::to_lowercase`: the Unicode lower-case form of `s`, named by
/// `lowercase_of`. On ASCII text that form is the ASCII one: the Unicode case
/// mappings that `to_lowercase` follows map `A`..`Z` to `a`..`z` and leave every
/// other ASCII character as it is.
#[verifier::external_body]
pub(crate) fn to_lowercase(s: &str) -> (res: String)
    ensures
        res@ == lowercase_of(s@),
        is_ascii_text(s@) ==> res@ == ascii_lower(s@),
{
    s.to_lowercase()
}

/// What `char::to_uppercase` gives for a character (full Unicode case mapping).
pub uninterp spec fn uppercase_of(c: char) -> Seq<char>;

/// `char::to_uppercase`, collected: the Unicode upper-case form of `c`, named by
/// `uppercase_of`.
#[verifier::external_body]
pub(crate) fn to_uppercase_char(c: char) -> (res: String)
    ensures
        res@ == uppercase_of(c),
{
    c.to_uppercase().collect()
}


/// Unicode `White_Space`, the set that `char::is_whitespace` and `str::trim` use.
pub open spec fn spec_is_ws(c: char) -> bool {
    ||| ('\u{9}' <= c && c <= '\u{d}')
    ||| c == ' '
    ||| c == '\u{85}'
    ||| c == '\u{a0}'
    ||| c == '\u{1680}'
    ||| ('\u{2000}' <= c && c <= '\u{200a}')
    ||| c == '\u{2028}'
    ||| c == '\u{2029}'
    ||| c == '\u{202f}'
    ||| c == '\u{205f}'
    ||| c == '\u{3000}'
}

/// Whether `c` is Unicode white space.
pub fn is_ws(c: char) -> (r: bool)
    ensures
        r == spec_is_ws(c),
{
    ('\u{9}' <= c && c <= '\u{d}') || c == ' ' || c == '\u{85}' || c == '\u{a0}' || c == '\u{1680}'
        || ('\u{2000}' <= c && c <= '\u{200a}') || c == '\u{2028}' || c == '\u{2029}' || c
        == '\u{202f}' || c == '\u{205f}' || c == '\u{3000}'
}

/// Index of the first character at or after `i` that is not white space (or `s.len()`).
pub open spec fn ws_skip(s: Seq<char>, i: int) -> int
    decreases s.len() - i,
{
    if i < 0 || i >= s.len() {
        s.len() as int
    } else if spec_is_ws(s[i]) {
        ws_skip(s, i + 1)
    } else {
        i
    }
}

/// End of `s.take(j)` once its trailing white space is dropped.
pub open spec fn ws_back(s: Seq<char>, j: int) -> int
    decreases j,
{
    if j <= 0 || j > s.len() {
        0
    } else if spec_is_ws(s[j - 1]) {
        ws_back(s, j - 1)
    } else {
        j
    }
}

/// `s` without leading white space.
pub open spec fn trim_start(s: Seq<char>) -> Seq<char> {
    s.subrange(ws_skip(s, 0), s.len() as int)
}

/// `s` without trailing white space.
pub open spec fn trim_end(s: Seq<char>) -> Seq<char> {
    s.subrange(0, ws_back(s, s.len() as int))
}

/// `s` without leading and trailing white space (what `str::trim` gives).
pub open spec fn trim(s: Seq<char>) -> Seq<char> {
    trim_end(trim_start(s))
}

pub proof fn lemma_ws_skip_bounds(s: Seq<char>, i: int)
    requires
        0 <= i <= s.len(),
    ensures
        i <= ws_skip(s, i) <= s.len(),
        forall|k: int| i <= k < ws_skip(s, i) ==> spec_is_ws(#[trigger] s[k]),
        ws_skip(s, i) < s.len() ==> !spec_is_ws(s[ws_skip(s, i)]),
    decreases s.len() - i,
{
    if i < s.len() && spec_is_ws(s[i]) {
        lemma_ws_skip_bounds(s, i + 1);
    }
}

pub proof fn lemma_ws_back_bounds(s: Seq<char>, j: int)
    requires
        0 <= j <= s.len(),
    ensures
        0 <= ws_back(s, j) <= j,
        forall|k: int| ws_back(s, j) <= k < j ==> spec_is_ws(#[trigger] s[k]),
        ws_back(s, j) > 0 ==> !spec_is_ws(s[ws_back(s, j) - 1]),
    decreases j,
{
    if j > 0 && spec_is_ws(s[j - 1]) {
        lemma_ws_back_bounds(s, j - 1);
    }
}

/// `std::string::String::push`: appends one character.
#[verifier::external_body]
pub fn push_char(s: &mut String, c: char)
    ensures
        final(s)@ == old(s)@.push(c),
{
    s.push(c);
}

/// The characters of `s`, one by one.
pub fn chars_of(s: &str) -> (res: Vec<char>)
    ensures
        res@ == s@,
{
    broadcast use vstd::string::group_string_axioms;
    let mut out: Vec<char> = Vec::new();
    for c in it: s.chars()
        invariant
            out@ == it.seq().take(it.index() as int),
            it.seq() == s@,
    {
        out.push(c);
    }
    out
}

/// A `String` holding exactly the characters `v`.
pub fn string_of(v: &[char]) -> (res: String)
    ensures
        res@ == v@,
{
    let mut out = String::new();
    let mut i: usize = 0;
    while i < v.len()
        invariant
            i <= v@.len(),
            out@ == v@.subrange(0, i as int),
        decreases v@.len() - i,
    {
        push_char(&mut out, v[i]);
        i = i + 1;
    }
    out
}

/// The characters `v[from..to]`.
pub fn slice_chars(v: &[char], from: usize, to: usize) -> (res: Vec<char>)
    requires
        from <= to <= v@.len(),
    ensures
        res@ == v@.subrange(from as int, to as int),
{
    let mut out: Vec<char> = Vec::new();
    let mut i: usize = from;
    while i < to
        invariant
            from <= i <= to,
            to <= v@.len(),
            out@ == v@.subrange(from as int, i as int),
        decreases to - i,
    {
        out.push(v[i]);
        i = i + 1;
    }
    out
}

/// `a` followed by `b`.
pub fn concat_chars(a: &[char], b: &[char]) -> (res: Vec<char>)
    ensures
        res@ == a@ + b@,
{
    let mut out: Vec<char> = Vec::new();
    let mut i: usize = 0;
    while i < a.len()
        invariant
            i <= a@.len(),
            out@ == a@.subrange(0, i as int),
        decreases a@.len() - i,
    {
        out.push(a[i]);
        i = i + 1;
    }
    let mut j: usize = 0;
    while j < b.len()
        invariant
            j <= b@.len(),
            out@ == a@ + b@.subrange(0, j as int),
        decreases b@.len() - j,
    {
        out.push(b[j]);
        j = j + 1;
    }
    assert(b@.subrange(0, b@.len() as int) == b@);
    out
}

/// Whether the two sequences of characters are equal.
pub fn chars_eq(a: &[char], b: &[char]) -> (r: bool)
    ensures
        r == (a@ == b@),
{
    if a.len() != b.len() {
        return false;
    }
    let mut i: usize = 0;
    while i < a.len()
        invariant
            a@.len() == b@.len(),
            i <= a@.len(),
            forall|k: int| 0 <= k < i ==> a@[k] == b@[k],
        decreases a@.len() - i,
    {
        if a[i] != b[i] {
            return false;
        }
        i = i + 1;
    }
    assert(a@ =~= b@);
    true
}

/// Whether two texts are equal.
pub fn str_eq(a: &str, b: &str) -> (r: bool)
    ensures
        r == (a@ == b@),
{
    String::from_str(a) == String::from_str(b)
}

/// Whether `p` is a prefix of `s`.
pub open spec fn has_prefix(s: Seq<char>, p: Seq<char>) -> bool {
    p.len() <= s.len() && s.subrange(0, p.len() as int) == p
}

/// Whether `p` is a suffix of `s`.
pub open spec fn has_suffix(s: Seq<char>, p: Seq<char>) -> bool {
    p.len() <= s.len() && s.subrange(s.len() - p.len(), s.len() as int) == p
}

/// Whether `s` starts with `p`.
pub fn starts_with(s: &[char], p: &[char]) -> (r: bool)
    ensures
        r == has_prefix(s@, p@),
{
    if p.len() > s.len() {
        return false;
    }
    let mut i: usize = 0;
    while i < p.len()
        invariant
            p@.len() <= s@.len(),
            i <= p@.len(),
            forall|k: int| 0 <= k < i ==> s@[k] == p@[k],
        decreases p@.len() - i,
    {
        if s[i] != p[i] {
            assert(s@.subrange(0, p@.len() as int)[i as int] != p@[i as int]);
            return false;
        }
        i = i + 1;
    }
    assert(s@.subrange(0, p@.len() as int) =~= p@);
    true
}

/// Whether `s` ends with `p`.
pub fn ends_with(s: &[char], p: &[char]) -> (r: bool)
    ensures
        r == has_suffix(s@, p@),
{
    if p.len() > s.len() {
        return false;
    }
    let off = s.len() - p.len();
    let mut i: usize = 0;
    while i < p.len()
        invariant
            p@.len() <= s@.len(),
            off == s@.len() - p@.len(),
            s@.len() == s.len(),
            i <= p@.len(),
            forall|k: int| 0 <= k < i ==> s@[off + k] == p@[k],
        decreases p@.len() - i,
    {
        if s[off + i] != p[i] {
            assert(s@.subrange(off as int, s@.len() as int)[i as int] != p@[i as int]);
            return false;
        }
        i = i + 1;
    }
    assert(s@.subrange(off as int, s@.len() as int) =~= p@);
    true
}

/// Whether `c` occurs in `s`.
pub fn contains_char(s: &[char], c: char) -> (r: bool)
    ensures
        r == s@.contains(c),
{
    let mut i: usize = 0;
    while i < s.len()
        invariant
            i <= s@.len(),
            forall|k: int| 0 <= k < i ==> s@[k] != c,
        decreases s@.len() - i,
    {
        if s[i] == c {
            assert(s@[i as int] == c);
            return true;
        }
        i = i + 1;
    }
    false
}

/// Whether the text `p` occurs somewhere in `s`.
pub open spec fn occurs_in(s: Seq<char>, p: Seq<char>) -> bool {
    exists|i: int| 0 <= i && i + p.len() <= s.len() && #[trigger] s.subrange(i, i + p.len()) == p
}

/// Whether `p` occurs in `s` as a contiguous piece.
pub fn contains_text(s: &[char], p: &[char]) -> (r: bool)
    ensures
        r == occurs_in(s@, p@),
{
    if p.len() > s.len() {
        return false;
    }
    let last = s.len() - p.len();
    let mut i: usize = 0;
    loop
        invariant
            p@.len() <= s@.len(),
            last == s@.len() - p@.len(),
            s@.len() == s.len(),
            p@.len() == p.len(),
            i <= last,
            forall|k: int| 0 <= k < i ==> #[trigger] s@.subrange(k, k + p@.len()) != p@,
        decreases last - i,
    {
        let piece = slice_chars(s, i, i + p.len());
        if chars_eq(&piece, p) {
            return true;
        }
        if i >= last {
            return false;
        }
        i = i + 1;
    }
}

/// The range `[lo, hi)` of `s` that `trim` keeps.
pub fn trim_bounds(s: &[char]) -> (r: (usize, usize))
    ensures
        r.0 == ws_skip(s@, 0),
        r.0 <= r.1 <= s@.len(),
        s@.subrange(r.0 as int, r.1 as int) == trim(s@),
{
    let n = s.len();
    let mut lo: usize = 0;
    while lo < n && is_ws(s[lo])
        invariant
            n == s@.len(),
            lo <= n,
            ws_skip(s@, lo as int) == ws_skip(s@, 0),
        decreases n - lo,
    {
        lo = lo + 1;
    }
    let ghost t = s@.subrange(lo as int, n as int);
    let mut hi: usize = n;
    while hi > lo && is_ws(s[hi - 1])
        invariant
            n == s@.len(),
            lo <= hi <= n,
            t == s@.subrange(lo as int, n as int),
            ws_back(t, (hi - lo) as int) == ws_back(t, t.len() as int),
        decreases hi,
    {
        assert(t[(hi - lo) - 1] == s@[hi - 1]);
        hi = hi - 1;
    }
    proof {
        if hi > lo {
            assert(t[(hi - lo) - 1] == s@[hi - 1]);
        }
        assert(trim_start(s@) == t);
        assert(ws_back(t, (hi - lo) as int) == hi - lo);
        assert(t.subrange(0, (hi - lo) as int) =~= s@.subrange(lo as int, hi as int));
    }
    (lo, hi)
}

/// `s` with leading and trailing white space removed.
pub fn trim_chars(s: &[char]) -> (res: Vec<char>)
    ensures
        res@ == trim(s@),
{
    let (lo, hi) = trim_bounds(s);
    slice_chars(s, lo, hi)
}

/// The text of `s` with leading and trailing white space removed.
pub fn trim_str(s: &str) -> (res: Vec<char>)
    ensures
        res@ == trim(s@),
{
    let v = chars_of(s);
    trim_chars(&v)
}


/// Index of the first `c` in `s` at or after `i`, or `s.len()` when there is none.
pub open spec fn find_char_from(s: Seq<char>, c: char, i: int) -> int
    decreases s.len() - i,
{
    if i < 0 || i >= s.len() {
        s.len() as int
    } else if s[i] == c {
        i
    } else {
        find_char_from(s, c, i + 1)
    }
}

pub proof fn lemma_find_char_from(s: Seq<char>, c: char, i: int)
    requires
        0 <= i <= s.len(),
    ensures
        i <= find_char_from(s, c, i) <= s.len(),
        forall|k: int| i <= k < find_char_from(s, c, i) ==> #[trigger] s[k] != c,
        find_char_from(s, c, i) < s.len() ==> s[find_char_from(s, c, i)] == c,
    decreases s.len() - i,
{
    if i < s.len() && s[i] != c {
        lemma_find_char_from(s, c, i + 1);
    }
}

/// Index of the first `c` in `v` at or after `from`, or `v.len()`.
pub fn find_char(v: &[char], c: char, from: usize) -> (r: usize)
    requires
        from <= v@.len(),
    ensures
        r == find_char_from(v@, c, from as int),
        from <= r <= v@.len(),
{
    proof {
        lemma_find_char_from(v@, c, from as int);
    }
    let mut i = from;
    while i < v.len() && v[i] != c
        invariant
            from <= i <= v@.len(),
            find_char_from(v@, c, i as int) == find_char_from(v@, c, from as int),
        decreases v@.len() - i,
    {
        i = i + 1;
    }
    i
}

/// The pieces `str::split_inclusive('\n')` gives: each line keeps its newline,
/// the last piece may lack one, and there is no empty piece.
pub open spec fn split_lines_incl(s: Seq<char>) -> Seq<Seq<char>>
    decreases s.len(),
{
    if s.len() == 0 {
        seq![]
    } else {
        let k = find_char_from(s, '\n', 0);
        if k < s.len() {
            proof {
                lemma_find_char_from(s, '\n', 0);
            }
            seq![s.subrange(0, k + 1)] + split_lines_incl(s.subrange(k + 1, s.len() as int))
        } else {
            seq![s]
        }
    }
}

/// The concatenation of a sequence of texts.
pub open spec fn concat_all(parts: Seq<Seq<char>>) -> Seq<char>
    decreases parts.len(),
{
    if parts.len() == 0 {
        seq![]
    } else {
        concat_all(parts.drop_last()) + parts.last()
    }
}

pub proof fn lemma_concat_all_push(parts: Seq<Seq<char>>, x: Seq<char>)
    ensures
        concat_all(parts.push(x)) == concat_all(parts) + x,
{
    assert(parts.push(x).drop_last() =~= parts);
}

pub proof fn lemma_concat_all_append(a: Seq<Seq<char>>, b: Seq<Seq<char>>)
    ensures
        concat_all(a + b) == concat_all(a) + concat_all(b),
    decreases b.len(),
{
    if b.len() == 0 {
        assert(a + b =~= a);
        assert(concat_all(b) =~= Seq::<char>::empty());
        assert(concat_all(a) + concat_all(b) =~= concat_all(a));
    } else {
        lemma_concat_all_append(a, b.drop_last());
        assert((a + b).drop_last() =~= a + b.drop_last());
        assert(concat_all(a) + concat_all(b) =~= concat_all(a) + concat_all(b.drop_last()) + b.last());
    }
}

pub proof fn lemma_concat_all_single(x: Seq<char>)
    ensures
        concat_all(seq![x]) == x,
{
    lemma_concat_all_push(Seq::<Seq<char>>::empty(), x);
    assert(Seq::<Seq<char>>::empty().push(x) =~= seq![x]);
    assert(concat_all(Seq::<Seq<char>>::empty()) =~= Seq::<char>::empty());
    assert(Seq::<char>::empty() + x =~= x);
}

/// Joining the lines of a text gives the text back.
pub proof fn lemma_split_lines_concat(s: Seq<char>)
    ensures
        concat_all(split_lines_incl(s)) == s,
    decreases s.len(),
{
    if s.len() > 0 {
        let k = find_char_from(s, '\n', 0);
        lemma_find_char_from(s, '\n', 0);
        if k < s.len() {
            let rest = s.subrange(k + 1, s.len() as int);
            lemma_split_lines_concat(rest);
            lemma_concat_all_append(seq![s.subrange(0, k + 1)], split_lines_incl(rest));
            lemma_concat_all_single(s.subrange(0, k + 1));
            assert(s.subrange(0, k + 1) + rest =~= s);
        } else {
            lemma_concat_all_single(s);
        }
    }
}

/// The lines of `v`, each with its newline (as `split_inclusive('\n')`).
pub fn split_lines(v: &[char]) -> (r: Vec<Vec<char>>)
    ensures
        r@.len() == split_lines_incl(v@).len(),
        forall|i: int| 0 <= i < r@.len() ==> #[trigger] r@[i]@ == split_lines_incl(v@)[i],
{
    let mut out: Vec<Vec<char>> = Vec::new();
    let mut i: usize = 0;
    let ghost mut done: Seq<Seq<char>> = seq![];
    proof {
        assert(v@.subrange(0, v@.len() as int) =~= v@);
        assert(done + split_lines_incl(v@) =~= split_lines_incl(v@));
    }
    while i < v.len()
        invariant
            i <= v@.len(),
            out@.len() == done.len(),
            forall|j: int| 0 <= j < out@.len() ==> #[trigger] out@[j]@ == done[j],
            done + split_lines_incl(v@.subrange(i as int, v@.len() as int)) == split_lines_incl(v@),
        decreases v@.len() - i,
    {
        let ghost rest = v@.subrange(i as int, v@.len() as int);
        let k = find_char(v, '\n', i);
        proof {
            lemma_find_char_from(v@, '\n', i as int);
            lemma_find_char_from(rest, '\n', 0);
            assert forall|j: int| 0 <= j < k - i implies #[trigger] rest[j] != '\n' by {
                assert(rest[j] == v@[i + j]);
            }
            if k < v.len() {
                assert(rest[k - i] == v@[k as int]);
            }
            assert(find_char_from(rest, '\n', 0) == k - i) by {
                let f = find_char_from(rest, '\n', 0);
                if f < k - i {
                    assert(rest[f] == v@[i + f]);
                }
            }
        }
        let end = if k < v.len() { k + 1 } else { v.len() };
        let piece = slice_chars(v, i, end);
        proof {
            if k < v.len() {
                assert(rest.subrange(0, (k - i) + 1) =~= piece@);
                assert(rest.subrange((k - i) + 1, rest.len() as int) =~= v@.subrange(end as int, v@.len() as int));
            } else {
                assert(rest =~= piece@);
                assert(v@.subrange(end as int, v@.len() as int) =~= Seq::<char>::empty());
            }
            done = done.push(piece@);
        }
        out.push(piece);
        i = end;
        proof {
            assert(done.drop_last() + seq![piece@] =~= done);
        }
    }
    proof {
        assert(v@.subrange(i as int, v@.len() as int) =~= Seq::<char>::empty());
        assert(done + Seq::<Seq<char>>::empty() =~= done);
    }
    out
}


/// Index of the first white-space character at or after `i`, or `s.len()`.
pub open spec fn ws_find_from(s: Seq<char>, i: int) -> int
    decreases s.len() - i,
{
    if i < 0 || i >= s.len() {
        s.len() as int
    } else if spec_is_ws(s[i]) {
        i
    } else {
        ws_find_from(s, i + 1)
    }
}

pub proof fn lemma_ws_find_from(s: Seq<char>, i: int)
    requires
        0 <= i <= s.len(),
    ensures
        i <= ws_find_from(s, i) <= s.len(),
        forall|k: int| i <= k < ws_find_from(s, i) ==> !spec_is_ws(#[trigger] s[k]),
    decreases s.len() - i,
{
    if i < s.len() && !spec_is_ws(s[i]) {
        lemma_ws_find_from(s, i + 1);
    }
}

/// The white-space separated words of `s` (what `str::split_whitespace` gives).
pub open spec fn words(s: Seq<char>) -> Seq<Seq<char>>
    decreases s.len(),
{
    let a = ws_skip(s, 0);
    if a < 0 || a >= s.len() {
        seq![]
    } else {
        let b = ws_find_from(s, a);
        if b <= a || b > s.len() {
            seq![]
        } else {
            seq![s.subrange(a, b)] + words(s.subrange(b, s.len() as int))
        }
    }
}

/// The words of `v`, as `words` states.
pub fn split_words(v: &[char]) -> (r: Vec<Vec<char>>)
    ensures
        r@.map_values(|w: Vec<char>| w@) == words(v@),
{
    let mut out: Vec<Vec<char>> = Vec::new();
    let mut i: usize = 0;
    proof {
        assert(v@.subrange(0, v@.len() as int) =~= v@);
    }
    while i < v.len()
        invariant
            i <= v@.len(),
            out@.map_values(|w: Vec<char>| w@) + words(v@.subrange(i as int, v@.len() as int)) == words(v@),
        decreases v@.len() - i,
    {
        let ghost rest = v@.subrange(i as int, v@.len() as int);
        let ghost before = out@;
        let mut a = i;
        while a < v.len() && is_ws(v[a])
            invariant
                i <= a <= v@.len(),
                rest == v@.subrange(i as int, v@.len() as int),
                ws_skip(rest, (a - i) as int) == ws_skip(rest, 0),
            decreases v@.len() - a,
        {
            assert(rest[(a - i) as int] == v@[a as int]);
            a = a + 1;
        }
        proof {
            if a < v.len() {
                assert(rest[(a - i) as int] == v@[a as int]);
            }
            assert(ws_skip(rest, (a - i) as int) == a - i);
        }
        if a == v.len() {
            proof {
                assert(words(rest) =~= Seq::<Seq<char>>::empty());
                assert(v@.subrange(a as int, v@.len() as int) =~= Seq::<char>::empty());
                assert(words(v@.subrange(a as int, v@.len() as int)) =~= Seq::<Seq<char>>::empty());
            }
            i = a;
        } else {
        let mut b = a;
        while b < v.len() && !is_ws(v[b])
            invariant
                i <= a <= b <= v@.len(),
                a < v@.len(),
                rest == v@.subrange(i as int, v@.len() as int),
                ws_find_from(rest, (b - i) as int) == ws_find_from(rest, (a - i) as int),
            decreases v@.len() - b,
        {
            assert(rest[(b - i) as int] == v@[b as int]);
            b = b + 1;
        }
        proof {
            if b < v.len() {
                assert(rest[(b - i) as int] == v@[b as int]);
            }
            assert(ws_find_from(rest, (b - i) as int) == b - i);
            assert(!spec_is_ws(v@[a as int]));
            assert(rest[(a - i) as int] == v@[a as int]);
            assert(b > a);
        }
        let w = slice_chars(v, a, b);
        out.push(w);
        proof {
            assert(rest.subrange((a - i) as int, (b - i) as int) =~= w@);
            assert(rest.subrange((b - i) as int, rest.len() as int) =~= v@.subrange(b as int, v@.len() as int));
            assert(out@.map_values(|w: Vec<char>| w@) =~= before.map_values(|w: Vec<char>| w@).push(w@));
            assert(before.map_values(|w: Vec<char>| w@).push(w@) + words(v@.subrange(b as int, v@.len() as int))
                =~= before.map_values(|w: Vec<char>| w@) + (seq![w@] + words(v@.subrange(b as int, v@.len() as int))));
        }
        i = b;
        }
    }
    proof {
        assert(v@.subrange(i as int, v@.len() as int) =~= Seq::<char>::empty());
        assert(words(Seq::<char>::empty()) =~= Seq::<Seq<char>>::empty());
        assert(out@.map_values(|w: Vec<char>| w@) + Seq::<Seq<char>>::empty() =~= out@.map_values(|w: Vec<char>| w@));
    }
    out
}

pub open spec fn is_digit(c: char) -> bool {
    '0' <= c && c <= '9'
}

/// The number written by the decimal digits `d`.
pub open spec fn digits_value(d: Seq<char>) -> nat
    decreases d.len(),
{
    if d.len() == 0 {
        0
    } else {
        digits_value(d.drop_last()) * 10 + ((d.last() as u32 - '0' as u32) as nat)
    }
}

/// What `str::parse::<usize>()` accepts: an optional `+`, then one or more decimal
/// digits, of a value that fits in `usize`.
pub open spec fn digits_part(s: Seq<char>) -> Seq<char> {
    if s.len() > 0 && s[0] == '+' { s.subrange(1, s.len() as int) } else { s }
}

pub open spec fn all_digits(d: Seq<char>) -> bool {
    forall|i: int| 0 <= i < d.len() ==> is_digit(#[trigger] d[i])
}

pub open spec fn parse_usize_spec(s: Seq<char>) -> Option<usize> {
    let d = digits_part(s);
    if d.len() > 0 && all_digits(d) && digits_value(d) <= usize::MAX {
        Some(digits_value(d) as usize)
    } else {
        None
    }
}

/// Reads a `usize` as `parse_usize_spec` states.
pub fn parse_usize(s: &[char]) -> (r: Option<usize>)
    ensures
        r == parse_usize_spec(s@),
{
    let start: usize = if s.len() > 0 && s[0] == '+' { 1 } else { 0 };
    let ghost d = digits_part(s@);
    proof {
        if start == 0 {
            assert(s@.subrange(0, s@.len() as int) =~= s@);
        }
    }
    if start >= s.len() {
        return None;
    }
    let mut value: usize = 0;
    let mut overflow = false;
    let mut i = start;
    while i < s.len()
        invariant
            start <= i <= s@.len(),
            start < s@.len(),
            d == s@.subrange(start as int, s@.len() as int),
            d == digits_part(s@),
            forall|k: int| 0 <= k < i - start ==> is_digit(#[trigger] d[k]),
            !overflow ==> value == digits_value(d.subrange(0, i - start)),
            overflow ==> digits_value(d.subrange(0, i - start)) > usize::MAX,
        decreases s@.len() - i,
    {
        let c = s[i];
        assert(d[i - start] == c);
        if !('0' <= c && c <= '9') {
            assert(!is_digit(d[i - start]));
            assert(!all_digits(d));
            return None;
        }
        let dig = (c as u32 - '0' as u32) as usize;
        proof {
            assert(d.subrange(0, i - start + 1).drop_last() =~= d.subrange(0, i - start));
            assert(d.subrange(0, i - start + 1).last() == c);
        }
        if !overflow {
            if value > (usize::MAX - dig) / 10 {
                overflow = true;
                assert(value * 10 + dig > usize::MAX) by (nonlinear_arith)
                    requires
                        value > (usize::MAX - dig) / 10,
                        dig <= 9;
            } else {
                assert(value * 10 + dig <= usize::MAX) by (nonlinear_arith)
                    requires
                        value <= (usize::MAX - dig) / 10,
                        dig <= 9;
                value = value * 10 + dig;
            }
        }
        i = i + 1;
    }
    proof {
        assert(d.subrange(0, d.len() as int) =~= d);
    }
    if overflow {
        None
    } else {
        Some(value)
    }
}

/// Index of the first place at or after `i` where `p` stands in `s`, or `s.len()`.
pub open spec fn find_text_from(s: Seq<char>, p: Seq<char>, i: int) -> int
    decreases s.len() - i,
{
    if i < 0 || i + p.len() > s.len() {
        s.len() as int
    } else if p.len() == 0 || s.subrange(i, i + p.len()) == p {
        i
    } else {
        find_text_from(s, p, i + 1)
    }
}

pub proof fn lemma_find_text_from(s: Seq<char>, p: Seq<char>, i: int)
    requires
        0 <= i,
    ensures
        find_text_from(s, p, i) == s.len() || (i <= find_text_from(s, p, i) && find_text_from(s, p, i) + p.len() <= s.len()
            && s.subrange(find_text_from(s, p, i), find_text_from(s, p, i) + p.len()) == p),
    decreases s.len() - i,
{
    if i + p.len() <= s.len() && p.len() > 0 && s.subrange(i, i + p.len()) != p {
        lemma_find_text_from(s, p, i + 1);
    }
    if p.len() == 0 && i <= s.len() {
        assert(s.subrange(i, i) =~= p);
    }
}

/// Index of the first place at or after `from` where `p` stands in `s`, or `s.len()`.
pub fn find_text(s: &[char], p: &[char], from: usize) -> (r: usize)
    ensures
        r == find_text_from(s@, p@, from as int),
{
    let mut i = from;
    loop
        invariant
            from <= i,
            find_text_from(s@, p@, i as int) == find_text_from(s@, p@, from as int),
        decreases s@.len() + 1 - i,
    {
        if p.len() > s.len() || i > s.len() - p.len() {
            return s.len();
        }
        let piece = slice_chars(s, i, i + p.len());
        if p.len() == 0 || chars_eq(&piece, p) {
            return i;
        }
        i = i + 1;
    }
}


/// The decimal digit for `d < 10`.
pub open spec fn digit_char(d: nat) -> char {
    ((d + 48) as u8) as char
}

/// The decimal representation of `n`, without leading zeros.
pub open spec fn decimal(n: nat) -> Seq<char>
    decreases n,
{
    if n < 10 {
        seq![digit_char(n)]
    } else {
        decimal(n / 10).push(digit_char(n % 10))
    }
}

fn digit_char_exec(d: u64) -> (c: char)
    requires
        d < 10,
    ensures
        c == digit_char(d as nat),
{
    let digits = ['0', '1', '2', '3', '4', '5', '6', '7', '8', '9'];
    let c = digits[d as usize];
    proof {
        assert(digits@[d as int] == c);
        if d == 0 { assert(c == '0'); } else if d == 1 { assert(c == '1'); } else if d == 2 { assert(c == '2'); }
        else if d == 3 { assert(c == '3'); } else if d == 4 { assert(c == '4'); } else if d == 5 { assert(c == '5'); }
        else if d == 6 { assert(c == '6'); } else if d == 7 { assert(c == '7'); } else if d == 8 { assert(c == '8'); }
        else { assert(c == '9'); }
    }
    c
}

/// The decimal digits of `n`.
pub fn decimal_chars(n: u64) -> (r: Vec<char>)
    ensures
        r@ == decimal(n as nat),
    decreases n,
{
    if n < 10 {
        let mut v: Vec<char> = Vec::new();
        v.push(digit_char_exec(n));
        proof {
            assert(v@ =~= seq![digit_char(n as nat)]);
        }
        v
    } else {
        let mut v = decimal_chars(n / 10);
        v.push(digit_char_exec(n % 10));
        v
    }
}

/// `n` written in decimal.
pub fn u64_to_string(n: u64) -> (r: String)
    ensures
        r@ == decimal(n as nat),
{
    string_of(&decimal_chars(n))
}

/// The lines of `s` from index `start` on, as `str::lines` gives them up to a
/// trailing carriage return: pieces between newlines, without a last empty piece.
pub open spec fn lines_from(s: Seq<char>, start: int) -> Seq<Seq<char>>
    decreases s.len() - start,
{
    if start < 0 || start >= s.len() {
        Seq::empty()
    } else {
        let i = find_char_from(s, '\n', start);
        if i >= s.len() {
            seq![s.subrange(start, s.len() as int)]
        } else {
            proof {
                lemma_find_char_from(s, '\n', start);
            }
            seq![s.subrange(start, i)] + lines_from(s, i + 1)
        }
    }
}

/// The lines of `s` (see `lines_from`).
pub open spec fn text_lines(s: Seq<char>) -> Seq<Seq<char>> {
    lines_from(s, 0)
}

/// The lines of `v` (see `text_lines`).
pub fn lines_of(v: &[char]) -> (r: Vec<Vec<char>>)
    ensures
        r@.len() == text_lines(v@).len(),
        forall|k: int| 0 <= k < r@.len() ==> (#[trigger] r@[k])@ == text_lines(v@)[k],
{
    let mut out: Vec<Vec<char>> = Vec::new();
    let ghost mut done: Seq<Seq<char>> = Seq::empty();
    let mut pos: usize = 0;
    while pos < v.len()
        invariant
            pos <= v@.len(),
            out@.len() == done.len(),
            forall|k: int| 0 <= k < out@.len() ==> (#[trigger] out@[k])@ == done[k],
            done + lines_from(v@, pos as int) == text_lines(v@),
        decreases v@.len() - pos,
    {
        let i = find_char(v, '\n', pos);
        proof {
            lemma_find_char_from(v@, '\n', pos as int);
        }
        let piece = slice_chars(v, pos, i);
        out.push(piece);
        proof {
            let ghost before = done;
            done = done.push(piece@);
            assert(done + lines_from(v@, if i >= v@.len() { v@.len() as int } else { i + 1 }) =~= before + lines_from(v@, pos as int));
        }
        if i >= v.len() {
            pos = v.len();
        } else {
            pos = i + 1;
        }
    }
    proof {
        assert(done + lines_from(v@, pos as int) =~= done);
    }
    out
}

/// The value of an integer text as `str::parse` reads it for a signed type: an
/// optional `+` or `-`, then one or more decimal digits.
pub open spec fn signed_value(s: Seq<char>) -> Option<int> {
    if s.len() > 0 && (s[0] == '+' || s[0] == '-') {
        let d = s.subrange(1, s.len() as int);
        if d.len() > 0 && all_digits(d) {
            Some(if s[0] == '-' { -(digits_value(d) as int) } else { digits_value(d) as int })
        } else {
            None
        }
    } else if s.len() > 0 && all_digits(s) {
        Some(digits_value(s) as int)
    } else {
        None
    }
}

/// What `str::parse::<i64>()` gives: the value of the text when it fits.
pub open spec fn parse_i64_spec(s: Seq<char>) -> Option<i64> {
    match signed_value(s) {
        Some(v) => if i64::MIN <= v <= i64::MAX { Some(v as i64) } else { None },
        None => None,
    }
}

/// What `str::parse::<i32>()` gives: the value of the text when it fits.
pub open spec fn parse_i32_spec(s: Seq<char>) -> Option<i32> {
    match signed_value(s) {
        Some(v) => if i32::MIN <= v <= i32::MAX { Some(v as i32) } else { None },
        None => None,
    }
}

/// What `str::parse::<u32>()` gives: no `-` sign, and a value that fits.
pub open spec fn parse_u32_spec(s: Seq<char>) -> Option<u32> {
    if s.len() > 0 && s[0] == '-' {
        None
    } else {
        match signed_value(s) {
            Some(v) => if 0 <= v <= u32::MAX { Some(v as u32) } else { None },
            None => None,
        }
    }
}

/// The value of the digits `s[start..]` when they are one or more decimal digits
/// of a value at most `limit`.
fn digits_upto(s: &[char], start: usize, limit: u64) -> (r: Option<u64>)
    requires
        start <= s@.len(),
    ensures
        ({
            let d = s@.subrange(start as int, s@.len() as int);
            r == if d.len() > 0 && all_digits(d) && digits_value(d) <= limit {
                Some(digits_value(d) as u64)
            } else {
                None
            }
        }),
{
    let ghost d = s@.subrange(start as int, s@.len() as int);
    if start >= s.len() {
        return None;
    }
    let mut value: u64 = 0;
    let mut over = false;
    let mut i = start;
    while i < s.len()
        invariant
            start <= i <= s@.len(),
            start < s@.len(),
            d == s@.subrange(start as int, s@.len() as int),
            forall|k: int| 0 <= k < i - start ==> is_digit(#[trigger] d[k]),
            !over ==> value == digits_value(d.subrange(0, i - start)) && value <= limit,
            over ==> digits_value(d.subrange(0, i - start)) > limit,
        decreases s@.len() - i,
    {
        let c = s[i];
        assert(d[i - start] == c);
        if !('0' <= c && c <= '9') {
            assert(!is_digit(d[i - start]));
            return None;
        }
        let dig = (c as u32 - '0' as u32) as u64;
        proof {
            assert(d.subrange(0, i - start + 1).drop_last() =~= d.subrange(0, i - start));
            assert(d.subrange(0, i - start + 1).last() == c);
        }
        if !over {
            if dig > limit || value > (limit - dig) / 10 {
                over = true;
                assert(value * 10 + dig > limit) by (nonlinear_arith)
                    requires
                        dig > limit || value > (limit - dig) / 10,
                        dig <= 9;
            } else {
                assert(value * 10 + dig <= limit) by (nonlinear_arith)
                    requires
                        value <= (limit - dig) / 10,
                        dig <= limit,
                        dig <= 9;
                value = value * 10 + dig;
            }
        } else {
            assert(digits_value(d.subrange(0, i - start + 1)) >= digits_value(d.subrange(0, i - start))) by (nonlinear_arith)
                requires
                    digits_value(d.subrange(0, i - start + 1)) == digits_value(d.subrange(0, i - start)) * 10 + dig;
        }
        i = i + 1;
    }
    proof {
        assert(d.subrange(0, d.len() as int) =~= d);
    }
    if over {
        None
    } else {
        Some(value)
    }
}

/// Reads an `i64` as `parse_i64_spec` states.
pub fn parse_i64(s: &[char]) -> (r: Option<i64>)
    ensures
        r == parse_i64_spec(s@),
{
    if s.len() > 0 && (s[0] == '+' || s[0] == '-') {
        let neg = s[0] == '-';
        let limit: u64 = if neg { 9223372036854775808 } else { 9223372036854775807 };
        match digits_upto(s, 1, limit) {
            Some(m) => if neg {
                if m == 9223372036854775808 {
                    Some(i64::MIN)
                } else {
                    Some(0 - (m as i64))
                }
            } else {
                Some(m as i64)
            },
            None => None,
        }
    } else {
        proof {
            assert(s@.subrange(0, s@.len() as int) =~= s@);
        }
        match digits_upto(s, 0, 9223372036854775807) {
            Some(m) => Some(m as i64),
            None => None,
        }
    }
}

/// Reads an `i32` as `parse_i32_spec` states.
pub fn parse_i32(s: &[char]) -> (r: Option<i32>)
    ensures
        r == parse_i32_spec(s@),
{
    match parse_i64(s) {
        Some(v) => if -2147483648 <= v && v <= 2147483647 { Some(v as i32) } else { None },
        None => None,
    }
}

/// Reads a `u32` as `parse_u32_spec` states.
pub fn parse_u32(s: &[char]) -> (r: Option<u32>)
    ensures
        r == parse_u32_spec(s@),
{
    if s.len() > 0 && s[0] == '-' {
        return None;
    }
    match parse_i64(s) {
        Some(v) => if 0 <= v && v <= 4294967295 { Some(v as u32) } else { None },
        None => None,
    }
}

/// `a` comes before `b` in the order of `String`: character by character by code
/// point, a proper prefix first.
pub open spec fn text_lt(a: Seq<char>, b: Seq<char>) -> bool
    decreases a.len(),
{
    if a.len() == 0 {
        b.len() > 0
    } else if b.len() == 0 {
        false
    } else if a[0] != b[0] {
        a[0] < b[0]
    } else {
        text_lt(a.drop_first(), b.drop_first())
    }
}

/// No text comes before itself.
pub proof fn lemma_text_lt_irreflexive(a: Seq<char>)
    ensures
        !text_lt(a, a),
    decreases a.len(),
{
    if a.len() > 0 {
        lemma_text_lt_irreflexive(a.drop_first());
    }
}

/// Of two different texts exactly one comes first.
pub proof fn lemma_text_lt_total(a: Seq<char>, b: Seq<char>)
    ensures
        text_lt(a, b) ==> !text_lt(b, a),
        a != b ==> text_lt(a, b) || text_lt(b, a),
    decreases a.len(),
{
    if a.len() == 0 && b.len() == 0 {
        assert(a =~= b);
    } else if a.len() > 0 && b.len() > 0 {
        lemma_text_lt_total(a.drop_first(), b.drop_first());
        if a[0] == b[0] && a != b {
            assert(a.drop_first() != b.drop_first()) by {
                if a.drop_first() == b.drop_first() {
                    assert(a =~= seq![a[0]] + a.drop_first());
                    assert(b =~= seq![b[0]] + b.drop_first());
                }
            }
        }
    }
}

/// The order of texts is transitive.
pub proof fn lemma_text_lt_transitive(a: Seq<char>, b: Seq<char>, c: Seq<char>)
    requires
        text_lt(a, b),
        text_lt(b, c),
    ensures
        text_lt(a, c),
    decreases a.len(),
{
    if a.len() > 0 && b.len() > 0 && c.len() > 0 && a[0] == b[0] && b[0] == c[0] {
        lemma_text_lt_transitive(a.drop_first(), b.drop_first(), c.drop_first());
    }
}

/// The order of texts is a strict total order.
pub proof fn lemma_text_lt_order(a: Seq<char>, b: Seq<char>, c: Seq<char>)
    ensures
        !text_lt(a, a),
        text_lt(a, b) ==> !text_lt(b, a),
        a != b ==> text_lt(a, b) || text_lt(b, a),
        text_lt(a, b) && text_lt(b, c) ==> text_lt(a, c),
{
    lemma_text_lt_irreflexive(a);
    lemma_text_lt_total(a, b);
    if text_lt(a, b) && text_lt(b, c) {
        lemma_text_lt_transitive(a, b, c);
    }
}

/// Whether `a` comes before `b` (see `text_lt`).
pub fn text_less(a: &[char], b: &[char]) -> (r: bool)
    ensures
        r == text_lt(a@, b@),
{
    proof {
        assert(a@.subrange(0, a@.len() as int) =~= a@);
        assert(b@.subrange(0, b@.len() as int) =~= b@);
    }
    let mut i: usize = 0;
    while i < a.len() && i < b.len() && a[i] == b[i]
        invariant
            i <= a@.len(),
            i <= b@.len(),
            text_lt(a@, b@) == text_lt(a@.subrange(i as int, a@.len() as int), b@.subrange(i as int, b@.len() as int)),
        decreases a@.len() - i,
    {
        proof {
            assert(a@.subrange(i as int, a@.len() as int).drop_first() =~= a@.subrange(i + 1, a@.len() as int));
            assert(b@.subrange(i as int, b@.len() as int).drop_first() =~= b@.subrange(i + 1, b@.len() as int));
        }
        i = i + 1;
    }
    proof {
        assert(a@.subrange(0, a@.len() as int) =~= a@);
        assert(b@.subrange(0, b@.len() as int) =~= b@);
    }
    if i < a.len() && i < b.len() {
        a[i] < b[i]
    } else {
        i >= a.len() && i < b.len()
    }
}

/// `s` is in ascending order of texts.
pub open spec fn texts_sorted(s: Seq<Seq<char>>) -> bool {
    forall|i: int, j: int| 0 <= i < j < s.len() ==> !text_lt(#[trigger] s[j], #[trigger] s[i])
}

/// The texts of the strings `v`.
pub open spec fn views(v: Seq<String>) -> Seq<Seq<char>> {
    v.map_values(|t: String| t@)
}

/// `v` in ascending order of texts, as `Vec::sort` puts strings; equal texts
/// keep their count.
pub fn sort_texts(v: Vec<String>) -> (r: Vec<String>)
    ensures
        texts_sorted(views(r@)),
        views(r@).to_multiset() == views(v@).to_multiset(),
{
    let mut out: Vec<String> = Vec::new();
    let mut rest = v;
    let ghost orig = rest@;
    proof {
        assert(views(out@) =~= Seq::<Seq<char>>::empty());
        assert(views(orig).subrange(0, 0) =~= Seq::<Seq<char>>::empty());
    }
    let mut src: Vec<String> = Vec::new();
    while rest.len() > 0
        invariant
            rest@.len() + src@.len() == orig.len(),
            views(src@) + views(rest@) == views(orig),
            texts_sorted(views(out@)),
            views(out@).to_multiset() == views(src@).to_multiset(),
        decreases rest@.len(),
    {
        let x = rest.remove(0);
        let xc = chars_of(x.as_str());
        let mut p: usize = 0;
        while p < out.len() && !text_less(&xc, &chars_of(out[p].as_str()))
            invariant
                p <= out@.len(),
                xc@ == x@,
                forall|q: int| 0 <= q < p ==> !text_lt(x@, #[trigger] views(out@)[q]),
            decreases out@.len() - p,
        {
            p = p + 1;
        }
        let ghost before = views(out@);
        let ghost src_before = views(src@);
        proof {
            assert forall|q: int| 0 <= q < p implies !text_lt(x@, #[trigger] before[q]) by {}
            if p < before.len() {
                assert(text_lt(x@, before[p as int]));
            }
        }
        out.insert(p, x.clone());
        src.push(x);
        proof {
            assert(views(out@) =~= before.insert(p as int, x@));
            assert(views(src@) =~= src_before.push(x@));
            vstd::seq_lib::to_multiset_insert(before, p as int, x@);
            vstd::seq_lib::to_multiset_build(src_before, x@);
            assert forall|i: int, j: int| 0 <= i < j < views(out@).len() implies !text_lt(#[trigger] views(out@)[j], #[trigger] views(out@)[i]) by {
                let o = views(out@);
                if j < p {
                    assert(o[i] == before[i] && o[j] == before[j]);
                } else if j == p {
                    assert(o[j] == x@ && o[i] == before[i]);
                    lemma_text_lt_order(x@, before[i], x@);
                } else if i == p {
                    assert(o[i] == x@ && o[j] == before[j - 1]);
                    assert(text_lt(x@, before[p as int]));
                    if p < j - 1 {
                        lemma_text_lt_order(before[j - 1], before[p as int], before[j - 1]);
                        lemma_text_lt_order(x@, before[p as int], before[j - 1]);
                        lemma_text_lt_order(before[j - 1], x@, before[p as int]);
                        if before[j - 1] != before[p as int] {
                            assert(text_lt(before[p as int], before[j - 1]));
                        }
                    }
                    lemma_text_lt_order(x@, before[j - 1], x@);
                } else if i < p {
                    assert(o[i] == before[i] && o[j] == before[j - 1]);
                } else {
                    assert(o[i] == before[i - 1] && o[j] == before[j - 1]);
                }
            }
        }
    }
    proof {
        assert(views(src@) =~= views(orig));
    }
    out
}

/// What `Path::join` gives: an absolute component replaces the base (as does any
/// component joined to an empty base), otherwise the two are joined with one separator.
pub open spec fn path_join(base: Seq<char>, component: Seq<char>) -> Seq<char> {
    if (component.len() > 0 && component[0] == '/') || base.len() == 0 {
        component
    } else if base.last() == '/' {
        base + component
    } else {
        base + "/"@ + component
    }
}

/// `base` joined with `component` as `Path::join` does (see `path_join`).
pub fn join_path(base: &str, component: &str) -> (r: String)
    ensures
        r@ == path_join(base@, component@),
{
    let c = chars_of(component);
    let b = chars_of(base);
    if (c.len() > 0 && c[0] == '/') || b.len() == 0 {
        return string_of(&c);
    }
    let mut out = string_of(&b);
    if b[b.len() - 1] != '/' {
        out.append("/");
    }
    out.append(component);
    out
}

/// A text that neither begins nor ends with white space is its own trim.
pub proof fn lemma_trim_unpadded(s: Seq<char>)
    requires
        s.len() > 0 ==> !spec_is_ws(s[0]) && !spec_is_ws(s[s.len() - 1]),
    ensures
        trim(s) == s,
{
    assert(s.subrange(0, s.len() as int) =~= s);
}

/// `s` from `i` on with every occurrence of `p` (found left to right, without
/// overlap) replaced by `r`, as `str::replace` does for a non-empty `p`.
pub open spec fn replace_from(s: Seq<char>, p: Seq<char>, r: Seq<char>, i: int) -> Seq<char>
    decreases s.len() - i,
{
    if i < 0 || i >= s.len() || p.len() == 0 {
        if 0 <= i < s.len() { s.subrange(i, s.len() as int) } else { Seq::empty() }
    } else {
        let j = find_text_from(s, p, i);
        if j >= s.len() {
            s.subrange(i, s.len() as int)
        } else {
            proof {
                lemma_find_text_from(s, p, i);
            }
            s.subrange(i, j) + r + replace_from(s, p, r, j + p.len())
        }
    }
}

/// `s` with every occurrence of `p` replaced by `r` (see `replace_from`).
pub open spec fn replace_all(s: Seq<char>, p: Seq<char>, r: Seq<char>) -> Seq<char> {
    replace_from(s, p, r, 0)
}

/// `s` with every occurrence of the non-empty `p` replaced by `r` (see `replace_all`).
pub fn replace_text(s: &str, p: &str, r: &str) -> (out: String)
    requires
        p@.len() > 0,
    ensures
        out@ == replace_all(s@, p@, r@),
{
    let v = chars_of(s);
    let pv = chars_of(p);
    let mut out = String::new();
    let mut i: usize = 0;
    proof {
        assert(out@ + replace_from(v@, pv@, r@, 0) =~= replace_all(s@, p@, r@));
    }
    while i < v.len()
        invariant
            i <= v@.len(),
            v@ == s@,
            pv@ == p@,
            p@.len() > 0,
            out@ + replace_from(v@, pv@, r@, i as int) == replace_all(s@, p@, r@),
        decreases v@.len() - i,
    {
        let j = find_text(&v, &pv, i);
        proof {
            lemma_find_text_from(v@, pv@, i as int);
        }
        let ghost before = out@;
        if j >= v.len() {
            out.append(string_of(&slice_chars(&v, i, v.len())).as_str());
            proof {
                assert(out@ + replace_from(v@, pv@, r@, v@.len() as int) =~= before + replace_from(v@, pv@, r@, i as int));
            }
            i = v.len();
        } else {
            out.append(string_of(&slice_chars(&v, i, j)).as_str());
            out.append(r);
            proof {
                assert(out@ + replace_from(v@, pv@, r@, j + pv@.len()) =~= before + replace_from(v@, pv@, r@, i as int));
            }
            i = j + pv.len();
        }
    }
    proof {
        assert(out@ + replace_from(v@, pv@, r@, i as int) =~= out@);
    }
    out
}

/// `s` without trailing white space (see `trim_end`).
pub fn trim_end_chars(s: &[char]) -> (res: Vec<char>)
    ensures
        res@ == trim_end(s@),
{
    let mut j: usize = s.len();
    while j > 0 && is_ws(s[j - 1])
        invariant
            j <= s@.len(),
            ws_back(s@, j as int) == ws_back(s@, s@.len() as int),
        decreases j,
    {
        j = j - 1;
    }
    slice_chars(s, 0, j)
}

/// A trimmed text that is not empty begins with a character that is not white
/// space, and so has a first word.
pub proof fn lemma_words_nonempty(s: Seq<char>)
    requires
        trim(s).len() > 0,
    ensures
        !spec_is_ws(trim(s)[0]),
        words(trim(s)).len() > 0,
{
    let a = ws_skip(s, 0);
    lemma_ws_skip_bounds(s, 0);
    let st = trim_start(s);
    lemma_ws_back_bounds(st, st.len() as int);
    assert(trim(s)[0] == st[0]);
    assert(st[0] == s[a]);
    let t = trim(s);
    lemma_ws_skip_bounds(t, 0);
    lemma_ws_find_from(t, 0);
    lemma_ws_find_from(t, 1);
    assert(ws_skip(t, 0) == 0);
    assert(ws_find_from(t, 0) == ws_find_from(t, 1));
}

/// The number of bytes `c` takes in UTF-8.
pub open spec fn utf8_width(c: char) -> nat {
    if (c as int) < 0x80 {
        1
    } else if (c as int) < 0x800 {
        2
    } else if (c as int) < 0x10000 {
        3
    } else {
        4
    }
}

/// The number of bytes `s` takes in UTF-8.
pub open spec fn utf8_len(s: Seq<char>) -> nat
    decreases s.len(),
{
    if s.len() == 0 { 0 } else { utf8_len(s.drop_last()) + utf8_width(s.last()) }
}

/// A text takes at least as many UTF-8 bytes as it has characters, and exactly
/// as many only when every character is ASCII.
pub proof fn lemma_utf8_len_at_least(s: Seq<char>)
    ensures
        utf8_len(s) >= s.len(),
        utf8_len(s) == s.len() ==> forall|i: int| 0 <= i < s.len() ==> (#[trigger] s[i] as int) < 0x80,
    decreases s.len(),
{
    if s.len() > 0 {
        lemma_utf8_len_at_least(s.drop_last());
        assert forall|i: int| 0 <= i < s.len() && utf8_len(s) == s.len() implies (#[trigger] s[i] as int) < 0x80 by {
            if i < s.len() - 1 {
                assert(s.drop_last()[i] == s[i]);
            }
        }
    }
}

/// Lower-casing ASCII letters twice is lower-casing them once.
pub proof fn lemma_ascii_lower_twice(s: Seq<char>)
    ensures
        ascii_lower(ascii_lower(s)) == ascii_lower(s),
{
    assert(ascii_lower(ascii_lower(s)) =~= ascii_lower(s));
}

fn lower_char_exec(c: char) -> (r: char)
    ensures
        r == lower_char(c),
{
    if 'A' <= c && c <= 'Z' {
        ((c as u8) + 32) as char
    } else {
        c
    }
}

/// `s` with its ASCII letters in lower case (see `ascii_lower`), as
/// `str::to_ascii_lowercase` gives it.
pub fn to_ascii_lowercase(s: &str) -> (r: String)
    ensures
        r@ == ascii_lower(s@),
{
    let v = chars_of(s);
    let mut out: Vec<char> = Vec::new();
    let mut i: usize = 0;
    while i < v.len()
        invariant
            i <= v@.len(),
            out@ == ascii_lower(v@.take(i as int)),
        decreases v@.len() - i,
    {
        out.push(lower_char_exec(v[i]));
        i += 1;
        proof {
            assert(out@ =~= ascii_lower(v@.take(i as int)));
        }
    }
    proof {
        assert(v@.take(v@.len() as int) =~= v@);
    }
    string_of(&out)
}

/// The pieces of `s` between `/` separators, from index `start` on.
pub open spec fn slash_pieces(s: Seq<char>, start: int) -> Seq<Seq<char>>
    decreases s.len() + 1 - start,
{
    if start < 0 || start > s.len() {
        seq![]
    } else {
        let j = find_char_from(s, '/', start);
        proof {
            lemma_find_char_from(s, '/', start);
        }
        seq![s.subrange(start, j)] + slash_pieces(s, j + 1)
    }
}

/// The normal components among `ps`, joined by `/`: every piece but an empty
/// one or `.`.
pub open spec fn joined_components(ps: Seq<Seq<char>>) -> Seq<char>
    decreases ps.len(),
{
    if ps.len() == 0 {
        seq![]
    } else {
        let init = joined_components(ps.drop_last());
        let p = ps.last();
        if p.len() == 0 || p == "."@ {
            init
        } else if init.len() == 0 {
            p
        } else {
            init + "/"@ + p
        }
    }
}

/// The text that stands for the components `std::path::Path` sees in a
/// `/`-separated path: a leading `/` for the root, a leading `.` where the path
/// starts with it, then the other pieces that are neither empty nor `.`, joined
/// by `/`. Two paths compare equal as `Path`s exactly when these texts are equal.
pub open spec fn path_key(s: Seq<char>) -> Seq<char> {
    let ps = slash_pieces(s, 0);
    let body = joined_components(ps);
    if s.len() > 0 && s[0] == '/' {
        "/"@ + body
    } else if ps[0] == "."@ {
        if body.len() == 0 {
            "."@
        } else {
            "./"@ + body
        }
    } else {
        body
    }
}

/// The text of `path_key` for `path`.
pub fn path_key_of(path: &str) -> (r: String)
    ensures
        r@ == path_key(path@),
{
    let v = chars_of(path);
    let dot = chars_of(".");
    proof {
        reveal_strlit(".");
        reveal_strlit("/");
        reveal_strlit("./");
        assert(v@.subrange(0, 0) =~= Seq::<char>::empty());
    }
    let mut pieces: Vec<Vec<char>> = Vec::new();
    let mut start: usize = 0;
    let mut more = true;
    let ghost all = slash_pieces(v@, 0);
    proof {
        assert(Seq::<Seq<char>>::empty() + slash_pieces(v@, 0) =~= all);
    }
    while more
        invariant
            start <= v@.len(),
            all == slash_pieces(v@, 0),
            more ==> pieces@.map_values(|p: Vec<char>| p@) + slash_pieces(v@, start as int) == all,
            !more ==> pieces@.map_values(|p: Vec<char>| p@) == all,
        decreases v@.len() + 1 - start, if more { 1int } else { 0int },
    {
        let ghost before = pieces@.map_values(|p: Vec<char>| p@);
        let j = find_char(&v, '/', start);
        proof {
            lemma_find_char_from(v@, '/', start as int);
        }
        let piece = slice_chars(&v, start, j);
        pieces.push(piece);
        proof {
            assert(pieces@.map_values(|p: Vec<char>| p@) =~= before.push(v@.subrange(start as int, j as int)));
            assert(before + slash_pieces(v@, start as int) == before + (seq![v@.subrange(start as int, j as int)] + slash_pieces(v@, j + 1)));
            assert(before.push(v@.subrange(start as int, j as int)) + slash_pieces(v@, j + 1)
                =~= before + (seq![v@.subrange(start as int, j as int)] + slash_pieces(v@, j + 1)));
        }
        if j < v.len() {
            start = j + 1;
        } else {
            proof {
                assert(slash_pieces(v@, j + 1) =~= Seq::<Seq<char>>::empty());
                assert(pieces@.map_values(|p: Vec<char>| p@) =~= before.push(v@.subrange(start as int, j as int)) + slash_pieces(v@, j + 1));
            }
            more = false;
        }
    }
    proof {
        assert(all.len() > 0) by {
            lemma_find_char_from(v@, '/', 0);
        }
    }
    let ghost pv = all;
    let mut body: Vec<char> = Vec::new();
    let mut i: usize = 0;
    while i < pieces.len()
        invariant
            i <= pieces@.len(),
            pv == pieces@.map_values(|p: Vec<char>| p@),
            dot@ == "."@,
            body@ == joined_components(pv.take(i as int)),
        decreases pieces@.len() - i,
    {
        proof {
            assert(pv.take(i + 1).drop_last() =~= pv.take(i as int));
            assert(pv.take(i + 1).last() == pieces@[i as int]@);
        }
        let p = &pieces[i];
        if p.len() > 0 && !chars_eq(p, &dot) {
            proof {
                reveal_strlit("/");
            }
            if body.len() > 0 {
                body.push('/');
            }
            let ghost b0 = body@;
            body = concat_chars(&body, p);
            proof {
                if b0.len() > 0 {
                    assert(b0 == joined_components(pv.take(i as int)).push('/'));
                    assert(body@ =~= joined_components(pv.take(i as int)) + "/"@ + pieces@[i as int]@);
                } else {
                    assert(body@ =~= pieces@[i as int]@);
                }
            }
        }
        i += 1;
    }
    proof {
        assert(pv.take(pieces@.len() as int) =~= pv);
        assert(pv[0] == pieces@[0]@);
    }
    let mut out: Vec<char> = Vec::new();
    if v.len() > 0 && v[0] == '/' {
        out.push('/');
        out = concat_chars(&out, &body);
        proof {
            assert(out@ =~= "/"@ + body@);
        }
    } else if chars_eq(&pieces[0], &dot) {
        out.push('.');
        if body.len() > 0 {
            out.push('/');
            out = concat_chars(&out, &body);
            proof {
                assert(out@ =~= "./"@ + body@);
            }
        } else {
            proof {
                assert(out@ =~= "."@);
            }
        }
    } else {
        out = body;
    }
    string_of(&out)
}

} // verus!
