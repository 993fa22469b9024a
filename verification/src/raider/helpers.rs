//! Text helpers of the agent front end: tails of long tool output, digit grouping,
//! the LSP placeholder of the sidebar.
use vstd::prelude::*;
use vstd::string::*;
use vstd::utf8::{decode_utf8, encode_utf8, is_char_boundary};
use crate::text::{decimal, decimal_chars, push_char, string_of};

verus! {

/// The first character boundary of `bytes` at or after `i`.
pub open spec fn first_boundary_from(bytes: Seq<u8>, i: int) -> int
    decreases bytes.len() - i,
{
    if i >= bytes.len() || i < 0 || is_char_boundary(bytes, i) {
        i
    } else {
        first_boundary_from(bytes, i + 1)
    }
}

proof fn lemma_first_boundary_from(bytes: Seq<u8>, i: int)
    requires
        0 <= i <= bytes.len(),
        vstd::utf8::valid_utf8(bytes),
    ensures
        i <= first_boundary_from(bytes, i) <= bytes.len(),
        is_char_boundary(bytes, first_boundary_from(bytes, i)),
    decreases bytes.len() - i,
{
    broadcast use vstd::utf8::group_utf8_lib;
    if i < bytes.len() && !is_char_boundary(bytes, i) {
        lemma_first_boundary_from(bytes, i + 1);
    }
}

/// At most the last `max` bytes of `t`: `t` itself when it is short enough,
/// otherwise `...` and a newline before the text from the first character
/// boundary at or after `len - max`.
pub open spec fn tail_view(t: Seq<char>, max: nat) -> Seq<char> {
    let bytes = encode_utf8(t);
    if bytes.len() <= max {
        t
    } else {
        "...\n"@ + decode_utf8(bytes.subrange(first_boundary_from(bytes, bytes.len() - max), bytes.len() as int))
    }
}

/// At most the last `max_bytes` bytes of `text`: the text itself when it is short
/// enough, otherwise `...` and a newline before the text from the first character
/// boundary at or after `len - max_bytes` (so no character is split).
pub fn tail_bytes(text: &str, max_bytes: usize) -> (r: String)
    ensures
        r@ == tail_view(text@, max_bytes as nat),
{
    broadcast use vstd::utf8::group_utf8_lib;
    let raw = text.as_bytes();
    let n = raw.len();
    let ghost bytes = encode_utf8(text@);
    assert(text.spec_bytes() == bytes);
    assert(raw@ == bytes);
    if n <= max_bytes {
        return String::from_str(text);
    }
    let start = n - max_bytes;
    proof {
        lemma_first_boundary_from(bytes, start as int);
    }
    let mut boundary = start;
    while boundary < n && !text.is_char_boundary(boundary)
        invariant
            bytes == text.spec_bytes(),
            n == bytes.len(),
            start <= boundary <= n,
            vstd::utf8::valid_utf8(bytes),
            first_boundary_from(bytes, boundary as int) == first_boundary_from(bytes, start as int),
        decreases n - boundary,
    {
        boundary = boundary + 1;
    }
    proof {
        lemma_first_boundary_from(bytes, boundary as int);
    }
    let (_, tail) = text.split_at(boundary);
    proof {
        assert(tail.spec_bytes() == bytes.subrange(boundary as int, n as int));
        assert(decode_utf8(encode_utf8(tail@)) == tail@);
    }
    let mut out = String::from_str("...\n");
    out.append(tail);
    out
}

/// `n` in decimal, with a `,` between groups of three digits (`1234567` gives
/// `1,234,567`).
pub fn format_thousands(n: u64) -> (r: String)
    ensures
        r@ == insert_commas(decimal(n as nat)),
{
    let digits = decimal_chars(n);
    let len = digits.len();
    let mut out = String::new();
    let mut i: usize = 0;
    while i < len
        invariant
            len == digits@.len(),
            i <= len,
            out@ == commas_prefix(digits@, i as int),
        decreases len - i,
    {
        if i > 0 && (len - i) % 3 == 0 {
            push_char(&mut out, ',');
        }
        push_char(&mut out, digits[i]);
        proof {
            assert(out@ == commas_prefix(digits@, i + 1));
        }
        i = i + 1;
    }
    out
}

/// The first `i` digits of `d`, each preceded by a comma when it is not the first
/// and the number of digits from it to the end of `d` is a multiple of three.
pub open spec fn commas_prefix(d: Seq<char>, i: int) -> Seq<char>
    decreases i,
{
    if i <= 0 || i > d.len() {
        seq![]
    } else {
        commas_prefix(d, i - 1) + (if i - 1 > 0 && (d.len() - (i - 1)) % 3 == 0 { seq![','] } else { seq![] }) + seq![d[i - 1]]
    }
}

/// `d` with commas inserted as `commas_prefix` states.
pub open spec fn insert_commas(d: Seq<char>) -> Seq<char> {
    commas_prefix(d, d.len() as int)
}

/// The sidebar's LSP placeholder: what is shown when no language server runs yet.
pub fn lsp_placeholder(lsp_enabled: bool) -> (r: &'static str)
    ensures
        r@ == (if lsp_enabled { "LSPs will activate as files are read"@ } else { "LSPs are disabled"@ }),
{
    if lsp_enabled {
        "LSPs will activate as files are read"
    } else {
        "LSPs are disabled"
    }
}

} // verus!
