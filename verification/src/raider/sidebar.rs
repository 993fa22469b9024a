//! The token counts the sidebar shows: how much of the context window the last
//! assistant message used, how many tokens a message produced, and counts
//! written compactly (`1.5K`, `2M`).
use vstd::prelude::*;
use vstd::string::*;
use crate::text::{chars_of, decimal, decimal_chars, digit_char, has_suffix, slice_chars, string_of, u64_to_string};
use crate::raider::json::{as_members, as_text, as_unsigned, lookup, lookup_in, member, member_of, members_of, text_of, unsigned_of, Json};
use crate::raider::mirror::MessageRole;

verus! {

/// A message as the sidebar reads it: who wrote it and its other fields.
#[derive(Debug)]
pub struct MessageInfo {
    pub role: MessageRole,
    pub extra: Vec<(String, Json)>,
}

/// The context the last assistant message used: its tokens, and the provider
/// and model it was sent to.
#[derive(Debug, PartialEq, Eq)]
pub struct LastAssistantContext {
    pub tokens: u64,
    pub provider_id: Option<String>,
    pub model_id: Option<String>,
}

/// A whole-number field of an object that may be missing; zero when absent.
pub open spec fn count_of(m: Option<Seq<(String, Json)>>, key: Seq<char>) -> nat {
    match as_unsigned(lookup(m, key)) {
        Some(n) => n as nat,
        None => 0,
    }
}

/// The `tokens` object of a message.
pub open spec fn tokens_of(extra: Seq<(String, Json)>) -> Option<Seq<(String, Json)>> {
    as_members(member(extra, "tokens"@))
}

/// The tokens a message's context held: its input, output and reasoning tokens
/// and the tokens read from and written to the cache.
pub open spec fn context_tokens(t: Seq<(String, Json)>) -> nat {
    let cache = as_members(member(t, "cache"@));
    count_of(Some(t), "input"@) + count_of(Some(t), "output"@) + count_of(Some(t), "reasoning"@)
        + count_of(cache, "read"@) + count_of(cache, "write"@)
}

/// Whether a message counts for the context window: an assistant message with
/// a `tokens` object and some output.
pub open spec fn counts_for_context(m: MessageInfo) -> bool {
    m.role == MessageRole::Assistant && tokens_of(m.extra@) is Some && count_of(tokens_of(m.extra@), "output"@) != 0
}

/// The index of the last message before `end` that counts for the context
/// window, or -1.
pub open spec fn last_counting(ms: Seq<MessageInfo>, end: int) -> int
    decreases end,
{
    if end <= 0 {
        -1
    } else if counts_for_context(ms[end - 1]) {
        end - 1
    } else {
        last_counting(ms, end - 1)
    }
}

proof fn lemma_last_counting(ms: Seq<MessageInfo>, end: int)
    requires
        0 <= end <= ms.len(),
    ensures
        -1 <= last_counting(ms, end) < end,
        last_counting(ms, end) >= 0 ==> counts_for_context(ms[last_counting(ms, end)]),
    decreases end,
{
    if end > 0 && !counts_for_context(ms[end - 1]) {
        lemma_last_counting(ms, end - 1);
    }
}

/// The context a message used counts every token field it gives: where its
/// `tokens` object `t` holds the whole numbers `input`, `output` and `reasoning`,
/// and its `cache` object the whole numbers `read` and `write`, the context is
/// their sum.
pub proof fn law_context_sums_every_token_field(
    t: Seq<(String, Json)>,
    cache: Seq<(String, Json)>,
    input: u64,
    output: u64,
    reasoning: u64,
    read: u64,
    write: u64,
)
    requires
        as_unsigned(member(t, "input"@)) == Some(input),
        as_unsigned(member(t, "output"@)) == Some(output),
        as_unsigned(member(t, "reasoning"@)) == Some(reasoning),
        as_members(member(t, "cache"@)) == Some(cache),
        as_unsigned(member(cache, "read"@)) == Some(read),
        as_unsigned(member(cache, "write"@)) == Some(write),
    ensures
        context_tokens(t) == input + output + reasoning + read + write,
{
}

fn count_in(m: Option<&Vec<(String, Json)>>, key: &str) -> (r: u64)
    ensures
        r as nat == count_of(match m {
            Some(es) => Some(es@),
            None => None,
        }, key@),
{
    match unsigned_of(lookup_in(m, key)) {
        Some(n) => n,
        None => 0,
    }
}

/// The context the last assistant message with output used (see
/// `last_counting` and `context_tokens`), when there is one; the sum must fit
/// in 64 bits.
pub fn last_assistant_context_window(messages: &[MessageInfo]) -> (r: Option<LastAssistantContext>)
    requires
        last_counting(messages@, messages@.len() as int) >= 0 ==> context_tokens(
            tokens_of(messages@[last_counting(messages@, messages@.len() as int)].extra@)->0,
        ) <= u64::MAX,
    ensures
        ({
            let i = last_counting(messages@, messages@.len() as int);
            if i < 0 {
                r is None
            } else {
                let m = messages@[i];
                r matches Some(c) && c.tokens == context_tokens(tokens_of(m.extra@)->0) && match as_text(
                    member(m.extra@, "providerID"@),
                ) {
                    Some(t) => c.provider_id matches Some(p) && p@ == t,
                    None => c.provider_id is None,
                } && match as_text(member(m.extra@, "modelID"@)) {
                    Some(t) => c.model_id matches Some(p) && p@ == t,
                    None => c.model_id is None,
                }
            }
        }),
{
    proof {
        lemma_last_counting(messages@, messages@.len() as int);
    }
    let mut end: usize = messages.len();
    while end > 0
        invariant
            end <= messages@.len(),
            last_counting(messages@, end as int) == last_counting(messages@, messages@.len() as int),
            last_counting(messages@, messages@.len() as int) >= 0 ==> context_tokens(
                tokens_of(messages@[last_counting(messages@, messages@.len() as int)].extra@)->0,
            ) <= u64::MAX,
        decreases end,
    {
        let entry = &messages[end - 1];
        let is_assistant = match entry.role {
            MessageRole::Assistant => true,
            _ => false,
        };
        if is_assistant {
            if let Some(tokens) = members_of(member_of(&entry.extra, "tokens")) {
                let output = count_in(Some(tokens), "output");
                if output != 0 {
                    let input = count_in(Some(tokens), "input");
                    let reasoning = count_in(Some(tokens), "reasoning");
                    let cache = members_of(member_of(tokens, "cache"));
                    let cache_read = count_in(cache, "read");
                    let cache_write = count_in(cache, "write");
                    let total = input + output + reasoning + cache_read + cache_write;
                    let provider_id = text_of(member_of(&entry.extra, "providerID"));
                    let model_id = text_of(member_of(&entry.extra, "modelID"));
                    return Some(LastAssistantContext { tokens: total, provider_id, model_id });
                }
            }
        }
        end = end - 1;
    }
    None
}

/// The tokens a message produced: its output and reasoning tokens (adding up
/// to at most the largest `u64`), or nothing when it has no `tokens` object or
/// they add up to zero.
pub fn message_output_tokens(extra: &Vec<(String, Json)>) -> (r: Option<u64>)
    ensures
        match tokens_of(extra@) {
            Some(t) => {
                let total = count_of(Some(t), "output"@) + count_of(Some(t), "reasoning"@);
                if total == 0 {
                    r is None
                } else if total > u64::MAX {
                    r == Some(u64::MAX)
                } else {
                    r == Some(total as u64)
                }
            },
            None => r is None,
        },
{
    let tokens = match members_of(member_of(extra, "tokens")) {
        Some(t) => t,
        None => {
            return None;
        },
    };
    let output = count_in(Some(tokens), "output");
    let reasoning = count_in(Some(tokens), "reasoning");
    let total = output.saturating_add(reasoning);
    if total == 0 {
        None
    } else {
        Some(total)
    }
}

/// A compact count without a trailing `.0` before its unit: `12.0K` becomes
/// `12K`, `2.0M` becomes `2M`; anything else stays.
pub open spec fn without_trailing_zero(s: Seq<char>) -> Seq<char> {
    if has_suffix(s, ".0K"@) {
        s.subrange(0, s.len() - 3) + "K"@
    } else if has_suffix(s, ".0M"@) {
        s.subrange(0, s.len() - 3) + "M"@
    } else {
        s
    }
}

/// Drops the trailing `.0` of a compact count (see `without_trailing_zero`).
pub fn strip_trailing_zero(s: String) -> (r: String)
    ensures
        r@ == without_trailing_zero(s@),
{
    let v = chars_of(s.as_str());
    let k = chars_of(".0K");
    let m = chars_of(".0M");
    proof {
        reveal_strlit(".0K");
        reveal_strlit(".0M");
    }
    if crate::text::ends_with(&v, &k) {
        let mut out = string_of(&slice_chars(&v, 0, v.len() - 3));
        out.append("K");
        out
    } else if crate::text::ends_with(&v, &m) {
        let mut out = string_of(&slice_chars(&v, 0, v.len() - 3));
        out.append("M");
        out
    } else {
        s
    }
}

/// 2 to the power `k`.
pub open spec fn pow2(k: nat) -> nat
    decreases k,
{
    if k == 0 {
        1
    } else {
        2 * pow2((k - 1) as nat)
    }
}

/// `a / b` rounded to a whole number, a tie to the even one.
pub open spec fn round_half_even(a: nat, b: nat) -> nat {
    let q = a / b;
    let rem = a % b;
    if 2 * rem > b {
        q + 1
    } else if 2 * rem < b {
        q
    } else if q % 2 == 0 {
        q
    } else {
        q + 1
    }
}

/// How many low bits of `n` do not fit in the 53 significant bits of a binary64
/// number, counting from `s`.
pub open spec fn excess_bits(n: nat, s: nat) -> nat
    decreases 64 - s,
{
    if s >= 64 || n < pow2(53 + s) {
        s
    } else {
        excess_bits(n, s + 1)
    }
}

/// The whole number `n < 2^64` as a binary64 number holds it: rounded to 53
/// significant bits, a tie to the even one (what `n as f64` gives).
pub open spec fn as_binary64(n: nat) -> nat {
    let s = excess_bits(n, 0);
    round_half_even(n, pow2(s)) * pow2(s)
}

/// The number of fraction bits, counting down from `k`, at which `a / b` (at
/// least 1) has 53 significant bits: `a * 2^k / b` below `2^53`.
pub open spec fn scale(a: nat, b: nat, k: nat) -> nat
    decreases k,
{
    if k == 0 || a * pow2(k) < pow2(53) * b {
        k
    } else {
        scale(a, b, (k - 1) as nat)
    }
}

/// `a / b` (at least 1) as a binary64 division gives it (the nearest binary64
/// number, a tie to the even one), then rounded to tenths as `{:.1}` writes it
/// (a tie to the even tenth): the number of tenths.
pub open spec fn tenths_of_quotient(a: nat, b: nat) -> nat {
    let k = scale(a, b, 52);
    let m = round_half_even(a * pow2(k), b);
    round_half_even(m * 10, pow2(k))
}

/// A number of tenths written with one decimal.
pub open spec fn one_decimal(t: nat) -> Seq<char> {
    decimal(t / 10) + "."@ + seq![digit_char(t % 10)]
}

/// A token count written compactly: as it is below a thousand, else in
/// thousands (`K`) below a million, else in millions (`M`), with one decimal
/// as floating-point division and `{:.1}` give it, a `.0` dropped.
pub open spec fn tokens_compact(n: nat) -> Seq<char> {
    if n < 1000 {
        decimal(n)
    } else if n < 1000000 {
        without_trailing_zero(one_decimal(tenths_of_quotient(n, 1000)) + "K"@)
    } else {
        without_trailing_zero(one_decimal(tenths_of_quotient(as_binary64(n), 1000000)) + "M"@)
    }
}

proof fn lemma_pow2_values()
    ensures
        pow2(52) == 0x10_0000_0000_0000,
        pow2(53) == 0x20_0000_0000_0000,
        pow2(64) == 0x1_0000_0000_0000_0000,
{
    reveal_with_fuel(pow2, 65);
}

proof fn lemma_pow2_step(k: nat)
    ensures
        pow2(k + 1) == 2 * pow2(k),
        pow2(k) >= 1,
    decreases k,
{
    if k > 0 {
        lemma_pow2_step((k - 1) as nat);
    }
}

fn round_half_even_exec(a: u128, b: u128) -> (r: u128)
    requires
        0 < b < 0x4000_0000_0000_0000_0000_0000_0000_0000,
        a < 0x8000_0000_0000_0000_0000_0000_0000_0000,
    ensures
        r == round_half_even(a as nat, b as nat),
        r <= a,
        r as int <= (a as int) / (b as int) + 1,
        r as int >= (a as int) / (b as int),
{
    let q = a / b;
    let rem = a % b;
    proof {
        assert(a == q * b + rem && rem < b && q <= a) by (nonlinear_arith)
            requires
                b > 0,
                q == a / b,
                rem == a % b,
        ;
        if rem > 0 {
            assert(q < a) by (nonlinear_arith)
                requires
                    a == q * b + rem,
                    rem > 0,
                    b > 0,
                    rem < b,
            ;
        }
    }
    if 2 * rem > b {
        q + 1
    } else if 2 * rem < b {
        q
    } else if q % 2 == 0 {
        q
    } else {
        q + 1
    }
}

/// The number of tenths in `a / b` (see `tenths_of_quotient`).
fn tenths_exec(a: u128, b: u128) -> (t: u64)
    requires
        1 <= b <= 1000000,
        b <= a <= 0x2_0000_0000_0000_0000,
        a < 0x20_0000_0000_0000 * b,
    ensures
        t == tenths_of_quotient(a as nat, b as nat),
{
    proof {
        lemma_pow2_values();
    }
    let mut k: u128 = 52;
    let mut p: u128 = 0x10_0000_0000_0000;
    let top: u128 = 0x20_0000_0000_0000;
    proof {
        assert(a * p <= 0x2_0000_0000_0000_0000 * 0x10_0000_0000_0000) by (nonlinear_arith)
            requires
                a <= 0x2_0000_0000_0000_0000,
                p == 0x10_0000_0000_0000,
        ;
        assert(top * b <= 0x20_0000_0000_0000 * 1000000) by (nonlinear_arith)
            requires
                top == 0x20_0000_0000_0000,
                b <= 1000000,
        ;
    }
    while k > 0 && a * p >= top * b
        invariant
            k <= 52,
            p == pow2(k as nat),
            1 <= p <= 0x10_0000_0000_0000,
            a <= 0x2_0000_0000_0000_0000,
            a < 0x20_0000_0000_0000 * b,
            a * p <= 0x2_0000_0000_0000_0000 * 0x10_0000_0000_0000,
            1 <= b <= 1000000,
            top == pow2(53),
            top * b <= 0x20_0000_0000_0000 * 1000000,
            scale(a as nat, b as nat, 52) == scale(a as nat, b as nat, k as nat),
        decreases k,
    {
        proof {
            lemma_pow2_step((k - 1) as nat);
            assert(pow2(k as nat) == 2 * pow2((k - 1) as nat));
        }
        k = k - 1;
        p = p / 2;
        proof {
            assert(a * p <= 0x2_0000_0000_0000_0000 * 0x10_0000_0000_0000) by (nonlinear_arith)
                requires
                    a <= 0x2_0000_0000_0000_0000,
                    p <= 0x10_0000_0000_0000,
            ;
        }
    }
    proof {
        assert(a * p <= 0x2_0000_0000_0000_0000 * 0x10_0000_0000_0000) by (nonlinear_arith)
            requires
                a <= 0x2_0000_0000_0000_0000,
                p <= 0x10_0000_0000_0000,
        ;
        assert(scale(a as nat, b as nat, k as nat) == k as nat);
    }
    proof {
        if k == 0 {
            assert(p == 1);
            assert(a * p == a) by (nonlinear_arith)
                requires
                    p == 1,
            ;
        }
        assert(a * p < top * b);
    }
    let m = round_half_even_exec(a * p, b);
    proof {
        assert(m <= top) by (nonlinear_arith)
            requires
                a * p < top * b,
                (m as int) <= ((a * p) as int) / (b as int) + 1,
                b >= 1,
        ;
    }
    let t = round_half_even_exec(m * 10, p);
    (t as u64)
}

/// `n` as a binary64 number holds it (see `as_binary64`).
fn as_binary64_exec(n: u64) -> (r: u128)
    ensures
        r == as_binary64(n as nat),
        r <= 0x2_0000_0000_0000_0000,
        n < 0x20_0000_0000_0000 ==> r == n,
        n >= 0x20_0000_0000_0000 ==> r >= 0x10_0000_0000_0000,
{
    proof {
        lemma_pow2_values();
    }
    let mut s: u128 = 0;
    let mut p: u128 = 0x20_0000_0000_0000;
    let mut unit: u128 = 1;
    while s < 64 && (n as u128) >= p
        invariant
            p == pow2(53 + s as nat),
            unit == pow2(s as nat),
            p == unit * 0x20_0000_0000_0000,
            1 <= unit,
            s > 0 ==> n as int >= p as int / 2,
            p <= 0x2_0000_0000_0000_0000,
            excess_bits(n as nat, 0) == excess_bits(n as nat, s as nat),
        decreases 64 - s,
    {
        proof {
            lemma_pow2_step((53 + s) as nat);
            lemma_pow2_step(s as nat);
            assert((53 + s + 1) as nat == (53 + (s + 1)) as nat);
        }
        s = s + 1;
        p = p * 2;
        unit = unit * 2;
    }
    proof {
        assert(excess_bits(n as nat, s as nat) == s as nat);
        assert(unit <= 0x1000) by (nonlinear_arith)
            requires
                p == unit * 0x20_0000_0000_0000,
                p <= 0x2_0000_0000_0000_0000,
        ;
    }
    let q = round_half_even_exec(n as u128, unit);
    proof {
        assert(((n as int) / (unit as int)) * (unit as int) <= n as int) by (nonlinear_arith)
            requires
                unit >= 1,
        ;
        assert(q * unit <= n as int + unit as int) by (nonlinear_arith)
            requires
                (q as int) <= (n as int) / (unit as int) + 1,
                ((n as int) / (unit as int)) * (unit as int) <= n as int,
                unit >= 1,
        ;
        if s == 0 {
            assert(unit == 1);
            assert((n as int) / (unit as int) == n as int) by (nonlinear_arith)
                requires
                    unit == 1,
            ;
            assert(q == n);
            assert(q * unit == q) by (nonlinear_arith)
                requires
                    unit == 1,
            ;
        } else {
            assert(n >= 0x20_0000_0000_0000);
            assert((n as int) / (unit as int) >= 0x10_0000_0000_0000) by (nonlinear_arith)
                requires
                    n as int >= (unit * 0x20_0000_0000_0000) as int / 2,
                    unit >= 1,
            ;
            assert(q * unit >= 0x10_0000_0000_0000) by (nonlinear_arith)
                requires
                    q >= 0x10_0000_0000_0000,
                    unit >= 1,
            ;
        }
    }
    q * unit
}

/// A token count written compactly (see `tokens_compact`).
pub fn format_tokens_compact(n: u64) -> (r: String)
    ensures
        r@ == tokens_compact(n as nat),
{
    if n < 1000 {
        return u64_to_string(n);
    }
    let (t, unit) = if n < 1000000 {
        (tenths_exec(n as u128, 1000), "K")
    } else {
        (tenths_exec(as_binary64_exec(n), 1000000), "M")
    };
    let mut out = string_of(&decimal_chars(t / 10));
    out.append(".");
    let digit = decimal_chars(t % 10);
    out.append(string_of(&digit).as_str());
    out.append(unit);
    proof {
        reveal_strlit("K");
        reveal_strlit("M");
        reveal_strlit(".");
        assert(digit@ == seq![digit_char((t % 10) as nat)]);
    }
    strip_trailing_zero(out)
}

} // verus!
