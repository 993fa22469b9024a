//! The time ranges and chart tabs the viewer offers.
use vstd::prelude::*;
use vstd::string::*;
use crate::text::{chars_of, decimal, digit_char, str_eq, u64_to_string, views};

verus! {

/// A span of history to show, ending now.
#[derive(Debug, Clone, Copy, PartialEq, Eq, Structural)]
pub enum TimeRange {
    Recent(u64),
    Yesterday,
    Week,
    Month,
    ThreeMonths,
    Year,
    All,
}

/// Seconds in a day.
pub const DAY_SECS: i64 = 86400;

impl TimeRange {
    /// The label of the range in the range selector.
    pub open spec fn spec_label(self) -> Seq<char> {
        match self {
            TimeRange::Recent(h) => decimal(h as nat) + "h"@,
            TimeRange::Yesterday => "Yesterday"@,
            TimeRange::Week => "7 Days"@,
            TimeRange::Month => "30 Days"@,
            TimeRange::ThreeMonths => "90 Days"@,
            TimeRange::Year => "1 Year"@,
            TimeRange::All => "All"@,
        }
    }

    /// The label of the range (see `spec_label`).
    pub fn label(&self) -> (r: String)
        ensures
            r@ == self.spec_label(),
    {
        proof {
            reveal_strlit("h");
        }
        match self {
            TimeRange::Recent(h) => {
                let mut out = u64_to_string(*h);
                out.append("h");
                out
            },
            TimeRange::Yesterday => String::from_str("Yesterday"),
            TimeRange::Week => String::from_str("7 Days"),
            TimeRange::Month => String::from_str("30 Days"),
            TimeRange::ThreeMonths => String::from_str("90 Days"),
            TimeRange::Year => String::from_str("1 Year"),
            TimeRange::All => String::from_str("All"),
        }
    }

    /// The `strftime` pattern of the time axis: finer for shorter ranges.
    pub fn time_format(&self) -> (r: &'static str)
        ensures
            r@ == match self {
                TimeRange::Recent(_) | TimeRange::Yesterday => "%H:%M"@,
                TimeRange::Week => "%a %H:%M"@,
                TimeRange::Month | TimeRange::ThreeMonths => "%b %d"@,
                TimeRange::Year | TimeRange::All => "%Y-%m-%d"@,
            },
    {
        match self {
            TimeRange::Recent(_) | TimeRange::Yesterday => "%H:%M",
            TimeRange::Week => "%a %H:%M",
            TimeRange::Month | TimeRange::ThreeMonths => "%b %d",
            TimeRange::Year | TimeRange::All => "%Y-%m-%d",
        }
    }

    /// The length of the range in seconds; `All` has none.
    pub open spec fn spec_range_seconds(self) -> Option<int> {
        match self {
            TimeRange::Recent(h) => Some(h * 3600),
            TimeRange::Yesterday => Some(86400int),
            TimeRange::Week => Some(7 * 86400int),
            TimeRange::Month => Some(30 * 86400int),
            TimeRange::ThreeMonths => Some(90 * 86400int),
            TimeRange::Year => Some(365 * 86400int),
            TimeRange::All => None,
        }
    }

    /// The length of the range in seconds (see `spec_range_seconds`); the hours of
    /// `Recent` must give a number of seconds that fits in `i64`.
    pub fn range_seconds(&self) -> (r: Option<i64>)
        requires
            self matches TimeRange::Recent(h) ==> h * 3600 <= i64::MAX,
        ensures
            r matches Some(v) ==> self.spec_range_seconds() == Some(v as int),
            r is None <==> self.spec_range_seconds() is None,
    {
        match self {
            TimeRange::Recent(h) => Some((*h as i64) * 3600),
            TimeRange::Yesterday => Some(86400),
            TimeRange::Week => Some(7 * 86400),
            TimeRange::Month => Some(30 * 86400),
            TimeRange::ThreeMonths => Some(90 * 86400),
            TimeRange::Year => Some(365 * 86400),
            TimeRange::All => None,
        }
    }

    /// The start and end, in seconds since the epoch, of the range at time `now`;
    /// `today_start` is when the local day began. Yesterday is the local day before
    /// today; `All` starts at the epoch; the others end now.
    pub open spec fn spec_start_end(self, now: int, today_start: int) -> (int, int) {
        match self {
            TimeRange::Yesterday => (today_start - 86400, today_start),
            TimeRange::All => (0, now),
            _ => (now - self.spec_range_seconds()->0, now),
        }
    }

    /// Whether the range's bounds at `now` and `today_start` fit in `i64`.
    pub open spec fn fits(self, now: int, today_start: int) -> bool {
        &&& self matches TimeRange::Recent(h) ==> h * 3600 <= i64::MAX
        &&& i64::MIN <= self.spec_start_end(now, today_start).0 <= i64::MAX
        &&& i64::MIN <= self.spec_start_end(now, today_start).1 <= i64::MAX
    }

    /// The bounds of the range (see `spec_start_end`).
    pub fn start_end_at(&self, now: i64, today_start: i64) -> (r: (i64, i64))
        requires
            self.fits(now as int, today_start as int),
        ensures
            r.0 == self.spec_start_end(now as int, today_start as int).0,
            r.1 == self.spec_start_end(now as int, today_start as int).1,
    {
        match self {
            TimeRange::Yesterday => (today_start - 86400, today_start),
            TimeRange::All => (0, now),
            _ => {
                let secs = match self.range_seconds() {
                    Some(s) => s,
                    None => 0,
                };
                (now - secs, now)
            },
        }
    }

    /// The bounds of the range now: the clock read through `chrono`, and for
    /// `Yesterday` the start of the local day. `None` where a bound would not fit
    /// in `i64`, or where the local day's midnight is not a single instant.
    /// Whatever the clock says, the bounds are those of the range at some moment
    /// and local midnight: `All` starts at the epoch, the others span their length.
    pub fn start_end(&self) -> (r: Option<(i64, i64)>)
        ensures
            r matches Some(p) ==> exists|now: int, today_start: int|
                #![trigger self.spec_start_end(now, today_start)]
                self.fits(now, today_start)
                && p.0 == self.spec_start_end(now, today_start).0
                && p.1 == self.spec_start_end(now, today_start).1,
            !(self is Yesterday) ==> (r is Some <==> (self matches TimeRange::Recent(h) ==> h * 3600 <= i64::MAX)),
            !(self is Yesterday) ==> exists|now: int|
                #![trigger self.fits(now, now)]
                clock_reading(now)
                && (r is Some <==> self.fits(now, now))
                && (r matches Some(p) ==> p.0 == self.spec_start_end(now, now).0 && p.1 == self.spec_start_end(now, now).1),
    {
        let now = utc_now_secs();
        let today_start = match self {
            TimeRange::Yesterday => match local_day_start_secs() {
                Some(t) => t,
                None => return None,
            },
            _ => now,
        };
        let fits = match self {
            TimeRange::Recent(h) => *h <= 2562047788015215u64 && now.checked_sub((*h as i64) * 3600).is_some(),
            TimeRange::Yesterday => today_start >= i64::MIN + 86400,
            TimeRange::All => true,
            _ => match self.range_seconds() {
                Some(secs) => now.checked_sub(secs).is_some(),
                None => false,
            },
        };
        proof {
            if let TimeRange::Recent(h) = self {
                if h <= 2562047788015215u64 {
                    assert(h * 3600 <= i64::MAX);
                }
            }
        }
        proof {
            assert(fits == self.fits(now as int, today_start as int));
            if !(self is Yesterday) {
                assert(today_start == now);
                assert(self.fits(now as int, now as int) == fits);
            }
        }
        if !fits {
            return None;
        }
        let p = self.start_end_at(now, today_start);
        proof {
            assert(self.fits(now as int, today_start as int));
            assert(p.0 == self.spec_start_end(now as int, today_start as int).0);
        }
        Some(p)
    }

    /// The bounds shown on the chart now (see `start_end` and
    /// `spec_display_range`); `None` where `start_end` gives none or a padded
    /// bound would not fit in `i64`.
    pub fn display_range(&self) -> (r: Option<(i64, i64)>)
        ensures
            r matches Some(p) ==> exists|now: int, today_start: int|
                #![trigger self.spec_display_range(now, today_start)]
                self.display_fits(now, today_start)
                && p.0 == self.spec_display_range(now, today_start).0
                && p.1 == self.spec_display_range(now, today_start).1,
            !(self is Yesterday) && !(self is Recent) ==> r is Some,
            !(self is Yesterday) ==> exists|now: int|
                #![trigger self.display_fits(now, now)]
                clock_reading(now)
                && (r is Some <==> self.display_fits(now, now))
                && (r matches Some(p) ==> p.0 == self.spec_display_range(now, now).0
                    && p.1 == self.spec_display_range(now, now).1),
    {
        let got = self.start_end();
        let ghost clock: int = if !(self is Yesterday) {
            choose|now: int|
                #![trigger self.fits(now, now)]
                clock_reading(now)
                && (got is Some <==> self.fits(now, now))
                && (got matches Some(p) ==> p.0 == self.spec_start_end(now, now).0 && p.1 == self.spec_start_end(now, now).1)
        } else {
            0
        };
        let (start, end) = match got {
            Some(b) => b,
            None => {
                proof {
                    if !(self is Yesterday) {
                        assert(!self.display_fits(clock, clock));
                    }
                }
                return None;
            },
        };
        let ghost (now, today_start) = choose|now: int, today_start: int|
            #![trigger self.spec_start_end(now, today_start)]
            self.fits(now, today_start)
            && start == self.spec_start_end(now, today_start).0
            && end == self.spec_start_end(now, today_start).1;
        proof {
            if !(self is Yesterday) {
                assert(self.fits(clock, clock));
                assert(start == self.spec_start_end(clock, clock).0 && end == self.spec_start_end(clock, clock).1);
                if !(self is Recent) {
                    assert(self.display_fits(clock, clock));
                }
            }
        }
        let span = match end.checked_sub(start) {
            Some(v) => v,
            None => {
                proof {
                    if !(self is Yesterday) {
                        assert(!self.display_fits(clock, clock));
                    }
                }
                return None;
            },
        };
        let pad = span / 8;
        proof {
            assert(pad == trunc_div(end - start, 8));
        }
        let lo = match start.checked_sub(pad) {
            Some(v) => v,
            None => {
                proof {
                    if !(self is Yesterday) {
                        assert(!self.display_fits(clock, clock));
                    }
                }
                return None;
            },
        };
        let hi = match end.checked_add(pad) {
            Some(v) => v,
            None => {
                proof {
                    if !(self is Yesterday) {
                        assert(!self.display_fits(clock, clock));
                    }
                }
                return None;
            },
        };
        proof {
            assert(self.display_fits(now, today_start));
            assert(lo == self.spec_display_range(now, today_start).0);
            if !(self is Yesterday) {
                assert(self.display_fits(clock, clock));
                assert(lo == self.spec_display_range(clock, clock).0);
            }
        }
        Some((lo, hi))
    }

    /// The bounds shown on the chart: the range widened on each side by an eighth
    /// of its span (the eighth rounded toward zero, as integer division does).
    pub open spec fn spec_display_range(self, now: int, today_start: int) -> (int, int) {
        let (s, e) = self.spec_start_end(now, today_start);
        let pad = trunc_div(e - s, 8);
        (s - pad, e + pad)
    }

    /// Whether every value `display_range` computes fits in `i64`.
    pub open spec fn display_fits(self, now: int, today_start: int) -> bool {
        let (s, e) = self.spec_start_end(now, today_start);
        &&& self.fits(now, today_start)
        &&& i64::MIN <= e - s <= i64::MAX
        &&& i64::MIN <= self.spec_display_range(now, today_start).0 <= i64::MAX
        &&& i64::MIN <= self.spec_display_range(now, today_start).1 <= i64::MAX
    }

    /// The bounds shown on the chart at `now` (see `spec_display_range`).
    pub fn display_range_at(&self, now: i64, today_start: i64) -> (r: (i64, i64))
        requires
            self.display_fits(now as int, today_start as int),
        ensures
            r.0 == self.spec_display_range(now as int, today_start as int).0,
            r.1 == self.spec_display_range(now as int, today_start as int).1,
    {
        let (start, end) = self.start_end_at(now, today_start);
        let span = end - start;
        let pad = span / 8;
        (start - pad, end + pad)
    }

    /// The width in seconds of the buckets records are averaged over: none for a
    /// day or less, wider for longer ranges.
    pub fn downsample_interval(&self) -> (r: Option<i64>)
        ensures
            r == match self {
                TimeRange::Recent(_) | TimeRange::Yesterday => None::<i64>,
                TimeRange::Week => Some(300i64),
                TimeRange::Month => Some(900i64),
                TimeRange::ThreeMonths => Some(3600i64),
                TimeRange::Year => Some(7200i64),
                TimeRange::All => Some(14400i64),
            },
    {
        match self {
            TimeRange::Recent(_) | TimeRange::Yesterday => None,
            TimeRange::Week => Some(300),
            TimeRange::Month => Some(900),
            TimeRange::ThreeMonths => Some(3600),
            TimeRange::Year => Some(7200),
            TimeRange::All => Some(14400),
        }
    }
}

proof fn lemma_decimal_len(n: nat)
    ensures
        decimal(n).len() >= 1,
        decimal(n).len() == 1 <==> n < 10,
    decreases n,
{
    if n >= 10 {
        lemma_decimal_len(n / 10);
    }
}

proof fn lemma_digit_char_injective(a: nat, b: nat)
    requires
        a < 10,
        b < 10,
        digit_char(a) == digit_char(b),
    ensures
        a == b,
{
    let x: u8 = (a + 48) as u8;
    let y: u8 = (b + 48) as u8;
    assert(x as char == y as char);
    assert(x == y);
}

proof fn lemma_decimal_injective(a: nat, b: nat)
    requires
        decimal(a) == decimal(b),
    ensures
        a == b,
    decreases a,
{
    lemma_decimal_len(a);
    lemma_decimal_len(b);
    if a < 10 {
        let da = digit_char(a);
        let db = digit_char(b);
        assert(decimal(a) == seq![da]);
        assert(decimal(b) == seq![db]);
        assert(seq![da][0] == da);
        assert(seq![db][0] == db);
        assert(da == db);
        lemma_digit_char_injective(a, b);
    } else {
        assert(decimal(a).drop_last() =~= decimal(a / 10));
        assert(decimal(b).drop_last() =~= decimal(b / 10));
        lemma_decimal_injective(a / 10, b / 10);
        let da = digit_char(a % 10);
        let db = digit_char(b % 10);
        assert(decimal(a) == decimal(a / 10).push(da));
        assert(decimal(b) == decimal(b / 10).push(db));
        assert(decimal(a / 10).push(da).last() == da);
        assert(decimal(b / 10).push(db).last() == db);
        assert(da == db);
        lemma_digit_char_injective(a % 10, b % 10);
    }
}

proof fn lemma_suffix_cancel(a: Seq<char>, b: Seq<char>, s: Seq<char>)
    requires
        a + s == b + s,
    ensures
        a == b,
{
    assert((a + s).subrange(0, a.len() as int) =~= a);
    assert((b + s).subrange(0, b.len() as int) =~= b);
}

/// A range labelled `k` days that spans `k` days spans `n` days when its label
/// reads `n` days as well.
proof fn lemma_days_label(t: TimeRange, n: nat, k: nat, label: Seq<char>)
    requires
        label == decimal(k) + " Days"@,
        t.spec_label() == label,
        t.spec_range_seconds() == Some(k * 86400int),
        t.spec_label() == decimal(n) + " Days"@,
    ensures
        t.spec_range_seconds() == Some(n * 86400int),
{
    lemma_suffix_cancel(decimal(n), decimal(k), " Days"@);
    lemma_decimal_injective(n, k);
}

/// The span of every range is what its label says: a label of `n` days spans `n`
/// days, one of `n` hours spans `n` hours, the year 365 days, yesterday one day.
#[verifier::spinoff_prover]
pub proof fn law_range_span_matches_label(t: TimeRange, n: nat)
    ensures
        t.spec_label() == decimal(n) + " Days"@ ==> t.spec_range_seconds() == Some(n * 86400int),
        t.spec_label() == decimal(n) + "h"@ ==> t.spec_range_seconds() == Some(n * 3600int),
        t.spec_label() == "1 Year"@ ==> t.spec_range_seconds() == Some(365 * 86400int),
        t.spec_label() == "Yesterday"@ ==> t.spec_range_seconds() == Some(86400int),
{
    let days = decimal(n) + " Days"@;
    let hours = decimal(n) + "h"@;
    let lab = t.spec_label();
    lemma_decimal_len(n);
    lemma_label_ends(t);
    reveal_strlit(" Days");
    reveal_strlit("h");
    reveal_strlit("1 Year");
    reveal_strlit("Yesterday");
    assert(days.last() == 's');
    assert(hours.last() == 'h');
    assert("1 Year"@.last() == 'r');
    assert("Yesterday"@.last() == 'y');
    if lab.last() != 's' {
        lemma_last_differs(lab, days);
    }
    if lab.last() != 'h' {
        lemma_last_differs(lab, hours);
    }
    if lab.last() != 'r' {
        lemma_last_differs(lab, "1 Year"@);
    }
    if lab.last() != 'y' {
        lemma_last_differs(lab, "Yesterday"@);
    }
    match t {
        TimeRange::Recent(h) => {
            if lab == hours {
                lemma_suffix_cancel(decimal(h as nat), decimal(n), "h"@);
                lemma_decimal_injective(h as nat, n);
            }
        },
        TimeRange::Week => {
            if lab == days {
                reveal_strlit("7 Days");
                assert(decimal(7) =~= seq!['7']) by {
                    assert(digit_char(7) == '7');
                }
                assert("7 Days"@ =~= decimal(7) + " Days"@);
                lemma_days_label(t, n, 7, "7 Days"@);
            }
        },
        TimeRange::Month => {
            if lab == days {
                reveal_strlit("30 Days");
                assert(decimal(30) =~= seq!['3', '0']) by {
                    assert(digit_char(3) == '3');
                    assert(digit_char(0) == '0');
                    assert(decimal(3) =~= seq!['3']);
                }
                assert("30 Days"@ =~= decimal(30) + " Days"@);
                lemma_days_label(t, n, 30, "30 Days"@);
            }
        },
        TimeRange::ThreeMonths => {
            if lab == days {
                reveal_strlit("90 Days");
                assert(decimal(90) =~= seq!['9', '0']) by {
                    assert(digit_char(9) == '9');
                    assert(digit_char(0) == '0');
                    assert(decimal(9) =~= seq!['9']);
                }
                assert("90 Days"@ =~= decimal(90) + " Days"@);
                lemma_days_label(t, n, 90, "90 Days"@);
            }
        },
        _ => {},
    }
}

proof fn lemma_last_differs(a: Seq<char>, b: Seq<char>)
    requires
        a.len() > 0,
        b.len() > 0,
        a.last() != b.last(),
    ensures
        a != b,
{
}

/// The last character of each range's label.
proof fn lemma_label_ends(t: TimeRange)
    ensures
        t.spec_label().len() > 0,
        t.spec_label().last() == match t {
            TimeRange::Recent(_) => 'h',
            TimeRange::Yesterday => 'y',
            TimeRange::Week | TimeRange::Month | TimeRange::ThreeMonths => 's',
            TimeRange::Year => 'r',
            TimeRange::All => 'l',
        },
{
    reveal_strlit("h");
    reveal_strlit("Yesterday");
    reveal_strlit("7 Days");
    reveal_strlit("30 Days");
    reveal_strlit("90 Days");
    reveal_strlit("1 Year");
    reveal_strlit("All");
    if let TimeRange::Recent(h) = t {
        lemma_decimal_len(h as nat);
    }
}

/// The batteries to offer: `offered` followed by each of `live`, in order, that
/// is not among them yet.
pub open spec fn merged_batteries(offered: Seq<Seq<char>>, live: Seq<Seq<char>>) -> Seq<Seq<char>>
    decreases live.len(),
{
    if live.len() == 0 {
        offered
    } else {
        let next = if offered.contains(live[0]) { offered } else { offered.push(live[0]) };
        merged_batteries(next, live.drop_first())
    }
}

/// The battery to show: the one shown so far where it is offered (and named),
/// else the first offered, else none (empty).
pub open spec fn chosen_battery(selected: Seq<char>, offered: Seq<Seq<char>>) -> Seq<char> {
    if selected.len() > 0 && offered.contains(selected) {
        selected
    } else if offered.len() > 0 {
        offered[0]
    } else {
        Seq::empty()
    }
}

proof fn lemma_merged_keeps(offered: Seq<Seq<char>>, live: Seq<Seq<char>>)
    ensures
        forall|x: Seq<char>| offered.contains(x) ==> #[trigger] merged_batteries(offered, live).contains(x),
        forall|x: Seq<char>| live.contains(x) ==> #[trigger] merged_batteries(offered, live).contains(x),
    decreases live.len(),
{
    if live.len() > 0 {
        let next = if offered.contains(live[0]) { offered } else { offered.push(live[0]) };
        let rest = live.drop_first();
        lemma_merged_keeps(next, rest);
        assert(merged_batteries(offered, live) == merged_batteries(next, rest));
        assert forall|x: Seq<char>| offered.contains(x) implies #[trigger] merged_batteries(offered, live).contains(x) by {
            if !offered.contains(live[0]) {
                let k = choose|k: int| 0 <= k < offered.len() && offered[k] == x;
                assert(next[k] == x);
            }
            assert(next.contains(x));
            assert(merged_batteries(next, rest).contains(x));
        }
        assert(next.contains(live[0])) by {
            if !offered.contains(live[0]) {
                assert(next[offered.len() as int] == live[0]);
            }
        }
        assert forall|x: Seq<char>| live.contains(x) implies #[trigger] merged_batteries(offered, live).contains(x) by {
            let k = choose|k: int| 0 <= k < live.len() && live[k] == x;
            if k > 0 {
                assert(rest[k - 1] == x);
                assert(rest.contains(x));
            } else {
                assert(next.contains(x));
            }
            assert(merged_batteries(next, rest).contains(x));
        }
    }
}

/// Every battery the database knows and every battery present is offered, and
/// the battery shown is one of those offered, unless there is none to offer.
pub proof fn law_discovery_offers_every_battery(stored: Seq<Seq<char>>, live: Seq<Seq<char>>, selected: Seq<char>)
    ensures
        forall|x: Seq<char>| stored.contains(x) ==> #[trigger] merged_batteries(stored, live).contains(x),
        forall|x: Seq<char>| live.contains(x) ==> #[trigger] merged_batteries(stored, live).contains(x),
        merged_batteries(stored, live).len() > 0
            ==> merged_batteries(stored, live).contains(chosen_battery(selected, merged_batteries(stored, live))),
        merged_batteries(stored, live).len() == 0 ==> chosen_battery(selected, merged_batteries(stored, live)).len() == 0,
{
    lemma_merged_keeps(stored, live);
    let offered = merged_batteries(stored, live);
    if offered.len() > 0 && !(selected.len() > 0 && offered.contains(selected)) {
        assert(offered[0] == chosen_battery(selected, offered));
    }
}

fn contains_text_in(v: &Vec<String>, t: &str) -> (r: bool)
    ensures
        r == views(v@).contains(t@),
{
    let mut i: usize = 0;
    while i < v.len()
        invariant
            0 <= i <= v.len(),
            forall|k: int| 0 <= k < i ==> v@[k]@ != t@,
        decreases v.len() - i,
    {
        if str_eq(v[i].as_str(), t) {
            assert(views(v@)[i as int] == t@);
            return true;
        }
        i += 1;
    }
    assert(!views(v@).contains(t@)) by {
        if views(v@).contains(t@) {
            let k = choose|k: int| 0 <= k < views(v@).len() && views(v@)[k] == t@;
            assert(v@[k]@ == t@);
        }
    }
    false
}

/// The batteries the viewer offers and the one it shows, from those the
/// database has readings of (`stored`), those present now (`live`) and the one
/// shown so far (see `merged_batteries` and `chosen_battery`).
pub fn discover_batteries(stored: Vec<String>, live: &[String], selected: &str) -> (r: (Vec<String>, String))
    ensures
        views(r.0@) == merged_batteries(views(stored@), views(live@)),
        r.1@ == chosen_battery(selected@, merged_batteries(views(stored@), views(live@))),
{
    let mut batteries = stored;
    let mut i: usize = 0;
    assert(views(live@).skip(0) =~= views(live@));
    while i < live.len()
        invariant
            0 <= i <= live.len(),
            merged_batteries(views(batteries@), views(live@).skip(i as int))
                == merged_batteries(views(stored@), views(live@)),
        decreases live.len() - i,
    {
        let ghost before = views(batteries@);
        let b = &live[i];
        assert(views(live@).skip(i as int)[0] == b@);
        assert(views(live@).skip(i as int).drop_first() =~= views(live@).skip(i as int + 1));
        if !contains_text_in(&batteries, b.as_str()) {
            batteries.push(b.clone());
            assert(views(batteries@) =~= before.push(b@));
        }
        i += 1;
    }
    assert(views(live@).skip(live.len() as int) =~= Seq::<Seq<char>>::empty());
    let ghost offered = views(batteries@);
    let keep = chars_of(selected).len() > 0 && contains_text_in(&batteries, selected);
    let shown = if keep {
        selected.to_string()
    } else if batteries.len() > 0 {
        let first = batteries[0].clone();
        assert(offered[0] == first@);
        first
    } else {
        String::new()
    };
    (batteries, shown)
}

/// Whether `now` can be a reading of the clock in seconds since the epoch: not
/// before the epoch, and below `2^48` (past the last day a `chrono` date holds).
pub open spec fn clock_reading(now: int) -> bool {
    0 <= now < 0x1_0000_0000_0000
}

/// Seconds since the epoch now: `chrono::Utc::now()`, read by its `timestamp()`.
/// Which second it is, is the clock's. `Utc::now` returns only a time at or
/// after the epoch (it panics on an earlier system time) that
/// `DateTime::from_timestamp` accepts (it unwraps that, which refuses a day
/// number above `i32::MAX`), and `timestamp()` gives those seconds back: so the
/// value lies from 0 up to below `2^48` (see `clock_reading`).
#[verifier::external_body]
pub(crate) fn utc_now_secs() -> (r: i64)
    ensures
        clock_reading(r as int),
{
    chrono::Utc::now().timestamp()
}

/// When the current local day began, in seconds since the epoch: the date of
/// `chrono::Local::now()` (`date_naive`) at midnight (`and_hms_opt(0, 0, 0)`),
/// placed in the local time zone (`and_local_timezone(chrono::Local)`), read by
/// `timestamp()`; `None` where that midnight is not a single instant (`single()`:
/// a clock change skips or repeats it). Nothing is stated of the value: it rests
/// on the clock and on the machine's time zone.
#[verifier::external_body]
fn local_day_start_secs() -> (r: Option<i64>) {
    match chrono::Local::now().date_naive().and_hms_opt(0, 0, 0) {
        Some(midnight) => midnight.and_local_timezone(chrono::Local).single().map(|d| d.timestamp()),
        None => None,
    }
}

/// Integer division rounded toward zero, as Rust's `/` on signed integers.
pub open spec fn trunc_div(x: int, d: int) -> int {
    if x >= 0 { x / d } else { -((-x) / d) }
}

/// A chart the viewer can show.
#[derive(Debug, Clone, Copy, PartialEq, Eq, Structural)]
pub enum ChartTab {
    Capacity,
    Power,
    Voltage,
    Energy,
    Health,
}

impl ChartTab {
    /// The tab's label.
    pub fn label(&self) -> (r: &'static str)
        ensures
            r@ == match self {
                ChartTab::Capacity => "Capacity"@,
                ChartTab::Power => "Power"@,
                ChartTab::Voltage => "Voltage"@,
                ChartTab::Energy => "Energy"@,
                ChartTab::Health => "Health"@,
            },
    {
        match self {
            ChartTab::Capacity => "Capacity",
            ChartTab::Power => "Power",
            ChartTab::Voltage => "Voltage",
            ChartTab::Energy => "Energy",
            ChartTab::Health => "Health",
        }
    }

    /// Every tab, in the order the tab bar shows them.
    pub fn all() -> (r: [ChartTab; 5])
        ensures
            r@ == seq![ChartTab::Capacity, ChartTab::Power, ChartTab::Voltage, ChartTab::Energy, ChartTab::Health],
    {
        [ChartTab::Capacity, ChartTab::Power, ChartTab::Voltage, ChartTab::Energy, ChartTab::Health]
    }
}


/// The chart shows the whole range: the window it draws starts no later and
/// ends no earlier than the range itself, and for every range but `All` and
/// `Yesterday` the range ends now and spans the range's length.
pub proof fn law_display_contains_range(t: TimeRange, now: int, today_start: int)
    requires
        t.spec_start_end(now, today_start).0 <= t.spec_start_end(now, today_start).1,
    ensures
        t.spec_display_range(now, today_start).0 <= t.spec_start_end(now, today_start).0,
        t.spec_start_end(now, today_start).1 <= t.spec_display_range(now, today_start).1,
        !(t is All) && !(t is Yesterday) ==> t.spec_start_end(now, today_start).1 == now
            && t.spec_start_end(now, today_start).1 - t.spec_start_end(now, today_start).0 == t.spec_range_seconds()->0,
{
    let (s, e) = t.spec_start_end(now, today_start);
    assert((e - s) / 8 >= 0) by (nonlinear_arith)
        requires
            e - s >= 0,
    ;
}

} // verus!
