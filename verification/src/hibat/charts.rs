//! The colours the charts draw with: the theme's texts read as red, green and
//! blue, the colour of each battery status, and lighter shades; and the capacity
//! line cut into segments of one status each.
use vstd::prelude::*;
use crate::hibat::config::{color_of, is_boundary, parse_color, strip_hashes, ThemeConfig};
use crate::text::utf8_len;
use crate::hibat::db::{BatteryRecord, BatteryStatus};

verus! {

/// A colour as red, green and blue.
pub type Rgb = (u8, u8, u8);

/// Whether a colour text can be read without slicing inside a character (see
/// `parse_color`).
pub open spec fn readable_color(hex: Seq<char>) -> bool {
    utf8_len(strip_hashes(hex)) == 6 ==> is_boundary(strip_hashes(hex), 2) && is_boundary(strip_hashes(hex), 4)
}

/// The colours of the charts.
#[derive(Debug, Clone, Copy, PartialEq, Eq)]
pub struct ThemeColors {
    pub background: Rgb,
    pub surface: Rgb,
    pub accent: Rgb,
    pub border: Rgb,
    pub text: Rgb,
    pub text_dim: Rgb,
    pub charge: Rgb,
    pub discharge: Rgb,
    pub full: Rgb,
    pub health_good: Rgb,
    pub health_warn: Rgb,
    pub health_bad: Rgb,
}

impl ThemeColors {
    /// The colours a theme names (see `color_of`); the grid colour is not used.
    pub fn from_config(theme: &ThemeConfig) -> (r: ThemeColors)
        requires
            readable_color(theme.background@),
            readable_color(theme.surface_color@),
            readable_color(theme.accent_color@),
            readable_color(theme.border_color@),
            readable_color(theme.text_color@),
            readable_color(theme.text_dim_color@),
            readable_color(theme.charge_color@),
            readable_color(theme.discharge_color@),
            readable_color(theme.full_color@),
            readable_color(theme.health_good_color@),
            readable_color(theme.health_warn_color@),
            readable_color(theme.health_bad_color@),
        ensures
            r.background == color_of(theme.background@),
            r.surface == color_of(theme.surface_color@),
            r.accent == color_of(theme.accent_color@),
            r.border == color_of(theme.border_color@),
            r.text == color_of(theme.text_color@),
            r.text_dim == color_of(theme.text_dim_color@),
            r.charge == color_of(theme.charge_color@),
            r.discharge == color_of(theme.discharge_color@),
            r.full == color_of(theme.full_color@),
            r.health_good == color_of(theme.health_good_color@),
            r.health_warn == color_of(theme.health_warn_color@),
            r.health_bad == color_of(theme.health_bad_color@),
    {
        ThemeColors {
            background: parse_color(theme.background.as_str()),
            surface: parse_color(theme.surface_color.as_str()),
            accent: parse_color(theme.accent_color.as_str()),
            border: parse_color(theme.border_color.as_str()),
            text: parse_color(theme.text_color.as_str()),
            text_dim: parse_color(theme.text_dim_color.as_str()),
            charge: parse_color(theme.charge_color.as_str()),
            discharge: parse_color(theme.discharge_color.as_str()),
            full: parse_color(theme.full_color.as_str()),
            health_good: parse_color(theme.health_good_color.as_str()),
            health_warn: parse_color(theme.health_warn_color.as_str()),
            health_bad: parse_color(theme.health_bad_color.as_str()),
        }
    }

    /// The colour of a battery status: charging, discharging and full have
    /// their own; any other is drawn in the text colour.
    pub fn status_color(&self, status: BatteryStatus) -> (r: Rgb)
        ensures
            r == match status {
                BatteryStatus::Charging => self.charge,
                BatteryStatus::Discharging => self.discharge,
                BatteryStatus::Full => self.full,
                _ => self.text,
            },
    {
        match status {
            BatteryStatus::Charging => self.charge,
            BatteryStatus::Discharging => self.discharge,
            BatteryStatus::Full => self.full,
            _ => self.text,
        }
    }
}

/// A channel raised by `amount`, at most 255.
pub open spec fn raised(c: u8, amount: u8) -> u8 {
    if c + amount > 255 {
        255
    } else {
        (c + amount) as u8
    }
}

/// A lighter shade: each channel raised by `amount`, at most 255.
pub fn lighten(color: Rgb, amount: u8) -> (r: Rgb)
    ensures
        r == (raised(color.0, amount), raised(color.1, amount), raised(color.2, amount)),
{
    (color.0.saturating_add(amount), color.1.saturating_add(amount), color.2.saturating_add(amount))
}

/// A point of the capacity chart: a reading's time, and its capacity in percent
/// (a reading without one counts as 0).
pub type ChartPoint = (i64, i32);

/// The chart point of a reading.
pub open spec fn chart_point(r: BatteryRecord) -> ChartPoint {
    (r.timestamp, match r.capacity {
        Some(c) => c,
        None => 0,
    })
}

/// The chart points of readings, in order.
pub open spec fn chart_points(rs: Seq<BatteryRecord>) -> Seq<ChartPoint> {
    rs.map_values(|r: BatteryRecord| chart_point(r))
}

/// How many readings from the first on have status `st`.
pub open spec fn run_len(rs: Seq<BatteryRecord>, st: BatteryStatus) -> nat
    decreases rs.len(),
{
    if rs.len() == 0 || rs[0].status != st {
        0
    } else {
        1 + run_len(rs.drop_first(), st)
    }
}

/// The capacity line cut where the status changes: each run of readings of one
/// status is a segment of that status, which also reaches the first point of the
/// next run, so that the segments join.
pub open spec fn status_segments(rs: Seq<BatteryRecord>) -> Seq<(BatteryStatus, Seq<ChartPoint>)>
    decreases rs.len(),
{
    if rs.len() == 0 {
        Seq::empty()
    } else {
        let st = rs[0].status;
        let n = run_len(rs, st);
        if n >= rs.len() {
            seq![(st, chart_points(rs))]
        } else {
            proof {
                assert(run_len(rs, st) == 1 + run_len(rs.drop_first(), st));
            }
            seq![(st, chart_points(rs.take(n as int)).push(chart_point(rs[n as int])))]
                + status_segments(rs.skip(n as int))
        }
    }
}

/// The segments still to come once the segment of status `st` has gathered the
/// points `cur` and the readings `rest` remain.
pub open spec fn segments_after(st: BatteryStatus, cur: Seq<ChartPoint>, rest: Seq<BatteryRecord>) -> Seq<(BatteryStatus, Seq<ChartPoint>)> {
    let n = run_len(rest, st);
    if n >= rest.len() {
        seq![(st, cur + chart_points(rest))]
    } else {
        seq![(st, cur + chart_points(rest.take(n as int)).push(chart_point(rest[n as int])))]
            + status_segments(rest.skip(n as int))
    }
}

proof fn lemma_run_len_bound(rs: Seq<BatteryRecord>, st: BatteryStatus)
    ensures
        run_len(rs, st) <= rs.len(),
    decreases rs.len(),
{
    if rs.len() > 0 && rs[0].status == st {
        lemma_run_len_bound(rs.drop_first(), st);
    }
}

proof fn lemma_same_status(st: BatteryStatus, cur: Seq<ChartPoint>, rest: Seq<BatteryRecord>)
    requires
        rest.len() > 0,
        rest[0].status == st,
    ensures
        segments_after(st, cur, rest) == segments_after(st, cur.push(chart_point(rest[0])), rest.drop_first()),
{
    let tail = rest.drop_first();
    let m = run_len(tail, st);
    let n = run_len(rest, st);
    assert(n == 1 + m);
    lemma_run_len_bound(tail, st);
    assert(chart_points(rest) =~= seq![chart_point(rest[0])] + chart_points(tail));
    if m >= tail.len() {
        assert(cur + chart_points(rest) =~= cur.push(chart_point(rest[0])) + chart_points(tail));
    } else {
        assert(rest.take(n as int) =~= seq![rest[0]] + tail.take(m as int));
        assert(chart_points(rest.take(n as int)) =~= seq![chart_point(rest[0])] + chart_points(tail.take(m as int)));
        assert(cur + chart_points(rest.take(n as int)) =~= cur.push(chart_point(rest[0])) + chart_points(tail.take(m as int)));
        assert(rest[n as int] == tail[m as int]);
        assert(rest.skip(n as int) =~= tail.skip(m as int));
        let a = (cur + chart_points(rest.take(n as int))).push(chart_point(rest[n as int]));
        let b = (cur.push(chart_point(rest[0])) + chart_points(tail.take(m as int))).push(chart_point(tail[m as int]));
        assert(a =~= b);
        assert(segments_after(st, cur, rest) == seq![(st, a)] + status_segments(rest.skip(n as int)));
        assert(segments_after(st, cur.push(chart_point(rest[0])), tail) == seq![(st, b)] + status_segments(tail.skip(m as int)));
    }
}

proof fn lemma_segments_start(rs: Seq<BatteryRecord>)
    requires
        rs.len() > 0,
    ensures
        status_segments(rs) == segments_after(rs[0].status, Seq::empty(), rs),
{
    let st = rs[0].status;
    let n = run_len(rs, st);
    if n >= rs.len() {
        assert(Seq::<ChartPoint>::empty() + chart_points(rs) =~= chart_points(rs));
    } else {
        assert(Seq::<ChartPoint>::empty() + chart_points(rs.take(n as int)) =~= chart_points(rs.take(n as int)));
    }
}

proof fn lemma_status_change(st: BatteryStatus, cur: Seq<ChartPoint>, rest: Seq<BatteryRecord>)
    requires
        rest.len() > 0,
        rest[0].status != st,
    ensures
        segments_after(st, cur, rest)
            == seq![(st, cur.push(chart_point(rest[0])))]
                + segments_after(rest[0].status, seq![chart_point(rest[0])], rest.drop_first()),
{
    assert(run_len(rest, st) == 0);
    assert(rest.take(0) =~= Seq::<BatteryRecord>::empty());
    assert(chart_points(rest.take(0)) =~= Seq::<ChartPoint>::empty());
    assert(cur + chart_points(rest.take(0)) =~= cur);
    assert(rest.skip(0) =~= rest);
    lemma_segments_start(rest);
    lemma_same_status(rest[0].status, Seq::empty(), rest);
    assert(Seq::<ChartPoint>::empty().push(chart_point(rest[0])) =~= seq![chart_point(rest[0])]);
}

proof fn lemma_run_stops(rs: Seq<BatteryRecord>, st: BatteryStatus)
    ensures
        run_len(rs, st) <= rs.len(),
        run_len(rs, st) < rs.len() ==> rs[run_len(rs, st) as int].status != st,
    decreases rs.len(),
{
    if rs.len() > 0 && rs[0].status == st {
        lemma_run_stops(rs.drop_first(), st);
        let m = run_len(rs.drop_first(), st);
        if m < rs.drop_first().len() {
            assert(rs[m as int + 1] == rs.drop_first()[m as int]);
        }
    }
}

/// The segments of a nonempty reading list are nonempty, adjacent segments have
/// different statuses, each segment but the last ends where the next begins, and
/// the first begins at the first reading with its status.
proof fn lemma_segments_shape(rs: Seq<BatteryRecord>)
    ensures
        rs.len() > 0 ==> status_segments(rs).len() > 0
            && status_segments(rs)[0].0 == rs[0].status
            && status_segments(rs)[0].1.len() > 0
            && status_segments(rs)[0].1[0] == chart_point(rs[0]),
        forall|k: int| 0 <= k < status_segments(rs).len() ==> (#[trigger] status_segments(rs)[k]).1.len() > 0,
        forall|k: int| 0 <= k < status_segments(rs).len() - 1 ==> {
            let a = #[trigger] status_segments(rs)[k];
            let b = status_segments(rs)[k + 1];
            a.0 != b.0 && a.1.last() == b.1[0]
        },
    decreases rs.len(),
{
    if rs.len() > 0 {
        let st = rs[0].status;
        let n = run_len(rs, st);
        lemma_run_stops(rs, st);
        assert(n == 1 + run_len(rs.drop_first(), st));
        if n < rs.len() {
            let rest = rs.skip(n as int);
            lemma_segments_shape(rest);
            let a = (st, chart_points(rs.take(n as int)).push(chart_point(rs[n as int])));
            let tail = status_segments(rest);
            assert(status_segments(rs) == seq![a] + tail);
            assert(rest[0] == rs[n as int]);
            assert(chart_points(rs.take(n as int))[0] == chart_point(rs[0]));
            assert forall|k: int| 0 <= k < status_segments(rs).len() - 1 implies {
                let x = #[trigger] status_segments(rs)[k];
                let y = status_segments(rs)[k + 1];
                x.0 != y.0 && x.1.last() == y.1[0]
            } by {
                if k > 0 {
                    assert(status_segments(rs)[k] == tail[k - 1]);
                    assert(status_segments(rs)[k + 1] == tail[k]);
                } else {
                    assert(status_segments(rs)[1] == tail[0]);
                }
            }
            assert forall|k: int| 0 <= k < status_segments(rs).len() implies (#[trigger] status_segments(rs)[k]).1.len() > 0 by {
                if k > 0 {
                    assert(status_segments(rs)[k] == tail[k - 1]);
                }
            }
        }
    }
}

/// The capacity line's segments join up: every segment has a point, the
/// segments alternate in status, each one but the last ends at the point where
/// the next begins, and the first begins at the first reading.
pub proof fn law_status_segments_join(rs: Seq<BatteryRecord>)
    ensures
        rs.len() == 0 <==> status_segments(rs).len() == 0,
        rs.len() > 0 ==> status_segments(rs)[0].0 == rs[0].status && status_segments(rs)[0].1[0] == chart_point(rs[0]),
        forall|k: int| 0 <= k < status_segments(rs).len() ==> (#[trigger] status_segments(rs)[k]).1.len() > 0,
        forall|k: int| 0 <= k < status_segments(rs).len() - 1 ==> {
            let a = #[trigger] status_segments(rs)[k];
            let b = status_segments(rs)[k + 1];
            a.0 != b.0 && a.1.last() == b.1[0]
        },
{
    lemma_segments_shape(rs);
}

/// The segments as statuses and point sequences.
pub open spec fn segments_view(v: Seq<(BatteryStatus, Vec<ChartPoint>)>) -> Seq<(BatteryStatus, Seq<ChartPoint>)> {
    v.map_values(|e: (BatteryStatus, Vec<ChartPoint>)| (e.0, e.1@))
}

fn point_of(r: &BatteryRecord) -> (p: ChartPoint)
    ensures
        p == chart_point(*r),
{
    (r.timestamp, match r.capacity {
        Some(c) => c,
        None => 0,
    })
}

/// The capacity line of `records` cut into segments of one status each (see
/// `status_segments`); none without readings.
pub fn build_status_segments(records: &[BatteryRecord]) -> (r: Vec<(BatteryStatus, Vec<ChartPoint>)>)
    ensures
        segments_view(r@) == status_segments(records@),
{
    if records.len() == 0 {
        return Vec::new();
    }
    let ghost rs = records@;
    let mut segments: Vec<(BatteryStatus, Vec<ChartPoint>)> = Vec::new();
    let mut current_status = records[0].status;
    let mut current_points: Vec<ChartPoint> = Vec::new();
    proof {
        lemma_segments_start(rs);
        assert(rs.skip(0) =~= rs);
    }
    let mut i: usize = 0;
    while i < records.len()
        invariant
            rs == records@,
            rs.len() > 0,
            i <= rs.len(),
            i > 0 ==> current_points@.len() > 0,
            segments_view(segments@) + segments_after(current_status, current_points@, rs.skip(i as int))
                == status_segments(rs),
        decreases rs.len() - i,
    {
        let ghost rest = rs.skip(i as int);
        let ghost before = segments_view(segments@);
        assert(rest[0] == rs[i as int]);
        assert(rest.drop_first() =~= rs.skip(i as int + 1));
        let record = &records[i];
        let point = point_of(record);
        if record.status != current_status {
            proof {
                lemma_status_change(current_status, current_points@, rest);
            }
            current_points.push(point);
            let ghost closed = current_points@;
            let mut done_points: Vec<ChartPoint> = Vec::new();
            std::mem::swap(&mut done_points, &mut current_points);
            segments.push((current_status, done_points));
            assert(segments_view(segments@) =~= before.push((current_status, closed)));
            current_status = record.status;
            current_points.push(point);
            assert(current_points@ =~= seq![point]);
            proof {
                let tail = segments_after(rest[0].status, seq![chart_point(rest[0])], rest.drop_first());
                assert(before.push((segments@[segments@.len() - 1].0, closed)) + tail
                    =~= before + (seq![(segments@[segments@.len() - 1].0, closed)] + tail));
            }
        } else {
            proof {
                lemma_same_status(current_status, current_points@, rest);
            }
            current_points.push(point);
        }
        i += 1;
    }
    proof {
        assert(rs.skip(rs.len() as int) =~= Seq::<BatteryRecord>::empty());
        assert(current_points@ + chart_points(Seq::<BatteryRecord>::empty()) =~= current_points@);
    }
    segments.push((current_status, current_points));
    segments
}

} // verus!
