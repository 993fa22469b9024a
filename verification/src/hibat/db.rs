//! Battery records as the history database stores them.
use vstd::prelude::*;

verus! {

/// What the battery reported doing.
#[derive(Debug, Clone, Copy, PartialEq, Eq, Structural)]
pub enum BatteryStatus {
    Charging,
    Discharging,
    Full,
    NotCharging,
    Unknown,
}

/// The status a kernel status text names: the four the kernel writes, and
/// unknown for any other text or none.
pub open spec fn status_of_text(s: Option<Seq<char>>) -> BatteryStatus {
    match s {
        Some(t) => if t == "Charging"@ {
            BatteryStatus::Charging
        } else if t == "Discharging"@ {
            BatteryStatus::Discharging
        } else if t == "Full"@ {
            BatteryStatus::Full
        } else if t == "Not charging"@ {
            BatteryStatus::NotCharging
        } else {
            BatteryStatus::Unknown
        },
        None => BatteryStatus::Unknown,
    }
}

impl BatteryStatus {
    /// The status `s` names (see `status_of_text`).
    pub fn from_str_opt(s: Option<&str>) -> (r: BatteryStatus)
        ensures
            r == status_of_text(match s {
                Some(t) => Some(t@),
                None => None,
            }),
    {
        match s {
            Some(t) => {
                let ts = t.to_string();
                if ts == "Charging".to_string() {
                    BatteryStatus::Charging
                } else if ts == "Discharging".to_string() {
                    BatteryStatus::Discharging
                } else if ts == "Full".to_string() {
                    BatteryStatus::Full
                } else if ts == "Not charging".to_string() {
                    BatteryStatus::NotCharging
                } else {
                    BatteryStatus::Unknown
                }
            },
            None => BatteryStatus::Unknown,
        }
    }

    /// The status as the kernel and the database write it.
    pub open spec fn spec_as_str(self) -> Seq<char> {
        match self {
            BatteryStatus::Charging => "Charging"@,
            BatteryStatus::Discharging => "Discharging"@,
            BatteryStatus::Full => "Full"@,
            BatteryStatus::NotCharging => "Not charging"@,
            BatteryStatus::Unknown => "Unknown"@,
        }
    }

    /// The status as text (see `spec_as_str`).
    pub fn as_str(&self) -> (r: &'static str)
        ensures
            r@ == self.spec_as_str(),
    {
        match self {
            BatteryStatus::Charging => "Charging",
            BatteryStatus::Discharging => "Discharging",
            BatteryStatus::Full => "Full",
            BatteryStatus::NotCharging => "Not charging",
            BatteryStatus::Unknown => "Unknown",
        }
    }
}

/// A status written as text and read back is the same status.
pub proof fn law_status_text_round_trip(st: BatteryStatus)
    ensures
        status_of_text(Some(st.spec_as_str())) == st,
{
    reveal_strlit("Charging");
    reveal_strlit("Discharging");
    reveal_strlit("Full");
    reveal_strlit("Not charging");
    reveal_strlit("Unknown");
    assert("Charging"@.len() == 8);
    assert("Discharging"@.len() == 11);
    assert("Full"@.len() == 4);
    assert("Not charging"@.len() == 12);
    assert("Unknown"@.len() == 7);
}

/// One reading of one battery, in the kernel's units (microvolts, microamperes,
/// microwatts, microwatt-hours, tenths of a degree).
#[derive(Debug, Clone)]
pub struct BatteryRecord {
    pub id: Option<i64>,
    pub timestamp: i64,
    pub battery: String,
    pub capacity: Option<i32>,
    pub status: BatteryStatus,
    pub voltage_now: Option<i64>,
    pub current_now: Option<i64>,
    pub power_now: Option<i64>,
    pub energy_now: Option<i64>,
    pub energy_full: Option<i64>,
    pub energy_full_design: Option<i64>,
    pub cycle_count: Option<i32>,
    pub temperature: Option<i32>,
}

/// The oldest timestamp a purge keeps, at time `now`: records older than
/// `retention_days` days before `now` go.
pub open spec fn spec_retention_cutoff(now: int, retention_days: nat) -> int {
    now - retention_days * 86400
}

/// The purge cutoff at `now` (see `spec_retention_cutoff`); `None` where the
/// retention period in seconds, or the cutoff, does not fit in `i64`.
pub fn retention_cutoff_at(now: i64, retention_days: u64) -> (r: Option<i64>)
    ensures
        r matches Some(c) ==> c == spec_retention_cutoff(now as int, retention_days as nat),
        r is None <==> retention_days * 86400 > i64::MAX
            || spec_retention_cutoff(now as int, retention_days as nat) < i64::MIN,
{
    if retention_days > 106751991167300u64 {
        assert(retention_days * 86400 > i64::MAX) by (nonlinear_arith)
            requires
                retention_days > 106751991167300u64,
        ;
        return None;
    }
    assert(retention_days * 86400 <= i64::MAX) by (nonlinear_arith)
        requires
            retention_days <= 106751991167300u64,
    ;
    let span = (retention_days as i64) * 86400;
    now.checked_sub(span)
}

/// The purge cutoff now, the clock read through `chrono` (see
/// `retention_cutoff_at`); `None` exactly where the retention period in seconds
/// does not fit in `i64` (a clock reading is never before the epoch, so the
/// cutoff then fits). Whatever the clock says, the cutoff lies the retention
/// period before a clock reading.
pub fn retention_cutoff(retention_days: u64) -> (r: Option<i64>)
    ensures
        r matches Some(c) ==> exists|now: i64| c == #[trigger] spec_retention_cutoff(now as int, retention_days as nat),
        r is None <==> retention_days * 86400 > i64::MAX,
        r matches Some(c) ==> exists|now: int|
            #![trigger spec_retention_cutoff(now, retention_days as nat)]
            crate::hibat::app::clock_reading(now) && c == spec_retention_cutoff(now, retention_days as nat),
{
    let now = crate::hibat::app::utc_now_secs();
    let r = retention_cutoff_at(now, retention_days);
    proof {
        if let Some(c) = r {
            assert(c == spec_retention_cutoff(now as int, retention_days as nat));
            assert(crate::hibat::app::clock_reading(now as int));
        }
    }
    r
}

} // verus!
