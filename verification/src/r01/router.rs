//! How the router's readings become the values the interface shows: each file
//! or `uci` value read as text, then parsed and bounded.
use vstd::prelude::*;
use vstd::string::*;
use crate::text::{parse_i64, parse_i64_spec, parse_u32, parse_u32_spec, trim, trim_str};

verus! {

/// The router; its readings come from sysfs files and `uci`.
#[derive(Debug, Default)]
pub struct RouterSystem;

/// The number a sysfs file holds, trimmed.
pub open spec fn int_reading(text: Seq<char>) -> Option<i64> {
    parse_i64_spec(trim(text))
}

impl RouterSystem {
    /// The number in the text of a sysfs file (see `int_reading`).
    pub fn read_int_text(text: &str) -> (r: Option<i64>)
        ensures
            r == int_reading(text@),
    {
        parse_i64(&trim_str(text))
    }

    /// A temperature in millidegrees: the reading, or zero when there is none, cut
    /// to 32 bits.
    pub fn temp_from(reading: Option<i64>) -> (r: i32)
        ensures
            r == (match reading {
                Some(v) => v,
                None => 0i64,
            }) as i32,
    {
        let v = match reading {
            Some(v) => v,
            None => 0,
        };
        #[verifier::truncate]
        (v as i32)
    }

    /// The fan's duty cycle: the reading (zero when there is none) held to 0..=255.
    pub fn fan_pwm_from(reading: Option<i64>) -> (r: u8)
        ensures
            r == ({
                let v = match reading {
                    Some(v) => v,
                    None => 0i64,
                };
                if v < 0 { 0 } else if v > 255 { 255 } else { v }
            }),
    {
        let v = match reading {
            Some(v) => v,
            None => 0,
        };
        if v < 0 {
            0
        } else if v > 255 {
            255
        } else {
            v as u8
        }
    }

    /// The fan's speed: the reading (zero when there is none, or below zero), cut
    /// to 32 bits.
    pub fn fan_rpm_from(reading: Option<i64>) -> (r: u32)
        ensures
            r == ({
                let v = match reading {
                    Some(v) => v,
                    None => 0i64,
                };
                if v < 0 { 0i64 } else { v }
            }) as u32,
    {
        let v = match reading {
            Some(v) => v,
            None => 0,
        };
        let m = if v < 0 { 0 } else { v };
        #[verifier::truncate]
        (m as u32)
    }

    /// The highest backlight level: the reading, or 255 when there is none, cut
    /// to 32 bits.
    pub fn max_backlight_from(reading: Option<i64>) -> (r: u32)
        ensures
            r == (match reading {
                Some(v) => v,
                None => 255i64,
            }) as u32,
    {
        let v = match reading {
            Some(v) => v,
            None => 255,
        };
        #[verifier::truncate]
        (v as u32)
    }

    /// The idle time after which the session ends, from its `uci` value.
    pub fn idle_seconds_from(value: Option<&str>) -> (r: Option<u32>)
        ensures
            r == match value {
                Some(t) => parse_u32_spec(t@),
                None => None,
            },
    {
        match value {
            Some(t) => parse_u32(&crate::text::chars_of(t)),
            None => None,
        }
    }

    /// The fan mode's text: its `uci` value, or `auto` when it could not be read.
    pub fn fan_mode_text(value: Option<String>) -> (r: String)
        ensures
            r@ == match value {
                Some(t) => t@,
                None => "auto"@,
            },
    {
        match value {
            Some(t) => t,
            None => String::from_str("auto"),
        }
    }

    /// The administrator's Wi-Fi name and password, when both were read and the
    /// name is not empty; the guest network shows none.
    pub fn wifi_credentials(guest: bool, ssid: Option<String>, key: Option<String>) -> (r: Option<(String, String)>)
        ensures
            guest ==> r is None,
            !guest ==> match (ssid, key) {
                (Some(s), Some(k)) => if s@.len() > 0 {
                    r matches Some(p) && p.0@ == s@ && p.1@ == k@
                } else {
                    r is None
                },
                _ => r is None,
            },
    {
        if guest {
            return None;
        }
        match (ssid, key) {
            (Some(s), Some(k)) => if !s.as_str().is_empty() {
                Some((s, k))
            } else {
                None
            },
            _ => None,
        }
    }

    /// What is written to the framebuffer's `blank` file: `4` to blank it, `0`
    /// to light it.
    pub fn blank_value(on: bool) -> (r: &'static str)
        ensures
            r@ == if on { "4"@ } else { "0"@ },
    {
        if on { "4" } else { "0" }
    }

    /// The argument of `uci set`: `<key>=<value>`.
    pub fn uci_set_arg(key: &str, value: &str) -> (r: String)
        ensures
            r@ == key@ + "="@ + value@,
    {
        let mut out = String::from_str(key);
        out.append("=");
        out.append(value);
        out
    }

    /// The init script of a service: `/etc/init.d/<svc>`.
    pub fn init_script(svc: &str) -> (r: String)
        ensures
            r@ == "/etc/init.d/"@ + svc@,
    {
        let mut out = String::from_str("/etc/init.d/");
        out.append(svc);
        out
    }

    /// The value `uci get` printed: its output, trimmed.
    pub fn uci_value(stdout: &str) -> (r: String)
        ensures
            r@ == trim(stdout@),
    {
        crate::text::string_of(&trim_str(stdout))
    }
}

} // verus!
