//! The decisions of the front end's background tasks: when to warn that the
//! event stream is down, when to say it is back, and how long to wait before
//! retrying a failed call. The tasks themselves wait, read and send.
use vstd::prelude::*;

verus! {

/// How long, in milliseconds, a disconnection warning silences the next one.
pub const DEDUP_WINDOW_MS: u64 = 30000;

/// What the event task knows of the stream's health. Times are milliseconds on
/// a clock that does not go back.
#[derive(Debug, Clone, Copy, PartialEq, Eq)]
pub struct DisconnectState {
    pub consecutive_errors: u32,
    pub warned: bool,
    pub last_msg_at: Option<u64>,
    pub had_live_stream: bool,
    pub threshold: u32,
}

/// Whether the last warning, if any, is at least the window old at `now`.
pub open spec fn window_passed(last: Option<u64>, now: u64) -> bool {
    match last {
        None => true,
        Some(t) => (if now >= t { now - t } else { 0 }) >= DEDUP_WINDOW_MS,
    }
}

impl DisconnectState {
    /// A stream that has seen nothing yet; `threshold` errors in a row warn.
    pub fn new(threshold: u32) -> (r: Self)
        ensures
            r == (DisconnectState {
                consecutive_errors: 0,
                warned: false,
                last_msg_at: None,
                had_live_stream: false,
                threshold,
            }),
    {
        DisconnectState { consecutive_errors: 0, warned: false, last_msg_at: None, had_live_stream: false, threshold }
    }

    /// An event arrived: the error count restarts and the stream is live. Gives
    /// whether to say the stream is back (it had been reported down).
    pub fn on_event(&mut self) -> (r: bool)
        ensures
            r == old(self).warned,
            *final(self) == (DisconnectState {
                consecutive_errors: 0,
                warned: false,
                had_live_stream: true,
                ..*old(self)
            }),
    {
        self.consecutive_errors = 0;
        self.had_live_stream = true;
        if self.warned {
            self.warned = false;
            true
        } else {
            false
        }
    }

    /// An error arrived at `now`: one more in a row (at most the largest `u32`).
    /// Gives whether to warn: the count reached the threshold, no warning stands,
    /// and the last one is at least the window old; a warning is then recorded.
    pub fn on_error(&mut self, now: u64) -> (r: bool)
        ensures
            final(self).consecutive_errors == if old(self).consecutive_errors == u32::MAX {
                u32::MAX
            } else {
                (old(self).consecutive_errors + 1) as u32
            },
            r == (final(self).consecutive_errors >= old(self).threshold && !old(self).warned && window_passed(
                old(self).last_msg_at,
                now,
            )),
            final(self).warned == (old(self).warned || r),
            final(self).last_msg_at == if r {
                Some(now)
            } else {
                old(self).last_msg_at
            },
            final(self).had_live_stream == old(self).had_live_stream,
            final(self).threshold == old(self).threshold,
    {
        self.consecutive_errors = self.consecutive_errors.saturating_add(1);
        let passed = match self.last_msg_at {
            None => true,
            Some(t) => now.saturating_sub(t) >= DEDUP_WINDOW_MS,
        };
        let should_warn = self.consecutive_errors >= self.threshold && !self.warned && passed;
        if should_warn {
            self.warned = true;
            self.last_msg_at = Some(now);
        }
        should_warn
    }

    /// The stream is reconnecting: gives whether it had been live (so what was
    /// streamed must be forgotten); it is not live from now on.
    pub fn on_reconnecting(&mut self) -> (r: bool)
        ensures
            r == old(self).had_live_stream,
            *final(self) == (DisconnectState { had_live_stream: false, ..*old(self) }),
    {
        let had = self.had_live_stream;
        self.had_live_stream = false;
        had
    }
}

/// Between two events the user is warned at most once: once a warning stands,
/// errors do not warn again until an event arrives.
pub proof fn law_one_warning_per_outage(s: DisconnectState, after: DisconnectState, warned_now: bool, now: u64)
    requires
        s.warned,
        warned_now == (after.consecutive_errors >= s.threshold && !s.warned && window_passed(s.last_msg_at, now)),
        after.warned == (s.warned || warned_now),
    ensures
        !warned_now,
        after.warned,
{
}

/// The seconds to wait after failed attempt `attempt` (counted from one) before
/// the next, when attempts are left: 1, 2, 4, ... doubling up to 32, and never
/// more than 30; nothing when it was the last allowed attempt.
pub open spec fn retry_delay(attempt: u32, max_attempts: u32) -> Option<u64> {
    if attempt < max_attempts {
        let d: u64 = if attempt - 1 >= 5 {
            32
        } else if attempt - 1 == 4 {
            16
        } else if attempt - 1 == 3 {
            8
        } else if attempt - 1 == 2 {
            4
        } else if attempt - 1 == 1 {
            2
        } else {
            1
        };
        Some(if d > 30 { 30 } else { d })
    } else {
        None
    }
}

/// The wait before the next attempt (see `retry_delay`).
pub fn retry_delay_secs(attempt: u32, max_attempts: u32) -> (r: Option<u64>)
    requires
        attempt >= 1,
    ensures
        r == retry_delay(attempt, max_attempts),
{
    if attempt < max_attempts {
        let e = if attempt - 1 < 5 { attempt - 1 } else { 5 };
        let d: u64 = 1u64 << e;
        proof {
            assert(1u64 << 0u32 == 1) by (bit_vector);
            assert(1u64 << 1u32 == 2) by (bit_vector);
            assert(1u64 << 2u32 == 4) by (bit_vector);
            assert(1u64 << 3u32 == 8) by (bit_vector);
            assert(1u64 << 4u32 == 16) by (bit_vector);
            assert(1u64 << 5u32 == 32) by (bit_vector);
        }
        Some(if d > 30 { 30 } else { d })
    } else {
        None
    }
}

} // verus!
