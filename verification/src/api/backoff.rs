//! Exponential backoff state machine.
//!
//! Sequence: 1s, 2s, 4s, 8s, 16s, 32s, then 60s for any further attempts.
//! When the server provides a `Retry-After` header, it overrides the
//! schedule, clamped to [`MAX_RETRY_AFTER_SECS`] so a hostile or
//! misconfigured server cannot park a request for hours.

use vstd::prelude::*;

verus! {

/// Upper bound, in seconds, on a server-supplied `Retry-After` delay.
pub const MAX_RETRY_AFTER_SECS: u64 = 300;

/// Delay in seconds before the next attempt after `attempts` failures, when
/// the server named no delay.
pub open spec fn schedule_secs(attempts: u32) -> u64 {
    if attempts <= 1 {
        1
    } else if attempts == 2 {
        2
    } else if attempts == 3 {
        4
    } else if attempts == 4 {
        8
    } else if attempts == 5 {
        16
    } else if attempts == 6 {
        32
    } else {
        60
    }
}

/// The delay chosen for `attempts` failures and an optional server delay.
pub open spec fn delay_spec(attempts: u32, retry_after: Option<u64>) -> u64 {
    match retry_after {
        Some(d) => if d < MAX_RETRY_AFTER_SECS {
            d
        } else {
            MAX_RETRY_AFTER_SECS
        },
        None => schedule_secs(attempts),
    }
}

/// Failure count after one more failure (saturating).
pub open spec fn after_failure(attempts: u32) -> u32 {
    if attempts == u32::MAX {
        u32::MAX
    } else {
        (attempts + 1) as u32
    }
}

/// Consecutive-failure counter driving the retry delays.
#[derive(Debug)]
pub struct BackoffState {
    attempts: u32,
}

impl View for BackoffState {
    type V = u32;

    /// The number of failures recorded since the last success.
    closed spec fn view(&self) -> u32 {
        self.attempts
    }
}

impl Default for BackoffState {
    fn default() -> (r: Self)
        ensures
            r@ == 0,
    {
        BackoffState { attempts: 0 }
    }
}

impl BackoffState {
    /// A counter with no failures recorded.
    pub fn new() -> (r: Self)
        ensures
            r@ == 0,
    {
        BackoffState { attempts: 0 }
    }

    /// Failures recorded since the last success.
    pub fn attempts(&self) -> (r: u32)
        ensures
            r == self@,
    {
        self.attempts
    }

    /// Records one more failure.
    pub fn record_failure(&mut self)
        ensures
            final(self)@ == after_failure(old(self)@),
    {
        self.attempts = self.attempts.saturating_add(1);
    }

    /// Resets the counter after a success.
    pub fn record_success(&mut self)
        ensures
            final(self)@ == 0,
    {
        self.attempts = 0;
    }

    /// Seconds to wait before the next attempt, given an optional
    /// `Retry-After` delay (in seconds) from the server.
    pub fn next_delay(&self, retry_after: Option<u64>) -> (r: u64)
        ensures
            r == delay_spec(self@, retry_after),
    {
        if let Some(d) = retry_after {
            return if d < MAX_RETRY_AFTER_SECS {
                d
            } else {
                MAX_RETRY_AFTER_SECS
            };
        }
        if self.attempts <= 1 {
            1
        } else if self.attempts == 2 {
            2
        } else if self.attempts == 3 {
            4
        } else if self.attempts == 4 {
            8
        } else if self.attempts == 5 {
            16
        } else if self.attempts == 6 {
            32
        } else {
            60
        }
    }
}

/// The schedule doubles from one failure to the next until it reaches 32
/// seconds, then holds at 60 seconds; it never decreases and never exceeds
/// 60 seconds.
pub proof fn law_schedule_doubles_then_caps(a: u32, b: u32)
    ensures
        1 <= a < 6 ==> schedule_secs((a + 1) as u32) == 2 * schedule_secs(a),
        a >= 7 ==> schedule_secs(a) == 60,
        a <= b ==> schedule_secs(a) <= schedule_secs(b),
        1 <= schedule_secs(a) <= 60,
{
}

/// A server-supplied delay is honored exactly up to the cap and clamped to
/// the cap above it; it overrides the schedule whatever the failure count.
pub proof fn law_retry_after_clamped(attempts: u32, d: u64)
    ensures
        d <= MAX_RETRY_AFTER_SECS ==> delay_spec(attempts, Some(d)) == d,
        d > MAX_RETRY_AFTER_SECS ==> delay_spec(attempts, Some(d)) == MAX_RETRY_AFTER_SECS,
        delay_spec(attempts, Some(d)) <= MAX_RETRY_AFTER_SECS,
{
}

/// A success followed by a failure restarts the schedule at one second,
/// whatever came before.
pub proof fn law_success_resets()
    ensures
        delay_spec(after_failure(0), None) == 1,
{
}

} // verus!
