//! The retry policy HTTP calls run under: exponential backoff from 100 ms,
//! doubling to a 2 s cap, within a total budget of 5 s.  The calls
//! themselves are the host program's; it sleeps and retries as these
//! decisions say.

use vstd::prelude::*;

verus! {

/// The first pause after a transient failure, in milliseconds.
pub const INITIAL_RETRY_DELAY_MS: u64 = 100;

/// The longest pause between attempts, in milliseconds.
pub const MAX_RETRY_DELAY_MS: u64 = 2000;

/// The total time budget for one call, in milliseconds.
pub const RETRY_BUDGET_MS: u64 = 5000;

/// The backoff state of one call: the pause the next transient failure will
/// cost.
#[derive(Debug, Clone, Copy, PartialEq, Eq, Structural)]
pub struct RetryPolicy {
    pub delay_ms: u64,
}

/// A fresh policy, as each HTTP call starts with.
pub fn backoff() -> (r: RetryPolicy)
    ensures
        r.delay_ms == INITIAL_RETRY_DELAY_MS,
{
    RetryPolicy { delay_ms: INITIAL_RETRY_DELAY_MS }
}

impl RetryPolicy {
    /// Whether a transient failure observed after `elapsed_ms` still gets a
    /// retry: only within the total budget.
    pub fn should_retry(&self, elapsed_ms: u64) -> (r: bool)
        ensures
            r == (elapsed_ms <= RETRY_BUDGET_MS),
    {
        elapsed_ms <= RETRY_BUDGET_MS
    }

    /// The pause before the next attempt; each pause doubles the next one,
    /// up to the cap.
    pub fn next_delay(&mut self) -> (r: u64)
        requires
            old(self).delay_ms <= MAX_RETRY_DELAY_MS,
        ensures
            r == old(self).delay_ms,
            final(self).delay_ms == if 2 * old(self).delay_ms >= MAX_RETRY_DELAY_MS {
                MAX_RETRY_DELAY_MS as int
            } else {
                2 * old(self).delay_ms
            },
            final(self).delay_ms <= MAX_RETRY_DELAY_MS,
    {
        let current = self.delay_ms;
        let doubled = current * 2;
        self.delay_ms = if doubled >= MAX_RETRY_DELAY_MS {
            MAX_RETRY_DELAY_MS
        } else {
            doubled
        };
        current
    }
}

} // verus!
