//! Exponential backoff for transport errors around store updates: delays
//! grow by half each attempt until a time budget runs out.

use vstd::prelude::*;

verus! {

pub open spec fn sat_add(a: int, b: int) -> int {
    if a + b > u64::MAX {
        u64::MAX as int
    } else {
        a + b
    }
}

/// A retry budget: the next delay, what has been waited so far, and the
/// total wait allowed.
#[derive(Debug, Clone, Copy, PartialEq, Eq, Structural)]
pub struct RetryPolicy {
    pub current_interval_ms: u64,
    pub elapsed_ms: u64,
    pub max_elapsed_ms: u64,
}

impl RetryPolicy {
    /// A fresh budget.
    pub fn new(initial_interval_ms: u64, max_elapsed_ms: u64) -> (r: RetryPolicy)
        ensures
            r.current_interval_ms == initial_interval_ms,
            r.elapsed_ms == 0,
            r.max_elapsed_ms == max_elapsed_ms,
    {
        RetryPolicy { current_interval_ms: initial_interval_ms, elapsed_ms: 0, max_elapsed_ms }
    }

    /// The next delay to sleep before retrying, or nothing once the waited
    /// time passes the budget: then the failure is permanent.  Each granted
    /// delay counts toward the budget and grows the next one by half.
    pub fn next_backoff(&mut self) -> (r: Option<u64>)
        ensures
            match r {
                Some(d) => {
                    &&& old(self).elapsed_ms <= old(self).max_elapsed_ms
                    &&& d == old(self).current_interval_ms
                    &&& final(self).elapsed_ms == sat_add(old(self).elapsed_ms as int, d as int)
                    &&& final(self).current_interval_ms == sat_add(
                        old(self).current_interval_ms as int,
                        old(self).current_interval_ms as int / 2,
                    )
                    &&& final(self).max_elapsed_ms == old(self).max_elapsed_ms
                },
                None => old(self).elapsed_ms > old(self).max_elapsed_ms && *final(self) == *old(
                    self,
                ),
            },
    {
        if self.elapsed_ms > self.max_elapsed_ms {
            return None;
        }
        let d = self.current_interval_ms;
        self.elapsed_ms = if self.elapsed_ms > u64::MAX - d {
            u64::MAX
        } else {
            self.elapsed_ms + d
        };
        let half = d / 2;
        self.current_interval_ms = if d > u64::MAX - half {
            u64::MAX
        } else {
            d + half
        };
        Some(d)
    }
}

} // verus!
