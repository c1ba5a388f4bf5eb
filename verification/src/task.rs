//! A pending change of an output, due at a deadline.

use vstd::prelude::*;

use crate::io_value::IOValue;

verus! {

/// A state that an output reaches at `deadline` (milliseconds of a
/// monotonic clock). Tasks are ordered by deadline.
#[derive(Debug, PartialEq)]
pub struct Task {
    pub deadline: u64,
    pub target_state: IOValue,
}

/// `a + b`, capped at the largest `u64`.
pub open spec fn saturating_sum(a: u64, b: u64) -> u64 {
    if a + b <= u64::MAX {
        (a + b) as u64
    } else {
        u64::MAX
    }
}

impl Task {
    /// The task of reaching `target_state` `duration` milliseconds after `now`.
    pub fn from_now(now: u64, duration: u64, target_state: IOValue) -> (r: Self)
        ensures
            r.deadline == saturating_sum(now, duration),
            r.target_state == target_state,
    {
        Self { deadline: now.saturating_add(duration), target_state }
    }

    /// Whether the task is due at `now`.
    pub fn is_due(&self, now: u64) -> (r: bool)
        ensures
            r == (self.deadline <= now),
    {
        self.deadline <= now
    }

    /// Whether `self` falls due before `other`.
    pub fn is_before(&self, other: &Task) -> (r: bool)
        ensures
            r == (self.deadline < other.deadline),
    {
        self.deadline < other.deadline
    }
}

} // verus!
