//! Retry policy for the persistent connection: exponential backoff with
//! no ceiling on the total elapsed time, reset to nothing on a clean
//! restart, and a hard stop on permanent failures.
use vstd::prelude::*;

verus! {

/// How a connection outcome bears on retrying.
#[derive(Clone, Copy, Debug, PartialEq, Eq, Structural)]
pub enum BackoffKind {
    Restart,
    Transient,
    Permanent,
}

/// Implemented by error types that can say what kind of backoff they
/// call for.
pub trait AsBackoffKind {
    fn as_backoff_kind(&self) -> BackoffKind;
}

/// What the caller of `wait_to_retry` must do next.
#[derive(Clone, Copy, Debug, PartialEq, Eq, Structural)]
pub enum RetryDecision {
    SleepMs(u64),
    Stop,
}

/// The delay that follows `d` in the schedule: half as much again,
/// saturating at the cap.
pub open spec fn next_delay(d: u64, max_ms: u64) -> u64 {
    if d > max_ms / 3 * 2 {
        max_ms
    } else {
        (d + d / 2) as u64
    }
}

/// The retry policy: the delay the next transient failure earns.
pub struct RetryPolicy {
    pub initial_ms: u64,
    pub max_ms: u64,
    pub current_ms: u64,
}

impl RetryPolicy {
    /// A policy that starts over from `initial_ms` and never waits more
    /// than `max_ms` at a time.
    pub fn new(initial_ms: u64, max_ms: u64) -> (r: Self)
        requires
            initial_ms <= max_ms,
        ensures
            r.initial_ms == initial_ms,
            r.max_ms == max_ms,
            r.current_ms == initial_ms,
    {
        RetryPolicy { initial_ms, max_ms, current_ms: initial_ms }
    }

    /// Decides how to go on after one connection attempt: success or a
    /// clean restart resets the schedule and retries at once; a
    /// transient failure waits out the current delay and grows it; a
    /// permanent failure stops the component.
    pub fn wait_to_retry(&mut self, outcome: Option<BackoffKind>) -> (r: RetryDecision)
        requires
            old(self).initial_ms <= old(self).max_ms,
            old(self).current_ms <= old(self).max_ms,
        ensures
            final(self).initial_ms == old(self).initial_ms,
            final(self).max_ms == old(self).max_ms,
            (outcome is None || outcome == Some(BackoffKind::Restart)) ==> (r
                == RetryDecision::SleepMs(0) && final(self).current_ms == old(self).initial_ms),
            outcome == Some(BackoffKind::Transient) ==> (r == RetryDecision::SleepMs(
                old(self).current_ms,
            ) && final(self).current_ms == next_delay(old(self).current_ms, old(self).max_ms)
                && final(self).current_ms <= old(self).max_ms),
            outcome == Some(BackoffKind::Permanent) ==> (r == RetryDecision::Stop && *final(self)
                == *old(self)),
    {
        match outcome {
            None | Some(BackoffKind::Restart) => {
                self.current_ms = self.initial_ms;
                RetryDecision::SleepMs(0)
            },
            Some(BackoffKind::Transient) => {
                let delay = self.current_ms;
                if self.current_ms > self.max_ms / 3 * 2 {
                    self.current_ms = self.max_ms;
                } else {
                    self.current_ms = self.current_ms + self.current_ms / 2;
                }
                RetryDecision::SleepMs(delay)
            },
            Some(BackoffKind::Permanent) => RetryDecision::Stop,
        }
    }
}

} // verus!
