//! Jittered exponential backoff, over integer milliseconds.
//!
//! A delay starts at the configured minimum, doubles with each attempt up
//! to the configured maximum, and is stretched by a jitter drawn from
//! entropy the caller supplies: the delay for an attempt lies between the
//! base delay and twice the base delay.

use vstd::prelude::*;

verus! {

/// The backoff parameters: minimum and maximum delay, in milliseconds.
#[derive(Clone, Copy, Debug, PartialEq, Eq, Structural)]
pub struct ExponentialBackoff {
    pub min_ms: u64,
    pub max_ms: u64,
}

impl ExponentialBackoff {
    /// The minimum is positive and no more than the maximum; the maximum
    /// leaves room for a doubled, jittered delay.
    pub open spec fn wf(self) -> bool {
        0 < self.min_ms <= self.max_ms <= u64::MAX / 2
    }

    /// Begins a fresh stream of delays.
    pub fn stream(&self) -> (r: BackoffStream)
        ensures
            r.backoff == *self,
            r.attempt == 0,
    {
        BackoffStream { backoff: *self, attempt: 0 }
    }
}

/// The base delay for an attempt: the minimum doubled `attempt` times,
/// capped at the maximum.
pub open spec fn spec_delay(b: ExponentialBackoff, attempt: nat) -> u64
    decreases attempt,
{
    if attempt == 0 {
        b.min_ms
    } else {
        let p = spec_delay(b, (attempt - 1) as nat);
        if p as int * 2 >= b.max_ms as int {
            b.max_ms
        } else {
            (2 * p) as u64
        }
    }
}

/// Base delays stay between the configured minimum and maximum.
pub proof fn lemma_delay_bounds(b: ExponentialBackoff, attempt: nat)
    requires
        b.wf(),
    ensures
        b.min_ms <= spec_delay(b, attempt) <= b.max_ms,
    decreases attempt,
{
    if attempt > 0 {
        lemma_delay_bounds(b, (attempt - 1) as nat);
    }
}

impl ExponentialBackoff {
    /// Computes the base delay for an attempt.
    #[verifier::loop_isolation(false)]
    pub fn delay_ms(&self, attempt: u64) -> (r: u64)
        requires
            self.wf(),
        ensures
            r == spec_delay(*self, attempt as nat),
            self.min_ms <= r <= self.max_ms,
    {
        proof {
            lemma_delay_bounds(*self, attempt as nat);
        }
        let mut d: u64 = self.min_ms;
        let mut k: u64 = 0;
        while k < attempt
            invariant
                k <= attempt,
                d == spec_delay(*self, k as nat),
                self.min_ms <= d <= self.max_ms,
            decreases attempt - k,
        {
            proof {
                lemma_delay_bounds(*self, (k + 1) as nat);
            }
            if d >= self.max_ms - d {
                d = self.max_ms;
            } else {
                d = 2 * d;
            }
            k = k + 1;
        }
        d
    }

    /// The base delay stretched by jitter drawn from the given entropy:
    /// between the base delay and twice the base delay.
    pub fn jittered_delay_ms(&self, attempt: u64, entropy: u64) -> (r: u64)
        requires
            self.wf(),
        ensures
            r == spec_delay(*self, attempt as nat) + entropy as int % (spec_delay(
                *self,
                attempt as nat,
            ) + 1),
            spec_delay(*self, attempt as nat) <= r <= 2 * spec_delay(*self, attempt as nat),
    {
        let base = self.delay_ms(attempt);
        base + entropy % (base + 1)
    }
}

/// A stream of successive backoff delays, one per retry attempt.
#[derive(Clone, Copy, Debug, PartialEq, Eq, Structural)]
pub struct BackoffStream {
    pub backoff: ExponentialBackoff,
    pub attempt: u64,
}

impl BackoffStream {
    /// The next delay of the stream, stretched by the caller's entropy.
    pub fn next_delay(&mut self, entropy: u64) -> (r: u64)
        requires
            old(self).backoff.wf(),
            old(self).attempt < u64::MAX,
        ensures
            final(self).backoff == old(self).backoff,
            final(self).attempt == old(self).attempt + 1,
            r == spec_delay(old(self).backoff, old(self).attempt as nat) + entropy as int % (
            spec_delay(old(self).backoff, old(self).attempt as nat) + 1),
            spec_delay(old(self).backoff, old(self).attempt as nat) <= r <= 2 * spec_delay(
                old(self).backoff,
                old(self).attempt as nat,
            ),
    {
        let r = self.backoff.jittered_delay_ms(self.attempt, entropy);
        self.attempt = self.attempt + 1;
        r
    }
}

} // verus!
