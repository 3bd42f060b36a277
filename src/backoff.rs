//! Exponential reconnect backoff with a capped delay and an optional retry limit.
use vstd::arithmetic::power2::{lemma_pow2_pos, lemma_pow2_strictly_increases, lemma_pow2_unfold, pow2};
use vstd::prelude::*;

verus! {

/// Base delay, in milliseconds, of the default policy.
pub const DEFAULT_BASE_DELAY_MS: u64 = 1000;

/// Cap on the delay, in milliseconds, of the default policy.
pub const DEFAULT_MAX_DELAY_MS: u64 = 1_000_000;

/// The delay before attempt number `attempt` (counted from zero): `base * 2^attempt`, capped
/// at `max`.
pub open spec fn backoff_delay(base: u64, max: u64, attempt: nat) -> int {
    if base * pow2(attempt) <= max {
        base * pow2(attempt)
    } else {
        max as int
    }
}

/// Each delay is the previous one doubled, capped at `max`.
proof fn lemma_backoff_step(base: u64, max: u64, attempt: nat)
    ensures
        backoff_delay(base, max, attempt + 1) == if 2 * backoff_delay(base, max, attempt) <= max {
            2 * backoff_delay(base, max, attempt)
        } else {
            max as int
        },
{
    lemma_pow2_unfold(attempt + 1);
    let p = pow2(attempt);
    assert(base * pow2(attempt + 1) == 2 * (base * p)) by (nonlinear_arith)
        requires
            pow2(attempt + 1) == 2 * p,
    ;
}

/// Backoff monotonicity: along attempts `0, 1, 2, ...` the delay never decreases and never
/// exceeds the configured maximum.
pub proof fn lemma_backoff_monotonic(base: u64, max: u64, i: nat, j: nat)
    requires
        i <= j,
    ensures
        backoff_delay(base, max, i) <= backoff_delay(base, max, j),
        0 <= backoff_delay(base, max, j) <= max,
{
    lemma_pow2_pos(j);
    assert(base * pow2(j) >= 0) by (nonlinear_arith)
        requires
            pow2(j) > 0,
    ;
    if i < j {
        lemma_pow2_strictly_increases(i, j);
        let pi = pow2(i);
        let pj = pow2(j);
        assert(base * pi <= base * pj) by (nonlinear_arith)
            requires
                pi < pj,
        ;
    }
}

/// Once the delay is zero it stays zero.
proof fn lemma_backoff_zero(base: u64, max: u64, i: nat, j: nat)
    requires
        i <= j,
        backoff_delay(base, max, i) == 0,
    ensures
        backoff_delay(base, max, j) == 0,
{
    lemma_pow2_pos(i);
    lemma_pow2_pos(j);
    let pi = pow2(i);
    let pj = pow2(j);
    if max != 0 {
        assert(base == 0) by (nonlinear_arith)
            requires
                base * pi == 0,
                pi > 0,
        ;
        assert(base * pj == 0) by (nonlinear_arith)
            requires
                base == 0,
        ;
    }
    lemma_backoff_monotonic(base, max, i, j);
}

/// Computes `backoff_delay(base, max, attempt)` without overflow.
pub fn delay_for_attempt(base: u64, max: u64, attempt: u32) -> (r: u64)
    ensures
        r == backoff_delay(base, max, attempt as nat),
{
    proof {
        lemma_pow2_pos(0);
        assert(pow2(0) == 1) by {
            vstd::arithmetic::power2::lemma2_to64();
        }
    }
    let mut d: u64 = if base <= max {
        base
    } else {
        max
    };
    let mut k: u32 = 0;
    while k < attempt && 0 < d && d < max
        invariant
            k <= attempt,
            d == backoff_delay(base, max, k as nat),
        decreases attempt - k,
    {
        proof {
            lemma_backoff_step(base, max, k as nat);
        }
        d = if d <= max / 2 {
            2 * d
        } else {
            max
        };
        k = k + 1;
    }
    proof {
        if k < attempt {
            lemma_backoff_monotonic(base, max, k as nat, attempt as nat);
            if d == 0 {
                lemma_backoff_zero(base, max, k as nat, attempt as nat);
            }
        }
    }
    d
}

/// Reconnect backoff state: the policy, and how many delays were handed out since the last
/// reset.
pub struct Backoff {
    base_delay_ms: u64,
    max_delay_ms: u64,
    max_retries: Option<u32>,
    attempt: u32,
}

impl Backoff {
    /// Base delay in milliseconds.
    pub closed spec fn base(&self) -> u64 {
        self.base_delay_ms
    }

    /// Cap on the delay in milliseconds.
    pub closed spec fn max(&self) -> u64 {
        self.max_delay_ms
    }

    /// How many attempts may be made before the policy gives up; `None` retries forever.
    pub closed spec fn max_retries(&self) -> Option<u32> {
        self.max_retries
    }

    /// Attempts made since creation or the last reset.
    pub closed spec fn attempt(&self) -> nat {
        self.attempt as nat
    }

    /// Whether the retry limit is used up.
    pub open spec fn exhausted(&self) -> bool {
        self.max_retries() matches Some(n) && self.attempt() >= n
    }

    /// What the next call of `next` returns: `None` once the retry limit is used up, else the
    /// delay for the current attempt.
    pub open spec fn next_outcome(&self) -> Option<int> {
        if self.exhausted() {
            None
        } else {
            Some(backoff_delay(self.base(), self.max(), self.attempt()))
        }
    }

    /// The attempt count after one call of `next`: unchanged once exhausted, else one more,
    /// saturating at `u32::MAX`.
    pub open spec fn attempt_after_next(&self) -> nat {
        if self.exhausted() {
            self.attempt()
        } else if self.attempt() < u32::MAX {
            self.attempt() + 1
        } else {
            self.attempt()
        }
    }

    /// The default policy: base one second, capped at a thousand seconds, retrying forever.
    pub fn new() -> (r: Backoff)
        ensures
            r.base() == DEFAULT_BASE_DELAY_MS,
            r.max() == DEFAULT_MAX_DELAY_MS,
            r.max_retries() is None,
            r.attempt() == 0,
    {
        Backoff::with_policy(DEFAULT_BASE_DELAY_MS, DEFAULT_MAX_DELAY_MS, None)
    }

    /// A policy with the given base and maximum delay (milliseconds) and retry limit.
    pub fn with_policy(base_delay_ms: u64, max_delay_ms: u64, max_retries: Option<u32>) -> (r:
        Backoff)
        ensures
            r.base() == base_delay_ms,
            r.max() == max_delay_ms,
            r.max_retries() == max_retries,
            r.attempt() == 0,
    {
        Backoff { base_delay_ms, max_delay_ms, max_retries, attempt: 0 }
    }

    /// The delay, in milliseconds, to wait before the next attempt, counting that attempt; or
    /// `None` when the retry limit is used up, and the caller must stop retrying.
    pub fn next(&mut self) -> (r: Option<u64>)
        ensures
            r matches Some(d) ==> old(self).next_outcome() == Some(d as int),
            r is None ==> old(self).next_outcome() is None,
            final(self).base() == old(self).base(),
            final(self).max() == old(self).max(),
            final(self).max_retries() == old(self).max_retries(),
            final(self).attempt() == old(self).attempt_after_next(),
    {
        if let Some(limit) = self.max_retries {
            if self.attempt >= limit {
                return None;
            }
        }
        let delay = delay_for_attempt(self.base_delay_ms, self.max_delay_ms, self.attempt);
        if self.attempt < u32::MAX {
            self.attempt = self.attempt + 1;
        }
        Some(delay)
    }

    /// Restores the attempt count to zero, keeping the policy.
    pub fn reset(&mut self)
        ensures
            final(self).base() == old(self).base(),
            final(self).max() == old(self).max(),
            final(self).max_retries() == old(self).max_retries(),
            final(self).attempt() == 0,
    {
        self.attempt = 0;
    }
}

/// After a reset, the next call returns what the very first call on a fresh backoff with the
/// same policy returns.
pub proof fn lemma_reset_then_next(reset: Backoff, fresh: Backoff)
    requires
        reset.attempt() == 0,
        fresh.attempt() == 0,
        reset.base() == fresh.base(),
        reset.max() == fresh.max(),
        reset.max_retries() == fresh.max_retries(),
    ensures
        reset.next_outcome() == fresh.next_outcome(),
{
}

} // verus!
