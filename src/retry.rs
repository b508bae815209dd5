use vstd::prelude::*;

use crate::error::Error;
use crate::status::{get_status_code, status_of_error};

verus! {

/// `2^e`.
pub open spec fn pow2(e: nat) -> nat
    decreases e,
{
    if e == 0 {
        1
    } else {
        2 * pow2((e - 1) as nat)
    }
}

pub open spec fn min_nat(a: nat, b: nat) -> nat {
    if a <= b {
        a
    } else {
        b
    }
}

/// Delay before retry number `attempt` (1-indexed):
/// `min(max_delay, initial_delay * 2^(attempt - 1))`.
pub open spec fn backoff_delay(initial: nat, max: nat, attempt: nat) -> nat {
    min_nat(max, initial * pow2((attempt - 1) as nat))
}

/// The statuses after which a request is worth repeating: 408, 429, 502, 503, 504.
pub open spec fn is_retryable_status(status: u16) -> bool {
    status == 429 || status == 408 || status == 502 || status == 503 || status == 504
}

proof fn lemma_pow2_monotone(a: nat, b: nat)
    requires
        a <= b,
    ensures
        pow2(a) <= pow2(b),
    decreases b,
{
    if a < b {
        lemma_pow2_monotone(a, (b - 1) as nat);
    }
}

proof fn lemma_scaled_pow2_monotone(initial: nat, a: nat, b: nat)
    requires
        a <= b,
    ensures
        initial * pow2(a) <= initial * pow2(b),
{
    lemma_pow2_monotone(a, b);
    assert(initial * pow2(a) <= initial * pow2(b)) by (nonlinear_arith)
        requires
            pow2(a) <= pow2(b),
    ;
}

/// Retry policy of outbound calls: how often to repeat a failed call and how
/// long to wait before each repetition.
#[derive(Clone, Copy, Debug)]
pub struct RetryConfig {
    pub max_retries: u32,
    pub initial_delay_ms: u64,
    pub max_delay_ms: u64,
}

impl RetryConfig {
    /// Backoff before retry number `attempt` (the first retry is attempt 1),
    /// in milliseconds; `max_delay_ms` caps it however large the doubling grows.
    pub fn calculate_delay(&self, attempt: u32) -> (r: u64)
        requires
            attempt >= 1,
        ensures
            r == backoff_delay(
                self.initial_delay_ms as nat,
                self.max_delay_ms as nat,
                attempt as nat,
            ),
    {
        let max = self.max_delay_ms as u128;
        let mut d: u128 = self.initial_delay_ms as u128;
        let mut i: u32 = 1;
        assert(pow2(0) == 1);
        assert(d == self.initial_delay_ms * pow2(0)) by (nonlinear_arith)
            requires
                pow2(0) == 1,
                d == self.initial_delay_ms,
        ;
        while i < attempt && d < max
            invariant
                1 <= i <= attempt,
                max == self.max_delay_ms,
                d == self.initial_delay_ms * pow2((i - 1) as nat),
            decreases attempt - i,
        {
            assert(pow2(i as nat) == 2 * pow2((i - 1) as nat));
            assert(self.initial_delay_ms * (2 * pow2((i - 1) as nat)) == 2 * (
            self.initial_delay_ms * pow2((i - 1) as nat))) by (nonlinear_arith);
            d = d * 2;
            i = i + 1;
        }
        if d < max {
            d as u64
        } else {
            proof {
                lemma_scaled_pow2_monotone(
                    self.initial_delay_ms as nat,
                    (i - 1) as nat,
                    (attempt - 1) as nat,
                );
            }
            self.max_delay_ms
        }
    }

    /// Decides what follows a failed attempt of a retried call: the state
    /// machine of the retry executor, whose caller performs the calls and the
    /// waits. A success ends the call at once and needs no decision.
    pub fn next_step(&self, attempt: u32, error: &Error) -> (r: RetryStep)
        ensures
            r == step_after_failure(*self, attempt, status_of_error(*error)),
    {
        match get_status_code(error) {
            Some(status) => if self.should_retry(status) && attempt < self.max_retries {
                RetryStep::RetryAfter(self.calculate_delay(attempt + 1))
            } else {
                RetryStep::GiveUp
            },
            None => RetryStep::GiveUp,
        }
    }

    /// Whether a failure with this HTTP status is transient.
    pub fn should_retry(&self, status: u16) -> (r: bool)
        ensures
            r == is_retryable_status(status),
    {
        status == 429 || status == 408 || status == 502 || status == 503 || status == 504
    }
}

impl Default for RetryConfig {
    /// Three retries, from half a second up to five seconds apart.
    fn default() -> (r: Self)
        ensures
            r.max_retries == 3,
            r.initial_delay_ms == 500,
            r.max_delay_ms == 5000,
    {
        RetryConfig { max_retries: 3, initial_delay_ms: 500, max_delay_ms: 5000 }
    }
}

/// The decision after attempt number `attempt` (0 for the first call) failed
/// with an error that carries `status`: retry a transient failure while
/// retries are left, otherwise give up.
pub open spec fn step_after_failure(config: RetryConfig, attempt: u32, status: Option<u16>) -> RetryStep {
    match status {
        Some(s) => if is_retryable_status(s) && attempt < config.max_retries {
            RetryStep::RetryAfter(
                backoff_delay(
                    config.initial_delay_ms as nat,
                    config.max_delay_ms as nat,
                    (attempt + 1) as nat,
                ) as u64,
            )
        } else {
            RetryStep::GiveUp
        },
        None => RetryStep::GiveUp,
    }
}

/// What to do after a failed attempt.
#[derive(Clone, Copy, Debug, PartialEq, Eq, Structural)]
pub enum RetryStep {
    /// Wait this many milliseconds, then make the next attempt.
    RetryAfter(u64),
    /// Stop and hand the error of this attempt to the caller.
    GiveUp,
}

} // verus!
