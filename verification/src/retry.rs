//! Retrying a failed LLM call: when to try again, and how long to wait.
use vstd::prelude::*;

verus! {

/// How failed LLM calls are retried.
#[derive(Clone, Copy, Debug)]
pub struct RetryPolicy {
    pub max_retries: u32,
    pub initial_backoff_ms: u64,
    pub max_backoff_ms: u64,
    pub jitter: bool,
}

/// After failed attempt number `attempt` (counting from 1), the call is
/// tried again while retries are left and the error is one worth retrying.
pub fn should_retry(policy: &RetryPolicy, attempt: u32, retryable: bool) -> (b: bool)
    ensures
        b == (attempt <= policy.max_retries && retryable),
{
    attempt <= policy.max_retries && retryable
}

/// The jitter added to a wait of `backoff_ms` before retry `attempt`: a
/// deterministic spread below a quarter of the wait, or none when jitter is
/// off.
pub open spec fn jitter_for(enabled: bool, attempt: u32, backoff_ms: u64) -> int {
    if enabled {
        (attempt * 37 + 13) % (backoff_ms / 4 + 1)
    } else {
        0
    }
}

/// The wait before retry `attempt`: the current backoff plus its jitter.
pub fn retry_delay(policy: &RetryPolicy, attempt: u32, backoff_ms: u64) -> (d: u64)
    requires
        backoff_ms + backoff_ms / 4 <= u64::MAX,
    ensures
        d == backoff_ms + jitter_for(policy.jitter, attempt, backoff_ms),
        backoff_ms <= d <= backoff_ms + backoff_ms / 4,
{
    let jitter: u64 = if policy.jitter {
        let a: u64 = attempt as u64;
        (a * 37 + 13) % (backoff_ms / 4 + 1)
    } else {
        0
    };
    backoff_ms + jitter
}

/// The next backoff, capped at the policy's maximum; `grown` is the current
/// backoff multiplied by the policy's factor.
pub fn next_backoff(policy: &RetryPolicy, grown: u64) -> (b: u64)
    ensures
        b == if grown > policy.max_backoff_ms { policy.max_backoff_ms } else { grown },
        b <= policy.max_backoff_ms,
{
    if grown > policy.max_backoff_ms {
        policy.max_backoff_ms
    } else {
        grown
    }
}

} // verus!
