use agent_base::retry::next_backoff;
use agent_base::retry::retry_delay;
use agent_base::retry::should_retry;
use agent_base::retry::RetryPolicy;

fn policy(jitter: bool) -> RetryPolicy {
    RetryPolicy { max_retries: 2, initial_backoff_ms: 100, max_backoff_ms: 1000, jitter }
}

#[test]
fn retries_only_while_budget_left_and_retryable() {
    let p = policy(false);
    assert!(should_retry(&p, 1, true));
    assert!(should_retry(&p, 2, true));
    assert!(!should_retry(&p, 3, true));
    assert!(!should_retry(&p, 1, false));
}

#[test]
fn delay_with_and_without_jitter() {
    assert_eq!(retry_delay(&policy(false), 1, 100), 100);
    // (1 * 37 + 13) % (100 / 4 + 1) == 50 % 26 == 24
    assert_eq!(retry_delay(&policy(true), 1, 100), 124);
    // (2 * 37 + 13) % (0 / 4 + 1) == 0
    assert_eq!(retry_delay(&policy(true), 2, 0), 0);
}

#[test]
fn backoff_is_capped() {
    assert_eq!(next_backoff(&policy(false), 200), 200);
    assert_eq!(next_backoff(&policy(false), 5000), 1000);
}
