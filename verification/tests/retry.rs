use grpc_rs::retry::RetryPolicy;
use grpc_rs::status::Code;
use std::time::Duration;

/// The wait before an attempt when each wait is `multiplier` times the last.
fn backoff(p: &RetryPolicy, multiplier: f64, attempt: usize) -> Duration {
    let grown = if attempt == 0 {
        None
    } else {
        let secs = p.initial_backoff.as_secs_f64() * multiplier.powi((attempt - 1) as i32);
        Duration::try_from_secs_f64(secs).ok()
    };
    p.backoff_for_attempt(attempt, grown)
}

#[test]
fn is_retryable_matches_configured_codes() {
    let p = RetryPolicy {
        max_attempts: 3,
        initial_backoff: Duration::from_millis(10),
        max_backoff: Duration::from_millis(100),
        retryable_codes: vec![Code::Unavailable],
    };
    assert!(p.is_retryable(Code::Unavailable));
    assert!(!p.is_retryable(Code::Internal));
    assert!(!p.is_retryable(Code::DeadlineExceeded));
}

#[test]
fn backoff_grows_exponentially_and_caps() {
    let p = RetryPolicy {
        max_attempts: 5,
        initial_backoff: Duration::from_millis(100),
        max_backoff: Duration::from_millis(300),
        retryable_codes: vec![],
    };
    assert_eq!(backoff(&p, 2.0, 0), Duration::ZERO);
    assert_eq!(backoff(&p, 2.0, 1), Duration::from_millis(100));
    assert_eq!(backoff(&p, 2.0, 2), Duration::from_millis(200));
    assert_eq!(backoff(&p, 2.0, 3), Duration::from_millis(300));
    assert_eq!(backoff(&p, 2.0, 4), Duration::from_millis(300));
}

#[test]
fn first_attempt_has_zero_backoff() {
    let p = RetryPolicy::default_retry();
    assert_eq!(backoff(&p, 2.0, 0), Duration::ZERO);
}

#[test]
fn waits_that_no_duration_can_hold_are_capped() {
    let p = RetryPolicy::default_retry();
    assert_eq!(backoff(&p, 1e300, 4), Duration::from_secs(1));
    assert_eq!(p.backoff_for_attempt(1, None), Duration::from_secs(1));
}

#[test]
fn default_policy() {
    let p = RetryPolicy::default_retry();
    assert_eq!(p.max_attempts, 3);
    assert_eq!(p.attempts(), 3);
    assert_eq!(p.initial_backoff, Duration::from_millis(100));
    assert_eq!(p.max_backoff, Duration::from_secs(1));
    assert_eq!(p.retryable_codes, vec![Code::Unavailable, Code::Unknown]);
}

#[test]
fn attempts_are_between_one_and_five() {
    let mut p = RetryPolicy::default_retry().clone();
    for (asked, made) in [(0, 1), (1, 1), (4, 4), (5, 5), (6, 5), (usize::MAX, 5)] {
        p.max_attempts = asked;
        assert_eq!(p.attempts(), made);
    }
}
