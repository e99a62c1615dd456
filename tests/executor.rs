use rollcron::backoff::RetryConfig;
use rollcron::executor::{after_attempt, is_success, max_attempts, start_delay, AttemptDecision, CommandOutcome};

#[test]
fn success_on_first_attempt_does_not_wait() {
    let retry = Some(RetryConfig { max: 3, delay_ms: 100, jitter_ms: None });
    assert_eq!(after_attempt(&retry, 0, true), AttemptDecision::Finish(true));
}

#[test]
fn always_failing_job_makes_three_attempts() {
    let retry = Some(RetryConfig { max: 2, delay_ms: 10, jitter_ms: None });
    let mut attempts = 0u32;
    let mut waited = 0u64;
    loop {
        attempts += 1;
        match after_attempt(&retry, attempts - 1, false) {
            AttemptDecision::RetryAfter(ms) => waited += ms,
            AttemptDecision::Finish(ok) => {
                assert!(!ok);
                break;
            }
        }
    }
    assert_eq!(attempts, 3);
    assert_eq!(max_attempts(&retry), 3);
    assert_eq!(waited, 30);
    assert!(waited >= 10 * 2);
}

#[test]
fn no_retry_settings_means_one_attempt() {
    assert_eq!(after_attempt(&None, 0, false), AttemptDecision::Finish(false));
    assert_eq!(max_attempts(&None), 1);
}

#[test]
fn outcome_classification() {
    assert!(is_success(&CommandOutcome::Completed { code: Some(0) }));
    assert!(!is_success(&CommandOutcome::Completed { code: Some(1) }));
    assert!(!is_success(&CommandOutcome::Completed { code: None }));
    assert!(!is_success(&CommandOutcome::Timeout));
    assert!(!is_success(&CommandOutcome::ExecError));
}

#[test]
fn start_delay_within_jitter() {
    assert_eq!(start_delay(None), 0);
    for _ in 0..100 {
        assert!(start_delay(Some(50)) <= 50);
    }
}
