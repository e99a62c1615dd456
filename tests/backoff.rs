use rollcron::backoff::{backoff_with_draw, base_backoff, calculate_backoff, generate_jitter, RetryConfig};

#[test]
fn backoff_doubles_per_attempt() {
    assert_eq!(base_backoff(10, 0), 10);
    assert_eq!(base_backoff(10, 1), 20);
    assert_eq!(base_backoff(10, 2), 40);
    assert_eq!(base_backoff(0, 5), 0);
}

#[test]
fn backoff_is_non_decreasing() {
    let retry = RetryConfig { max: 5, delay_ms: 10, jitter_ms: None };
    let mut prev = 0;
    for a in 0..70 {
        let d = calculate_backoff(&retry, a);
        assert!(d >= prev);
        prev = d;
    }
}

#[test]
fn backoff_saturates() {
    assert_eq!(base_backoff(u64::MAX, 1), u64::MAX);
    assert_eq!(base_backoff(1, 64), u64::MAX);
    assert_eq!(base_backoff(1, 63), 1u64 << 63);
}

#[test]
fn backoff_with_jitter_stays_in_bounds() {
    let retry = RetryConfig { max: 3, delay_ms: 100, jitter_ms: Some(50) };
    for _ in 0..100 {
        let d = calculate_backoff(&retry, 1);
        assert!((200..=250).contains(&d));
    }
}

#[test]
fn backoff_with_given_draw() {
    let with = RetryConfig { max: 3, delay_ms: 100, jitter_ms: Some(50) };
    let without = RetryConfig { max: 3, delay_ms: 100, jitter_ms: None };
    assert_eq!(backoff_with_draw(&with, 2, 7), 407);
    assert_eq!(backoff_with_draw(&without, 2, 7), 400);
    assert_eq!(backoff_with_draw(&with, 70, 7), u64::MAX);
}

#[test]
fn jitter_zero_is_zero() {
    for _ in 0..100 {
        assert_eq!(generate_jitter(0), 0);
    }
}

#[test]
fn jitter_never_exceeds_max() {
    let mut seen_nonzero = false;
    for _ in 0..1000 {
        let j = generate_jitter(5);
        assert!(j <= 5);
        seen_nonzero |= j > 0;
    }
    assert!(seen_nonzero);
}
