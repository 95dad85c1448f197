use scp::retry::{RetryConfig, RetryDecision};

fn config(max_attempts: u32, initial: u64, max: u64, mult: u64) -> RetryConfig {
    RetryConfig {
        max_attempts,
        initial_backoff_ms: initial,
        max_backoff_ms: max,
        backoff_multiplier_milli: mult,
    }
}

/// Runs the decisions against a list of outcomes; returns the number of
/// invocations, the sleeps, and whether it ended in success.
fn drive(cfg: &RetryConfig, outcomes: &[bool]) -> (usize, Vec<u64>, bool) {
    let mut calls = 0;
    let mut sleeps = Vec::new();
    let mut attempt: u32 = 0;
    loop {
        let ok = outcomes[calls];
        calls += 1;
        match cfg.next_step(attempt, ok) {
            RetryDecision::Finish => return (calls, sleeps, true),
            RetryDecision::GiveUp => return (calls, sleeps, false),
            RetryDecision::Backoff(ms) => {
                sleeps.push(ms);
                attempt += 1;
            }
        }
    }
}

#[test]
fn default_backoff_doubles_up_to_ceiling() {
    let cfg = RetryConfig::default_config();
    let got: Vec<u64> = (0..8).map(|n| cfg.calculate_backoff(n)).collect();
    assert_eq!(got, vec![100, 200, 400, 800, 1600, 3200, 5000, 5000]);
}

#[test]
fn backoff_is_monotonic_and_capped() {
    let cfg = config(5, 7, 1000, 1500);
    let mut prev = 0;
    for n in 0..40 {
        let b = cfg.calculate_backoff(n);
        assert!(b >= prev);
        assert!(b <= 1000);
        prev = b;
    }
    assert_eq!(cfg.calculate_backoff(0), 7);
    assert_eq!(cfg.calculate_backoff(1), 10);
    assert_eq!(cfg.calculate_backoff(2), 15);
}

#[test]
fn initial_above_ceiling_is_capped() {
    let cfg = config(3, 9000, 5000, 2000);
    assert_eq!(cfg.calculate_backoff(0), 5000);
}

#[test]
fn retry_then_success() {
    let cfg = config(3, 10, 5000, 2000);
    let (calls, sleeps, ok) = drive(&cfg, &[false, true, true]);
    assert_eq!(calls, 2);
    assert_eq!(sleeps, vec![10]);
    assert!(ok);
}

#[test]
fn retry_bound_on_total_failure() {
    let cfg = config(3, 10, 5000, 2000);
    let (calls, sleeps, ok) = drive(&cfg, &[false; 10]);
    assert_eq!(calls, 3);
    assert_eq!(sleeps, vec![10, 20]);
    assert!(!ok);
}

#[test]
fn single_attempt_never_sleeps() {
    let cfg = config(1, 10, 5000, 2000);
    assert_eq!(cfg.next_step(0, false), RetryDecision::GiveUp);
    assert_eq!(cfg.next_step(0, true), RetryDecision::Finish);
}

#[test]
fn no_sleep_after_final_attempt() {
    let cfg = config(3, 10, 5000, 2000);
    assert_eq!(cfg.next_step(0, false), RetryDecision::Backoff(10));
    assert_eq!(cfg.next_step(1, false), RetryDecision::Backoff(20));
    assert_eq!(cfg.next_step(2, false), RetryDecision::GiveUp);
}

#[test]
fn backoff_for_largest_attempt_number() {
    let cfg = RetryConfig::default_config();
    assert_eq!(cfg.calculate_backoff(u32::MAX), 5000);
    assert_eq!(config(3, 250, 5000, 1000).calculate_backoff(u32::MAX), 250);
    assert_eq!(config(3, 0, 5000, 2000).calculate_backoff(u32::MAX), 0);
    assert_eq!(config(3, 5000, 5000, 1500).calculate_backoff(7), 5000);
}

#[test]
fn fractional_multiplier_rounds_once() {
    let cfg = config(4, 7, 1000, 1500);
    assert_eq!(cfg.calculate_backoff(3), 23);
    assert_eq!(config(4, 1, 1000, 1500).calculate_backoff(2), 2);
    assert_eq!(config(4, 1, 1000, 3500).calculate_backoff(2), 12);
    assert_eq!(config(4, 1000, 1_000_000, 1001).calculate_backoff(3), 1003);
}

#[test]
fn base_thousand_digits() {
    let d = scp::decimal::digits_of(123_456_789);
    assert_eq!(d, vec![789, 456, 123]);
    assert!(scp::decimal::digits_of(0).is_empty());
    let t = scp::decimal::times(&d, 1500);
    assert_eq!(t, vec![500, 183, 185, 185]);
    assert_eq!(scp::decimal::quotient_capped(&t, 1, u64::MAX), 185_185_183);
    assert_eq!(scp::decimal::quotient_capped(&t, 2, u64::MAX), 185_185);
    assert_eq!(scp::decimal::quotient_capped(&t, 2, 1000), 1000);
    assert_eq!(scp::decimal::quotient_capped(&t, 4, 7), 0);
}
