use backend::api::priority_or_default;
use backend::api::welcome_message;
use backend::retry::run_establish;
use backend::BackoffPolicy;
use backend::Establisher;

fn policy(max_attempts: u32, initial_delay_ms: u64, max_delay_ms: u64) -> BackoffPolicy {
    BackoffPolicy { max_attempts, initial_delay_ms, max_delay_ms }
}

#[test]
fn standard_policy_has_compiled_in_defaults() {
    let p = BackoffPolicy::standard();
    assert_eq!(p.max_attempts, 10);
    assert_eq!(p.initial_delay_ms, 1000);
    assert_eq!(p.max_delay_ms, 10000);
}

#[test]
fn establish_succeeds_on_nth_attempt() {
    let p = BackoffPolicy::standard();
    let mut outcomes = vec![false; 10];
    outcomes[2] = true;
    let report = run_establish(&p, &outcomes);
    assert!(report.connected);
    assert_eq!(report.attempts, 3);
    assert_eq!(report.waits, vec![1000, 2000]);
}

#[test]
fn establish_waits_never_shrink_and_respect_the_cap() {
    let p = BackoffPolicy::standard();
    let outcomes = vec![false; 10];
    let report = run_establish(&p, &outcomes);
    for w in report.waits.windows(2) {
        assert!(w[0] <= w[1]);
    }
    for w in &report.waits {
        assert!(*w <= p.max_delay_ms);
    }
    assert_eq!(
        report.waits,
        vec![1000, 2000, 4000, 8000, 10000, 10000, 10000, 10000, 10000]
    );
}

#[test]
fn establish_fails_after_exactly_max_attempts() {
    let p = policy(4, 100, 250);
    let outcomes = vec![false; 8];
    let report = run_establish(&p, &outcomes);
    assert!(!report.connected);
    assert_eq!(report.attempts, 4);
    assert_eq!(report.waits, vec![100, 200, 250]);
}

#[test]
fn establish_succeeds_at_once_without_waiting() {
    let p = policy(3, 50, 400);
    let outcomes = vec![true, false, false];
    let report = run_establish(&p, &outcomes);
    assert!(report.connected);
    assert_eq!(report.attempts, 1);
    assert!(report.waits.is_empty());
}

#[test]
fn a_success_past_the_budget_does_not_count() {
    let p = policy(2, 50, 400);
    let outcomes = vec![false, false, true];
    let report = run_establish(&p, &outcomes);
    assert!(!report.connected);
    assert_eq!(report.attempts, 2);
}

#[test]
fn establisher_hands_out_delays_then_gives_up() {
    let p = policy(3, 100, 1000);
    let mut est = Establisher::start(p);
    assert_eq!(est.attempts_made(), 0);
    assert_eq!(est.on_failure(), Some(100));
    assert_eq!(est.on_failure(), Some(200));
    assert_eq!(est.on_failure(), None);
    assert_eq!(est.attempts_made(), 3);
}

#[test]
fn single_attempt_policy_gives_up_on_first_failure() {
    let p = policy(1, 100, 1000);
    let mut est = Establisher::start(p);
    assert_eq!(est.on_failure(), None);
}

#[test]
fn missing_priority_falls_back_to_default() {
    assert_eq!(priority_or_default(None), 1);
    assert_eq!(priority_or_default(Some(3)), 3);
    assert_eq!(priority_or_default(Some(-2)), -2);
}

#[test]
fn banner_text() {
    assert_eq!(welcome_message().text, "Welcome to Rust API");
}
