use mule_cli::backoff::{default_retry_policy, retry_start, retry_step, RetryDecision};

#[test]
fn two_failures_then_success_takes_three_attempts() {
    let p = default_retry_policy();
    let mut st = retry_start(&p);
    assert_eq!(retry_step(&p, &mut st, false), RetryDecision::RetryAfter(250));
    assert_eq!(retry_step(&p, &mut st, false), RetryDecision::RetryAfter(500));
    assert_eq!(retry_step(&p, &mut st, true), RetryDecision::Succeed);
    assert_eq!(st.attempts_made, 3);
}

#[test]
fn constant_failure_gives_up_after_the_third_attempt() {
    let p = default_retry_policy();
    let mut st = retry_start(&p);
    assert_eq!(retry_step(&p, &mut st, false), RetryDecision::RetryAfter(250));
    assert_eq!(retry_step(&p, &mut st, false), RetryDecision::RetryAfter(500));
    assert_eq!(retry_step(&p, &mut st, false), RetryDecision::GiveUp);
    assert_eq!(st.attempts_made, 3);
}

#[test]
fn immediate_success_stops_after_one_attempt() {
    let p = default_retry_policy();
    let mut st = retry_start(&p);
    assert_eq!(retry_step(&p, &mut st, true), RetryDecision::Succeed);
    assert_eq!(st.attempts_made, 1);
}

#[test]
fn fixed_policy_values_match_the_documented_schedule() {
    let p = default_retry_policy();
    assert_eq!(p.initial_delay, 250);
    assert_eq!(p.factor, 2);
    assert_eq!(p.max_attempts, 3);
}
