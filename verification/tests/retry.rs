use jyc_agent::agent_loop::retry::{
    after_failure, cancelled_before_attempt, cancelled_in_backoff, clock_string, decide_retry,
    max_attempts_for, retry_message, retry_timing, retry_wait_ms, RetryStep, MAX_BACKOFF_MS,
    SSE_MAX_ATTEMPTS, SSE_RETRY_BACKOFF_MS, THROTTLED_MAX_ATTEMPTS,
};
use jyc_agent::provider::classify::{classify_retry, RetryClass};

#[test]
fn format_failures_classify_as_transient() {
    let leak =
        "provider format failure: model emitted tool-call syntax as text";
    assert!(
        matches!(classify_retry(leak), RetryClass::Transient),
        "leak guard error should be transient"
    );

    let truncated =
        "SSE stream ended without Done marker (truncated mid-stream)";
    assert!(
        matches!(classify_retry(truncated), RetryClass::Transient),
        "truncated-stream error should be transient"
    );
}

#[test]
fn retry_wait_transient_uses_schedule() {
    assert_eq!(
        retry_wait_ms(RetryClass::Transient, &SSE_RETRY_BACKOFF_MS, 0, None),
        10000
    );
    assert_eq!(
        retry_wait_ms(RetryClass::Transient, &SSE_RETRY_BACKOFF_MS, 1, None),
        20000
    );
}

#[test]
fn retry_wait_throttled_uses_slow_schedule() {
    assert_eq!(retry_wait_ms(RetryClass::Throttled, &[1], 0, None), 5000);
    assert_eq!(retry_wait_ms(RetryClass::Throttled, &[1], 1, None), 15000);
    assert_eq!(retry_wait_ms(RetryClass::Throttled, &[1], 2, None), 30000);
    assert_eq!(retry_wait_ms(RetryClass::Throttled, &[1], 3, None), 60000);
}

#[test]
fn retry_wait_honors_retry_after_as_floor() {
    assert_eq!(
        retry_wait_ms(RetryClass::Throttled, &[1], 0, Some(30)),
        30000
    );
    assert_eq!(
        retry_wait_ms(RetryClass::Throttled, &[1], 1, Some(5)),
        15000
    );
}

#[test]
fn retry_wait_caps_at_max_backoff() {
    assert_eq!(
        retry_wait_ms(RetryClass::Throttled, &[1], 3, Some(3600)),
        MAX_BACKOFF_MS,
        "pathological Retry-After must be capped"
    );
}

#[test]
fn retry_wait_clamps_attempt_idx_to_schedule() {
    assert_eq!(
        retry_wait_ms(RetryClass::Transient, &SSE_RETRY_BACKOFF_MS, 5, None),
        20000
    );
}

#[test]
fn max_attempts_per_class() {
    assert_eq!(max_attempts_for(RetryClass::Transient), SSE_MAX_ATTEMPTS);
    assert_eq!(
        max_attempts_for(RetryClass::Throttled),
        THROTTLED_MAX_ATTEMPTS
    );
    assert_eq!(max_attempts_for(RetryClass::Terminal), SSE_MAX_ATTEMPTS);
}

/// How often a call is made that fails with the given errors, and with none
/// after them.
fn attempts(errors: &[&str]) -> u32 {
    let mut made = 0;
    for attempt_idx in 0..THROTTLED_MAX_ATTEMPTS {
        made += 1;
        let Some(error) = errors.get(attempt_idx as usize) else {
            break;
        };
        if after_failure(error, attempt_idx, &[1, 2]) == RetryStep::GiveUp {
            break;
        }
    }
    made
}

#[test]
fn a_blip_is_retried_with_the_transient_budget() {
    let blip = "SSE stream error: error decoding response body";
    assert_eq!(attempts(&[blip, blip]), 3);
    assert_eq!(attempts(&[blip; 9]), 3);
}

#[test]
fn a_busy_provider_is_retried_with_the_slow_budget() {
    let busy = "Invalid status code: 429 Too Many Requests retry-after: 7s body: x";
    assert_eq!(attempts(&[busy; 9]), 5);
    assert_eq!(attempts(&[busy]), 2);
}

#[test]
fn a_rejected_request_is_not_retried() {
    assert_eq!(attempts(&["Invalid status code: 400 Bad Request body: no"; 9]), 1);
    assert_eq!(attempts(&[]), 1);
}

#[test]
fn the_decision_tells_the_wait_and_the_attempt() {
    assert_eq!(
        decide_retry(RetryClass::Throttled, 1, Some(40), &SSE_RETRY_BACKOFF_MS),
        RetryStep::Retry {
            class: RetryClass::Throttled,
            wait_ms: 40000,
            next_attempt: 3,
            max_attempts: 5,
            retry_after_secs: Some(40),
        }
    );
    assert_eq!(decide_retry(RetryClass::Terminal, 0, None, &[1]), RetryStep::GiveUp);
    assert_eq!(decide_retry(RetryClass::Transient, 2, None, &[1]), RetryStep::GiveUp);
}

#[test]
fn the_wait_does_not_overflow() {
    assert_eq!(retry_wait_ms(RetryClass::Throttled, &[1], 0, Some(u64::MAX)), MAX_BACKOFF_MS);
    assert_eq!(retry_wait_ms(RetryClass::Throttled, &[1], u32::MAX, None), 60000);
}

#[test]
fn timing_and_message_of_a_retry() {
    assert_eq!(clock_string(0), "00:00:00");
    assert_eq!(clock_string(86_399_999), "23:59:59");
    assert_eq!(clock_string(1_700_000_000_000), "22:13:20");
    assert_eq!(
        retry_timing(3_600_000, 15_000, Some(3)),
        "next retry at 01:00:15 UTC (in 15s, retry-after: 3s)"
    );
    let timing = retry_timing(0, 10_000, None);
    assert_eq!(timing, "next retry at 00:00:10 UTC (in 10s)");
    assert_eq!(
        retry_message(RetryClass::Transient, 2, 3, &timing, "oops"),
        "Transient error, retrying (2/3), next retry at 00:00:10 UTC (in 10s): oops"
    );
}

#[test]
fn errors_of_cancelled_calls() {
    assert_eq!(cancelled_before_attempt(0), "cancelled before LLM call attempt 1");
    assert_eq!(
        cancelled_in_backoff(2, 3),
        "cancelled during retry backoff (attempt 2/3)"
    );
}
