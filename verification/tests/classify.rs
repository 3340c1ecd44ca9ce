use jyc_agent::provider::classify::{
    classify_message, classify_retry, extract_diag_status, extract_invalid_status,
    extract_retry_after, RetryClass,
};

fn err(msg: &str) -> String {
    msg.to_string()
}

#[test]
fn diag_status_2xx_is_transient() {
    let e = err("SSE stream error: error sending request for url \
         (https://api.deepseek.com/chat/completions) \
         (HTTP 200 body: data: {\"id\":\"abc\",\"choices\":[...]})");
    assert_eq!(
        classify_retry(&e),
        RetryClass::Transient,
        "diag-200 confirms upstream healthy → must be transient"
    );
}

#[test]
fn diag_status_4xx_is_terminal() {
    let e = err("SSE stream error: Invalid status code: 400 Bad Request \
         (HTTP 400 body: {\"error\":{\"message\":\"bad payload\"}})");
    assert_eq!(
        classify_retry(&e),
        RetryClass::Terminal,
        "diag-400 is a structured rejection → terminal"
    );
}

#[test]
fn diag_status_503_is_throttled() {
    let e = err(
        "SSE stream error: Invalid status code: 503 Service Unavailable \
         (HTTP 503 body: {\"error\":\"upstream down\"})",
    );
    assert_eq!(classify_retry(&e), RetryClass::Throttled);
}

#[test]
fn diag_status_502_504_are_throttled() {
    for status in [502, 504] {
        let e = err(&format!(
            "SSE stream error: Invalid status code: {status} \
             (HTTP {status} body: {{\"error\":\"gateway\"}})"
        ));
        assert_eq!(
            classify_retry(&e),
            RetryClass::Throttled,
            "diag-{status} is a gateway blip → throttled"
        );
    }
}

#[test]
fn diag_status_429_is_throttled() {
    let e = err("SSE stream error: error sending request for url \
         (https://api.deepseek.com/chat/completions) \
         (HTTP 429 body: {\"error\":{\"message\":\"rate limit exceeded\"}})");
    assert_eq!(
        classify_retry(&e),
        RetryClass::Throttled,
        "diag-429 is a rate-limit → throttled"
    );
}

#[test]
fn invalid_status_429_no_diag_is_throttled() {
    let e = err("SSE stream error: Invalid status code: 429 Too Many Requests");
    assert_eq!(classify_retry(&e), RetryClass::Throttled);
}

#[test]
fn extract_diag_status_429() {
    assert_eq!(
        extract_diag_status("foo (HTTP 429 body: {\"error\": ...})"),
        Some(429)
    );
}

#[test]
fn decode_body_error_no_diag_is_transient() {
    let e = err("SSE stream error: error decoding response body");
    assert_eq!(classify_retry(&e), RetryClass::Transient);
}

#[test]
fn invalid_status_no_diag_is_terminal() {
    let e = err("SSE error: Invalid status code: 401 Unauthorized");
    assert_eq!(classify_retry(&e), RetryClass::Terminal);
}

#[test]
fn error_sending_request_is_transient() {
    let e = err("SSE stream error: error sending request for url \
         (https://api.deepseek.com/chat/completions)");
    assert_eq!(classify_retry(&e), RetryClass::Transient);
}

#[test]
fn extract_diag_status_basic() {
    assert_eq!(extract_diag_status("foo (HTTP 200 body: bar)"), Some(200));
    assert_eq!(
        extract_diag_status("foo (HTTP 400 body: {\"error\": ...})"),
        Some(400)
    );
    assert_eq!(extract_diag_status("foo (HTTP 503 body: x)"), Some(503));
}

#[test]
fn extract_diag_status_missing_returns_none() {
    assert_eq!(extract_diag_status("plain error"), None);
    assert_eq!(extract_diag_status("(HTTP "), None);
    assert_eq!(extract_diag_status("(HTTP abc body:)"), None);
}

#[test]
fn extract_retry_after_basic() {
    assert_eq!(
        extract_retry_after("SSE error (HTTP 429 retry-after: 30s body: {...})"),
        Some(30)
    );
}

#[test]
fn extract_retry_after_missing_returns_none() {
    assert_eq!(
        extract_retry_after("SSE error (HTTP 429 body: {...})"),
        None
    );
    assert_eq!(extract_retry_after("plain error"), None);
    assert_eq!(extract_retry_after("retry-after: "), None);
}

#[test]
fn the_case_of_a_message_does_not_matter() {
    assert_eq!(classify_retry("CONNECTION RESET by peer"), RetryClass::Transient);
    assert_eq!(classify_retry("something else"), RetryClass::Terminal);
    assert_eq!(
        classify_message("X", "connection reset by peer"),
        RetryClass::Transient
    );
}

#[test]
fn a_status_in_the_message_decides() {
    let msg = "connection reset (HTTP 401 body: no)";
    assert_eq!(classify_retry(msg), RetryClass::Terminal);
    assert_eq!(extract_invalid_status("invalid status code:  502 bad gateway"), Some(502));
    assert_eq!(extract_invalid_status("invalid status code: none"), None);
    assert_eq!(extract_invalid_status("invalid status code: 70000"), None);
}

#[test]
fn a_retry_after_that_is_too_large_is_none() {
    assert_eq!(extract_retry_after("retry-after: 99999999999999999999999s"), None);
    assert_eq!(extract_retry_after("retry-after: 18446744073709551615s"), Some(u64::MAX));
}

#[test]
fn blips_are_told_in_any_case() {
    for blip in [
        "connection reset",
        "broken pipe",
        "stream ended",
        "timed out",
        "dns error",
        "unexpected eof",
    ] {
        for msg in [
            format!("call failed: {blip} by peer"),
            format!("CALL FAILED: {} BY PEER", blip.to_uppercase()),
        ] {
            assert_eq!(classify_retry(&msg), RetryClass::Transient, "{msg}");
        }
    }
    assert_eq!(classify_retry("No Such Model"), RetryClass::Terminal);
    assert_eq!(classify_retry("NO SUCH MODEL"), RetryClass::Terminal);
    assert_eq!(classify_retry("INVALID STATUS CODE: 503"), RetryClass::Throttled);
}

#[test]
fn written_seconds_are_read_back() {
    for seconds in [0u64, 7, 120, u64::MAX] {
        for before in ["", "retry-after ", "x (retry-after:"] {
            let msg = format!("{before}retry-after: {seconds}s body: retry-after: 9");
            assert_eq!(extract_retry_after(&msg), Some(seconds), "{msg}");
        }
    }
}
