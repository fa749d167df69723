use pointguard::{decimal_text, frame_invocation, invocation_body, InflightTask};

fn task(job: &str, created_at: i64) -> InflightTask {
    InflightTask {
        id: 9,
        job_name: job.to_string(),
        data: "{\"to\":\"a@b\"}".to_string(),
        endpoint: "http://h/e".to_string(),
        name: "n".to_string(),
        created_at,
        max_retries: 2,
        retry_count: 1,
    }
}

#[test]
fn decimal_text_values() {
    assert_eq!(decimal_text(0), "0");
    assert_eq!(decimal_text(7), "7");
    assert_eq!(decimal_text(1234), "1234");
    assert_eq!(decimal_text(-42), "-42");
    assert_eq!(decimal_text(i32::MAX), "2147483647");
    assert_eq!(decimal_text(i32::MIN), "-2147483648");
}

#[test]
fn frame_invocation_exact_text() {
    let body = frame_invocation("\"email\"", "null", 0, 3, "\"2024-01-01T00:00:00Z\"");
    assert_eq!(
        body,
        "{\"jobName\":\"email\",\"input\":null,\"retryCount\":0,\"maxRetries\":3,\"createdAt\":\"2024-01-01T00:00:00Z\"}"
    );
}

#[test]
fn invocation_body_quotes_and_dates() {
    let body = invocation_body(&task("say \"hi\"", 1_500_000)).unwrap();
    assert_eq!(
        body,
        "{\"jobName\":\"say \\\"hi\\\"\",\"input\":{\"to\":\"a@b\"},\"retryCount\":1,\"maxRetries\":2,\"createdAt\":\"1970-01-01T00:00:01.500Z\"}"
    );
    let parsed: serde_json::Value = serde_json::from_str(&body).unwrap();
    assert_eq!(parsed["jobName"], "say \"hi\"");
    assert_eq!(parsed["retryCount"], 1);
}

#[test]
fn invocation_body_epoch() {
    let body = invocation_body(&task("email", 0)).unwrap();
    assert!(body.ends_with(",\"createdAt\":\"1970-01-01T00:00:00Z\"}"));
}

#[test]
fn invocation_body_out_of_range_time() {
    assert_eq!(invocation_body(&task("email", i64::MIN)), None);
}

#[test]
fn invocation_body_escapes_controls() {
    let body = invocation_body(&task("a\tb\n\u{1}\u{1f}\\é/\u{7f}", 0)).unwrap();
    assert!(body.starts_with("{\"jobName\":\"a\\tb\\n\\u0001\\u001f\\\\é/\u{7f}\",\"input\":"));
}
