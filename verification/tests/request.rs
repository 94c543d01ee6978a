use anthropical::{
    Anthropic, AttemptOutcome, ClientError, Json, decode_count, Msg, Number, RetryDecision, parse_retry_after,
    parse_u64, read_count, read_message, retry_decision, retry_delay, retryable_status,
    tool_error, tool_result,
};
use std::time::Duration;

fn json_of(v: serde_json::Value) -> Json {
    match v {
        serde_json::Value::Null => Json::Null,
        serde_json::Value::Bool(b) => Json::Bool(b),
        serde_json::Value::Number(n) => Json::Number(match (n.as_u64(), n.as_i64()) {
            (Some(u), _) => Number::PosInt(u),
            (None, Some(i)) => Number::NegInt(i),
            _ => Number::Float(n.to_string()),
        }),
        serde_json::Value::String(s) => Json::String(s),
        serde_json::Value::Array(a) => Json::Array(a.into_iter().map(json_of).collect()),
        serde_json::Value::Object(m) => {
            Json::Object(m.into_iter().map(|(k, v)| (k, json_of(v))).collect())
        }
    }
}

fn j(text: &str) -> Json {
    json_of(serde_json::from_str(text).unwrap())
}

/// Objects compared as maps: members sorted by key, the last of a name kept.
fn canon(v: &Json) -> Json {
    match v {
        Json::Array(a) => Json::Array(a.iter().map(canon).collect()),
        Json::Object(m) => {
            let mut out: Vec<(String, Json)> = Vec::new();
            for (k, v) in m {
                out.retain(|(k2, _)| k2 != k);
                out.push((k.clone(), canon(v)));
            }
            out.sort_by(|a, b| a.0.cmp(&b.0));
            Json::Object(out)
        }
        other => other.clone(),
    }
}

#[test]
fn body_shape_and_extra_override() {
    let client = Anthropic::new("k".to_string());
    let body = client
        .message("model-x".to_string())
        .max_tokens(7)
        .system("sys".to_string())
        .user("hi".to_string())
        .assistant("yo".to_string())
        .with("max_tokens".to_string(), Json::Number(Number::PosInt(99)))
        .body();
    assert_eq!(
        canon(&body),
        canon(&j(r#"{
            "model": "model-x",
            "max_tokens": 99,
            "system": "sys",
            "messages": [
                {"role": "user", "content": "hi"},
                {"role": "assistant", "content": "yo"}
            ]
        }"#))
    );
}

#[test]
fn block_messages_serialize_as_arrays() {
    let msg = Msg::user_blocks(vec![
        tool_result("tu_1".to_string(), "ok".to_string()),
        tool_error("tu_2".to_string(), "boom".to_string()),
    ]);
    assert_eq!(
        canon(&msg.to_json()),
        canon(&j(r#"{
            "role": "user",
            "content": [
                {"type": "tool_result", "tool_use_id": "tu_1", "content": "ok"},
                {"type": "tool_result", "tool_use_id": "tu_2", "content": "boom", "is_error": true}
            ]
        }"#))
    );
}

#[test]
fn retry_delay_backs_off_honors_server_and_caps() {
    assert_eq!(retry_delay(0, None), Duration::from_millis(500));
    assert_eq!(retry_delay(3, None), Duration::from_secs(4));
    assert_eq!(retry_delay(0, Some(Duration::from_secs(2))), Duration::from_secs(2));
    assert_eq!(retry_delay(0, Some(Duration::from_secs(600))), Duration::from_secs(30));
    assert_eq!(retry_delay(63, None), Duration::from_secs(30));
}

#[test]
fn retryable_statuses() {
    assert!(retryable_status(429));
    assert!(retryable_status(500));
    assert!(retryable_status(529));
    assert!(retryable_status(408));
    assert!(!retryable_status(400));
    assert!(!retryable_status(200));
}

// ---------------------------------------------------------------------------
// Bodies, headers, replies and the retry policy.
// ---------------------------------------------------------------------------

#[test]
fn backoff_doubles_then_caps() {
    let expected = [500u64, 1000, 2000, 4000, 8000, 16000, 30000, 30000];
    for (attempt, ms) in expected.iter().enumerate() {
        assert_eq!(retry_delay(attempt as u32, None), Duration::from_millis(*ms));
    }
    assert_eq!(retry_delay(u32::MAX, None), Duration::from_secs(30));
    assert_eq!(retry_delay(5, Some(Duration::from_secs(0))), Duration::from_secs(0));
}

#[test]
fn only_server_errors_in_the_5xx_range_are_retried() {
    assert!(retryable_status(599));
    assert!(!retryable_status(600));
    assert!(!retryable_status(499));
    let odd = AttemptOutcome::Replied { status: 600, retry_after: None };
    assert!(matches!(retry_decision(0, 2, &odd), RetryDecision::Stop));
}

#[test]
fn retry_policy_decisions() {
    let busy = AttemptOutcome::Replied { status: 529, retry_after: None };
    let ok = AttemptOutcome::Replied { status: 200, retry_after: None };
    let bad = AttemptOutcome::Replied { status: 400, retry_after: None };
    assert!(matches!(retry_decision(0, 2, &busy), RetryDecision::RetryAfter(d) if d == Duration::from_millis(500)));
    assert!(matches!(retry_decision(1, 2, &busy), RetryDecision::RetryAfter(d) if d == Duration::from_secs(1)));
    assert!(matches!(retry_decision(2, 2, &busy), RetryDecision::Stop));
    assert!(matches!(retry_decision(0, 2, &ok), RetryDecision::Stop));
    assert!(matches!(retry_decision(0, 2, &bad), RetryDecision::Stop));
    assert!(matches!(retry_decision(0, 2, &AttemptOutcome::TransportFailed), RetryDecision::RetryAfter(_)));
    assert!(matches!(retry_decision(2, 2, &AttemptOutcome::TransportFailed), RetryDecision::Stop));
    assert!(matches!(retry_decision(0, 2, &AttemptOutcome::Failed), RetryDecision::Stop));
}

#[test]
fn retry_after_is_whole_seconds() {
    assert_eq!(parse_retry_after("7"), Some(Duration::from_secs(7)));
    assert_eq!(parse_retry_after("+07"), Some(Duration::from_secs(7)));
    assert_eq!(parse_retry_after("1.5"), None);
    assert_eq!(parse_retry_after(""), None);
    assert_eq!(parse_retry_after(" 7"), None);
    assert_eq!(parse_u64("18446744073709551615"), Some(u64::MAX));
    assert_eq!(parse_u64("18446744073709551616"), None);
    assert_eq!(parse_u64("+"), None);
    assert_eq!(parse_u64("-1"), None);
    for text in ["0", "42", "+3", "x", "99999999999999999999", "12a"] {
        assert_eq!(parse_u64(text), text.parse::<u64>().ok(), "{text}");
    }
}

#[test]
fn extra_fields_win_and_are_kept_once() {
    let client = Anthropic::new("k".to_string());
    let b = client
        .message("m".to_string())
        .system("typed".to_string())
        .with("system".to_string(), Json::String("extra".to_string()))
        .with("top_p".to_string(), Json::Number(Number::Float("0.5".to_string())))
        .with("top_p".to_string(), Json::Number(Number::Float("0.9".to_string())));
    let body = b.body();
    assert_eq!(body.get("system"), Some(&Json::String("extra".to_string())));
    assert_eq!(body.get("top_p"), Some(&Json::Number(Number::Float("0.9".to_string()))));
    match &body {
        Json::Object(m) => assert_eq!(m.iter().filter(|(k, _)| k == "top_p").count(), 1),
        _ => panic!("body is not an object"),
    }
}

#[test]
fn stream_and_count_bodies() {
    let client = Anthropic::new("k".to_string());
    let b = client
        .message("m".to_string())
        .temperature(Json::Number(Number::Float("0.5".to_string())))
        .with("stream".to_string(), Json::Bool(false))
        .user("x".to_string());
    let streaming = b.stream_body();
    assert_eq!(streaming.get("stream"), Some(&Json::Bool(true)));
    assert_eq!(streaming.get("model"), Some(&Json::String("m".to_string())));
    let count = b.count_body();
    assert!(count.get("max_tokens").is_none());
    assert!(count.get("temperature").is_none());
    assert!(count.get("stream").is_none());
    assert!(count.get("messages").is_some());
    assert_eq!(b.body().get("max_tokens"), Some(&Json::Number(Number::PosInt(1024))));
}

#[test]
fn headers_and_url() {
    let client = Anthropic::new("secret".to_string()).base_url("http://localhost:1".to_string());
    let b = client.message("m".to_string()).header("anthropic-beta".to_string(), "x".to_string());
    let headers = b.request_headers();
    assert_eq!(headers[0], ("x-api-key".to_string(), "secret".to_string()));
    assert_eq!(headers[1], ("anthropic-version".to_string(), "2023-06-01".to_string()));
    assert_eq!(headers[2], ("content-type".to_string(), "application/json".to_string()));
    assert_eq!(headers[3], ("anthropic-beta".to_string(), "x".to_string()));
    assert_eq!(b.url("/v1/messages"), "http://localhost:1/v1/messages");
}

#[test]
fn client_defaults_and_setters() {
    let c = Anthropic::new("k".to_string());
    assert_eq!(c.address(), "https://api.anthropic.com");
    assert_eq!(c.api_version(), "2023-06-01");
    assert_eq!(c.response_timeout(), Duration::from_secs(600));
    assert_eq!(c.connection_timeout(), Duration::from_secs(10));
    assert_eq!(c.retry_limit(), 2);
    let c = c
        .version("2024-01-01".to_string())
        .timeout(Duration::from_secs(5))
        .connect_timeout(Duration::from_secs(1))
        .max_retries(0);
    let c2 = c.clone();
    assert_eq!(c2.api_version(), "2024-01-01");
    assert_eq!(c2.response_timeout(), Duration::from_secs(5));
    assert_eq!(c2.connection_timeout(), Duration::from_secs(1));
    assert_eq!(c2.retry_limit(), 0);
    assert_eq!(c2.api_key(), "k");
}

#[test]
fn api_error_body_fallbacks() {
    match read_message(502, "<html>bad gateway</html>".to_string(), None, None) {
        Err(ClientError::Api { status, kind, message, request_id, retry_after }) => {
            assert_eq!(status, Some(502));
            assert_eq!(kind, "unknown_error");
            assert_eq!(message, "<html>bad gateway</html>");
            assert_eq!(request_id, None);
            assert_eq!(retry_after, None);
        }
        other => panic!("unexpected: {other:?}"),
    }
    let body = r#"{"error":{"type":"not_found_error","message":"nope"},"request_id":"req_body"}"#;
    match read_message(404, body.to_string(), Some("req_header".to_string()), None) {
        Err(ClientError::Api { kind, message, request_id, .. }) => {
            assert_eq!(kind, "not_found_error");
            assert_eq!(message, "nope");
            assert_eq!(request_id.as_deref(), Some("req_header"));
        }
        other => panic!("unexpected: {other:?}"),
    }
}

#[test]
fn undecodable_success_body_is_a_decode_error() {
    assert!(matches!(read_message(200, "{".to_string(), None, None), Err(ClientError::Decode(_))));
    assert!(matches!(read_message(200, "{}".to_string(), None, None), Err(ClientError::Decode(_))));
    assert!(matches!(read_count(200, r#"{"input_tokens":"5"}"#.to_string(), None, None), Err(ClientError::Decode(_))));
    assert_eq!(read_count(200, r#"{"input_tokens":5,"other":1}"#.to_string(), None, None).unwrap(), 5);
}

#[test]
fn api_error_from_a_parsed_body() {
    let body = r#"{"error":{"type":"overloaded_error"},"request_id":"req_b"}"#;
    let parsed = j(body);
    match ClientError::api_from_parsed(529, body, Some(&parsed), None, Some(Duration::from_secs(3))) {
        ClientError::Api { status, kind, message, request_id, retry_after } => {
            assert_eq!(status, Some(529));
            assert_eq!(kind, "overloaded_error");
            assert_eq!(message, body);
            assert_eq!(request_id.as_deref(), Some("req_b"));
            assert_eq!(retry_after, Some(Duration::from_secs(3)));
        }
        other => panic!("unexpected: {other:?}"),
    }
    match ClientError::api_from_parsed(500, "oops", None, Some("req_h".to_string()), None) {
        ClientError::Api { kind, message, request_id, .. } => {
            assert_eq!(kind, "unknown_error");
            assert_eq!(message, "oops");
            assert_eq!(request_id.as_deref(), Some("req_h"));
        }
        other => panic!("unexpected: {other:?}"),
    }
}

#[test]
fn token_count_from_a_parsed_body() {
    assert_eq!(decode_count(&j(r#"{"input_tokens": 42}"#)).unwrap(), 42);
    assert!(decode_count(&j(r#"{"tokens": 42}"#)).is_err());
    assert!(decode_count(&j(r#"{"input_tokens": -1}"#)).is_err());
}

#[test]
fn attempts_stop_at_the_limit_plus_one() {
    for limit in 0u32..4 {
        let busy = AttemptOutcome::Replied { status: 529, retry_after: None };
        let mut attempt = 0u32;
        let mut made = 0;
        loop {
            made += 1;
            match retry_decision(attempt, limit, &busy) {
                RetryDecision::Stop => break,
                RetryDecision::RetryAfter(_) => attempt += 1,
            }
        }
        assert_eq!(made, limit + 1);
    }
}

#[test]
fn payload_is_the_body_written_as_json() {
    let text = anthropical::payload_text(&j(r#"{"model": "m", "max_tokens": 5, "t": -2}"#)).unwrap();
    let back: serde_json::Value = serde_json::from_str(&text).unwrap();
    let expected: serde_json::Value =
        serde_json::from_str(r#"{"model": "m", "max_tokens": 5, "t": -2}"#).unwrap();
    assert_eq!(back, expected);
    assert_eq!(text, r#"{"max_tokens":5,"model":"m","t":-2}"#);
}

#[test]
fn streaming_calls_bound_only_the_wait_for_the_response() {
    let c = Anthropic::new("k".to_string())
        .timeout(Duration::from_secs(9))
        .connect_timeout(Duration::from_secs(2));
    let plain = c.request_timeouts(false);
    assert_eq!(plain.connect, Duration::from_secs(2));
    assert_eq!(plain.global, Some(Duration::from_secs(9)));
    assert_eq!(plain.recv_response, None);
    let streaming = c.request_timeouts(true);
    assert_eq!(streaming.connect, Duration::from_secs(2));
    assert_eq!(streaming.global, None);
    assert_eq!(streaming.recv_response, Some(Duration::from_secs(9)));
}
