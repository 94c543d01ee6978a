//! The client's end-to-end scenarios, with the HTTP exchange given as its
//! status, headers and body: what the library decides for each reply.
use anthropical::{
    Anthropic, AttemptOutcome, ClientError, Event, EventStream, Json, MessageCollector, Number,
    RetryDecision, StreamStep, parse_retry_after, read_count, read_message, retry_decision,
};
use std::time::Duration;

fn message_body() -> String {
    r#"{
        "id": "msg_1",
        "model": "opus-4-8",
        "role": "assistant",
        "content": [{"type": "text", "text": "pong"}],
        "stop_reason": "end_turn",
        "usage": {"input_tokens": 3, "output_tokens": 1}
    }"#
    .to_string()
}

fn rate_limited_body() -> String {
    r#"{"type":"error","error":{"type":"rate_limit_error","message":"slow down"}}"#.to_string()
}

fn sse(records: &[&str]) -> Vec<u8> {
    records.iter().map(|r| format!("data: {r}\n\n")).collect::<String>().into_bytes()
}

/// Runs a streamed body through the stream and the collector, one read at a
/// time.
fn collect(body: &[u8], request_id: Option<String>) -> Result<anthropical::Response, ClientError> {
    let mut stream = EventStream::new(request_id);
    let mut chunks = body.chunks(16).map(<[u8]>::to_vec).collect::<Vec<_>>().into_iter();
    let mut collector = MessageCollector::new();
    loop {
        match stream.poll() {
            StreamStep::Ready(Ok(Some(event))) => collector.apply(event)?,
            StreamStep::Ready(Ok(None)) => break,
            StreamStep::Ready(Err(e)) => return Err(e),
            StreamStep::NeedInput => stream.supply(&chunks.next().unwrap_or_default())?,
        }
    }
    collector.finish(stream.take_request_id())
}

#[test]
fn send_maps_success_and_request_id() {
    let client = Anthropic::new("test-key".to_string());
    let builder = client.message("opus-4-8".to_string()).user("ping".to_string());
    let response = read_message(200, message_body(), Some("req_ok".to_string()), None).unwrap();

    assert_eq!(response.text(), "pong");
    assert_eq!(response.stop_reason.as_deref(), Some("end_turn"));
    assert_eq!(response.request_id.as_deref(), Some("req_ok"));

    assert!(builder.url("/v1/messages").ends_with("/v1/messages"));
    let headers = builder.request_headers();
    assert!(headers.contains(&("x-api-key".to_string(), "test-key".to_string())));
    assert!(headers.contains(&("anthropic-version".to_string(), "2023-06-01".to_string())));
}

#[test]
fn custom_headers_are_sent() {
    let client = Anthropic::new("k".to_string());
    let builder = client
        .message("m".to_string())
        .header("anthropic-beta".to_string(), "files-api-2025-04-14".to_string())
        .user("x".to_string());
    assert!(builder
        .request_headers()
        .contains(&("anthropic-beta".to_string(), "files-api-2025-04-14".to_string())));
}

#[test]
fn api_errors_are_typed() {
    let body = r#"{"type":"error","error":{"type":"invalid_request_error","message":"bad"},"request_id":"req_err"}"#;
    let err = read_message(400, body.to_string(), None, None).unwrap_err();
    match err {
        ClientError::Api {
            status,
            kind,
            message,
            request_id,
            ..
        } => {
            assert_eq!(status, Some(400));
            assert_eq!(kind, "invalid_request_error");
            assert_eq!(message, "bad");
            assert_eq!(request_id.as_deref(), Some("req_err"));
        }
        other => panic!("unexpected: {other:?}"),
    }
}

#[test]
fn retries_a_429_then_succeeds() {
    let client = Anthropic::new("k".to_string());
    let max = client.retry_limit();
    let first = AttemptOutcome::Replied { status: 429, retry_after: parse_retry_after("0") };
    match retry_decision(0, max, &first) {
        RetryDecision::RetryAfter(d) => assert_eq!(d, Duration::from_secs(0)),
        RetryDecision::Stop => panic!("a 429 is retried"),
    }
    let second = AttemptOutcome::Replied { status: 200, retry_after: None };
    assert!(matches!(retry_decision(1, max, &second), RetryDecision::Stop));
    let response = read_message(200, message_body(), None, None).unwrap();
    assert_eq!(response.text(), "pong");
}

#[test]
fn retries_a_dropped_connection() {
    let client = Anthropic::new("k".to_string());
    let max = client.retry_limit();
    assert!(matches!(
        retry_decision(0, max, &AttemptOutcome::TransportFailed),
        RetryDecision::RetryAfter(_)
    ));
    let second = AttemptOutcome::Replied { status: 200, retry_after: None };
    assert!(matches!(retry_decision(1, max, &second), RetryDecision::Stop));
    let response = read_message(200, message_body(), None, None).unwrap();
    assert_eq!(response.text(), "pong");
}

#[test]
fn exhausted_retries_surface_the_error_with_retry_after() {
    let client = Anthropic::new("k".to_string()).max_retries(0);
    let retry_after = parse_retry_after("7");
    let outcome = AttemptOutcome::Replied { status: 429, retry_after };
    assert!(matches!(retry_decision(0, client.retry_limit(), &outcome), RetryDecision::Stop));
    let err = read_message(429, rate_limited_body(), None, retry_after).unwrap_err();
    match err {
        ClientError::Api {
            status,
            kind,
            retry_after,
            ..
        } => {
            assert_eq!(status, Some(429));
            assert_eq!(kind, "rate_limit_error");
            assert_eq!(retry_after, Some(Duration::from_secs(7)));
        }
        other => panic!("unexpected: {other:?}"),
    }
}

#[test]
fn stream_collects_a_full_message() {
    let body = sse(&[
        r#"{"type": "message_start", "message": {"id": "msg_s", "role": "assistant", "model": "opus-4-8", "content": [], "usage": {"input_tokens": 5}}}"#,
        r#"{"type": "content_block_start", "index": 0, "content_block": {"type": "text", "text": ""}}"#,
        r#"{"type": "content_block_delta", "index": 0, "delta": {"type": "text_delta", "text": "streamed"}}"#,
        r#"{"type": "content_block_stop", "index": 0}"#,
        r#"{"type": "message_delta", "delta": {"stop_reason": "end_turn"}, "usage": {"output_tokens": 2}}"#,
        r#"{"type": "message_stop"}"#,
    ]);
    let client = Anthropic::new("k".to_string());
    let builder = client.message("m".to_string()).user("x".to_string());
    assert_eq!(builder.stream_body().get("stream"), Some(&Json::Bool(true)));

    let stream = EventStream::new(Some("req_s".to_string()));
    assert_eq!(stream.request_id(), Some("req_s"));

    let message = collect(&body, Some("req_s".to_string())).unwrap();
    assert_eq!(message.text(), "streamed");
    assert_eq!(message.stop_reason.as_deref(), Some("end_turn"));
    assert_eq!(message.usage.output_tokens, Some(2));
    assert_eq!(message.request_id.as_deref(), Some("req_s"));
}

#[test]
fn mid_stream_error_event_is_an_error() {
    let body = sse(&[
        r#"{"type": "message_start", "message": {"id": "msg_e", "role": "assistant"}}"#,
        r#"{"type": "error", "error": {"type": "overloaded_error", "message": "busy"}}"#,
    ]);
    let err = collect(&body, None).unwrap_err();
    match err {
        ClientError::Api { status, kind, .. } => {
            assert_eq!(status, None);
            assert_eq!(kind, "overloaded_error");
        }
        other => panic!("unexpected: {other:?}"),
    }
}

#[test]
fn count_tokens_strips_generation_params() {
    let client = Anthropic::new("k".to_string());
    let builder = client
        .message("m".to_string())
        .max_tokens(9000)
        .temperature(Json::Number(Number::Float("0.5".to_string())))
        .user("x".to_string());
    let count = read_count(200, r#"{"input_tokens":42}"#.to_string(), None, None).unwrap();
    assert_eq!(count, 42);

    assert!(builder.url("/v1/messages/count_tokens").ends_with("/v1/messages/count_tokens"));
    let body = builder.count_body();
    assert!(body.get("max_tokens").is_none());
    assert!(body.get("temperature").is_none());
}

#[test]
fn stream_events_after_error_are_not_lost() {
    let body = sse(&[r#"{"type": "ping"}"#, r#"{"type": "message_stop"}"#]);
    let mut stream = EventStream::new(None);
    stream.supply(&body).unwrap();
    assert!(matches!(stream.poll(), StreamStep::Ready(Ok(Some(Event::Ping)))));
    assert!(matches!(stream.poll(), StreamStep::Ready(Ok(Some(Event::MessageStop)))));
    assert!(matches!(stream.poll(), StreamStep::NeedInput));
}
