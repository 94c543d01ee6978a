use anthropical::{
    ClientError, ContentBlock, Event, EventStream, Json, MessageCollector, Number, ParseError,
    Response, StreamStep,
};
use std::collections::VecDeque;

fn json_of(v: serde_json::Value) -> Json {
    match v {
        serde_json::Value::Null => Json::Null,
        serde_json::Value::Bool(b) => Json::Bool(b),
        serde_json::Value::Number(n) => Json::Number(match (n.as_u64(), n.as_i64()) {
            (Some(u), _) => Number::PosInt(u),
            (None, Some(i)) => Number::NegInt(i),
            _ => Number::Float(n.to_string()),
        }),
        serde_json::Value::String(s) => Json::String(s),
        serde_json::Value::Array(a) => Json::Array(a.into_iter().map(json_of).collect()),
        serde_json::Value::Object(m) => {
            Json::Object(m.into_iter().map(|(k, v)| (k, json_of(v))).collect())
        }
    }
}

fn j(text: &str) -> Json {
    json_of(serde_json::from_str(text).unwrap())
}

/// A stream whose reads hand out these chunks, then the end.
struct Script {
    stream: EventStream,
    chunks: VecDeque<Vec<u8>>,
}

impl Script {
    fn recv(&mut self) -> Result<Option<Event>, ClientError> {
        loop {
            match self.stream.poll() {
                StreamStep::Ready(r) => return r,
                StreamStep::NeedInput => {
                    let chunk = self.chunks.pop_front().unwrap_or_default();
                    self.stream.supply(&chunk)?;
                }
            }
        }
    }

    fn collect_message(mut self) -> Result<Response, ClientError> {
        let mut collector = MessageCollector::new();
        while let Some(event) = self.recv()? {
            collector.apply(event)?;
        }
        collector.finish(self.stream.take_request_id())
    }
}

fn sse(records: &[&str]) -> Vec<u8> {
    records
        .iter()
        .map(|r| format!("data: {r}\n\n"))
        .collect::<String>()
        .into_bytes()
}

/// Deliver the bytes in hostile little chunks to exercise reassembly.
fn stream_of(records: &[&str]) -> Script {
    let chunks = sse(records).chunks(7).map(<[u8]>::to_vec).collect();
    Script { stream: EventStream::new(Some("req_test".into())), chunks }
}

fn full_stream() -> Vec<&'static str> {
    vec![
        r#"{"type": "message_start", "message": {"id": "msg_1", "role": "assistant", "model": "opus-4-8", "content": [], "usage": {"input_tokens": 10}}}"#,
        r#"{"type": "content_block_start", "index": 0, "content_block": {"type": "text", "text": ""}}"#,
        r#"{"type": "content_block_delta", "index": 0, "delta": {"type": "text_delta", "text": "Hello"}}"#,
        r#"{"type": "content_block_delta", "index": 0, "delta": {"type": "text_delta", "text": " world"}}"#,
        r#"{"type": "content_block_stop", "index": 0}"#,
        r#"{"type": "content_block_start", "index": 1, "content_block": {"type": "tool_use", "id": "tu_1", "name": "get_weather", "input": {}}}"#,
        r#"{"type": "content_block_delta", "index": 1, "delta": {"type": "input_json_delta", "partial_json": "{\"city\":"}}"#,
        r#"{"type": "content_block_delta", "index": 1, "delta": {"type": "input_json_delta", "partial_json": "\"Paris\"}"}}"#,
        r#"{"type": "content_block_stop", "index": 1}"#,
        r#"{"type": "content_block_start", "index": 2, "content_block": {"type": "thinking", "thinking": ""}}"#,
        r#"{"type": "content_block_delta", "index": 2, "delta": {"type": "thinking_delta", "thinking": "hmm"}}"#,
        r#"{"type": "content_block_delta", "index": 2, "delta": {"type": "signature_delta", "signature": "sig_abc"}}"#,
        r#"{"type": "content_block_stop", "index": 2}"#,
        r#"{"type": "message_delta", "delta": {"stop_reason": "tool_use"}, "usage": {"output_tokens": 7}}"#,
        r#"{"type": "message_stop"}"#,
    ]
}

#[test]
fn collect_message_assembles_everything() {
    let msg = stream_of(&full_stream()).collect_message().unwrap();
    assert_eq!(msg.id, "msg_1");
    assert_eq!(msg.text(), "Hello world");
    assert_eq!(msg.stop_reason.as_deref(), Some("tool_use"));
    assert_eq!(msg.usage.input_tokens, Some(10));
    assert_eq!(msg.usage.output_tokens, Some(7));
    assert_eq!(msg.request_id.as_deref(), Some("req_test"));

    let tools: Vec<_> = msg.tool_uses();
    assert_eq!(tools, vec![("tu_1", "get_weather", &j(r#"{"city": "Paris"}"#))]);

    match &msg.content[2] {
        ContentBlock::Thinking {
            thinking,
            signature,
        } => {
            assert_eq!(thinking, "hmm");
            assert_eq!(signature, "sig_abc");
        }
        other => panic!("unexpected block: {other:?}"),
    }
}

#[test]
fn truncated_stream_is_an_error_not_a_partial_message() {
    let mut records = full_stream();
    records.pop(); // drop message_stop
    let err = stream_of(&records).collect_message().unwrap_err();
    assert!(matches!(err, ClientError::Stream(ParseError::Malformed(_))));
}

#[test]
fn mid_stream_error_event_surfaces_on_the_error_path() {
    let records = vec![
        full_stream()[0],
        r#"{"type": "error", "error": {"type": "overloaded_error", "message": "busy"}}"#,
    ];
    let mut stream = stream_of(&records);
    assert!(matches!(stream.recv(), Ok(Some(Event::MessageStart { .. }))));
    match stream.recv() {
        Err(ClientError::Api { status, kind, .. }) => {
            assert_eq!(status, None);
            assert_eq!(kind, "overloaded_error");
        }
        other => panic!("unexpected: {other:?}"),
    }
}

#[test]
fn iterator_yields_events_then_ends() {
    let mut stream = stream_of(&full_stream());
    let mut events = Vec::new();
    while let Some(event) = stream.recv().unwrap() {
        events.push(event);
    }
    assert_eq!(events.len(), 15);
    assert!(matches!(events.last(), Some(Event::MessageStop)));
    assert!(stream.recv().unwrap().is_none());
}

// ---------------------------------------------------------------------------
// Assembly edge cases.
// ---------------------------------------------------------------------------

#[test]
fn events_before_message_start_are_malformed() {
    let records = vec![r#"{"type": "content_block_start", "index": 0, "content_block": {"type": "text", "text": ""}}"#];
    let err = stream_of(&records).collect_message().unwrap_err();
    match err {
        ClientError::Stream(ParseError::Malformed(why)) => assert_eq!(why, "event before message_start"),
        other => panic!("unexpected: {other:?}"),
    }
    let err = stream_of(&[r#"{"type": "message_stop"}"#]).collect_message().unwrap_err();
    match err {
        ClientError::Stream(ParseError::Malformed(why)) => assert_eq!(why, "stream ended before message_start"),
        other => panic!("unexpected: {other:?}"),
    }
}

#[test]
fn delta_for_unstarted_block_is_malformed() {
    let records = vec![
        full_stream()[0],
        r#"{"type": "content_block_delta", "index": 4, "delta": {"type": "text_delta", "text": "x"}}"#,
    ];
    let err = stream_of(&records).collect_message().unwrap_err();
    match err {
        ClientError::Stream(ParseError::Malformed(why)) => assert_eq!(why, "delta for a block that never started"),
        other => panic!("unexpected: {other:?}"),
    }
}

#[test]
fn bad_tool_input_is_a_decode_error() {
    let records = vec![
        full_stream()[0],
        full_stream()[5],
        r#"{"type": "content_block_delta", "index": 0, "delta": {"type": "input_json_delta", "partial_json": "{oops"}}"#,
        r#"{"type": "content_block_stop", "index": 0}"#,
    ];
    let err = stream_of(&records).collect_message().unwrap_err();
    assert!(matches!(err, ClientError::Decode(_)));
}

#[test]
fn request_id_and_end_of_stream() {
    let mut s = EventStream::new(None);
    assert_eq!(s.request_id(), None);
    assert!(matches!(s.poll(), StreamStep::NeedInput));
    s.supply(b"").unwrap();
    assert!(matches!(s.poll(), StreamStep::Ready(Ok(None))));
    let s = EventStream::new(Some("r".to_string()));
    assert_eq!(s.request_id(), Some("r"));
}

#[test]
fn stream_parse_errors_surface_as_stream_errors() {
    let mut s = EventStream::new(None);
    let err = s.supply(b"data: nope\n\n").unwrap_err();
    assert!(matches!(err, ClientError::Stream(ParseError::Json(_))));
}

#[test]
fn every_event_comes_out_whatever_the_read_boundaries() {
    let bytes = sse(&full_stream());
    let text = String::from_utf8(bytes.clone()).unwrap();
    let expected: Vec<String> = anthropical::EventParser::parse_all(&text)
        .unwrap()
        .iter()
        .map(|e| format!("{e:?}"))
        .collect();
    for size in [1usize, 2, 3, 7, 64, bytes.len()] {
        let chunks = bytes.chunks(size).map(<[u8]>::to_vec).collect();
        let mut script = Script { stream: EventStream::new(None), chunks };
        let mut got = Vec::new();
        while let Some(event) = script.recv().unwrap() {
            got.push(format!("{event:?}"));
        }
        assert_eq!(got, expected, "chunk size {size}");
    }
}

#[test]
fn delta_runs_append_in_order_and_the_last_signature_wins() {
    let records = vec![
        full_stream()[0],
        r#"{"type": "content_block_start", "index": 0, "content_block": {"type": "text", "text": "a"}}"#,
        r#"{"type": "content_block_delta", "index": 0, "delta": {"type": "text_delta", "text": "b"}}"#,
        r#"{"type": "content_block_delta", "index": 0, "delta": {"type": "thinking_delta", "thinking": "ignored"}}"#,
        r#"{"type": "content_block_delta", "index": 0, "delta": {"type": "text_delta", "text": "c"}}"#,
        r#"{"type": "content_block_start", "index": 1, "content_block": {"type": "thinking", "thinking": "x", "signature": "s0"}}"#,
        r#"{"type": "content_block_delta", "index": 1, "delta": {"type": "signature_delta", "signature": "s1"}}"#,
        r#"{"type": "content_block_delta", "index": 1, "delta": {"type": "thinking_delta", "thinking": "y"}}"#,
        r#"{"type": "content_block_delta", "index": 1, "delta": {"type": "signature_delta", "signature": "s2"}}"#,
        r#"{"type": "message_stop"}"#,
    ];
    let msg = stream_of(&records).collect_message().unwrap();
    assert_eq!(msg.text(), "abc");
    match &msg.content[1] {
        ContentBlock::Thinking { thinking, signature } => {
            assert_eq!(thinking, "xy");
            assert_eq!(signature, "s2");
        }
        other => panic!("unexpected block: {other:?}"),
    }
}

#[test]
fn stop_fields_keep_the_last_given_and_usage_merges() {
    let records = vec![
        r#"{"type": "message_start", "message": {"id": "m", "content": [], "stop_reason": "r0", "usage": {"input_tokens": 10, "output_tokens": 1}}}"#,
        r#"{"type": "message_delta", "delta": {"stop_reason": "r1", "stop_sequence": "q1"}, "usage": {"output_tokens": 2}}"#,
        r#"{"type": "message_delta", "delta": {}, "usage": {"output_tokens": 3, "cache_read_input_tokens": 4}}"#,
        r#"{"type": "message_stop"}"#,
    ];
    let msg = stream_of(&records).collect_message().unwrap();
    assert_eq!(msg.stop_reason.as_deref(), Some("r1"));
    assert_eq!(msg.stop_sequence.as_deref(), Some("q1"));
    assert_eq!(msg.usage.input_tokens, Some(10));
    assert_eq!(msg.usage.output_tokens, Some(3));
    assert_eq!(msg.usage.cache_read_input_tokens, Some(4));
}

#[test]
fn tool_input_without_fragments_is_left_alone_and_message_delta_needs_a_start() {
    let records = vec![
        full_stream()[0],
        full_stream()[5],
        r#"{"type": "content_block_delta", "index": 0, "delta": {"type": "input_json_delta", "partial_json": ""}}"#,
        r#"{"type": "content_block_stop", "index": 0}"#,
        r#"{"type": "message_stop"}"#,
    ];
    let msg = stream_of(&records).collect_message().unwrap();
    assert_eq!(msg.tool_uses(), vec![("tu_1", "get_weather", &j("{}"))]);

    let err = stream_of(&[r#"{"type": "message_delta", "delta": {}}"#, r#"{"type": "message_stop"}"#])
        .collect_message()
        .unwrap_err();
    match err {
        ClientError::Stream(ParseError::Malformed(why)) => assert_eq!(why, "event before message_start"),
        other => panic!("unexpected: {other:?}"),
    }
}

#[test]
fn interleaved_events_keep_each_blocks_deltas_in_order() {
    let records = vec![
        full_stream()[0],
        r#"{"type": "content_block_start", "index": 0, "content_block": {"type": "text", "text": "a"}}"#,
        r#"{"type": "content_block_start", "index": 1, "content_block": {"type": "tool_use", "id": "t", "name": "n", "input": {}}}"#,
        r#"{"type": "content_block_delta", "index": 1, "delta": {"type": "input_json_delta", "partial_json": "{\"k\""}}"#,
        r#"{"type": "content_block_delta", "index": 0, "delta": {"type": "text_delta", "text": "b"}}"#,
        r#"{"type": "message_delta", "delta": {"stop_reason": "x"}, "usage": {"output_tokens": 1}}"#,
        r#"{"type": "ping"}"#,
        r#"{"type": "content_block_delta", "index": 1, "delta": {"type": "input_json_delta", "partial_json": ":2}"}}"#,
        r#"{"type": "content_block_delta", "index": 0, "delta": {"type": "text_delta", "text": "c"}}"#,
        r#"{"type": "content_block_stop", "index": 1}"#,
        r#"{"type": "message_delta", "delta": {}, "usage": {"input_tokens": 4}}"#,
        r#"{"type": "message_stop"}"#,
    ];
    let msg = stream_of(&records).collect_message().unwrap();
    assert_eq!(msg.text(), "abc");
    assert_eq!(msg.tool_uses(), vec![("t", "n", &j(r#"{"k": 2}"#))]);
    assert_eq!(msg.stop_reason.as_deref(), Some("x"));
    assert_eq!(msg.usage.output_tokens, Some(1));
    assert_eq!(msg.usage.input_tokens, Some(4));
}
