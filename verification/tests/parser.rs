use anthropical::{
    ContentBlock, Delta, Event, EventParser, Json, MAX_RECORD_BYTES, Number, ParseError,
    find_record_end,
};

fn json_of(v: serde_json::Value) -> Json {
    match v {
        serde_json::Value::Null => Json::Null,
        serde_json::Value::Bool(b) => Json::Bool(b),
        serde_json::Value::Number(n) => Json::Number(match (n.as_u64(), n.as_i64()) {
            (Some(u), _) => Number::PosInt(u),
            (None, Some(i)) => Number::NegInt(i),
            _ => Number::Float(n.to_string()),
        }),
        serde_json::Value::String(s) => Json::String(s),
        serde_json::Value::Array(a) => Json::Array(a.into_iter().map(json_of).collect()),
        serde_json::Value::Object(m) => {
            Json::Object(m.into_iter().map(|(k, v)| (k, json_of(v))).collect())
        }
    }
}

fn j(text: &str) -> Json {
    json_of(serde_json::from_str(text).unwrap())
}

#[test]
fn parses_a_full_stream() {
    let stream = "\
event: message_start\n\
data: {\"type\":\"message_start\",\"message\":{\"id\":\"msg_1\",\"role\":\"assistant\"}}\n\
\n\
event: content_block_delta\n\
data: {\"type\":\"content_block_delta\",\"index\":0,\"delta\":{\"type\":\"text_delta\",\"text\":\"hi\"}}\n\
\n\
event: message_stop\n\
data: {\"type\":\"message_stop\"}\n\
\n";
    let events = EventParser::parse_all(stream).unwrap();
    assert_eq!(events.len(), 3);
    assert!(matches!(events[0], Event::MessageStart { .. }));
    assert!(matches!(
        &events[1],
        Event::ContentBlockDelta { delta: Delta::TextDelta { text }, .. } if text == "hi"
    ));
    assert!(matches!(events[2], Event::MessageStop));
}

#[test]
fn reassembles_multibyte_char_split_across_feeds() {
    // "🦀" is 4 bytes (F0 9F A6 80); cut the record between bytes 2 and 3.
    let record = "event: content_block_delta\n\
data: {\"type\":\"content_block_delta\",\"index\":0,\"delta\":{\"type\":\"text_delta\",\"text\":\"🦀\"}}\n\n";
    let bytes = record.as_bytes();
    let split = bytes.iter().position(|&b| b == 0xF0).unwrap() + 2;

    let mut p = EventParser::new();
    assert_eq!(p.feed(&bytes[..split]).unwrap(), 0); // incomplete record, no panic
    assert_eq!(p.feed(&bytes[split..]).unwrap(), 1);

    let ev = p.next_event().unwrap();
    assert!(matches!(
        ev,
        Event::ContentBlockDelta { delta: Delta::TextDelta { text }, .. } if text == "🦀"
    ));
}

#[test]
fn malformed_data_surfaces_as_error() {
    let mut p = EventParser::new();
    let err = p.feed(b"data: {not valid json}\n\n").unwrap_err();
    assert!(matches!(err, ParseError::Json(_)));
}

#[test]
fn unknown_block_type_falls_back_gracefully() {
    let stream = "data: {\"type\":\"content_block_start\",\"index\":0,\
\"content_block\":{\"type\":\"some_future_block\",\"data\":\"x\"}}\n\n";
    let events = EventParser::parse_all(stream).unwrap();
    assert!(matches!(
        events[0],
        Event::ContentBlockStart {
            content_block: ContentBlock::Other(_),
            ..
        }
    ));
}

#[test]
fn crlf_terminated_records() {
    let stream = "data: {\"type\":\"ping\"}\r\n\r\ndata: {\"type\":\"message_stop\"}\r\n\r\n";
    let events = EventParser::parse_all(stream).unwrap();
    assert!(matches!(events[0], Event::Ping));
    assert!(matches!(events[1], Event::MessageStop));
}

#[test]
fn mixed_delimiters_do_not_merge_records() {
    // A CRLF-terminated record followed by an LF-terminated one: the
    // earlier terminator must win or both records fuse into one.
    let stream = "data: {\"type\":\"ping\"}\r\n\r\ndata: {\"type\":\"message_stop\"}\n\n";
    let events = EventParser::parse_all(stream).unwrap();
    assert_eq!(events.len(), 2);
    assert!(matches!(events[0], Event::Ping));
    assert!(matches!(events[1], Event::MessageStop));
}

#[test]
fn multiple_data_lines_concatenate_with_newline() {
    let stream = "data: {\"type\":\ndata:  \"ping\"}\n\n";
    let events = EventParser::parse_all(stream).unwrap();
    assert!(matches!(events[0], Event::Ping));
}

#[test]
fn trailing_cr_waits_for_more_bytes() {
    // The final \r could be half of a \r\n split across reads.
    let mut p = EventParser::new();
    assert_eq!(p.feed(b"data: {\"type\":\"ping\"}\r\n\r").unwrap(), 0);
    assert_eq!(p.feed(b"\n").unwrap(), 1);
    assert!(matches!(p.next_event().unwrap(), Event::Ping));
}

#[test]
fn bad_record_does_not_drop_the_ones_behind_it() {
    let mut p = EventParser::new();
    let err = p
        .feed(b"data: {garbage}\n\ndata: {\"type\":\"ping\"}\n\n")
        .unwrap_err();
    assert!(matches!(err, ParseError::Json(_)));
    assert!(matches!(p.next_event().unwrap(), Event::Ping));
}

#[test]
fn unterminated_record_is_capped() {
    let mut p = EventParser::new();
    let blob = vec![b'x'; MAX_RECORD_BYTES + 1];
    assert!(matches!(
        p.feed(&blob).unwrap_err(),
        ParseError::Malformed(_)
    ));
}

// ---------------------------------------------------------------------------
// Further cases of the framing and the record format.
// ---------------------------------------------------------------------------

#[test]
fn record_end_cases() {
    assert_eq!(find_record_end(b""), None);
    assert_eq!(find_record_end(b"abc\n"), None);
    assert_eq!(find_record_end(b"a\n\nb"), Some(3));
    assert_eq!(find_record_end(b"a\r\n\r\nb"), Some(5));
    assert_eq!(find_record_end(b"a\r\rb"), Some(3));
    assert_eq!(find_record_end(b"a\n\rb"), Some(3));
    assert_eq!(find_record_end(b"a\n\r\nb"), Some(4));
    assert_eq!(find_record_end(b"a\n\r"), None);
    assert_eq!(find_record_end(b"\n\n"), Some(2));
    assert_eq!(find_record_end(b"a\nb\nc"), None);
}

#[test]
fn feeding_in_chunks_gives_the_same_events_as_feeding_at_once() {
    let stream = "event: a\ndata: {\"type\":\"ping\"}\r\n\r\n: comment\n\ndata: {\"type\":\"content_block_stop\",\"index\":3}\n\ndata: {\"type\":\"message_stop\"}\r\r\n";
    let all = EventParser::parse_all(stream).unwrap();
    assert_eq!(all.len(), 3);
    let bytes = stream.as_bytes();
    for cut in 0..bytes.len() {
        let mut p = EventParser::new();
        p.feed(&bytes[..cut]).unwrap();
        p.feed(&bytes[cut..]).unwrap();
        let events = p.drain();
        assert_eq!(events.len(), all.len(), "cut at {cut}");
        assert!(matches!(events[0], Event::Ping));
        assert!(matches!(events[1], Event::ContentBlockStop { index: 3 }));
        assert!(matches!(events[2], Event::MessageStop));
    }
}

#[test]
fn records_without_data_yield_nothing() {
    let mut p = EventParser::new();
    assert_eq!(p.feed(b": keep-alive\n\nevent: ping\n\n").unwrap(), 0);
    assert!(p.next_event().is_none());
}

#[test]
fn invalid_utf8_record_is_a_utf8_error() {
    let mut p = EventParser::new();
    let err = p.feed(b"data: \xff\xfe\n\n").unwrap_err();
    assert!(matches!(err, ParseError::Utf8(_)));
}

#[test]
fn data_without_space_and_blank_first_data_line() {
    // No space after the colon; and an empty first data line adds no newline.
    let events = EventParser::parse_all("data:\ndata:{\"type\":\"ping\"}\n\n").unwrap();
    assert!(matches!(events[0], Event::Ping));
}

#[test]
fn unknown_event_type_is_unknown() {
    let events = EventParser::parse_all("data: {\"type\":\"brand_new\",\"x\":1}\n\n").unwrap();
    assert!(matches!(events[0], Event::Unknown));
}

#[test]
fn event_missing_required_field_is_a_json_error() {
    let mut p = EventParser::new();
    let err = p.feed(b"data: {\"type\":\"content_block_stop\"}\n\n").unwrap_err();
    assert!(matches!(err, ParseError::Json(_)));
    let err = p.feed(b"data: {\"index\":1}\n\n").unwrap_err();
    assert!(matches!(err, ParseError::Json(_)));
    let err = p
        .feed(b"data: {\"type\":\"content_block_stop\",\"index\":4294967296}\n\n")
        .unwrap_err();
    assert!(matches!(err, ParseError::Json(_)));
}

#[test]
fn events_in_array_form_are_read_positionally() {
    let ev = anthropical::decode_event(&j(r#"["content_block_stop", 7]"#)).unwrap();
    assert!(matches!(ev, Event::ContentBlockStop { index: 7 }));
    assert!(anthropical::decode_event(&j(r#"["content_block_stop", 7, 8]"#)).is_err());
    assert!(matches!(
        anthropical::decode_event(&j(r#"["ping"]"#)).unwrap(),
        Event::Ping
    ));
}

#[test]
fn drain_empties_the_queue_in_order() {
    let mut p = EventParser::new();
    assert_eq!(
        p.feed(b"data: {\"type\":\"ping\"}\n\ndata: {\"type\":\"message_stop\"}\n\n")
            .unwrap(),
        2
    );
    let events = p.drain();
    assert!(matches!(events[0], Event::Ping));
    assert!(matches!(events[1], Event::MessageStop));
    assert!(p.drain().is_empty());
}

#[test]
fn record_ends_after_the_first_blank_line() {
    // A `\r` at the very end ends nothing yet, even after a terminator.
    assert_eq!(find_record_end(b"\r\r"), None);
    assert_eq!(find_record_end(b"\r\rx"), Some(2));
    // The first blank line wins over a later one.
    assert_eq!(find_record_end(b"x\r\n\ny\n\n"), Some(4));
    // A `\r\n` is one terminator, not two.
    assert_eq!(find_record_end(b"x\r\ny"), None);
}
