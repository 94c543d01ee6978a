use anthropical::{ContentBlock, Delta, Event, Json, Number, Usage, decode_delta, decode_event, decode_usage};

fn json_of(v: serde_json::Value) -> Json {
    match v {
        serde_json::Value::Null => Json::Null,
        serde_json::Value::Bool(b) => Json::Bool(b),
        serde_json::Value::Number(n) => Json::Number(match (n.as_u64(), n.as_i64()) {
            (Some(u), _) => Number::PosInt(u),
            (None, Some(i)) => Number::NegInt(i),
            _ => Number::Float(n.to_string()),
        }),
        serde_json::Value::String(s) => Json::String(s),
        serde_json::Value::Array(a) => Json::Array(a.into_iter().map(json_of).collect()),
        serde_json::Value::Object(m) => {
            Json::Object(m.into_iter().map(|(k, v)| (k, json_of(v))).collect())
        }
    }
}

fn j(text: &str) -> Json {
    json_of(serde_json::from_str(text).unwrap())
}

/// Objects compared as maps: members sorted by key, the last of a name kept.
fn canon(v: &Json) -> Json {
    match v {
        Json::Array(a) => Json::Array(a.iter().map(canon).collect()),
        Json::Object(m) => {
            let mut out: Vec<(String, Json)> = Vec::new();
            for (k, v) in m {
                out.retain(|(k2, _)| k2 != k);
                out.push((k.clone(), canon(v)));
            }
            out.sort_by(|a, b| a.0.cmp(&b.0));
            Json::Object(out)
        }
        other => other.clone(),
    }
}

#[test]
fn message_delta_tolerates_missing_usage_and_carries_stop_details() {
    let event = decode_event(&j(
        r#"{"type":"message_delta","delta":{"stop_reason":"refusal","stop_details":{"category":"cyber","explanation":"no"}}}"#,
    ))
    .unwrap();
    match event {
        Event::MessageDelta { delta, usage } => {
            assert_eq!(delta.stop_reason.as_deref(), Some("refusal"));
            let details = delta.stop_details.unwrap();
            assert_eq!(details.category.as_deref(), Some("cyber"));
            assert!(usage.output_tokens.is_none());
        }
        other => panic!("unexpected: {other:?}"),
    }
}

#[test]
fn unknown_block_round_trips_verbatim() {
    let raw = j(r#"{"type": "redacted_thinking", "data": "opaque-bytes"}"#);
    let block = ContentBlock::from_value(raw.clone());
    assert!(matches!(block, ContentBlock::Other(_)));
    assert_eq!(block.to_value(), raw);
}

#[test]
fn thinking_block_keeps_its_signature() {
    let raw = j(r#"{"type": "thinking", "thinking": "hmm", "signature": "sig_1"}"#);
    let block = ContentBlock::from_value(raw.clone());
    assert_eq!(canon(&block.to_value()), canon(&raw));
}

// ---------------------------------------------------------------------------
// Blocks, deltas and usage.
// ---------------------------------------------------------------------------

#[test]
fn modelled_blocks_read_back_from_their_wire_form() {
    let blocks = vec![
        ContentBlock::Text { text: "a".to_string() },
        ContentBlock::ToolUse { id: "t".to_string(), name: "f".to_string(), input: j(r#"{"k":[1,2]}"#) },
        ContentBlock::Thinking { thinking: "h".to_string(), signature: "s".to_string() },
        ContentBlock::ServerToolUse { id: "u".to_string(), name: "g".to_string(), input: Json::Null },
    ];
    for b in blocks {
        let again = ContentBlock::from_value(b.to_value());
        assert_eq!(again.to_value(), b.to_value());
        assert_eq!(format!("{again:?}"), format!("{b:?}"));
    }
}

#[test]
fn known_block_with_missing_fields_gets_defaults() {
    let block = ContentBlock::from_value(j(r#"{"type":"tool_use","id":7}"#));
    match block {
        ContentBlock::ToolUse { id, name, input } => {
            assert_eq!(id, "");
            assert_eq!(name, "");
            assert_eq!(input, Json::Null);
        }
        other => panic!("unexpected: {other:?}"),
    }
    // A value with no string type, or not an object, is kept whole.
    assert!(matches!(ContentBlock::from_value(j(r#"{"type":5}"#)), ContentBlock::Other(_)));
    assert!(matches!(ContentBlock::from_value(j(r#"[1]"#)), ContentBlock::Other(_)));
}

#[test]
fn deltas_by_tag() {
    assert!(matches!(
        decode_delta(&j(r#"{"type":"input_json_delta","partial_json":"{"}"#)).unwrap(),
        Delta::InputJsonDelta { partial_json } if partial_json == "{"
    ));
    assert!(matches!(
        decode_delta(&j(r#"{"type":"citations_delta","citation":{}}"#)).unwrap(),
        Delta::Other
    ));
    assert!(decode_delta(&j(r#"{"type":"text_delta"}"#)).is_err());
    assert!(decode_delta(&j(r#"{"text":"x"}"#)).is_err());
}

#[test]
fn usage_fields_are_optional_and_typed() {
    let u = decode_usage(&j(r#"{"input_tokens":3,"output_tokens":null}"#)).unwrap();
    assert_eq!(u.input_tokens, Some(3));
    assert_eq!(u.output_tokens, None);
    assert!(decode_usage(&j(r#"{"input_tokens":-1}"#)).is_err());
    assert!(decode_usage(&j(r#"{"input_tokens":1.5}"#)).is_err());
    assert!(decode_usage(&j(r#"null"#)).is_err());
}

#[test]
fn merge_keeps_the_freshest_count_per_field() {
    let mut a = Usage {
        input_tokens: Some(10),
        output_tokens: Some(1),
        cache_read_input_tokens: None,
        cache_creation_input_tokens: Some(4),
    };
    let b = Usage {
        input_tokens: None,
        output_tokens: Some(7),
        cache_read_input_tokens: Some(2),
        cache_creation_input_tokens: None,
    };
    a.merge(&b);
    assert_eq!(a.input_tokens, Some(10));
    assert_eq!(a.output_tokens, Some(7));
    assert_eq!(a.cache_read_input_tokens, Some(2));
    assert_eq!(a.cache_creation_input_tokens, Some(4));
}

#[test]
fn merge_grouping_does_not_matter() {
    let x = Usage { input_tokens: Some(1), output_tokens: None, cache_read_input_tokens: Some(5), cache_creation_input_tokens: None };
    let y = Usage { input_tokens: None, output_tokens: Some(2), cache_read_input_tokens: None, cache_creation_input_tokens: None };
    let z = Usage { input_tokens: Some(3), output_tokens: None, cache_read_input_tokens: None, cache_creation_input_tokens: Some(9) };
    let mut left = x;
    left.merge(&y);
    left.merge(&z);
    let mut yz = y;
    yz.merge(&z);
    let mut right = x;
    right.merge(&yz);
    assert_eq!(format!("{left:?}"), format!("{right:?}"));
    let mut same = x;
    same.merge(&Usage::default());
    assert_eq!(format!("{same:?}"), format!("{x:?}"));
}

#[test]
fn error_event_keeps_its_payload() {
    let ev = decode_event(&j(r#"{"type":"error","error":{"type":"overloaded_error","message":"busy"}}"#)).unwrap();
    match ev {
        Event::Error { error } => {
            assert_eq!(error.get("type").and_then(|t| t.as_str()), Some("overloaded_error"))
        }
        other => panic!("unexpected: {other:?}"),
    }
    assert!(decode_event(&j(r#"{"type":"error"}"#)).is_err());
}
