use anthropical::{Content, Json, Number, decode_response};

fn json_of(v: serde_json::Value) -> Json {
    match v {
        serde_json::Value::Null => Json::Null,
        serde_json::Value::Bool(b) => Json::Bool(b),
        serde_json::Value::Number(n) => Json::Number(match (n.as_u64(), n.as_i64()) {
            (Some(u), _) => Number::PosInt(u),
            (None, Some(i)) => Number::NegInt(i),
            _ => Number::Float(n.to_string()),
        }),
        serde_json::Value::String(s) => Json::String(s),
        serde_json::Value::Array(a) => Json::Array(a.into_iter().map(json_of).collect()),
        serde_json::Value::Object(m) => {
            Json::Object(m.into_iter().map(|(k, v)| (k, json_of(v))).collect())
        }
    }
}

fn j(text: &str) -> Json {
    json_of(serde_json::from_str(text).unwrap())
}

/// Objects compared as maps: members sorted by key, the last of a name kept.
fn canon(v: &Json) -> Json {
    match v {
        Json::Array(a) => Json::Array(a.iter().map(canon).collect()),
        Json::Object(m) => {
            let mut out: Vec<(String, Json)> = Vec::new();
            for (k, v) in m {
                out.retain(|(k2, _)| k2 != k);
                out.push((k.clone(), canon(v)));
            }
            out.sort_by(|a, b| a.0.cmp(&b.0));
            Json::Object(out)
        }
        other => other.clone(),
    }
}

#[test]
fn to_msg_round_trips_content_losslessly() {
    let body = j(r#"{
        "id": "msg_1",
        "model": "m",
        "role": "assistant",
        "content": [
            {"type": "thinking", "thinking": "hmm", "signature": "sig_1"},
            {"type": "text", "text": "calling a tool"},
            {"type": "tool_use", "id": "tu_1", "name": "lookup", "input": {"q": "x"}},
            {"type": "some_future_block", "payload": {"deep": [1, 2]}}
        ]
    }"#);
    let response = decode_response(&body).unwrap();
    let echoed = response.to_msg().to_json();
    assert_eq!(echoed.get("role"), Some(&Json::String("assistant".to_string())));
    assert_eq!(
        canon(echoed.get("content").unwrap()),
        canon(body.get("content").unwrap())
    );
}

#[test]
fn text_and_tool_uses_accessors() {
    let response = decode_response(&j(r#"{
        "id": "msg_1",
        "content": [
            {"type": "text", "text": "a"},
            {"type": "tool_use", "id": "tu_1", "name": "f", "input": {"k": 1}},
            {"type": "text", "text": "b"}
        ],
        "stop_reason": "refusal"
    }"#))
    .unwrap();
    assert_eq!(response.text(), "ab");
    assert!(response.is_refusal());
    let tools: Vec<_> = response.tool_uses();
    assert_eq!(tools, vec![("tu_1", "f", &j(r#"{"k": 1}"#))]);
}

// ---------------------------------------------------------------------------
// Reading responses.
// ---------------------------------------------------------------------------

#[test]
fn response_defaults_and_required_id() {
    let r = decode_response(&j(r#"{"id":"m"}"#)).unwrap();
    assert_eq!(r.model, "");
    assert_eq!(r.role, "");
    assert!(r.content.is_empty());
    assert!(r.stop_reason.is_none());
    assert!(r.request_id.is_none());
    assert!(!r.is_refusal());
    assert_eq!(r.text(), "");
    assert!(decode_response(&j(r#"{"model":"x"}"#)).is_err());
    assert!(decode_response(&j(r#"{"id":"m","model":null}"#)).is_err());
    assert!(decode_response(&j(r#"{"id":"m","content":{}}"#)).is_err());
    assert!(decode_response(&j(r#"{"id":"m","usage":null}"#)).is_err());
    let r = decode_response(&j(r#"{"id":"m","stop_reason":null,"stop_details":{"category":"c"}}"#)).unwrap();
    assert!(r.stop_reason.is_none());
    assert_eq!(r.stop_details.unwrap().category.as_deref(), Some("c"));
}

#[test]
fn response_in_array_form() {
    let r = decode_response(&j(r#"["m", "model", "assistant", [{"type":"text","text":"t"}]]"#)).unwrap();
    assert_eq!(r.id, "m");
    assert_eq!(r.model, "model");
    assert_eq!(r.text(), "t");
    assert!(decode_response(&j(r#"["m","a","b",[],null,null,null,{},"extra"]"#)).is_err());
}

#[test]
fn to_msg_keeps_blocks_in_order() {
    let r = decode_response(&j(r#"{"id":"m","content":[{"type":"text","text":"1"},{"type":"text","text":"2"}]}"#)).unwrap();
    match r.to_msg().content {
        Content::Blocks(blocks) => {
            assert_eq!(blocks.len(), 2);
            assert_eq!(blocks[1].get("text"), Some(&Json::String("2".to_string())));
        }
        other => panic!("unexpected: {other:?}"),
    }
}
