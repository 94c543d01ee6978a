//! Laws of the wire forms: every field read from a JSON record is the
//! member of that field's name (in an array, the element at the field's
//! position, after the tag when there is one), and every member written
//! carries the value of that name.
use vstd::prelude::*;
use crate::decode::field;
use crate::event::{
    ContentBlockV, DeltaV, EventV, MessageDeltaV, StopDetailsV, Usage, block_json, block_of,
    spec_delta, spec_event, spec_message_delta, spec_stop_details, spec_tag, spec_usage,
    empty_usage,
};
use crate::json::{JsonV, NumberV, str_member};
use crate::response::spec_response;
use crate::request::spec_count;

verus! {

/// An optional string read from member `f`: `None` when the member is
/// missing or null, else the member's string.
pub open spec fn opt_str_from(f: Option<JsonV>, v: Option<Seq<char>>) -> bool {
    match v {
        None => f is None || f == Some(JsonV::Null),
        Some(s) => f == Some(JsonV::Str(s)),
    }
}

/// An optional count read from member `f`: `None` when the member is
/// missing or null, else the member's integer.
pub open spec fn opt_count_from(f: Option<JsonV>, v: Option<u64>) -> bool {
    match v {
        None => f is None || f == Some(JsonV::Null),
        Some(n) => f == Some(JsonV::Num(NumberV::Int(n as int))),
    }
}

/// Each count of a usage report is the member of its name.
pub proof fn lemma_usage_fields_by_name(j: JsonV)
    ensures
        spec_usage(j) matches Some(u) ==> {
            &&& opt_count_from(field(j, 0, 0, "input_tokens"@), u.input_tokens)
            &&& opt_count_from(field(j, 0, 1, "output_tokens"@), u.output_tokens)
            &&& opt_count_from(field(j, 0, 2, "cache_read_input_tokens"@), u.cache_read_input_tokens)
            &&& opt_count_from(
                field(j, 0, 3, "cache_creation_input_tokens"@),
                u.cache_creation_input_tokens,
            )
        },
{
}

/// Each field of stop details is the member of its name.
pub proof fn lemma_stop_details_fields_by_name(j: JsonV)
    ensures
        spec_stop_details(j) matches Some(d) ==> {
            &&& opt_str_from(field(j, 0, 0, "category"@), d.category)
            &&& opt_str_from(field(j, 0, 1, "explanation"@), d.explanation)
        },
{
}

/// Each field of a message delta is the member of its name.
pub proof fn lemma_message_delta_fields_by_name(j: JsonV)
    ensures
        spec_message_delta(j) matches Some(d) ==> {
            &&& opt_str_from(field(j, 0, 0, "stop_reason"@), d.stop_reason)
            &&& opt_str_from(field(j, 0, 1, "stop_sequence"@), d.stop_sequence)
            &&& match d.stop_details {
                None => field(j, 0, 2, "stop_details"@) is None || field(j, 0, 2, "stop_details"@)
                    == Some(JsonV::Null),
                Some(x) => field(j, 0, 2, "stop_details"@) matches Some(f) && spec_stop_details(f)
                    == Some(x),
            }
        },
{
}

/// A delta's variant is the one its tag names, and its text the member of
/// that variant's field name; an unknown tag is `Other`.
pub proof fn lemma_delta_fields_by_name(j: JsonV)
    ensures
        spec_delta(j) matches Some(d) ==> spec_tag(j) matches Some((tag, off)) && match d {
            DeltaV::TextDelta { text } => tag == "text_delta"@ && field(j, off, 0, "text"@) == Some(
                JsonV::Str(text),
            ),
            DeltaV::InputJsonDelta { partial_json } => tag == "input_json_delta"@ && field(
                j,
                off,
                0,
                "partial_json"@,
            ) == Some(JsonV::Str(partial_json)),
            DeltaV::ThinkingDelta { thinking } => tag == "thinking_delta"@ && field(
                j,
                off,
                0,
                "thinking"@,
            ) == Some(JsonV::Str(thinking)),
            DeltaV::SignatureDelta { signature } => tag == "signature_delta"@ && field(
                j,
                off,
                0,
                "signature"@,
            ) == Some(JsonV::Str(signature)),
            DeltaV::Other => tag != "text_delta"@ && tag != "input_json_delta"@ && tag
                != "thinking_delta"@ && tag != "signature_delta"@,
        },
{
}

/// An event's variant is the one its tag names, and each of its fields the
/// member of that field's name; an unknown tag is `Unknown`.
pub proof fn lemma_event_fields_by_name(j: JsonV)
    ensures
        spec_event(j) matches Some(e) ==> spec_tag(j) matches Some((tag, off)) && match e {
            EventV::MessageStart { message } => {
                &&& tag == "message_start"@
                &&& field(j, off, 0, "message"@) matches Some(m) && spec_response(m) == Some(message)
            },
            EventV::ContentBlockStart { index, content_block } => {
                &&& tag == "content_block_start"@
                &&& field(j, off, 0, "index"@) == Some(JsonV::Num(NumberV::Int(index as int)))
                &&& field(j, off, 1, "content_block"@) matches Some(b) && block_of(b) == content_block
            },
            EventV::ContentBlockDelta { index, delta } => {
                &&& tag == "content_block_delta"@
                &&& field(j, off, 0, "index"@) == Some(JsonV::Num(NumberV::Int(index as int)))
                &&& field(j, off, 1, "delta"@) matches Some(d) && spec_delta(d) == Some(delta)
            },
            EventV::ContentBlockStop { index } => {
                &&& tag == "content_block_stop"@
                &&& field(j, off, 0, "index"@) == Some(JsonV::Num(NumberV::Int(index as int)))
            },
            EventV::MessageDelta { delta, usage } => {
                &&& tag == "message_delta"@
                &&& field(j, off, 0, "delta"@) matches Some(d) && spec_message_delta(d) == Some(delta)
                &&& match field(j, off, 1, "usage"@) {
                    None => usage == empty_usage(),
                    Some(u) => spec_usage(u) == Some(usage),
                }
            },
            EventV::MessageStop => tag == "message_stop"@,
            EventV::Ping => tag == "ping"@,
            EventV::Error { error } => tag == "error"@ && field(j, off, 0, "error"@) == Some(error),
            EventV::Unknown => {
                &&& tag != "message_start"@
                &&& tag != "content_block_start"@
                &&& tag != "content_block_delta"@
                &&& tag != "content_block_stop"@
                &&& tag != "message_delta"@
                &&& tag != "message_stop"@
                &&& tag != "ping"@
                &&& tag != "error"@
            },
        },
{
}

/// A block's variant is the one its `type` names, and each of its fields
/// the member of that name: a string field is the member's string (empty
/// when the member is missing or not a string), a tool's input the member
/// (`null` when missing); a value whose `type` names no modelled block is
/// kept whole.
pub proof fn lemma_block_fields_by_name(v: JsonV)
    ensures
        ({
            let str_field = |x: Seq<char>, name: Seq<char>|
                str_member(v, name) == Some(x) || (str_member(v, name) is None && x
                    == Seq::<char>::empty());
            let input_field = |x: JsonV| v.get("input"@) == Some(x) || (v.get("input"@) is None
                && x == JsonV::Null);
            match block_of(v) {
                ContentBlockV::Text { text } => str_member(v, "type"@) == Some("text"@) && str_field(
                    text,
                    "text"@,
                ),
                ContentBlockV::ToolUse { id, name, input } => str_member(v, "type"@) == Some(
                    "tool_use"@,
                ) && str_field(id, "id"@) && str_field(name, "name"@) && input_field(input),
                ContentBlockV::Thinking { thinking, signature } => str_member(v, "type"@) == Some(
                    "thinking"@,
                ) && str_field(thinking, "thinking"@) && str_field(signature, "signature"@),
                ContentBlockV::ServerToolUse { id, name, input } => str_member(v, "type"@) == Some(
                    "server_tool_use"@,
                ) && str_field(id, "id"@) && str_field(name, "name"@) && input_field(input),
                ContentBlockV::Other(x) => x == v && str_member(v, "type"@) != Some("text"@)
                    && str_member(v, "type"@) != Some("tool_use"@) && str_member(v, "type"@)
                    != Some("thinking"@) && str_member(v, "type"@) != Some("server_tool_use"@),
            }
        }),
{
}

/// A token count is the integer member `input_tokens`.
pub proof fn lemma_count_by_name(j: JsonV)
    ensures
        spec_count(j) matches Some(n) ==> field(j, 0, 0, "input_tokens"@) == Some(
            JsonV::Num(NumberV::Int(n as int)),
        ),
{
}

} // verus!
