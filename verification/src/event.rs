//! The events of the Messages API stream, the content blocks they carry, and
//! how each is read from its JSON form.
use vstd::prelude::*;
use crate::json::{Json, JsonV, str_member, str_eq, decode_error, obj_get, lemma_obj_get_push};
use crate::decode::{
    field, is_record, dec_str, dec_str_or_empty, dec_opt_str, dec_u32, dec_opt_u64, get_field,
    check_record, get_str, get_str_or_empty, get_opt_str, get_u32, get_opt_u64, opt_view,
    opt_str_view,
};
use crate::response::{Response, ResponseV, spec_response, decode_response};

verus! {

/// Why a record of the event stream could not be read.
#[derive(Debug)]
pub enum ParseError {
    /// The record's `data` is not JSON, or not an event.
    Json(serde_json::Error),
    /// The record is not valid UTF-8.
    Utf8(std::str::Utf8Error),
    /// The stream broke the protocol (e.g. an unterminated record that grew
    /// past the size cap, or events out of order).
    Malformed(String),
}

/// One block of message content.
///
/// Block types the crate doesn't model are preserved verbatim in
/// [`Other`](Self::Other), so a response can be echoed back to the API
/// (see [`Response::to_msg`]) without losing anything.
#[derive(Debug, Clone)]
pub enum ContentBlock {
    Text { text: String },
    ToolUse { id: String, name: String, input: Json },
    Thinking {
        thinking: String,
        /// Opaque integrity signature; must be passed back unmodified when
        /// echoing the block in a multi-turn conversation.
        signature: String,
    },
    ServerToolUse { id: String, name: String, input: Json },
    Other(Json),
}

/// The model of a [`ContentBlock`].
pub enum ContentBlockV {
    Text { text: Seq<char> },
    ToolUse { id: Seq<char>, name: Seq<char>, input: JsonV },
    Thinking { thinking: Seq<char>, signature: Seq<char> },
    ServerToolUse { id: Seq<char>, name: Seq<char>, input: JsonV },
    Other(JsonV),
}

impl View for ContentBlock {
    type V = ContentBlockV;

    open spec fn view(&self) -> ContentBlockV {
        match self {
            ContentBlock::Text { text } => ContentBlockV::Text { text: text@ },
            ContentBlock::ToolUse { id, name, input } => ContentBlockV::ToolUse {
                id: id@,
                name: name@,
                input: input@,
            },
            ContentBlock::Thinking { thinking, signature } => ContentBlockV::Thinking {
                thinking: thinking@,
                signature: signature@,
            },
            ContentBlock::ServerToolUse { id, name, input } => ContentBlockV::ServerToolUse {
                id: id@,
                name: name@,
                input: input@,
            },
            ContentBlock::Other(v) => ContentBlockV::Other(v@),
        }
    }
}

/// A change to a content block, carried by `content_block_delta`.
#[derive(Debug, Clone)]
pub enum Delta {
    TextDelta { text: String },
    InputJsonDelta { partial_json: String },
    ThinkingDelta { thinking: String },
    SignatureDelta { signature: String },
    Other,
}

/// The model of a [`Delta`].
pub enum DeltaV {
    TextDelta { text: Seq<char> },
    InputJsonDelta { partial_json: Seq<char> },
    ThinkingDelta { thinking: Seq<char> },
    SignatureDelta { signature: Seq<char> },
    Other,
}

impl View for Delta {
    type V = DeltaV;

    open spec fn view(&self) -> DeltaV {
        match self {
            Delta::TextDelta { text } => DeltaV::TextDelta { text: text@ },
            Delta::InputJsonDelta { partial_json } => DeltaV::InputJsonDelta {
                partial_json: partial_json@,
            },
            Delta::ThinkingDelta { thinking } => DeltaV::ThinkingDelta { thinking: thinking@ },
            Delta::SignatureDelta { signature } => DeltaV::SignatureDelta {
                signature: signature@,
            },
            Delta::Other => DeltaV::Other,
        }
    }
}

/// The top-level changes announced by `message_delta`.
#[derive(Debug, Clone)]
pub struct MessageDelta {
    pub stop_reason: Option<String>,
    pub stop_sequence: Option<String>,
    pub stop_details: Option<StopDetails>,
}

/// The model of a [`MessageDelta`].
pub struct MessageDeltaV {
    pub stop_reason: Option<Seq<char>>,
    pub stop_sequence: Option<Seq<char>>,
    pub stop_details: Option<StopDetailsV>,
}

impl View for MessageDelta {
    type V = MessageDeltaV;

    open spec fn view(&self) -> MessageDeltaV {
        MessageDeltaV {
            stop_reason: opt_str_view(self.stop_reason),
            stop_sequence: opt_str_view(self.stop_sequence),
            stop_details: opt_details_view(self.stop_details),
        }
    }
}

impl Default for MessageDelta {
    fn default() -> (r: Self)
        ensures
            r.stop_reason is None,
            r.stop_sequence is None,
            r.stop_details is None,
    {
        MessageDelta { stop_reason: None, stop_sequence: None, stop_details: None }
    }
}

/// Structured detail accompanying a `refusal` stop reason.
#[derive(Debug, Clone)]
pub struct StopDetails {
    pub category: Option<String>,
    pub explanation: Option<String>,
}

/// The model of a [`StopDetails`].
pub struct StopDetailsV {
    pub category: Option<Seq<char>>,
    pub explanation: Option<Seq<char>>,
}

impl View for StopDetails {
    type V = StopDetailsV;

    open spec fn view(&self) -> StopDetailsV {
        StopDetailsV {
            category: opt_str_view(self.category),
            explanation: opt_str_view(self.explanation),
        }
    }
}

impl Default for StopDetails {
    fn default() -> (r: Self)
        ensures
            r.category is None,
            r.explanation is None,
    {
        StopDetails { category: None, explanation: None }
    }
}

/// The model of an optional [`StopDetails`].
pub open spec fn opt_details_view(d: Option<StopDetails>) -> Option<StopDetailsV> {
    match d {
        Some(x) => Some(x@),
        None => None,
    }
}

/// Token counts. A report may carry only some of them.
#[derive(Debug, Clone, Copy)]
pub struct Usage {
    pub input_tokens: Option<u64>,
    pub output_tokens: Option<u64>,
    pub cache_read_input_tokens: Option<u64>,
    pub cache_creation_input_tokens: Option<u64>,
}

impl Default for Usage {
    fn default() -> (r: Self)
        ensures
            r == empty_usage(),
    {
        Usage {
            input_tokens: None,
            output_tokens: None,
            cache_read_input_tokens: None,
            cache_creation_input_tokens: None,
        }
    }
}

/// A usage report that carries no counts.
pub open spec fn empty_usage() -> Usage {
    Usage {
        input_tokens: None,
        output_tokens: None,
        cache_read_input_tokens: None,
        cache_creation_input_tokens: None,
    }
}

/// A count from a later report where it has one, else the earlier count.
pub open spec fn fresher(mine: Option<u64>, theirs: Option<u64>) -> Option<u64> {
    if theirs is Some {
        theirs
    } else {
        mine
    }
}

/// `a` with the later report `b` folded in, field by field.
pub open spec fn merged(a: Usage, b: Usage) -> Usage {
    Usage {
        input_tokens: fresher(a.input_tokens, b.input_tokens),
        output_tokens: fresher(a.output_tokens, b.output_tokens),
        cache_read_input_tokens: fresher(a.cache_read_input_tokens, b.cache_read_input_tokens),
        cache_creation_input_tokens: fresher(
            a.cache_creation_input_tokens,
            b.cache_creation_input_tokens,
        ),
    }
}

impl Usage {
    /// Fold a later usage report in, keeping the freshest value per field.
    pub fn merge(&mut self, other: &Usage)
        ensures
            *final(self) == merged(*old(self), *other),
    {
        if other.input_tokens.is_some() {
            self.input_tokens = other.input_tokens;
        }
        if other.output_tokens.is_some() {
            self.output_tokens = other.output_tokens;
        }
        if other.cache_read_input_tokens.is_some() {
            self.cache_read_input_tokens = other.cache_read_input_tokens;
        }
        if other.cache_creation_input_tokens.is_some() {
            self.cache_creation_input_tokens = other.cache_creation_input_tokens;
        }
    }
}

/// Folding usage reports in one at a time gives what folding in their own
/// merge gives: merging is associative, so the order in which reports are
/// grouped does not matter, only the order in which they arrive.
pub proof fn lemma_merge_associative(a: Usage, b: Usage, c: Usage)
    ensures
        merged(merged(a, b), c) == merged(a, merged(b, c)),
{
}

/// A report with no counts changes nothing, and a report merged into
/// itself is unchanged.
pub proof fn lemma_merge_identity(a: Usage)
    ensures
        merged(a, empty_usage()) == a,
        merged(empty_usage(), a) == a,
        merged(a, a) == a,
{
}

/// A later report's count wins wherever it gives one; elsewhere the
/// earlier count stays.
pub proof fn lemma_merge_prefers_later(a: Usage, b: Usage)
    ensures
        merged(a, b).input_tokens == (if b.input_tokens is Some {
            b.input_tokens
        } else {
            a.input_tokens
        }),
        merged(a, b).output_tokens == (if b.output_tokens is Some {
            b.output_tokens
        } else {
            a.output_tokens
        }),
        merged(a, b).cache_read_input_tokens == (if b.cache_read_input_tokens is Some {
            b.cache_read_input_tokens
        } else {
            a.cache_read_input_tokens
        }),
        merged(a, b).cache_creation_input_tokens == (if b.cache_creation_input_tokens is Some {
            b.cache_creation_input_tokens
        } else {
            a.cache_creation_input_tokens
        }),
{
}

/// A streaming event.
#[derive(Debug, Clone)]
pub enum Event {
    /// Opens a message; carries the skeleton the rest of the stream fills in.
    MessageStart { message: Response },
    ContentBlockStart { index: u32, content_block: ContentBlock },
    ContentBlockDelta { index: u32, delta: Delta },
    ContentBlockStop { index: u32 },
    MessageDelta { delta: MessageDelta, usage: Usage },
    MessageStop,
    Ping,
    Error { error: Json },
    Unknown,
}

/// The model of an [`Event`].
pub enum EventV {
    MessageStart { message: ResponseV },
    ContentBlockStart { index: u32, content_block: ContentBlockV },
    ContentBlockDelta { index: u32, delta: DeltaV },
    ContentBlockStop { index: u32 },
    MessageDelta { delta: MessageDeltaV, usage: Usage },
    MessageStop,
    Ping,
    Error { error: JsonV },
    Unknown,
}

impl View for Event {
    type V = EventV;

    open spec fn view(&self) -> EventV {
        match self {
            Event::MessageStart { message } => EventV::MessageStart { message: message@ },
            Event::ContentBlockStart { index, content_block } => EventV::ContentBlockStart {
                index: *index,
                content_block: content_block@,
            },
            Event::ContentBlockDelta { index, delta } => EventV::ContentBlockDelta {
                index: *index,
                delta: delta@,
            },
            Event::ContentBlockStop { index } => EventV::ContentBlockStop { index: *index },
            Event::MessageDelta { delta, usage } => EventV::MessageDelta {
                delta: delta@,
                usage: *usage,
            },
            Event::MessageStop => EventV::MessageStop,
            Event::Ping => EventV::Ping,
            Event::Error { error } => EventV::Error { error: error@ },
            Event::Unknown => EventV::Unknown,
        }
    }
}

// ---------------------------------------------------------------------------
// Content blocks to and from JSON.
// ---------------------------------------------------------------------------

/// `key: value` with a string value.
pub open spec fn str_pair(key: Seq<char>, value: Seq<char>) -> (Seq<char>, JsonV) {
    (key, JsonV::Str(value))
}

/// The wire representation of a block.
pub open spec fn block_json(b: ContentBlockV) -> JsonV {
    match b {
        ContentBlockV::Text { text } => JsonV::Obj(
            seq![str_pair("type"@, "text"@), str_pair("text"@, text)],
        ),
        ContentBlockV::ToolUse { id, name, input } => JsonV::Obj(
            seq![
                str_pair("type"@, "tool_use"@),
                str_pair("id"@, id),
                str_pair("name"@, name),
                ("input"@, input),
            ],
        ),
        ContentBlockV::Thinking { thinking, signature } => JsonV::Obj(
            seq![
                str_pair("type"@, "thinking"@),
                str_pair("thinking"@, thinking),
                str_pair("signature"@, signature),
            ],
        ),
        ContentBlockV::ServerToolUse { id, name, input } => JsonV::Obj(
            seq![
                str_pair("type"@, "server_tool_use"@),
                str_pair("id"@, id),
                str_pair("name"@, name),
                ("input"@, input),
            ],
        ),
        ContentBlockV::Other(v) => v,
    }
}

/// The string member `key` of `v`, or the empty string.
pub open spec fn str_or_empty(v: JsonV, key: Seq<char>) -> Seq<char> {
    match str_member(v, key) {
        Some(s) => s,
        None => Seq::empty(),
    }
}

/// The member `key` of `v`, or `null`.
pub open spec fn member_or_null(v: JsonV, key: Seq<char>) -> JsonV {
    match v.get(key) {
        Some(x) => x,
        None => JsonV::Null,
    }
}

/// The block a JSON value stands for. Any value is a block: one whose
/// `type` is not a modelled block type is kept whole as `Other`.
pub open spec fn block_of(v: JsonV) -> ContentBlockV {
    let ty = str_member(v, "type"@);
    if ty == Some("text"@) {
        ContentBlockV::Text { text: str_or_empty(v, "text"@) }
    } else if ty == Some("tool_use"@) {
        ContentBlockV::ToolUse {
            id: str_or_empty(v, "id"@),
            name: str_or_empty(v, "name"@),
            input: member_or_null(v, "input"@),
        }
    } else if ty == Some("thinking"@) {
        ContentBlockV::Thinking {
            thinking: str_or_empty(v, "thinking"@),
            signature: str_or_empty(v, "signature"@),
        }
    } else if ty == Some("server_tool_use"@) {
        ContentBlockV::ServerToolUse {
            id: str_or_empty(v, "id"@),
            name: str_or_empty(v, "name"@),
            input: member_or_null(v, "input"@),
        }
    } else {
        ContentBlockV::Other(v)
    }
}

/// A block is canonical when reading back its wire form gives it again:
/// every block but an `Other` whose value names a modelled type.
pub open spec fn canonical_block(b: ContentBlockV) -> bool {
    b matches ContentBlockV::Other(v) ==> block_of(v) == b
}

/// The member names and block types of the wire form are all different.
proof fn lemma_block_names_distinct()
    ensures
        "type"@ != "text"@,
        "type"@ != "id"@,
        "type"@ != "name"@,
        "type"@ != "input"@,
        "type"@ != "thinking"@,
        "type"@ != "signature"@,
        "id"@ != "name"@,
        "id"@ != "input"@,
        "name"@ != "input"@,
        "thinking"@ != "signature"@,
        "text"@ != "tool_use"@,
        "text"@ != "thinking"@,
        "text"@ != "server_tool_use"@,
        "tool_use"@ != "thinking"@,
        "tool_use"@ != "server_tool_use"@,
        "thinking"@ != "server_tool_use"@,
{
    reveal_strlit("type");
    reveal_strlit("text");
    reveal_strlit("id");
    reveal_strlit("name");
    reveal_strlit("input");
    reveal_strlit("thinking");
    reveal_strlit("signature");
    reveal_strlit("tool_use");
    reveal_strlit("server_tool_use");
    assert("type"@[1] != "text"@[1]);
    assert("type"@.len() != "id"@.len());
    assert("type"@[0] != "name"@[0]);
    assert("type"@.len() != "input"@.len());
    assert("type"@.len() != "thinking"@.len());
    assert("type"@.len() != "signature"@.len());
    assert("id"@.len() != "name"@.len());
    assert("id"@.len() != "input"@.len());
    assert("name"@.len() != "input"@.len());
    assert("thinking"@.len() != "signature"@.len());
    assert("text"@.len() != "tool_use"@.len());
    assert("text"@.len() != "thinking"@.len());
    assert("text"@.len() != "server_tool_use"@.len());
    assert("tool_use"@[0] != "thinking"@[0] || "tool_use"@[1] != "thinking"@[1]);
    assert("tool_use"@.len() != "server_tool_use"@.len());
    assert("thinking"@.len() != "server_tool_use"@.len());
}

/// Every member of a two-member object with different names is found.
proof fn lemma_two_members(a: (Seq<char>, JsonV), b: (Seq<char>, JsonV))
    requires
        a.0 != b.0,
    ensures
        obj_get(seq![a, b], a.0) == Some(a.1),
        obj_get(seq![a, b], b.0) == Some(b.1),
{
    let f1 = Seq::<(Seq<char>, JsonV)>::empty().push(a);
    assert(seq![a, b] =~= f1.push(b));
    lemma_obj_get_push(Seq::empty(), a, a.0);
    lemma_obj_get_push(f1, b, a.0);
    lemma_obj_get_push(f1, b, b.0);
}

/// Every member of a three-member object with different names is found.
proof fn lemma_three_members(a: (Seq<char>, JsonV), b: (Seq<char>, JsonV), c: (Seq<char>, JsonV))
    requires
        a.0 != b.0,
        a.0 != c.0,
        b.0 != c.0,
    ensures
        obj_get(seq![a, b, c], a.0) == Some(a.1),
        obj_get(seq![a, b, c], b.0) == Some(b.1),
        obj_get(seq![a, b, c], c.0) == Some(c.1),
{
    lemma_two_members(a, b);
    assert(seq![a, b, c] =~= seq![a, b].push(c));
    lemma_obj_get_push(seq![a, b], c, a.0);
    lemma_obj_get_push(seq![a, b], c, b.0);
    lemma_obj_get_push(seq![a, b], c, c.0);
}

/// Every member of a four-member object with different names is found.
proof fn lemma_four_members(
    a: (Seq<char>, JsonV),
    b: (Seq<char>, JsonV),
    c: (Seq<char>, JsonV),
    d: (Seq<char>, JsonV),
)
    requires
        a.0 != b.0,
        a.0 != c.0,
        a.0 != d.0,
        b.0 != c.0,
        b.0 != d.0,
        c.0 != d.0,
    ensures
        obj_get(seq![a, b, c, d], a.0) == Some(a.1),
        obj_get(seq![a, b, c, d], b.0) == Some(b.1),
        obj_get(seq![a, b, c, d], c.0) == Some(c.1),
        obj_get(seq![a, b, c, d], d.0) == Some(d.1),
{
    lemma_three_members(a, b, c);
    assert(seq![a, b, c, d] =~= seq![a, b, c].push(d));
    lemma_obj_get_push(seq![a, b, c], d, a.0);
    lemma_obj_get_push(seq![a, b, c], d, b.0);
    lemma_obj_get_push(seq![a, b, c], d, c.0);
    lemma_obj_get_push(seq![a, b, c], d, d.0);
}

/// Reading a block back from its wire form gives the block again, for every
/// canonical block (all but an `Other` that holds a modelled block's form).
pub proof fn lemma_block_round_trip(b: ContentBlockV)
    requires
        canonical_block(b),
    ensures
        block_of(block_json(b)) == b,
{
    lemma_block_names_distinct();
    let v = block_json(b);
    match b {
        ContentBlockV::Text { text } => {
            let a = str_pair("type"@, "text"@);
            lemma_two_members(a, str_pair("text"@, text));
            assert(block_of(v) == ContentBlockV::Text { text });
        },
        ContentBlockV::ToolUse { id, name, input } => {
            let a = str_pair("type"@, "tool_use"@);
            lemma_four_members(a, str_pair("id"@, id), str_pair("name"@, name), ("input"@, input));
            assert(block_of(v) == ContentBlockV::ToolUse { id, name, input });
        },
        ContentBlockV::Thinking { thinking, signature } => {
            let a = str_pair("type"@, "thinking"@);
            lemma_three_members(a, str_pair("thinking"@, thinking), str_pair("signature"@, signature));
            assert(block_of(v) == ContentBlockV::Thinking { thinking, signature });
        },
        ContentBlockV::ServerToolUse { id, name, input } => {
            let a = str_pair("type"@, "server_tool_use"@);
            lemma_four_members(a, str_pair("id"@, id), str_pair("name"@, name), ("input"@, input));
            assert(block_of(v) == ContentBlockV::ServerToolUse { id, name, input });
        },
        ContentBlockV::Other(_) => {},
    }
}

/// The wire form of a block carries its type under `type` and each field
/// under the field's own name; an `Other` block is written as the value it
/// holds.
pub proof fn lemma_block_json_members(b: ContentBlockV)
    ensures
        match b {
            ContentBlockV::Text { text } => {
                &&& block_json(b).get("type"@) == Some(JsonV::Str("text"@))
                &&& block_json(b).get("text"@) == Some(JsonV::Str(text))
            },
            ContentBlockV::ToolUse { id, name, input } => {
                &&& block_json(b).get("type"@) == Some(JsonV::Str("tool_use"@))
                &&& block_json(b).get("id"@) == Some(JsonV::Str(id))
                &&& block_json(b).get("name"@) == Some(JsonV::Str(name))
                &&& block_json(b).get("input"@) == Some(input)
            },
            ContentBlockV::Thinking { thinking, signature } => {
                &&& block_json(b).get("type"@) == Some(JsonV::Str("thinking"@))
                &&& block_json(b).get("thinking"@) == Some(JsonV::Str(thinking))
                &&& block_json(b).get("signature"@) == Some(JsonV::Str(signature))
            },
            ContentBlockV::ServerToolUse { id, name, input } => {
                &&& block_json(b).get("type"@) == Some(JsonV::Str("server_tool_use"@))
                &&& block_json(b).get("id"@) == Some(JsonV::Str(id))
                &&& block_json(b).get("name"@) == Some(JsonV::Str(name))
                &&& block_json(b).get("input"@) == Some(input)
            },
            ContentBlockV::Other(v) => block_json(b) == v,
        },
{
    lemma_block_names_distinct();
    match b {
        ContentBlockV::Text { text } => {
            lemma_two_members(str_pair("type"@, "text"@), str_pair("text"@, text));
        },
        ContentBlockV::ToolUse { id, name, input } => {
            lemma_four_members(
                str_pair("type"@, "tool_use"@),
                str_pair("id"@, id),
                str_pair("name"@, name),
                ("input"@, input),
            );
        },
        ContentBlockV::Thinking { thinking, signature } => {
            lemma_three_members(
                str_pair("type"@, "thinking"@),
                str_pair("thinking"@, thinking),
                str_pair("signature"@, signature),
            );
        },
        ContentBlockV::ServerToolUse { id, name, input } => {
            lemma_four_members(
                str_pair("type"@, "server_tool_use"@),
                str_pair("id"@, id),
                str_pair("name"@, name),
                ("input"@, input),
            );
        },
        ContentBlockV::Other(_) => {},
    }
}

/// A value whose `type` is not a modelled block type is echoed verbatim:
/// writing out the block read from it gives the value back.
pub proof fn lemma_unknown_block_verbatim(v: JsonV)
    requires
        block_of(v) is Other,
    ensures
        block_json(block_of(v)) == v,
{
}

/// An owned copy of `s`.
pub fn owned(s: &str) -> (r: String)
    ensures
        r@ == s@,
{
    s.to_owned()
}

/// A `key: value` member with a string value.
pub(crate) fn str_member_of(key: &str, value: &str) -> (r: (String, Json))
    ensures
        r.0@ == key@,
        r.1@ == JsonV::Str(value@),
{
    (owned(key), Json::String(owned(value)))
}

/// The text of `v`'s member `key` when it is a string, else the empty string.
fn text_member(v: &Json, key: &str) -> (r: String)
    ensures
        r@ == str_or_empty(v@, key@),
{
    match v.get(key) {
        Some(x) => match x.as_str() {
            Some(s) => owned(s),
            None => String::new(),
        },
        None => String::new(),
    }
}

/// `v`'s member `key`, or `null`.
fn value_member(v: &Json, key: &str) -> (r: Json)
    ensures
        r@ == member_or_null(v@, key@),
{
    match v.get(key) {
        Some(x) => x.clone(),
        None => Json::Null,
    }
}

impl ContentBlock {
    /// The wire representation of this block.
    pub fn to_value(&self) -> (r: Json)
        ensures
            r@ == block_json(self@),
    {
        match self {
            ContentBlock::Text { text } => {
                let r = Json::Object(vec![str_member_of("type", "text"), str_member_of("text", text.as_str())]);
                assert(r@->Obj_0 =~= block_json(self@)->Obj_0);
                r
            },
            ContentBlock::ToolUse { id, name, input } => {
                let r = Json::Object(
                    vec![
                        str_member_of("type", "tool_use"),
                        str_member_of("id", id.as_str()),
                        str_member_of("name", name.as_str()),
                        (owned("input"), input.clone()),
                    ],
                );
                assert(r@->Obj_0 =~= block_json(self@)->Obj_0);
                r
            },
            ContentBlock::Thinking { thinking, signature } => {
                let r = Json::Object(
                    vec![
                        str_member_of("type", "thinking"),
                        str_member_of("thinking", thinking.as_str()),
                        str_member_of("signature", signature.as_str()),
                    ],
                );
                assert(r@->Obj_0 =~= block_json(self@)->Obj_0);
                r
            },
            ContentBlock::ServerToolUse { id, name, input } => {
                let r = Json::Object(
                    vec![
                        str_member_of("type", "server_tool_use"),
                        str_member_of("id", id.as_str()),
                        str_member_of("name", name.as_str()),
                        (owned("input"), input.clone()),
                    ],
                );
                assert(r@->Obj_0 =~= block_json(self@)->Obj_0);
                r
            },
            ContentBlock::Other(v) => v.clone(),
        }
    }

    /// The block a JSON value stands for; see [`block_of`].
    pub fn from_value(v: Json) -> (r: Self)
        ensures
            r@ == block_of(v@),
    {
        let kind: u8 = match v.get("type") {
            Some(t) => match t.as_str() {
                Some(s) => {
                    if str_eq(s, "text") {
                        1
                    } else if str_eq(s, "tool_use") {
                        2
                    } else if str_eq(s, "thinking") {
                        3
                    } else if str_eq(s, "server_tool_use") {
                        4
                    } else {
                        0
                    }
                },
                None => 0,
            },
            None => 0,
        };
        if kind == 1 {
            ContentBlock::Text { text: text_member(&v, "text") }
        } else if kind == 2 {
            ContentBlock::ToolUse {
                id: text_member(&v, "id"),
                name: text_member(&v, "name"),
                input: value_member(&v, "input"),
            }
        } else if kind == 3 {
            ContentBlock::Thinking {
                thinking: text_member(&v, "thinking"),
                signature: text_member(&v, "signature"),
            }
        } else if kind == 4 {
            ContentBlock::ServerToolUse {
                id: text_member(&v, "id"),
                name: text_member(&v, "name"),
                input: value_member(&v, "input"),
            }
        } else {
            ContentBlock::Other(v)
        }
    }
}

// ---------------------------------------------------------------------------
// Reading records and events from JSON.
// ---------------------------------------------------------------------------

/// The stop details a JSON value stands for.
pub open spec fn spec_stop_details(j: JsonV) -> Option<StopDetailsV> {
    if !is_record(j, 0, 2) {
        None
    } else {
        match (
            dec_opt_str(field(j, 0, 0, "category"@)),
            dec_opt_str(field(j, 0, 1, "explanation"@)),
        ) {
            (Some(category), Some(explanation)) => Some(StopDetailsV { category, explanation }),
            _ => None,
        }
    }
}

/// The usage report a JSON value stands for.
pub open spec fn spec_usage(j: JsonV) -> Option<Usage> {
    if !is_record(j, 0, 4) {
        None
    } else {
        match (
            dec_opt_u64(field(j, 0, 0, "input_tokens"@)),
            dec_opt_u64(field(j, 0, 1, "output_tokens"@)),
            dec_opt_u64(field(j, 0, 2, "cache_read_input_tokens"@)),
            dec_opt_u64(field(j, 0, 3, "cache_creation_input_tokens"@)),
        ) {
            (Some(a), Some(b), Some(c), Some(d)) => Some(
                Usage {
                    input_tokens: a,
                    output_tokens: b,
                    cache_read_input_tokens: c,
                    cache_creation_input_tokens: d,
                },
            ),
            _ => None,
        }
    }
}

/// The message delta a JSON value stands for.
pub open spec fn spec_message_delta(j: JsonV) -> Option<MessageDeltaV> {
    if !is_record(j, 0, 3) {
        None
    } else {
        match (
            dec_opt_str(field(j, 0, 0, "stop_reason"@)),
            dec_opt_str(field(j, 0, 1, "stop_sequence"@)),
            crate::response::dec_opt_details(field(j, 0, 2, "stop_details"@)),
        ) {
            (Some(stop_reason), Some(stop_sequence), Some(stop_details)) => Some(
                MessageDeltaV { stop_reason, stop_sequence, stop_details },
            ),
            _ => None,
        }
    }
}

/// The tag of an internally tagged value and the offset its fields start
/// at: the string member `type` of an object (fields at offset 0), or the
/// string first element of an array (fields at offset 1).
pub open spec fn spec_tag(j: JsonV) -> Option<(Seq<char>, int)> {
    match j {
        JsonV::Obj(fields) => match crate::json::obj_get(fields, "type"@) {
            Some(JsonV::Str(t)) => Some((t, 0)),
            _ => None,
        },
        JsonV::Arr(s) => if s.len() > 0 && s[0] is Str {
            Some((s[0]->Str_0, 1))
        } else {
            None
        },
        _ => None,
    }
}

/// A variant with one required string field.
pub open spec fn one_str(c: JsonV, off: int, name: Seq<char>) -> Option<Seq<char>> {
    if is_record(c, off, 1) {
        dec_str(field(c, off, 0, name))
    } else {
        None
    }
}

/// The delta a JSON value stands for; an unknown tag is `Other`.
pub open spec fn spec_delta(j: JsonV) -> Option<DeltaV> {
    match spec_tag(j) {
        None => None,
        Some((tag, off)) => if tag == "text_delta"@ {
            match one_str(j, off, "text"@) {
                Some(text) => Some(DeltaV::TextDelta { text }),
                None => None,
            }
        } else if tag == "input_json_delta"@ {
            match one_str(j, off, "partial_json"@) {
                Some(partial_json) => Some(DeltaV::InputJsonDelta { partial_json }),
                None => None,
            }
        } else if tag == "thinking_delta"@ {
            match one_str(j, off, "thinking"@) {
                Some(thinking) => Some(DeltaV::ThinkingDelta { thinking }),
                None => None,
            }
        } else if tag == "signature_delta"@ {
            match one_str(j, off, "signature"@) {
                Some(signature) => Some(DeltaV::SignatureDelta { signature }),
                None => None,
            }
        } else if is_record(j, off, 0) {
            Some(DeltaV::Other)
        } else {
            None
        },
    }
}

/// A variant whose only field is a required `index`.
pub open spec fn index_only(c: JsonV, off: int) -> Option<u32> {
    if is_record(c, off, 1) {
        dec_u32(field(c, off, 0, "index"@))
    } else {
        None
    }
}

/// The event a JSON value stands for; an unknown tag is `Unknown`.
///
/// The value comes from serde_json's `Value`, which has already kept only
/// the last of any repeated member name, so a body that repeats a field is
/// read with its last value, where a derived serde decoding of the body
/// would reject the repetition.
pub open spec fn spec_event(j: JsonV) -> Option<EventV> {
    match spec_tag(j) {
        None => None,
        Some((tag, off)) => if tag == "message_start"@ {
            if !is_record(j, off, 1) {
                None
            } else {
                match field(j, off, 0, "message"@) {
                    Some(m) => match spec_response(m) {
                        Some(message) => Some(EventV::MessageStart { message }),
                        None => None,
                    },
                    None => None,
                }
            }
        } else if tag == "content_block_start"@ {
            if !is_record(j, off, 2) {
                None
            } else {
                match (dec_u32(field(j, off, 0, "index"@)), field(j, off, 1, "content_block"@)) {
                    (Some(index), Some(b)) => Some(
                        EventV::ContentBlockStart { index, content_block: block_of(b) },
                    ),
                    _ => None,
                }
            }
        } else if tag == "content_block_delta"@ {
            if !is_record(j, off, 2) {
                None
            } else {
                match (dec_u32(field(j, off, 0, "index"@)), field(j, off, 1, "delta"@)) {
                    (Some(index), Some(d)) => match spec_delta(d) {
                        Some(delta) => Some(EventV::ContentBlockDelta { index, delta }),
                        None => None,
                    },
                    _ => None,
                }
            }
        } else if tag == "content_block_stop"@ {
            match index_only(j, off) {
                Some(index) => Some(EventV::ContentBlockStop { index }),
                None => None,
            }
        } else if tag == "message_delta"@ {
            if !is_record(j, off, 2) {
                None
            } else {
                match (field(j, off, 0, "delta"@), crate::response::dec_usage_or_empty(field(j, off, 1, "usage"@))) {
                    (Some(d), Some(usage)) => match spec_message_delta(d) {
                        Some(delta) => Some(EventV::MessageDelta { delta, usage }),
                        None => None,
                    },
                    _ => None,
                }
            }
        } else if tag == "message_stop"@ {
            if is_record(j, off, 0) {
                Some(EventV::MessageStop)
            } else {
                None
            }
        } else if tag == "ping"@ {
            if is_record(j, off, 0) {
                Some(EventV::Ping)
            } else {
                None
            }
        } else if tag == "error"@ {
            if !is_record(j, off, 1) {
                None
            } else {
                match field(j, off, 0, "error"@) {
                    Some(error) => Some(EventV::Error { error }),
                    None => None,
                }
            }
        } else if is_record(j, off, 0) {
            Some(EventV::Unknown)
        } else {
            None
        },
    }
}

/// Reads stop details; see [`spec_stop_details`].
pub fn decode_stop_details(j: &Json) -> (r: Result<StopDetails, serde_json::Error>)
    ensures
        r is Ok <==> spec_stop_details(j@) is Some,
        r matches Ok(d) ==> spec_stop_details(j@) == Some(d@),
{
    match check_record(j, 0, 2) {
        Err(e) => return Err(e),
        Ok(()) => {},
    }
    let category = match get_opt_str(get_field(j, 0, 0, "category")) {
        Ok(x) => x,
        Err(e) => return Err(e),
    };
    let explanation = match get_opt_str(get_field(j, 0, 1, "explanation")) {
        Ok(x) => x,
        Err(e) => return Err(e),
    };
    Ok(StopDetails { category, explanation })
}

/// Reads a usage report; see [`spec_usage`].
pub fn decode_usage(j: &Json) -> (r: Result<Usage, serde_json::Error>)
    ensures
        r is Ok <==> spec_usage(j@) is Some,
        r matches Ok(u) ==> spec_usage(j@) == Some(u),
{
    match check_record(j, 0, 4) {
        Err(e) => return Err(e),
        Ok(()) => {},
    }
    let a = match get_opt_u64(get_field(j, 0, 0, "input_tokens")) {
        Ok(x) => x,
        Err(e) => return Err(e),
    };
    let b = match get_opt_u64(get_field(j, 0, 1, "output_tokens")) {
        Ok(x) => x,
        Err(e) => return Err(e),
    };
    let c = match get_opt_u64(get_field(j, 0, 2, "cache_read_input_tokens")) {
        Ok(x) => x,
        Err(e) => return Err(e),
    };
    let d = match get_opt_u64(get_field(j, 0, 3, "cache_creation_input_tokens")) {
        Ok(x) => x,
        Err(e) => return Err(e),
    };
    Ok(
        Usage {
            input_tokens: a,
            output_tokens: b,
            cache_read_input_tokens: c,
            cache_creation_input_tokens: d,
        },
    )
}

/// Reads a message delta; see [`spec_message_delta`].
pub fn decode_message_delta(j: &Json) -> (r: Result<MessageDelta, serde_json::Error>)
    ensures
        r is Ok <==> spec_message_delta(j@) is Some,
        r matches Ok(d) ==> spec_message_delta(j@) == Some(d@),
{
    match check_record(j, 0, 3) {
        Err(e) => return Err(e),
        Ok(()) => {},
    }
    let stop_reason = match get_opt_str(get_field(j, 0, 0, "stop_reason")) {
        Ok(x) => x,
        Err(e) => return Err(e),
    };
    let stop_sequence = match get_opt_str(get_field(j, 0, 1, "stop_sequence")) {
        Ok(x) => x,
        Err(e) => return Err(e),
    };
    let stop_details = match crate::response::get_opt_details(get_field(j, 0, 2, "stop_details")) {
        Ok(x) => x,
        Err(e) => return Err(e),
    };
    Ok(MessageDelta { stop_reason, stop_sequence, stop_details })
}

/// Reads the tag of an internally tagged value; see [`spec_tag`].
pub fn read_tag(j: &Json) -> (r: Result<(&str, usize), serde_json::Error>)
    ensures
        r is Ok <==> spec_tag(j@) is Some,
        r matches Ok((t, off)) ==> spec_tag(j@) == Some((t@, off as int)) && off <= 1,
{
    match j {
        Json::Object(_) => match j.get("type") {
            Some(Json::String(t)) => {
                assert(j@ is Obj);
                Ok((t.as_str(), 0))
            },
            Some(_) => Err(decode_error("invalid type: expected a string tag")),
            None => Err(decode_error("missing field `type`")),
        },
        Json::Array(v) => {
            if v.len() == 0 {
                Err(decode_error("missing field `type`"))
            } else {
                assert(j@->Arr_0[0] == v[0]@);
                match &v[0] {
                    Json::String(t) => Ok((t.as_str(), 1)),
                    _ => Err(decode_error("invalid type: expected a string tag")),
                }
            }
        },
        _ => Err(decode_error("invalid type: expected an object")),
    }
}

/// Reads a variant with one required string field.
fn read_one_str(c: &Json, off: usize, name: &str) -> (r: Result<String, serde_json::Error>)
    requires
        off <= 1,
    ensures
        r is Ok <==> one_str(c@, off as int, name@) is Some,
        r matches Ok(s) ==> one_str(c@, off as int, name@) == Some(s@),
{
    match check_record(c, off, 1) {
        Err(e) => Err(e),
        Ok(()) => get_str(get_field(c, off, 0, name)),
    }
}

/// Reads a delta; see [`spec_delta`].
pub fn decode_delta(j: &Json) -> (r: Result<Delta, serde_json::Error>)
    ensures
        r is Ok <==> spec_delta(j@) is Some,
        r matches Ok(d) ==> spec_delta(j@) == Some(d@),
{
    let (tag, off) = match read_tag(j) {
        Ok(x) => x,
        Err(e) => return Err(e),
    };
    if str_eq(tag, "text_delta") {
        match read_one_str(j, off, "text") {
            Ok(text) => Ok(Delta::TextDelta { text }),
            Err(e) => Err(e),
        }
    } else if str_eq(tag, "input_json_delta") {
        match read_one_str(j, off, "partial_json") {
            Ok(partial_json) => Ok(Delta::InputJsonDelta { partial_json }),
            Err(e) => Err(e),
        }
    } else if str_eq(tag, "thinking_delta") {
        match read_one_str(j, off, "thinking") {
            Ok(thinking) => Ok(Delta::ThinkingDelta { thinking }),
            Err(e) => Err(e),
        }
    } else if str_eq(tag, "signature_delta") {
        match read_one_str(j, off, "signature") {
            Ok(signature) => Ok(Delta::SignatureDelta { signature }),
            Err(e) => Err(e),
        }
    } else {
        match check_record(j, off, 0) {
            Ok(()) => Ok(Delta::Other),
            Err(e) => Err(e),
        }
    }
}

/// Reads a required field that may hold any value.
fn required<'a>(f: Option<&'a Json>) -> (r: Result<&'a Json, serde_json::Error>)
    ensures
        r is Ok <==> f is Some,
        r matches Ok(v) ==> f == Some(v),
{
    match f {
        Some(v) => Ok(v),
        None => Err(decode_error("missing field")),
    }
}

/// Reads an event; see [`spec_event`].
pub fn decode_event(j: &Json) -> (r: Result<Event, serde_json::Error>)
    ensures
        r is Ok <==> spec_event(j@) is Some,
        r matches Ok(e) ==> spec_event(j@) == Some(e@),
{
    let (tag, off) = match read_tag(j) {
        Ok(x) => x,
        Err(e) => return Err(e),
    };
    if str_eq(tag, "message_start") {
        match check_record(j, off, 1) {
            Err(e) => return Err(e),
            Ok(()) => {},
        }
        let m = match required(get_field(j, off, 0, "message")) {
            Ok(m) => m,
            Err(e) => return Err(e),
        };
        match decode_response(m) {
            Ok(message) => Ok(Event::MessageStart { message }),
            Err(e) => Err(e),
        }
    } else if str_eq(tag, "content_block_start") {
        match check_record(j, off, 2) {
            Err(e) => return Err(e),
            Ok(()) => {},
        }
        let index = match get_u32(get_field(j, off, 0, "index")) {
            Ok(x) => x,
            Err(e) => return Err(e),
        };
        let b = match required(get_field(j, off, 1, "content_block")) {
            Ok(b) => b,
            Err(e) => return Err(e),
        };
        Ok(Event::ContentBlockStart { index, content_block: ContentBlock::from_value(b.clone()) })
    } else if str_eq(tag, "content_block_delta") {
        match check_record(j, off, 2) {
            Err(e) => return Err(e),
            Ok(()) => {},
        }
        let index = match get_u32(get_field(j, off, 0, "index")) {
            Ok(x) => x,
            Err(e) => return Err(e),
        };
        let d = match required(get_field(j, off, 1, "delta")) {
            Ok(d) => d,
            Err(e) => return Err(e),
        };
        match decode_delta(d) {
            Ok(delta) => Ok(Event::ContentBlockDelta { index, delta }),
            Err(e) => Err(e),
        }
    } else if str_eq(tag, "content_block_stop") {
        match check_record(j, off, 1) {
            Err(e) => return Err(e),
            Ok(()) => {},
        }
        match get_u32(get_field(j, off, 0, "index")) {
            Ok(index) => Ok(Event::ContentBlockStop { index }),
            Err(e) => Err(e),
        }
    } else if str_eq(tag, "message_delta") {
        match check_record(j, off, 2) {
            Err(e) => return Err(e),
            Ok(()) => {},
        }
        let d = match required(get_field(j, off, 0, "delta")) {
            Ok(d) => d,
            Err(e) => return Err(e),
        };
        let usage = match crate::response::get_usage_or_empty(get_field(j, off, 1, "usage")) {
            Ok(u) => u,
            Err(e) => return Err(e),
        };
        match decode_message_delta(d) {
            Ok(delta) => Ok(Event::MessageDelta { delta, usage }),
            Err(e) => Err(e),
        }
    } else if str_eq(tag, "message_stop") {
        match check_record(j, off, 0) {
            Ok(()) => Ok(Event::MessageStop),
            Err(e) => Err(e),
        }
    } else if str_eq(tag, "ping") {
        match check_record(j, off, 0) {
            Ok(()) => Ok(Event::Ping),
            Err(e) => Err(e),
        }
    } else if str_eq(tag, "error") {
        match check_record(j, off, 1) {
            Err(e) => return Err(e),
            Ok(()) => {},
        }
        match required(get_field(j, off, 0, "error")) {
            Ok(error) => Ok(Event::Error { error: error.clone() }),
            Err(e) => Err(e),
        }
    } else {
        match check_record(j, off, 0) {
            Ok(()) => Ok(Event::Unknown),
            Err(e) => Err(e),
        }
    }
}

} // verus!
