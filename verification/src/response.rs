//! A complete message from the API.
use vstd::prelude::*;
use crate::json::{Json, JsonV, decode_error};
use crate::request::{Msg, MsgV, ContentV, json_views};
use vstd::string::StringExecFns;
use crate::decode::{
    field, is_record, dec_str, dec_str_or_empty, dec_opt_str, dec_u32, dec_opt_u64, get_field,
    check_record, get_str, get_str_or_empty, get_opt_str, get_u32, get_opt_u64, opt_view,
    opt_str_view,
};
use crate::event::{
    ContentBlock, ContentBlockV, StopDetails, StopDetailsV, Usage, block_of, opt_details_view,
    empty_usage, decode_stop_details, spec_stop_details, block_json, canonical_block,
    lemma_block_round_trip,
};

verus! {

/// A complete message from the API: the body of a non-streaming response, the
/// result of collecting a stream, and the skeleton carried by a
/// `message_start` event.
///
/// The full content is in [`content`](Self::content) as typed blocks; for the
/// common "just give me the text" case, use [`text`](Self::text).
#[derive(Debug, Clone)]
pub struct Response {
    pub id: String,
    pub model: String,
    pub role: String,
    pub content: Vec<ContentBlock>,
    pub stop_reason: Option<String>,
    pub stop_sequence: Option<String>,
    pub stop_details: Option<StopDetails>,
    pub usage: Usage,
    /// The `request-id` response header; quote it when reporting API issues.
    pub request_id: Option<String>,
}

/// The model of a [`Response`].
pub struct ResponseV {
    pub id: Seq<char>,
    pub model: Seq<char>,
    pub role: Seq<char>,
    pub content: Seq<ContentBlockV>,
    pub stop_reason: Option<Seq<char>>,
    pub stop_sequence: Option<Seq<char>>,
    pub stop_details: Option<StopDetailsV>,
    pub usage: Usage,
    pub request_id: Option<Seq<char>>,
}

/// The models of a vector of blocks.
pub open spec fn blocks_view(v: Vec<ContentBlock>) -> Seq<ContentBlockV> {
    Seq::new(v.len() as nat, |i: int| v[i]@)
}

impl View for Response {
    type V = ResponseV;

    open spec fn view(&self) -> ResponseV {
        ResponseV {
            id: self.id@,
            model: self.model@,
            role: self.role@,
            content: blocks_view(self.content),
            stop_reason: opt_str_view(self.stop_reason),
            stop_sequence: opt_str_view(self.stop_sequence),
            stop_details: opt_details_view(self.stop_details),
            usage: self.usage,
            request_id: opt_str_view(self.request_id),
        }
    }
}

/// An optional stop-details field: missing or `null` is `None`.
pub open spec fn dec_opt_details(f: Option<JsonV>) -> Option<Option<StopDetailsV>> {
    match f {
        None => Some(None),
        Some(JsonV::Null) => Some(None),
        Some(x) => match spec_stop_details(x) {
            Some(d) => Some(Some(d)),
            None => None,
        },
    }
}

/// A usage field that defaults to a report with no counts when missing.
pub open spec fn dec_usage_or_empty(f: Option<JsonV>) -> Option<Usage> {
    match f {
        None => Some(empty_usage()),
        Some(x) => crate::event::spec_usage(x),
    }
}

/// A content field: an array of blocks, empty when missing.
pub open spec fn dec_blocks(f: Option<JsonV>) -> Option<Seq<ContentBlockV>> {
    match f {
        None => Some(Seq::empty()),
        Some(JsonV::Arr(s)) => Some(Seq::new(s.len(), |i: int| block_of(s[i]))),
        _ => None,
    }
}

/// The response a JSON value stands for: `id` is required, every other
/// field has a default; `request_id` is never read from the body.
///
/// The value comes from serde_json's `Value`, which has already kept only
/// the last of any repeated member name, so a body that repeats a field is
/// read with its last value, where a derived serde decoding of the body
/// would reject the repetition.
pub open spec fn spec_response(j: JsonV) -> Option<ResponseV> {
    if !is_record(j, 0, 8) {
        None
    } else {
        match (
            dec_str(field(j, 0, 0, "id"@)),
            dec_str_or_empty(field(j, 0, 1, "model"@)),
            dec_str_or_empty(field(j, 0, 2, "role"@)),
            dec_blocks(field(j, 0, 3, "content"@)),
        ) {
            (Some(id), Some(model), Some(role), Some(content)) => match (
                dec_opt_str(field(j, 0, 4, "stop_reason"@)),
                dec_opt_str(field(j, 0, 5, "stop_sequence"@)),
                dec_opt_details(field(j, 0, 6, "stop_details"@)),
                dec_usage_or_empty(field(j, 0, 7, "usage"@)),
            ) {
                (Some(stop_reason), Some(stop_sequence), Some(stop_details), Some(usage)) => Some(
                    ResponseV {
                        id,
                        model,
                        role,
                        content,
                        stop_reason,
                        stop_sequence,
                        stop_details,
                        usage,
                        request_id: None,
                    },
                ),
                _ => None,
            },
            _ => None,
        }
    }
}

/// Reads an optional stop-details field.
pub fn get_opt_details(f: Option<&Json>) -> (r: Result<Option<StopDetails>, serde_json::Error>)
    ensures
        r is Ok <==> dec_opt_details(opt_view(f)) is Some,
        r matches Ok(d) ==> dec_opt_details(opt_view(f)) == Some(opt_details_view(d)),
{
    match f {
        None => Ok(None),
        Some(Json::Null) => Ok(None),
        Some(x) => match decode_stop_details(x) {
            Ok(d) => Ok(Some(d)),
            Err(e) => Err(e),
        },
    }
}

/// Reads a usage field that defaults to a report with no counts.
pub fn get_usage_or_empty(f: Option<&Json>) -> (r: Result<Usage, serde_json::Error>)
    ensures
        r is Ok <==> dec_usage_or_empty(opt_view(f)) is Some,
        r matches Ok(u) ==> dec_usage_or_empty(opt_view(f)) == Some(u),
{
    match f {
        None => Ok(Usage::default()),
        Some(x) => crate::event::decode_usage(x),
    }
}

/// Reads a content field.
pub fn get_blocks(f: Option<&Json>) -> (r: Result<Vec<ContentBlock>, serde_json::Error>)
    ensures
        r is Ok <==> dec_blocks(opt_view(f)) is Some,
        r matches Ok(v) ==> dec_blocks(opt_view(f)) == Some(blocks_view(v)),
{
    match f {
        None => Ok(Vec::new()),
        Some(Json::Array(items)) => {
            let ghost s = f.unwrap()@->Arr_0;
            let mut out: Vec<ContentBlock> = Vec::new();
            let mut i: usize = 0;
            while i < items.len()
                invariant
                    i <= items.len(),
                    s.len() == items.len(),
                    forall|k: int| 0 <= k < items.len() ==> s[k] == items@[k]@,
                    out.len() == i,
                    forall|k: int| 0 <= k < i ==> out@[k]@ == block_of(s[k]),
                decreases items.len() - i,
            {
                out.push(ContentBlock::from_value(items[i].clone()));
                i += 1;
            }
            assert(blocks_view(out) =~= Seq::new(s.len(), |k: int| block_of(s[k])));
            Ok(out)
        },
        Some(_) => Err(decode_error("invalid type: expected an array of content blocks")),
    }
}

/// Reads a response from its JSON form; see [`spec_response`].
pub fn decode_response(j: &Json) -> (r: Result<Response, serde_json::Error>)
    ensures
        r is Ok <==> spec_response(j@) is Some,
        r matches Ok(m) ==> spec_response(j@) == Some(m@),
{
    match check_record(j, 0, 8) {
        Err(e) => return Err(e),
        Ok(()) => {},
    }
    let id = match get_str(get_field(j, 0, 0, "id")) {
        Ok(x) => x,
        Err(e) => return Err(e),
    };
    let model = match get_str_or_empty(get_field(j, 0, 1, "model")) {
        Ok(x) => x,
        Err(e) => return Err(e),
    };
    let role = match get_str_or_empty(get_field(j, 0, 2, "role")) {
        Ok(x) => x,
        Err(e) => return Err(e),
    };
    let content = match get_blocks(get_field(j, 0, 3, "content")) {
        Ok(x) => x,
        Err(e) => return Err(e),
    };
    let stop_reason = match get_opt_str(get_field(j, 0, 4, "stop_reason")) {
        Ok(x) => x,
        Err(e) => return Err(e),
    };
    let stop_sequence = match get_opt_str(get_field(j, 0, 5, "stop_sequence")) {
        Ok(x) => x,
        Err(e) => return Err(e),
    };
    let stop_details = match get_opt_details(get_field(j, 0, 6, "stop_details")) {
        Ok(x) => x,
        Err(e) => return Err(e),
    };
    let usage = match get_usage_or_empty(get_field(j, 0, 7, "usage")) {
        Ok(x) => x,
        Err(e) => return Err(e),
    };
    let m = Response {
        id,
        model,
        role,
        content,
        stop_reason,
        stop_sequence,
        stop_details,
        usage,
        request_id: None,
    };
    assert(m@.content == blocks_view(m.content));
    Ok(m)
}

/// Each field of a decoded response is the body's member of that field's
/// name (in an array body, the element at the field's position): `id` is
/// its string; `model` and `role` their string, or empty when missing;
/// `content` a block for each element of its array, or none when missing;
/// `stop_reason` and `stop_sequence` `None` when missing or null and the
/// string otherwise; `stop_details` and `usage` read from their members;
/// and no request id comes from the body.
pub proof fn lemma_response_fields_by_name(j: JsonV)
    ensures
        spec_response(j) matches Some(m) ==> {
            &&& field(j, 0, 0, "id"@) == Some(JsonV::Str(m.id))
            &&& (field(j, 0, 1, "model"@) is None && m.model == Seq::<char>::empty()) || field(
                j,
                0,
                1,
                "model"@,
            ) == Some(JsonV::Str(m.model))
            &&& (field(j, 0, 2, "role"@) is None && m.role == Seq::<char>::empty()) || field(
                j,
                0,
                2,
                "role"@,
            ) == Some(JsonV::Str(m.role))
            &&& match field(j, 0, 3, "content"@) {
                None => m.content.len() == 0,
                Some(JsonV::Arr(s)) => m.content.len() == s.len() && forall|i: int|
                    0 <= i < s.len() ==> m.content[i] == block_of(#[trigger] s[i]),
                _ => false,
            }
            &&& match m.stop_reason {
                None => field(j, 0, 4, "stop_reason"@) is None || field(j, 0, 4, "stop_reason"@)
                    == Some(JsonV::Null),
                Some(x) => field(j, 0, 4, "stop_reason"@) == Some(JsonV::Str(x)),
            }
            &&& match m.stop_sequence {
                None => field(j, 0, 5, "stop_sequence"@) is None || field(
                    j,
                    0,
                    5,
                    "stop_sequence"@,
                ) == Some(JsonV::Null),
                Some(x) => field(j, 0, 5, "stop_sequence"@) == Some(JsonV::Str(x)),
            }
            &&& match m.stop_details {
                None => field(j, 0, 6, "stop_details"@) is None || field(j, 0, 6, "stop_details"@)
                    == Some(JsonV::Null),
                Some(d) => field(j, 0, 6, "stop_details"@) matches Some(x) && spec_stop_details(x)
                    == Some(d),
            }
            &&& match field(j, 0, 7, "usage"@) {
                None => m.usage == empty_usage(),
                Some(x) => crate::event::spec_usage(x) == Some(m.usage),
            }
            &&& m.request_id is None
        },
{
}

/// The text of the text blocks, concatenated in order.
pub open spec fn text_of(blocks: Seq<ContentBlockV>) -> Seq<char>
    decreases blocks.len(),
{
    if blocks.len() == 0 {
        Seq::empty()
    } else {
        text_of(blocks.drop_last()) + match blocks.last() {
            ContentBlockV::Text { text } => text,
            _ => Seq::empty(),
        }
    }
}

/// The `tool_use` blocks as `(id, name, input)`, in order.
pub open spec fn tool_uses_of(blocks: Seq<ContentBlockV>) -> Seq<(Seq<char>, Seq<char>, JsonV)>
    decreases blocks.len(),
{
    if blocks.len() == 0 {
        Seq::empty()
    } else {
        let prev = tool_uses_of(blocks.drop_last());
        match blocks.last() {
            ContentBlockV::ToolUse { id, name, input } => prev.push((id, name, input)),
            _ => prev,
        }
    }
}

/// The text of two runs of blocks is the text of the first followed by the
/// text of the second: nothing is put between blocks.
pub proof fn lemma_text_of_append(a: Seq<ContentBlockV>, b: Seq<ContentBlockV>)
    ensures
        text_of(a + b) == text_of(a) + text_of(b),
    decreases b.len(),
{
    if b.len() == 0 {
        assert(a + b =~= a);
        assert(text_of(a) + Seq::<char>::empty() =~= text_of(a));
    } else {
        lemma_text_of_append(a, b.drop_last());
        assert((a + b).drop_last() =~= a + b.drop_last());
        assert((a + b).last() == b.last());
        let t = match b.last() {
            ContentBlockV::Text { text } => text,
            _ => Seq::<char>::empty(),
        };
        assert(text_of(a) + text_of(b.drop_last()) + t =~= text_of(a) + (text_of(b.drop_last())
            + t));
    }
}

/// The text of one block is its text when it is a text block, and empty
/// for any other block.
pub proof fn lemma_text_of_one(b: ContentBlockV)
    ensures
        b matches ContentBlockV::Text { text } ==> text_of(seq![b]) == text,
        !(b is Text) ==> text_of(seq![b]) == Seq::<char>::empty(),
{
    reveal_with_fuel(text_of, 2);
    assert(seq![b].drop_last() =~= Seq::<ContentBlockV>::empty());
    assert(seq![b].last() == b);
    if let ContentBlockV::Text { text } = b {
        assert(Seq::<char>::empty() + text =~= text);
    }
}

/// The tool calls of two runs of blocks are those of the first followed by
/// those of the second: none is dropped, added or reordered.
pub proof fn lemma_tool_uses_of_append(a: Seq<ContentBlockV>, b: Seq<ContentBlockV>)
    ensures
        tool_uses_of(a + b) == tool_uses_of(a) + tool_uses_of(b),
    decreases b.len(),
{
    if b.len() == 0 {
        assert(a + b =~= a);
        assert(tool_uses_of(a) + Seq::<(Seq<char>, Seq<char>, JsonV)>::empty() =~= tool_uses_of(a));
    } else {
        lemma_tool_uses_of_append(a, b.drop_last());
        assert((a + b).drop_last() =~= a + b.drop_last());
        assert((a + b).last() == b.last());
        if let ContentBlockV::ToolUse { id, name, input } = b.last() {
            assert(tool_uses_of(a) + tool_uses_of(b.drop_last()).push((id, name, input)) =~= (
            tool_uses_of(a) + tool_uses_of(b.drop_last())).push((id, name, input)));
        }
    }
}

/// One block is one tool call `(id, name, input)` when it is a `tool_use`
/// block, and none otherwise.
pub proof fn lemma_tool_uses_of_one(b: ContentBlockV)
    ensures
        b matches ContentBlockV::ToolUse { id, name, input } ==> tool_uses_of(seq![b]) == seq![
            (id, name, input),
        ],
        !(b is ToolUse) ==> tool_uses_of(seq![b]) == Seq::<(Seq<char>, Seq<char>, JsonV)>::empty(),
{
    reveal_with_fuel(tool_uses_of, 2);
    assert(seq![b].drop_last() =~= Seq::<ContentBlockV>::empty());
    assert(seq![b].last() == b);
    if let ContentBlockV::ToolUse { id, name, input } = b {
        assert(Seq::<(Seq<char>, Seq<char>, JsonV)>::empty().push((id, name, input)) =~= seq![
            (id, name, input),
        ]);
    }
}

/// The models of borrowed tool calls.
pub open spec fn tool_use_views(v: Seq<(&str, &str, &Json)>) -> Seq<(Seq<char>, Seq<char>, JsonV)> {
    Seq::new(v.len(), |i: int| (v[i].0@, v[i].1@, v[i].2@))
}

/// The assistant turn that echoes `m` back: its blocks in wire form.
pub open spec fn turn_of(m: ResponseV) -> MsgV {
    MsgV {
        role: "assistant"@,
        content: ContentV::Blocks(Seq::new(m.content.len(), |i: int| block_json(m.content[i]))),
    }
}

/// Every block read off the wire is canonical.
pub proof fn lemma_read_block_canonical(v: JsonV)
    ensures
        canonical_block(block_of(v)),
{
}

/// Echoing a message back loses nothing: reading the blocks of its
/// assistant turn gives the message's content again, whenever every block
/// is canonical (as every block read off the wire is).
pub proof fn lemma_to_msg_lossless(m: ResponseV)
    requires
        forall|i: int| 0 <= i < m.content.len() ==> canonical_block(#[trigger] m.content[i]),
    ensures
        turn_of(m).content matches ContentV::Blocks(b) && b.len() == m.content.len() && forall|
            i: int,
        | 0 <= i < b.len() ==> block_of(#[trigger] b[i]) == m.content[i],
{
    assert forall|i: int| 0 <= i < m.content.len() implies block_of(
        block_json(m.content[i]),
    ) == m.content[i] by {
        lemma_block_round_trip(m.content[i]);
    }
}

impl Response {
    /// Concatenate every text block into one string.
    ///
    /// Thinking, tool-use, and other non-text blocks are skipped. This is the
    /// 90%-case accessor; reach into [`content`](Self::content) for the rest.
    pub fn text(&self) -> (r: String)
        ensures
            r@ == text_of(self@.content),
    {
        let mut out = String::new();
        let mut i: usize = 0;
        while i < self.content.len()
            invariant
                i <= self.content.len(),
                out@ == text_of(self@.content.subrange(0, i as int)),
                self@.content == blocks_view(self.content),
            decreases self.content.len() - i,
        {
            assert(self@.content.subrange(0, i as int + 1).drop_last() =~= self@.content.subrange(
                0,
                i as int,
            ));
            match &self.content[i] {
                ContentBlock::Text { text } => {
                    out.append(text.as_str());
                },
                _ => {
                    assert(out@ + Seq::<char>::empty() =~= out@);
                },
            }
            i += 1;
        }
        assert(self@.content.subrange(0, self.content.len() as int) =~= self@.content);
        out
    }

    /// Every `tool_use` block as `(id, name, input)`, ready to dispatch.
    pub fn tool_uses(&self) -> (r: Vec<(&str, &str, &Json)>)
        ensures
            tool_use_views(r@) == tool_uses_of(self@.content),
    {
        let mut out: Vec<(&str, &str, &Json)> = Vec::new();
        let mut i: usize = 0;
        while i < self.content.len()
            invariant
                i <= self.content.len(),
                tool_use_views(out@) == tool_uses_of(self@.content.subrange(0, i as int)),
                self@.content == blocks_view(self.content),
            decreases self.content.len() - i,
        {
            assert(self@.content.subrange(0, i as int + 1).drop_last() =~= self@.content.subrange(
                0,
                i as int,
            ));
            let ghost before = tool_use_views(out@);
            match &self.content[i] {
                ContentBlock::ToolUse { id, name, input } => {
                    out.push((id.as_str(), name.as_str(), input));
                    assert(tool_use_views(out@) =~= before.push((id@, name@, input@)));
                },
                _ => {},
            }
            i += 1;
        }
        assert(self@.content.subrange(0, self.content.len() as int) =~= self@.content);
        out
    }

    /// The model declined the request for safety reasons.
    ///
    /// [`stop_details`](Self::stop_details) carries the category and
    /// explanation when the API provides them.
    pub fn is_refusal(&self) -> (r: bool)
        ensures
            r == (self@.stop_reason == Some("refusal"@)),
    {
        match &self.stop_reason {
            Some(reason) => crate::json::str_eq(reason.as_str(), "refusal"),
            None => false,
        }
    }

    /// Re-package this message as an assistant turn, for echoing back to the
    /// API in a tool-use loop. Thinking signatures and unknown block types
    /// are preserved verbatim.
    pub fn to_msg(&self) -> (r: Msg)
        ensures
            r@ == turn_of(self@),
    {
        let mut blocks: Vec<Json> = Vec::new();
        let mut i: usize = 0;
        while i < self.content.len()
            invariant
                i <= self.content.len(),
                blocks.len() == i,
                self@.content == blocks_view(self.content),
                forall|k: int| 0 <= k < i ==> blocks@[k]@ == block_json(self@.content[k]),
            decreases self.content.len() - i,
        {
            blocks.push(self.content[i].to_value());
            i += 1;
        }
        let r = Msg::assistant_blocks(blocks);
        assert(json_views(blocks) =~= Seq::new(
            self@.content.len(),
            |i: int| block_json(self@.content[i]),
        ));
        r
    }
}

} // verus!
