//! Building a Messages API request, and reading what comes back.
use vstd::prelude::*;
use vstd::string::{StringSliceAdditionalSpecFns, StringExecFns};
use vstd::utf8::encode_utf8;
use std::time::Duration;
use crate::client::Anthropic;
use crate::decode::{field, is_record, dec_u64, get_field, check_record, get_u64, opt_str_view};
use crate::error::{ClientError, api_error_matches};
use crate::event::{owned, str_member_of};
use crate::json::{
    Json, JsonV, Number, NumberV, obj_get, obj_members, lemma_obj_members, with_member,
    without_key, lemma_with_member_get, lemma_without_key_get, set_member, remove_member,
    parse_json, spec_parse_json, write_json, spec_json_text, lemma_obj_get_push,
};
use crate::response::{Response, ResponseV, spec_response, decode_response};

verus! {

/// Message content: plain text, or a list of raw content blocks for anything
/// richer (tool results, images, echoed assistant turns).
#[derive(Debug, Clone)]
pub enum Content {
    Text(String),
    Blocks(Vec<Json>),
}

/// The model of [`Content`].
pub enum ContentV {
    Text(Seq<char>),
    Blocks(Seq<JsonV>),
}

/// The models of a vector of JSON values.
pub open spec fn json_views(v: Vec<Json>) -> Seq<JsonV> {
    Seq::new(v.len() as nat, |i: int| v[i]@)
}

impl View for Content {
    type V = ContentV;

    open spec fn view(&self) -> ContentV {
        match self {
            Content::Text(t) => ContentV::Text(t@),
            Content::Blocks(b) => ContentV::Blocks(json_views(*b)),
        }
    }
}

/// One conversation turn in the request.
#[derive(Debug, Clone)]
pub struct Msg {
    pub role: String,
    pub content: Content,
}

/// The model of a [`Msg`].
pub struct MsgV {
    pub role: Seq<char>,
    pub content: ContentV,
}

impl View for Msg {
    type V = MsgV;

    open spec fn view(&self) -> MsgV {
        MsgV { role: self.role@, content: self.content@ }
    }
}

/// The wire form of a turn: `{"role": .., "content": ..}`, where text
/// content is a string and block content an array.
pub open spec fn msg_json(m: MsgV) -> JsonV {
    JsonV::Obj(
        seq![
            ("role"@, JsonV::Str(m.role)),
            (
                "content"@,
                match m.content {
                    ContentV::Text(t) => JsonV::Str(t),
                    ContentV::Blocks(b) => JsonV::Arr(b),
                },
            ),
        ],
    )
}

impl Msg {
    /// A user turn of plain text.
    pub fn user(content: String) -> (r: Self)
        ensures
            r@ == (MsgV { role: "user"@, content: ContentV::Text(content@) }),
    {
        Msg { role: owned("user"), content: Content::Text(content) }
    }

    /// An assistant turn of plain text.
    pub fn assistant(content: String) -> (r: Self)
        ensures
            r@ == (MsgV { role: "assistant"@, content: ContentV::Text(content@) }),
    {
        Msg { role: owned("assistant"), content: Content::Text(content) }
    }

    /// A user turn made of raw content blocks, e.g. [`tool_result`]s.
    pub fn user_blocks(blocks: Vec<Json>) -> (r: Self)
        ensures
            r@ == (MsgV { role: "user"@, content: ContentV::Blocks(json_views(blocks)) }),
    {
        Msg { role: owned("user"), content: Content::Blocks(blocks) }
    }

    /// An assistant turn made of raw content blocks; see
    /// [`Response::to_msg`] for echoing a reply back in a tool-use loop.
    pub fn assistant_blocks(blocks: Vec<Json>) -> (r: Self)
        ensures
            r@ == (MsgV { role: "assistant"@, content: ContentV::Blocks(json_views(blocks)) }),
    {
        Msg { role: owned("assistant"), content: Content::Blocks(blocks) }
    }

    /// The wire form of this turn; see [`msg_json`].
    pub fn to_json(&self) -> (r: Json)
        ensures
            r@ == msg_json(self@),
    {
        let content = match &self.content {
            Content::Text(t) => Json::String(t.clone()),
            Content::Blocks(b) => {
                let mut out: Vec<Json> = Vec::new();
                let mut i: usize = 0;
                while i < b.len()
                    invariant
                        i <= b.len(),
                        out.len() == i,
                        forall|k: int| 0 <= k < i ==> out@[k]@ == b@[k]@,
                    decreases b.len() - i,
                {
                    out.push(b[i].clone());
                    i += 1;
                }
                let r = Json::Array(out);
                assert(r@->Arr_0 =~= json_views(*b));
                r
            },
        };
        assert(content@ == match self@.content {
            ContentV::Text(t) => JsonV::Str(t),
            ContentV::Blocks(b) => JsonV::Arr(b),
        });
        let r = Json::Object(vec![str_member_of("role", self.role.as_str()), (owned("content"), content)]);
        assert(r@->Obj_0.len() == 2);
        assert(r@->Obj_0[1] == ("content"@, content@));
        assert(r@->Obj_0 =~= msg_json(self@)->Obj_0);
        r
    }
}

/// The wire form of a `tool_result` block.
pub open spec fn tool_result_json(id: Seq<char>, content: Seq<char>, is_error: bool) -> JsonV {
    let base = seq![
        ("type"@, JsonV::Str("tool_result"@)),
        ("tool_use_id"@, JsonV::Str(id)),
        ("content"@, JsonV::Str(content)),
    ];
    JsonV::Obj(
        if is_error {
            base.push(("is_error"@, JsonV::Bool(true)))
        } else {
            base
        },
    )
}

/// A turn's wire form carries its role under `role` and its content under
/// `content`: text as a string, blocks as an array of them in order.
pub proof fn lemma_msg_json_members(m: MsgV)
    ensures
        msg_json(m).get("role"@) == Some(JsonV::Str(m.role)),
        msg_json(m).get("content"@) == Some(
            match m.content {
                ContentV::Text(t) => JsonV::Str(t),
                ContentV::Blocks(b) => JsonV::Arr(b),
            },
        ),
{
    reveal_strlit("role");
    reveal_strlit("content");
    assert("role"@.len() != "content"@.len());
    let e = Seq::<(Seq<char>, JsonV)>::empty();
    let r = ("role"@, JsonV::Str(m.role));
    let c = (
        "content"@,
        match m.content {
            ContentV::Text(t) => JsonV::Str(t),
            ContentV::Blocks(b) => JsonV::Arr(b),
        },
    );
    assert(seq![r, c] =~= e.push(r).push(c));
    assert(msg_json(m)->Obj_0 =~= seq![r, c]);
    assert("role"@ != "content"@);
    lemma_obj_get_push(e, r, "role"@);
    lemma_obj_get_push(e.push(r), c, "role"@);
    lemma_obj_get_push(e, r, "content"@);
    lemma_obj_get_push(e.push(r), c, "content"@);
}

/// A tool result carries its type, the id of the call it answers and its
/// content under their names, and `is_error: true` exactly when it reports
/// a failure.
pub proof fn lemma_tool_result_members(id: Seq<char>, content: Seq<char>, is_error: bool)
    ensures
        tool_result_json(id, content, is_error).get("type"@) == Some(JsonV::Str("tool_result"@)),
        tool_result_json(id, content, is_error).get("tool_use_id"@) == Some(JsonV::Str(id)),
        tool_result_json(id, content, is_error).get("content"@) == Some(JsonV::Str(content)),
        tool_result_json(id, content, is_error).get("is_error"@) == (if is_error {
            Some(JsonV::Bool(true))
        } else {
            None
        }),
{
    reveal_strlit("type");
    reveal_strlit("tool_use_id");
    reveal_strlit("content");
    reveal_strlit("is_error");
    assert("type"@.len() != "tool_use_id"@.len());
    assert("type"@.len() != "content"@.len());
    assert("type"@.len() != "is_error"@.len());
    assert("tool_use_id"@.len() != "content"@.len());
    assert("tool_use_id"@.len() != "is_error"@.len());
    assert("content"@.len() != "is_error"@.len());
    let e = Seq::<(Seq<char>, JsonV)>::empty();
    let a = ("type"@, JsonV::Str("tool_result"@));
    let b = ("tool_use_id"@, JsonV::Str(id));
    let c = ("content"@, JsonV::Str(content));
    let d = ("is_error"@, JsonV::Bool(true));
    let base = e.push(a).push(b).push(c);
    assert(seq![a, b, c] =~= base);
    assert forall|k: Seq<char>| true implies #[trigger] obj_get(base, k) == (if k == c.0 {
        Some(c.1)
    } else if k == b.0 {
        Some(b.1)
    } else if k == a.0 {
        Some(a.1)
    } else {
        None
    }) by {
        lemma_obj_get_push(e, a, k);
        lemma_obj_get_push(e.push(a), b, k);
        lemma_obj_get_push(e.push(a).push(b), c, k);
    }
    assert forall|k: Seq<char>| true implies #[trigger] obj_get(base.push(d), k) == (if k == d.0 {
        Some(d.1)
    } else {
        obj_get(base, k)
    }) by {
        lemma_obj_get_push(base, d, k);
    }
    assert(obj_get(base, "type"@) == Some(a.1));
    assert(obj_get(base, "tool_use_id"@) == Some(b.1));
    assert(obj_get(base, "content"@) == Some(c.1));
    assert(obj_get(base, "is_error"@) is None);
}

/// A `tool_result` content block answering the tool call with the given id.
pub fn tool_result(tool_use_id: String, content: String) -> (r: Json)
    ensures
        r@ == tool_result_json(tool_use_id@, content@, false),
{
    let r = Json::Object(
        vec![
            str_member_of("type", "tool_result"),
            str_member_of("tool_use_id", tool_use_id.as_str()),
            str_member_of("content", content.as_str()),
        ],
    );
    assert(r@->Obj_0 =~= tool_result_json(tool_use_id@, content@, false)->Obj_0);
    r
}

/// Like [`tool_result`], but marks the execution as failed so the model can
/// adapt rather than trusting the output.
pub fn tool_error(tool_use_id: String, content: String) -> (r: Json)
    ensures
        r@ == tool_result_json(tool_use_id@, content@, true),
{
    let flag = Json::Bool(true);
    assert(flag@ == JsonV::Bool(true));
    let r = Json::Object(
        vec![
            str_member_of("type", "tool_result"),
            str_member_of("tool_use_id", tool_use_id.as_str()),
            str_member_of("content", content.as_str()),
            (owned("is_error"), flag),
        ],
    );
    assert(r@->Obj_0 =~= tool_result_json(tool_use_id@, content@, true)->Obj_0);
    r
}

/// Fluent builder for a Messages API request.
///
/// Borrowed from the [`Anthropic`] client; build it up with chained setters,
/// then hand it to a transport that sends [`body`](Self::body).
pub struct MessageBuilder<'a> {
    client: &'a Anthropic,
    model: String,
    max_tokens: u32,
    messages: Vec<Msg>,
    system: Option<String>,
    temperature: Option<Json>,
    headers: Vec<(String, String)>,
    /// Extra top-level fields merged into the request body verbatim — an
    /// escape hatch for parameters we don't (yet) have a typed setter for.
    extra: Vec<(String, Json)>,
}

/// The model of a [`MessageBuilder`]: everything but the client.
pub struct MessageBuilderV {
    pub model: Seq<char>,
    pub max_tokens: u32,
    pub messages: Seq<MsgV>,
    pub system: Option<Seq<char>>,
    pub temperature: Option<JsonV>,
    pub headers: Seq<(Seq<char>, Seq<char>)>,
    pub extra: Seq<(Seq<char>, JsonV)>,
}

/// The models of a vector of turns.
pub open spec fn msg_views(v: Vec<Msg>) -> Seq<MsgV> {
    Seq::new(v.len() as nat, |i: int| v[i]@)
}

/// The models of a vector of headers.
pub open spec fn header_views(v: Vec<(String, String)>) -> Seq<(Seq<char>, Seq<char>)> {
    Seq::new(v.len() as nat, |i: int| (v[i].0@, v[i].1@))
}

/// A fresh builder for `model`: 1024 max tokens, nothing else set.
pub open spec fn fresh_builder(model: Seq<char>) -> MessageBuilderV {
    MessageBuilderV {
        model,
        max_tokens: 1024,
        messages: Seq::empty(),
        system: None,
        temperature: None,
        headers: Seq::empty(),
        extra: Seq::empty(),
    }
}

impl<'a> View for MessageBuilder<'a> {
    type V = MessageBuilderV;

    closed spec fn view(&self) -> MessageBuilderV {
        MessageBuilderV {
            model: self.model@,
            max_tokens: self.max_tokens,
            messages: msg_views(self.messages),
            system: opt_str_view(self.system),
            temperature: match self.temperature {
                Some(t) => Some(t@),
                None => None,
            },
            headers: header_views(self.headers),
            extra: obj_members(self.extra),
        }
    }
}

/// The typed members of a request body: model, max tokens, the turns, and
/// the system prompt and temperature when set.
pub open spec fn base_members(b: MessageBuilderV) -> Seq<(Seq<char>, JsonV)> {
    let core = seq![
        ("model"@, JsonV::Str(b.model)),
        ("max_tokens"@, JsonV::Num(NumberV::Int(b.max_tokens as int))),
        ("messages"@, JsonV::Arr(Seq::new(b.messages.len(), |i: int| msg_json(b.messages[i])))),
    ];
    let with_system = match b.system {
        Some(s) => core.push(("system"@, JsonV::Str(s))),
        None => core,
    };
    match b.temperature {
        Some(t) => with_system.push(("temperature"@, t)),
        None => with_system,
    }
}

/// `fields` with the extra members set on top, in order.
pub open spec fn apply_extra(fields: Seq<(Seq<char>, JsonV)>, extra: Seq<(Seq<char>, JsonV)>) -> Seq<
    (Seq<char>, JsonV),
>
    decreases extra.len(),
{
    if extra.len() == 0 {
        fields
    } else {
        with_member(apply_extra(fields, extra.drop_last()), extra.last().0, extra.last().1)
    }
}

/// The JSON request body: the typed members with the extra ones on top.
pub open spec fn body_json(b: MessageBuilderV) -> JsonV {
    JsonV::Obj(apply_extra(base_members(b), b.extra))
}

/// The extra members win: a member set with [`MessageBuilder::with`] is the
/// one the body carries, whatever the typed setters said; every other
/// member is the typed one.
pub proof fn lemma_extra_wins(b: MessageBuilderV, key: Seq<char>)
    ensures
        body_json(b).get(key) == match obj_get(b.extra, key) {
            Some(v) => Some(v),
            None => obj_get(base_members(b), key),
        },
{
    lemma_apply_extra_get(base_members(b), b.extra, key);
}

/// The names of the typed members are all different.
proof fn lemma_typed_names_distinct()
    ensures
        "model"@ != "max_tokens"@,
        "model"@ != "messages"@,
        "model"@ != "system"@,
        "model"@ != "temperature"@,
        "max_tokens"@ != "messages"@,
        "max_tokens"@ != "system"@,
        "max_tokens"@ != "temperature"@,
        "messages"@ != "system"@,
        "messages"@ != "temperature"@,
        "system"@ != "temperature"@,
{
    reveal_strlit("model");
    reveal_strlit("max_tokens");
    reveal_strlit("messages");
    reveal_strlit("system");
    reveal_strlit("temperature");
    assert("model"@.len() != "max_tokens"@.len());
    assert("model"@.len() != "messages"@.len());
    assert("model"@[0] != "system"@[0]);
    assert("model"@.len() != "temperature"@.len());
    assert("max_tokens"@.len() != "messages"@.len());
    assert("max_tokens"@.len() != "system"@.len());
    assert("max_tokens"@.len() != "temperature"@.len());
    assert("messages"@.len() != "system"@.len());
    assert("messages"@.len() != "temperature"@.len());
    assert("system"@.len() != "temperature"@.len());
}

/// Each typed setting is the body member of its name unless an extra
/// member of that name overrides it: the model, the max tokens, the turns
/// in order, the system prompt and the temperature when they are set (no
/// member when they are not); and the body has no other member than these
/// and the extra ones.
pub proof fn lemma_body_members(b: MessageBuilderV)
    ensures
        obj_get(b.extra, "model"@) is None ==> body_json(b).get("model"@) == Some(JsonV::Str(b.model)),
        obj_get(b.extra, "max_tokens"@) is None ==> body_json(b).get("max_tokens"@) == Some(
            JsonV::Num(NumberV::Int(b.max_tokens as int)),
        ),
        obj_get(b.extra, "messages"@) is None ==> body_json(b).get("messages"@) == Some(
            JsonV::Arr(Seq::new(b.messages.len(), |i: int| msg_json(b.messages[i]))),
        ),
        obj_get(b.extra, "system"@) is None ==> body_json(b).get("system"@) == match b.system {
            Some(s) => Some(JsonV::Str(s)),
            None => None,
        },
        obj_get(b.extra, "temperature"@) is None ==> body_json(b).get("temperature"@)
            == b.temperature,
        forall|key: Seq<char>|
            key != "model"@ && key != "max_tokens"@ && key != "messages"@ && key != "system"@ && key
                != "temperature"@ && obj_get(b.extra, key) is None ==> #[trigger] body_json(b).get(
                key,
            ) is None,
{
    lemma_typed_names_distinct();
    let a = ("model"@, JsonV::Str(b.model));
    let m = ("max_tokens"@, JsonV::Num(NumberV::Int(b.max_tokens as int)));
    let g = ("messages"@, JsonV::Arr(Seq::new(b.messages.len(), |i: int| msg_json(b.messages[i]))));
    let e = Seq::<(Seq<char>, JsonV)>::empty();
    let core = e.push(a).push(m).push(g);
    assert(seq![a, m, g] =~= core);
    let with_system = match b.system {
        Some(s) => core.push(("system"@, JsonV::Str(s))),
        None => core,
    };
    assert forall|key: Seq<char>| true implies #[trigger] obj_get(base_members(b), key) == (if key
        == "temperature"@ {
        b.temperature
    } else if key == "system"@ {
        match b.system {
            Some(s) => Some(JsonV::Str(s)),
            None => None,
        }
    } else if key == "messages"@ {
        Some(g.1)
    } else if key == "max_tokens"@ {
        Some(m.1)
    } else if key == "model"@ {
        Some(a.1)
    } else {
        None
    }) by {
        lemma_obj_get_push(e, a, key);
        lemma_obj_get_push(e.push(a), m, key);
        lemma_obj_get_push(e.push(a).push(m), g, key);
        if let Some(s) = b.system {
            lemma_obj_get_push(core, ("system"@, JsonV::Str(s)), key);
        }
        if let Some(t) = b.temperature {
            lemma_obj_get_push(with_system, ("temperature"@, t), key);
        }
    }
    assert forall|key: Seq<char>| true implies #[trigger] body_json(b).get(key) == match obj_get(
        b.extra,
        key,
    ) {
        Some(v) => Some(v),
        None => obj_get(base_members(b), key),
    } by {
        lemma_extra_wins(b, key);
    }
}

/// Looking a key up after the extra members are set.
proof fn lemma_apply_extra_get(
    fields: Seq<(Seq<char>, JsonV)>,
    extra: Seq<(Seq<char>, JsonV)>,
    key: Seq<char>,
)
    ensures
        obj_get(apply_extra(fields, extra), key) == match obj_get(extra, key) {
            Some(v) => Some(v),
            None => obj_get(fields, key),
        },
    decreases extra.len(),
{
    if extra.len() > 0 {
        lemma_apply_extra_get(fields, extra.drop_last(), key);
        lemma_with_member_get(
            apply_extra(fields, extra.drop_last()),
            extra.last().0,
            extra.last().1,
            key,
        );
    }
}

/// The body sent to count tokens: the request body without the members
/// the counting endpoint rejects.
pub open spec fn count_body_json(b: MessageBuilderV) -> JsonV {
    JsonV::Obj(
        without_key(
            without_key(
                without_key(apply_extra(base_members(b), b.extra), "max_tokens"@),
                "temperature"@,
            ),
            "stream"@,
        ),
    )
}

/// The counting body carries none of the generation-only members, and
/// every other member of the request body unchanged.
pub proof fn lemma_count_body_strips(b: MessageBuilderV, key: Seq<char>)
    ensures
        count_body_json(b).get(key) == if key == "max_tokens"@ || key == "temperature"@ || key
            == "stream"@ {
            None
        } else {
            body_json(b).get(key)
        },
{
    let f0 = apply_extra(base_members(b), b.extra);
    let f1 = without_key(f0, "max_tokens"@);
    let f2 = without_key(f1, "temperature"@);
    lemma_without_key_get(f0, "max_tokens"@, key);
    lemma_without_key_get(f1, "temperature"@, key);
    lemma_without_key_get(f2, "stream"@, key);
}

/// The body sent to stream: the request body with `stream: true` among the
/// extra members.
pub open spec fn stream_body_json(b: MessageBuilderV) -> JsonV {
    body_json(MessageBuilderV { extra: with_member(b.extra, "stream"@, JsonV::Bool(true)), ..b })
}

/// A streaming body asks for a stream, and differs from the request body in
/// nothing else.
pub proof fn lemma_stream_body(b: MessageBuilderV, key: Seq<char>)
    ensures
        stream_body_json(b).get(key) == if key == "stream"@ {
            Some(JsonV::Bool(true))
        } else {
            body_json(b).get(key)
        },
{
    let b2 = MessageBuilderV { extra: with_member(b.extra, "stream"@, JsonV::Bool(true)), ..b };
    lemma_extra_wins(b2, key);
    lemma_extra_wins(b, key);
    lemma_with_member_get(b.extra, "stream"@, JsonV::Bool(true), key);
    assert(base_members(b2) == base_members(b));
}

/// The headers every request carries, then the custom ones in the order
/// they were added.
pub open spec fn headers_of(api_key: Seq<char>, version: Seq<char>, custom: Seq<(Seq<char>, Seq<char>)>) -> Seq<
    (Seq<char>, Seq<char>),
> {
    seq![
        ("x-api-key"@, api_key),
        ("anthropic-version"@, version),
        ("content-type"@, "application/json"@),
    ] + custom
}

/// Copies a vector of members.
fn clone_members(v: &Vec<(String, Json)>) -> (r: Vec<(String, Json)>)
    ensures
        obj_members(r) == obj_members(*v),
{
    proof {
        lemma_obj_members(*v);
    }
    let mut out: Vec<(String, Json)> = Vec::new();
    let mut i: usize = 0;
    while i < v.len()
        invariant
            i <= v.len(),
            out.len() == i,
            forall|k: int|
                0 <= k < i ==> out@[k].0@ == v@[k].0@ && out@[k].1@ == v@[k].1@,
        decreases v.len() - i,
    {
        out.push((v[i].0.clone(), v[i].1.clone()));
        i += 1;
    }
    proof {
        lemma_obj_members(out);
    }
    assert(obj_members(out) =~= obj_members(*v));
    out
}

impl<'a> MessageBuilder<'a> {
    /// The client this request goes through.
    pub closed spec fn client(&self) -> &'a Anthropic {
        self.client
    }

    /// A fresh builder for `model` on `client`.
    pub fn new(client: &'a Anthropic, model: String) -> (r: Self)
        ensures
            r.client() == client,
            r@ == fresh_builder(model@),
    {
        let r = MessageBuilder {
            client,
            model,
            max_tokens: 1024,
            messages: Vec::new(),
            system: None,
            temperature: None,
            headers: Vec::new(),
            extra: Vec::new(),
        };
        assert(r@.messages =~= Seq::<MsgV>::empty());
        assert(r@.headers =~= Seq::<(Seq<char>, Seq<char>)>::empty());
        assert(r@.extra =~= Seq::<(Seq<char>, JsonV)>::empty());
        r
    }

    /// The client this request goes through.
    pub fn get_client(&self) -> (r: &'a Anthropic)
        ensures
            r == self.client(),
    {
        self.client
    }

    /// Maximum tokens to generate. Defaults to 1024.
    pub fn max_tokens(self, n: u32) -> (r: Self)
        ensures
            r.client() == self.client(),
            r@ == (MessageBuilderV { max_tokens: n, ..self@ }),
    {
        MessageBuilder { max_tokens: n, ..self }
    }

    /// Set the system prompt.
    pub fn system(self, prompt: String) -> (r: Self)
        ensures
            r.client() == self.client(),
            r@ == (MessageBuilderV { system: Some(prompt@), ..self@ }),
    {
        MessageBuilder { system: Some(prompt), ..self }
    }

    /// Sampling temperature, as the JSON number it is sent as.
    ///
    /// Removed from Opus 4.7+ and Fable 5, where setting it returns a 400;
    /// only use this when targeting older models.
    pub fn temperature(self, t: Json) -> (r: Self)
        ensures
            r.client() == self.client(),
            r@ == (MessageBuilderV { temperature: Some(t@), ..self@ }),
    {
        MessageBuilder { temperature: Some(t), ..self }
    }

    /// Append a user turn.
    pub fn user(self, content: String) -> (r: Self)
        ensures
            r.client() == self.client(),
            r@ == (MessageBuilderV {
                messages: self@.messages.push(MsgV { role: "user"@, content: ContentV::Text(content@) }),
                ..self@
            }),
    {
        self.msg(Msg::user(content))
    }

    /// Append an assistant turn.
    pub fn assistant(self, content: String) -> (r: Self)
        ensures
            r.client() == self.client(),
            r@ == (MessageBuilderV {
                messages: self@.messages.push(
                    MsgV { role: "assistant"@, content: ContentV::Text(content@) },
                ),
                ..self@
            }),
    {
        self.msg(Msg::assistant(content))
    }

    /// Append a pre-built turn (echoed responses, tool results).
    pub fn msg(self, msg: Msg) -> (r: Self)
        ensures
            r.client() == self.client(),
            r@ == (MessageBuilderV { messages: self@.messages.push(msg@), ..self@ }),
    {
        let mut b = self;
        let ghost before = msg_views(b.messages);
        b.messages.push(msg);
        assert(msg_views(b.messages) =~= before.push(msg@));
        b
    }

    /// Replace the entire message list (escape hatch for pre-built histories).
    pub fn messages(self, messages: Vec<Msg>) -> (r: Self)
        ensures
            r.client() == self.client(),
            r@ == (MessageBuilderV { messages: msg_views(messages), ..self@ }),
    {
        MessageBuilder { messages, ..self }
    }

    /// Set an arbitrary top-level request field by name (e.g. `"tools"`,
    /// `"thinking"`, `"top_p"`). Escape hatch for anything without a setter;
    /// these win over the typed setters when the names collide (see
    /// [`lemma_extra_wins`]).
    pub fn with(self, key: String, value: Json) -> (r: Self)
        ensures
            r.client() == self.client(),
            r@ == (MessageBuilderV { extra: with_member(self@.extra, key@, value@), ..self@ }),
    {
        let mut b = self;
        set_member(&mut b.extra, key, value);
        b
    }

    /// Add a request header, e.g. `("anthropic-beta", ...)` for beta features.
    pub fn header(self, name: String, value: String) -> (r: Self)
        ensures
            r.client() == self.client(),
            r@ == (MessageBuilderV { headers: self@.headers.push((name@, value@)), ..self@ }),
    {
        let mut b = self;
        let ghost before = header_views(b.headers);
        b.headers.push((name, value));
        assert(header_views(b.headers) =~= before.push((name@, value@)));
        b
    }

    /// The typed members of the body, then `extra` on top.
    fn body_with(&self, extra: &Vec<(String, Json)>) -> (r: Vec<(String, Json)>)
        ensures
            obj_members(r) == apply_extra(base_members(self@), obj_members(*extra)),
    {
        let mut turns: Vec<Json> = Vec::new();
        let mut i: usize = 0;
        while i < self.messages.len()
            invariant
                i <= self.messages.len(),
                turns.len() == i,
                forall|k: int|
                    0 <= k < i ==> turns@[k]@ == msg_json(#[trigger] self.messages@[k]@),
            decreases self.messages.len() - i,
        {
            turns.push(self.messages[i].to_json());
            i += 1;
        }
        let turns_json = Json::Array(turns);
        assert(turns_json@->Arr_0 =~= Seq::new(
            self@.messages.len(),
            |k: int| msg_json(self@.messages[k]),
        ));
        let mut fields: Vec<(String, Json)> = Vec::new();
        fields.push((owned("model"), Json::String(self.model.clone())));
        fields.push((owned("max_tokens"), Json::Number(Number::PosInt(self.max_tokens as u64))));
        fields.push((owned("messages"), turns_json));
        match &self.system {
            Some(s) => fields.push((owned("system"), Json::String(s.clone()))),
            None => {},
        }
        match &self.temperature {
            Some(t) => fields.push((owned("temperature"), t.clone())),
            None => {},
        }
        proof {
            lemma_obj_members(fields);
        }
        assert(obj_members(fields) =~= base_members(self@));
        let ghost ex = obj_members(*extra);
        proof {
            lemma_obj_members(*extra);
        }
        let mut j: usize = 0;
        while j < extra.len()
            invariant
                j <= extra.len(),
                ex == obj_members(*extra),
                ex.len() == extra@.len(),
                forall|k: int| 0 <= k < extra@.len() ==> #[trigger] ex[k] == (extra@[k].0@, extra@[k].1@),
                obj_members(fields) == apply_extra(base_members(self@), ex.subrange(0, j as int)),
            decreases extra.len() - j,
        {
            assert(ex.subrange(0, j as int + 1).drop_last() =~= ex.subrange(0, j as int));
            set_member(&mut fields, extra[j].0.clone(), extra[j].1.clone());
            j += 1;
        }
        assert(ex.subrange(0, extra.len() as int) =~= ex);
        fields
    }

    /// Build the JSON request body; see [`body_json`].
    pub fn body(&self) -> (r: Json)
        ensures
            r@ == body_json(self@),
    {
        Json::Object(self.body_with(&self.extra))
    }

    /// The body of a streaming request; see [`stream_body_json`].
    pub fn stream_body(&self) -> (r: Json)
        ensures
            r@ == stream_body_json(self@),
    {
        let mut extra = clone_members(&self.extra);
        set_member(&mut extra, owned("stream"), Json::Bool(true));
        Json::Object(self.body_with(&extra))
    }

    /// The body of a token-counting request; see [`count_body_json`].
    pub fn count_body(&self) -> (r: Json)
        ensures
            r@ == count_body_json(self@),
    {
        let mut fields = self.body_with(&self.extra);
        remove_member(&mut fields, "max_tokens");
        remove_member(&mut fields, "temperature");
        remove_member(&mut fields, "stream");
        Json::Object(fields)
    }

    /// The headers the request carries: auth, version, content type, then
    /// the custom ones; see [`headers_of`].
    pub fn request_headers(&self) -> (r: Vec<(String, String)>)
        ensures
            header_views(r) == headers_of(
                self.client()@.api_key,
                self.client()@.version,
                self@.headers,
            ),
    {
        let mut out: Vec<(String, String)> = Vec::new();
        out.push((owned("x-api-key"), owned(self.client.api_key())));
        out.push((owned("anthropic-version"), owned(self.client.api_version())));
        out.push((owned("content-type"), owned("application/json")));
        let mut i: usize = 0;
        while i < self.headers.len()
            invariant
                i <= self.headers.len(),
                out.len() == 3 + i,
                header_views(out) == headers_of(
                    self.client()@.api_key,
                    self.client()@.version,
                    header_views(self.headers).subrange(0, i as int),
                ),
            decreases self.headers.len() - i,
        {
            let ghost before = header_views(out);
            out.push((self.headers[i].0.clone(), self.headers[i].1.clone()));
            assert(header_views(out) =~= before.push(header_views(self.headers)[i as int]));
            assert(header_views(self.headers).subrange(0, i as int + 1) =~= header_views(
                self.headers,
            ).subrange(0, i as int).push(header_views(self.headers)[i as int]));
            i += 1;
        }
        assert(header_views(self.headers).subrange(0, self.headers.len() as int) =~= header_views(
            self.headers,
        ));
        out
    }

    /// The address of the endpoint `path`: the base URL, then `path`.
    pub fn url(&self, path: &str) -> (r: String)
        ensures
            r@ == self.client()@.base_url + path@,
    {
        let base = owned(self.client.address());
        base.concat(path)
    }
}

/// The text a request body is sent as: serde_json's writing of it, which
/// always succeeds for a JSON value. (A failure would be a decode error,
/// as serde_json's errors are.)
pub fn payload_text(body: &Json) -> (r: Result<String, ClientError>)
    ensures
        r matches Ok(text) && text@ == spec_json_text(body@),
{
    match write_json(body) {
        Ok(text) => Ok(text),
        Err(e) => Err(ClientError::Decode(e)),
    }
}

/// The count a JSON body stands for: `{"input_tokens": n}`.
///
/// The value comes from serde_json's `Value`, which has already kept only
/// the last of any repeated member name, so a body that repeats a field is
/// read with its last value, where a derived serde decoding of the body
/// would reject the repetition.
pub open spec fn spec_count(j: JsonV) -> Option<u64> {
    if is_record(j, 0, 1) {
        dec_u64(field(j, 0, 0, "input_tokens"@))
    } else {
        None
    }
}

/// The response a successful body stands for, with its request id.
pub open spec fn with_request_id(m: ResponseV, request_id: Option<Seq<char>>) -> ResponseV {
    ResponseV { request_id, ..m }
}

/// Reads the reply to a message request: a non-2xx status is the API's
/// error (see [`ClientError::api`]); a 2xx body is decoded as a
/// [`Response`], which carries the `request-id` header.
pub fn read_message(status: u16, body: String, request_id: Option<String>, retry_after: Option<
    Duration,
>) -> (r: Result<Response, ClientError>)
    ensures
        !(200 <= status < 300) ==> (r matches Err(e) && api_error_matches(
            e,
            status,
            body@,
            opt_str_view(request_id),
            retry_after,
        )),
        200 <= status < 300 ==> match spec_parse_json(encode_utf8(body@)) {
            Some(j) => match spec_response(j) {
                Some(m) => r matches Ok(resp) && resp@ == with_request_id(
                    m,
                    opt_str_view(request_id),
                ),
                None => r matches Err(ClientError::Decode(_)),
            },
            None => r matches Err(ClientError::Decode(_)),
        },
{
    if !crate::retry::is_success(status) {
        return Err(ClientError::api(status, body.as_str(), request_id, retry_after));
    }
    let j = match parse_json(body.as_str().as_bytes()) {
        Ok(j) => j,
        Err(e) => return Err(ClientError::Decode(e)),
    };
    match decode_response(&j) {
        Ok(m) => Ok(Response { request_id, ..m }),
        Err(e) => Err(ClientError::Decode(e)),
    }
}

/// Reads the reply to a token-counting request: a non-2xx status is the
/// API's error; a 2xx body is `{"input_tokens": n}` and gives `n`.
pub fn read_count(status: u16, body: String, request_id: Option<String>, retry_after: Option<
    Duration,
>) -> (r: Result<u64, ClientError>)
    ensures
        !(200 <= status < 300) ==> (r matches Err(e) && api_error_matches(
            e,
            status,
            body@,
            opt_str_view(request_id),
            retry_after,
        )),
        200 <= status < 300 ==> match spec_parse_json(encode_utf8(body@)) {
            Some(j) => match spec_count(j) {
                Some(n) => r == Ok::<u64, ClientError>(n),
                None => r matches Err(ClientError::Decode(_)),
            },
            None => r matches Err(ClientError::Decode(_)),
        },
{
    if !crate::retry::is_success(status) {
        return Err(ClientError::api(status, body.as_str(), request_id, retry_after));
    }
    let j = match parse_json(body.as_str().as_bytes()) {
        Ok(j) => j,
        Err(e) => return Err(ClientError::Decode(e)),
    };
    match decode_count(&j) {
        Ok(n) => Ok(n),
        Err(e) => Err(ClientError::Decode(e)),
    }
}

/// Reads a token count, `{"input_tokens": n}`, from a parsed body; see
/// [`spec_count`].
pub fn decode_count(j: &Json) -> (r: Result<u64, serde_json::Error>)
    ensures
        match spec_count(j@) {
            Some(n) => r matches Ok(x) && x == n,
            None => r is Err,
        },
{
    match check_record(j, 0, 1) {
        Err(e) => return Err(e),
        Ok(()) => {},
    }
    get_u64(get_field(j, 0, 0, "input_tokens"))
}

} // verus!
