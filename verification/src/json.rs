//! The JSON values that travel on the wire, as plain data.
//!
//! serde_json does the reading of JSON text; what it reads is carried into
//! [`Json`], whose view [`JsonV`] is what the contracts of this crate speak of.
use vstd::prelude::*;
use serde_json::Value;

verus! {

/// A JSON number, kept the way serde_json keeps it: a non-negative integer,
/// a negative integer, or a finite float (held as the text serde_json prints
/// for it, since this crate does no floating-point arithmetic).
#[derive(Debug, PartialEq)]
pub enum Number {
    PosInt(u64),
    NegInt(i64),
    Float(String),
}

/// The mathematical model of a [`Number`]: an integer, or a float's text.
pub enum NumberV {
    Int(int),
    Float(Seq<char>),
}

impl View for Number {
    type V = NumberV;

    open spec fn view(&self) -> NumberV {
        match self {
            Number::PosInt(n) => NumberV::Int(*n as int),
            Number::NegInt(n) => NumberV::Int(*n as int),
            Number::Float(s) => NumberV::Float(s@),
        }
    }
}

/// A JSON value. Objects keep their members in order; when a key occurs
/// more than once, the last occurrence is the one that counts, as it is for
/// a serde_json map built by inserting the members one after another.
#[derive(Debug, PartialEq)]
pub enum Json {
    Null,
    Bool(bool),
    Number(Number),
    String(String),
    Array(Vec<Json>),
    Object(Vec<(String, Json)>),
}

/// The mathematical model of a [`Json`] value.
pub enum JsonV {
    Null,
    Bool(bool),
    Num(NumberV),
    Str(Seq<char>),
    Arr(Seq<JsonV>),
    Obj(Seq<(Seq<char>, JsonV)>),
}

impl View for Json {
    type V = JsonV;

    open spec fn view(&self) -> JsonV {
        json_view(*self)
    }
}

/// The model of a [`Json`] value, member by member.
pub open spec fn json_view(j: Json) -> JsonV
    decreases j,
{
    match j {
        Json::Null => JsonV::Null,
        Json::Bool(b) => JsonV::Bool(b),
        Json::Number(n) => JsonV::Num(n@),
        Json::String(s) => JsonV::Str(s@),
        Json::Array(v) => JsonV::Arr(
            Seq::new(
                v.len() as nat,
                |i: int|
                    if 0 <= i < v.len() {
                        json_view(v[i])
                    } else {
                        JsonV::Null
                    },
            ),
        ),
        Json::Object(v) => JsonV::Obj(
            Seq::new(
                v.len() as nat,
                |i: int|
                    if 0 <= i < v.len() {
                        (v[i].0@, json_view(v[i].1))
                    } else {
                        (Seq::empty(), JsonV::Null)
                    },
            ),
        ),
    }
}

/// The value of the last member named `key`, if any.
pub open spec fn obj_get(fields: Seq<(Seq<char>, JsonV)>, key: Seq<char>) -> Option<JsonV>
    decreases fields.len(),
{
    if fields.len() == 0 {
        None
    } else if fields.last().0 == key {
        Some(fields.last().1)
    } else {
        obj_get(fields.drop_last(), key)
    }
}

/// Looking a key up in an object whose last member was just appended.
pub proof fn lemma_obj_get_push(f: Seq<(Seq<char>, JsonV)>, p: (Seq<char>, JsonV), k: Seq<char>)
    ensures
        obj_get(f.push(p), k) == (if p.0 == k {
            Some(p.1)
        } else {
            obj_get(f, k)
        }),
{
    assert(f.push(p).drop_last() =~= f);
}

impl JsonV {
    /// The member `key` of an object; `None` for a missing member or a value
    /// that is not an object.
    pub open spec fn get(self, key: Seq<char>) -> Option<JsonV> {
        match self {
            JsonV::Obj(fields) => obj_get(fields, key),
            _ => None,
        }
    }

    /// The text of a string value.
    pub open spec fn as_str(self) -> Option<Seq<char>> {
        match self {
            JsonV::Str(s) => Some(s),
            _ => None,
        }
    }
}

/// The text of `j`'s member `key` when it is a string.
pub open spec fn str_member(j: JsonV, key: Seq<char>) -> Option<Seq<char>> {
    match j.get(key) {
        Some(v) => v.as_str(),
        None => None,
    }
}

/// `true` exactly when the two strings hold the same characters.
pub fn str_eq(a: &str, b: &str) -> (r: bool)
    ensures
        r == (a@ == b@),
{
    let x: String = a.to_owned();
    let y: String = b.to_owned();
    x == y
}

impl Clone for Number {
    fn clone(&self) -> (r: Self)
        ensures
            r@ == self@,
    {
        match self {
            Number::PosInt(n) => Number::PosInt(*n),
            Number::NegInt(n) => Number::NegInt(*n),
            Number::Float(s) => Number::Float(s.clone()),
        }
    }
}

impl Clone for Json {
    fn clone(&self) -> (r: Self)
        ensures
            r@ == self@,
        decreases self,
    {
        match self {
            Json::Null => Json::Null,
            Json::Bool(b) => Json::Bool(*b),
            Json::Number(n) => Json::Number(n.clone()),
            Json::String(s) => Json::String(s.clone()),
            Json::Array(v) => {
                let mut out: Vec<Json> = Vec::new();
                let mut i: usize = 0;
                while i < v.len()
                    invariant
                        i <= v.len(),
                        out.len() == i,
                        *self == Json::Array(*v),
                        forall|k: int| 0 <= k < i ==> out@[k]@ == v@[k]@,
                    decreases v.len() - i,
                {
                    proof {
                        assert(decreases_to!(*self => self->Array_0));
                        assert(decreases_to!(*v => v[i as int]));
                    }
                    out.push(v[i].clone());
                    i += 1;
                }
                let r = Json::Array(out);
                assert(r@->Arr_0 =~= self@->Arr_0);
                r
            },
            Json::Object(v) => {
                let mut out: Vec<(String, Json)> = Vec::new();
                let mut i: usize = 0;
                while i < v.len()
                    invariant
                        i <= v.len(),
                        out.len() == i,
                        *self == Json::Object(*v),
                        forall|k: int|
                            0 <= k < i ==> out@[k].0@ == v@[k].0@ && out@[k].1@ == v@[k].1@,
                    decreases v.len() - i,
                {
                    proof {
                        assert(decreases_to!(*self => self->Object_0));
                        assert(decreases_to!(*v => v[i as int]));
                        assert(decreases_to!(v[i as int] => v[i as int].1));
                    }
                    let key = v[i].0.clone();
                    let value = v[i].1.clone();
                    out.push((key, value));
                    i += 1;
                }
                let r = Json::Object(out);
                assert(r@->Obj_0 =~= self@->Obj_0);
                r
            },
        }
    }
}

impl Json {
    /// The member `key` of an object (the last one of that name); `None` for
    /// a missing member or a value that is not an object.
    pub fn get(&self, key: &str) -> (r: Option<&Json>)
        ensures
            match r {
                Some(v) => self@.get(key@) == Some(v@),
                None => self@.get(key@) is None,
            },
    {
        match self {
            Json::Object(fields) => {
                let mut i: usize = fields.len();
                assert(*self == Json::Object(*fields));
                assert(self@->Obj_0.subrange(0, fields.len() as int) =~= self@->Obj_0);
                while i > 0
                    invariant
                        i <= fields.len(),
                        self@ == JsonV::Obj(self@->Obj_0),
                        self@->Obj_0.len() == fields.len(),
                        forall|k: int|
                            0 <= k < fields.len() ==> self@->Obj_0[k] == (
                                fields@[k].0@,
                                fields@[k].1@,
                            ),
                        obj_get(self@->Obj_0, key@) == obj_get(
                            self@->Obj_0.subrange(0, i as int),
                            key@,
                        ),
                    decreases i,
                {
                    let ghost s = self@->Obj_0.subrange(0, i as int);
                    if str_eq(fields[i - 1].0.as_str(), key) {
                        return Some(&fields[i - 1].1);
                    }
                    assert(s.drop_last() =~= self@->Obj_0.subrange(0, i - 1));
                    i -= 1;
                }
                assert(self@->Obj_0.subrange(0, 0) =~= Seq::<(Seq<char>, JsonV)>::empty());
                None
            },
            _ => None,
        }
    }

    /// The text of a string value.
    pub fn as_str(&self) -> (r: Option<&str>)
        ensures
            match r {
                Some(s) => self@.as_str() == Some(s@),
                None => self@.as_str() is None,
            },
    {
        match self {
            Json::String(s) => Some(s.as_str()),
            _ => None,
        }
    }
}

/// serde_json's error type, carried through this crate opaquely.
#[verifier::external_type_specification]
#[verifier::external_body]
pub struct ExJsonError(serde_json::Error);

/// serde_json's value type, only ever handed from its parser to
/// [`json_from_value`].
#[verifier::external_type_specification]
#[verifier::external_body]
pub struct ExJsonValue(serde_json::Value);

/// What `serde_json::from_slice::<serde_json::Value>` makes of `bytes`, in
/// this crate's model; `None` where serde_json rejects them.
pub uninterp spec fn spec_parse_json(bytes: Seq<u8>) -> Option<JsonV>;

/// Reads JSON text with `serde_json::from_slice::<serde_json::Value>`.
/// Trusted: the result is `Ok` exactly when serde_json accepts the bytes, and
/// then it is serde_json's value carried over variant for variant (see
/// [`json_from_value`]); nothing more is claimed of what serde_json reads.
#[verifier::external_body]
pub(crate) fn parse_json(bytes: &[u8]) -> (res: Result<Json, serde_json::Error>)
    ensures
        res is Ok <==> spec_parse_json(bytes@) is Some,
        res matches Ok(j) ==> spec_parse_json(bytes@) == Some(j@),
{
    serde_json::from_slice::<serde_json::Value>(bytes).map(json_from_value)
}

/// Carries a `serde_json::Value` over into [`Json`], variant for variant:
/// object members in the map's order, numbers by `as_u64`, then `as_i64`,
/// else the float's printed text. Trusted conversion; no contract.
#[verifier::external_body]
fn json_from_value(v: serde_json::Value) -> Json {
    match v {
        serde_json::Value::Null => Json::Null,
        serde_json::Value::Bool(b) => Json::Bool(b),
        serde_json::Value::Number(n) => Json::Number(match (n.as_u64(), n.as_i64()) {
            (Some(u), _) => Number::PosInt(u),
            (None, Some(i)) => Number::NegInt(i),
            (None, None) => Number::Float(n.to_string()),
        }),
        serde_json::Value::String(s) => Json::String(s),
        serde_json::Value::Array(a) => Json::Array(a.into_iter().map(json_from_value).collect()),
        serde_json::Value::Object(m) => Json::Object(
            m.into_iter().map(|(k, v)| (k, json_from_value(v))).collect(),
        ),
    }
}

/// What `serde_json::to_string` writes for the `serde_json::Value` that
/// [`json_to_value`] carries `j` into.
pub uninterp spec fn spec_json_text(j: JsonV) -> Seq<char>;

/// Writes JSON text with `serde_json::to_string` of `j` carried into a
/// `serde_json::Value`. Trusted: it succeeds, since serde_json fails only
/// for a `Serialize` impl that fails or a map with non-string keys, and a
/// `Value` has neither (its writer is an in-memory `Vec`); the text is
/// named [`spec_json_text`] of `j`, and nothing more is claimed of it.
#[verifier::external_body]
pub(crate) fn write_json(j: &Json) -> (r: Result<String, serde_json::Error>)
    ensures
        r is Ok,
        r matches Ok(text) ==> text@ == spec_json_text(j@),
{
    serde_json::to_string(&json_to_value(j))
}

/// Carries a [`Json`] into a `serde_json::Value`, variant for variant:
/// members inserted in order, integers as they are, a float from its text
/// (`null` should serde_json not read it back). Trusted conversion; no
/// contract.
#[verifier::external_body]
fn json_to_value(j: &Json) -> Value {
    match j {
        Json::Null => Value::Null,
        Json::Bool(b) => Value::Bool(*b),
        Json::Number(Number::PosInt(u)) => Value::from(*u),
        Json::Number(Number::NegInt(i)) => Value::from(*i),
        Json::Number(Number::Float(t)) => t.parse().map_or(Value::Null, Value::Number),
        Json::String(t) => Value::String(t.clone()),
        Json::Array(a) => Value::Array(a.iter().map(json_to_value).collect()),
        Json::Object(m) => Value::Object(m.iter().map(|(k, v)| (k.clone(), json_to_value(v))).collect()),
    }
}

/// Makes a `serde_json::Error` carrying `msg`, through
/// `serde::de::Error::custom`. Trusted; nothing is claimed of the result.
#[verifier::external_body]
pub(crate) fn decode_error(msg: &str) -> serde_json::Error {
    <serde_json::Error as serde::de::Error>::custom(msg)
}

} // verus!

verus! {

/// The members of an object built from `v`.
pub open spec fn obj_members(v: Vec<(String, Json)>) -> Seq<(Seq<char>, JsonV)> {
    Json::Object(v)@->Obj_0
}

/// The members of an object built from `v` are `v`'s keys and values.
pub proof fn lemma_obj_members(v: Vec<(String, Json)>)
    ensures
        obj_members(v).len() == v@.len(),
        forall|i: int|
            0 <= i < v@.len() ==> #[trigger] obj_members(v)[i] == (v@[i].0@, v@[i].1@),
{
}

/// `fields` without its members named `key`.
pub open spec fn without_key(fields: Seq<(Seq<char>, JsonV)>, key: Seq<char>) -> Seq<
    (Seq<char>, JsonV),
>
    decreases fields.len(),
{
    if fields.len() == 0 {
        Seq::empty()
    } else if fields.last().0 == key {
        without_key(fields.drop_last(), key)
    } else {
        without_key(fields.drop_last(), key).push(fields.last())
    }
}

/// `fields` with `key` set to `value`: any member of that name is dropped
/// and the new one goes last.
pub open spec fn with_member(fields: Seq<(Seq<char>, JsonV)>, key: Seq<char>, value: JsonV) -> Seq<
    (Seq<char>, JsonV),
> {
    without_key(fields, key).push((key, value))
}

/// After dropping `key`, looking it up finds nothing, and every other key
/// finds what it found before.
pub proof fn lemma_without_key_get(fields: Seq<(Seq<char>, JsonV)>, key: Seq<char>, other: Seq<char>)
    ensures
        obj_get(without_key(fields, key), other) == if other == key {
            None
        } else {
            obj_get(fields, other)
        },
    decreases fields.len(),
{
    if fields.len() > 0 {
        lemma_without_key_get(fields.drop_last(), key, other);
        if fields.last().0 != key {
            assert(without_key(fields, key).drop_last() =~= without_key(fields.drop_last(), key));
        }
    }
}

/// After setting `key`, looking it up finds the new value, and every other
/// key finds what it found before.
pub proof fn lemma_with_member_get(
    fields: Seq<(Seq<char>, JsonV)>,
    key: Seq<char>,
    value: JsonV,
    other: Seq<char>,
)
    ensures
        obj_get(with_member(fields, key, value), other) == if other == key {
            Some(value)
        } else {
            obj_get(fields, other)
        },
{
    lemma_without_key_get(fields, key, other);
    assert(with_member(fields, key, value).drop_last() =~= without_key(fields, key));
}

/// Drops every member named `key`.
pub fn remove_member(v: &mut Vec<(String, Json)>, key: &str)
    ensures
        obj_members(*final(v)) == without_key(obj_members(*old(v)), key@),
{
    let ghost before = obj_members(*v);
    proof {
        lemma_obj_members(*v);
    }
    let mut out: Vec<(String, Json)> = Vec::new();
    let mut i: usize = 0;
    while i < v.len()
        invariant
            i <= v.len(),
            before.len() == v@.len(),
            forall|k: int| 0 <= k < v@.len() ==> #[trigger] before[k] == (v@[k].0@, v@[k].1@),
            obj_members(out) == without_key(before.subrange(0, i as int), key@),
        decreases v.len() - i,
    {
        let ghost prev = obj_members(out);
        proof {
            lemma_obj_members(out);
        }
        assert(before.subrange(0, i as int + 1).drop_last() =~= before.subrange(0, i as int));
        if !str_eq(v[i].0.as_str(), key) {
            let k = v[i].0.clone();
            let val = v[i].1.clone();
            out.push((k, val));
            proof {
                lemma_obj_members(out);
            }
            assert(obj_members(out) =~= prev.push(before[i as int]));
        }
        i += 1;
    }
    assert(before.subrange(0, v.len() as int) =~= before);
    *v = out;
}

/// Sets the member `key` to `value`; see [`with_member`].
pub fn set_member(v: &mut Vec<(String, Json)>, key: String, value: Json)
    ensures
        obj_members(*final(v)) == with_member(obj_members(*old(v)), key@, value@),
{
    remove_member(v, key.as_str());
    let ghost mid = obj_members(*v);
    proof {
        lemma_obj_members(*v);
    }
    v.push((key, value));
    proof {
        lemma_obj_members(*v);
    }
    assert(obj_members(*v) =~= mid.push((key@, value@)));
}

} // verus!
