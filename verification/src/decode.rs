//! Reading the fields of a JSON record.
//!
//! A record (a struct, or the body of an enum variant) arrives either as an
//! object, whose members are looked up by name (unknown members are
//! ignored), or as an array, whose elements are the fields in declaration
//! order. For an enum variant in array form the first element is the tag, so
//! its fields start at offset 1. A missing field is `None` here; whether that
//! is an error or a default is up to the field's type.
use vstd::prelude::*;
use crate::json::{Json, JsonV, NumberV, Number, obj_get, decode_error};

verus! {

/// Field number `k` (named `name`) of a record read at offset `off`.
pub open spec fn field(j: JsonV, off: int, k: int, name: Seq<char>) -> Option<JsonV> {
    match j {
        JsonV::Obj(fields) => obj_get(fields, name),
        JsonV::Arr(s) => if 0 <= off + k < s.len() {
            Some(s[off + k])
        } else {
            None
        },
        _ => None,
    }
}

/// `j` can hold a record of `n` fields read at offset `off`: an object, or
/// an array with no elements beyond the fields.
pub open spec fn is_record(j: JsonV, off: int, n: int) -> bool {
    match j {
        JsonV::Obj(_) => true,
        JsonV::Arr(s) => s.len() <= off + n,
        _ => false,
    }
}

/// A required string field.
pub open spec fn dec_str(f: Option<JsonV>) -> Option<Seq<char>> {
    match f {
        Some(JsonV::Str(s)) => Some(s),
        _ => None,
    }
}

/// A string field that defaults to the empty string when missing.
pub open spec fn dec_str_or_empty(f: Option<JsonV>) -> Option<Seq<char>> {
    match f {
        None => Some(Seq::empty()),
        Some(JsonV::Str(s)) => Some(s),
        _ => None,
    }
}

/// An optional string field: missing or `null` is `None`.
pub open spec fn dec_opt_str(f: Option<JsonV>) -> Option<Option<Seq<char>>> {
    match f {
        None => Some(None),
        Some(JsonV::Null) => Some(None),
        Some(JsonV::Str(s)) => Some(Some(s)),
        _ => None,
    }
}

/// A required `u32` field: an integer in range.
pub open spec fn dec_u32(f: Option<JsonV>) -> Option<u32> {
    match f {
        Some(JsonV::Num(NumberV::Int(i))) => if 0 <= i <= u32::MAX {
            Some(i as u32)
        } else {
            None
        },
        _ => None,
    }
}

/// An optional `u64` field: missing or `null` is `None`, else an integer in
/// range.
pub open spec fn dec_opt_u64(f: Option<JsonV>) -> Option<Option<u64>> {
    match f {
        None => Some(None),
        Some(JsonV::Null) => Some(None),
        Some(JsonV::Num(NumberV::Int(i))) => if 0 <= i <= u64::MAX {
            Some(Some(i as u64))
        } else {
            None
        },
        _ => None,
    }
}

/// Field number `k` (named `name`) of a record read at offset `off`.
pub fn get_field<'a>(j: &'a Json, off: usize, k: usize, name: &str) -> (r: Option<&'a Json>)
    requires
        off + k <= usize::MAX,
    ensures
        match r {
            Some(v) => field(j@, off as int, k as int, name@) == Some(v@),
            None => field(j@, off as int, k as int, name@) is None,
        },
{
    match j {
        Json::Object(_) => j.get(name),
        Json::Array(v) => {
            if off + k < v.len() {
                Some(&v[off + k])
            } else {
                None
            }
        },
        _ => None,
    }
}

/// Whether `j` can hold a record of `n` fields read at offset `off`.
pub fn check_record(j: &Json, off: usize, n: usize) -> (r: Result<(), serde_json::Error>)
    requires
        off + n <= usize::MAX,
    ensures
        r is Ok <==> is_record(j@, off as int, n as int),
{
    match j {
        Json::Object(_) => Ok(()),
        Json::Array(v) => {
            if v.len() <= off + n {
                Ok(())
            } else {
                Err(decode_error("trailing elements in record"))
            }
        },
        _ => Err(decode_error("invalid type: expected a record")),
    }
}

/// A required string field.
pub fn get_str(f: Option<&Json>) -> (r: Result<String, serde_json::Error>)
    ensures
        r is Ok <==> dec_str(opt_view(f)) is Some,
        r matches Ok(s) ==> dec_str(opt_view(f)) == Some(s@),
{
    match f {
        Some(Json::String(s)) => Ok(s.clone()),
        Some(_) => Err(decode_error("invalid type: expected a string")),
        None => Err(decode_error("missing field")),
    }
}

/// A string field that defaults to the empty string when missing.
pub fn get_str_or_empty(f: Option<&Json>) -> (r: Result<String, serde_json::Error>)
    ensures
        r is Ok <==> dec_str_or_empty(opt_view(f)) is Some,
        r matches Ok(s) ==> dec_str_or_empty(opt_view(f)) == Some(s@),
{
    match f {
        Some(Json::String(s)) => Ok(s.clone()),
        Some(_) => Err(decode_error("invalid type: expected a string")),
        None => Ok(String::new()),
    }
}

/// An optional string field.
pub fn get_opt_str(f: Option<&Json>) -> (r: Result<Option<String>, serde_json::Error>)
    ensures
        r is Ok <==> dec_opt_str(opt_view(f)) is Some,
        r matches Ok(s) ==> dec_opt_str(opt_view(f)) == Some(opt_str_view(s)),
{
    match f {
        None => Ok(None),
        Some(Json::Null) => Ok(None),
        Some(Json::String(s)) => Ok(Some(s.clone())),
        Some(_) => Err(decode_error("invalid type: expected a string or null")),
    }
}

/// A required `u32` field.
pub fn get_u32(f: Option<&Json>) -> (r: Result<u32, serde_json::Error>)
    ensures
        r is Ok <==> dec_u32(opt_view(f)) is Some,
        r matches Ok(n) ==> dec_u32(opt_view(f)) == Some(n),
{
    match f {
        Some(Json::Number(Number::PosInt(n))) => {
            if *n <= 0xffff_ffffu64 {
                Ok(*n as u32)
            } else {
                Err(decode_error("integer out of range for u32"))
            }
        },
        Some(Json::Number(Number::NegInt(i))) => {
            if 0 <= *i && *i <= 0xffff_ffffi64 {
                Ok(*i as u32)
            } else {
                Err(decode_error("integer out of range for u32"))
            }
        },
        Some(Json::Number(_)) => Err(decode_error("invalid value: expected u32")),
        Some(_) => Err(decode_error("invalid type: expected u32")),
        None => Err(decode_error("missing field")),
    }
}

/// An optional `u64` field.
pub fn get_opt_u64(f: Option<&Json>) -> (r: Result<Option<u64>, serde_json::Error>)
    ensures
        r is Ok <==> dec_opt_u64(opt_view(f)) is Some,
        r matches Ok(n) ==> dec_opt_u64(opt_view(f)) == Some(n),
{
    match f {
        None => Ok(None),
        Some(Json::Null) => Ok(None),
        Some(Json::Number(Number::PosInt(n))) => Ok(Some(*n)),
        Some(Json::Number(Number::NegInt(i))) => {
            if 0 <= *i {
                Ok(Some(*i as u64))
            } else {
                Err(decode_error("integer out of range for u64"))
            }
        },
        Some(Json::Number(_)) => Err(decode_error("invalid value: expected u64")),
        Some(_) => Err(decode_error("invalid type: expected u64")),
    }
}

/// The model of an optional borrowed JSON value.
pub open spec fn opt_view(f: Option<&Json>) -> Option<JsonV> {
    match f {
        Some(v) => Some(v@),
        None => None,
    }
}

/// The model of an optional string.
pub open spec fn opt_str_view(s: Option<String>) -> Option<Seq<char>> {
    match s {
        Some(t) => Some(t@),
        None => None,
    }
}

/// A required `u64` field: an integer in range.
pub open spec fn dec_u64(f: Option<JsonV>) -> Option<u64> {
    match f {
        Some(JsonV::Num(NumberV::Int(i))) => if 0 <= i <= u64::MAX {
            Some(i as u64)
        } else {
            None
        },
        _ => None,
    }
}

/// A required `u64` field.
pub fn get_u64(f: Option<&Json>) -> (r: Result<u64, serde_json::Error>)
    ensures
        r is Ok <==> dec_u64(opt_view(f)) is Some,
        r matches Ok(n) ==> dec_u64(opt_view(f)) == Some(n),
{
    match f {
        Some(Json::Number(Number::PosInt(n))) => Ok(*n),
        Some(Json::Number(Number::NegInt(i))) => {
            if 0 <= *i {
                Ok(*i as u64)
            } else {
                Err(decode_error("integer out of range for u64"))
            }
        },
        Some(Json::Number(_)) => Err(decode_error("invalid value: expected u64")),
        Some(_) => Err(decode_error("invalid type: expected u64")),
        None => Err(decode_error("missing field")),
    }
}

} // verus!
