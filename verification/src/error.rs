//! Everything that can go wrong talking to the API.
use vstd::prelude::*;
use vstd::string::StringSliceAdditionalSpecFns;
use std::time::Duration;
use crate::event::{ParseError, owned};
use crate::json::{Json, JsonV, parse_json, spec_parse_json, str_member};
use crate::decode::opt_str_view;

verus! {

/// ureq's error type, carried through this crate opaquely.
#[verifier::external_type_specification]
#[verifier::external_body]
pub struct ExUreqError(ureq::Error);

/// std's I/O error type, carried through this crate opaquely.
#[verifier::external_type_specification]
#[verifier::external_body]
pub struct ExIoError(std::io::Error);

/// Anything that can go wrong talking to the API.
#[derive(Debug)]
pub enum ClientError {
    /// The API reported an error: a non-2xx status with an error body
    /// (`status` is its code), or an `error` event in the middle of a stream
    /// (`status` is `None`).
    Api {
        status: Option<u16>,
        /// The API's `error.type`, e.g. `"invalid_request_error"`.
        kind: String,
        message: String,
        /// The `request-id` header, or else the body's `request_id`.
        request_id: Option<String>,
        /// The server's `retry-after`, in whole seconds.
        retry_after: Option<Duration>,
    },
    /// Transport failure (connection, TLS, timeout) before a response arrived.
    Transport(ureq::Error),
    /// A response body we couldn't decode into the expected shape.
    Decode(serde_json::Error),
    /// A failure while parsing the streaming event feed.
    Stream(ParseError),
    /// I/O failure while reading a (streaming) response body.
    Io(std::io::Error),
}

/// The kind reported when an error body names none.
pub open spec fn unknown_kind() -> Seq<char> {
    "unknown_error"@
}

/// The `error` object of a parsed error body.
pub open spec fn error_object(body: Option<JsonV>) -> Option<JsonV> {
    match body {
        Some(b) => b.get("error"@),
        None => None,
    }
}

/// The `type` of an error object, or [`unknown_kind`].
pub open spec fn error_kind(err: Option<JsonV>) -> Seq<char> {
    match err {
        Some(e) => match str_member(e, "type"@) {
            Some(t) => t,
            None => unknown_kind(),
        },
        None => unknown_kind(),
    }
}

/// The `message` of an error object, or `fallback`.
pub open spec fn error_message(err: Option<JsonV>, fallback: Seq<char>) -> Seq<char> {
    match err {
        Some(e) => match str_member(e, "message"@) {
            Some(m) => m,
            None => fallback,
        },
        None => fallback,
    }
}

/// The request id a failed response is reported with: the header's, or
/// else the body's `request_id`.
pub open spec fn error_request_id(header: Option<Seq<char>>, body: Option<JsonV>) -> Option<
    Seq<char>,
> {
    match header {
        Some(h) => Some(h),
        None => match body {
            Some(b) => str_member(b, "request_id"@),
            None => None,
        },
    }
}

/// The text member `key` of `j`, if it is a string.
fn text_of(j: &Json, key: &str) -> (r: Option<String>)
    ensures
        opt_str_view(r) == str_member(j@, key@),
{
    match j.get(key) {
        Some(v) => match v.as_str() {
            Some(s) => Some(owned(s)),
            None => None,
        },
        None => None,
    }
}

/// `e` is the API error for a failed response with this status, body (and
/// `parsed`, what the body reads as JSON, if it does), `request-id` header
/// and `retry-after`.
pub open spec fn api_error_from(
    e: ClientError,
    status: u16,
    body: Seq<char>,
    parsed: Option<JsonV>,
    request_id: Option<Seq<char>>,
    retry_after: Option<Duration>,
) -> bool {
    e matches ClientError::Api { status: s, kind, message, request_id: rid, retry_after: ra }
        && s == Some(status) && kind@ == error_kind(error_object(parsed)) && message@
        == error_message(error_object(parsed), body) && opt_str_view(rid) == error_request_id(
        request_id,
        parsed,
    ) && ra == retry_after
}

/// `e` is the API error [`ClientError::api`] makes of a failed response with
/// this status, body, `request-id` header and `retry-after`.
pub open spec fn api_error_matches(
    e: ClientError,
    status: u16,
    body: Seq<char>,
    request_id: Option<Seq<char>>,
    retry_after: Option<Duration>,
) -> bool {
    api_error_from(
        e,
        status,
        body,
        spec_parse_json(vstd::utf8::encode_utf8(body)),
        request_id,
        retry_after,
    )
}

/// The API error for a failed response carries its status and
/// `retry-after`; its kind is the string `type` of the body's `error`
/// object (else `unknown_error`), its message that object's string
/// `message` (else the whole body), and its request id the header's (else
/// the body's string `request_id`).
pub proof fn lemma_api_error_members(
    e: ClientError,
    status: u16,
    body: Seq<char>,
    parsed: Option<JsonV>,
    request_id: Option<Seq<char>>,
    retry_after: Option<Duration>,
)
    requires
        api_error_from(e, status, body, parsed, request_id, retry_after),
    ensures
        e matches ClientError::Api { status: s, kind, message, request_id: rid, retry_after: ra }
            && s == Some(status) && ra == retry_after && {
            let err = match parsed {
                Some(p) => p.get("error"@),
                None => None,
            };
            &&& kind@ == match err {
                Some(x) => match x.get("type"@) {
                    Some(JsonV::Str(t)) => t,
                    _ => "unknown_error"@,
                },
                None => "unknown_error"@,
            }
            &&& message@ == match err {
                Some(x) => match x.get("message"@) {
                    Some(JsonV::Str(t)) => t,
                    _ => body,
                },
                None => body,
            }
            &&& opt_str_view(rid) == match request_id {
                Some(h) => Some(h),
                None => match parsed {
                    Some(p) => match p.get("request_id"@) {
                        Some(JsonV::Str(t)) => Some(t),
                        _ => None,
                    },
                    None => None,
                },
            }
        },
{
}

impl ClientError {
    /// The typed error for a non-2xx response: the body's `error.type` and
    /// `error.message` (the raw body when it has no message), with the
    /// request id from the header or, failing that, the body.
    pub fn api(status: u16, body: &str, request_id: Option<String>, retry_after: Option<
        Duration,
    >) -> (r: ClientError)
        ensures
            api_error_matches(r, status, body@, opt_str_view(request_id), retry_after),
    {
        match parse_json(body.as_bytes()) {
            Ok(j) => ClientError::api_from_parsed(status, body, Some(&j), request_id, retry_after),
            Err(_) => ClientError::api_from_parsed(status, body, None, request_id, retry_after),
        }
    }

    /// The typed error for a non-2xx response whose body reads as `parsed`
    /// (`None` when it is not JSON): see [`ClientError::api`].
    pub fn api_from_parsed(
        status: u16,
        body: &str,
        parsed: Option<&Json>,
        request_id: Option<String>,
        retry_after: Option<Duration>,
    ) -> (r: ClientError)
        ensures
            api_error_from(
                r,
                status,
                body@,
                match parsed {
                    Some(j) => Some(j@),
                    None => None,
                },
                opt_str_view(request_id),
                retry_after,
            ),
    {
        let (kind, message, body_id) = match parsed {
            Some(j) => {
                let (kind, message) = match j.get("error") {
                    Some(e) => {
                        let kind = match text_of(e, "type") {
                            Some(k) => k,
                            None => owned("unknown_error"),
                        };
                        let message = match text_of(e, "message") {
                            Some(m) => m,
                            None => owned(body),
                        };
                        (kind, message)
                    },
                    None => (owned("unknown_error"), owned(body)),
                };
                (kind, message, text_of(j, "request_id"))
            },
            None => (owned("unknown_error"), owned(body), None),
        };
        let request_id = match request_id {
            Some(h) => Some(h),
            None => body_id,
        };
        ClientError::Api { status: Some(status), kind, message, request_id, retry_after }
    }

    /// The typed error for an `error` event in the middle of a stream: no
    /// status, the event's `type` and `message` (empty when it has none).
    pub fn api_event(error: &Json) -> (r: ClientError)
        ensures
            r matches ClientError::Api {
                status: s,
                kind,
                message,
                request_id: rid,
                retry_after: ra,
            } && s is None && kind@ == error_kind(Some(error@)) && message@ == error_message(
                Some(error@),
                Seq::empty(),
            ) && rid is None && ra is None,
    {
        let kind = match text_of(error, "type") {
            Some(k) => k,
            None => owned("unknown_error"),
        };
        let message = match text_of(error, "message") {
            Some(m) => m,
            None => String::new(),
        };
        ClientError::Api { status: None, kind, message, request_id: None, retry_after: None }
    }

    /// A stream that broke the protocol, for the reason given.
    pub fn malformed(why: &str) -> (r: ClientError)
        ensures
            r matches ClientError::Stream(ParseError::Malformed(m)) && m@ == why@,
    {
        ClientError::Stream(ParseError::Malformed(owned(why)))
    }
}

} // verus!
