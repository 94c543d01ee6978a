//! A lightweight, blocking client for the Anthropic Messages API: the
//! verified core. Request bodies, the event-stream framing and decoding,
//! the assembly of streamed messages, the error mapping and the retry
//! policy are here; the transport that carries them is the caller's.
pub mod assembly;
pub mod client;
pub mod decode;
pub mod error;
pub mod event;
pub mod json;
pub mod parser;
pub mod request;
pub mod response;
pub mod retry;
pub mod wire;
pub mod stream;

pub use crate::client::{Anthropic, AnthropicV, RequestTimeouts};
pub use crate::error::ClientError;
pub use crate::event::{
    ContentBlock, ContentBlockV, Delta, DeltaV, Event, EventV, MessageDelta, MessageDeltaV,
    ParseError, StopDetails, StopDetailsV, Usage, decode_delta, decode_event, decode_message_delta,
    decode_stop_details, decode_usage,
};
pub use crate::json::{Json, JsonV, Number, NumberV};
pub use crate::parser::{EventParser, EventParserV, MAX_RECORD_BYTES, find_record_end};
pub use crate::request::{
    Content, ContentV, MessageBuilder, MessageBuilderV, Msg, MsgV, decode_count, payload_text,
    read_count, read_message,
    tool_error, tool_result,
};
pub use crate::response::{Response, ResponseV, decode_response};
pub use crate::retry::{
    AttemptOutcome, RetryDecision, is_success, parse_retry_after, parse_u64,
    retry_decision, retry_delay, retryable_status,
};
pub use crate::stream::{EventStream, EventStreamV, MessageCollector, StreamStep};
