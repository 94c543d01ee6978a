//! A live stream of events, and the assembly of the finished message.
//!
//! Reading from the wire is the caller's part: [`EventStream::poll`] says
//! whether an event (or the end) is ready or more bytes are needed, and
//! [`EventStream::supply`] takes the bytes read. [`MessageCollector`] folds
//! the events into the complete [`Response`].
use vstd::prelude::*;
use vstd::string::StringExecFns;
use std::collections::HashMap;
use crate::error::{ClientError, error_kind, error_message};
use crate::event::{
    ContentBlock, ContentBlockV, Delta, DeltaV, Event, EventV, ParseError, Usage, merged, owned,
};
use crate::json::{Json, JsonV, parse_json, spec_parse_json};
use crate::parser::{EventParser, EventParserV, spec_feed, overlong_record, record_events,
    record_end, lemma_scan_end_bounds,
    lemma_split_records_append, lemma_record_events_append, first_failure, split_records, MAX_RECORD_BYTES, RecordOutcome};
use crate::response::{Response, ResponseV, blocks_view};
use crate::decode::opt_str_view;

verus! {

broadcast use vstd::std_specs::hash::group_hash_axioms;

/// A live stream of [`Event`]s from a streaming request, less the reading:
/// the parser, whether the wire is exhausted, and the request id.
pub struct EventStream {
    parser: EventParser,
    done: bool,
    request_id: Option<String>,
}

/// The model of an [`EventStream`].
pub struct EventStreamV {
    pub parser: EventParserV,
    pub done: bool,
    pub request_id: Option<Seq<char>>,
}

impl View for EventStream {
    type V = EventStreamV;

    closed spec fn view(&self) -> EventStreamV {
        EventStreamV {
            parser: self.parser@,
            done: self.done,
            request_id: opt_str_view(self.request_id),
        }
    }
}

/// What the stream has for its reader.
pub enum StreamStep {
    /// The next event, the end (`Ok(None)`), or an error.
    Ready(Result<Option<Event>, ClientError>),
    /// Nothing is ready: read more bytes and [`EventStream::supply`] them.
    NeedInput,
}

impl EventStream {
    /// A stream for a response with this `request-id`, nothing read yet.
    pub fn new(request_id: Option<String>) -> (r: Self)
        ensures
            r@.parser.buf == Seq::<u8>::empty(),
            r@.parser.pending == Seq::<EventV>::empty(),
            !r@.done,
            r@.request_id == opt_str_view(request_id),
    {
        EventStream { parser: EventParser::new(), done: false, request_id }
    }

    /// The `request-id` header from the streaming response.
    pub fn request_id(&self) -> (r: Option<&str>)
        ensures
            match r {
                Some(s) => self@.request_id == Some(s@),
                None => self@.request_id is None,
            },
    {
        match &self.request_id {
            Some(s) => Some(s.as_str()),
            None => None,
        }
    }

    /// The next step of pulling an event: a queued event comes first (an
    /// `error` event surfaces as [`ClientError::Api`], so it can't be
    /// silently skipped); with none queued, the end once the wire is
    /// exhausted, else a request for more bytes.
    pub fn poll(&mut self) -> (r: StreamStep)
        ensures
            final(self)@.done == old(self)@.done,
            final(self)@.request_id == old(self)@.request_id,
            final(self)@.parser.buf == old(self)@.parser.buf,
            old(self)@.parser.pending.len() > 0 ==> {
                &&& final(self)@.parser.pending == old(self)@.parser.pending.drop_first()
                &&& match old(self)@.parser.pending[0] {
                    EventV::Error { error } => r matches StreamStep::Ready(Err(e))
                        && e matches ClientError::Api {
                        status: s,
                        kind,
                        message,
                        request_id: rid,
                        retry_after: ra,
                    } && s is None && kind@ == error_kind(Some(error)) && message@
                        == error_message(Some(error), Seq::empty()) && rid is None && ra is None,
                    ev => r matches StreamStep::Ready(Ok(Some(x))) && x@ == ev,
                }
            },
            old(self)@.parser.pending.len() == 0 ==> {
                &&& final(self)@.parser.pending == old(self)@.parser.pending
                &&& if old(self)@.done {
                    r matches StreamStep::Ready(Ok(None))
                } else {
                    r is NeedInput
                }
            },
    {
        match self.parser.next_event() {
            Some(event) => {
                match &event {
                    Event::Error { error } => StreamStep::Ready(Err(ClientError::api_event(error))),
                    _ => StreamStep::Ready(Ok(Some(event))),
                }
            },
            None => {
                if self.done {
                    StreamStep::Ready(Ok(None))
                } else {
                    StreamStep::NeedInput
                }
            },
        }
    }

    /// Takes the bytes of one read: none means the wire is exhausted (what
    /// is still buffered is left unparsed); otherwise they are fed to the
    /// parser, whose errors surface as [`ClientError::Stream`].
    pub fn supply(&mut self, chunk: &[u8]) -> (r: Result<(), ClientError>)
        ensures
            final(self)@.request_id == old(self)@.request_id,
            chunk@.len() == 0 ==> {
                &&& final(self)@.done
                &&& final(self)@.parser == old(self)@.parser
                &&& r is Ok
            },
            chunk@.len() > 0 ==> {
                let recs = split_records(old(self)@.parser.buf + chunk@).0;
                &&& final(self)@.done == old(self)@.done
                &&& final(self)@.parser == spec_feed(old(self)@.parser, chunk@)
                &&& match r {
                    Ok(()) => first_failure(recs) is None && final(self)@.parser.buf.len()
                        <= MAX_RECORD_BYTES,
                    Err(ClientError::Stream(ParseError::Utf8(_))) => first_failure(recs) == Some(
                        RecordOutcome::BadUtf8,
                    ),
                    Err(ClientError::Stream(ParseError::Json(_))) => first_failure(recs) == Some(
                        RecordOutcome::BadJson,
                    ),
                    Err(ClientError::Stream(ParseError::Malformed(m))) => first_failure(recs)
                        is None && final(self)@.parser.buf.len() > MAX_RECORD_BYTES && m@
                        == overlong_record(),
                    Err(_) => false,
                }
            },
    {
        if chunk.len() == 0 {
            self.done = true;
            return Ok(());
        }
        match self.parser.feed(chunk) {
            Ok(_) => Ok(()),
            Err(e) => Err(ClientError::Stream(e)),
        }
    }

    /// The `request-id` header, handed over for the finished message.
    pub fn take_request_id(&mut self) -> (r: Option<String>)
        ensures
            opt_str_view(r) == old(self)@.request_id,
            final(self)@.request_id is None,
            final(self)@.parser == old(self)@.parser,
            final(self)@.done == old(self)@.done,
    {
        self.request_id.take()
    }
}

/// The bytes `fed` to a stream so far account for it: the events already
/// handed out (`out`), then those still queued, are exactly the events of
/// the complete records of `fed`, and the parser holds the bytes left over.
pub open spec fn accounts_for(s: EventStreamV, out: Seq<EventV>, fed: Seq<u8>) -> bool {
    &&& out + s.parser.pending == record_events(split_records(fed).0)
    &&& s.parser.buf == split_records(fed).1
}

/// A new stream has handed out nothing and been fed nothing.
pub proof fn lemma_new_stream_accounts(s: EventStreamV)
    requires
        s.parser.buf == Seq::<u8>::empty(),
        s.parser.pending == Seq::<EventV>::empty(),
    ensures
        accounts_for(s, Seq::empty(), Seq::empty()),
{
    assert(Seq::<EventV>::empty() + s.parser.pending =~= Seq::<EventV>::empty());
}

/// Supplying a chunk, wherever the read cut the bytes, keeps the account
/// with the chunk appended to what was fed.
pub proof fn lemma_supply_accounts(
    s: EventStreamV,
    out: Seq<EventV>,
    fed: Seq<u8>,
    chunk: Seq<u8>,
    next: EventStreamV,
)
    requires
        accounts_for(s, out, fed),
        next.parser == spec_feed(s.parser, chunk),
    ensures
        accounts_for(next, out, fed + chunk),
{
    lemma_split_records_append(fed, chunk);
    let a = split_records(fed).0;
    let b = split_records(split_records(fed).1 + chunk).0;
    lemma_record_events_append(a, b);
    assert(out + next.parser.pending =~= (out + s.parser.pending) + record_events(b));
}

/// Handing out the oldest queued event keeps the account, with that event
/// appended to what was handed out.
pub proof fn lemma_take_accounts(s: EventStreamV, out: Seq<EventV>, fed: Seq<u8>, next: EventStreamV)
    requires
        accounts_for(s, out, fed),
        s.parser.pending.len() > 0,
        next.parser.buf == s.parser.buf,
        next.parser.pending == s.parser.pending.drop_first(),
    ensures
        accounts_for(next, out.push(s.parser.pending[0]), fed),
{
    assert(out.push(s.parser.pending[0]) + next.parser.pending =~= out + s.parser.pending);
}

/// Every event comes out, whatever the read boundaries: once nothing is
/// queued, the events handed out are exactly those of the complete records
/// of all the bytes fed, as [`EventParser::parse_all`] gives them for the
/// whole text.
pub proof fn lemma_stream_delivers_every_event(s: EventStreamV, out: Seq<EventV>, fed: Seq<u8>)
    requires
        accounts_for(s, out, fed),
        s.parser.pending.len() == 0,
    ensures
        out == record_events(split_records(fed).0),
{
    assert(out + s.parser.pending =~= out);
}

/// The reads joined, first to last.
pub open spec fn joined_reads(reads: Seq<Seq<u8>>) -> Seq<u8>
    decreases reads.len(),
{
    if reads.len() == 0 {
        Seq::empty()
    } else {
        reads[0] + joined_reads(reads.drop_first())
    }
}

/// Supplying `chunk` to a stream whose parser holds `buf` fails: a record it
/// completes cannot be read, or what is left over passes the cap.
pub open spec fn supply_fails(buf: Seq<u8>, chunk: Seq<u8>) -> bool {
    ||| first_failure(split_records(buf + chunk).0) is Some
    ||| split_records(buf + chunk).1.len() > MAX_RECORD_BYTES
}

/// What a reading loop over [`EventStream::poll`] and
/// [`EventStream::supply`] hands out, from a stream whose parser is `p`,
/// when the reads bring `reads` and then the end: it takes every queued
/// event, supplies the next read, and so on; at the end it takes what is
/// still queued. `None` when a supply fails.
pub open spec fn read_loop(p: EventParserV, reads: Seq<Seq<u8>>) -> Option<Seq<EventV>>
    decreases reads.len(),
{
    if reads.len() == 0 {
        Some(p.pending)
    } else if supply_fails(p.buf, reads[0]) {
        None
    } else {
        match read_loop(
            spec_feed(EventParserV { buf: p.buf, pending: Seq::empty() }, reads[0]),
            reads.drop_first(),
        ) {
            Some(rest) => Some(p.pending + rest),
            None => None,
        }
    }
}

/// What is left over after splitting holds no complete record.
proof fn lemma_leftover_holds_no_record(x: Seq<u8>)
    ensures
        split_records(split_records(x).1).0 == Seq::<Seq<u8>>::empty(),
    decreases x.len(),
{
    lemma_scan_end_bounds(x, 0, 0);
    match record_end(x) {
        Some(e) => {
            lemma_leftover_holds_no_record(x.subrange(e, x.len() as int));
        },
        None => {},
    }
}

/// No record of two runs fails exactly when none of either does.
proof fn lemma_first_failure_append(a: Seq<Seq<u8>>, b: Seq<Seq<u8>>)
    ensures
        first_failure(a + b) is None <==> (first_failure(a) is None && first_failure(b) is None),
    decreases b.len(),
{
    if b.len() == 0 {
        assert(a + b =~= a);
    } else {
        lemma_first_failure_append(a, b.drop_last());
        assert((a + b).drop_last() =~= a + b.drop_last());
        assert((a + b).last() == b.last());
    }
}

/// Whatever the reads, a reading loop that succeeds hands out the events
/// queued at the start and then exactly the events of the complete records
/// of the buffered bytes followed by everything read.
proof fn lemma_read_loop_from(p: EventParserV, reads: Seq<Seq<u8>>)
    requires
        split_records(p.buf).0 == Seq::<Seq<u8>>::empty(),
    ensures
        read_loop(p, reads) matches Some(out) ==> out == p.pending + record_events(
            split_records(p.buf + joined_reads(reads)).0,
        ),
    decreases reads.len(),
{
    if reads.len() == 0 {
        assert(p.buf + joined_reads(reads) =~= p.buf);
        assert(p.pending + Seq::<EventV>::empty() =~= p.pending);
    } else if !supply_fails(p.buf, reads[0]) {
        let r0 = reads[0];
        let rest = reads.drop_first();
        let x = p.buf + r0;
        let next = spec_feed(EventParserV { buf: p.buf, pending: Seq::empty() }, r0);
        lemma_leftover_holds_no_record(x);
        lemma_read_loop_from(next, rest);
        lemma_split_records_append(x, joined_reads(rest));
        lemma_record_events_append(
            split_records(x).0,
            split_records(split_records(x).1 + joined_reads(rest)).0,
        );
        assert(x + joined_reads(rest) =~= p.buf + joined_reads(reads));
        assert(next.pending =~= record_events(split_records(x).0));
        if let Some(out) = read_loop(p, reads) {
            assert(out =~= p.pending + record_events(split_records(p.buf + joined_reads(reads)).0));
        }
    }
}

/// Every event comes out, whatever the read boundaries: reading a stream
/// from its start, a loop that succeeds hands out exactly the events of the
/// complete records of all the bytes read, which are the events
/// [`EventParser::parse_all`] gives for the whole text.
pub proof fn lemma_read_loop_events(reads: Seq<Seq<u8>>)
    ensures
        read_loop(EventParserV { buf: Seq::empty(), pending: Seq::empty() }, reads) matches Some(out)
            ==> out == record_events(split_records(joined_reads(reads)).0),
{
    let p = EventParserV { buf: Seq::<u8>::empty(), pending: Seq::<EventV>::empty() };
    assert(split_records(p.buf).0 =~= Seq::<Seq<u8>>::empty());
    lemma_read_loop_from(p, reads);
    assert(p.buf + joined_reads(reads) =~= joined_reads(reads));
    assert(Seq::<EventV>::empty() + record_events(split_records(joined_reads(reads)).0) =~= record_events(
        split_records(joined_reads(reads)).0,
    ));
}

/// A reading loop succeeds when every record of all the bytes fed is
/// readable and what is left over after each read stays within the cap.
proof fn lemma_read_loop_succeeds_from(p: EventParserV, fed: Seq<u8>, reads: Seq<Seq<u8>>)
    requires
        p.buf == split_records(fed).1,
        first_failure(split_records(fed + joined_reads(reads)).0) is None,
        forall|i: int|
            1 <= i <= reads.len() ==> (#[trigger] split_records(fed + joined_reads(reads.take(i)))).1.len()
                <= MAX_RECORD_BYTES,
    ensures
        read_loop(p, reads) is Some,
    decreases reads.len(),
{
    if reads.len() > 0 {
        let r0 = reads[0];
        let rest = reads.drop_first();
        lemma_split_records_append(fed, r0);
        lemma_split_records_append(fed + r0, joined_reads(rest));
        assert(fed + r0 + joined_reads(rest) =~= fed + joined_reads(reads));
        lemma_first_failure_append(
            split_records(fed + r0).0,
            split_records(split_records(fed + r0).1 + joined_reads(rest)).0,
        );
        lemma_first_failure_append(split_records(fed).0, split_records(p.buf + r0).0);
        assert(reads.take(1)[0] == r0);
        assert(reads.take(1).drop_first() =~= Seq::<Seq<u8>>::empty());
        assert(joined_reads(reads.take(1)) == r0 + joined_reads(Seq::<Seq<u8>>::empty()));
        assert(joined_reads(reads.take(1)) =~= r0);
        assert(fed + joined_reads(reads.take(1)) =~= fed + r0);
        assert(split_records(fed + joined_reads(reads.take(1))).1.len() <= MAX_RECORD_BYTES);
        let next = spec_feed(EventParserV { buf: p.buf, pending: Seq::empty() }, r0);
        assert forall|i: int|
            1 <= i <= rest.len() implies (#[trigger] split_records(
            (fed + r0) + joined_reads(rest.take(i)),
        )).1.len() <= MAX_RECORD_BYTES by {
            let t = reads.take(i + 1);
            assert(t[0] == r0);
            assert(t.drop_first() =~= rest.take(i));
            assert((fed + r0) + joined_reads(rest.take(i)) =~= fed + joined_reads(t));
            assert(split_records(fed + joined_reads(reads.take(i + 1))).1.len() <= MAX_RECORD_BYTES);
        }
        lemma_read_loop_succeeds_from(next, fed + r0, rest);
    }
}

/// Reading a stream from its start succeeds whenever every record of all
/// the bytes read is readable and no read leaves more than the cap of an
/// unfinished record buffered; with [`lemma_read_loop_events`], it then
/// hands out every event of the text, whatever the read boundaries.
pub proof fn lemma_read_loop_succeeds(reads: Seq<Seq<u8>>)
    requires
        first_failure(split_records(joined_reads(reads)).0) is None,
        forall|i: int|
            1 <= i <= reads.len() ==> (#[trigger] split_records(joined_reads(reads.take(i)))).1.len()
                <= MAX_RECORD_BYTES,
    ensures
        read_loop(EventParserV { buf: Seq::empty(), pending: Seq::empty() }, reads) is Some,
{
    let fed = Seq::<u8>::empty();
    assert(split_records(fed).1 =~= fed);
    assert(fed + joined_reads(reads) =~= joined_reads(reads));
    assert forall|i: int|
        1 <= i <= reads.len() implies (#[trigger] split_records(
        fed + joined_reads(reads.take(i)),
    )).1.len() <= MAX_RECORD_BYTES by {
        assert(fed + joined_reads(reads.take(i)) =~= joined_reads(reads.take(i)));
    }
    lemma_read_loop_succeeds_from(
        EventParserV { buf: Seq::empty(), pending: Seq::empty() },
        fed,
        reads,
    );
}

// ---------------------------------------------------------------------------
// Assembling the finished message.
// ---------------------------------------------------------------------------

/// Why a stream could not be assembled into a message.
pub enum CollectFailure {
    /// The events broke the protocol, for this reason.
    Malformed(Seq<char>),
    /// A tool's accumulated input was not JSON.
    Decode,
}

/// The reason given for an event that needs a message before
/// `message_start`.
pub open spec fn before_start() -> Seq<char> {
    "event before message_start"@
}

/// The reason given for a delta to a block index that was never started.
pub open spec fn unstarted_block() -> Seq<char> {
    "delta for a block that never started"@
}

/// The reason given when the stream ends with no `message_start`.
pub open spec fn ended_before_start() -> Seq<char> {
    "stream ended before message_start"@
}

/// The reason given when the stream ends with no `message_stop`.
pub open spec fn ended_before_stop() -> Seq<char> {
    "stream ended before message_stop"@
}

/// `e` is the error reported for `f`.
pub open spec fn failure_matches(e: ClientError, f: CollectFailure) -> bool {
    match f {
        CollectFailure::Malformed(why) => e matches ClientError::Stream(ParseError::Malformed(m))
            && m@ == why,
        CollectFailure::Decode => e is Decode,
    }
}

/// A block with a delta folded in: text and thinking deltas are appended,
/// a signature delta replaces the signature; any other pairing leaves the
/// block as it was.
pub open spec fn apply_delta(b: ContentBlockV, d: DeltaV) -> ContentBlockV {
    match (b, d) {
        (ContentBlockV::Text { text }, DeltaV::TextDelta { text: t }) => ContentBlockV::Text {
            text: text + t,
        },
        (ContentBlockV::Thinking { thinking, signature }, DeltaV::ThinkingDelta { thinking: t }) =>
            ContentBlockV::Thinking { thinking: thinking + t, signature },
        (ContentBlockV::Thinking { thinking, signature: _ }, DeltaV::SignatureDelta {
            signature: s,
        }) => ContentBlockV::Thinking { thinking, signature: s },
        _ => b,
    }
}

/// A tool block with its input replaced; any other block as it was.
pub open spec fn with_input(b: ContentBlockV, input: JsonV) -> ContentBlockV {
    match b {
        ContentBlockV::ToolUse { id, name, input: _ } => ContentBlockV::ToolUse { id, name, input },
        ContentBlockV::ServerToolUse { id, name, input: _ } => ContentBlockV::ServerToolUse {
            id,
            name,
            input,
        },
        _ => b,
    }
}

/// The state of an assembly: the message so far, the tool-input fragments
/// gathered per block index, and whether `message_stop` was seen.
pub struct CollectorV {
    pub message: Option<ResponseV>,
    pub tool_json: Map<usize, Seq<char>>,
    pub stopped: bool,
}

/// The fragments gathered for block `k` so far.
pub open spec fn fragments(m: Map<usize, Seq<char>>, k: usize) -> Seq<char> {
    if m.contains_key(k) {
        m[k]
    } else {
        Seq::empty()
    }
}

/// The assembly after one more event.
pub open spec fn spec_apply(c: CollectorV, e: EventV) -> Result<CollectorV, CollectFailure> {
    match e {
        EventV::MessageStart { message } => Ok(CollectorV { message: Some(message), ..c }),
        EventV::ContentBlockStart { index: _, content_block } => match c.message {
            None => Err(CollectFailure::Malformed(before_start())),
            Some(m) => Ok(
                CollectorV {
                    message: Some(ResponseV { content: m.content.push(content_block), ..m }),
                    ..c
                },
            ),
        },
        EventV::ContentBlockDelta { index, delta } => match c.message {
            None => Err(CollectFailure::Malformed(before_start())),
            Some(m) => if (index as int) < m.content.len() {
                match delta {
                    DeltaV::InputJsonDelta { partial_json } => Ok(
                        CollectorV {
                            tool_json: c.tool_json.insert(
                                index as usize,
                                fragments(c.tool_json, index as usize) + partial_json,
                            ),
                            ..c
                        },
                    ),
                    _ => Ok(
                        CollectorV {
                            message: Some(
                                ResponseV {
                                    content: m.content.update(
                                        index as int,
                                        apply_delta(m.content[index as int], delta),
                                    ),
                                    ..m
                                },
                            ),
                            ..c
                        },
                    ),
                }
            } else {
                Err(CollectFailure::Malformed(unstarted_block()))
            },
        },
        EventV::ContentBlockStop { index } => {
            let k = index as usize;
            let rest = CollectorV { tool_json: c.tool_json.remove(k), ..c };
            if fragments(c.tool_json, k).len() == 0 {
                Ok(rest)
            } else {
                match spec_parse_json(vstd::utf8::encode_utf8(fragments(c.tool_json, k))) {
                    None => Err(CollectFailure::Decode),
                    Some(v) => match c.message {
                        None => Err(CollectFailure::Malformed(before_start())),
                        Some(m) => if (k as int) < m.content.len() {
                            Ok(
                                CollectorV {
                                    message: Some(
                                        ResponseV {
                                            content: m.content.update(
                                                k as int,
                                                with_input(m.content[k as int], v),
                                            ),
                                            ..m
                                        },
                                    ),
                                    ..rest
                                },
                            )
                        } else {
                            Ok(rest)
                        },
                    },
                }
            }
        },
        EventV::MessageDelta { delta, usage } => match c.message {
            None => Err(CollectFailure::Malformed(before_start())),
            Some(m) => Ok(
                CollectorV {
                    message: Some(
                        ResponseV {
                            stop_reason: if delta.stop_reason is Some {
                                delta.stop_reason
                            } else {
                                m.stop_reason
                            },
                            stop_sequence: if delta.stop_sequence is Some {
                                delta.stop_sequence
                            } else {
                                m.stop_sequence
                            },
                            stop_details: if delta.stop_details is Some {
                                delta.stop_details
                            } else {
                                m.stop_details
                            },
                            usage: merged(m.usage, usage),
                            ..m
                        },
                    ),
                    ..c
                },
            ),
        },
        EventV::MessageStop => Ok(CollectorV { stopped: true, ..c }),
        _ => Ok(c),
    }
}

/// The message an assembly ends with, carrying the stream's request id: an
/// error unless both `message_start` and `message_stop` were seen, so a
/// dropped connection can't masquerade as a complete response.
pub open spec fn spec_finish(c: CollectorV, request_id: Option<Seq<char>>) -> Result<
    ResponseV,
    CollectFailure,
> {
    match c.message {
        None => Err(CollectFailure::Malformed(ended_before_start())),
        Some(m) => if !c.stopped {
            Err(CollectFailure::Malformed(ended_before_stop()))
        } else {
            Ok(ResponseV { request_id, ..m })
        },
    }
}

/// A fresh assembly.
pub open spec fn empty_collector() -> CollectorV {
    CollectorV { message: None, tool_json: Map::empty(), stopped: false }
}

/// The assembly after a run of events, stopping at the first failure.
pub open spec fn spec_apply_all(c: CollectorV, events: Seq<EventV>) -> Result<
    CollectorV,
    CollectFailure,
>
    decreases events.len(),
{
    if events.len() == 0 {
        Ok(c)
    } else {
        match spec_apply_all(c, events.drop_last()) {
            Ok(c2) => spec_apply(c2, events.last()),
            Err(f) => Err(f),
        }
    }
}

/// The message a whole stream of events assembles into.
pub open spec fn spec_collect(events: Seq<EventV>, request_id: Option<Seq<char>>) -> Result<
    ResponseV,
    CollectFailure,
> {
    match spec_apply_all(empty_collector(), events) {
        Ok(c) => spec_finish(c, request_id),
        Err(f) => Err(f),
    }
}

/// Some event of `events` is a `message_start`.
pub open spec fn has_start(events: Seq<EventV>) -> bool {
    exists|i: int| 0 <= i < events.len() && #[trigger] events[i] is MessageStart
}

/// Some event of `events` is a `message_stop`.
pub open spec fn has_stop(events: Seq<EventV>) -> bool {
    exists|i: int| 0 <= i < events.len() && #[trigger] events[i] is MessageStop
}

/// One event starts the message only if it is a `message_start`, and stops
/// the stream only if it is a `message_stop`.
proof fn lemma_apply_step(c: CollectorV, e: EventV)
    ensures
        spec_apply(c, e) matches Ok(c2) ==> {
            &&& (c2.message is Some ==> c.message is Some || e is MessageStart)
            &&& (c2.stopped ==> c.stopped || e is MessageStop)
        },
{
}

/// What a run of events has started or stopped, one of them did.
proof fn lemma_apply_all_witness(c: CollectorV, events: Seq<EventV>)
    ensures
        spec_apply_all(c, events) matches Ok(c2) ==> {
            &&& (c2.message is Some ==> c.message is Some || has_start(events))
            &&& (c2.stopped ==> c.stopped || has_stop(events))
        },
    decreases events.len(),
{
    if events.len() > 0 {
        let front = events.drop_last();
        lemma_apply_all_witness(c, front);
        if let Ok(c1) = spec_apply_all(c, front) {
            lemma_apply_step(c1, events.last());
            if has_start(front) {
                let i = choose|i: int| 0 <= i < front.len() && #[trigger] front[i] is MessageStart;
                assert(events[i] == front[i]);
            }
            if has_stop(front) {
                let i = choose|i: int| 0 <= i < front.len() && #[trigger] front[i] is MessageStop;
                assert(events[i] == front[i]);
            }
            assert(events[events.len() - 1] == events.last());
        }
    }
}

/// A stream assembles into a message only if it carried both a
/// `message_start` and a `message_stop`: a dropped connection can't
/// masquerade as a complete response.
pub proof fn lemma_collect_needs_start_and_stop(events: Seq<EventV>, request_id: Option<Seq<char>>)
    requires
        spec_collect(events, request_id) is Ok,
    ensures
        has_start(events),
        has_stop(events),
{
    lemma_apply_all_witness(empty_collector(), events);
}

/// A message assembled from a stream carries the stream's request id,
/// whatever the body of its `message_start` said.
pub proof fn lemma_collect_carries_request_id(events: Seq<EventV>, request_id: Option<Seq<char>>)
    ensures
        spec_collect(events, request_id) matches Ok(m) ==> m.request_id == request_id,
{
}

/// Folds a stream's events into the complete message: the streaming
/// equivalent of a non-streaming response.
pub struct MessageCollector {
    message: Option<Response>,
    tool_json: HashMap<usize, String>,
    stopped: bool,
}

impl View for MessageCollector {
    type V = CollectorV;

    closed spec fn view(&self) -> CollectorV {
        CollectorV {
            message: match self.message {
                Some(m) => Some(m@),
                None => None,
            },
            tool_json: self.tool_json@.map_values(|s: String| s@),
            stopped: self.stopped,
        }
    }
}

/// The block `b` with the delta `d` folded in, moving its strings.
fn fold_delta(b: ContentBlock, d: Delta) -> (r: ContentBlock)
    ensures
        r@ == apply_delta(b@, d@),
{
    match (b, d) {
        (ContentBlock::Text { mut text }, Delta::TextDelta { text: t }) => {
            text.append(t.as_str());
            ContentBlock::Text { text }
        },
        (ContentBlock::Thinking { mut thinking, signature }, Delta::ThinkingDelta { thinking: t }) => {
            thinking.append(t.as_str());
            ContentBlock::Thinking { thinking, signature }
        },
        (ContentBlock::Thinking { thinking, signature: _ }, Delta::SignatureDelta { signature: s }) => {
            ContentBlock::Thinking { thinking, signature: s }
        },
        (b, _) => b,
    }
}

/// The block `b` with its tool input replaced, if it is a tool block.
fn replace_input(b: ContentBlock, v: Json) -> (r: ContentBlock)
    ensures
        r@ == with_input(b@, v@),
{
    match b {
        ContentBlock::ToolUse { id, name, input: _ } => ContentBlock::ToolUse { id, name, input: v },
        ContentBlock::ServerToolUse { id, name, input: _ } => ContentBlock::ServerToolUse {
            id,
            name,
            input: v,
        },
        other => other,
    }
}

impl MessageCollector {
    /// An assembly with nothing seen yet.
    pub fn new() -> (r: Self)
        ensures
            r@ == empty_collector(),
    {
        let r = MessageCollector { message: None, tool_json: HashMap::new(), stopped: false };
        assert(r@.tool_json =~= Map::<usize, Seq<char>>::empty());
        r
    }

    /// Folds one event in; see [`spec_apply`].
    pub fn apply(&mut self, event: Event) -> (r: Result<(), ClientError>)
        ensures
            match spec_apply(old(self)@, event@) {
                Ok(c) => r is Ok && final(self)@ == c,
                Err(f) => r matches Err(e) && failure_matches(e, f),
            },
    {
        let ghost c0 = self@;
        match event {
            Event::MessageStart { message } => {
                self.message = Some(message);
                Ok(())
            },
            Event::ContentBlockStart { index: _, content_block } => {
                match self.message.take() {
                    None => Err(ClientError::malformed("event before message_start")),
                    Some(mut m) => {
                        let ghost before = m@;
                        m.content.push(content_block);
                        assert(blocks_view(m.content) =~= before.content.push(content_block@));
                        self.message = Some(m);
                        Ok(())
                    },
                }
            },
            Event::ContentBlockDelta { index, delta } => {
                let k = index as usize;
                match self.message.take() {
                    None => Err(ClientError::malformed("event before message_start")),
                    Some(mut m) => {
                        if k >= m.content.len() {
                            return Err(ClientError::malformed("delta for a block that never started"));
                        }
                        match delta {
                            Delta::InputJsonDelta { partial_json } => {
                                let mut acc = match self.tool_json.remove(&k) {
                                    Some(s) => s,
                                    None => String::new(),
                                };
                                acc.append(partial_json.as_str());
                                self.tool_json.insert(k, acc);
                                self.message = Some(m);
                                assert(self@.tool_json =~= c0.tool_json.insert(
                                    k,
                                    fragments(c0.tool_json, k) + partial_json@,
                                ));
                                Ok(())
                            },
                            d => {
                                let ghost before = m@;
                                let b = m.content.remove(k);
                                let nb = fold_delta(b, d);
                                m.content.insert(k, nb);
                                assert(blocks_view(m.content) =~= before.content.update(
                                    k as int,
                                    apply_delta(before.content[k as int], d@),
                                ));
                                self.message = Some(m);
                                Ok(())
                            },
                        }
                    },
                }
            },
            Event::ContentBlockStop { index } => {
                let k = index as usize;
                let frag = match self.tool_json.remove(&k) {
                    Some(s) => s,
                    None => String::new(),
                };
                assert(self@.tool_json =~= c0.tool_json.remove(k));
                if frag.as_str().is_empty() {
                    return Ok(());
                }
                let v = match parse_json(frag.as_str().as_bytes()) {
                    Ok(v) => v,
                    Err(e) => return Err(ClientError::Decode(e)),
                };
                match self.message.take() {
                    None => Err(ClientError::malformed("event before message_start")),
                    Some(mut m) => {
                        if k < m.content.len() {
                            let ghost before = m@;
                            let b = m.content.remove(k);
                            let nb = replace_input(b, v);
                            m.content.insert(k, nb);
                            assert(blocks_view(m.content) =~= before.content.update(
                                k as int,
                                with_input(before.content[k as int], v@),
                            ));
                        }
                        self.message = Some(m);
                        Ok(())
                    },
                }
            },
            Event::MessageDelta { delta, usage } => {
                match self.message.take() {
                    None => Err(ClientError::malformed("event before message_start")),
                    Some(mut m) => {
                        if delta.stop_reason.is_some() {
                            m.stop_reason = delta.stop_reason;
                        }
                        if delta.stop_sequence.is_some() {
                            m.stop_sequence = delta.stop_sequence;
                        }
                        if delta.stop_details.is_some() {
                            m.stop_details = delta.stop_details;
                        }
                        m.usage.merge(&usage);
                        self.message = Some(m);
                        Ok(())
                    },
                }
            },
            Event::MessageStop => {
                self.stopped = true;
                Ok(())
            },
            _ => Ok(()),
        }
    }

    /// The assembled message, carrying the stream's request id; see
    /// [`spec_finish`].
    pub fn finish(self, request_id: Option<String>) -> (r: Result<Response, ClientError>)
        ensures
            match spec_finish(self@, opt_str_view(request_id)) {
                Ok(m) => r matches Ok(x) && x@ == m,
                Err(f) => r matches Err(e) && failure_matches(e, f),
            },
    {
        match self.message {
            None => Err(ClientError::malformed("stream ended before message_start")),
            Some(m) => {
                if !self.stopped {
                    return Err(ClientError::malformed("stream ended before message_stop"));
                }
                Ok(Response { request_id, ..m })
            },
        }
    }
}

} // verus!
