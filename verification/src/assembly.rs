//! Laws of assembling a streamed message over whole runs of events: what
//! [`MessageCollector`](crate::stream::MessageCollector) makes of a stream,
//! stated event run by event run rather than one event at a time.
use vstd::prelude::*;
use crate::event::{ContentBlockV, DeltaV, EventV, MessageDeltaV, Usage, merged};
use crate::json::spec_parse_json;
use crate::response::ResponseV;
use crate::stream::{
    CollectFailure, CollectorV, apply_delta, before_start, empty_collector, fragments, has_start,
    has_stop, lemma_collect_needs_start_and_stop, spec_apply_all, spec_collect, with_input,
};

verus! {

// ---------------------------------------------------------------------------
// A message must be started before anything is added to it.
// ---------------------------------------------------------------------------

/// An event that adds to the message, and so needs it started.
pub open spec fn needs_message(e: EventV) -> bool {
    e is ContentBlockStart || e is ContentBlockDelta || e is MessageDelta
}

/// Every event that adds to the message comes after a `message_start`.
pub open spec fn starts_first(events: Seq<EventV>) -> bool {
    forall|i: int|
        0 <= i < events.len() && #[trigger] needs_message(events[i]) ==> has_start(
            events.take(i),
        )
}

/// With no `message_start` yet, an assembly holds no message and no tool
/// input, or has failed for want of the message.
proof fn lemma_no_start_yet(events: Seq<EventV>)
    requires
        !has_start(events),
    ensures
        match spec_apply_all(empty_collector(), events) {
            Ok(c) => c.message is None && c.tool_json == Map::<usize, Seq<char>>::empty(),
            Err(f) => f == CollectFailure::Malformed(before_start()),
        },
    decreases events.len(),
{
    if events.len() > 0 {
        let front = events.drop_last();
        assert(!has_start(front)) by {
            if has_start(front) {
                let i = choose|i: int| 0 <= i < front.len() && #[trigger] front[i] is MessageStart;
                assert(events[i] == front[i]);
            }
        }
        assert(!(events.last() is MessageStart)) by {
            assert(events[events.len() - 1] == events.last());
        }
        lemma_no_start_yet(front);
        if let Ok(c) = spec_apply_all(empty_collector(), front) {
            if let EventV::ContentBlockStop { index } = events.last() {
                assert(c.tool_json.remove(index as usize) =~= Map::<usize, Seq<char>>::empty());
            }
        }
    }
}

/// Once an assembly has failed, the events after do not change the failure.
proof fn lemma_failure_persists(c: CollectorV, events: Seq<EventV>, k: int)
    requires
        0 <= k <= events.len(),
        spec_apply_all(c, events.take(k)) is Err,
    ensures
        spec_apply_all(c, events) == spec_apply_all(c, events.take(k)),
    decreases events.len() - k,
{
    if k < events.len() {
        assert(events.take(k + 1).drop_last() =~= events.take(k));
        lemma_failure_persists(c, events, k + 1);
    } else {
        assert(events.take(k) =~= events);
    }
}

/// A stream with an event that adds to the message before any
/// `message_start` fails with "event before message_start".
pub proof fn lemma_event_before_start_fails(events: Seq<EventV>, request_id: Option<Seq<char>>)
    requires
        !starts_first(events),
    ensures
        spec_collect(events, request_id) == Err::<ResponseV, CollectFailure>(
            CollectFailure::Malformed(before_start()),
        ),
{
    let i = choose|i: int|
        0 <= i < events.len() && #[trigger] needs_message(events[i]) && !has_start(
            events.take(i),
        );
    lemma_no_start_yet(events.take(i));
    assert(events.take(i + 1).drop_last() =~= events.take(i));
    assert(events.take(i + 1).last() == events[i]);
    lemma_failure_persists(empty_collector(), events, i + 1);
}

/// A stream assembles into a message only if a `message_start` came before
/// every event that adds to the message, and a `message_stop` came too.
pub proof fn lemma_collect_success_order(events: Seq<EventV>, request_id: Option<Seq<char>>)
    requires
        spec_collect(events, request_id) is Ok,
    ensures
        starts_first(events),
        has_start(events),
        has_stop(events),
{
    if !starts_first(events) {
        lemma_event_before_start_fails(events, request_id);
    }
    lemma_collect_needs_start_and_stop(events, request_id);
}

// ---------------------------------------------------------------------------
// Deltas to one block are folded in, first to last.
// ---------------------------------------------------------------------------

/// A run of `content_block_delta` events for block `k`.
pub open spec fn delta_events(k: u32, ds: Seq<DeltaV>) -> Seq<EventV> {
    Seq::new(ds.len(), |j: int| EventV::ContentBlockDelta { index: k, delta: ds[j] })
}

/// A block with a run of deltas folded in, first to last.
pub open spec fn fold_deltas(b: ContentBlockV, ds: Seq<DeltaV>) -> ContentBlockV
    decreases ds.len(),
{
    if ds.len() == 0 {
        b
    } else {
        apply_delta(fold_deltas(b, ds.drop_last()), ds.last())
    }
}

/// The text of a run's text deltas, joined in order.
pub open spec fn text_appended(ds: Seq<DeltaV>) -> Seq<char>
    decreases ds.len(),
{
    if ds.len() == 0 {
        Seq::empty()
    } else {
        text_appended(ds.drop_last()) + match ds.last() {
            DeltaV::TextDelta { text } => text,
            _ => Seq::empty(),
        }
    }
}

/// The text of a run's thinking deltas, joined in order.
pub open spec fn thinking_appended(ds: Seq<DeltaV>) -> Seq<char>
    decreases ds.len(),
{
    if ds.len() == 0 {
        Seq::empty()
    } else {
        thinking_appended(ds.drop_last()) + match ds.last() {
            DeltaV::ThinkingDelta { thinking } => thinking,
            _ => Seq::empty(),
        }
    }
}

/// The signature after a run: the last signature delta's, else `s`.
pub open spec fn last_signature(s: Seq<char>, ds: Seq<DeltaV>) -> Seq<char>
    decreases ds.len(),
{
    if ds.len() == 0 {
        s
    } else {
        match ds.last() {
            DeltaV::SignatureDelta { signature } => signature,
            _ => last_signature(s, ds.drop_last()),
        }
    }
}

/// A run of deltas to a started block, none of them tool input, folds them
/// into that block in order and changes nothing else.
pub proof fn lemma_delta_run(c: CollectorV, k: u32, ds: Seq<DeltaV>)
    requires
        c.message is Some,
        (k as int) < c.message->0.content.len(),
        forall|j: int| 0 <= j < ds.len() ==> !(#[trigger] ds[j] is InputJsonDelta),
    ensures
        spec_apply_all(c, delta_events(k, ds)) == Ok::<CollectorV, CollectFailure>(
            CollectorV {
                message: Some(
                    ResponseV {
                        content: c.message->0.content.update(
                            k as int,
                            fold_deltas(c.message->0.content[k as int], ds),
                        ),
                        ..c.message->0
                    },
                ),
                ..c
            },
        ),
    decreases ds.len(),
{
    let m = c.message->0;
    if ds.len() == 0 {
        assert(m.content.update(k as int, m.content[k as int]) =~= m.content);
        assert(ResponseV { content: m.content, ..m } == m);
    } else {
        let front = ds.drop_last();
        assert forall|j: int| 0 <= j < front.len() implies !(#[trigger] front[j] is InputJsonDelta) by {
            assert(front[j] == ds[j]);
        }
        lemma_delta_run(c, k, front);
        assert(delta_events(k, ds).drop_last() =~= delta_events(k, front));
        assert(delta_events(k, ds).last() == EventV::ContentBlockDelta { index: k, delta: ds.last() });
        assert(ds[ds.len() - 1] == ds.last());
        let content1 = m.content.update(k as int, fold_deltas(m.content[k as int], front));
        assert(content1.update(k as int, apply_delta(content1[k as int], ds.last())) =~= m.content.update(
            k as int,
            fold_deltas(m.content[k as int], ds),
        ));
    }
}

/// Text deltas are appended to a text block in the order they arrive.
pub proof fn lemma_fold_text(t: Seq<char>, ds: Seq<DeltaV>)
    ensures
        fold_deltas(ContentBlockV::Text { text: t }, ds) == (ContentBlockV::Text {
            text: t + text_appended(ds),
        }),
    decreases ds.len(),
{
    if ds.len() == 0 {
        assert(t + Seq::<char>::empty() =~= t);
    } else {
        lemma_fold_text(t, ds.drop_last());
        match ds.last() {
            DeltaV::TextDelta { text } => {
                assert(t + text_appended(ds.drop_last()) + text =~= t + (text_appended(
                    ds.drop_last(),
                ) + text));
            },
            _ => {
                assert(text_appended(ds.drop_last()) + Seq::<char>::empty() =~= text_appended(
                    ds.drop_last(),
                ));
            },
        }
    }
}

/// Thinking deltas are appended to a thinking block in the order they
/// arrive, and the last signature delta gives its signature.
pub proof fn lemma_fold_thinking(t: Seq<char>, s: Seq<char>, ds: Seq<DeltaV>)
    ensures
        fold_deltas(ContentBlockV::Thinking { thinking: t, signature: s }, ds) == (
        ContentBlockV::Thinking { thinking: t + thinking_appended(ds), signature: last_signature(s, ds) }),
    decreases ds.len(),
{
    if ds.len() == 0 {
        assert(t + Seq::<char>::empty() =~= t);
    } else {
        lemma_fold_thinking(t, s, ds.drop_last());
        match ds.last() {
            DeltaV::ThinkingDelta { thinking } => {
                assert(t + thinking_appended(ds.drop_last()) + thinking =~= t + (thinking_appended(
                    ds.drop_last(),
                ) + thinking));
            },
            _ => {
                assert(thinking_appended(ds.drop_last()) + Seq::<char>::empty() =~= thinking_appended(
                    ds.drop_last(),
                ));
            },
        }
    }
}

// ---------------------------------------------------------------------------
// A tool's input is its fragments, joined and parsed.
// ---------------------------------------------------------------------------

/// A run of `input_json_delta` events for block `k`, with these fragments.
pub open spec fn input_events(k: u32, fs: Seq<Seq<char>>) -> Seq<EventV> {
    Seq::new(
        fs.len(),
        |j: int| EventV::ContentBlockDelta { index: k, delta: DeltaV::InputJsonDelta { partial_json: fs[j] } },
    )
}

/// Fragments joined in order.
pub open spec fn joined_text(fs: Seq<Seq<char>>) -> Seq<char>
    decreases fs.len(),
{
    if fs.len() == 0 {
        Seq::empty()
    } else {
        joined_text(fs.drop_last()) + fs.last()
    }
}

/// A run of tool-input fragments for a started block is gathered behind
/// what that block had gathered, in order; nothing else changes.
proof fn lemma_input_run(c: CollectorV, k: u32, fs: Seq<Seq<char>>)
    requires
        c.message is Some,
        (k as int) < c.message->0.content.len(),
        fs.len() > 0,
    ensures
        spec_apply_all(c, input_events(k, fs)) == Ok::<CollectorV, CollectFailure>(
            CollectorV {
                tool_json: c.tool_json.insert(
                    k as usize,
                    fragments(c.tool_json, k as usize) + joined_text(fs),
                ),
                ..c
            },
        ),
    decreases fs.len(),
{
    let front = fs.drop_last();
    assert(input_events(k, fs).drop_last() =~= input_events(k, front));
    assert(fs[fs.len() - 1] == fs.last());
    let a = fragments(c.tool_json, k as usize);
    if fs.len() == 1 {
        assert(input_events(k, front) =~= Seq::<EventV>::empty());
        assert(joined_text(front) =~= Seq::<char>::empty());
        assert(a + (Seq::<char>::empty() + fs.last()) =~= a + fs.last());
    } else {
        lemma_input_run(c, k, front);
        let t1 = c.tool_json.insert(k as usize, a + joined_text(front));
        assert(fragments(t1, k as usize) == a + joined_text(front));
        assert(a + joined_text(front) + fs.last() =~= a + (joined_text(front) + fs.last()));
        assert(t1.insert(k as usize, a + joined_text(fs)) =~= c.tool_json.insert(
            k as usize,
            a + joined_text(fs),
        ));
    }
}

/// A tool block's input, once the block stops, is what serde_json reads
/// from all its fragments joined (with any gathered before), or the
/// assembly fails with a decode error when they are not JSON; with no text
/// gathered the block is left as it was.
pub proof fn lemma_tool_input_is_its_fragments(c: CollectorV, k: u32, fs: Seq<Seq<char>>)
    requires
        c.message is Some,
        (k as int) < c.message->0.content.len(),
        fs.len() > 0,
    ensures
        ({
            let m = c.message->0;
            let whole = fragments(c.tool_json, k as usize) + joined_text(fs);
            let after = CollectorV { tool_json: c.tool_json.remove(k as usize), ..c };
            spec_apply_all(c, input_events(k, fs).push(EventV::ContentBlockStop { index: k }))
                == if whole.len() == 0 {
                Ok::<CollectorV, CollectFailure>(after)
            } else {
                match spec_parse_json(vstd::utf8::encode_utf8(whole)) {
                    None => Err::<CollectorV, CollectFailure>(CollectFailure::Decode),
                    Some(v) => Ok(
                        CollectorV {
                            message: Some(
                                ResponseV {
                                    content: m.content.update(
                                        k as int,
                                        with_input(m.content[k as int], v),
                                    ),
                                    ..m
                                },
                            ),
                            ..after
                        },
                    ),
                }
            }
        }),
{
    lemma_input_run(c, k, fs);
    let evs = input_events(k, fs).push(EventV::ContentBlockStop { index: k });
    assert(evs.drop_last() =~= input_events(k, fs));
    let whole = fragments(c.tool_json, k as usize) + joined_text(fs);
    let t1 = c.tool_json.insert(k as usize, whole);
    assert(t1.remove(k as usize) =~= c.tool_json.remove(k as usize));
}

// ---------------------------------------------------------------------------
// Message deltas: the last stop fields given win, usage reports are merged.
// ---------------------------------------------------------------------------

/// A run of `message_delta` events, each a delta and its usage report.
pub open spec fn message_delta_events(ds: Seq<(MessageDeltaV, Usage)>) -> Seq<EventV> {
    Seq::new(ds.len(), |j: int| EventV::MessageDelta { delta: ds[j].0, usage: ds[j].1 })
}

/// The last value given in a run, else `init`.
pub open spec fn last_given<T>(init: Option<T>, vals: Seq<Option<T>>) -> Option<T>
    decreases vals.len(),
{
    if vals.len() == 0 {
        init
    } else if vals.last() is Some {
        vals.last()
    } else {
        last_given(init, vals.drop_last())
    }
}

/// `u` with a run of later usage reports merged in, in order.
pub open spec fn merged_all(u: Usage, us: Seq<Usage>) -> Usage
    decreases us.len(),
{
    if us.len() == 0 {
        u
    } else {
        merged(merged_all(u, us.drop_last()), us.last())
    }
}

/// A message after a run of message deltas: each stop field is the last
/// one given (else the message's own), and the usage reports are merged in
/// order.
pub open spec fn after_message_deltas(m: ResponseV, ds: Seq<(MessageDeltaV, Usage)>) -> ResponseV {
    ResponseV {
        stop_reason: last_given(m.stop_reason, Seq::new(ds.len(), |j: int| ds[j].0.stop_reason)),
        stop_sequence: last_given(
            m.stop_sequence,
            Seq::new(ds.len(), |j: int| ds[j].0.stop_sequence),
        ),
        stop_details: last_given(m.stop_details, Seq::new(ds.len(), |j: int| ds[j].0.stop_details)),
        usage: merged_all(m.usage, Seq::new(ds.len(), |j: int| ds[j].1)),
        ..m
    }
}

/// A run of message deltas to a started message keeps the last stop fields
/// given and merges the usage reports in order; nothing else changes.
pub proof fn lemma_message_delta_run(c: CollectorV, ds: Seq<(MessageDeltaV, Usage)>)
    requires
        c.message is Some,
    ensures
        spec_apply_all(c, message_delta_events(ds)) == Ok::<CollectorV, CollectFailure>(
            CollectorV { message: Some(after_message_deltas(c.message->0, ds)), ..c },
        ),
    decreases ds.len(),
{
    let m = c.message->0;
    if ds.len() == 0 {
        assert(after_message_deltas(m, ds) == m);
    } else {
        let front = ds.drop_last();
        lemma_message_delta_run(c, front);
        assert(message_delta_events(ds).drop_last() =~= message_delta_events(front));
        assert(ds[ds.len() - 1] == ds.last());
        assert(Seq::new(ds.len(), |j: int| ds[j].0.stop_reason).drop_last() =~= Seq::new(
            front.len(),
            |j: int| front[j].0.stop_reason,
        ));
        assert(Seq::new(ds.len(), |j: int| ds[j].0.stop_sequence).drop_last() =~= Seq::new(
            front.len(),
            |j: int| front[j].0.stop_sequence,
        ));
        assert(Seq::new(ds.len(), |j: int| ds[j].0.stop_details).drop_last() =~= Seq::new(
            front.len(),
            |j: int| front[j].0.stop_details,
        ));
        assert(Seq::new(ds.len(), |j: int| ds[j].1).drop_last() =~= Seq::new(
            front.len(),
            |j: int| front[j].1,
        ));
    }
}

// ---------------------------------------------------------------------------
// The same laws with other events in between.
// ---------------------------------------------------------------------------

/// Assembling two runs one after the other is assembling the first, then
/// the second from where the first left off.
pub proof fn lemma_apply_all_concat(c: CollectorV, a: Seq<EventV>, b: Seq<EventV>)
    ensures
        spec_apply_all(c, a + b) == match spec_apply_all(c, a) {
            Ok(c1) => spec_apply_all(c1, b),
            Err(f) => Err(f),
        },
    decreases b.len(),
{
    if b.len() == 0 {
        assert(a + b =~= a);
    } else {
        lemma_apply_all_concat(c, a, b.drop_last());
        assert((a + b).drop_last() =~= a + b.drop_last());
        assert((a + b).last() == b.last());
    }
}

/// The deltas among `events` that fold into block `k`'s text: those
/// addressed to `k` that are not tool input, in order.
pub open spec fn deltas_to(k: u32, events: Seq<EventV>) -> Seq<DeltaV>
    decreases events.len(),
{
    if events.len() == 0 {
        Seq::empty()
    } else {
        let prev = deltas_to(k, events.drop_last());
        match events.last() {
            EventV::ContentBlockDelta { index, delta } => if index == k && !(delta is InputJsonDelta) {
                prev.push(delta)
            } else {
                prev
            },
            _ => prev,
        }
    }
}

/// A text or thinking block keeps its kind whatever deltas are folded in.
proof fn lemma_fold_keeps_kind(b: ContentBlockV, ds: Seq<DeltaV>)
    requires
        b is Text || b is Thinking,
    ensures
        b is Text ==> fold_deltas(b, ds) is Text,
        b is Thinking ==> fold_deltas(b, ds) is Thinking,
{
    match b {
        ContentBlockV::Text { text } => lemma_fold_text(text, ds),
        ContentBlockV::Thinking { thinking, signature } => lemma_fold_thinking(thinking, signature, ds),
        _ => {},
    }
}

/// With other events in between (but no new `message_start`), a text or
/// thinking block ends as its deltas folded in, in the order they arrived;
/// so, by [`lemma_fold_text`] and [`lemma_fold_thinking`], its text is the
/// starting text followed by every text (or thinking) delta in order, and
/// its signature is the last signature delta's.
pub proof fn lemma_block_deltas_interleaved(c: CollectorV, k: u32, events: Seq<EventV>)
    requires
        c.message is Some,
        (k as int) < c.message->0.content.len(),
        c.message->0.content[k as int] is Text || c.message->0.content[k as int] is Thinking,
        !has_start(events),
        spec_apply_all(c, events) is Ok,
    ensures
        spec_apply_all(c, events)->Ok_0.message is Some,
        (k as int) < spec_apply_all(c, events)->Ok_0.message->0.content.len(),
        spec_apply_all(c, events)->Ok_0.message->0.content[k as int] == fold_deltas(
            c.message->0.content[k as int],
            deltas_to(k, events),
        ),
    decreases events.len(),
{
    let b0 = c.message->0.content[k as int];
    if events.len() == 0 {
    } else {
        let front = events.drop_last();
        assert(!has_start(front)) by {
            if has_start(front) {
                let i = choose|i: int| 0 <= i < front.len() && #[trigger] front[i] is MessageStart;
                assert(events[i] == front[i]);
            }
        }
        assert(!(events.last() is MessageStart)) by {
            assert(events[events.len() - 1] == events.last());
        }
        assert(spec_apply_all(c, front) is Ok);
        lemma_block_deltas_interleaved(c, k, front);
        let c1 = spec_apply_all(c, front)->Ok_0;
        let m1 = c1.message->0;
        let ds = deltas_to(k, front);
        lemma_fold_keeps_kind(b0, ds);
        match events.last() {
            EventV::ContentBlockDelta { index, delta } => {
                if index == k && !(delta is InputJsonDelta) {
                    assert(ds.push(delta).drop_last() =~= ds);
                }
            },
            _ => {},
        }
    }
}

/// The tool-input fragments among `events` addressed to block `k`, joined
/// in order.
pub open spec fn input_to(k: u32, events: Seq<EventV>) -> Seq<char>
    decreases events.len(),
{
    if events.len() == 0 {
        Seq::empty()
    } else {
        let prev = input_to(k, events.drop_last());
        match events.last() {
            EventV::ContentBlockDelta { index, delta: DeltaV::InputJsonDelta { partial_json } } =>
                if index == k {
                prev + partial_json
            } else {
                prev
            },
            _ => prev,
        }
    }
}

/// Some event of `events` stops block `k`.
pub open spec fn stops_block(k: u32, events: Seq<EventV>) -> bool {
    exists|i: int|
        0 <= i < events.len() && #[trigger] events[i] == (EventV::ContentBlockStop { index: k })
}

/// With other events in between (but no new `message_start` and no stop of
/// the block), a tool block is left as it is while its input fragments are
/// gathered, in order, behind what it had gathered.
proof fn lemma_tool_fragments_interleaved(c: CollectorV, k: u32, events: Seq<EventV>)
    requires
        c.message is Some,
        (k as int) < c.message->0.content.len(),
        c.message->0.content[k as int] is ToolUse || c.message->0.content[k as int] is ServerToolUse,
        !has_start(events),
        !stops_block(k, events),
        spec_apply_all(c, events) is Ok,
    ensures
        spec_apply_all(c, events)->Ok_0.message is Some,
        (k as int) < spec_apply_all(c, events)->Ok_0.message->0.content.len(),
        spec_apply_all(c, events)->Ok_0.message->0.content[k as int] == c.message->0.content[k as int],
        fragments(spec_apply_all(c, events)->Ok_0.tool_json, k as usize) == fragments(
            c.tool_json,
            k as usize,
        ) + input_to(k, events),
    decreases events.len(),
{
    if events.len() == 0 {
        assert(fragments(c.tool_json, k as usize) + Seq::<char>::empty() =~= fragments(
            c.tool_json,
            k as usize,
        ));
    } else {
        let front = events.drop_last();
        assert(!has_start(front)) by {
            if has_start(front) {
                let i = choose|i: int| 0 <= i < front.len() && #[trigger] front[i] is MessageStart;
                assert(events[i] == front[i]);
            }
        }
        assert(!stops_block(k, front)) by {
            if stops_block(k, front) {
                let i = choose|i: int|
                    0 <= i < front.len() && #[trigger] front[i] == (EventV::ContentBlockStop {
                        index: k,
                    });
                assert(events[i] == front[i]);
            }
        }
        assert(events[events.len() - 1] == events.last());
        assert(!(events.last() is MessageStart));
        assert(events.last() != (EventV::ContentBlockStop { index: k }));
        assert(spec_apply_all(c, front) is Ok);
        lemma_tool_fragments_interleaved(c, k, front);
        let c1 = spec_apply_all(c, front)->Ok_0;
        let a = fragments(c.tool_json, k as usize);
        match events.last() {
            EventV::ContentBlockDelta { index, delta: DeltaV::InputJsonDelta { partial_json } } => {
                if index == k {
                    assert(a + input_to(k, front) + partial_json =~= a + (input_to(k, front)
                        + partial_json));
                }
            },
            _ => {},
        }
    }
}

/// With other events in between (but no new `message_start`), a tool
/// block's input, once the block stops, is what serde_json reads from all
/// the fragments addressed to it joined in order (behind any gathered
/// before), or the assembly fails with a decode error when they are not
/// JSON; with no text gathered the block is left as it was.
pub proof fn lemma_tool_input_interleaved(c: CollectorV, k: u32, events: Seq<EventV>)
    requires
        c.message is Some,
        (k as int) < c.message->0.content.len(),
        c.message->0.content[k as int] is ToolUse || c.message->0.content[k as int] is ServerToolUse,
        !has_start(events),
        !stops_block(k, events),
        spec_apply_all(c, events) is Ok,
    ensures
        ({
            let c1 = spec_apply_all(c, events)->Ok_0;
            let m1 = c1.message->0;
            let whole = fragments(c.tool_json, k as usize) + input_to(k, events);
            let after = CollectorV { tool_json: c1.tool_json.remove(k as usize), ..c1 };
            spec_apply_all(c, events.push(EventV::ContentBlockStop { index: k })) == if whole.len()
                == 0 {
                Ok::<CollectorV, CollectFailure>(after)
            } else {
                match spec_parse_json(vstd::utf8::encode_utf8(whole)) {
                    None => Err::<CollectorV, CollectFailure>(CollectFailure::Decode),
                    Some(v) => Ok(
                        CollectorV {
                            message: Some(
                                ResponseV {
                                    content: m1.content.update(
                                        k as int,
                                        with_input(c.message->0.content[k as int], v),
                                    ),
                                    ..m1
                                },
                            ),
                            ..after
                        },
                    ),
                }
            }
        }),
{
    lemma_tool_fragments_interleaved(c, k, events);
    assert(events.push(EventV::ContentBlockStop { index: k }).drop_last() =~= events);
}

/// The message deltas among `events`, each with its usage report, in order.
pub open spec fn message_deltas_in(events: Seq<EventV>) -> Seq<(MessageDeltaV, Usage)>
    decreases events.len(),
{
    if events.len() == 0 {
        Seq::empty()
    } else {
        let prev = message_deltas_in(events.drop_last());
        match events.last() {
            EventV::MessageDelta { delta, usage } => prev.push((delta, usage)),
            _ => prev,
        }
    }
}

/// One more message delta after a run: its stop fields win where given,
/// and its usage is merged in last.
proof fn lemma_after_one_more(m: ResponseV, ds: Seq<(MessageDeltaV, Usage)>, x: (MessageDeltaV, Usage))
    ensures
        ({
            let before = after_message_deltas(m, ds);
            let now = after_message_deltas(m, ds.push(x));
            &&& now.stop_reason == (if x.0.stop_reason is Some {
                x.0.stop_reason
            } else {
                before.stop_reason
            })
            &&& now.stop_sequence == (if x.0.stop_sequence is Some {
                x.0.stop_sequence
            } else {
                before.stop_sequence
            })
            &&& now.stop_details == (if x.0.stop_details is Some {
                x.0.stop_details
            } else {
                before.stop_details
            })
            &&& now.usage == merged(before.usage, x.1)
        }),
{
    let e = ds.push(x);
    assert(e[e.len() - 1] == x);
    assert(Seq::new(e.len(), |j: int| e[j].0.stop_reason).drop_last() =~= Seq::new(
        ds.len(),
        |j: int| ds[j].0.stop_reason,
    ));
    assert(Seq::new(e.len(), |j: int| e[j].0.stop_sequence).drop_last() =~= Seq::new(
        ds.len(),
        |j: int| ds[j].0.stop_sequence,
    ));
    assert(Seq::new(e.len(), |j: int| e[j].0.stop_details).drop_last() =~= Seq::new(
        ds.len(),
        |j: int| ds[j].0.stop_details,
    ));
    assert(Seq::new(e.len(), |j: int| e[j].1).drop_last() =~= Seq::new(ds.len(), |j: int| ds[j].1));
}

/// With other events in between (but no new `message_start`), each stop
/// field ends as the last one given by a message delta (else the message's
/// own), and the usage as the message's with every report merged in order.
pub proof fn lemma_message_deltas_interleaved(c: CollectorV, events: Seq<EventV>)
    requires
        c.message is Some,
        !has_start(events),
        spec_apply_all(c, events) is Ok,
    ensures
        ({
            let m2 = spec_apply_all(c, events)->Ok_0.message->0;
            let want = after_message_deltas(c.message->0, message_deltas_in(events));
            &&& spec_apply_all(c, events)->Ok_0.message is Some
            &&& m2.stop_reason == want.stop_reason
            &&& m2.stop_sequence == want.stop_sequence
            &&& m2.stop_details == want.stop_details
            &&& m2.usage == want.usage
        }),
    decreases events.len(),
{
    if events.len() == 0 {
        assert(after_message_deltas(c.message->0, Seq::empty()) == c.message->0);
    } else {
        let front = events.drop_last();
        assert(!has_start(front)) by {
            if has_start(front) {
                let i = choose|i: int| 0 <= i < front.len() && #[trigger] front[i] is MessageStart;
                assert(events[i] == front[i]);
            }
        }
        assert(!(events.last() is MessageStart)) by {
            assert(events[events.len() - 1] == events.last());
        }
        assert(spec_apply_all(c, front) is Ok);
        lemma_message_deltas_interleaved(c, front);
        if let EventV::MessageDelta { delta, usage } = events.last() {
            lemma_after_one_more(c.message->0, message_deltas_in(front), (delta, usage));
        }
    }
}

/// A tool block started at the end of the message, then given input
/// fragments that join to JSON text, ends when it stops as the same kind of
/// tool block with the same id and name and with that text, parsed, as its
/// input; text that is not JSON fails the assembly with a decode error.
/// This holds alike for `tool_use` and `server_tool_use` blocks.
pub proof fn lemma_started_tool_block_gets_its_input(
    c: CollectorV,
    k: u32,
    block: ContentBlockV,
    fs: Seq<Seq<char>>,
)
    requires
        c.message is Some,
        k as int == c.message->0.content.len(),
        !c.tool_json.contains_key(k as usize),
        fs.len() > 0,
        joined_text(fs).len() > 0,
    ensures
        ({
            let events = seq![EventV::ContentBlockStart { index: k, content_block: block }] + input_events(
                k,
                fs,
            ).push(EventV::ContentBlockStop { index: k });
            let r = spec_apply_all(c, events);
            match spec_parse_json(vstd::utf8::encode_utf8(joined_text(fs))) {
                None => r == Err::<CollectorV, CollectFailure>(CollectFailure::Decode),
                Some(v) => {
                    &&& r is Ok
                    &&& r->Ok_0.message is Some
                    &&& r->Ok_0.message->0.content.len() == k + 1
                    &&& block matches ContentBlockV::ToolUse { id, name, input: _ } ==> r->Ok_0.message->0.content[k as int]
                        == (ContentBlockV::ToolUse { id, name, input: v })
                    &&& block matches ContentBlockV::ServerToolUse { id, name, input: _ } ==> r->Ok_0.message->0.content[k as int]
                        == (ContentBlockV::ServerToolUse { id, name, input: v })
                },
            }
        }),
{
    let start = seq![EventV::ContentBlockStart { index: k, content_block: block }];
    let rest = input_events(k, fs).push(EventV::ContentBlockStop { index: k });
    lemma_apply_all_concat(c, start, rest);
    assert(start.drop_last() =~= Seq::<EventV>::empty());
    assert(start.last() == EventV::ContentBlockStart { index: k, content_block: block });
    let m = c.message->0;
    let c1 = CollectorV { message: Some(ResponseV { content: m.content.push(block), ..m }), ..c };
    assert(spec_apply_all(c, start.drop_last()) == Ok::<CollectorV, CollectFailure>(c));
    assert(spec_apply_all(c, start) == Ok::<CollectorV, CollectFailure>(c1));
    assert(fragments(c1.tool_json, k as usize) == Seq::<char>::empty());
    lemma_tool_input_is_its_fragments(c1, k, fs);
    assert(Seq::<char>::empty() + joined_text(fs) =~= joined_text(fs));
}

/// Starting blocks adds them after the blocks already there, in the order
/// they start, whatever index the events name; nothing else changes.
pub proof fn lemma_started_blocks_append(c: CollectorV, starts: Seq<(u32, ContentBlockV)>)
    requires
        c.message is Some,
    ensures
        spec_apply_all(
            c,
            Seq::new(
                starts.len(),
                |i: int| EventV::ContentBlockStart { index: starts[i].0, content_block: starts[i].1 },
            ),
        ) == Ok::<CollectorV, CollectFailure>(
            CollectorV {
                message: Some(
                    ResponseV {
                        content: c.message->0.content + Seq::new(starts.len(), |i: int| starts[i].1),
                        ..c.message->0
                    },
                ),
                ..c
            },
        ),
    decreases starts.len(),
{
    let m = c.message->0;
    if starts.len() == 0 {
        assert(m.content + Seq::new(0, |i: int| starts[i].1) =~= m.content);
    } else {
        let front = starts.drop_last();
        lemma_started_blocks_append(c, front);
        let evs = Seq::new(
            starts.len(),
            |i: int| EventV::ContentBlockStart { index: starts[i].0, content_block: starts[i].1 },
        );
        assert(evs.drop_last() =~= Seq::new(
            front.len(),
            |i: int| EventV::ContentBlockStart { index: front[i].0, content_block: front[i].1 },
        ));
        assert(evs.last() == EventV::ContentBlockStart {
            index: starts.last().0,
            content_block: starts.last().1,
        });
        assert((m.content + Seq::new(front.len(), |i: int| front[i].1)).push(starts.last().1)
            =~= m.content + Seq::new(starts.len(), |i: int| starts[i].1));
    }
}

} // verus!
