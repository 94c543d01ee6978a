//! Incremental parsing of the Messages API server-sent event stream.
//!
//! Bytes are buffered as they arrive; a record ends at the first blank line,
//! that is, at two line terminators in a row, where a terminator is `\n`,
//! `\r\n` or a lone `\r`. Each complete record is decoded and its `data`
//! lines, joined, are read as one [`Event`].
use vstd::prelude::*;
use crate::event::{Event, EventV, ParseError, spec_event, decode_event};
use crate::json::{parse_json, spec_parse_json};
use std::collections::VecDeque;
use vstd::string::StringSliceAdditionalSpecFns;

verus! {

/// std's UTF-8 error type, carried through this crate opaquely.
#[verifier::external_type_specification]
#[verifier::external_body]
pub struct ExUtf8Error(std::str::Utf8Error);

/// Checks `bytes` with `std::str::from_utf8`. Trusted: std documents that it
/// succeeds exactly when the bytes are valid UTF-8, which is vstd's
/// `valid_utf8`.
#[verifier::external_body]
fn check_utf8(bytes: &[u8]) -> (r: Result<(), std::str::Utf8Error>)
    ensures
        r is Ok <==> vstd::utf8::valid_utf8(bytes@),
{
    std::str::from_utf8(bytes).map(|_| ())
}

/// `\n`.
pub open spec fn lf() -> u8 {
    10u8
}

/// `\r`.
pub open spec fn cr() -> u8 {
    13u8
}

/// Where the first blank line ends, reading `buf` from `i` with `terms`
/// line terminators just seen: each `\n`, `\r\n` or lone `\r` is one
/// terminator, any other byte resets the count, and the record ends just
/// past the second terminator in a row. A `\r` that is the last byte buffered
/// decides nothing yet, since its `\n` may still be on its way.
pub open spec fn scan_end(buf: Seq<u8>, i: int, terms: int) -> Option<int>
    decreases buf.len() - i,
{
    if i < 0 || i >= buf.len() {
        None
    } else if buf[i] == lf() {
        if terms >= 1 {
            Some(i + 1)
        } else {
            scan_end(buf, i + 1, terms + 1)
        }
    } else if buf[i] == cr() {
        if i + 1 == buf.len() {
            None
        } else {
            let j = if buf[i + 1] == lf() {
                i + 2
            } else {
                i + 1
            };
            if terms >= 1 {
                Some(j)
            } else {
                scan_end(buf, j, terms + 1)
            }
        }
    } else {
        scan_end(buf, i + 1, 0)
    }
}

/// The end of the first complete record in `buf`, if there is one.
pub open spec fn record_end(buf: Seq<u8>) -> Option<int> {
    scan_end(buf, 0, 0)
}

/// A record ends after the point the scan starts from, and within the buffer.
pub proof fn lemma_scan_end_bounds(buf: Seq<u8>, i: int, terms: int)
    ensures
        scan_end(buf, i, terms) matches Some(e) ==> 0 <= i < e <= buf.len(),
    decreases buf.len() - i,
{
    if i < 0 || i >= buf.len() {
    } else if buf[i] == lf() {
        lemma_scan_end_bounds(buf, i + 1, terms + 1);
    } else if buf[i] == cr() {
        if i + 1 < buf.len() {
            let j = if buf[i + 1] == lf() {
                i + 2
            } else {
                i + 1
            };
            lemma_scan_end_bounds(buf, j, terms + 1);
        }
    } else {
        lemma_scan_end_bounds(buf, i + 1, 0);
    }
}

/// Where a record ends does not change when more bytes arrive behind it.
pub proof fn lemma_scan_end_prefix(x: Seq<u8>, y: Seq<u8>, i: int, terms: int)
    requires
        scan_end(x, i, terms) is Some,
    ensures
        scan_end(x + y, i, terms) == scan_end(x, i, terms),
    decreases x.len() - i,
{
    let xy = x + y;
    assert(0 <= i < x.len());
    assert(xy[i] == x[i]);
    if x[i] == lf() {
        if terms < 1 {
            lemma_scan_end_prefix(x, y, i + 1, terms + 1);
        }
    } else if x[i] == cr() {
        assert(i + 1 < x.len());
        assert(xy[i + 1] == x[i + 1]);
        let j = if x[i + 1] == lf() {
            i + 2
        } else {
            i + 1
        };
        if terms < 1 {
            lemma_scan_end_prefix(x, y, j, terms + 1);
        }
    } else {
        lemma_scan_end_prefix(x, y, i + 1, 0);
    }
}

/// A line terminator of `l` bytes starts at `k`: `\n`, `\r\n`, or a `\r`
/// followed by some other byte. A `\r` that is the last byte is not yet a
/// terminator: its `\n` may still be on its way.
pub open spec fn terminator(buf: Seq<u8>, k: int, l: int) -> bool {
    &&& 0 <= k < buf.len()
    &&& {
        ||| buf[k] == lf() && l == 1
        ||| buf[k] == cr() && k + 1 < buf.len() && buf[k + 1] == lf() && l == 2
        ||| buf[k] == cr() && k + 1 < buf.len() && buf[k + 1] != lf() && l == 1
    }
}

/// A line terminator ends at `i`.
pub open spec fn terminator_ends_at(buf: Seq<u8>, i: int) -> bool {
    exists|k: int, l: int| #[trigger] terminator(buf, k, l) && k + l == i
}

/// A blank line ends at `i`: two line terminators in a row end there.
pub open spec fn blank_line_ends_at(buf: Seq<u8>, i: int) -> bool {
    exists|k: int, l1: int, l2: int|
        #![trigger terminator(buf, k, l1), terminator(buf, k + l1, l2)]
        terminator(buf, k, l1) && terminator(buf, k + l1, l2) && k + l1 + l2 == i
}

/// `i` does not fall between the `\r` and the `\n` of a `\r\n`.
pub open spec fn at_boundary(buf: Seq<u8>, i: int) -> bool {
    !(0 < i < buf.len() && buf[i - 1] == cr() && buf[i] == lf())
}

/// The scan from `i` finds the first blank line that ends after `i`.
proof fn lemma_scan_end_first(buf: Seq<u8>, i: int, terms: int)
    requires
        0 <= i <= buf.len(),
        terms == 0 || terms == 1,
        at_boundary(buf, i),
        terms == 1 <==> terminator_ends_at(buf, i),
        forall|j: int| 0 <= j <= i ==> !blank_line_ends_at(buf, j),
    ensures
        match scan_end(buf, i, terms) {
            Some(e) => {
                &&& i < e <= buf.len()
                &&& blank_line_ends_at(buf, e)
                &&& forall|j: int| i < j < e ==> !blank_line_ends_at(buf, j)
            },
            None => forall|j: int| i < j <= buf.len() ==> !blank_line_ends_at(buf, j),
        },
    decreases buf.len() - i,
{
    if i < buf.len() {
        if buf[i] == lf() {
            assert(terminator(buf, i, 1));
            if terms == 1 {
                let (k, l) = choose|k: int, l: int| #[trigger] terminator(buf, k, l) && k + l == i;
                assert(terminator(buf, k, l) && terminator(buf, k + l, 1));
            } else {
                assert(terminator_ends_at(buf, i + 1));
                assert(!blank_line_ends_at(buf, i + 1)) by {
                    if blank_line_ends_at(buf, i + 1) {
                        let (k, l1, l2) = choose|k: int, l1: int, l2: int|
                            #![trigger terminator(buf, k, l1), terminator(buf, k + l1, l2)]
                            terminator(buf, k, l1) && terminator(buf, k + l1, l2) && k + l1 + l2
                                == i + 1;
                        assert(terminator(buf, k, l1) && k + l1 == i);
                    }
                }
                lemma_scan_end_first(buf, i + 1, 1);
            }
        } else if buf[i] == cr() {
            if i + 1 == buf.len() {
                assert(!blank_line_ends_at(buf, buf.len() as int)) by {
                    if blank_line_ends_at(buf, buf.len() as int) {
                        let (k, l1, l2) = choose|k: int, l1: int, l2: int|
                            #![trigger terminator(buf, k, l1), terminator(buf, k + l1, l2)]
                            terminator(buf, k, l1) && terminator(buf, k + l1, l2) && k + l1 + l2
                                == buf.len();
                        assert(terminator(buf, k + l1, l2));
                    }
                }
            } else {
                let j = if buf[i + 1] == lf() {
                    i + 2
                } else {
                    i + 1
                };
                assert(terminator(buf, i, j - i));
                if j == i + 2 {
                    assert(!blank_line_ends_at(buf, i + 1)) by {
                        if blank_line_ends_at(buf, i + 1) {
                            let (k, l1, l2) = choose|k: int, l1: int, l2: int|
                                #![trigger terminator(buf, k, l1), terminator(buf, k + l1, l2)]
                                terminator(buf, k, l1) && terminator(buf, k + l1, l2) && k + l1
                                    + l2 == i + 1;
                            assert(terminator(buf, k + l1, l2));
                        }
                    }
                }
                if terms == 1 {
                    let (k, l) = choose|k: int, l: int| #[trigger] terminator(buf, k, l) && k + l == i;
                    assert(terminator(buf, k, l) && terminator(buf, k + l, j - i));
                } else {
                    assert(terminator_ends_at(buf, j));
                    assert(!blank_line_ends_at(buf, j)) by {
                        if blank_line_ends_at(buf, j) {
                            let (k, l1, l2) = choose|k: int, l1: int, l2: int|
                                #![trigger terminator(buf, k, l1), terminator(buf, k + l1, l2)]
                                terminator(buf, k, l1) && terminator(buf, k + l1, l2) && k + l1
                                    + l2 == j;
                            assert(terminator(buf, k + l1, l2));
                            assert(terminator(buf, k, l1));
                            if k + l1 == i {
                                assert(terminator_ends_at(buf, i));
                            }
                        }
                    }
                    lemma_scan_end_first(buf, j, 1);
                }
            }
        } else {
            assert(!terminator_ends_at(buf, i + 1)) by {
                if terminator_ends_at(buf, i + 1) {
                    let (k, l) = choose|k: int, l: int| #[trigger] terminator(buf, k, l) && k + l == i + 1;
                    assert(terminator(buf, k, l));
                }
            }
            assert(!blank_line_ends_at(buf, i + 1)) by {
                if blank_line_ends_at(buf, i + 1) {
                    let (k, l1, l2) = choose|k: int, l1: int, l2: int|
                        #![trigger terminator(buf, k, l1), terminator(buf, k + l1, l2)]
                        terminator(buf, k, l1) && terminator(buf, k + l1, l2) && k + l1 + l2 == i
                            + 1;
                    assert(terminator(buf, k + l1, l2));
                }
            }
            lemma_scan_end_first(buf, i + 1, 0);
        }
    }
}

/// A record ends just past the first blank line of the buffer (two line
/// terminators in a row, where a terminator is `\n`, `\r\n`, or a `\r`
/// followed by another byte), and there is no end while there is none; so a
/// `\r` that is the buffer's last byte ends nothing yet.
pub proof fn lemma_record_end_is_first_blank_line(buf: Seq<u8>)
    ensures
        match record_end(buf) {
            Some(e) => {
                &&& 2 <= e <= buf.len()
                &&& blank_line_ends_at(buf, e)
                &&& forall|j: int| 0 <= j < e ==> !blank_line_ends_at(buf, j)
            },
            None => forall|j: int| 0 <= j <= buf.len() ==> !blank_line_ends_at(buf, j),
        },
{
    assert(!terminator_ends_at(buf, 0)) by {
        if terminator_ends_at(buf, 0) {
            let (k, l) = choose|k: int, l: int| #[trigger] terminator(buf, k, l) && k + l == 0;
            assert(terminator(buf, k, l));
        }
    }
    assert forall|j: int| 0 <= j <= 1 implies !blank_line_ends_at(buf, j) by {
        if blank_line_ends_at(buf, j) {
            let (k, l1, l2) = choose|k: int, l1: int, l2: int|
                #![trigger terminator(buf, k, l1), terminator(buf, k + l1, l2)]
                terminator(buf, k, l1) && terminator(buf, k + l1, l2) && k + l1 + l2 == j;
            assert(terminator(buf, k, l1));
            assert(terminator(buf, k + l1, l2));
        }
    }
    lemma_scan_end_first(buf, 0, 0);
    if let Some(e) = record_end(buf) {
        assert(e >= 2) by {
            let (k, l1, l2) = choose|k: int, l1: int, l2: int|
                #![trigger terminator(buf, k, l1), terminator(buf, k + l1, l2)]
                terminator(buf, k, l1) && terminator(buf, k + l1, l2) && k + l1 + l2 == e;
            assert(terminator(buf, k, l1));
            assert(terminator(buf, k + l1, l2));
        }
    }
}

/// Byte index just past the first record-terminating blank line, or `None`
/// if no complete record is buffered yet; see [`scan_end`] and
/// [`lemma_record_end_is_first_blank_line`].
pub fn find_record_end(buf: &[u8]) -> (r: Option<usize>)
    ensures
        match r {
            Some(e) => record_end(buf@) == Some(e as int),
            None => record_end(buf@) is None,
        },
        match r {
            Some(e) => {
                &&& 2 <= e <= buf@.len()
                &&& blank_line_ends_at(buf@, e as int)
                &&& forall|j: int| 0 <= j < e ==> !blank_line_ends_at(buf@, j)
            },
            None => forall|j: int| 0 <= j <= buf@.len() ==> !blank_line_ends_at(buf@, j),
        },
{
    proof {
        lemma_record_end_is_first_blank_line(buf@);
    }
    let mut terminators: usize = 0;
    let mut i: usize = 0;
    while i < buf.len()
        invariant
            i <= buf.len(),
            terminators <= 1,
            record_end(buf@) == scan_end(buf@, i as int, terminators as int),
        decreases buf.len() - i,
    {
        proof {
            lemma_record_end_is_first_blank_line(buf@);
        }
        let b = buf[i];
        if b == 10u8 {
            if terminators >= 1 {
                return Some(i + 1);
            }
            terminators += 1;
            i += 1;
        } else if b == 13u8 {
            if i + 1 == buf.len() {
                return None;
            }
            let j = if buf[i + 1] == 10u8 {
                i + 2
            } else {
                i + 1
            };
            if terminators >= 1 {
                return Some(j);
            }
            terminators += 1;
            i = j;
        } else {
            terminators = 0;
            i += 1;
        }
    }
    None
}

/// `buf` cut into its complete records, in order, and the bytes left over.
pub open spec fn split_records(buf: Seq<u8>) -> (Seq<Seq<u8>>, Seq<u8>)
    decreases buf.len(),
{
    match record_end(buf) {
        Some(e) => if 0 < e <= buf.len() {
            let next = split_records(buf.subrange(e, buf.len() as int));
            (seq![buf.subrange(0, e)] + next.0, next.1)
        } else {
            (Seq::empty(), buf)
        },
        None => (Seq::empty(), buf),
    }
}

/// The records, joined back together.
pub open spec fn joined(records: Seq<Seq<u8>>) -> Seq<u8>
    decreases records.len(),
{
    if records.len() == 0 {
        Seq::empty()
    } else {
        records[0] + joined(records.drop_first())
    }
}

/// Nothing is lost or invented: the records and the leftover bytes, joined,
/// are the buffer.
pub proof fn lemma_split_records_lossless(buf: Seq<u8>)
    ensures
        joined(split_records(buf).0) + split_records(buf).1 == buf,
    decreases buf.len(),
{
    lemma_scan_end_bounds(buf, 0, 0);
    match record_end(buf) {
        Some(e) => {
            let rest = buf.subrange(e, buf.len() as int);
            lemma_split_records_lossless(rest);
            let next = split_records(rest);
            let recs = seq![buf.subrange(0, e)] + next.0;
            assert(recs.drop_first() =~= next.0);
            assert(joined(recs) == buf.subrange(0, e) + joined(next.0));
            assert(buf.subrange(0, e) + joined(next.0) + next.1 =~= buf.subrange(0, e) + (joined(
                next.0,
            ) + next.1));
            assert(buf.subrange(0, e) + rest =~= buf);
        },
        None => {
            assert(joined(Seq::<Seq<u8>>::empty()) =~= Seq::<u8>::empty());
            assert(Seq::<u8>::empty() + buf =~= buf);
        },
    }
}

/// Splitting a buffer that grew: the records of the old buffer come first,
/// then those of its leftover bytes followed by the new ones.
pub proof fn lemma_split_records_append(x: Seq<u8>, y: Seq<u8>)
    ensures
        split_records(x + y).0 == split_records(x).0 + split_records(
            split_records(x).1 + y,
        ).0,
        split_records(x + y).1 == split_records(split_records(x).1 + y).1,
    decreases x.len(),
{
    lemma_scan_end_bounds(x, 0, 0);
    match record_end(x) {
        Some(e) => {
            lemma_scan_end_prefix(x, y, 0, 0);
            let xy = x + y;
            let rx = x.subrange(e, x.len() as int);
            assert(xy.subrange(e, xy.len() as int) =~= rx + y);
            assert(xy.subrange(0, e) =~= x.subrange(0, e));
            lemma_split_records_append(rx, y);
            assert(split_records(x).1 == split_records(rx).1);
            assert(split_records(x + y).0 =~= split_records(x).0 + split_records(
                split_records(x).1 + y,
            ).0);
        },
        None => {
            assert(split_records(x).0 =~= Seq::<Seq<u8>>::empty());
            assert(split_records(x).1 == x);
            assert(Seq::<Seq<u8>>::empty() + split_records(x + y).0 =~= split_records(x + y).0);
        },
    }
}

/// `line` opens with `data:`.
pub open spec fn has_data_prefix(line: Seq<u8>) -> bool {
    &&& line.len() >= 5
    &&& line[0] == 100u8
    &&& line[1] == 97u8
    &&& line[2] == 116u8
    &&& line[3] == 97u8
    &&& line[4] == 58u8
}

/// The payload of a `data:` line: what follows the prefix, less one
/// leading space; `None` for any other line.
pub open spec fn line_data(line: Seq<u8>) -> Option<Seq<u8>> {
    if has_data_prefix(line) {
        let rest = line.subrange(5, line.len() as int);
        if rest.len() > 0 && rest[0] == 32u8 {
            Some(rest.subrange(1, rest.len() as int))
        } else {
            Some(rest)
        }
    } else {
        None
    }
}

/// The data gathered so far with one more line taken in: a data line's
/// payload is appended, after a `\n` unless nothing has been gathered yet.
pub open spec fn take_line(acc: Seq<u8>, line: Seq<u8>) -> Seq<u8> {
    match line_data(line) {
        Some(d) => if acc.len() == 0 {
            d
        } else {
            acc + seq![lf()] + d
        },
        None => acc,
    }
}

/// Reading `b` byte by byte: the data gathered from its finished lines, and
/// the line still being read. `\n` and `\r` each end a line.
pub open spec fn read_lines(b: Seq<u8>) -> (Seq<u8>, Seq<u8>)
    decreases b.len(),
{
    if b.len() == 0 {
        (Seq::empty(), Seq::empty())
    } else {
        let prev = read_lines(b.drop_last());
        let c = b.last();
        if c == lf() || c == cr() {
            (take_line(prev.0, prev.1), Seq::empty())
        } else {
            (prev.0, prev.1.push(c))
        }
    }
}

/// The `data` of a record: its `data:` lines' payloads joined with `\n`.
pub open spec fn record_data(b: Seq<u8>) -> Seq<u8> {
    take_line(read_lines(b).0, read_lines(b).1)
}

/// What a record comes to.
pub enum RecordOutcome {
    /// It carries this event.
    Event(EventV),
    /// It carries no data (e.g. only comments or an `event:` line).
    Empty,
    /// It is not valid UTF-8.
    BadUtf8,
    /// Its data is not JSON, or not an event.
    BadJson,
}

/// What the record `b` comes to.
pub open spec fn record_outcome(b: Seq<u8>) -> RecordOutcome {
    if !vstd::utf8::valid_utf8(b) {
        RecordOutcome::BadUtf8
    } else if record_data(b).len() == 0 {
        RecordOutcome::Empty
    } else {
        match spec_parse_json(record_data(b)) {
            None => RecordOutcome::BadJson,
            Some(j) => match spec_event(j) {
                Some(e) => RecordOutcome::Event(e),
                None => RecordOutcome::BadJson,
            },
        }
    }
}

/// `x` holds no line terminator.
pub open spec fn one_line(x: Seq<u8>) -> bool {
    forall|i: int| 0 <= i < x.len() ==> #[trigger] x[i] != lf() && x[i] != cr()
}

/// The bytes `data: `.
pub open spec fn data_prefix() -> Seq<u8> {
    seq![100u8, 97u8, 116u8, 97u8, 58u8, 32u8]
}

/// Reading on through bytes with no line terminator extends the line being
/// read and gathers nothing.
proof fn lemma_read_lines_within_line(b: Seq<u8>, x: Seq<u8>)
    requires
        one_line(x),
    ensures
        read_lines(b + x) == (read_lines(b).0, read_lines(b).1 + x),
    decreases x.len(),
{
    if x.len() == 0 {
        assert(b + x =~= b);
        assert(read_lines(b).1 + x =~= read_lines(b).1);
    } else {
        let front = x.drop_last();
        assert(one_line(front)) by {
            assert forall|i: int| 0 <= i < front.len() implies #[trigger] front[i] != lf()
                && front[i] != cr() by {
                assert(front[i] == x[i]);
            }
        }
        lemma_read_lines_within_line(b, front);
        assert((b + x).drop_last() =~= b + front);
        assert((b + x).last() == x[x.len() - 1]);
        assert(read_lines(b).1 + front.push(x.last()) =~= read_lines(b).1 + x);
        assert(x.last() == x[x.len() - 1]);
    }
}

/// A record of one `data: ` line carries that line's text, whatever it is.
pub proof fn lemma_one_data_line(x: Seq<u8>)
    requires
        one_line(x),
    ensures
        record_data(data_prefix() + x + seq![lf()]) == x,
{
    let line = data_prefix() + x;
    assert forall|i: int| 0 <= i < line.len() implies #[trigger] line[i] != lf() && line[i] != cr() by {
        if i >= 6 {
            assert(line[i] == x[i - 6]);
        }
    }
    lemma_read_lines_within_line(Seq::empty(), line);
    assert(Seq::<u8>::empty() + line =~= line);
    let b = line + seq![lf()];
    assert(b.drop_last() =~= line);
    assert(read_lines(Seq::<u8>::empty()) == (Seq::<u8>::empty(), Seq::<u8>::empty()));
    assert(Seq::<u8>::empty() + line =~= line);
    assert(line.subrange(5, line.len() as int) =~= seq![32u8] + x);
    assert((seq![32u8] + x).subrange(1, x.len() as int + 1) =~= x);
}

/// A record of two `data: ` lines carries their texts joined by a newline,
/// in order (with no newline after a first line that carried nothing).
pub proof fn lemma_two_data_lines(x: Seq<u8>, y: Seq<u8>)
    requires
        one_line(x),
        one_line(y),
    ensures
        record_data(data_prefix() + x + seq![lf()] + data_prefix() + y + seq![lf()]) == if x.len()
            == 0 {
            y
        } else {
            x + seq![lf()] + y
        },
{
    let lx = data_prefix() + x;
    let ly = data_prefix() + y;
    assert forall|i: int| 0 <= i < lx.len() implies #[trigger] lx[i] != lf() && lx[i] != cr() by {
        if i >= 6 {
            assert(lx[i] == x[i - 6]);
        }
    }
    assert forall|i: int| 0 <= i < ly.len() implies #[trigger] ly[i] != lf() && ly[i] != cr() by {
        if i >= 6 {
            assert(ly[i] == y[i - 6]);
        }
    }
    lemma_read_lines_within_line(Seq::empty(), lx);
    assert(Seq::<u8>::empty() + lx =~= lx);
    let b1 = lx + seq![lf()];
    assert(b1.drop_last() =~= lx);
    assert(read_lines(Seq::<u8>::empty()) == (Seq::<u8>::empty(), Seq::<u8>::empty()));
    assert(Seq::<u8>::empty() + lx =~= lx);
    assert(lx.subrange(5, lx.len() as int) =~= seq![32u8] + x);
    assert((seq![32u8] + x).subrange(1, x.len() as int + 1) =~= x);
    assert(read_lines(b1) == (x, Seq::<u8>::empty()));
    lemma_read_lines_within_line(b1, ly);
    assert(Seq::<u8>::empty() + ly =~= ly);
    let b2 = b1 + ly + seq![lf()];
    assert(b2.drop_last() =~= b1 + ly);
    assert(ly.subrange(5, ly.len() as int) =~= seq![32u8] + y);
    assert((seq![32u8] + y).subrange(1, y.len() as int + 1) =~= y);
    assert(data_prefix() + x + seq![lf()] + data_prefix() + y + seq![lf()] =~= b2);
    assert(read_lines(b1 + ly) == (x, Seq::<u8>::empty() + ly));
    assert(line_data(ly) == Some(y));
    assert(read_lines(b2).1 == Seq::<u8>::empty());
    assert(line_data(Seq::<u8>::empty()) is None);
}

/// Appends the payload of the line `b[start..end]`, if it is a data line.
fn take_line_into(acc: &mut Vec<u8>, b: &[u8], start: usize, end: usize)
    requires
        start <= end <= b.len(),
    ensures
        final(acc)@ == take_line(old(acc)@, b@.subrange(start as int, end as int)),
{
    let ghost line = b@.subrange(start as int, end as int);
    if end - start >= 5 && b[start] == 100u8 && b[start + 1] == 97u8 && b[start + 2] == 116u8
        && b[start + 3] == 97u8 && b[start + 4] == 58u8 {
        let mut s: usize = start + 5;
        if s < end && b[s] == 32u8 {
            s += 1;
        }
        let ghost d = line_data(line)->Some_0;
        assert(d =~= b@.subrange(s as int, end as int));
        let ghost before = acc@;
        if acc.len() > 0 {
            acc.push(10u8);
        }
        let ghost base = acc@;
        let mut k: usize = s;
        while k < end
            invariant
                s <= k <= end <= b.len(),
                acc@ == base + b@.subrange(s as int, k as int),
            decreases end - k,
        {
            acc.push(b[k]);
            assert(b@.subrange(s as int, k + 1) =~= b@.subrange(s as int, k as int).push(b[k as int]));
            k += 1;
        }
        proof {
            if before.len() == 0 {
                assert(acc@ =~= d);
            } else {
                assert(acc@ =~= before + seq![lf()] + d);
            }
        }
    } else {
        assert(!has_data_prefix(line));
    }
}

/// The `data` of a record; see [`record_data`].
fn extract_data(b: &[u8]) -> (r: Vec<u8>)
    ensures
        r@ == record_data(b@),
{
    let mut acc: Vec<u8> = Vec::new();
    let mut start: usize = 0;
    let mut i: usize = 0;
    while i < b.len()
        invariant
            start <= i <= b.len(),
            read_lines(b@.subrange(0, i as int)) == (acc@, b@.subrange(start as int, i as int)),
        decreases b.len() - i,
    {
        let ghost prefix = b@.subrange(0, i as int + 1);
        assert(prefix.drop_last() =~= b@.subrange(0, i as int));
        if b[i] == 10u8 || b[i] == 13u8 {
            take_line_into(&mut acc, b, start, i);
            start = i + 1;
            assert(b@.subrange(start as int, i as int + 1) =~= Seq::<u8>::empty());
        } else {
            assert(b@.subrange(start as int, i as int + 1) =~= b@.subrange(start as int, i as int).push(b[i as int]));
        }
        i += 1;
    }
    assert(b@.subrange(0, b.len() as int) =~= b@);
    take_line_into(&mut acc, b, start, b.len());
    acc
}

/// Decodes one record and reads its `data` as an event; `Ok(None)` for a
/// record that carries no data.
fn parse_record(record: &[u8]) -> (r: Result<Option<Event>, ParseError>)
    ensures
        match r {
            Ok(Some(e)) => record_outcome(record@) == RecordOutcome::Event(e@),
            Ok(None) => record_outcome(record@) == RecordOutcome::Empty,
            Err(ParseError::Utf8(_)) => record_outcome(record@) == RecordOutcome::BadUtf8,
            Err(ParseError::Json(_)) => record_outcome(record@) == RecordOutcome::BadJson,
            Err(ParseError::Malformed(_)) => false,
        },
{
    match check_utf8(record) {
        Err(e) => return Err(ParseError::Utf8(e)),
        Ok(()) => {},
    }
    let data = extract_data(record);
    if data.len() == 0 {
        return Ok(None);
    }
    match parse_json(data.as_slice()) {
        Err(e) => Err(ParseError::Json(e)),
        Ok(j) => match decode_event(&j) {
            Ok(e) => Ok(Some(e)),
            Err(e) => Err(ParseError::Json(e)),
        },
    }
}

/// Cap on a single buffered SSE record; protects against a peer that never
/// sends the record-terminating blank line.
pub const MAX_RECORD_BYTES: usize = 8 * 1024 * 1024;

/// The events that the records carry, in order.
pub open spec fn record_events(records: Seq<Seq<u8>>) -> Seq<EventV>
    decreases records.len(),
{
    if records.len() == 0 {
        Seq::empty()
    } else {
        let prev = record_events(records.drop_last());
        match record_outcome(records.last()) {
            RecordOutcome::Event(e) => prev.push(e),
            _ => prev,
        }
    }
}

/// The first record that could not be read: `BadUtf8` or `BadJson`.
pub open spec fn first_failure(records: Seq<Seq<u8>>) -> Option<RecordOutcome>
    decreases records.len(),
{
    if records.len() == 0 {
        None
    } else {
        match first_failure(records.drop_last()) {
            Some(f) => Some(f),
            None => match record_outcome(records.last()) {
                RecordOutcome::BadUtf8 => Some(RecordOutcome::BadUtf8),
                RecordOutcome::BadJson => Some(RecordOutcome::BadJson),
                _ => None,
            },
        }
    }
}

/// The models of a run of events.
pub open spec fn event_views(v: Seq<Event>) -> Seq<EventV> {
    Seq::new(v.len(), |i: int| v[i]@)
}

/// Incremental parser for the Messages API server-sent event stream.
///
/// Feed it raw bytes as they arrive off the wire; it buffers until it has a
/// complete SSE record (delimited by a blank line) and yields one [`Event`]
/// per record. Bytes are buffered, not decoded eagerly, so a multi-byte UTF-8
/// character split across two reads is reassembled correctly.
pub struct EventParser {
    buf: Vec<u8>,
    pending: VecDeque<Event>,
}

/// The model of an [`EventParser`]: the bytes of the unfinished record, and
/// the events parsed but not yet taken.
pub struct EventParserV {
    pub buf: Seq<u8>,
    pub pending: Seq<EventV>,
}

impl View for EventParser {
    type V = EventParserV;

    closed spec fn view(&self) -> EventParserV {
        EventParserV {
            buf: self.buf@,
            pending: event_views(self.pending@),
        }
    }
}

/// The parser after `bytes` are fed to it: every record completed is taken
/// out of the buffer, and the events they carry are queued behind those
/// already waiting. Records that cannot be read are skipped.
pub open spec fn spec_feed(p: EventParserV, bytes: Seq<u8>) -> EventParserV {
    EventParserV {
        buf: split_records(p.buf + bytes).1,
        pending: p.pending + record_events(split_records(p.buf + bytes).0),
    }
}

/// The events of two runs of records, one after the other.
pub proof fn lemma_record_events_append(a: Seq<Seq<u8>>, b: Seq<Seq<u8>>)
    ensures
        record_events(a + b) == record_events(a) + record_events(b),
    decreases b.len(),
{
    if b.len() == 0 {
        assert(a + b =~= a);
        assert(record_events(a) + record_events(b) =~= record_events(a));
    } else {
        lemma_record_events_append(a, b.drop_last());
        assert((a + b).drop_last() =~= a + b.drop_last());
        assert((a + b).last() == b.last());
        match record_outcome(b.last()) {
            RecordOutcome::Event(e) => {
                assert(record_events(a) + record_events(b) =~= (record_events(a)
                    + record_events(b.drop_last())).push(e));
            },
            _ => {},
        }
    }
}

/// Feeding bytes in two chunks leaves the parser exactly as feeding them at
/// once: how the stream is cut into reads changes nothing.
pub proof fn lemma_feed_chunking(p: EventParserV, a: Seq<u8>, b: Seq<u8>)
    ensures
        spec_feed(spec_feed(p, a), b) == spec_feed(p, a + b),
{
    let x = p.buf + a;
    lemma_split_records_append(x, b);
    assert(p.buf + (a + b) =~= x + b);
    let r1 = split_records(x).0;
    let r2 = split_records(split_records(x).1 + b).0;
    lemma_record_events_append(r1, r2);
    assert(spec_feed(spec_feed(p, a), b).pending =~= spec_feed(p, a + b).pending);
}

/// The reason given for a record that grows past [`MAX_RECORD_BYTES`]
/// without its terminating blank line.
pub open spec fn overlong_record() -> Seq<char> {
    "SSE record exceeds 8388608 bytes without terminating"@
}

impl EventParser {
    /// A parser with nothing buffered and nothing queued.
    pub fn new() -> (r: Self)
        ensures
            r@.buf == Seq::<u8>::empty(),
            r@.pending == Seq::<EventV>::empty(),
    {
        let r = EventParser { buf: Vec::new(), pending: VecDeque::new() };
        assert(r@.pending =~= Seq::<EventV>::empty());
        r
    }

    /// Append a chunk and parse any records it completes.
    ///
    /// Returns the number of events queued. A record whose `data` fails to
    /// deserialize surfaces as [`ParseError`] rather than being silently
    /// dropped, but only after every complete record in the buffer has been
    /// drained, so one bad record never takes out the ones behind it.
    pub fn feed(&mut self, bytes: &[u8]) -> (r: Result<usize, ParseError>)
        ensures
            final(self)@ == spec_feed(old(self)@, bytes@),
            match r {
                Ok(n) => {
                    &&& first_failure(split_records(old(self)@.buf + bytes@).0) is None
                    &&& final(self)@.buf.len() <= MAX_RECORD_BYTES
                    &&& n == record_events(split_records(old(self)@.buf + bytes@).0).len()
                },
                Err(ParseError::Utf8(_)) => first_failure(
                    split_records(old(self)@.buf + bytes@).0,
                ) == Some(RecordOutcome::BadUtf8),
                Err(ParseError::Json(_)) => first_failure(
                    split_records(old(self)@.buf + bytes@).0,
                ) == Some(RecordOutcome::BadJson),
                Err(ParseError::Malformed(m)) => {
                    &&& first_failure(split_records(old(self)@.buf + bytes@).0) is None
                    &&& final(self)@.buf.len() > MAX_RECORD_BYTES
                    &&& m@ == overlong_record()
                },
            },
    {
        let ghost input = self.buf@ + bytes@;
        let ghost old_pending = self@.pending;
        self.buf.extend_from_slice(bytes);
        assert(self.buf@ =~= input);
        assert(input.len() == self.buf.len());
        let mut new_events: usize = 0;
        let mut first_err: Option<ParseError> = None;
        let ghost mut done: Seq<Seq<u8>> = Seq::empty();
        loop
            invariant
                split_records(input).0 == done + split_records(self.buf@).0,
                split_records(input).1 == split_records(self.buf@).1,
                self@.pending == old_pending + record_events(done),
                new_events == record_events(done).len(),
                new_events <= input.len() - self.buf@.len(),
                self.buf@.len() <= input.len(),
                input.len() <= usize::MAX,
                match first_err {
                    None => first_failure(done) is None,
                    Some(ParseError::Utf8(_)) => first_failure(done) == Some(
                        RecordOutcome::BadUtf8,
                    ),
                    Some(ParseError::Json(_)) => first_failure(done) == Some(
                        RecordOutcome::BadJson,
                    ),
                    Some(ParseError::Malformed(_)) => false,
                },
            ensures
                record_end(self.buf@) is None,
            decreases self.buf@.len(),
        {
            let idx = match find_record_end(self.buf.as_slice()) {
                Some(idx) => idx,
                None => break,
            };
            proof {
                lemma_scan_end_bounds(self.buf@, 0, 0);
            }
            let ghost before = self.buf@;
            let ghost before_pending = self@.pending;
            let mut record = self.buf.split_off(idx);
            std::mem::swap(&mut self.buf, &mut record);
            assert(record@ == before.subrange(0, idx as int));
            assert(self.buf@ == before.subrange(idx as int, before.len() as int));
            let ghost next_done = done.push(record@);
            assert(split_records(before).0 == seq![record@] + split_records(self.buf@).0);
            assert(next_done + split_records(self.buf@).0 =~= done + (seq![record@]
                + split_records(self.buf@).0));
            assert(next_done.drop_last() =~= done);
            match parse_record(record.as_slice()) {
                Ok(Some(event)) => {
                    assert(new_events < input.len() - self.buf@.len());
                    self.pending.push_back(event);
                    new_events += 1;
                    assert(self@.pending =~= before_pending.push(event@));
                },
                Ok(None) => {
                    assert(self@.pending =~= before_pending);
                },
                Err(e) => {
                    assert(self@.pending =~= before_pending);
                    if first_err.is_none() {
                        first_err = Some(e);
                    }
                },
            }
            proof {
                done = next_done;
            }
        }
        assert(split_records(self.buf@).0 =~= Seq::<Seq<u8>>::empty());
        assert(done + Seq::<Seq<u8>>::empty() =~= done);
        match first_err {
            Some(e) => return Err(e),
            None => {},
        }
        if self.buf.len() > MAX_RECORD_BYTES {
            return Err(
                ParseError::Malformed(
                    crate::event::owned("SSE record exceeds 8388608 bytes without terminating"),
                ),
            );
        }
        Ok(new_events)
    }

    /// Take the oldest queued event, if any.
    pub fn next_event(&mut self) -> (r: Option<Event>)
        ensures
            final(self)@.buf == old(self)@.buf,
            match r {
                Some(e) => {
                    &&& old(self)@.pending.len() > 0
                    &&& e@ == old(self)@.pending[0]
                    &&& final(self)@.pending == old(self)@.pending.drop_first()
                },
                None => {
                    &&& old(self)@.pending.len() == 0
                    &&& final(self)@.pending == old(self)@.pending
                },
            },
    {
        let ghost before = self@.pending;
        let r = self.pending.pop_front();
        assert(self@.pending =~= match r {
            Some(_) => before.drop_first(),
            None => before,
        });
        r
    }

    /// Take every queued event, oldest first.
    pub fn drain(&mut self) -> (r: Vec<Event>)
        ensures
            final(self)@.buf == old(self)@.buf,
            final(self)@.pending == Seq::<EventV>::empty(),
            event_views(r@) == old(self)@.pending,
    {
        let ghost before = self@.pending;
        let mut out: Vec<Event> = Vec::new();
        loop
            invariant
                self@.buf == old(self)@.buf,
                before == old(self)@.pending,
                event_views(out@) + self@.pending == before,
            decreases self@.pending.len(),
        {
            let ghost cur = self@.pending;
            match self.next_event() {
                Some(e) => {
                    let ghost prev_out = event_views(out@);
                    out.push(e);
                    assert(event_views(out@) =~= prev_out.push(e@));
                    assert(prev_out.push(e@) + self@.pending =~= prev_out + cur);
                },
                None => {
                    assert(self@.pending =~= Seq::<EventV>::empty());
                    assert(event_views(out@) + self@.pending =~= event_views(out@));
                    return out;
                },
            }
        }
    }

    /// Parse a complete in-memory stream in one shot.
    pub fn parse_all(text: &str) -> (r: Result<Vec<Event>, ParseError>)
        ensures
            match r {
                Ok(v) => {
                    &&& first_failure(split_records(text.spec_bytes()).0) is None
                    &&& split_records(text.spec_bytes()).1.len() <= MAX_RECORD_BYTES
                    &&& event_views(v@) == record_events(
                        split_records(text.spec_bytes()).0,
                    )
                },
                Err(ParseError::Utf8(_)) => first_failure(split_records(text.spec_bytes()).0)
                    == Some(RecordOutcome::BadUtf8),
                Err(ParseError::Json(_)) => first_failure(split_records(text.spec_bytes()).0)
                    == Some(RecordOutcome::BadJson),
                Err(ParseError::Malformed(m)) => {
                    &&& first_failure(split_records(text.spec_bytes()).0) is None
                    &&& split_records(text.spec_bytes()).1.len() > MAX_RECORD_BYTES
                    &&& m@ == overlong_record()
                },
            },
    {
        let mut p = Self::new();
        let bytes = text.as_bytes();
        assert(p@.buf + bytes@ =~= text.spec_bytes());
        match p.feed(bytes) {
            Err(e) => return Err(e),
            Ok(_) => {},
        }
        let v = p.drain();
        assert(Seq::<EventV>::empty() + record_events(split_records(text.spec_bytes()).0)
            =~= record_events(split_records(text.spec_bytes()).0));
        Ok(v)
    }
}

impl Default for EventParser {
    fn default() -> (r: Self)
        ensures
            r@.buf == Seq::<u8>::empty(),
            r@.pending == Seq::<EventV>::empty(),
    {
        Self::new()
    }
}

} // verus!
