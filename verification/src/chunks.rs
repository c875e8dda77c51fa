//! Decoding a stream in pieces.
//!
//! What is found in data does not depend on what follows a whole record, nor
//! on what stands before the place where decoding begins. So a stream that
//! is read record by record yields the records of the stream as a whole.

use crate::archive::declared_length;
use crate::archive::frame_at;
use crate::archive::framed_record;
use crate::archive::is_version_line;
use crate::archive::judged;
use crate::archive::lemma_frame_bounds;
use crate::archive::lemma_version_line_bounds;
use crate::archive::next_record;
use crate::archive::sought;
use crate::archive::ArchiveIteratorConfig;
use crate::archive::Found;
use crate::archive::Frame;
use crate::archive::Line;
use crate::archive::Next;
use crate::archive::Outcome;
use crate::archive::Sought;
use crate::ascii::has_prefix;
use crate::ascii::lemma_position_bounds;
use crate::ascii::position;
use crate::ascii::trimmed;
use crate::grammar::block_closed;
use crate::grammar::fed;
use crate::grammar::is_line_break;
use crate::grammar::lemma_line_end_bounds;
use crate::grammar::lemma_read_block_bounds;
use crate::grammar::lemma_text_end_within;
use crate::grammar::line_end;
use crate::grammar::line_text;
use crate::grammar::read_block;
use crate::grammar::text_end;
use crate::grammar::ReadBlock;
use crate::grammar::Reading;
use crate::laws::lemma_next_record_advances;
use crate::laws::records_from;
use crate::record::empty_block;
use crate::record::RecordView;
use crate::round_trip::lemma_position_is;
use crate::stream::needed;
use crate::stream::Need;
use crate::text::HeaderEncoding;
use vstd::prelude::*;

verus! {

/// The first `b` in a buffer is the first `b` in any data that begins with
/// the buffer.
pub proof fn lemma_position_in_prefix(data: Seq<u8>, buffer: Seq<u8>, b: u8, from: int)
    requires
        has_prefix(data, buffer),
        0 <= from,
        position(buffer, b, from) < buffer.len(),
    ensures
        position(data, b, from) == position(buffer, b, from),
{
    let at = position(buffer, b, from);
    if from > buffer.len() {
        assert(position(buffer, b, from) == from);
    }
    lemma_position_bounds(buffer, b, from);
    assert forall|i: int| from <= i < at implies #[trigger] data[i] != b by {
        assert(data.subrange(0, buffer.len() as int)[i] == buffer[i]);
    }
    assert(data.subrange(0, buffer.len() as int)[at] == buffer[at]);
    lemma_position_is(data, b, from, at);
}

/// The text of a line ends in data where it ends in a buffer with which the
/// data begin, if the line lies in the buffer.
pub proof fn lemma_text_end_in_prefix(data: Seq<u8>, buffer: Seq<u8>, lo: int, to: int)
    requires
        has_prefix(data, buffer),
        0 <= lo <= to <= buffer.len(),
    ensures
        text_end(data, lo, to) == text_end(buffer, lo, to),
    decreases to - lo,
{
    if lo < to {
        assert(data.subrange(0, buffer.len() as int)[to - 1] == buffer[to - 1]);
        if is_line_break(buffer[to - 1]) {
            lemma_text_end_in_prefix(data, buffer, lo, to - 1);
        }
    }
}

/// A line that ends with its line feed in a buffer is the same line in any
/// data that begins with the buffer.
pub proof fn lemma_line_in_prefix(data: Seq<u8>, buffer: Seq<u8>, from: int)
    requires
        has_prefix(data, buffer),
        0 <= from < buffer.len(),
        buffer[line_end(buffer, from) - 1] == 0x0Au8,
    ensures
        line_end(data, from) == line_end(buffer, from),
        line_text(data, from) == line_text(buffer, from),
        data.subrange(from, line_end(data, from)) == buffer.subrange(
            from,
            line_end(buffer, from),
        ),
{
    lemma_position_bounds(buffer, 0x0A, from);
    lemma_line_end_bounds(buffer, from);
    let at = position(buffer, 0x0A, from);
    if at >= buffer.len() {
        assert(buffer[buffer.len() - 1] != 0x0Au8);
    }
    lemma_position_in_prefix(data, buffer, 0x0A, from);
    let end = line_end(buffer, from);
    lemma_text_end_in_prefix(data, buffer, from, end);
    lemma_text_end_within(buffer, from, end);
    lemma_subrange_in_prefix(data, buffer, from, end);
    lemma_subrange_in_prefix(data, buffer, from, text_end(buffer, from, end));
}

/// A part of a buffer is the same part of any data that begins with the
/// buffer.
pub proof fn lemma_subrange_in_prefix(data: Seq<u8>, buffer: Seq<u8>, lo: int, hi: int)
    requires
        has_prefix(data, buffer),
        0 <= lo <= hi <= buffer.len(),
    ensures
        data.subrange(lo, hi) == buffer.subrange(lo, hi),
{
    assert forall|i: int| lo <= i < hi implies data[i] == buffer[i] by {
        assert(data.subrange(0, buffer.len() as int)[i] == buffer[i]);
    }
    assert(data.subrange(lo, hi) =~= buffer.subrange(lo, hi));
}

/// A version line that ends with its line feed in a buffer is found in any
/// data that begins with the buffer.
pub proof fn lemma_sought_in_prefix(data: Seq<u8>, buffer: Seq<u8>, from: int, strict: bool)
    requires
        has_prefix(data, buffer),
        0 <= from,
        sought(buffer, from, strict) is Version,
        buffer[sought(buffer, from, strict)->Version_0.end - 1] == 0x0Au8,
    ensures
        sought(data, from, strict) == sought(buffer, from, strict),
    decreases buffer.len() - from,
{
    lemma_line_end_bounds(buffer, from);
    lemma_position_bounds(buffer, 0x0A, from);
    let end = line_end(buffer, from);
    let line = trimmed(buffer.subrange(from, end));
    if line.len() > 0 && is_version_line(line) {
        lemma_line_in_prefix(data, buffer, from);
    } else {
        assert(sought(buffer, end, strict) is Version);
        assert(end < buffer.len());
        lemma_line_in_prefix(data, buffer, from);
        lemma_sought_in_prefix(data, buffer, end, strict);
    }
}

/// A header block that is closed in a buffer is read alike from any data
/// that begins with the buffer.
pub proof fn lemma_read_block_in_prefix(
    data: Seq<u8>,
    buffer: Seq<u8>,
    from: int,
    state: Reading,
)
    requires
        has_prefix(data, buffer),
        0 <= from,
        block_closed(buffer, from),
    ensures
        read_block(data, from, state) == read_block(buffer, from, state),
    decreases buffer.len() - from,
{
    lemma_line_end_bounds(buffer, from);
    lemma_position_bounds(buffer, 0x0A, from);
    let end = line_end(buffer, from);
    if line_text(buffer, from).len() == 0 {
        lemma_line_in_prefix(data, buffer, from);
    } else {
        assert(block_closed(buffer, end));
        assert(end < buffer.len());
        lemma_line_in_prefix(data, buffer, from);
        lemma_read_block_in_prefix(data, buffer, end, fed(state, line_text(buffer, from)));
    }
}

/// A buffer that holds a whole record holds the record that is found in any
/// data that begins with the buffer: what follows a record does not change
/// it.
pub proof fn law_whole_record_is_settled(data: Seq<u8>, buffer: Seq<u8>, strict: bool)
    requires
        has_prefix(data, buffer),
        needed(buffer, strict) == Need::Nothing,
    ensures
        frame_at(buffer, 0, strict) is Record,
        frame_at(data, 0, strict) == frame_at(buffer, 0, strict),
        frame_at(buffer, 0, strict)->Record_0.end <= buffer.len(),
        framed_record(data, frame_at(data, 0, strict)->Record_0) == framed_record(
            buffer,
            frame_at(buffer, 0, strict)->Record_0,
        ),
{
    let line = sought(buffer, 0, strict)->Version_0;
    lemma_version_line_bounds(buffer, 0, strict);
    lemma_line_end_bounds(buffer, line.start);
    lemma_position_bounds(buffer, 0x0A, line.start);
    assert(block_closed(buffer, line.end));
    assert(line.end < buffer.len());
    lemma_sought_in_prefix(data, buffer, 0, strict);
    lemma_subrange_in_prefix(data, buffer, line.start, line.end);
    let start = Reading {
        block: empty_block(HeaderEncoding::Unicode).with_status_line(
            trimmed(buffer.subrange(line.start, line.end)),
        ),
        awaits_status: false,
    };
    lemma_read_block_in_prefix(data, buffer, line.end, start);
    lemma_read_block_bounds(buffer, line.end, start);
    let read = read_block(buffer, line.end, start);
    let body_end = read.end + declared_length(read.block);
    lemma_subrange_in_prefix(data, buffer, read.end, body_end);
}

/// The record with its start offset moved on by `by`.
pub open spec fn moved_record(record: RecordView, by: nat) -> RecordView {
    RecordView { stream_pos: record.stream_pos + by, ..record }
}

/// The step with its offsets moved on by `by`.
pub open spec fn moved_next(next: Next, by: nat) -> Next {
    Next {
        result: match next.result {
            Ok(Some(record)) => Ok(Some(moved_record(record, by))),
            Ok(None) => Ok(None),
            Err(e) => Err(e),
        },
        pos: next.pos + by,
    }
}

/// The search with its offsets moved on by `by`.
pub open spec fn moved_sought(found: Sought, by: nat) -> Sought {
    match found {
        Sought::Version(line) => Sought::Version(
            Line { start: line.start + by, end: line.end + by },
        ),
        other => other,
    }
}

/// What is found with its offsets moved on by `by`.
pub open spec fn moved_found(found: Found, by: nat) -> Found {
    match found {
        Found::Record(frame) => Found::Record(
            Frame {
                start: frame.start + by,
                headers: frame.headers,
                body_start: frame.body_start + by,
                body_end: frame.body_end + by,
                end: frame.end + by,
            },
        ),
        other => other,
    }
}

/// A part of data is the same part, moved on, of the data after a prelude.
pub proof fn lemma_subrange_after(before: Seq<u8>, data: Seq<u8>, lo: int, hi: int)
    requires
        0 <= lo <= hi <= data.len(),
    ensures
        (before + data).subrange(lo + before.len(), hi + before.len()) == data.subrange(lo, hi),
{
    assert((before + data).subrange(lo + before.len(), hi + before.len()) =~= data.subrange(
        lo,
        hi,
    ));
}

/// A byte is found after a prelude where it is found without, moved on by
/// the length of the prelude.
pub proof fn lemma_position_after(before: Seq<u8>, data: Seq<u8>, b: u8, from: int)
    requires
        0 <= from,
    ensures
        position(before + data, b, from + before.len()) == position(data, b, from)
            + before.len(),
    decreases data.len() - from,
{
    if from < data.len() {
        assert((before + data)[from + before.len()] == data[from]);
        if data[from] != b {
            lemma_position_after(before, data, b, from + 1);
        }
    }
}

/// The text of a line ends after a prelude where it ends without, moved on.
pub proof fn lemma_text_end_after(before: Seq<u8>, data: Seq<u8>, lo: int, to: int)
    requires
        0 <= lo <= to <= data.len(),
    ensures
        text_end(before + data, lo + before.len(), to + before.len()) == text_end(data, lo, to)
            + before.len(),
    decreases to - lo,
{
    if lo < to {
        assert((before + data)[to - 1 + before.len()] == data[to - 1]);
        if is_line_break(data[to - 1]) {
            lemma_text_end_after(before, data, lo, to - 1);
        }
    }
}

/// A line after a prelude is the line without, moved on.
pub proof fn lemma_line_after(before: Seq<u8>, data: Seq<u8>, from: int)
    requires
        0 <= from <= data.len(),
    ensures
        line_end(before + data, from + before.len()) == line_end(data, from) + before.len(),
        line_text(before + data, from + before.len()) == line_text(data, from),
        (before + data).subrange(
            from + before.len(),
            line_end(before + data, from + before.len()),
        ) == data.subrange(from, line_end(data, from)),
{
    lemma_position_after(before, data, 0x0A, from);
    lemma_line_end_bounds(data, from);
    let end = line_end(data, from);
    lemma_text_end_after(before, data, from, end);
    lemma_text_end_within(data, from, end);
    lemma_subrange_after(before, data, from, end);
    lemma_subrange_after(before, data, from, text_end(data, from, end));
}

/// The search for a version line after a prelude comes to what it comes to
/// without, moved on.
pub proof fn lemma_sought_after(before: Seq<u8>, data: Seq<u8>, from: int, strict: bool)
    requires
        0 <= from,
    ensures
        sought(before + data, from + before.len(), strict) == moved_sought(
            sought(data, from, strict),
            before.len(),
        ),
    decreases data.len() - from,
{
    if from < data.len() {
        lemma_line_after(before, data, from);
        lemma_line_end_bounds(data, from);
        let end = line_end(data, from);
        let line = trimmed(data.subrange(from, end));
        if line.len() > 0 && is_version_line(line) {
        } else if line.len() > 0 && strict {
        } else {
            lemma_sought_after(before, data, end, strict);
        }
    }
}

/// A header block after a prelude is read as it is read without, and ends
/// where it ends without, moved on.
pub proof fn lemma_read_block_after(before: Seq<u8>, data: Seq<u8>, from: int, state: Reading)
    requires
        0 <= from <= data.len(),
    ensures
        read_block(before + data, from + before.len(), state) == (ReadBlock {
            block: read_block(data, from, state).block,
            end: read_block(data, from, state).end + before.len(),
        }),
    decreases data.len() - from,
{
    if from < data.len() {
        lemma_line_after(before, data, from);
        lemma_line_end_bounds(data, from);
        let line = line_text(data, from);
        if line.len() > 0 {
            lemma_read_block_after(before, data, line_end(data, from), fed(state, line));
        }
    }
}

/// What is found after a prelude is what is found without, moved on.
pub proof fn lemma_frame_after(before: Seq<u8>, data: Seq<u8>, from: int, strict: bool)
    requires
        0 <= from,
    ensures
        frame_at(before + data, from + before.len(), strict) == moved_found(
            frame_at(data, from, strict),
            before.len(),
        ),
        frame_at(data, from, strict) is Record ==> framed_record(
            before + data,
            frame_at(before + data, from + before.len(), strict)->Record_0,
        ) == moved_record(
            framed_record(data, frame_at(data, from, strict)->Record_0),
            before.len(),
        ),
{
    lemma_sought_after(before, data, from, strict);
    lemma_version_line_bounds(data, from, strict);
    match sought(data, from, strict) {
        Sought::Version(line) => {
            lemma_subrange_after(before, data, line.start, line.end);
            let start = Reading {
                block: empty_block(HeaderEncoding::Unicode).with_status_line(
                    trimmed(data.subrange(line.start, line.end)),
                ),
                awaits_status: false,
            };
            lemma_read_block_after(before, data, line.end, start);
            lemma_read_block_bounds(data, line.end, start);
            let read = read_block(data, line.end, start);
            let body_end = read.end + declared_length(read.block);
            if body_end <= data.len() {
                lemma_subrange_after(before, data, read.end, body_end);
            }
        },
        _ => {},
    }
}

/// The next record after a prelude is the next record without, with its
/// offsets moved on by the length of the prelude.
pub proof fn law_decoding_does_not_look_back(
    before: Seq<u8>,
    data: Seq<u8>,
    from: int,
    config: ArchiveIteratorConfig,
)
    requires
        0 <= from,
    ensures
        next_record(before + data, from + before.len(), config) == moved_next(
            next_record(data, from, config),
            before.len(),
        ),
    decreases data.len() - from,
{
    let by = before.len();
    lemma_frame_after(before, data, from, config.strict_mode);
    lemma_frame_bounds(data, from, config.strict_mode);
    match frame_at(data, from, config.strict_mode) {
        Found::Record(frame) => {
            let raw = framed_record(data, frame);
            let later = frame_at(before + data, from + by, config.strict_mode)->Record_0;
            assert(later.end == frame.end + by);
            assert(framed_record(before + data, later) == moved_record(raw, by));
            lemma_judged_moved(config, raw, by);
            lemma_step(data, from, config);
            lemma_step(before + data, from + by, config);
            match judged(config, raw) {
                Outcome::Skipped => {
                    law_decoding_does_not_look_back(before, data, frame.end, config);
                },
                _ => {},
            }
        },
        _ => {},
    }
}

/// One step of the iterator, as the decision on the record that is found.
proof fn lemma_step(data: Seq<u8>, from: int, config: ArchiveIteratorConfig)
    requires
        0 <= from,
        frame_at(data, from, config.strict_mode) is Record,
    ensures
        ({
            let frame = frame_at(data, from, config.strict_mode)->Record_0;
            next_record(data, from, config) == match judged(config, framed_record(data, frame)) {
                Outcome::Skipped => next_record(data, frame.end, config),
                Outcome::Failed(e) => Next { result: Err(e), pos: frame.end },
                Outcome::Yielded(record) => Next { result: Ok(Some(record)), pos: frame.end },
            }
        }),
{
    lemma_frame_bounds(data, from, config.strict_mode);
}

/// The outcome with the start offset of its record moved on by `by`.
pub open spec fn moved_outcome(outcome: Outcome, by: nat) -> Outcome {
    match outcome {
        Outcome::Yielded(record) => Outcome::Yielded(moved_record(record, by)),
        other => other,
    }
}

/// The decision on a record does not depend on where the record begins.
pub proof fn lemma_judged_moved(config: ArchiveIteratorConfig, raw: RecordView, by: nat)
    ensures
        judged(config, moved_record(raw, by)) == moved_outcome(judged(config, raw), by),
{
    assert(moved_record(raw, by).with_http_parsed() == moved_record(raw.with_http_parsed(), by));
}

/// The records with their start offsets moved on by `by`.
pub open spec fn moved_records(records: Seq<RecordView>, by: nat) -> Seq<RecordView> {
    Seq::new(records.len(), |i: int| moved_record(records[i], by))
}

/// The records after a prelude are the records without, moved on.
pub proof fn lemma_records_after(
    before: Seq<u8>,
    data: Seq<u8>,
    from: int,
    config: ArchiveIteratorConfig,
)
    requires
        0 <= from,
    ensures
        records_from(before + data, from + before.len(), config) == moved_records(
            records_from(data, from, config),
            before.len(),
        ),
    decreases data.len() - from,
{
    law_decoding_does_not_look_back(before, data, from, config);
    lemma_next_record_advances(data, from, config);
    let next = next_record(data, from, config);
    match next.result {
        Ok(Some(record)) => {
            lemma_records_after(before, data, next.pos, config);
            let rest = records_from(data, next.pos, config);
            assert(moved_records(seq![record] + rest, before.len()) =~= seq![
                moved_record(record, before.len()),
            ] + moved_records(rest, before.len()));
        },
        _ => {
            assert(moved_records(Seq::<RecordView>::empty(), before.len()) =~= Seq::<
                RecordView,
            >::empty());
        },
    }
}

/// Reading a stream record by record yields the records of the stream as a
/// whole: where a buffer holds exactly one whole record, the records of the
/// buffer followed by the records of what follows it, with their offsets
/// moved on by the length of the buffer, are the records of the two
/// together.
///
/// Digest verification must be off: with it a failure ends the records of
/// the whole, while the records after the failing one can still be read one
/// by one.
pub proof fn law_records_can_be_read_one_by_one(
    buffer: Seq<u8>,
    rest: Seq<u8>,
    config: ArchiveIteratorConfig,
)
    requires
        needed(buffer, config.strict_mode) == Need::Nothing,
        frame_at(buffer, 0, config.strict_mode)->Record_0.end == buffer.len(),
        !config.verify_digests,
    ensures
        records_from(buffer + rest, 0, config) == records_from(buffer, 0, config)
            + moved_records(records_from(rest, 0, config), buffer.len()),
{
    let data = buffer + rest;
    assert(data.subrange(0, buffer.len() as int) =~= buffer);
    law_whole_record_is_settled(data, buffer, config.strict_mode);
    let frame = frame_at(buffer, 0, config.strict_mode)->Record_0;
    let raw = framed_record(buffer, frame);
    lemma_records_after(buffer, rest, 0, config);
    let later = moved_records(records_from(rest, 0, config), buffer.len());
    assert(records_from(data, buffer.len() as int, config) == later);
    assert(records_from(buffer, buffer.len() as int, config) =~= Seq::<RecordView>::empty());
    match judged(config, raw) {
        Outcome::Skipped => {
            assert(next_record(data, 0, config) == next_record(
                data,
                buffer.len() as int,
                config,
            ));
            assert(next_record(buffer, 0, config) == next_record(
                buffer,
                buffer.len() as int,
                config,
            ));
            assert(Seq::<RecordView>::empty() + later =~= later);
        },
        Outcome::Yielded(record) => {
            assert(records_from(data, 0, config) == seq![record] + later);
            assert(records_from(buffer, 0, config) =~= seq![record]);
        },
        Outcome::Failed(e) => {},
    }
}

} // verus!
