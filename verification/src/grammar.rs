//! The grammar of a header block, shared by WARC headers and embedded HTTP
//! headers.
//!
//! A block is a run of lines that ends with a blank line. A line that begins
//! with white space continues the header before it; a line with a colon is a
//! header; any other line is kept as a continuation.

use crate::ascii::byte_is_space;
use crate::ascii::find_byte;
use crate::ascii::is_space;
use crate::ascii::lemma_position_bounds;
use crate::ascii::position;
use crate::header_block::HeaderBlock;
use crate::header_map::HeaderMap;
use vstd::prelude::*;
use vstd::slice::slice_subrange;

verus! {

/// Carriage return or line feed.
pub open spec fn is_line_break(b: u8) -> bool {
    b == 0x0D || b == 0x0A
}

/// Index just past the line that begins at `from`: past its line feed, or the
/// end of the data where no line feed follows.
pub open spec fn line_end(data: Seq<u8>, from: int) -> int {
    let at = position(data, 0x0A, from);
    if at < data.len() {
        at + 1
    } else {
        at
    }
}

/// Index just past the last byte of `data[lo..to]` that is no line break.
pub open spec fn text_end(data: Seq<u8>, lo: int, to: int) -> int
    decreases to - lo,
{
    if lo < to <= data.len() && is_line_break(data[to - 1]) {
        text_end(data, lo, to - 1)
    } else {
        to
    }
}

/// The line that begins at `from`, without the line breaks at its end.
pub open spec fn line_text(data: Seq<u8>, from: int) -> Seq<u8> {
    data.subrange(from, text_end(data, from, line_end(data, from)))
}

/// A header block under construction: the block read so far, and whether the
/// next line that is no continuation is the status line.
pub struct Reading {
    pub block: HeaderBlock,
    pub awaits_status: bool,
}

/// A header block that was read, and where the data goes on after it.
pub struct ReadBlock {
    pub block: HeaderBlock,
    pub end: int,
}

/// The effect of one line that is not blank.
pub open spec fn fed(state: Reading, line: Seq<u8>) -> Reading
    recommends
        line.len() > 0,
{
    let colon = position(line, 0x3A, 0);
    if is_space(line[0]) {
        Reading { block: state.block.continued(line), ..state }
    } else if state.awaits_status {
        Reading { block: state.block.with_status_line(line), awaits_status: false }
    } else if colon < line.len() {
        Reading {
            block: state.block.appended(
                line.subrange(0, colon),
                line.subrange(colon + 1, line.len() as int),
            ),
            awaits_status: false,
        }
    } else {
        Reading { block: state.block.continued(line), awaits_status: false }
    }
}

/// The header block read from `data[from..]` on top of `state`: lines are fed
/// until a blank line, which is consumed, or the end of the data.
pub open spec fn read_block(data: Seq<u8>, from: int, state: Reading) -> ReadBlock
    decreases data.len() - from,
    when 0 <= from
    via read_block_decreases
{
    if from >= data.len() {
        ReadBlock { block: state.block, end: from }
    } else {
        let line = line_text(data, from);
        if line.len() == 0 {
            ReadBlock { block: state.block, end: line_end(data, from) }
        } else {
            read_block(data, line_end(data, from), fed(state, line))
        }
    }
}

#[via_fn]
proof fn read_block_decreases(data: Seq<u8>, from: int, state: Reading) {
    if from < data.len() {
        lemma_position_bounds(data, 0x0A, from);
    }
}

/// Whether the header block that begins at `from` is closed within the
/// data by a blank line with its line feed, rather than cut off by the end of
/// the data.
pub open spec fn block_closed(data: Seq<u8>, from: int) -> bool
    decreases data.len() - from,
    when 0 <= from
    via block_closed_decreases
{
    if from >= data.len() {
        false
    } else if line_text(data, from).len() == 0 {
        data[line_end(data, from) - 1] == 0x0A
    } else {
        block_closed(data, line_end(data, from))
    }
}

#[via_fn]
proof fn block_closed_decreases(data: Seq<u8>, from: int) {
    if from < data.len() {
        lemma_position_bounds(data, 0x0A, from);
    }
}

/// A line that begins inside the data is not empty and ends inside the data.
pub proof fn lemma_line_end_bounds(data: Seq<u8>, from: int)
    requires
        0 <= from <= data.len(),
    ensures
        from <= line_end(data, from) <= data.len(),
        from < data.len() ==> from < line_end(data, from),
{
    lemma_position_bounds(data, 0x0A, from);
}

/// The text of a line ends within the line.
pub proof fn lemma_text_end_within(data: Seq<u8>, lo: int, to: int)
    requires
        0 <= lo <= to <= data.len(),
    ensures
        lo <= text_end(data, lo, to) <= to,
    decreases to - lo,
{
    if lo < to && is_line_break(data[to - 1]) {
        lemma_text_end_within(data, lo, to - 1);
    }
}

/// A header block ends inside the data, at or after the place where it began.
pub proof fn lemma_read_block_bounds(data: Seq<u8>, from: int, state: Reading)
    requires
        0 <= from <= data.len(),
    ensures
        from <= read_block(data, from, state).end <= data.len(),
    decreases data.len() - from,
{
    lemma_line_end_bounds(data, from);
    if from < data.len() {
        let line = line_text(data, from);
        if line.len() > 0 {
            lemma_read_block_bounds(data, line_end(data, from), fed(state, line));
        }
    }
}

/// Index just past the line that begins at `from`.
pub fn end_of_line(data: &[u8], from: usize) -> (end: usize)
    ensures
        end == line_end(data@, from as int),
        from <= end,
        from <= data.len() ==> end <= data.len(),
        from < data.len() ==> from < end,
{
    proof {
        if from <= data.len() {
            lemma_line_end_bounds(data@, from as int);
        }
    }
    let feed: usize = find_byte(data, 0x0A, from);
    if feed < data.len() {
        feed + 1
    } else {
        feed
    }
}

/// Finds the line that begins at `from`: the end of its text and the end of
/// the line.
fn scan_line(data: &[u8], from: usize) -> (ends: (usize, usize))
    requires
        from <= data.len(),
    ensures
        ends.1 == line_end(data@, from as int),
        ends.0 == text_end(data@, from as int, ends.1 as int),
        from <= ends.0 <= ends.1 <= data.len(),
        from < data.len() ==> from < ends.1,
{
    let end: usize = end_of_line(data, from);
    let mut stop: usize = end;
    while from < stop && (data[stop - 1] == 0x0D || data[stop - 1] == 0x0A)
        invariant
            from <= stop <= end <= data.len(),
            text_end(data@, from as int, end as int) == text_end(data@, from as int, stop as int),
        decreases stop - from,
    {
        stop -= 1;
    }
    (stop, end)
}

/// Whether the header block that begins at `from` is closed within the data
/// by a blank line with its line feed.
pub fn is_block_closed(data: &[u8], from: usize) -> (closed: bool)
    ensures
        closed == block_closed(data@, from as int),
{
    let mut pos: usize = from;
    while pos < data.len()
        invariant
            from <= pos,
            block_closed(data@, from as int) == block_closed(data@, pos as int),
        decreases data.len() - pos,
    {
        let ends = scan_line(data, pos);
        if ends.0 == pos {
            return data[ends.1 - 1] == 0x0A;
        }
        pos = ends.1;
    }
    false
}

/// Feeds one line that is not blank into `target`; returns whether the status
/// line is still awaited.
fn feed_line(target: &mut HeaderMap, awaits_status: bool, line: &[u8]) -> (still: bool)
    requires
        line.len() > 0,
    ensures
        (Reading { block: final(target)@, awaits_status: still }) == fed(
            Reading { block: old(target)@, awaits_status },
            line@,
        ),
{
    if byte_is_space(line[0]) {
        target.add_continuation(line);
        return awaits_status;
    }
    if awaits_status {
        target.set_status_line(line);
        return false;
    }
    let colon: usize = find_byte(line, 0x3A, 0);
    if colon < line.len() {
        target.append_bytes(
            slice_subrange(line, 0, colon),
            slice_subrange(line, colon + 1, line.len()),
        );
    } else {
        target.add_continuation(line);
    }
    false
}

/// Reads a header block from `data[from..]` into `target` and returns the
/// index at which the data goes on after the block.
pub fn parse_block_at(
    data: &[u8],
    from: usize,
    target: &mut HeaderMap,
    has_status_line: bool,
) -> (end: usize)
    ensures
        (ReadBlock { block: final(target)@, end: end as int }) == read_block(
            data@,
            from as int,
            Reading { block: old(target)@, awaits_status: has_status_line },
        ),
        from <= end,
        from <= data.len() ==> end <= data.len(),
{
    let mut pos: usize = from;
    let mut awaits_status = has_status_line;
    let ghost start = Reading { block: target@, awaits_status: has_status_line };
    while pos < data.len()
        invariant_except_break
            read_block(data@, from as int, start) == read_block(
                data@,
                pos as int,
                Reading { block: target@, awaits_status },
            ),
        invariant
            from <= pos,
            from <= data.len() ==> pos <= data.len(),
        ensures
            from <= pos,
            from <= data.len() ==> pos <= data.len(),
            (ReadBlock { block: target@, end: pos as int }) == read_block(data@, from as int, start),
        decreases data.len() - pos,
    {
        let ends = scan_line(data, pos);
        if ends.0 == pos {
            pos = ends.1;
            break ;
        }
        awaits_status = feed_line(target, awaits_status, slice_subrange(data, pos, ends.0));
        pos = ends.1;
    }
    pos
}

/// Parse a header block from the beginning of `reader`.
///
/// With `has_status_line` the first line that is no continuation becomes the
/// status line of `target`. Returns the number of bytes that the block takes,
/// its closing blank line included.
pub fn parse_header_block(reader: &[u8], target: &mut HeaderMap, has_status_line: bool) -> (consumed:
    usize)
    ensures
        (ReadBlock { block: final(target)@, end: consumed as int }) == read_block(
            reader@,
            0,
            Reading { block: old(target)@, awaits_status: has_status_line },
        ),
        consumed <= reader.len(),
{
    parse_block_at(reader, 0, target, has_status_line)
}

} // verus!
