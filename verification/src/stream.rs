//! Reading a stream record by record.
//!
//! A decoder that cannot hold a whole archive reads one record at a time
//! into a buffer. What it has to read next follows from what the buffer
//! holds: another line while the version line is sought or the header block
//! is open, then the body and the separator in one piece. The buffer is then
//! decoded like an archive of its own.

use crate::archive::declared_length;
use crate::archive::content_length_of;
use crate::archive::seek;
use crate::archive::sought;
use crate::archive::Seek;
use crate::archive::Sought;
use crate::ascii::trim_ascii;
use crate::ascii::trimmed;
use crate::grammar::block_closed;
use crate::grammar::is_block_closed;
use crate::grammar::parse_block_at;
use crate::grammar::read_block;
use crate::grammar::Reading;
use crate::header_map::HeaderMap;
use crate::record::empty_block;
use crate::text::HeaderEncoding;
use vstd::prelude::*;
use vstd::slice::slice_subrange;

verus! {

/// What has to be read next into the buffer of a record.
#[derive(Debug, Clone, Copy, PartialEq, Eq, Structural)]
pub enum Need {
    /// Another line, up to and including its line feed.
    Line,
    /// This many more bytes: what is missing of the body and the four bytes
    /// of the separator.
    Bytes(usize),
    /// Nothing: the buffer holds a record with its separator.
    Nothing,
    /// Nothing: in strict mode, a line that is neither blank nor a version
    /// line has ended the records.
    End,
}

/// What has to be read next, given the bytes that were read since the end
/// of the record before. While no version line is found, and while the
/// header block after it is not closed by a blank line, another line is
/// needed. After that the body of the declared length and the separator are
/// needed, as far as the buffer does not hold them; a number of bytes beyond
/// the machine's range is cut down to that range.
pub open spec fn needed(buffer: Seq<u8>, strict: bool) -> Need {
    match sought(buffer, 0, strict) {
        Sought::Exhausted => Need::Line,
        Sought::Garbage => Need::End,
        Sought::Version(line) => if !block_closed(buffer, line.end) {
            Need::Line
        } else {
            let read = read_block(
                buffer,
                line.end,
                Reading {
                    block: empty_block(HeaderEncoding::Unicode).with_status_line(
                        trimmed(buffer.subrange(line.start, line.end)),
                    ),
                    awaits_status: false,
                },
            );
            let total = read.end + declared_length(read.block) + 4;
            if total <= buffer.len() {
                Need::Nothing
            } else if total - buffer.len() <= usize::MAX {
                Need::Bytes((total - buffer.len()) as usize)
            } else {
                Need::Bytes(usize::MAX)
            }
        },
    }
}

/// Says what has to be read next into the buffer of a record.
pub fn need(buffer: &[u8], strict: bool) -> (next: Need)
    ensures
        next == needed(buffer@, strict),
{
    match seek(buffer, 0, strict) {
        Seek::Exhausted => Need::Line,
        Seek::Garbage => Need::End,
        Seek::Version(start, end) => {
            if !is_block_closed(buffer, end) {
                return Need::Line;
            }
            let mut headers = HeaderMap::new(HeaderEncoding::Unicode);
            headers.set_status_line(trim_ascii(slice_subrange(buffer, start, end)));
            let body_start: usize = parse_block_at(buffer, end, &mut headers, false);
            let length: usize = content_length_of(&headers);
            let held: usize = buffer.len() - body_start;
            if length <= held && held - length >= 4 {
                Need::Nothing
            } else if length <= held {
                Need::Bytes(4 - (held - length))
            } else {
                let missing: usize = length - held;
                if missing <= usize::MAX - 4 {
                    Need::Bytes(missing + 4)
                } else {
                    Need::Bytes(usize::MAX)
                }
            }
        },
    }
}

} // verus!
