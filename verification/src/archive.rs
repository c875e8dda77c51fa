//! The archive iterator: decodes the records of a WARC byte stream one after
//! the other, skips those that the configuration rejects, and keeps exact
//! account of the byte offset.

use crate::ascii::contains_text;
use crate::ascii::find;
use crate::ascii::has_prefix;
use crate::ascii::matches_at;
use crate::ascii::starts_with;
use crate::ascii::trim_ascii;
use crate::ascii::trimmed;
use crate::decimal::parse_number;
use crate::decimal::parsed_up_to;
use crate::digest::DigestType;
use crate::digest::digest_verdict;
use crate::error::WarcError;
use crate::grammar::Reading;
use crate::grammar::end_of_line;
use crate::grammar::lemma_line_end_bounds;
use crate::grammar::lemma_read_block_bounds;
use crate::grammar::line_end;
use crate::grammar::parse_block_at;
use crate::grammar::read_block;
use crate::header_block::HeaderBlock;
use crate::header_map::HeaderMap;
use crate::record::RecordView;
use crate::record::WarcRecord;
use crate::record::empty_block;
use crate::record_type::WarcRecordType;
use crate::record_type::is_record_kind;
use crate::record_type::kind_spelled;
use crate::record_type::lemma_spelled_kind_is_record_kind;
use crate::text::decoded;
use crate::text::lowercased;
use crate::text::HeaderEncoding;
use vstd::prelude::*;
use vstd::slice::slice_subrange;
use vstd::slice::slice_to_vec;
use vstd::string::StringSliceAdditionalSpecFns;

verus! {

/// Archive iterator configuration.
#[derive(Debug, Clone, Copy)]
pub struct ArchiveIteratorConfig {
    /// Whether to parse HTTP records automatically
    pub parse_http: bool,
    /// Skip records which have no or an invalid block digest
    pub verify_digests: bool,
    /// Skip records with Content-Length less than this
    pub min_content_length: Option<usize>,
    /// Skip records with Content-Length larger than this
    pub max_content_length: Option<usize>,
    /// Bitmask of record types to return (others will be skipped)
    pub record_type_filter: u16,
    /// Stop at the first line between records that is neither blank nor a
    /// version line, instead of skipping it
    pub strict_mode: bool,
}

impl ArchiveIteratorConfig {
    /// The configuration that accepts every record: HTTP parsing on, digest
    /// verification off, no bounds on the length, every kind, strict mode.
    pub open spec fn standard() -> ArchiveIteratorConfig {
        ArchiveIteratorConfig {
            parse_http: true,
            verify_digests: false,
            min_content_length: None,
            max_content_length: None,
            record_type_filter: 0xFFFF,
            strict_mode: true,
        }
    }

    /// The filter decision: the kind shares a bit with the mask, and the
    /// length lies within the bounds, both of which are inclusive.
    pub open spec fn accepts(self, record_type: WarcRecordType, content_length: nat) -> bool {
        &&& record_type.bits() & self.record_type_filter != 0
        &&& match self.min_content_length {
            Some(min) => content_length >= min,
            None => true,
        }
        &&& match self.max_content_length {
            Some(max) => content_length <= max,
            None => true,
        }
    }

    /// Whether a record of the given kind and length passes the filter.
    pub fn passes(&self, record_type: WarcRecordType, content_length: usize) -> (kept: bool)
        ensures
            kept == self.accepts(record_type, content_length as nat),
    {
        if !record_type.matches_bitmask(self.record_type_filter) {
            return false;
        }
        let above = match self.min_content_length {
            Some(min) => content_length >= min,
            None => true,
        };
        let below = match self.max_content_length {
            Some(max) => content_length <= max,
            None => true,
        };
        above && below
    }
}

impl Default for ArchiveIteratorConfig {
    fn default() -> (config: Self)
        ensures
            config == ArchiveIteratorConfig::standard(),
    {
        ArchiveIteratorConfig {
            parse_http: true,
            verify_digests: false,
            min_content_length: None,
            max_content_length: None,
            record_type_filter: 0xFFFF,
            strict_mode: true,
        }
    }
}

/// A version line begins with `WARC/1.` or `WARC/0.`.
pub open spec fn is_version_line(line: Seq<u8>) -> bool {
    has_prefix(line, "WARC/1.".spec_bytes()) || has_prefix(line, "WARC/0.".spec_bytes())
}

/// A line of the data: where it begins and where the next one begins.
pub struct Line {
    pub start: int,
    pub end: int,
}

/// What a search for a version line comes to.
pub enum Sought {
    /// A version line.
    Version(Line),
    /// In strict mode, a line that is neither blank nor a version line.
    Garbage,
    /// The end of the data.
    Exhausted,
}

/// The search for a version line at or after `from`. Blank lines are passed
/// over. A line that is neither blank nor a version line ends the search in
/// strict mode and is passed over otherwise.
pub open spec fn sought(data: Seq<u8>, from: int, strict: bool) -> Sought
    decreases data.len() - from,
    when 0 <= from
    via sought_decreases
{
    if from >= data.len() {
        Sought::Exhausted
    } else {
        let end = line_end(data, from);
        let line = trimmed(data.subrange(from, end));
        if line.len() > 0 && is_version_line(line) {
            Sought::Version(Line { start: from, end })
        } else if line.len() > 0 && strict {
            Sought::Garbage
        } else {
            sought(data, end, strict)
        }
    }
}

#[via_fn]
proof fn sought_decreases(data: Seq<u8>, from: int, strict: bool) {
    if from < data.len() {
        lemma_line_end_bounds(data, from);
    }
}

/// The next version line at or after `from`, if the search finds one.
pub open spec fn version_line(data: Seq<u8>, from: int, strict: bool) -> Option<Line> {
    match sought(data, from, strict) {
        Sought::Version(line) => Some(line),
        _ => None,
    }
}

/// The kind that the headers declare: the kind whose name is the text of
/// `WARC-Type` in lower case, or `Unknown` where the header is missing or
/// names no kind.
pub open spec fn declared_type(headers: HeaderBlock) -> WarcRecordType {
    match headers.lookup("WARC-Type".spec_bytes()) {
        Some(value) => match kind_spelled(lowercased(decoded(headers.encoding, value))) {
            Some(kind) => kind,
            None => WarcRecordType::Unknown,
        },
        None => WarcRecordType::Unknown,
    }
}

/// The kind that headers declare is one of the nine that a record can have.
pub proof fn lemma_declared_type_is_record_kind(headers: HeaderBlock)
    ensures
        is_record_kind(declared_type(headers)),
{
    match headers.lookup("WARC-Type".spec_bytes()) {
        Some(value) => {
            lemma_spelled_kind_is_record_kind(lowercased(decoded(headers.encoding, value)));
        },
        None => {},
    }
}

/// The body length that the headers declare: the number in `Content-Length`,
/// or 0 where the header is missing or holds no number that fits.
pub open spec fn declared_length(headers: HeaderBlock) -> nat {
    match headers.lookup("Content-Length".spec_bytes()) {
        Some(value) => match parsed_up_to(value, usize::MAX as nat) {
            Some(n) => n,
            None => 0,
        },
        None => 0,
    }
}

/// Whether the headers declare an HTTP record: `Content-Type` holds
/// `application/http`.
pub open spec fn declared_http(headers: HeaderBlock) -> bool {
    match headers.lookup("Content-Type".spec_bytes()) {
        Some(value) => contains_text(value, "application/http".spec_bytes()),
        None => false,
    }
}

/// Where a record lies in the data.
pub struct Frame {
    /// Where the version line begins.
    pub start: int,
    /// The WARC header block, with the version line as its status line.
    pub headers: HeaderBlock,
    /// Where the body begins.
    pub body_start: int,
    /// Where the body ends.
    pub body_end: int,
    /// Where the data goes on after the record and its separator.
    pub end: int,
}

/// What is found at a place in the data.
pub enum Found {
    /// Nothing but the end of the records.
    Nothing,
    /// A record whose body is cut short.
    Truncated,
    /// A whole record.
    Record(Frame),
}

/// The record that follows at or after `from`. Its body has the declared
/// length, whatever is made of the record afterwards; four bytes of separator
/// follow it, or fewer at the end of the data.
pub open spec fn frame_at(data: Seq<u8>, from: int, strict: bool) -> Found {
    match version_line(data, from, strict) {
        None => Found::Nothing,
        Some(line) => {
            let status = trimmed(data.subrange(line.start, line.end));
            let read = read_block(
                data,
                line.end,
                Reading {
                    block: empty_block(HeaderEncoding::Unicode).with_status_line(status),
                    awaits_status: false,
                },
            );
            let body_end = read.end + declared_length(read.block);
            if body_end > data.len() {
                Found::Truncated
            } else {
                Found::Record(
                    Frame {
                        start: line.start,
                        headers: read.block,
                        body_start: read.end,
                        body_end,
                        end: if body_end + 4 <= data.len() {
                            body_end + 4
                        } else {
                            data.len() as int
                        },
                    },
                )
            }
        },
    }
}

/// The record in a frame, as it is before HTTP parsing.
pub open spec fn framed_record(data: Seq<u8>, frame: Frame) -> RecordView {
    RecordView::read_from_stream(
        frame.headers,
        declared_type(frame.headers),
        declared_http(frame.headers),
        data.subrange(frame.body_start, frame.body_end),
        frame.start as nat,
    )
}

/// What becomes of a record that was read.
pub enum Outcome {
    /// The record is passed over.
    Skipped,
    /// Decoding fails.
    Failed(WarcError),
    /// The record is handed out.
    Yielded(RecordView),
}

/// The decision on a record that was read. A record that the filter rejects
/// is skipped. Otherwise its HTTP headers are parsed where the configuration
/// asks for it; with digest verification a record without `WARC-Block-Digest`
/// or with one that does not agree is skipped, and an unknown algorithm is an
/// error.
pub open spec fn judged(config: ArchiveIteratorConfig, raw: RecordView) -> Outcome {
    let record = if config.parse_http {
        raw.with_http_parsed()
    } else {
        raw
    };
    if !config.accepts(raw.record_type, raw.content_length) {
        Outcome::Skipped
    } else if config.verify_digests {
        match record.headers.lookup("WARC-Block-Digest".spec_bytes()) {
            None => Outcome::Skipped,
            Some(digest) => match digest_verdict(digest, record.digest_data(DigestType::Block)) {
                Err(e) => Outcome::Failed(e),
                Ok(false) => Outcome::Skipped,
                Ok(true) => Outcome::Yielded(record),
            },
        }
    } else {
        Outcome::Yielded(record)
    }
}

/// The result of a step of the iterator, and the byte offset after it.
pub struct Next {
    pub result: Result<Option<RecordView>, WarcError>,
    pub pos: int,
}

/// The next record that is handed out at or after `from`. Records that are
/// skipped are passed over whole. At the end of the records, and after a
/// record whose body is cut short, the offset is the end of the data.
pub open spec fn next_record(data: Seq<u8>, from: int, config: ArchiveIteratorConfig) -> Next
    decreases data.len() - from,
    when 0 <= from
    via next_record_decreases
{
    match frame_at(data, from, config.strict_mode) {
        Found::Nothing => Next { result: Ok(None), pos: data.len() as int },
        Found::Truncated => Next {
            result: Err(WarcError::UnexpectedEof),
            pos: data.len() as int,
        },
        Found::Record(frame) => match judged(config, framed_record(data, frame)) {
            Outcome::Skipped => next_record(data, frame.end, config),
            Outcome::Failed(e) => Next { result: Err(e), pos: frame.end },
            Outcome::Yielded(record) => Next { result: Ok(Some(record)), pos: frame.end },
        },
    }
}

#[via_fn]
proof fn next_record_decreases(data: Seq<u8>, from: int, config: ArchiveIteratorConfig) {
    lemma_frame_bounds(data, from, config.strict_mode);
}

/// A version line lies inside the data, at or after the place where the
/// search began, and is not empty.
pub proof fn lemma_version_line_bounds(data: Seq<u8>, from: int, strict: bool)
    requires
        0 <= from,
    ensures
        match version_line(data, from, strict) {
            Some(line) => from <= line.start < line.end <= data.len() && line.end == line_end(
                data,
                line.start,
            ),
            None => true,
        },
    decreases data.len() - from,
{
    if from < data.len() {
        lemma_line_end_bounds(data, from);
        let end = line_end(data, from);
        let line = trimmed(data.subrange(from, end));
        if line.len() > 0 && is_version_line(line) {
        } else if line.len() > 0 && strict {
        } else {
            lemma_version_line_bounds(data, end, strict);
        }
    }
}

/// A record lies inside the data, after the place where the search began,
/// and its parts follow one another.
pub proof fn lemma_frame_bounds(data: Seq<u8>, from: int, strict: bool)
    requires
        0 <= from,
    ensures
        match frame_at(data, from, strict) {
            Found::Record(frame) => from <= frame.start < frame.body_start <= frame.body_end
                <= frame.end <= data.len(),
            _ => true,
        },
{
    lemma_version_line_bounds(data, from, strict);
    match version_line(data, from, strict) {
        Some(line) => {
            let status = trimmed(data.subrange(line.start, line.end));
            lemma_read_block_bounds(
                data,
                line.end,
                Reading {
                    block: empty_block(HeaderEncoding::Unicode).with_status_line(status),
                    awaits_status: false,
                },
            );
        },
        None => {},
    }
}

/// Whether a trimmed line is a version line.
fn check_version_line(line: &[u8]) -> (r: bool)
    ensures
        r == is_version_line(line@),
{
    starts_with(line, "WARC/1.".as_bytes()) || starts_with(line, "WARC/0.".as_bytes())
}

/// What a search for a version line has found: a version line from its
/// first byte to the first byte of the next line, a line of garbage in strict
/// mode, or the end of the data.
#[derive(Debug, Clone, Copy, PartialEq, Eq)]
pub enum Seek {
    Version(usize, usize),
    Garbage,
    Exhausted,
}

/// The outcome of a search in executable form.
pub open spec fn seek_view(found: Seek) -> Sought {
    match found {
        Seek::Version(start, end) => Sought::Version(Line { start: start as int, end: end as int }),
        Seek::Garbage => Sought::Garbage,
        Seek::Exhausted => Sought::Exhausted,
    }
}

/// Searches for a version line at or after `from`.
pub fn seek(data: &[u8], from: usize, strict: bool) -> (found: Seek)
    ensures
        seek_view(found) == sought(data@, from as int, strict),
        match found {
            Seek::Version(start, end) => from <= start < end <= data.len(),
            _ => true,
        },
{
    let mut pos: usize = from;
    while pos < data.len()
        invariant
            from <= pos,
            sought(data@, from as int, strict) == sought(data@, pos as int, strict),
        decreases data.len() - pos,
    {
        let end: usize = end_of_line(data, pos);
        let line = trim_ascii(slice_subrange(data, pos, end));
        if line.len() > 0 {
            if check_version_line(line) {
                return Seek::Version(pos, end);
            }
            if strict {
                return Seek::Garbage;
            }
        }
        pos = end;
    }
    Seek::Exhausted
}

/// Finds the next version line at or after `from`.
pub fn seek_version_line(data: &[u8], from: usize, strict: bool) -> (found: Option<(usize, usize)>)
    ensures
        match found {
            Some(line) => version_line(data@, from as int, strict) == Some(
                Line { start: line.0 as int, end: line.1 as int },
            ) && from <= line.0 < line.1 <= data.len(),
            None => version_line(data@, from as int, strict) is None,
        },
{
    match seek(data, from, strict) {
        Seek::Version(start, end) => Some((start, end)),
        _ => None,
    }
}

/// The kind that the headers declare.
pub fn record_type_of(headers: &HeaderMap) -> (kind: WarcRecordType)
    ensures
        kind == declared_type(headers@),
{
    match headers.get("WARC-Type") {
        Some(value) => match WarcRecordType::try_from(value.as_str()) {
            Ok(kind) => kind,
            Err(_) => WarcRecordType::Unknown,
        },
        None => WarcRecordType::Unknown,
    }
}

/// The body length that the headers declare.
pub fn content_length_of(headers: &HeaderMap) -> (length: usize)
    ensures
        length == declared_length(headers@),
{
    match headers.get_bytes("Content-Length".as_bytes()) {
        Some(value) => match parse_number(value.as_slice(), usize::MAX) {
            Some(n) => n,
            None => 0,
        },
        None => 0,
    }
}

/// Whether the headers declare an HTTP record.
pub fn is_http_content(headers: &HeaderMap) -> (is_http: bool)
    ensures
        is_http == declared_http(headers@),
{
    match headers.get_bytes("Content-Type".as_bytes()) {
        Some(value) => {
            let needle = "application/http".as_bytes();
            let at: usize = find(value.as_slice(), needle, 0);
            matches_at(value.as_slice(), needle, at)
        },
        None => false,
    }
}

/// The outcome of a step in executable form.
pub open spec fn result_view(result: Result<Option<WarcRecord>, WarcError>) -> Result<
    Option<RecordView>,
    WarcError,
> {
    match result {
        Ok(Some(record)) => Ok(Some(record@)),
        Ok(None) => Ok(None),
        Err(e) => Err(e),
    }
}

/// Decodes the next record of `data` at or after `from` that the
/// configuration accepts. Returns the record, or nothing at the end of the
/// records, together with the byte offset at which decoding goes on.
pub fn decode_next(data: &[u8], from: usize, config: &ArchiveIteratorConfig) -> (next: (
    Result<Option<WarcRecord>, WarcError>,
    usize,
))
    ensures
        (Next { result: result_view(next.0), pos: next.1 as int }) == next_record(
            data@,
            from as int,
            *config,
        ),
        next.1 <= data.len(),
        from <= data.len() ==> from <= next.1,
{
    let mut pos: usize = from;
    loop
        invariant
            from <= pos,
            next_record(data@, from as int, *config) == next_record(data@, pos as int, *config),
        decreases data.len() - pos,
    {
        proof {
            lemma_frame_bounds(data@, pos as int, config.strict_mode);
        }
        let line = match seek_version_line(data, pos, config.strict_mode) {
            Some(line) => line,
            None => {
                return (Ok(None), data.len());
            },
        };
        let mut headers = HeaderMap::new(HeaderEncoding::Unicode);
        headers.set_status_line(trim_ascii(slice_subrange(data, line.0, line.1)));
        let body_start: usize = parse_block_at(data, line.1, &mut headers, false);
        let length: usize = content_length_of(&headers);
        if length > data.len() - body_start {
            return (Err(WarcError::UnexpectedEof), data.len());
        }
        let body_end: usize = body_start + length;
        let end: usize = if data.len() - body_end >= 4 {
            body_end + 4
        } else {
            data.len()
        };
        let record_type = record_type_of(&headers);
        let is_http = is_http_content(&headers);
        let ghost frame = Frame {
            start: line.0 as int,
            headers: headers@,
            body_start: body_start as int,
            body_end: body_end as int,
            end: end as int,
        };
        assert(frame_at(data@, pos as int, config.strict_mode) == Found::Record(frame));
        if !config.passes(record_type, length) {
            pos = end;
            continue ;
        }
        let content = slice_to_vec(slice_subrange(data, body_start, body_end));
        let mut record = WarcRecord::from_stream(headers, record_type, is_http, content, line.0);
        assert(record@ == framed_record(data@, frame));
        if config.parse_http {
            record.parse_http();
        }
        if config.verify_digests {
            match record.headers().get_bytes("WARC-Block-Digest".as_bytes()) {
                None => {
                    pos = end;
                    continue ;
                },
                Some(digest) => match record.verify_digest_bytes(
                    digest.as_slice(),
                    DigestType::Block,
                ) {
                    Err(e) => {
                        return (Err(e), end);
                    },
                    Ok(false) => {
                        pos = end;
                        continue ;
                    },
                    Ok(true) => {},
                },
            }
        }
        return (Ok(Some(record)), end);
    }
}

/// The state of an archive iterator.
pub struct ArchiveView {
    pub data: Seq<u8>,
    pub config: ArchiveIteratorConfig,
    pub pos: nat,
}

/// WARC record stream iterator over the bytes of an archive.
pub struct ArchiveIterator {
    data: Vec<u8>,
    config: ArchiveIteratorConfig,
    current_pos: usize,
}

impl View for ArchiveIterator {
    type V = ArchiveView;

    closed spec fn view(&self) -> ArchiveView {
        ArchiveView { data: self.data@, config: self.config, pos: self.current_pos as nat }
    }
}

impl ArchiveIterator {
    #[verifier::type_invariant]
    spec fn inside(&self) -> bool {
        self.current_pos <= self.data@.len()
    }

    /// Create a new archive iterator over the bytes of an archive.
    pub fn new(data: Vec<u8>, config: ArchiveIteratorConfig) -> (iterator: Self)
        ensures
            iterator@ == (ArchiveView { data: data@, config, pos: 0 }),
    {
        ArchiveIterator { data, config, current_pos: 0 }
    }

    /// The byte offset at which the next record is looked for.
    pub fn position(&self) -> (pos: usize)
        ensures
            pos == self@.pos,
            pos <= self@.data.len(),
    {
        proof {
            use_type_invariant(self);
        }
        self.current_pos
    }

    /// Read the next WARC record from the stream.
    ///
    /// Returns `Ok(Some(record))` if a record was read, `Ok(None)` at the end
    /// of the records, or an error.
    pub fn read_next(&mut self) -> (next: Result<Option<WarcRecord>, WarcError>)
        ensures
            (Next { result: result_view(next), pos: final(self)@.pos as int }) == next_record(
                old(self)@.data,
                old(self)@.pos as int,
                old(self)@.config,
            ),
            final(self)@.data == old(self)@.data,
            final(self)@.config == old(self)@.config,
    {
        proof {
            use_type_invariant(&*self);
        }
        let next = decode_next(self.data.as_slice(), self.current_pos, &self.config);
        self.current_pos = next.1;
        next.0
    }
}

} // verus!
