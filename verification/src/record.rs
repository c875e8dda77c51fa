//! The WARC record: its header block, its body and what was derived from
//! them.

use crate::decimal::decimal;
use crate::decimal::to_decimal;
use crate::digest::DigestType;
use crate::digest::digest_verdict;
use crate::digest::verify_digest_of;
use crate::error::WarcError;
use crate::grammar::Reading;
use crate::grammar::parse_block_at;
use crate::grammar::read_block;
use crate::header_block::HeaderBlock;
use crate::header_block::crlf;
use crate::header_block::opt_decoded;
use crate::header_map::HeaderMap;
use crate::header_map::opt_text;
use crate::record_type::WarcRecordType;
use crate::stamp::is_timestamp;
use crate::stamp::is_uuid_text;
use crate::stamp::random_uuid;
use crate::stamp::utc_now;
use crate::text::HeaderEncoding;
use crate::text::decode;
use crate::text::charset;
use crate::text::charset_of;
use crate::text::decoded;
use crate::text::media_type;
use crate::text::media_type_of;
use crate::text::unicode_text;
use vstd::prelude::*;
use vstd::slice::slice_subrange;
use vstd::slice::slice_to_vec;
use vstd::string::StringSliceAdditionalSpecFns;
use vstd::utf8::encode_utf8;

verus! {

/// The content of a WARC record.
pub struct RecordView {
    pub record_type: WarcRecordType,
    pub headers: HeaderBlock,
    pub is_http: bool,
    pub http_parsed: bool,
    pub http_charset: Option<Seq<char>>,
    pub http_headers: Option<HeaderBlock>,
    /// The bytes of the HTTP header block that were taken off the body.
    pub http_block: Seq<u8>,
    pub content_length: nat,
    pub content: Seq<u8>,
    pub stream_pos: nat,
    pub stale: bool,
    pub frozen: bool,
}

/// A header block without status line and entries.
pub open spec fn empty_block(encoding: HeaderEncoding) -> HeaderBlock {
    HeaderBlock { encoding, status_line: Seq::empty(), headers: Seq::empty() }
}

/// The kind that a new outbound record gets: the two filter values become
/// `Unknown`, and no kind at all becomes `NoType`.
pub open spec fn normalised(record_type: Option<WarcRecordType>) -> WarcRecordType {
    match record_type {
        Some(WarcRecordType::AnyType) => WarcRecordType::Unknown,
        Some(WarcRecordType::NoType) => WarcRecordType::Unknown,
        Some(kind) => kind,
        None => WarcRecordType::NoType,
    }
}

/// The `Content-Type` of an HTTP record of the given kind.
pub open spec fn http_media_type(record_type: WarcRecordType) -> Seq<u8> {
    match record_type {
        WarcRecordType::Request => "application/http; msgtype=request".spec_bytes(),
        WarcRecordType::Response => "application/http; msgtype=response".spec_bytes(),
        _ => "application/http".spec_bytes(),
    }
}

/// The value of `WARC-Record-ID` for a URN: its text in angle brackets.
pub open spec fn record_id_of(urn: Seq<u8>) -> Seq<u8> {
    "<".spec_bytes() + encode_utf8(unicode_text(urn)) + ">".spec_bytes()
}

/// The URN of a UUID.
pub open spec fn uuid_urn(uuid: Seq<u8>) -> Seq<u8> {
    "urn:uuid:".spec_bytes() + uuid
}

/// The character set named by the `Content-Type` of an HTTP header block.
pub open spec fn http_charset_of(http: HeaderBlock) -> Option<Seq<char>> {
    match http.lookup("Content-Type".spec_bytes()) {
        Some(value) => charset_of(decoded(http.encoding, value)),
        None => None,
    }
}

impl RecordView {
    /// The body has the declared length unless the record is stale, and HTTP
    /// headers are present only once they were parsed.
    pub open spec fn well_formed(self) -> bool {
        &&& !self.stale ==> self.content.len() == self.content_length
        &&& self.http_headers is Some ==> self.http_parsed
        &&& self.headers.well_formed()
        &&& self.http_headers is Some ==> self.http_headers->Some_0.well_formed()
    }

    /// A fresh record.
    pub open spec fn fresh() -> RecordView {
        RecordView {
            record_type: WarcRecordType::Unknown,
            headers: empty_block(HeaderEncoding::Unicode),
            is_http: false,
            http_parsed: false,
            http_charset: None,
            http_headers: None,
            http_block: Seq::empty(),
            content_length: 0,
            content: Seq::empty(),
            stream_pos: 0,
            stale: false,
            frozen: false,
        }
    }

    /// The record with another kind, mirrored into `WARC-Type`.
    pub open spec fn with_type(self, record_type: WarcRecordType) -> RecordView {
        RecordView {
            record_type,
            headers: self.headers.with("WARC-Type".spec_bytes(), encode_utf8(record_type.name())),
            ..self
        }
    }

    /// The record with another HTTP flag; a set flag is mirrored into
    /// `Content-Type`.
    pub open spec fn with_http_flag(self, is_http: bool) -> RecordView {
        if is_http {
            RecordView {
                is_http,
                headers: self.headers.with(
                    "Content-Type".spec_bytes(),
                    http_media_type(self.record_type),
                ),
                ..self
            }
        } else {
            RecordView { is_http, ..self }
        }
    }

    /// The record with the mandatory headers of a new outbound record. The
    /// record is stale unless its body already has the declared length.
    pub open spec fn initialised(
        self,
        content_length: nat,
        record_type: Option<WarcRecordType>,
        urn: Seq<u8>,
        date: Seq<u8>,
    ) -> RecordView {
        let kind = normalised(record_type);
        RecordView {
            record_type: kind,
            headers: self.headers.cleared().with_status_line("WARC/1.1".spec_bytes()).appended(
                "WARC-Type".spec_bytes(),
                encode_utf8(kind.name()),
            ).appended("WARC-Date".spec_bytes(), date).appended(
                "WARC-Record-ID".spec_bytes(),
                record_id_of(urn),
            ).appended("Content-Length".spec_bytes(), decimal(content_length)),
            content_length,
            stale: self.content.len() != content_length,
            ..self
        }
    }

    /// The record with another body, its length mirrored into
    /// `Content-Length`.
    pub open spec fn with_content(self, content: Seq<u8>) -> RecordView {
        RecordView {
            content,
            content_length: content.len(),
            headers: self.headers.with("Content-Length".spec_bytes(), decimal(content.len())),
            stale: false,
            ..self
        }
    }

    /// The record after its embedded HTTP header block was parsed off the
    /// body; unchanged where that was done before or the record is no HTTP
    /// record.
    pub open spec fn with_http_parsed(self) -> RecordView {
        if self.http_parsed || !self.is_http {
            self
        } else {
            let read = read_block(
                self.content,
                0,
                Reading { block: empty_block(HeaderEncoding::Latin1), awaits_status: true },
            );
            RecordView {
                http_parsed: true,
                http_headers: Some(read.block),
                http_charset: match http_charset_of(read.block) {
                    Some(name) => Some(name),
                    None => self.http_charset,
                },
                http_block: self.content.subrange(0, read.end),
                content: self.content.subrange(read.end, self.content.len() as int),
                content_length: (self.content.len() - read.end) as nat,
                ..self
            }
        }
    }

    /// A record as it is read from a stream: frozen, with its body complete.
    pub open spec fn read_from_stream(
        headers: HeaderBlock,
        record_type: WarcRecordType,
        is_http: bool,
        content: Seq<u8>,
        stream_pos: nat,
    ) -> RecordView {
        RecordView {
            record_type,
            headers,
            is_http,
            content,
            content_length: content.len(),
            stream_pos,
            frozen: true,
            ..RecordView::fresh()
        }
    }

    /// The media type of the HTTP message, once its headers were parsed: the
    /// text of `Content-Type` before its first semicolon, without the white
    /// space around it.
    pub open spec fn http_content_type(self) -> Option<Seq<char>> {
        if self.http_parsed && self.http_headers is Some {
            let http = self.http_headers->Some_0;
            match http.lookup("Content-Type".spec_bytes()) {
                Some(value) => Some(media_type_of(decoded(http.encoding, value))),
                None => None,
            }
        } else {
            None
        }
    }

    /// The bytes of the record on the wire: the WARC header block, a blank
    /// line, the HTTP header block with its blank line where it was parsed,
    /// the body, and two line ends.
    pub open spec fn wire(self) -> Seq<u8> {
        self.headers.wire() + crlf() + self.http_wire() + self.content + crlf() + crlf()
    }

    /// The bytes of the parsed HTTP header block with its blank line.
    pub open spec fn http_wire(self) -> Seq<u8> {
        if self.http_parsed && self.http_headers is Some {
            self.http_headers->Some_0.wire() + crlf()
        } else {
            Seq::empty()
        }
    }

    /// The bytes that a digest of the given kind covers. The block digest
    /// covers the whole body, with the HTTP header block as it was read. The
    /// payload digest covers the body without the HTTP header block.
    pub open spec fn digest_data(self, digest_type: DigestType) -> Seq<u8> {
        match digest_type {
            DigestType::Block => self.http_block + self.content,
            DigestType::Payload => if self.is_http && !self.http_parsed {
                self.with_http_parsed().content
            } else {
                self.content
            },
        }
    }
}

/// A WARC record.
///
/// WARC records are cloneable, but cloning will "freeze" the WARC record.
#[derive(Debug)]
pub struct WarcRecord {
    record_type: WarcRecordType,
    headers: HeaderMap,
    is_http: bool,
    http_parsed: bool,
    http_charset: Option<String>,
    http_headers: Option<HeaderMap>,
    http_block: Vec<u8>,
    content_length: usize,
    content: Vec<u8>,
    stream_pos: usize,
    stale: bool,
    frozen: bool,
}

impl View for WarcRecord {
    type V = RecordView;

    closed spec fn view(&self) -> RecordView {
        RecordView {
            record_type: self.record_type,
            headers: self.headers@,
            is_http: self.is_http,
            http_parsed: self.http_parsed,
            http_charset: opt_text(self.http_charset),
            http_headers: match self.http_headers {
                Some(http) => Some(http@),
                None => None,
            },
            http_block: self.http_block@,
            content_length: self.content_length as nat,
            content: self.content@,
            stream_pos: self.stream_pos as nat,
            stale: self.stale,
            frozen: self.frozen,
        }
    }
}

impl WarcRecord {
    /// Create a new empty WARC record.
    pub fn new() -> (record: Self)
        ensures
            record@ == RecordView::fresh(),
    {
        WarcRecord {
            record_type: WarcRecordType::Unknown,
            headers: HeaderMap::new(HeaderEncoding::Unicode),
            is_http: false,
            http_parsed: false,
            http_charset: None,
            http_headers: None,
            http_block: Vec::new(),
            content_length: 0,
            content: Vec::new(),
            stream_pos: 0,
            stale: false,
            frozen: false,
        }
    }

    /// Record type (same as `headers['WARC-Type']`).
    pub fn record_type(&self) -> (record_type: WarcRecordType)
        ensures
            record_type == self@.record_type,
    {
        self.record_type
    }

    /// Set record type.
    pub fn set_record_type(&mut self, record_type: WarcRecordType)
        ensures
            final(self)@ == old(self)@.with_type(record_type),
    {
        self.record_type = record_type;
        self.headers.set_bytes("WARC-Type".as_bytes(), record_type.as_str().as_bytes());
    }

    /// Record ID (same as `headers['WARC-Record-ID']`).
    pub fn record_id(&self) -> (id: Option<String>)
        ensures
            opt_text(id) == opt_decoded(
                self@.headers.encoding,
                self@.headers.lookup("WARC-Record-ID".spec_bytes()),
            ),
    {
        self.headers.get("WARC-Record-ID")
    }

    /// WARC record headers.
    pub fn headers(&self) -> (headers: &HeaderMap)
        ensures
            headers@ == self@.headers,
            headers@.well_formed(),
    {
        proof {
            use_type_invariant(&self.headers);
        }
        &self.headers
    }

    /// WARC record headers (mutable).
    pub fn headers_mut(&mut self) -> (headers: &mut HeaderMap)
        ensures
            headers@ == old(self)@.headers,
            final(self)@ == (RecordView { headers: final(headers)@, ..old(self)@ }),
    {
        &mut self.headers
    }

    /// Whether record is an HTTP record.
    pub fn is_http(&self) -> (is_http: bool)
        ensures
            is_http == self@.is_http,
    {
        self.is_http
    }

    /// Set whether this record is an HTTP record.
    /// Modifying this property will also affect the `Content-Type` of this record.
    pub fn set_is_http(&mut self, is_http: bool)
        ensures
            final(self)@ == old(self)@.with_http_flag(is_http),
    {
        self.is_http = is_http;
        if is_http {
            let value = match self.record_type {
                WarcRecordType::Request => "application/http; msgtype=request",
                WarcRecordType::Response => "application/http; msgtype=response",
                _ => "application/http",
            };
            self.headers.set_bytes("Content-Type".as_bytes(), value.as_bytes());
        }
    }

    /// Whether HTTP headers have been parsed.
    pub fn is_http_parsed(&self) -> (parsed: bool)
        ensures
            parsed == self@.http_parsed,
    {
        self.http_parsed
    }

    /// HTTP headers if record is an HTTP record and HTTP headers have been parsed yet.
    pub fn http_headers(&self) -> (http: Option<&HeaderMap>)
        ensures
            match http {
                Some(map) => self@.http_headers == Some(map@) && map@.well_formed(),
                None => self@.http_headers is None,
            },
    {
        match &self.http_headers {
            Some(map) => {
                proof {
                    use_type_invariant(map);
                }
                Some(map)
            },
            None => None,
        }
    }

    /// Plain HTTP Content-Type without additional fields such as `charset=`.
    pub fn http_content_type(&self) -> (media_type: Option<String>)
        ensures
            opt_text(media_type) == self@.http_content_type(),
    {
        if !self.http_parsed {
            return None;
        }
        match &self.http_headers {
            None => None,
            Some(http) => match http.get("Content-Type") {
                None => None,
                Some(value) => Some(media_type(value.as_str())),
            },
        }
    }

    /// HTTP charset/encoding as returned by the server or `None` if no valid charset is set.
    pub fn http_charset(&self) -> (charset: Option<&str>)
        ensures
            match charset {
                Some(name) => self@.http_charset == Some(name@),
                None => self@.http_charset is None,
            },
    {
        match &self.http_charset {
            Some(name) => Some(name.as_str()),
            None => None,
        }
    }

    /// Remaining WARC record length in bytes (not necessarily the same as the `Content-Length` header).
    pub fn content_length(&self) -> (length: usize)
        ensures
            length == self@.content_length,
    {
        self.content_length
    }

    /// Get the record content as a byte slice.
    pub fn content(&self) -> (content: &[u8])
        ensures
            content@ == self@.content,
    {
        self.content.as_slice()
    }

    /// WARC record start offset in the uncompressed stream.
    pub fn stream_pos(&self) -> (offset: usize)
        ensures
            offset == self@.stream_pos,
    {
        self.stream_pos
    }

    /// Set the start offset of the record in the uncompressed stream.
    pub fn set_stream_pos(&mut self, stream_pos: usize)
        ensures
            final(self)@ == (RecordView { stream_pos: stream_pos as nat, ..old(self)@ }),
    {
        self.stream_pos = stream_pos;
    }

    /// Whether the record has been frozen.
    pub fn is_frozen(&self) -> (frozen: bool)
        ensures
            frozen == self@.frozen,
    {
        self.frozen
    }

    /// Whether the record is stale.
    pub fn is_stale(&self) -> (stale: bool)
        ensures
            stale == self@.stale,
    {
        self.stale
    }
    /// A record as it is read from a stream.
    pub(crate) fn from_stream(
        headers: HeaderMap,
        record_type: WarcRecordType,
        is_http: bool,
        content: Vec<u8>,
        stream_pos: usize,
    ) -> (record: Self)
        ensures
            record@ == RecordView::read_from_stream(
                headers@,
                record_type,
                is_http,
                content@,
                stream_pos as nat,
            ),
    {
        let content_length: usize = content.len();
        WarcRecord {
            record_type,
            headers,
            is_http,
            http_parsed: false,
            http_charset: None,
            http_headers: None,
            http_block: Vec::new(),
            content_length,
            content,
            stream_pos,
            stale: false,
            frozen: true,
        }
    }

    /// Initialize mandatory headers in a fresh WARC record instance.
    ///
    /// # Arguments
    ///
    /// * `content_length` - WARC record body length in bytes
    /// * `record_type` - WARC-Type
    /// * `record_urn` - WARC-Record-ID as URN without `'<'`, `'>'` (if unset, a random URN will be generated)
    ///
    /// The date is the current time; whatever the clock and the random
    /// source give, the record is the one that `init_headers_with` makes of
    /// them. The record is stale until its body has the declared length.
    pub fn init_headers(
        &mut self,
        content_length: usize,
        record_type: Option<WarcRecordType>,
        record_urn: Option<&[u8]>,
    )
        ensures
            exists|urn: Seq<u8>, date: Seq<u8>|
                {
                    &&& final(self)@ == #[trigger] old(self)@.initialised(
                        content_length as nat,
                        record_type,
                        urn,
                        date,
                    )
                    &&& is_timestamp(date)
                    &&& match record_urn {
                        Some(given) => urn == given@,
                        None => exists|uuid: Seq<u8>|
                            is_uuid_text(uuid) && urn == #[trigger] uuid_urn(uuid),
                    }
                },
    {
        let date = utc_now("%Y-%m-%dT%H:%M:%SZ");
        match record_urn {
            Some(given) => {
                self.init_headers_with(content_length, record_type, given, date.as_slice());
                assert(self@ == old(self)@.initialised(
                    content_length as nat,
                    record_type,
                    given@,
                    date@,
                ));
            },
            None => {
                let uuid = random_uuid();
                let mut urn = slice_to_vec("urn:uuid:".as_bytes());
                urn.extend_from_slice(uuid.as_slice());
                assert(urn@ =~= uuid_urn(uuid@));
                self.init_headers_with(content_length, record_type, urn.as_slice(), date.as_slice());
                assert(self@ == old(self)@.initialised(
                    content_length as nat,
                    record_type,
                    urn@,
                    date@,
                ));
            },
        }
    }

    /// Initialize mandatory headers with a given record URN and a given
    /// `WARC-Date`: the headers are replaced by the version line `WARC/1.1`,
    /// `WARC-Type`, `WARC-Date`, `WARC-Record-ID` and `Content-Length`. The
    /// record is stale until its body has the declared length.
    pub fn init_headers_with(
        &mut self,
        content_length: usize,
        record_type: Option<WarcRecordType>,
        record_urn: &[u8],
        date: &[u8],
    )
        ensures
            final(self)@ == old(self)@.initialised(
                content_length as nat,
                record_type,
                record_urn@,
                date@,
            ),
    {
        self.record_type = match record_type {
            Some(WarcRecordType::AnyType) => WarcRecordType::Unknown,
            Some(WarcRecordType::NoType) => WarcRecordType::Unknown,
            Some(kind) => kind,
            None => WarcRecordType::NoType,
        };
        self.headers.clear();
        self.headers.set_status_line("WARC/1.1".as_bytes());
        self.headers.append_bytes("WARC-Type".as_bytes(), self.record_type.as_str().as_bytes());
        self.headers.append_bytes("WARC-Date".as_bytes(), date);

        let urn_text = decode(HeaderEncoding::Unicode, record_urn);
        let mut record_id = slice_to_vec("<".as_bytes());
        record_id.extend_from_slice(urn_text.as_str().as_bytes());
        record_id.extend_from_slice(">".as_bytes());
        assert(record_id@ =~= record_id_of(record_urn@));
        self.headers.append_bytes("WARC-Record-ID".as_bytes(), record_id.as_slice());

        let length_text = to_decimal(content_length);
        self.headers.append_bytes("Content-Length".as_bytes(), length_text.as_slice());
        self.content_length = content_length;
        self.stale = self.content.len() != content_length;
    }

    /// Set WARC body.
    pub fn set_content(&mut self, content: Vec<u8>)
        ensures
            final(self)@ == old(self)@.with_content(content@),
    {
        self.content_length = content.len();
        self.content = content;
        let length_text = to_decimal(self.content_length);
        self.headers.set_bytes("Content-Length".as_bytes(), length_text.as_slice());
        self.stale = false;
    }

    /// Parse HTTP headers and take them off the record body.
    ///
    /// It is safe to call this method multiple times, even if the record is not an HTTP record.
    pub fn parse_http(&mut self)
        ensures
            final(self)@ == old(self)@.with_http_parsed(),
    {
        if self.http_parsed || !self.is_http {
            return ;
        }
        let mut http_headers = HeaderMap::new(HeaderEncoding::Latin1);
        let consumed: usize = parse_block_at(self.content.as_slice(), 0, &mut http_headers, true);
        let body = slice_to_vec(slice_subrange(self.content.as_slice(), consumed, self.content.len()));
        self.http_block = slice_to_vec(slice_subrange(self.content.as_slice(), 0, consumed));
        self.content = body;
        self.content_length = self.content.len();
        match http_headers.get("Content-Type") {
            Some(value) => match charset(value.as_str()) {
                Some(name) => {
                    self.http_charset = Some(name);
                },
                None => {},
            },
            None => {},
        }
        self.http_headers = Some(http_headers);
        self.http_parsed = true;
    }

    /// "Freeze" a record: a frozen record owns its whole body and no longer
    /// depends on the stream that it was read from.
    pub fn freeze(&mut self)
        ensures
            final(self)@ == (RecordView { frozen: true, ..old(self)@ }),
    {
        self.frozen = true;
    }

    /// Write WARC record into a byte sink.
    ///
    /// Returns the number of bytes written. A stale record is not written.
    pub fn write(&self, writer: &mut Vec<u8>) -> (written: Result<usize, WarcError>)
        ensures
            match written {
                Ok(n) => !self@.stale && final(writer)@ == old(writer)@ + self@.wire() && n
                    == self@.wire().len(),
                Err(e) => self@.stale && e == WarcError::StaleRecord && final(writer)@ == old(
                    writer,
                )@,
            },
    {
        if self.stale {
            return Err(WarcError::StaleRecord);
        }
        let start: usize = writer.len();
        let ghost sink = writer@;
        self.headers.write(writer);
        writer.extend_from_slice("\r\n".as_bytes());
        proof {
            crlf_bytes();
        }
        if self.http_parsed {
            match &self.http_headers {
                Some(http) => {
                    http.write(writer);
                    writer.extend_from_slice("\r\n".as_bytes());
                },
                None => {},
            }
        }
        assert(writer@ =~= sink + self@.headers.wire() + crlf() + self@.http_wire());
        writer.extend_from_slice(self.content.as_slice());
        writer.extend_from_slice("\r\n\r\n".as_bytes());
        proof {
            assert(writer@ =~= sink + self@.wire());
        }
        Ok(writer.len() - start)
    }

    /// Verify whether record digest is valid.
    ///
    /// # Arguments
    ///
    /// * `digest_str` - Digest string from header (e.g., "sha1:BASE64HASH")
    /// * `digest_type` - Type of digest (block or payload)
    ///
    /// Returns `true` if the digest is well-formed and agrees with the record.
    pub fn verify_digest(&self, digest_str: &str, digest_type: DigestType) -> (verdict: Result<
        bool,
        WarcError,
    >)
        ensures
            verdict == digest_verdict(digest_str.spec_bytes(), self@.digest_data(digest_type)),
    {
        self.verify_digest_bytes(digest_str.as_bytes(), digest_type)
    }

    /// Verify a digest header value given as bytes.
    pub fn verify_digest_bytes(&self, digest: &[u8], digest_type: DigestType) -> (verdict: Result<
        bool,
        WarcError,
    >)
        ensures
            verdict == digest_verdict(digest@, self@.digest_data(digest_type)),
    {
        match digest_type {
            DigestType::Block => {
                if self.http_block.len() == 0 {
                    assert(self@.http_block + self@.content =~= self@.content);
                    verify_digest_of(digest, self.content.as_slice())
                } else {
                    let mut whole = slice_to_vec(self.http_block.as_slice());
                    whole.extend_from_slice(self.content.as_slice());
                    assert(whole@ =~= self@.http_block + self@.content);
                    verify_digest_of(digest, whole.as_slice())
                }
            },
            DigestType::Payload => {
                if self.is_http && !self.http_parsed {
                    let mut scratch = HeaderMap::new(HeaderEncoding::Latin1);
                    let consumed: usize = parse_block_at(
                        self.content.as_slice(),
                        0,
                        &mut scratch,
                        true,
                    );
                    verify_digest_of(
                        digest,
                        slice_subrange(self.content.as_slice(), consumed, self.content.len()),
                    )
                } else {
                    verify_digest_of(digest, self.content.as_slice())
                }
            },
        }
    }
}

/// The two bytes of a line end, and the four bytes that close a record.
proof fn crlf_bytes()
    ensures
        "\r\n".spec_bytes() == crlf(),
        "\r\n\r\n".spec_bytes() == crlf() + crlf(),
{
    reveal_strlit("\r\n");
    reveal_strlit("\r\n\r\n");
    vstd::utf8::is_ascii_chars_encode_utf8("\r\n"@);
    vstd::utf8::is_ascii_chars_encode_utf8("\r\n\r\n"@);
    assert("\r\n".spec_bytes() =~= crlf());
    assert("\r\n\r\n".spec_bytes() =~= crlf() + crlf());
}

impl Clone for WarcRecord {
    /// A frozen copy of the record.
    fn clone(&self) -> (copy: Self)
        ensures
            copy@ == (RecordView { frozen: true, ..self@ }),
    {
        WarcRecord {
            record_type: self.record_type,
            headers: self.headers.clone(),
            is_http: self.is_http,
            http_parsed: self.http_parsed,
            http_charset: match &self.http_charset {
                Some(name) => Some(name.clone()),
                None => None,
            },
            http_headers: match &self.http_headers {
                Some(http) => Some(http.clone()),
                None => None,
            },
            http_block: slice_to_vec(self.http_block.as_slice()),
            content_length: self.content_length,
            content: slice_to_vec(self.content.as_slice()),
            stream_pos: self.stream_pos,
            stale: self.stale,
            frozen: true,
        }
    }
}

impl Default for WarcRecord {
    fn default() -> (record: Self)
        ensures
            record@ == RecordView::fresh(),
    {
        WarcRecord::new()
    }
}

} // verus!
