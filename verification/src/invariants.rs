//! The invariants of header blocks and records: every operation keeps them.

use crate::archive::ArchiveIteratorConfig;
use crate::archive::Found;
use crate::archive::Outcome;
use crate::archive::declared_http;
use crate::archive::frame_at;
use crate::archive::framed_record;
use crate::archive::judged;
use crate::archive::lemma_frame_bounds;
use crate::archive::lemma_version_line_bounds;
use crate::archive::next_record;
use crate::archive::version_line;
use crate::ascii::contains_text;
use crate::ascii::has_prefix;
use crate::ascii::is_trimmed;
use crate::ascii::lemma_trim_identity;
use crate::ascii::lemma_trimmed_is_trimmed;
use crate::ascii::occurs_at;
use crate::ascii::position;
use crate::ascii::search;
use crate::ascii::trimmed;
use crate::decimal::decimal;
use crate::grammar::Reading;
use crate::grammar::fed;
use crate::grammar::lemma_line_end_bounds;
use crate::grammar::lemma_read_block_bounds;
use crate::grammar::line_end;
use crate::grammar::line_text;
use crate::grammar::read_block;
use crate::header_block::HeaderBlock;
use crate::header_block::all_trimmed;
use crate::header_block::first_match;
use crate::header_block::lemma_first_match_bounds;
use crate::header_block::without_key;
use crate::record::RecordView;
use crate::record::empty_block;
use crate::record::http_media_type;
use crate::record::normalised;
use crate::record::record_id_of;
use crate::record_type::WarcRecordType;
use crate::text::HeaderEncoding;
use vstd::prelude::*;
use vstd::string::StringSliceAdditionalSpecFns;
use vstd::utf8::encode_utf8;

verus! {

/// Removing a key leaves trimmed entries trimmed.
pub proof fn lemma_without_key_trimmed(headers: Seq<(Seq<u8>, Seq<u8>)>, key: Seq<u8>)
    requires
        all_trimmed(headers),
    ensures
        all_trimmed(without_key(headers, key)),
    decreases headers.len(),
{
    if headers.len() > 0 {
        let front = headers.drop_last();
        assert forall|i: int| 0 <= i < front.len() implies is_trimmed((#[trigger] front[i]).0)
            && is_trimmed(front[i].1) by {
            assert(front[i] == headers[i]);
        }
        lemma_without_key_trimmed(front, key);
        assert(headers[headers.len() - 1] == headers.last());
    }
}

/// Every operation on a header block keeps its keys and values free of
/// surrounding white space, and a new block has none that are not.
pub proof fn law_header_block_stays_well_formed(
    block: HeaderBlock,
    key: Seq<u8>,
    value: Seq<u8>,
)
    requires
        block.well_formed(),
    ensures
        empty_block(block.encoding).well_formed(),
        block.appended(key, value).well_formed(),
        block.with(key, value).well_formed(),
        block.continued(value).well_formed(),
        block.with_status_line(value).well_formed(),
        block.cleared().well_formed(),
{
    lemma_trimmed_is_trimmed(key);
    lemma_trimmed_is_trimmed(value);
    let headers = block.headers;
    let entry = (trimmed(key), trimmed(value));
    assert(all_trimmed(headers.push(entry))) by {
        assert forall|i: int| 0 <= i < headers.push(entry).len() implies is_trimmed(
            (#[trigger] headers.push(entry)[i]).0,
        ) && is_trimmed(headers.push(entry)[i].1) by {
            if i < headers.len() {
                assert(headers.push(entry)[i] == headers[i]);
            }
        }
    }
    let name = trimmed(key);
    let at = first_match(headers, name, 0);
    lemma_first_match_bounds(headers, name, 0);
    if at < headers.len() {
        let rest = headers.subrange(at + 1, headers.len() as int);
        assert(all_trimmed(rest)) by {
            assert forall|i: int| 0 <= i < rest.len() implies is_trimmed((#[trigger] rest[i]).0)
                && is_trimmed(rest[i].1) by {
                assert(rest[i] == headers[at + 1 + i]);
            }
        }
        lemma_without_key_trimmed(rest, name);
        let kept = without_key(rest, name);
        let out = headers.subrange(0, at).push(entry) + kept;
        assert forall|i: int| 0 <= i < out.len() implies is_trimmed((#[trigger] out[i]).0)
            && is_trimmed(out[i].1) by {
            if i < at {
                assert(out[i] == headers[i]);
            } else if i == at {
                assert(out[i] == entry);
            } else {
                assert(out[i] == kept[i - at - 1]);
            }
        }
    }
    if headers.len() == 0 {
        let only = seq![(Seq::<u8>::empty(), trimmed(value))];
        assert(all_trimmed(only));
    } else {
        let last = headers.last();
        let joined_value = trimmed(last.1 + seq![0x20u8] + trimmed(value));
        lemma_trimmed_is_trimmed(last.1 + seq![0x20u8] + trimmed(value));
        let out = headers.update(headers.len() - 1, (last.0, joined_value));
        assert(headers[headers.len() - 1] == last);
        assert forall|i: int| 0 <= i < out.len() implies is_trimmed((#[trigger] out[i]).0)
            && is_trimmed(out[i].1) by {
            if i < headers.len() - 1 {
                assert(out[i] == headers[i]);
            }
        }
    }
}

/// Reading a header block from any data keeps keys and values free of
/// surrounding white space.
pub proof fn law_read_block_is_well_formed(data: Seq<u8>, from: int, state: Reading)
    requires
        0 <= from,
        state.block.well_formed(),
    ensures
        read_block(data, from, state).block.well_formed(),
    decreases data.len() - from,
{
    if from < data.len() {
        lemma_line_end_bounds(data, from);
        let line = line_text(data, from);
        if line.len() > 0 {
            let colon = position(line, 0x3A, 0);
            law_header_block_stays_well_formed(state.block, line, line);
            law_header_block_stays_well_formed(
                state.block,
                line.subrange(0, colon),
                line.subrange(colon + 1, line.len() as int),
            );
            law_read_block_is_well_formed(data, line_end(data, from), fed(state, line));
        }
    }
}

/// A fresh record is well-formed, and every operation on a record keeps it
/// so: the body has the declared length unless the record is stale, HTTP
/// headers are present only once they were parsed, and header keys and values
/// are free of surrounding white space.
pub proof fn law_record_stays_well_formed(
    record: RecordView,
    record_type: WarcRecordType,
    kind: Option<WarcRecordType>,
    flag: bool,
    length: nat,
    urn: Seq<u8>,
    date: Seq<u8>,
    content: Seq<u8>,
    headers: HeaderBlock,
)
    requires
        record.well_formed(),
        headers.well_formed(),
    ensures
        RecordView::fresh().well_formed(),
        record.with_type(record_type).well_formed(),
        record.with_http_flag(flag).well_formed(),
        record.initialised(length, kind, urn, date).well_formed(),
        record.with_content(content).well_formed(),
        record.with_http_parsed().well_formed(),
        (RecordView { frozen: true, ..record }).well_formed(),
        (RecordView { headers, ..record }).well_formed(),
        RecordView::read_from_stream(headers, record_type, flag, content, length).well_formed(),
{
    law_header_block_stays_well_formed(
        record.headers,
        "WARC-Type".spec_bytes(),
        encode_utf8(record_type.name()),
    );
    law_header_block_stays_well_formed(
        record.headers,
        "Content-Type".spec_bytes(),
        http_media_type(record.record_type),
    );
    law_header_block_stays_well_formed(
        record.headers,
        "Content-Length".spec_bytes(),
        decimal(content.len()),
    );
    lemma_initialised_headers(record.headers, kind, urn, date, length);
    if !record.http_parsed && record.is_http {
        law_read_block_is_well_formed(
            record.content,
            0,
            Reading { block: empty_block(HeaderEncoding::Latin1), awaits_status: true },
        );
        lemma_read_block_bounds(
            record.content,
            0,
            Reading { block: empty_block(HeaderEncoding::Latin1), awaits_status: true },
        );
    }
}

/// The headers of a new outbound record are free of surrounding white space.
proof fn lemma_initialised_headers(
    before: HeaderBlock,
    kind: Option<WarcRecordType>,
    urn: Seq<u8>,
    date: Seq<u8>,
    length: nat,
)
    ensures
        (RecordView { headers: before, ..RecordView::fresh() }).initialised(
            length,
            kind,
            urn,
            date,
        ).headers.well_formed(),
{
    let start = RecordView { headers: before, ..RecordView::fresh() };
    let name = encode_utf8(normalised(kind).name());
    let b0 = before.cleared().with_status_line("WARC/1.1".spec_bytes());
    let b1 = b0.appended("WARC-Type".spec_bytes(), name);
    let b2 = b1.appended("WARC-Date".spec_bytes(), date);
    let b3 = b2.appended("WARC-Record-ID".spec_bytes(), record_id_of(urn));
    let b4 = b3.appended("Content-Length".spec_bytes(), decimal(length));
    assert(b0.well_formed());
    law_header_block_stays_well_formed(b0, "WARC-Type".spec_bytes(), name);
    law_header_block_stays_well_formed(b1, "WARC-Date".spec_bytes(), date);
    law_header_block_stays_well_formed(
        b2,
        "WARC-Record-ID".spec_bytes(),
        record_id_of(urn),
    );
    law_header_block_stays_well_formed(
        b3,
        "Content-Length".spec_bytes(),
        decimal(length),
    );
    assert(start.initialised(length, kind, urn, date).headers == b4);
}

/// Every record that the iterator hands out is well-formed.
pub proof fn law_decoded_record_is_well_formed(
    data: Seq<u8>,
    from: int,
    config: ArchiveIteratorConfig,
)
    requires
        0 <= from,
    ensures
        match next_record(data, from, config).result {
            Ok(Some(record)) => record.well_formed() && record.frozen && !record.stale,
            _ => true,
        },
    decreases data.len() - from,
{
    lemma_frame_bounds(data, from, config.strict_mode);
    lemma_version_line_bounds(data, from, config.strict_mode);
    match frame_at(data, from, config.strict_mode) {
        Found::Record(frame) => {
            let line = version_line(data, from, config.strict_mode)->Some_0;
            let status = trimmed(data.subrange(line.start, line.end));
            law_read_block_is_well_formed(
                data,
                line.end,
                Reading {
                    block: empty_block(HeaderEncoding::Unicode).with_status_line(status),
                    awaits_status: false,
                },
            );
            let raw = framed_record(data, frame);
            law_record_stays_well_formed(
                raw,
                raw.record_type,
                None,
                false,
                0,
                Seq::empty(),
                Seq::empty(),
                Seq::empty(),
                raw.headers,
            );
            match judged(config, raw) {
                Outcome::Skipped => {
                    law_decoded_record_is_well_formed(data, frame.end, config);
                },
                _ => {},
            }
        },
        _ => {},
    }
}

/// The media types of HTTP records begin with `application/http` and are
/// free of surrounding white space.
pub proof fn lemma_http_media_types(record_type: WarcRecordType)
    ensures
        has_prefix(http_media_type(record_type), "application/http".spec_bytes()),
        contains_text(http_media_type(record_type), "application/http".spec_bytes()),
        is_trimmed(http_media_type(record_type)),
{
    reveal_strlit("application/http; msgtype=request");
    vstd::utf8::is_ascii_chars_encode_utf8("application/http; msgtype=request"@);
    assert("application/http; msgtype=request".spec_bytes() =~= seq![0x61u8, 0x70u8, 0x70u8, 0x6Cu8, 0x69u8, 0x63u8, 0x61u8, 0x74u8, 0x69u8, 0x6Fu8, 0x6Eu8, 0x2Fu8, 0x68u8, 0x74u8, 0x74u8, 0x70u8, 0x3Bu8, 0x20u8, 0x6Du8, 0x73u8, 0x67u8, 0x74u8, 0x79u8, 0x70u8, 0x65u8, 0x3Du8, 0x72u8, 0x65u8, 0x71u8, 0x75u8, 0x65u8, 0x73u8, 0x74u8]);
    reveal_strlit("application/http; msgtype=response");
    vstd::utf8::is_ascii_chars_encode_utf8("application/http; msgtype=response"@);
    assert("application/http; msgtype=response".spec_bytes() =~= seq![0x61u8, 0x70u8, 0x70u8, 0x6Cu8, 0x69u8, 0x63u8, 0x61u8, 0x74u8, 0x69u8, 0x6Fu8, 0x6Eu8, 0x2Fu8, 0x68u8, 0x74u8, 0x74u8, 0x70u8, 0x3Bu8, 0x20u8, 0x6Du8, 0x73u8, 0x67u8, 0x74u8, 0x79u8, 0x70u8, 0x65u8, 0x3Du8, 0x72u8, 0x65u8, 0x73u8, 0x70u8, 0x6Fu8, 0x6Eu8, 0x73u8, 0x65u8]);
    reveal_strlit("application/http");
    vstd::utf8::is_ascii_chars_encode_utf8("application/http"@);
    assert("application/http".spec_bytes() =~= seq![0x61u8, 0x70u8, 0x70u8, 0x6Cu8, 0x69u8, 0x63u8, 0x61u8, 0x74u8, 0x69u8, 0x6Fu8, 0x6Eu8, 0x2Fu8, 0x68u8, 0x74u8, 0x74u8, 0x70u8]);
    let marker = "application/http".spec_bytes();
    let value = http_media_type(record_type);
    assert(value.subrange(0, 16) =~= marker);
    assert(occurs_at(value, marker, 0));
    assert(search(value, marker, 0) == 0);
}

/// Setting the kind of a record mirrors it into `WARC-Type`, and setting the
/// HTTP flag mirrors it into `Content-Type`: after either call the header
/// holds exactly the value that belongs to the typed field, so that headers
/// and typed fields do not diverge.
pub proof fn law_typed_fields_are_mirrored(record: RecordView, record_type: WarcRecordType)
    ensures
        record.with_type(record_type).record_type == record_type,
        record.with_type(record_type).headers.lookup("WARC-Type".spec_bytes()) == Some(
            encode_utf8(record_type.name()),
        ),
        record.with_http_flag(true).is_http,
        record.with_http_flag(true).headers.lookup("Content-Type".spec_bytes()) == Some(
            http_media_type(record.record_type),
        ),
        has_prefix(http_media_type(record.record_type), "application/http".spec_bytes()),
        declared_http(record.with_http_flag(true).headers),
{
    crate::round_trip::lemma_header_names_differ();
    crate::round_trip::lemma_kind_names_plain(record_type);
    lemma_http_media_types(record.record_type);
    let name = encode_utf8(record_type.name());
    lemma_trim_identity(name);
    lemma_trim_identity(http_media_type(record.record_type));
    lemma_trim_identity("WARC-Type".spec_bytes());
    lemma_trim_identity("Content-Type".spec_bytes());
    crate::laws::lemma_set_leaves_one(record.headers, "WARC-Type".spec_bytes(), name);
    crate::laws::lemma_set_leaves_one(
        record.headers,
        "Content-Type".spec_bytes(),
        http_media_type(record.record_type),
    );
}

} // verus!
