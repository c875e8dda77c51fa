use fastwarc::ArchiveIterator;
use fastwarc::ArchiveIteratorConfig;
use fastwarc::HeaderEncoding;
use fastwarc::HeaderMap;
use fastwarc::WarcError;
use fastwarc::WarcRecord;
use fastwarc::WarcRecordType;
use fastwarc::archive::content_length_of;
use fastwarc::archive::decode_next;
use fastwarc::archive::is_http_content;
use fastwarc::archive::record_type_of;
use fastwarc::archive::seek;
use fastwarc::archive::Seek;
use fastwarc::archive::seek_version_line;

fn record_bytes(kind: &str, body: &[u8]) -> Vec<u8> {
    let mut out = format!("WARC/1.1\r\nWARC-Type: {}\r\nContent-Length: {}\r\n\r\n", kind, body.len())
        .into_bytes();
    out.extend_from_slice(body);
    out.extend_from_slice(b"\r\n\r\n");
    out
}

fn read_all(data: Vec<u8>, config: ArchiveIteratorConfig) -> Vec<WarcRecord> {
    let mut iterator = ArchiveIterator::new(data, config);
    let mut records = Vec::new();
    loop {
        match iterator.read_next() {
            Ok(Some(record)) => records.push(record),
            Ok(None) => break,
            Err(e) => panic!("{}", e.message()),
        }
    }
    records
}

fn mixed_archive() -> Vec<u8> {
    let mut data = Vec::new();
    data.extend_from_slice(&record_bytes("warcinfo", b"info"));
    data.extend_from_slice(&record_bytes("request", b"GET"));
    data.extend_from_slice(&record_bytes("response", b"hello"));
    data.extend_from_slice(&record_bytes("metadata", b""));
    data.extend_from_slice(&record_bytes("response", b"second one"));
    data.extend_from_slice(&record_bytes("mystery", b"?"));
    data
}

#[test]
fn default_config() {
    let config = ArchiveIteratorConfig::default();
    assert!(config.parse_http);
    assert!(!config.verify_digests);
    assert_eq!(config.min_content_length, None);
    assert_eq!(config.max_content_length, None);
    assert_eq!(config.record_type_filter, 65535);
    assert!(config.strict_mode);
}

#[test]
fn single_response_record() {
    let data = b"WARC/1.1\r\nWARC-Type: response\r\nContent-Length: 5\r\n\r\nhello\r\n\r\n".to_vec();
    let total = data.len();
    let mut iterator = ArchiveIterator::new(data, ArchiveIteratorConfig::default());
    let record = iterator.read_next().unwrap().unwrap();
    assert_eq!(record.record_type(), WarcRecordType::Response);
    assert_eq!(record.content(), b"hello");
    assert_eq!(record.stream_pos(), 0);
    assert_eq!(record.content_length(), 5);
    assert_eq!(record.headers().status_line_bytes(), b"WARC/1.1");
    assert_eq!(record.headers().len(), 2);
    assert!(record.is_frozen());
    assert!(!record.is_stale());
    assert!(!record.is_http());
    assert_eq!(iterator.position(), total);
    assert!(iterator.read_next().unwrap().is_none());
    assert!(iterator.read_next().unwrap().is_none());
    assert_eq!(iterator.position(), total);
}

#[test]
fn empty_stream_yields_nothing() {
    let mut iterator = ArchiveIterator::new(Vec::new(), ArchiveIteratorConfig::default());
    assert!(matches!(iterator.read_next(), Ok(None)));
    assert_eq!(iterator.position(), 0);
    let mut lenient = ArchiveIteratorConfig::default();
    lenient.strict_mode = false;
    let mut other = ArchiveIterator::new(Vec::new(), lenient);
    assert!(matches!(other.read_next(), Ok(None)));
}

#[test]
fn stream_of_blank_lines_yields_nothing() {
    let mut iterator = ArchiveIterator::new(b"\r\n\r\n \n\t\r\n".to_vec(), ArchiveIteratorConfig::default());
    assert!(matches!(iterator.read_next(), Ok(None)));
    assert_eq!(iterator.position(), 9);
}

#[test]
fn all_records_in_order_with_offsets() {
    let data = mixed_archive();
    let records = read_all(data.clone(), ArchiveIteratorConfig::default());
    let kinds: Vec<WarcRecordType> = records.iter().map(|r| r.record_type()).collect();
    assert_eq!(
        kinds,
        vec![
            WarcRecordType::WarcInfo,
            WarcRecordType::Request,
            WarcRecordType::Response,
            WarcRecordType::Metadata,
            WarcRecordType::Response,
            WarcRecordType::Unknown,
        ]
    );
    let mut offset = 0;
    let bodies: [&[u8]; 6] = [b"info", b"GET", b"hello", b"", b"second one", b"?"];
    let names = ["warcinfo", "request", "response", "metadata", "response", "mystery"];
    for i in 0..6 {
        assert_eq!(records[i].stream_pos(), offset);
        assert_eq!(records[i].content(), bodies[i]);
        assert!(data[offset..].starts_with(b"WARC/1.1"));
        offset += record_bytes(names[i], bodies[i]).len();
    }
    assert_eq!(offset, data.len());
}

#[test]
fn bitmask_filter_yields_only_matching_kinds() {
    let data = mixed_archive();
    let unfiltered = read_all(data.clone(), ArchiveIteratorConfig::default());
    let subsets: [&[WarcRecordType]; 5] = [
        &[WarcRecordType::Response],
        &[WarcRecordType::Request, WarcRecordType::Metadata],
        &[WarcRecordType::Unknown],
        &[WarcRecordType::Revisit],
        &[WarcRecordType::WarcInfo, WarcRecordType::Response, WarcRecordType::Unknown],
    ];
    for subset in subsets.iter() {
        let mut config = ArchiveIteratorConfig::default();
        config.record_type_filter = subset.iter().fold(0u16, |m, k| m | k.as_u16());
        let records = read_all(data.clone(), config);
        let expected: Vec<&WarcRecord> =
            unfiltered.iter().filter(|r| subset.contains(&r.record_type())).collect();
        assert_eq!(records.len(), expected.len());
        for (got, want) in records.iter().zip(expected.iter()) {
            assert_eq!(got.record_type(), want.record_type());
            assert_eq!(got.stream_pos(), want.stream_pos());
            assert_eq!(got.content(), want.content());
        }
    }
}

#[test]
fn filtered_iteration_ends_at_the_same_offset() {
    let data = mixed_archive();
    let mut config = ArchiveIteratorConfig::default();
    config.record_type_filter = WarcRecordType::NoType.as_u16();
    let mut iterator = ArchiveIterator::new(data.clone(), config);
    assert!(iterator.read_next().unwrap().is_none());
    assert_eq!(iterator.position(), data.len());

    config.record_type_filter = WarcRecordType::Response.as_u16();
    let mut filtered = ArchiveIterator::new(data.clone(), config);
    let mut all = ArchiveIterator::new(data.clone(), ArchiveIteratorConfig::default());
    let first = filtered.read_next().unwrap().unwrap();
    all.read_next().unwrap();
    all.read_next().unwrap();
    let third = all.read_next().unwrap().unwrap();
    assert_eq!(first.stream_pos(), third.stream_pos());
    assert_eq!(filtered.position(), all.position());
}

#[test]
fn content_length_bounds_are_inclusive() {
    let mut data = Vec::new();
    data.extend_from_slice(&record_bytes("resource", b"1234"));
    data.extend_from_slice(&record_bytes("resource", b"12345"));
    data.extend_from_slice(&record_bytes("resource", b"123456"));

    let mut config = ArchiveIteratorConfig::default();
    config.min_content_length = Some(5);
    let lengths: Vec<usize> = read_all(data.clone(), config).iter().map(|r| r.content_length()).collect();
    assert_eq!(lengths, vec![5, 6]);

    let mut config = ArchiveIteratorConfig::default();
    config.max_content_length = Some(5);
    let lengths: Vec<usize> = read_all(data.clone(), config).iter().map(|r| r.content_length()).collect();
    assert_eq!(lengths, vec![4, 5]);

    let mut config = ArchiveIteratorConfig::default();
    config.min_content_length = Some(5);
    config.max_content_length = Some(5);
    let records = read_all(data.clone(), config);
    assert_eq!(records.len(), 1);
    assert_eq!(records[0].content(), b"12345");

    let mut config = ArchiveIteratorConfig::default();
    config.min_content_length = Some(6);
    config.max_content_length = Some(4);
    assert!(read_all(data, config).is_empty());
}

#[test]
fn filter_decision() {
    let mut config = ArchiveIteratorConfig::default();
    assert!(config.passes(WarcRecordType::Response, 0));
    assert!(!config.passes(WarcRecordType::NoType, 0));
    config.min_content_length = Some(10);
    config.max_content_length = Some(20);
    assert!(!config.passes(WarcRecordType::Response, 9));
    assert!(config.passes(WarcRecordType::Response, 10));
    assert!(config.passes(WarcRecordType::Response, 20));
    assert!(!config.passes(WarcRecordType::Response, 21));
    config.record_type_filter = WarcRecordType::Request.as_u16();
    assert!(!config.passes(WarcRecordType::Response, 15));
    assert!(config.passes(WarcRecordType::Request, 15));
}

#[test]
fn metadata_from_headers() {
    let mut headers = HeaderMap::new(HeaderEncoding::Unicode);
    assert_eq!(record_type_of(&headers), WarcRecordType::Unknown);
    assert_eq!(content_length_of(&headers), 0);
    assert!(!is_http_content(&headers));
    headers.append("WARC-Type", "Revisit");
    headers.append("Content-Length", "123");
    headers.append("Content-Type", "application/http; msgtype=response");
    assert_eq!(record_type_of(&headers), WarcRecordType::Revisit);
    assert_eq!(content_length_of(&headers), 123);
    assert!(is_http_content(&headers));
    headers.set("WARC-Type", "RESPONSE");
    assert_eq!(record_type_of(&headers), WarcRecordType::Response);
    headers.set("WARC-Type", "anytype");
    headers.set("Content-Length", "12x");
    headers.set("Content-Type", "application/json");
    assert_eq!(record_type_of(&headers), WarcRecordType::Unknown);
    assert_eq!(content_length_of(&headers), 0);
    assert!(!is_http_content(&headers));
    headers.set("Content-Length", "-5");
    assert_eq!(content_length_of(&headers), 0);
    headers.set("Content-Length", "99999999999999999999999999");
    assert_eq!(content_length_of(&headers), 0);
    headers.set("Content-Type", "x-application/https");
    assert!(is_http_content(&headers));
    headers.set("Content-Type", "Application/HTTP");
    assert!(!is_http_content(&headers));
}

#[test]
fn duplicate_content_length_counts_as_zero() {
    let data = b"WARC/1.0\r\nContent-Length: 3\r\nContent-Length: 3\r\n\r\nabc\r\n\r\n".to_vec();
    let mut config = ArchiveIteratorConfig::default();
    config.strict_mode = false;
    let mut iterator = ArchiveIterator::new(data, config);
    let record = iterator.read_next().unwrap().unwrap();
    assert_eq!(record.content_length(), 0);
    assert_eq!(record.content(), b"");
}

#[test]
fn version_line_search() {
    assert_eq!(seek_version_line(b"WARC/1.1\r\n", 0, true), Some((0, 10)));
    assert_eq!(seek_version_line(b"\r\n\r\nWARC/1.0\r\nx", 0, true), Some((4, 14)));
    assert_eq!(seek_version_line(b"  WARC/0.18  \nrest", 0, true), Some((0, 14)));
    assert_eq!(seek_version_line(b"WARC/1.1", 0, true), Some((0, 8)));
    assert_eq!(seek_version_line(b"WARC/2.0\r\n", 0, true), None);
    assert_eq!(seek_version_line(b"warc/1.1\r\n", 0, true), None);
    assert_eq!(seek_version_line(b"junk\r\nWARC/1.1\r\n", 0, true), None);
    assert_eq!(seek_version_line(b"junk\r\nWARC/1.1\r\n", 0, false), Some((6, 16)));
    assert_eq!(seek_version_line(b"junk\r\nWARC/1.1\r\n", 6, true), Some((6, 16)));
    assert_eq!(seek_version_line(b"junk", 0, false), None);
    assert_eq!(seek_version_line(b"", 0, false), None);
}

#[test]
fn strict_mode_stops_at_garbage() {
    let mut data = b"garbage line\r\n".to_vec();
    data.extend_from_slice(&record_bytes("response", b"hello"));
    let mut iterator = ArchiveIterator::new(data.clone(), ArchiveIteratorConfig::default());
    assert!(iterator.read_next().unwrap().is_none());
    assert!(iterator.read_next().unwrap().is_none());

    let mut config = ArchiveIteratorConfig::default();
    config.strict_mode = false;
    let records = read_all(data, config);
    assert_eq!(records.len(), 1);
    assert_eq!(records[0].content(), b"hello");
    assert_eq!(records[0].stream_pos(), 14);
}

#[test]
fn garbage_between_records() {
    let mut data = record_bytes("request", b"one");
    data.extend_from_slice(b"not a record\r\n");
    data.extend_from_slice(&record_bytes("response", b"two"));
    let strict = read_all(data.clone(), ArchiveIteratorConfig::default());
    assert_eq!(strict.len(), 1);
    let mut config = ArchiveIteratorConfig::default();
    config.strict_mode = false;
    let lenient = read_all(data, config);
    assert_eq!(lenient.len(), 2);
    assert_eq!(lenient[1].content(), b"two");
}

#[test]
fn blank_lines_before_a_record_are_passed_over() {
    let mut data = b"\r\n\n".to_vec();
    data.extend_from_slice(&record_bytes("resource", b"x"));
    let records = read_all(data, ArchiveIteratorConfig::default());
    assert_eq!(records.len(), 1);
    assert_eq!(records[0].stream_pos(), 3);
}

#[test]
fn truncated_body_is_an_error() {
    let data = b"WARC/1.1\r\nWARC-Type: response\r\nContent-Length: 50\r\n\r\nshort".to_vec();
    let total = data.len();
    let mut iterator = ArchiveIterator::new(data, ArchiveIteratorConfig::default());
    assert!(matches!(iterator.read_next(), Err(WarcError::UnexpectedEof)));
    assert_eq!(iterator.position(), total);
    assert!(matches!(iterator.read_next(), Ok(None)));
}

#[test]
fn truncated_body_of_a_filtered_record_is_an_error_too() {
    let data = b"WARC/1.1\r\nWARC-Type: response\r\nContent-Length: 50\r\n\r\nshort".to_vec();
    let mut config = ArchiveIteratorConfig::default();
    config.record_type_filter = WarcRecordType::Request.as_u16();
    let mut iterator = ArchiveIterator::new(data, config);
    assert!(matches!(iterator.read_next(), Err(WarcError::UnexpectedEof)));
}

#[test]
fn missing_separator_at_end_is_tolerated() {
    let data = b"WARC/1.1\r\nWARC-Type: response\r\nContent-Length: 5\r\n\r\nhello".to_vec();
    let total = data.len();
    let mut iterator = ArchiveIterator::new(data, ArchiveIteratorConfig::default());
    let record = iterator.read_next().unwrap().unwrap();
    assert_eq!(record.content(), b"hello");
    assert_eq!(iterator.position(), total);
    assert!(iterator.read_next().unwrap().is_none());

    let mut short = b"WARC/1.1\r\nContent-Length: 5\r\n\r\nhello\r\n".to_vec();
    let total = short.len();
    short.shrink_to_fit();
    let mut iterator = ArchiveIterator::new(short, ArchiveIteratorConfig::default());
    assert_eq!(iterator.read_next().unwrap().unwrap().content(), b"hello");
    assert_eq!(iterator.position(), total);
}

#[test]
fn body_may_hold_anything() {
    let body: &[u8] = b"WARC/1.1\r\nWARC-Type: request\r\n\r\n\x00\xFF";
    let mut data = record_bytes("resource", body);
    data.extend_from_slice(&record_bytes("metadata", b"m"));
    let records = read_all(data, ArchiveIteratorConfig::default());
    assert_eq!(records.len(), 2);
    assert_eq!(records[0].content(), body);
    assert_eq!(records[1].record_type(), WarcRecordType::Metadata);
}

fn http_archive() -> Vec<u8> {
    let body: &[u8] = b"HTTP/1.1 404 Not Found\r\nContent-Type: text/html; charset=Windows-1252\r\n\r\n<p>gone</p>";
    let mut data = format!(
        "WARC/1.0\r\nWARC-Type: response\r\nContent-Type: application/http; msgtype=response\r\nContent-Length: {}\r\n\r\n",
        body.len()
    )
    .into_bytes();
    data.extend_from_slice(body);
    data.extend_from_slice(b"\r\n\r\n");
    data
}

#[test]
fn http_records_are_parsed_by_default() {
    let records = read_all(http_archive(), ArchiveIteratorConfig::default());
    assert_eq!(records.len(), 1);
    let record = &records[0];
    assert!(record.is_http());
    assert!(record.is_http_parsed());
    assert_eq!(record.content(), b"<p>gone</p>");
    assert_eq!(record.content_length(), 11);
    assert_eq!(record.http_headers().unwrap().status_code(), Some(404));
    assert_eq!(record.http_charset(), Some("windows-1252"));
    assert_eq!(record.http_content_type(), Some("text/html".to_string()));
    assert_eq!(record.headers().status_line_bytes(), b"WARC/1.0");
}

#[test]
fn http_parsing_can_be_switched_off() {
    let mut config = ArchiveIteratorConfig::default();
    config.parse_http = false;
    let records = read_all(http_archive(), config);
    let record = &records[0];
    assert!(record.is_http());
    assert!(!record.is_http_parsed());
    assert!(record.http_headers().is_none());
    assert!(record.content().starts_with(b"HTTP/1.1 404"));
    assert_eq!(record.content_length(), 84);
}

#[test]
fn length_filter_uses_the_declared_length() {
    let mut config = ArchiveIteratorConfig::default();
    config.min_content_length = Some(84);
    assert_eq!(read_all(http_archive(), config).len(), 1);
    config.min_content_length = Some(85);
    assert_eq!(read_all(http_archive(), config).len(), 0);
}

fn digest_record(kind: &str, digest: Option<&str>, body: &[u8]) -> Vec<u8> {
    let mut out = format!("WARC/1.1\r\nWARC-Type: {}\r\n", kind).into_bytes();
    if let Some(d) = digest {
        out.extend_from_slice(format!("WARC-Block-Digest: {}\r\n", d).as_bytes());
    }
    out.extend_from_slice(format!("Content-Length: {}\r\n\r\n", body.len()).as_bytes());
    out.extend_from_slice(body);
    out.extend_from_slice(b"\r\n\r\n");
    out
}

#[test]
fn digest_verification_skips_bad_records() {
    let mut data = Vec::new();
    data.extend_from_slice(&digest_record("resource", Some("sha1:qvTGHdzF6KLavt4PO0gs2a6pQ00="), b"hello"));
    data.extend_from_slice(&digest_record("resource", Some("sha1:qvTGHdzF6KLavt4PO0gs2a6pQ00="), b"HELLO"));
    data.extend_from_slice(&digest_record("resource", None, b"hello"));
    data.extend_from_slice(&digest_record("resource", Some("garbage"), b"hello"));
    data.extend_from_slice(&digest_record("metadata", Some("md5:XUFAKrxLKna5cZ2REBfFkg=="), b"hello"));

    assert_eq!(read_all(data.clone(), ArchiveIteratorConfig::default()).len(), 5);

    let mut config = ArchiveIteratorConfig::default();
    config.verify_digests = true;
    let records = read_all(data.clone(), config);
    assert_eq!(records.len(), 2);
    assert_eq!(records[0].record_type(), WarcRecordType::Resource);
    assert_eq!(records[0].stream_pos(), 0);
    assert_eq!(records[1].record_type(), WarcRecordType::Metadata);
}

#[test]
fn digest_verification_fails_on_unknown_algorithm() {
    let mut data = Vec::new();
    data.extend_from_slice(&digest_record("resource", Some("whirlpool:abc"), b"hello"));
    let after_first = data.len();
    data.extend_from_slice(&digest_record("resource", Some("sha1:qvTGHdzF6KLavt4PO0gs2a6pQ00="), b"hello"));
    let mut config = ArchiveIteratorConfig::default();
    config.verify_digests = true;
    let mut iterator = ArchiveIterator::new(data.clone(), config);
    assert!(matches!(iterator.read_next(), Err(WarcError::UnsupportedAlgorithm)));
    assert_eq!(iterator.position(), after_first);
    let next = iterator.read_next().unwrap().unwrap();
    assert_eq!(next.stream_pos(), after_first);

    config.record_type_filter = WarcRecordType::Request.as_u16();
    let mut filtered = ArchiveIterator::new(data, config);
    assert!(matches!(filtered.read_next(), Ok(None)));
}

#[test]
fn digest_verification_of_http_record_covers_whole_block() {
    let body: &[u8] = b"HTTP/1.1 200 OK\r\nA: b\r\n\r\nhello";
    let digest = String::from_utf8(fastwarc::DigestAlgorithm::Sha1.digest(body)).unwrap();
    let mut data = format!(
        "WARC/1.1\r\nWARC-Type: response\r\nContent-Type: application/http\r\nWARC-Block-Digest: sha1:{}\r\nContent-Length: {}\r\n\r\n",
        digest,
        body.len()
    )
    .into_bytes();
    data.extend_from_slice(body);
    data.extend_from_slice(b"\r\n\r\n");
    let mut config = ArchiveIteratorConfig::default();
    config.verify_digests = true;
    let records = read_all(data, config);
    assert_eq!(records.len(), 1);
    assert!(records[0].is_http_parsed());
    assert_eq!(records[0].content(), b"hello");
}

#[test]
fn decode_next_on_plain_bytes() {
    let data = mixed_archive();
    let config = ArchiveIteratorConfig::default();
    let (first, pos) = decode_next(&data, 0, &config);
    assert_eq!(first.unwrap().unwrap().record_type(), WarcRecordType::WarcInfo);
    assert_eq!(pos, record_bytes("warcinfo", b"info").len());
    let (second, _) = decode_next(&data, pos, &config);
    assert_eq!(second.unwrap().unwrap().stream_pos(), pos);
    let (last, end) = decode_next(&data, data.len(), &config);
    assert!(last.unwrap().is_none());
    assert_eq!(end, data.len());
}

#[test]
fn written_record_reads_back() {
    let mut record = WarcRecord::new();
    record.init_headers(0, Some(WarcRecordType::Conversion), None);
    record.set_content(b"some \r\n\r\n content\x00".to_vec());
    let mut wire: Vec<u8> = Vec::new();
    let written = record.write(&mut wire).unwrap();
    assert_eq!(written, wire.len());
    let mut iterator = ArchiveIterator::new(wire, ArchiveIteratorConfig::default());
    let back = iterator.read_next().unwrap().unwrap();
    assert_eq!(back.record_type(), record.record_type());
    assert_eq!(back.content(), record.content());
    assert_eq!(back.record_id(), record.record_id());
    assert_eq!(back.headers().to_tuples(), record.headers().to_tuples());
    assert_eq!(iterator.position(), written);
    assert!(iterator.read_next().unwrap().is_none());
}

#[test]
fn written_records_of_each_kind_read_back() {
    let kinds = [
        WarcRecordType::WarcInfo,
        WarcRecordType::Response,
        WarcRecordType::Resource,
        WarcRecordType::Request,
        WarcRecordType::Metadata,
        WarcRecordType::Revisit,
        WarcRecordType::Conversion,
        WarcRecordType::Continuation,
        WarcRecordType::Unknown,
    ];
    let mut wire: Vec<u8> = Vec::new();
    for (i, kind) in kinds.iter().enumerate() {
        let mut record = WarcRecord::new();
        let urn = format!("urn:test:{}", i);
        record.init_headers(0, Some(*kind), Some(urn.as_bytes()));
        record.set_content(vec![b'x'; i * 3]);
        record.write(&mut wire).unwrap();
    }
    let records = read_all(wire, ArchiveIteratorConfig::default());
    assert_eq!(records.len(), 9);
    for (i, kind) in kinds.iter().enumerate() {
        assert_eq!(records[i].record_type(), *kind);
        assert_eq!(records[i].content().len(), i * 3);
        assert_eq!(records[i].record_id(), Some(format!("<urn:test:{}>", i)));
    }
}

#[test]
fn search_outcomes() {
    assert_eq!(seek(b"\r\nWARC/1.1\r\n", 0, true), Seek::Version(2, 12));
    assert_eq!(seek(b"junk\r\nWARC/1.1\r\n", 0, true), Seek::Garbage);
    assert_eq!(seek(b"junk\r\nWARC/1.1\r\n", 0, false), Seek::Version(6, 16));
    assert_eq!(seek(b"junk\r\n", 0, false), Seek::Exhausted);
    assert_eq!(seek(b"\r\n \r\n", 0, true), Seek::Exhausted);
    assert_eq!(seek(b"WARC/1.1", 50, true), Seek::Exhausted);
}
