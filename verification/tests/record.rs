use fastwarc::DigestType;
use fastwarc::HeaderEncoding;
use fastwarc::WarcError;
use fastwarc::WarcRecord;
use fastwarc::WarcRecordType;

fn pair(k: &str, v: &str) -> (String, String) {
    (k.to_string(), v.to_string())
}

const HTTP_BODY: &[u8] =
    b"HTTP/1.1 200 OK\r\nContent-Type: text/html; charset=UTF-8\r\nServer: t\r\n\r\n<html></html>";

fn http_record() -> WarcRecord {
    let mut record = WarcRecord::new();
    record.init_headers_with(0, Some(WarcRecordType::Response), b"urn:test:1", b"2024-01-02T03:04:05Z");
    record.set_is_http(true);
    record.set_content(HTTP_BODY.to_vec());
    record
}

#[test]
fn fresh_record() {
    let record = WarcRecord::new();
    assert_eq!(record.record_type(), WarcRecordType::Unknown);
    assert!(record.headers().is_empty());
    assert_eq!(record.headers().encoding(), HeaderEncoding::Unicode);
    assert!(!record.is_http());
    assert!(!record.is_http_parsed());
    assert!(record.http_headers().is_none());
    assert_eq!(record.http_charset(), None);
    assert_eq!(record.http_content_type(), None);
    assert_eq!(record.content_length(), 0);
    assert_eq!(record.content(), b"");
    assert_eq!(record.stream_pos(), 0);
    assert!(!record.is_stale());
    assert!(!record.is_frozen());
    assert_eq!(record.record_id(), None);
}

#[test]
fn default_is_fresh() {
    let record = WarcRecord::default();
    assert_eq!(record.record_type(), WarcRecordType::Unknown);
    assert!(record.headers().is_empty());
    assert_eq!(record.content_length(), 0);
}

#[test]
fn init_headers_with_given_values() {
    let mut record = WarcRecord::new();
    record.headers_mut().append("Old", "gone");
    record.init_headers_with(5, Some(WarcRecordType::Resource), b"urn:x:y", b"2020-02-03T04:05:06Z");
    assert_eq!(record.record_type(), WarcRecordType::Resource);
    assert_eq!(record.headers().status_line_bytes(), b"WARC/1.1");
    assert_eq!(
        record.headers().to_tuples(),
        vec![
            pair("WARC-Type", "resource"),
            pair("WARC-Date", "2020-02-03T04:05:06Z"),
            pair("WARC-Record-ID", "<urn:x:y>"),
            pair("Content-Length", "5"),
        ]
    );
    assert_eq!(record.content_length(), 5);
    assert_eq!(record.record_id(), Some("<urn:x:y>".to_string()));
}

#[test]
fn init_headers_normalises_kind() {
    let mut record = WarcRecord::new();
    record.init_headers_with(0, Some(WarcRecordType::AnyType), b"u", b"d");
    assert_eq!(record.record_type(), WarcRecordType::Unknown);
    assert_eq!(record.headers().get("WARC-Type"), Some("unknown".to_string()));
    record.init_headers_with(0, Some(WarcRecordType::NoType), b"u", b"d");
    assert_eq!(record.record_type(), WarcRecordType::Unknown);
    record.init_headers_with(0, None, b"u", b"d");
    assert_eq!(record.record_type(), WarcRecordType::NoType);
    assert_eq!(record.headers().get("WARC-Type"), Some("unknown".to_string()));
    record.init_headers_with(0, Some(WarcRecordType::Metadata), b"u", b"d");
    assert_eq!(record.record_type(), WarcRecordType::Metadata);
}

#[test]
fn init_headers_with_urn_that_is_not_utf8() {
    let mut record = WarcRecord::new();
    record.init_headers_with(0, None, &[0x75, 0xFF], b"d");
    assert_eq!(record.headers().get_bytes(b"WARC-Record-ID"), Some("<u\u{fffd}>".as_bytes().to_vec()));
}

#[test]
fn init_headers_uses_the_given_urn() {
    let mut record = WarcRecord::new();
    record.init_headers(3, Some(WarcRecordType::Request), Some(b"urn:uuid:given"));
    assert_eq!(record.record_id(), Some("<urn:uuid:given>".to_string()));
    assert_eq!(record.record_type(), WarcRecordType::Request);
    assert_eq!(record.content_length(), 3);
    assert_eq!(
        record.headers().keys(),
        vec![
            "WARC-Type".to_string(),
            "WARC-Date".to_string(),
            "WARC-Record-ID".to_string(),
            "Content-Length".to_string()
        ]
    );
    assert_eq!(record.headers().status_line_bytes(), b"WARC/1.1");
}

#[test]
fn init_headers_makes_a_random_urn() {
    let mut record = WarcRecord::new();
    record.init_headers(0, None, None);
    let id = record.record_id().unwrap();
    assert_eq!(id.len(), 47);
    assert!(id.starts_with("<urn:uuid:"));
    assert!(id.ends_with('>'));
    let uuid = &id[10..46];
    for (i, c) in uuid.chars().enumerate() {
        if i == 8 || i == 13 || i == 18 || i == 23 {
            assert_eq!(c, '-');
        } else {
            assert!(c.is_ascii_digit() || ('a'..='f').contains(&c));
        }
    }
    let mut other = WarcRecord::new();
    other.init_headers(0, None, None);
    assert_ne!(other.record_id(), record.record_id());
}

#[test]
fn init_headers_writes_the_current_date() {
    let mut record = WarcRecord::new();
    record.init_headers(0, None, None);
    let date = record.headers().get("WARC-Date").unwrap();
    let bytes = date.as_bytes();
    assert_eq!(bytes.len(), 20);
    for (i, b) in bytes.iter().enumerate() {
        match i {
            4 | 7 => assert_eq!(*b, b'-'),
            10 => assert_eq!(*b, b'T'),
            13 | 16 => assert_eq!(*b, b':'),
            19 => assert_eq!(*b, b'Z'),
            _ => assert!(b.is_ascii_digit()),
        }
    }
    assert!(&date[0..4] >= "2024");
}

#[test]
fn init_headers_marks_missing_body_as_stale() {
    let mut record = WarcRecord::new();
    record.init_headers_with(5, None, b"u", b"d");
    assert!(record.is_stale());
    record.set_content(b"hello".to_vec());
    assert!(!record.is_stale());
    record.init_headers_with(5, None, b"u", b"d");
    assert!(!record.is_stale());
    record.init_headers_with(0, None, b"u", b"d");
    assert!(record.is_stale());
}

#[test]
fn set_content_updates_length_and_header() {
    let mut record = WarcRecord::new();
    record.init_headers_with(0, Some(WarcRecordType::Resource), b"u", b"d");
    record.set_content(b"hello world".to_vec());
    assert_eq!(record.content(), b"hello world");
    assert_eq!(record.content_length(), 11);
    assert_eq!(record.headers().get("Content-Length"), Some("11".to_string()));
    assert_eq!(record.headers().len(), 4);
    assert_eq!(record.headers().keys()[3], "Content-Length");
    assert!(!record.is_stale());
    record.set_content(Vec::new());
    assert_eq!(record.content_length(), 0);
    assert_eq!(record.headers().get("Content-Length"), Some("0".to_string()));
}

#[test]
fn set_content_on_fresh_record_adds_header() {
    let mut record = WarcRecord::new();
    record.set_content(b"abc".to_vec());
    assert_eq!(record.headers().to_tuples(), vec![pair("Content-Length", "3")]);
}

#[test]
fn set_record_type_mirrors_header() {
    let mut record = WarcRecord::new();
    record.set_record_type(WarcRecordType::Revisit);
    assert_eq!(record.record_type(), WarcRecordType::Revisit);
    assert_eq!(record.headers().get("WARC-Type"), Some("revisit".to_string()));
    record.set_record_type(WarcRecordType::Conversion);
    assert_eq!(record.headers().to_tuples(), vec![pair("WARC-Type", "conversion")]);
    record.set_record_type(WarcRecordType::AnyType);
    assert_eq!(record.record_type(), WarcRecordType::AnyType);
    assert_eq!(record.headers().get("warc-type"), Some("unknown".to_string()));
}

#[test]
fn set_is_http_writes_content_type() {
    let mut record = WarcRecord::new();
    record.set_record_type(WarcRecordType::Request);
    record.set_is_http(true);
    assert!(record.is_http());
    assert_eq!(
        record.headers().get("Content-Type"),
        Some("application/http; msgtype=request".to_string())
    );
    record.set_record_type(WarcRecordType::Response);
    record.set_is_http(true);
    assert_eq!(
        record.headers().get("Content-Type"),
        Some("application/http; msgtype=response".to_string())
    );
    record.set_record_type(WarcRecordType::Metadata);
    record.set_is_http(true);
    assert_eq!(record.headers().get("Content-Type"), Some("application/http".to_string()));
    assert_eq!(record.headers().len(), 2);
}

#[test]
fn clearing_is_http_leaves_headers() {
    let mut record = WarcRecord::new();
    record.headers_mut().append("Content-Type", "text/plain");
    record.set_is_http(false);
    assert!(!record.is_http());
    assert_eq!(record.headers().get("Content-Type"), Some("text/plain".to_string()));
}

#[test]
fn headers_mut_changes_the_record() {
    let mut record = WarcRecord::new();
    record.headers_mut().set("WARC-Target-URI", "http://example.org/");
    record.headers_mut().set_status_line(b"WARC/1.0");
    assert_eq!(record.headers().get("warc-target-uri"), Some("http://example.org/".to_string()));
    assert_eq!(record.headers().status_line_bytes(), b"WARC/1.0");
    assert_eq!(record.record_type(), WarcRecordType::Unknown);
}

#[test]
fn parse_http_takes_headers_off_the_body() {
    let mut record = http_record();
    assert!(!record.is_http_parsed());
    assert_eq!(record.http_content_type(), None);
    record.parse_http();
    assert!(record.is_http_parsed());
    assert_eq!(record.content(), b"<html></html>");
    assert_eq!(record.content_length(), 13);
    let http = record.http_headers().unwrap();
    assert_eq!(http.encoding(), HeaderEncoding::Latin1);
    assert_eq!(http.status_code(), Some(200));
    assert_eq!(http.reason_phrase(), Some("OK".to_string()));
    assert_eq!(
        http.to_tuples(),
        vec![pair("Content-Type", "text/html; charset=UTF-8"), pair("Server", "t")]
    );
    assert_eq!(record.http_charset(), Some("utf-8"));
    assert_eq!(record.http_content_type(), Some("text/html".to_string()));
    assert_eq!(record.headers().get("Content-Length"), Some(HTTP_BODY.len().to_string()));
}

#[test]
fn parse_http_twice_changes_nothing_more() {
    let mut record = http_record();
    record.parse_http();
    record.parse_http();
    assert_eq!(record.content(), b"<html></html>");
    assert_eq!(record.http_headers().unwrap().len(), 2);
}

#[test]
fn parse_http_on_other_records_does_nothing() {
    let mut record = WarcRecord::new();
    record.set_content(HTTP_BODY.to_vec());
    record.parse_http();
    assert!(!record.is_http_parsed());
    assert!(record.http_headers().is_none());
    assert_eq!(record.content(), HTTP_BODY);
}

#[test]
fn parse_http_of_headers_only() {
    let mut record = WarcRecord::new();
    record.set_is_http(true);
    record.set_content(b"GET / HTTP/1.1\r\nHost: example.org".to_vec());
    record.parse_http();
    assert_eq!(record.content(), b"");
    assert_eq!(record.content_length(), 0);
    assert_eq!(record.http_headers().unwrap().status_line_bytes(), b"GET / HTTP/1.1");
    assert_eq!(record.http_headers().unwrap().get("host"), Some("example.org".to_string()));
    assert_eq!(record.http_charset(), None);
    assert_eq!(record.http_content_type(), None);
}

fn charset_for(content_type: &str) -> Option<String> {
    let mut record = WarcRecord::new();
    record.set_is_http(true);
    let body = format!("HTTP/1.1 200 OK\r\nContent-Type: {}\r\n\r\n", content_type);
    record.set_content(body.into_bytes());
    record.parse_http();
    record.http_charset().map(|s| s.to_string())
}

#[test]
fn charset_extraction() {
    assert_eq!(charset_for("text/html; charset=ISO-8859-1"), Some("iso-8859-1".to_string()));
    assert_eq!(charset_for("text/html; CHARSET= Utf-8 ; q=1"), Some("utf-8".to_string()));
    assert_eq!(charset_for("text/html;charset=a;charset=b"), Some("a".to_string()));
    assert_eq!(charset_for("text/html"), None);
    assert_eq!(charset_for("text/html; charset="), None);
    assert_eq!(charset_for("text/html; charset= ;x"), None);
    assert_eq!(charset_for("text/html; charset"), None);

}

fn media_type_for(content_type: &str) -> Option<String> {
    let mut record = WarcRecord::new();
    record.set_is_http(true);
    let body = format!("HTTP/1.1 200 OK\r\nContent-Type: {}\r\n\r\n", content_type);
    record.set_content(body.into_bytes());
    record.parse_http();
    record.http_content_type()
}

#[test]
fn media_type_without_parameters() {
    assert_eq!(media_type_for("text/html; charset=utf-8"), Some("text/html".to_string()));
    assert_eq!(media_type_for("application/json"), Some("application/json".to_string()));
    assert_eq!(media_type_for("text/plain ;a;b"), Some("text/plain".to_string()));
    assert_eq!(media_type_for(";charset=x"), Some(String::new()));
}

#[test]
fn charset_is_trimmed_and_lower_cased_as_text() {
    let mut record = WarcRecord::new();
    record.set_is_http(true);
    record.set_content(b"HTTP/1.1 200 OK\r\nContent-Type: x; Charset=\xA0ISO-8859-\xC4\xA0;q\r\n\r\n".to_vec());
    record.parse_http();
    assert_eq!(record.http_charset(), Some("iso-8859-\u{e4}"));
}

#[test]
fn media_type_is_trimmed_as_text() {
    let mut record = WarcRecord::new();
    record.set_is_http(true);
    record.set_content(b"HTTP/1.1 200 OK\r\nContent-Type: \x0Btext/html\xA0; charset=x\r\n\r\n".to_vec());
    record.parse_http();
    assert_eq!(
        record.http_headers().unwrap().get_bytes(b"content-type"),
        Some(b"\x0Btext/html\xA0; charset=x".to_vec())
    );
    assert_eq!(record.http_content_type(), Some("text/html".to_string()));
}

#[test]
fn freeze_sets_the_flag() {
    let mut record = WarcRecord::new();
    record.freeze();
    assert!(record.is_frozen());
}

#[test]
fn clone_is_frozen_and_independent() {
    let mut record = http_record();
    record.parse_http();
    assert!(!record.is_frozen());
    let copy = record.clone();
    assert!(copy.is_frozen());
    assert!(!record.is_frozen());
    record.set_content(b"changed".to_vec());
    record.headers_mut().clear();
    assert_eq!(copy.content(), b"<html></html>");
    assert_eq!(copy.record_type(), WarcRecordType::Response);
    assert_eq!(copy.record_id(), Some("<urn:test:1>".to_string()));
    assert_eq!(copy.http_charset(), Some("utf-8"));
    assert_eq!(copy.http_headers().unwrap().len(), 2);
    assert!(copy.is_http());
    assert!(copy.is_http_parsed());
    assert_eq!(copy.content_length(), 13);
}

#[test]
fn write_of_plain_record() {
    let mut record = WarcRecord::new();
    record.init_headers_with(0, Some(WarcRecordType::Resource), b"urn:x", b"2020-01-01T00:00:00Z");
    record.set_content(b"hello".to_vec());
    let mut out: Vec<u8> = Vec::new();
    let n = record.write(&mut out);
    let expected: &[u8] = b"WARC/1.1\r\nWARC-Type: resource\r\nWARC-Date: 2020-01-01T00:00:00Z\r\nWARC-Record-ID: <urn:x>\r\nContent-Length: 5\r\n\r\nhello\r\n\r\n";
    assert_eq!(out, expected.to_vec());
    assert_eq!(n, Ok(expected.len()));
}

#[test]
fn write_of_parsed_http_record() {
    let mut record = http_record();
    record.parse_http();
    let mut out: Vec<u8> = b"previous".to_vec();
    let n = record.write(&mut out).unwrap();
    let mut expected: Vec<u8> = b"previous".to_vec();
    record.headers().write(&mut expected);
    expected.extend_from_slice(b"\r\n");
    expected.extend_from_slice(HTTP_BODY);
    expected.extend_from_slice(b"\r\n\r\n");
    assert_eq!(out, expected);
    assert_eq!(n, expected.len() - 8);
}

#[test]
fn write_of_fresh_record() {
    let record = WarcRecord::new();
    let mut out: Vec<u8> = Vec::new();
    assert_eq!(record.write(&mut out), Ok(6));
    assert_eq!(out, b"\r\n\r\n\r\n".to_vec());
}

#[test]
fn stale_record_is_not_written() {
    let mut record = WarcRecord::new();
    record.init_headers_with(9, None, b"u", b"d");
    let mut out: Vec<u8> = b"kept".to_vec();
    assert_eq!(record.write(&mut out), Err(WarcError::StaleRecord));
    assert_eq!(out, b"kept".to_vec());
}

#[test]
fn block_digest_of_plain_record() {
    let mut record = WarcRecord::new();
    record.set_content(b"hello".to_vec());
    assert_eq!(record.verify_digest("sha1:qvTGHdzF6KLavt4PO0gs2a6pQ00=", DigestType::Block), Ok(true));
    assert_eq!(record.verify_digest("md5:XUFAKrxLKna5cZ2REBfFkg==", DigestType::Block), Ok(true));
    assert_eq!(record.verify_digest("sha1:qvTGHdzF6KLavt4PO0gs2a6pQ00=", DigestType::Payload), Ok(true));
}

#[test]
fn digest_that_does_not_match_is_false_not_an_error() {
    let mut record = WarcRecord::new();
    record.set_content(b"hello".to_vec());
    assert_eq!(record.verify_digest("sha1:2jmj7l5rSw0yVb/vlWAYkK/YBwk=", DigestType::Block), Ok(false));
    assert_eq!(record.verify_digest("sha1:QVTGHDZF6KLAVT4PO0GS2A6PQ00=", DigestType::Block), Ok(false));
    assert_eq!(record.verify_digest("no colon", DigestType::Block), Ok(false));
    assert_eq!(record.verify_digest("a:b:c", DigestType::Block), Ok(false));
}

#[test]
fn unsupported_digest_algorithm_is_an_error() {
    let mut record = WarcRecord::new();
    record.set_content(b"hello".to_vec());
    assert_eq!(
        record.verify_digest("unsupported:abc", DigestType::Block),
        Err(WarcError::UnsupportedAlgorithm)
    );
    assert_eq!(
        record.verify_digest("sha512:abc", DigestType::Payload),
        Err(WarcError::UnsupportedAlgorithm)
    );
}

#[test]
fn payload_digest_excludes_http_headers() {
    let mut record = WarcRecord::new();
    record.set_is_http(true);
    record.set_content(b"HTTP/1.1 200 OK\r\nA: b\r\n\r\nhello".to_vec());
    let payload = "sha1:qvTGHdzF6KLavt4PO0gs2a6pQ00=";
    assert_eq!(record.verify_digest(payload, DigestType::Payload), Ok(true));
    assert_eq!(record.verify_digest(payload, DigestType::Block), Ok(false));
    record.parse_http();
    assert_eq!(record.content(), b"hello");
    assert_eq!(record.verify_digest(payload, DigestType::Payload), Ok(true));
    assert_eq!(record.verify_digest(payload, DigestType::Block), Ok(false));
}

#[test]
fn block_digest_covers_http_headers_after_parsing() {
    let mut plain = WarcRecord::new();
    plain.set_content(b"hello".to_vec());
    let mut record = WarcRecord::new();
    record.set_is_http(true);
    record.set_content(Vec::new());
    record.parse_http();
    assert_eq!(record.verify_digest("sha1:2jmj7l5rSw0yVb/vlWAYkK/YBwk=", DigestType::Block), Ok(true));

    let mut split = WarcRecord::new();
    split.set_is_http(true);
    split.set_content(b"hel\r\n\r\nlo".to_vec());
    let whole = fastwarc::DigestAlgorithm::Sha1.digest(b"hel\r\n\r\nlo");
    let mut header = b"sha1:".to_vec();
    header.extend_from_slice(&whole);
    assert_eq!(split.verify_digest_bytes(&header, DigestType::Block), Ok(true));
    split.parse_http();
    assert_eq!(split.content(), b"lo");
    assert_eq!(split.verify_digest_bytes(&header, DigestType::Block), Ok(true));
    assert_eq!(split.verify_digest_bytes(&header, DigestType::Payload), Ok(false));
}
