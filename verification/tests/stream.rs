use fastwarc::archive::decode_next;
use fastwarc::stream::need;
use fastwarc::stream::Need;
use fastwarc::ArchiveIterator;
use fastwarc::ArchiveIteratorConfig;
use fastwarc::WarcRecord;
use fastwarc::WarcRecordType;

#[test]
fn empty_buffer_needs_a_line() {
    assert_eq!(need(b"", true), Need::Line);
    assert_eq!(need(b"", false), Need::Line);
    assert_eq!(need(b"\r\n\n", true), Need::Line);
}

#[test]
fn garbage_ends_a_strict_stream() {
    assert_eq!(need(b"junk\r\n", true), Need::End);
    assert_eq!(need(b"junk\r\n", false), Need::Line);
    assert_eq!(need(b"\r\njunk\r\nWARC/1.1\r\n", true), Need::End);
}

#[test]
fn open_header_block_needs_lines() {
    assert_eq!(need(b"WARC/1.1\r\n", true), Need::Line);
    assert_eq!(need(b"WARC/1.1\r\nContent-Length: 5\r\n", true), Need::Line);
    assert_eq!(need(b"junk\nWARC/1.0\r\nA: b\r\n", false), Need::Line);
}

#[test]
fn closed_header_block_needs_body_and_separator() {
    assert_eq!(need(b"WARC/1.1\r\nContent-Length: 5\r\n\r\n", true), Need::Bytes(9));
    assert_eq!(need(b"WARC/1.1\r\nContent-Length: 5\r\n\r\nhel", true), Need::Bytes(6));
    assert_eq!(need(b"WARC/1.1\r\nContent-Length: 5\r\n\r\nhello", true), Need::Bytes(4));
    assert_eq!(need(b"WARC/1.1\r\nContent-Length: 5\r\n\r\nhello\r\n", true), Need::Bytes(2));
    assert_eq!(need(b"WARC/1.1\r\n\r\n", true), Need::Bytes(4));
    assert_eq!(need(b"WARC/1.1\r\nContent-Length: x\r\n\n", true), Need::Bytes(4));
}

#[test]
fn whole_record_needs_nothing() {
    assert_eq!(need(b"WARC/1.1\r\nContent-Length: 5\r\n\r\nhello\r\n\r\n", true), Need::Nothing);
    assert_eq!(need(b"WARC/1.1\r\nContent-Length: 5\r\n\r\nhello\r\n\r\nmore", true), Need::Nothing);
    assert_eq!(need(b"WARC/1.1\r\n\r\n\r\n\r\n", true), Need::Nothing);
}

#[test]
fn huge_declared_length_is_cut_down() {
    let header = format!("WARC/1.1\r\nContent-Length: {}\r\n\r\n", usize::MAX);
    assert_eq!(need(header.as_bytes(), true), Need::Bytes(usize::MAX));
    let header = format!("WARC/1.1\r\nContent-Length: {}\r\n\r\n", usize::MAX - 100);
    assert_eq!(need(header.as_bytes(), true), Need::Bytes(usize::MAX - 96));
    let header = format!("WARC/1.1\r\nContent-Length: {}\r\n\r\nabc", usize::MAX - 2);
    assert_eq!(need(header.as_bytes(), true), Need::Bytes(usize::MAX - 1));
}

fn archive() -> Vec<u8> {
    let mut data = Vec::new();
    let parts: [(&str, &[u8]); 4] =
        [("warcinfo", b"info"), ("request", b"GET /\r\n\r\n"), ("response", b""), ("metadata", b"m\n")];
    data.extend_from_slice(b"\r\n");
    for (kind, body) in parts.iter() {
        data.extend_from_slice(
            format!("WARC/1.1\r\nWARC-Type: {}\r\nContent-Length: {}\r\n\r\n", kind, body.len()).as_bytes(),
        );
        data.extend_from_slice(body);
        data.extend_from_slice(b"\r\n\r\n");
    }
    data
}

/// Reads `data` record by record as a stream would be read: lines and
/// pieces as `need` asks for them.
fn read_by_record(data: &[u8], config: &ArchiveIteratorConfig) -> Vec<WarcRecord> {
    let mut records = Vec::new();
    let mut offset = 0;
    let mut done = false;
    while !done {
        let mut buffer: Vec<u8> = Vec::new();
        loop {
            match need(&buffer, config.strict_mode) {
                Need::Line => {
                    let rest = &data[offset + buffer.len()..];
                    if rest.is_empty() {
                        done = true;
                        break;
                    }
                    let end = rest.iter().position(|b| *b == b'\n').map(|i| i + 1).unwrap_or(rest.len());
                    buffer.extend_from_slice(&rest[..end]);
                }
                Need::Bytes(missing) => {
                    let rest = &data[offset + buffer.len()..];
                    let got = missing.min(rest.len());
                    buffer.extend_from_slice(&rest[..got]);
                    done = got < missing;
                    break;
                }
                Need::Nothing => break,
                Need::End => {
                    done = true;
                    break;
                }
            }
        }
        if let Ok(Some(mut record)) = decode_next(&buffer, 0, config).0 {
            record.set_stream_pos(offset + record.stream_pos());
            records.push(record);
        }
        offset += buffer.len();
    }
    records
}

#[test]
fn reading_by_record_agrees_with_reading_the_whole() {
    let data = archive();
    let masks: [u16; 4] = [
        0xFFFF,
        WarcRecordType::Request.as_u16(),
        WarcRecordType::Response.as_u16() | WarcRecordType::Metadata.as_u16(),
        0,
    ];
    for mask in masks.iter() {
        let mut config = ArchiveIteratorConfig::default();
        config.record_type_filter = *mask;
        let by_record = read_by_record(&data, &config);
        let mut iterator = ArchiveIterator::new(data.clone(), config);
        let mut whole = Vec::new();
        while let Some(record) = iterator.read_next().unwrap() {
            whole.push(record);
        }
        assert_eq!(by_record.len(), whole.len());
        for (a, b) in by_record.iter().zip(whole.iter()) {
            assert_eq!(a.record_type(), b.record_type());
            assert_eq!(a.content(), b.content());
            assert_eq!(a.stream_pos(), b.stream_pos());
            assert_eq!(a.headers().to_tuples(), b.headers().to_tuples());
        }
    }
}

#[test]
fn stream_position_can_be_set() {
    let mut record = WarcRecord::new();
    record.set_stream_pos(1234);
    assert_eq!(record.stream_pos(), 1234);
}
