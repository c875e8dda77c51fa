use fastwarc::CaseInsensitiveKey;
use fastwarc::HeaderEncoding;
use fastwarc::HeaderMap;

fn pair(k: &str, v: &str) -> (String, String) {
    (k.to_string(), v.to_string())
}

#[test]
fn new_map_is_empty() {
    let map = HeaderMap::new(HeaderEncoding::Unicode);
    assert_eq!(map.len(), 0);
    assert!(map.is_empty());
    assert_eq!(map.encoding(), HeaderEncoding::Unicode);
    assert_eq!(map.status_line_bytes(), b"");
    assert_eq!(map.get("Anything"), None);
    assert!(!map.contains_key("Anything"));
    assert_eq!(HeaderMap::new(HeaderEncoding::Latin1).encoding(), HeaderEncoding::Latin1);
}

#[test]
fn append_twice_joins_with_comma() {
    let mut map = HeaderMap::new(HeaderEncoding::Unicode);
    map.append("WARC-Concurrent-To", "v1");
    map.append("WARC-Concurrent-To", "v2");
    assert_eq!(map.get("WARC-Concurrent-To"), Some("v1,v2".to_string()));
    assert_eq!(map.get_bytes(b"WARC-Concurrent-To"), Some(b"v1,v2".to_vec()));
    assert_eq!(map.len(), 2);
}

#[test]
fn append_keeps_earlier_values_of_the_key() {
    let mut map = HeaderMap::new(HeaderEncoding::Unicode);
    map.append("K", "old");
    map.append("Other", "x");
    map.append("k", "v1");
    map.append("K", "v2");
    assert_eq!(map.get("K"), Some("old,v1,v2".to_string()));
}

#[test]
fn set_twice_leaves_one_entry() {
    let mut map = HeaderMap::new(HeaderEncoding::Unicode);
    map.append("A", "1");
    map.set("Key", "first");
    map.set("Key", "second");
    assert_eq!(map.len(), 2);
    assert_eq!(map.get("Key"), Some("second".to_string()));
    assert_eq!(map.to_tuples(), vec![pair("A", "1"), pair("Key", "second")]);
}

#[test]
fn set_replaces_first_and_drops_rest() {
    let mut map = HeaderMap::new(HeaderEncoding::Unicode);
    map.append("A", "1");
    map.append("Dup", "x");
    map.append("B", "2");
    map.append("dup", "y");
    map.append("C", "3");
    map.append("DUP", "z");
    map.set("dUp", "new");
    assert_eq!(
        map.to_tuples(),
        vec![pair("A", "1"), pair("dUp", "new"), pair("B", "2"), pair("C", "3")]
    );
}

#[test]
fn set_appends_when_absent() {
    let mut map = HeaderMap::new(HeaderEncoding::Unicode);
    map.append("A", "1");
    map.set("B", "2");
    assert_eq!(map.to_tuples(), vec![pair("A", "1"), pair("B", "2")]);
}

#[test]
fn set_bytes_matches_set() {
    let mut map = HeaderMap::new(HeaderEncoding::Unicode);
    map.append_bytes(b"A", b"1");
    map.set_bytes(b"a", b"2");
    assert_eq!(map.to_tuples(), vec![pair("a", "2")]);
}

#[test]
fn lookups_ignore_letter_case() {
    let mut map = HeaderMap::new(HeaderEncoding::Unicode);
    map.append("Content-Type", "text/html");
    assert_eq!(map.get("Content-Type"), map.get("content-type"));
    assert_eq!(map.get("CONTENT-TYPE"), Some("text/html".to_string()));
    assert!(map.contains_key("content-TYPE"));
    assert_eq!(map.get("Content-Typ"), None);
    assert_eq!(map.get("Content-Length"), map.get("content-length"));
}

#[test]
fn keys_and_values_are_stored_trimmed() {
    let mut map = HeaderMap::new(HeaderEncoding::Unicode);
    map.append("  Key \t", "\r\n value with space \x0C");
    assert_eq!(map.to_tuples(), vec![pair("Key", "value with space")]);
    map.set(" Other ", "  x  ");
    assert_eq!(map.to_tuples(), vec![pair("Key", "value with space"), pair("Other", "x")]);
}

#[test]
fn set_twice_with_white_space_around_the_key() {
    let mut map = HeaderMap::new(HeaderEncoding::Unicode);
    map.set_bytes(b" A ", b"1");
    map.set_bytes(b" A ", b"2");
    assert_eq!(map.len(), 1);
    assert_eq!(map.get("A"), Some("2".to_string()));
    assert_eq!(map.to_tuples(), vec![pair("A", "2")]);
    map.set(" a", "3");
    map.set("a\t", "4");
    assert_eq!(map.to_tuples(), vec![pair("a", "4")]);
    assert_eq!(map.get(" a"), None);
}

#[test]
fn keys_are_looked_up_as_they_are_given() {
    let mut map = HeaderMap::new(HeaderEncoding::Unicode);
    map.append(" A ", "1");
    assert_eq!(map.to_tuples(), vec![pair("A", "1")]);
    assert_eq!(map.get("A"), Some("1".to_string()));
    assert_eq!(map.get("a"), Some("1".to_string()));
    assert_eq!(map.get(" A "), None);
    assert_eq!(map.get("A "), None);
    assert_eq!(map.get_bytes(b" A "), None);
    assert_eq!(map.get_bytes(b"\tA"), None);
    assert!(map.contains_key("a"));
    assert!(!map.contains_key(" A "));
    assert!(!map.contains_key("A\r\n"));
}

#[test]
fn present_key_with_empty_value_is_found() {
    let mut map = HeaderMap::new(HeaderEncoding::Unicode);
    map.append("Empty", "");
    assert_eq!(map.get_bytes(b"empty"), Some(Vec::new()));
    assert_eq!(map.get("EMPTY"), Some(String::new()));
    map.append("Empty", "");
    assert_eq!(map.get_bytes(b"empty"), Some(b",".to_vec()));
}

#[test]
fn folded_map_agrees_with_get() {
    let mut map = HeaderMap::new(HeaderEncoding::Latin1);
    map.append("Set-Cookie", "a=1");
    map.append("Host", "example.org");
    map.append("set-cookie", "");
    map.append("SET-COOKIE", "c=3");
    map.append("X", "");
    let folded = map.to_map();
    assert_eq!(folded.len(), 3);
    let probes = ["Set-Cookie", "set-cookie", "HOST", "x", "absent", " Host ", "Host ", ""];
    for probe in probes.iter() {
        let key = CaseInsensitiveKey::from(*probe);
        let found: Vec<&String> = folded.iter().filter(|e| e.0 == key).map(|e| &e.1).collect();
        assert!(found.len() <= 1);
        assert_eq!(found.first().map(|v| v.to_string()), map.get(probe));
    }
}

#[test]
fn set_with_white_space_replaces_earlier_entries() {
    let mut map = HeaderMap::new(HeaderEncoding::Unicode);
    map.append("Dup", "x");
    map.append("B", "2");
    map.append("dup", "y");
    map.set("  DUP  ", "new");
    assert_eq!(map.to_tuples(), vec![pair("DUP", "new"), pair("B", "2")]);
}

#[test]
fn vertical_tab_is_no_white_space() {
    let mut map = HeaderMap::new(HeaderEncoding::Unicode);
    map.append("K", "\x0Bv\x0B");
    assert_eq!(map.get_bytes(b"K"), Some(b"\x0Bv\x0B".to_vec()));
}

#[test]
fn items_keys_values_in_storage_order() {
    let mut map = HeaderMap::new(HeaderEncoding::Unicode);
    map.append("B", "2");
    map.append("A", "1");
    map.append("B", "3");
    assert_eq!(map.items(), vec![pair("B", "2"), pair("A", "1"), pair("B", "3")]);
    assert_eq!(map.keys(), vec!["B".to_string(), "A".to_string(), "B".to_string()]);
    assert_eq!(map.values(), vec!["2".to_string(), "1".to_string(), "3".to_string()]);
    assert_eq!(map.items(), map.items());
    assert_eq!(map.to_tuples(), map.items());
}

#[test]
fn to_map_folds_by_key() {
    let mut map = HeaderMap::new(HeaderEncoding::Unicode);
    map.append("Set-Cookie", "a=1");
    map.append("Host", "example.org");
    map.append("set-cookie", "b=2");
    map.append("SET-COOKIE", "c=3");
    let folded = map.to_map();
    assert_eq!(folded.len(), 2);
    assert_eq!(folded[0].0.as_str(), "Set-Cookie");
    assert_eq!(folded[0].1, "a=1,b=2,c=3");
    assert_eq!(folded[1].0.as_str(), "Host");
    assert_eq!(folded[1].1, "example.org");
}

#[test]
fn to_map_of_empty_map() {
    assert!(HeaderMap::new(HeaderEncoding::Latin1).to_map().is_empty());
}

#[test]
fn case_insensitive_key_equality() {
    let a = CaseInsensitiveKey::new("Content-Type".to_string());
    let b = CaseInsensitiveKey::new("content-TYPE".to_string());
    let c = CaseInsensitiveKey::new("Content-Typ".to_string());
    assert!(a == b);
    assert!(a != c);
    assert_eq!(a.as_str(), "Content-Type");
}

#[test]
fn case_insensitive_key_lowercase() {
    let key = CaseInsensitiveKey::new("\u{c4}B-Key".to_string());
    assert_eq!(key.to_lowercase(), "\u{e4}b-key");
}

#[test]
fn case_insensitive_key_ignores_ascii_case_only() {
    let a = CaseInsensitiveKey::new("\u{c4}".to_string());
    let b = CaseInsensitiveKey::new("\u{e4}".to_string());
    assert!(a != b);
}

#[test]
fn status_line_as_text() {
    let mut map = HeaderMap::new(HeaderEncoding::Unicode);
    map.set_status_line(b"WARC/1.1");
    assert_eq!(map.status_line().unwrap(), "WARC/1.1");
    assert_eq!(map.status_line_bytes(), b"WARC/1.1");
    map.set_status_line("gr\u{fc}n".as_bytes());
    assert_eq!(map.status_line().unwrap(), "gr\u{fc}n");
}

#[test]
fn status_line_that_is_not_utf8() {
    let mut map = HeaderMap::new(HeaderEncoding::Latin1);
    map.set_status_line(&[0x48, 0xFF, 0x54]);
    assert!(map.status_line().is_err());
    assert_eq!(map.status_line_bytes(), &[0x48, 0xFF, 0x54]);
}

#[test]
fn status_line_is_kept_as_given() {
    let mut map = HeaderMap::new(HeaderEncoding::Unicode);
    map.set_status_line(b"  padded  ");
    assert_eq!(map.status_line_bytes(), b"  padded  ");
}

#[test]
fn status_code_and_reason() {
    let mut map = HeaderMap::new(HeaderEncoding::Latin1);
    map.set_status_line(b"HTTP/1.1 404 Not Found");
    assert_eq!(map.status_code(), Some(404));
    assert_eq!(map.reason_phrase(), Some("Not Found".to_string()));
}

#[test]
fn status_code_without_reason() {
    let mut map = HeaderMap::new(HeaderEncoding::Latin1);
    map.set_status_line(b"HTTP/1.0 200");
    assert_eq!(map.status_code(), Some(200));
    assert_eq!(map.reason_phrase(), None);
    map.set_status_line(b"HTTP/1.0 200 ");
    assert_eq!(map.status_code(), Some(200));
    assert_eq!(map.reason_phrase(), Some(String::new()));
}

#[test]
fn status_code_of_other_lines() {
    let mut map = HeaderMap::new(HeaderEncoding::Latin1);
    assert_eq!(map.status_code(), None);
    assert_eq!(map.reason_phrase(), None);
    map.set_status_line(b"WARC/1.1 200 OK");
    assert_eq!(map.status_code(), None);
    assert_eq!(map.reason_phrase(), None);
    map.set_status_line(b"HTTP/1.1");
    assert_eq!(map.status_code(), None);
    map.set_status_line(b"http/1.1 200 OK");
    assert_eq!(map.status_code(), None);
}

#[test]
fn status_code_that_is_no_number() {
    let mut map = HeaderMap::new(HeaderEncoding::Latin1);
    map.set_status_line(b"HTTP/1.1 abc OK");
    assert_eq!(map.status_code(), None);
    assert_eq!(map.reason_phrase(), Some("OK".to_string()));
    map.set_status_line(b"HTTP/1.1  200 OK");
    assert_eq!(map.status_code(), None);
    assert_eq!(map.reason_phrase(), Some("200 OK".to_string()));
    map.set_status_line(b"HTTP/1.1 -1 OK");
    assert_eq!(map.status_code(), None);
}

#[test]
fn status_code_bounds() {
    let mut map = HeaderMap::new(HeaderEncoding::Latin1);
    map.set_status_line(b"HTTP/1.1 65535 Max");
    assert_eq!(map.status_code(), Some(65535));
    map.set_status_line(b"HTTP/1.1 65536 Over");
    assert_eq!(map.status_code(), None);
    map.set_status_line(b"HTTP/1.1 +7 Plus");
    assert_eq!(map.status_code(), Some(7));
    map.set_status_line(b"HTTP/1.1 007 Zeros");
    assert_eq!(map.status_code(), Some(7));
}

#[test]
fn reason_phrase_keeps_further_spaces() {
    let mut map = HeaderMap::new(HeaderEncoding::Latin1);
    map.set_status_line(b"HTTP/1.1 500 Internal  Server Error");
    assert_eq!(map.reason_phrase(), Some("Internal  Server Error".to_string()));
}

#[test]
fn latin1_decoding() {
    let mut map = HeaderMap::new(HeaderEncoding::Latin1);
    map.append_bytes(b"X-Name", &[0x63, 0x61, 0x66, 0xE9, 0x20, 0x80]);
    assert_eq!(map.get("X-Name"), Some("caf\u{e9} \u{20ac}".to_string()));
    assert_eq!(map.values(), vec!["caf\u{e9} \u{20ac}".to_string()]);
}

#[test]
fn latin1_decoding_of_each_byte_gives_one_character() {
    let mut map = HeaderMap::new(HeaderEncoding::Latin1);
    let bytes: Vec<u8> = (0x21u8..=0xFFu8).collect();
    map.append_bytes(b"All", &bytes);
    let text = map.get("All").unwrap();
    assert_eq!(text.chars().count(), bytes.len());
    for (b, c) in bytes.iter().zip(text.chars()) {
        if *b < 0x80 || *b >= 0xA0 {
            assert_eq!(c as u32, *b as u32);
        }
    }
}

#[test]
fn unicode_decoding_is_lossy() {
    let mut map = HeaderMap::new(HeaderEncoding::Unicode);
    map.append_bytes(b"X-Bad", &[0x61, 0xFF, 0x62]);
    assert_eq!(map.get("X-Bad"), Some("a\u{fffd}b".to_string()));
    map.append_bytes(b"X-Good", "gr\u{fc}n".as_bytes());
    assert_eq!(map.get("X-Good"), Some("gr\u{fc}n".to_string()));
}

#[test]
fn same_bytes_differ_by_encoding() {
    let mut unicode = HeaderMap::new(HeaderEncoding::Unicode);
    let mut latin1 = HeaderMap::new(HeaderEncoding::Latin1);
    unicode.append("K", "\u{e9}");
    latin1.append("K", "\u{e9}");
    assert_eq!(unicode.get("K"), Some("\u{e9}".to_string()));
    assert_eq!(latin1.get("K"), Some("\u{c3}\u{a9}".to_string()));
}

#[test]
fn write_emits_status_line_and_headers() {
    let mut map = HeaderMap::new(HeaderEncoding::Unicode);
    map.set_status_line(b"WARC/1.1");
    map.append("WARC-Type", "response");
    map.append("Content-Length", "5");
    let mut out: Vec<u8> = Vec::new();
    let n = map.write(&mut out);
    assert_eq!(out, b"WARC/1.1\r\nWARC-Type: response\r\nContent-Length: 5\r\n".to_vec());
    assert_eq!(n, out.len());
}

#[test]
fn write_without_status_line_appends_to_sink() {
    let mut map = HeaderMap::new(HeaderEncoding::Unicode);
    map.append("A", "1");
    let mut out: Vec<u8> = b"xx".to_vec();
    let n = map.write(&mut out);
    assert_eq!(out, b"xxA: 1\r\n".to_vec());
    assert_eq!(n, 6);
}

#[test]
fn write_of_empty_map_writes_nothing() {
    let map = HeaderMap::new(HeaderEncoding::Unicode);
    let mut out: Vec<u8> = Vec::new();
    assert_eq!(map.write(&mut out), 0);
    assert!(out.is_empty());
}

#[test]
fn write_suppresses_prefix_of_empty_key() {
    let mut map = HeaderMap::new(HeaderEncoding::Unicode);
    map.add_continuation(b"orphan");
    map.append("", "bare");
    let mut out: Vec<u8> = Vec::new();
    let n = map.write(&mut out);
    assert_eq!(out, b"orphan\r\nbare\r\n".to_vec());
    assert_eq!(n, 14);
}

#[test]
fn continuation_is_joined_with_space() {
    let mut map = HeaderMap::new(HeaderEncoding::Unicode);
    map.append("X-Foo", "bar");
    map.add_continuation(b"  baz ");
    assert_eq!(map.get("X-Foo"), Some("bar baz".to_string()));
    assert_eq!(map.len(), 1);
}

#[test]
fn continuation_without_header_has_empty_key() {
    let mut map = HeaderMap::new(HeaderEncoding::Unicode);
    map.add_continuation(b" lonely ");
    assert_eq!(map.to_tuples(), vec![pair("", "lonely")]);
    assert_eq!(map.get(""), Some("lonely".to_string()));
}

#[test]
fn continuation_keeps_values_trimmed() {
    let mut map = HeaderMap::new(HeaderEncoding::Unicode);
    map.append("Empty", "");
    map.add_continuation(b"x");
    assert_eq!(map.get("Empty"), Some("x".to_string()));
    map.add_continuation(b"   ");
    assert_eq!(map.get("Empty"), Some("x".to_string()));
}

#[test]
fn continuation_goes_to_last_entry() {
    let mut map = HeaderMap::new(HeaderEncoding::Unicode);
    map.append("A", "1");
    map.append("B", "2");
    map.add_continuation(b"more");
    assert_eq!(map.to_tuples(), vec![pair("A", "1"), pair("B", "2 more")]);
}

#[test]
fn clear_drops_headers_and_status_line() {
    let mut map = HeaderMap::new(HeaderEncoding::Latin1);
    map.set_status_line(b"HTTP/1.1 200 OK");
    map.append("A", "1");
    map.clear();
    assert!(map.is_empty());
    assert_eq!(map.status_line_bytes(), b"");
    assert_eq!(map.encoding(), HeaderEncoding::Latin1);
}

#[test]
fn clone_is_independent() {
    let mut map = HeaderMap::new(HeaderEncoding::Unicode);
    map.set_status_line(b"WARC/1.0");
    map.append("A", "1");
    let copy = map.clone();
    map.set("A", "2");
    map.clear();
    assert_eq!(copy.to_tuples(), vec![pair("A", "1")]);
    assert_eq!(copy.status_line_bytes(), b"WARC/1.0");
    assert_eq!(copy.encoding(), HeaderEncoding::Unicode);
}

#[test]
fn case_insensitive_key_conversions() {
    let from_str = CaseInsensitiveKey::from("Content-Length");
    let from_string = CaseInsensitiveKey::from("content-length".to_string());
    assert!(from_str == from_string);
    assert_eq!(from_str.as_str(), "Content-Length");
    let copy = from_str.clone();
    assert_eq!(copy.as_str(), "Content-Length");
    let text: String = from_string.into();
    assert_eq!(text, "content-length");
}
