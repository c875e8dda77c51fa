//! Decoding of header bytes into text.
//!
//! Header blocks are stored as raw bytes. WARC headers are read as UTF-8 and
//! HTTP headers as Windows-1252; neither decoding can fail.

use encoding::DecoderTrap;
use encoding::Encoding;
use encoding::all::WINDOWS_1252;
use vstd::prelude::*;
use vstd::string::StrSliceExecFns;
use vstd::utf8::decode_utf8;
use vstd::utf8::is_ascii_chars;
use vstd::utf8::valid_utf8;

verus! {

/// Character encoding of a header block.
#[derive(Debug, Clone, Copy, PartialEq, Eq, Structural)]
pub enum HeaderEncoding {
    Unicode,
    Latin1,
}

#[verifier::external_type_specification]
#[verifier::external_body]
pub struct ExFromUtf8Error(std::string::FromUtf8Error);

/// The text that a lossy UTF-8 decoding gives for ill-formed `bytes`: each
/// ill-formed part is replaced by U+FFFD.
pub uninterp spec fn utf8_lossy_text(bytes: Seq<u8>) -> Seq<char>;

/// The lower-case text that the Unicode rules give for `text` beyond ASCII.
pub uninterp spec fn lowercase_text(text: Seq<char>) -> Seq<char>;

/// The small letter of an ASCII capital; any other character itself.
pub open spec fn lower_char(c: char) -> char {
    if 'A' <= c <= 'Z' {
        ((c as u8) + 0x20) as u8 as char
    } else {
        c
    }
}

/// The text with every ASCII capital replaced by its small letter.
pub open spec fn ascii_lowercase(text: Seq<char>) -> Seq<char> {
    Seq::new(text.len(), |i: int| lower_char(text[i]))
}

/// The text in lower case: ASCII text has its capitals replaced by small
/// letters.
pub open spec fn lowercased(text: Seq<char>) -> Seq<char> {
    if is_ascii_chars(text) {
        ascii_lowercase(text)
    } else {
        lowercase_text(text)
    }
}

/// Lossy UTF-8 decoding: well-formed bytes give the text they encode.
pub open spec fn unicode_text(bytes: Seq<u8>) -> Seq<char> {
    if valid_utf8(bytes) {
        decode_utf8(bytes)
    } else {
        utf8_lossy_text(bytes)
    }
}

/// The character of a byte in the code page Windows-1252: the character of
/// the same value, but for the bytes from 0x80 to 0x9F.
pub open spec fn windows_1252_char(b: u8) -> char {
    match b {
        0x80 => '\u{20AC}',
        0x81 => '\u{81}',
        0x82 => '\u{201A}',
        0x83 => '\u{192}',
        0x84 => '\u{201E}',
        0x85 => '\u{2026}',
        0x86 => '\u{2020}',
        0x87 => '\u{2021}',
        0x88 => '\u{2C6}',
        0x89 => '\u{2030}',
        0x8A => '\u{160}',
        0x8B => '\u{2039}',
        0x8C => '\u{152}',
        0x8D => '\u{8D}',
        0x8E => '\u{17D}',
        0x8F => '\u{8F}',
        0x90 => '\u{90}',
        0x91 => '\u{2018}',
        0x92 => '\u{2019}',
        0x93 => '\u{201C}',
        0x94 => '\u{201D}',
        0x95 => '\u{2022}',
        0x96 => '\u{2013}',
        0x97 => '\u{2014}',
        0x98 => '\u{2DC}',
        0x99 => '\u{2122}',
        0x9A => '\u{161}',
        0x9B => '\u{203A}',
        0x9C => '\u{153}',
        0x9D => '\u{9D}',
        0x9E => '\u{17E}',
        0x9F => '\u{178}',
        _ => b as char,
    }
}

/// Windows-1252 decoding: every byte gives its character of the code page.
pub open spec fn latin1_text(bytes: Seq<u8>) -> Seq<char> {
    Seq::new(bytes.len(), |i: int| windows_1252_char(bytes[i]))
}

/// The text of `bytes` in the given encoding.
pub open spec fn decoded(encoding: HeaderEncoding, bytes: Seq<u8>) -> Seq<char> {
    match encoding {
        HeaderEncoding::Unicode => unicode_text(bytes),
        HeaderEncoding::Latin1 => latin1_text(bytes),
    }
}

/// `String::from_utf8_lossy`: for well-formed UTF-8 the result is the text
/// that the bytes encode; for other input it is a function of the bytes.
#[verifier::external_body]
pub(crate) fn decode_utf8_lossy(bytes: &[u8]) -> (text: String)
    ensures
        valid_utf8(bytes@) ==> text@ == decode_utf8(bytes@),
        !valid_utf8(bytes@) ==> text@ == utf8_lossy_text(bytes@),
{
    String::from_utf8_lossy(bytes).into_owned()
}

/// `encoding`'s `WINDOWS_1252.decode` with `DecoderTrap::Ignore`: the code
/// page maps every byte to one character, so that nothing is ignored: a byte
/// below 0x80 or from 0xA0 on to the character of the same value, and each of
/// the 32 bytes between to the character that the index of the code page
/// holds for it.
#[verifier::external_body]
pub(crate) fn decode_windows_1252(bytes: &[u8]) -> (text: String)
    ensures
        text@ == latin1_text(bytes@),
{
    WINDOWS_1252.decode(bytes, DecoderTrap::Ignore).unwrap_or_else(|_| String::new())
}

/// `str::to_lowercase`: the lower-case form by the Unicode rules. For ASCII
/// text that is the text with the letters `A` to `Z` replaced by `a` to `z`;
/// for other text the result is a function of the text.
#[verifier::external_body]
pub(crate) fn str_to_lowercase(text: &str) -> (lowered: String)
    ensures
        is_ascii_chars(text@) ==> lowered@ == ascii_lowercase(text@),
        !is_ascii_chars(text@) ==> lowered@ == lowercase_text(text@),
{
    text.to_lowercase()
}

/// `String::from_utf8`: succeeds exactly on well-formed UTF-8, with the text
/// that the bytes encode.
#[verifier::external_body]
pub(crate) fn string_from_utf8(bytes: Vec<u8>) -> (r: Result<String, std::string::FromUtf8Error>)
    ensures
        r is Ok <==> valid_utf8(bytes@),
        r is Ok ==> r->Ok_0@ == decode_utf8(bytes@),
{
    String::from_utf8(bytes)
}

/// White space by the Unicode rules: the characters with the property
/// `White_Space`.
pub open spec fn is_white(c: char) -> bool {
    let u = c as u32;
    (0x09 <= u <= 0x0D) || u == 0x20 || u == 0x85 || u == 0xA0 || u == 0x1680 || (0x2000 <= u
        <= 0x200A) || u == 0x2028 || u == 0x2029 || u == 0x202F || u == 0x205F || u == 0x3000
}

/// Index of the first `c` at or after `from`, or the length of `text` when
/// there is none.
pub open spec fn char_position(text: Seq<char>, c: char, from: int) -> int
    decreases text.len() - from,
{
    if 0 <= from < text.len() && text[from] != c {
        char_position(text, c, from + 1)
    } else {
        from
    }
}

/// Index of the first character at or after `from` that is not white space,
/// but no further than `to`.
pub open spec fn white_leading(text: Seq<char>, from: int, to: int) -> int
    decreases to - from,
{
    if 0 <= from < to <= text.len() && is_white(text[from]) {
        white_leading(text, from + 1, to)
    } else {
        from
    }
}

/// Index just past the last character before `to` that is not white space,
/// never below `lo`.
pub open spec fn white_trailing(text: Seq<char>, lo: int, to: int) -> int
    decreases to - lo,
{
    if 0 <= lo < to <= text.len() && is_white(text[to - 1]) {
        white_trailing(text, lo, to - 1)
    } else {
        to
    }
}

/// A `Content-Type` without its parameters: what stands before the first
/// semicolon, without the white space around it.
pub open spec fn media_type_of(text: Seq<char>) -> Seq<char> {
    let stop = char_position(text, ';', 0);
    let start = white_leading(text, 0, stop);
    text.subrange(start, white_trailing(text, start, stop))
}

/// Whether `c` is white space by the Unicode rules.
pub fn char_is_white(c: char) -> (white: bool)
    ensures
        white == is_white(c),
{
    let u: u32 = c as u32;
    (0x09 <= u && u <= 0x0D) || u == 0x20 || u == 0x85 || u == 0xA0 || u == 0x1680 || (0x2000 <= u
        && u <= 0x200A) || u == 0x2028 || u == 0x2029 || u == 0x202F || u == 0x205F || u
        == 0x3000
}

/// `needle` stands in `text` at index `at`.
pub open spec fn text_occurs_at(text: Seq<char>, needle: Seq<char>, at: int) -> bool {
    0 <= at && at + needle.len() <= text.len() && text.subrange(at, at + needle.len()) == needle
}

/// Index of the first place at or after `from` where `needle` stands in
/// `text`, or the length of `text` when it stands nowhere before the end.
pub open spec fn text_search(text: Seq<char>, needle: Seq<char>, from: int) -> int
    decreases text.len() - from,
{
    if 0 <= from < text.len() && !text_occurs_at(text, needle, from) {
        text_search(text, needle, from + 1)
    } else {
        from
    }
}

/// The character set that a `Content-Type` names: in the lower-case form of
/// the text, what follows the first `charset=` up to the next semicolon,
/// without the white space around it; none where that is empty.
pub open spec fn charset_of(text: Seq<char>) -> Option<Seq<char>> {
    let low = lowercased(text);
    let marker = "charset="@;
    let at = text_search(low, marker, 0);
    if text_occurs_at(low, marker, at) {
        let stop = char_position(low, ';', at + marker.len());
        let start = white_leading(low, at + marker.len(), stop);
        let end = white_trailing(low, start, stop);
        if start < end {
            Some(low.subrange(start, end))
        } else {
            None
        }
    } else {
        None
    }
}

/// Index of the first `c` in `text` at or after `from`.
fn find_char(text: &str, c: char, from: usize) -> (at: usize)
    requires
        from <= text@.len(),
    ensures
        at == char_position(text@, c, from as int),
        from <= at <= text@.len(),
{
    let n: usize = text.unicode_len();
    let mut at: usize = from;
    while at < n && text.get_char(at) != c
        invariant
            from <= at <= n,
            n == text@.len(),
            char_position(text@, c, from as int) == char_position(text@, c, at as int),
        decreases n - at,
    {
        at += 1;
    }
    at
}

/// The part of `text` between `from` and `to` without the white space
/// around it.
fn trim_white(text: &str, from: usize, to: usize) -> (ends: (usize, usize))
    requires
        from <= to <= text@.len(),
    ensures
        ends.0 == white_leading(text@, from as int, to as int),
        ends.1 == white_trailing(text@, ends.0 as int, to as int),
        from <= ends.0 <= ends.1 <= to,
{
    let mut start: usize = from;
    while start < to && char_is_white(text.get_char(start))
        invariant
            from <= start <= to <= text@.len(),
            white_leading(text@, from as int, to as int) == white_leading(
                text@,
                start as int,
                to as int,
            ),
        decreases to - start,
    {
        start += 1;
    }
    let mut end: usize = to;
    while start < end && char_is_white(text.get_char(end - 1))
        invariant
            start <= end <= to <= text@.len(),
            white_trailing(text@, start as int, to as int) == white_trailing(
                text@,
                start as int,
                end as int,
            ),
        decreases end - start,
    {
        end -= 1;
    }
    (start, end)
}

/// Whether `needle` stands in `text` at index `at`.
fn text_matches_at(text: &str, needle: &str, at: usize) -> (r: bool)
    ensures
        r == text_occurs_at(text@, needle@, at as int),
{
    let n: usize = text.unicode_len();
    let m: usize = needle.unicode_len();
    if at > n || m > n - at {
        return false;
    }
    let mut i: usize = 0;
    while i < m
        invariant
            i <= m,
            m == needle@.len(),
            n == text@.len(),
            at + m <= n,
            forall|j: int| 0 <= j < i ==> text@[at + j] == #[trigger] needle@[j],
        decreases m - i,
    {
        if text.get_char(at + i) != needle.get_char(i) {
            assert(text@.subrange(at as int, at + needle@.len())[i as int] != needle@[i as int]);
            return false;
        }
        i += 1;
    }
    assert(text@.subrange(at as int, at + needle@.len()) =~= needle@);
    true
}

/// A `Content-Type` without its parameters.
pub fn media_type(text: &str) -> (plain: String)
    ensures
        plain@ == media_type_of(text@),
{
    let stop: usize = find_char(text, ';', 0);
    let ends = trim_white(text, 0, stop);
    text.substring_char(ends.0, ends.1).to_owned()
}

/// The character set that a `Content-Type` names.
pub fn charset(text: &str) -> (name: Option<String>)
    ensures
        match name {
            Some(n) => charset_of(text@) == Some(n@),
            None => charset_of(text@) is None,
        },
{
    let lowered = str_to_lowercase(text);
    let low = lowered.as_str();
    let marker = "charset=";
    let n: usize = low.unicode_len();
    let mut at: usize = 0;
    while at < n && !text_matches_at(low, marker, at)
        invariant
            at <= n,
            n == low@.len(),
            text_search(low@, marker@, 0) == text_search(low@, marker@, at as int),
        decreases n - at,
    {
        at += 1;
    }
    if !text_matches_at(low, marker, at) {
        return None;
    }
    let begin: usize = at + marker.unicode_len();
    let stop: usize = find_char(low, ';', begin);
    let ends = trim_white(low, begin, stop);
    if ends.0 < ends.1 {
        Some(low.substring_char(ends.0, ends.1).to_owned())
    } else {
        None
    }
}

/// Decodes `bytes` in the given encoding.
pub fn decode(encoding: HeaderEncoding, bytes: &[u8]) -> (text: String)
    ensures
        text@ == decoded(encoding, bytes@),
        encoding == HeaderEncoding::Latin1 ==> text@.len() == bytes@.len(),
{
    match encoding {
        HeaderEncoding::Unicode => decode_utf8_lossy(bytes),
        HeaderEncoding::Latin1 => decode_windows_1252(bytes),
    }
}

} // verus!
