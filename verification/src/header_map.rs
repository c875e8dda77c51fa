//! The header block of a WARC record or of an embedded HTTP message as it is
//! held in memory.

use crate::ascii::eq_ignore_ascii_case;
use crate::ascii::find_byte;
use crate::ascii::has_prefix;
use crate::ascii::is_trimmed;
use crate::ascii::joined;
use crate::ascii::lemma_trimmed_is_trimmed;
use crate::ascii::same_ignoring_case;
use crate::ascii::starts_with;
use crate::ascii::trim_ascii;
use crate::ascii::trimmed;
use crate::decimal::parse_number;
use crate::header_block::HeaderBlock;
use crate::header_block::all_trimmed;
use crate::header_block::crlf;
use crate::header_block::first_match;
use crate::header_block::http_marker;
use crate::header_block::lemma_first_match_bounds;
use crate::header_block::lemma_values_of_has_key;
use crate::header_block::line_of;
use crate::header_block::lines_of;
use crate::header_block::opt_decoded;
use crate::header_block::values_of;
use crate::header_block::without_key;
use crate::key::CaseInsensitiveKey;
use crate::key::distinct_keys;
use crate::key::folded;
use crate::key::keyed;
use crate::key::lemma_folded_distinct;
use crate::key::slot_of;
use crate::text::HeaderEncoding;
use crate::text::decode;
use crate::text::decoded;
use crate::text::string_from_utf8;
use vstd::prelude::*;
use vstd::slice::slice_subrange;
use vstd::slice::slice_to_vec;
use vstd::string::StringSliceAdditionalSpecFns;
use vstd::utf8::decode_utf8;
use vstd::utf8::valid_utf8;

verus! {

/// The bytes of an optional byte string.
pub open spec fn opt_bytes(value: Option<Vec<u8>>) -> Option<Seq<u8>> {
    match value {
        Some(v) => Some(v@),
        None => None,
    }
}

/// The characters of an optional text.
pub open spec fn opt_text(value: Option<String>) -> Option<Seq<char>> {
    match value {
        Some(v) => Some(v@),
        None => None,
    }
}

/// The characters of pairs of texts.
pub open spec fn text_pairs(items: Seq<(String, String)>) -> Seq<(Seq<char>, Seq<char>)> {
    Seq::new(items.len(), |i: int| (items[i].0@, items[i].1@))
}

/// The characters of a list of texts.
pub open spec fn text_list(items: Seq<String>) -> Seq<Seq<char>> {
    Seq::new(items.len(), |i: int| items[i]@)
}

/// The stored pairs as byte strings.
pub open spec fn pairs(stored: Seq<(Vec<u8>, Vec<u8>)>) -> Seq<(Seq<u8>, Seq<u8>)> {
    Seq::new(stored.len(), |i: int| (stored[i].0@, stored[i].1@))
}

/// Whether `line` begins with `HTTP/`.
fn is_http_line(line: &[u8]) -> (r: bool)
    ensures
        r == has_prefix(line@, http_marker()),
{
    starts_with(line, "HTTP/".as_bytes())
}

/// Dict-like type representing a WARC or HTTP header block.
#[derive(Debug)]
pub struct HeaderMap {
    encoding: HeaderEncoding,
    status_line: Vec<u8>,
    headers: Vec<(Vec<u8>, Vec<u8>)>,
}

impl View for HeaderMap {
    type V = HeaderBlock;

    closed spec fn view(&self) -> HeaderBlock {
        HeaderBlock {
            encoding: self.encoding,
            status_line: self.status_line@,
            headers: pairs(self.headers@),
        }
    }
}

impl HeaderMap {
    #[verifier::type_invariant]
    pub(crate) open spec fn stored_trimmed(&self) -> bool {
        self@.well_formed()
    }

    /// Create a new header map with the specified encoding.
    pub fn new(encoding: HeaderEncoding) -> (map: Self)
        ensures
            map@ == (HeaderBlock { encoding, status_line: Seq::empty(), headers: Seq::empty() }),
            map@.well_formed(),
    {
        let map = HeaderMap { encoding, status_line: Vec::new(), headers: Vec::new() };
        assert(map@.headers =~= Seq::empty());
        map
    }

    /// Get the header encoding.
    pub fn encoding(&self) -> (encoding: HeaderEncoding)
        ensures
            encoding == self@.encoding,
    {
        self.encoding
    }

    /// Get the header status line as text; fails where it is not UTF-8.
    pub fn status_line(&self) -> (line: Result<String, std::string::FromUtf8Error>)
        ensures
            line is Ok <==> valid_utf8(self@.status_line),
            line is Ok ==> line->Ok_0@ == decode_utf8(self@.status_line),
    {
        string_from_utf8(slice_to_vec(self.status_line.as_slice()))
    }

    /// Get the raw status line as bytes.
    pub fn status_line_bytes(&self) -> (line: &[u8])
        ensures
            line@ == self@.status_line,
    {
        self.status_line.as_slice()
    }

    /// Set status line contents.
    pub fn set_status_line(&mut self, status_line: &[u8])
        ensures
            final(self)@ == old(self)@.with_status_line(status_line@),
            final(self)@.well_formed(),
    {
        proof {
            use_type_invariant(&*self);
        }
        self.status_line = slice_to_vec(status_line);
        proof {
            use_type_invariant(&*self);
        }
    }

    /// Get the number of headers.
    pub fn len(&self) -> (n: usize)
        ensures
            n == self@.headers.len(),
    {
        self.headers.len()
    }

    /// Check if the header map is empty.
    pub fn is_empty(&self) -> (empty: bool)
        ensures
            empty == (self@.headers.len() == 0),
    {
        self.headers.len() == 0
    }

    /// Moves the stored entries out and leaves the map without entries.
    fn take_entries(&mut self) -> (stored: Vec<(Vec<u8>, Vec<u8>)>)
        ensures
            pairs(stored@) == old(self)@.headers,
            all_trimmed(pairs(stored@)),
            final(self)@ == (HeaderBlock { headers: Seq::empty(), ..old(self)@ }),
    {
        proof {
            use_type_invariant(&*self);
        }
        let mut stored: Vec<(Vec<u8>, Vec<u8>)> = Vec::new();
        std::mem::swap(&mut self.headers, &mut stored);
        assert(self@.headers =~= Seq::empty());
        stored
    }

    /// HTTP status code (unset if header block is not an HTTP header block).
    pub fn status_code(&self) -> (code: Option<u16>)
        ensures
            code == self@.status_code(),
    {
        let line = self.status_line.as_slice();
        if !is_http_line(line) {
            return None;
        }
        let first: usize = find_byte(line, 0x20, 0);
        if first >= line.len() {
            return None;
        }
        let rest = slice_subrange(line, first + 1, line.len());
        let second: usize = find_byte(rest, 0x20, 0);
        let word = slice_subrange(rest, 0, second);
        match parse_number(word, 0xFFFF) {
            Some(n) => Some(n as u16),
            None => None,
        }
    }

    /// HTTP reason phrase.
    /// Returns None if the header block is not an HTTP header block or no reason phrase was given.
    pub fn reason_phrase(&self) -> (phrase: Option<String>)
        ensures
            opt_text(phrase) == opt_decoded(self@.encoding, self@.reason()),
    {
        let line = self.status_line.as_slice();
        if !is_http_line(line) {
            return None;
        }
        let first: usize = find_byte(line, 0x20, 0);
        if first >= line.len() {
            return None;
        }
        let rest = slice_subrange(line, first + 1, line.len());
        let second: usize = find_byte(rest, 0x20, 0);
        if second >= rest.len() {
            return None;
        }
        Some(decode(self.encoding, slice_subrange(rest, second + 1, rest.len())))
    }

    /// Get value for (case-insensitive) header key as a string.
    /// Duplicate headers are returned as a single value joined with `","`.
    /// The key is compared as it is given.
    pub fn get(&self, key: &str) -> (value: Option<String>)
        ensures
            opt_text(value) == opt_decoded(self@.encoding, self@.lookup(key.spec_bytes())),
    {
        match self.get_bytes(key.as_bytes()) {
            Some(bytes) => Some(decode(self.encoding, bytes.as_slice())),
            None => None,
        }
    }

    /// Get value for (case-insensitive) header key as bytes.
    /// Duplicate headers are returned as a single value joined with `","`.
    /// The key is compared as it is given.
    pub fn get_bytes(&self, key: &[u8]) -> (value: Option<Vec<u8>>)
        ensures
            opt_bytes(value) == self@.lookup(key@),
    {
        let mut out: Vec<u8> = Vec::new();
        let mut found = false;
        let mut i: usize = 0;
        let ghost all = self@.headers;
        while i < self.headers.len()
            invariant
                i <= self.headers.len(),
                all == pairs(self.headers@),
                found == (values_of(all.subrange(0, i as int), key@).len() > 0),
                out@ == joined(values_of(all.subrange(0, i as int), key@)),
            decreases self.headers.len() - i,
        {
            let entry = &self.headers[i];
            proof {
                assert(all.subrange(0, i + 1).drop_last() =~= all.subrange(0, i as int));
                assert(all.subrange(0, i + 1).last() == (entry.0@, entry.1@));
            }
            if eq_ignore_ascii_case(entry.0.as_slice(), key) {
                let ghost front = values_of(all.subrange(0, i as int), key@);
                if found {
                    out.push(0x2C);
                }
                let ghost mid = out@;
                out.extend_from_slice(entry.1.as_slice());
                proof {
                    assert(out@ =~= mid + entry.1@);
                    assert(front.push(entry.1@).drop_last() =~= front);
                }
                found = true;
            }
            i += 1;
        }
        proof {
            assert(all.subrange(0, i as int) =~= all);
            lemma_values_of_has_key(all, key@);
        }
        if found {
            Some(out)
        } else {
            None
        }
    }

    /// Check if a (case-insensitive) header key exists. The key is compared
    /// as it is given.
    pub fn contains_key(&self, key: &str) -> (found: bool)
        ensures
            found == self@.contains(key.spec_bytes()),
    {
        let key_bytes = key.as_bytes();
        let mut i: usize = 0;
        let ghost all = self@.headers;
        while i < self.headers.len()
            invariant
                i <= self.headers.len(),
                all == pairs(self.headers@),
                key_bytes@ == key.spec_bytes(),
                forall|j: int| 0 <= j < i ==> !same_ignoring_case((#[trigger] all[j]).0, key_bytes@),
            decreases self.headers.len() - i,
        {
            if eq_ignore_ascii_case(self.headers[i].0.as_slice(), key_bytes) {
                assert(same_ignoring_case(all[i as int].0, key_bytes@));
                return true;
            }
            i += 1;
        }
        false
    }

    /// Insert new header and overwrite existing header(s) if the key already exists.
    ///
    /// Insertion is not efficient and causes a full traversal of all headers.
    /// If a header already exists, its first occurrence will be updated and
    /// all following occurrences will be dropped. White space around the key
    /// is not part of it.
    pub fn set(&mut self, key: &str, value: &str)
        ensures
            final(self)@ == old(self)@.with(key.spec_bytes(), value.spec_bytes()),
            final(self)@.well_formed(),
    {
        self.set_bytes(key.as_bytes(), value.as_bytes());
    }

    /// Insert new header and overwrite existing header(s) if the key already exists.
    ///
    /// Insertion is not efficient and causes a full traversal of all headers.
    /// If a header already exists, its first occurrence will be updated and
    /// all following occurrences will be dropped. White space around the key
    /// is not part of it.
    pub fn set_bytes(&mut self, key: &[u8], value: &[u8])
        ensures
            final(self)@ == old(self)@.with(key@, value@),
            final(self)@.well_formed(),
    {
        let name = trim_ascii(key);
        let stored = self.take_entries();
        let ghost all = stored@;
        let ghost before = pairs(all);
        let ghost entry = (trimmed(key@), trimmed(value@));
        let ghost at = first_match(before, name@, 0);
        proof {
            lemma_trimmed_is_trimmed(key@);
            lemma_trimmed_is_trimmed(value@);
            lemma_first_match_bounds(before, name@, 0);
        }
        let mut kept: Vec<(Vec<u8>, Vec<u8>)> = Vec::new();
        let mut found = false;
        for item in it: stored
            invariant
                it.seq() == all,
                before == pairs(all),
                all_trimmed(before),
                all_trimmed(pairs(kept@)),
                entry == (trimmed(key@), trimmed(value@)),
                name@ == trimmed(key@),
                is_trimmed(entry.0) && is_trimmed(entry.1),
                at == first_match(before, name@, 0),
                0 <= at <= before.len(),
                !found ==> at == first_match(before, name@, it.index() as int) && pairs(kept@)
                    == before.subrange(0, it.index() as int),
                found ==> at < it.index() && pairs(kept@) == before.subrange(0, at).push(entry)
                    + without_key(before.subrange(at + 1, it.index() as int), name@),
        {
            let ghost i = it.index() as int;
            let ghost old_kept = pairs(kept@);
            proof {
                assert(before[i] == (item.0@, item.1@));
                if found {
                    assert(before.subrange(at + 1, i + 1).drop_last() =~= before.subrange(
                        at + 1,
                        i,
                    ));
                    assert(before.subrange(at + 1, i + 1).last() == before[i]);
                }
            }
            if !eq_ignore_ascii_case(item.0.as_slice(), name) {
                kept.push(item);
                proof {
                    assert(pairs(kept@) =~= old_kept.push(before[i]));
                    if found {
                        assert(pairs(kept@) =~= before.subrange(0, at).push(entry) + without_key(
                            before.subrange(at + 1, i + 1),
                            name@,
                        ));
                    } else {
                        assert(pairs(kept@) =~= before.subrange(0, i + 1));
                    }
                }
            } else if !found {
                kept.push((slice_to_vec(name), slice_to_vec(trim_ascii(value))));
                found = true;
                proof {
                    assert(at == i);
                    assert(before.subrange(at + 1, i + 1) =~= Seq::empty());
                    assert(pairs(kept@) =~= old_kept.push(entry));
                    assert(pairs(kept@) =~= before.subrange(0, at).push(entry) + without_key(
                        before.subrange(at + 1, i + 1),
                        name@,
                    ));
                }
            }
        }
        if !found {
            kept.push((slice_to_vec(name), slice_to_vec(trim_ascii(value))));
            proof {
                assert(before.subrange(0, all.len() as int) =~= before);
                assert(pairs(kept@) =~= before.push(entry));
            }
        } else {
            assert(before.subrange(at + 1, all.len() as int) =~= before.subrange(
                at + 1,
                before.len() as int,
            ));
        }
        self.headers = kept;
    }

    /// Append header.
    ///
    /// Appending a new header is efficient and does not check for
    /// existing headers with the same name.
    pub fn append(&mut self, key: &str, value: &str)
        ensures
            final(self)@ == old(self)@.appended(key.spec_bytes(), value.spec_bytes()),
            final(self)@.well_formed(),
    {
        self.append_bytes(key.as_bytes(), value.as_bytes());
    }

    /// Append header.
    ///
    /// Appending a new header is efficient and does not check for
    /// existing headers with the same name.
    pub fn append_bytes(&mut self, key: &[u8], value: &[u8])
        ensures
            final(self)@ == old(self)@.appended(key@, value@),
            final(self)@.well_formed(),
    {
        let mut stored = self.take_entries();
        let ghost before = pairs(stored@);
        stored.push((slice_to_vec(trim_ascii(key)), slice_to_vec(trim_ascii(value))));
        proof {
            lemma_trimmed_is_trimmed(key@);
            lemma_trimmed_is_trimmed(value@);
            assert(pairs(stored@) =~= before.push((trimmed(key@), trimmed(value@))));
        }
        self.headers = stored;
    }

    /// Folds a continuation line into the value of the last header.
    pub fn add_continuation(&mut self, value: &[u8])
        ensures
            final(self)@ == old(self)@.continued(value@),
            final(self)@.well_formed(),
    {
        let mut stored = self.take_entries();
        let ghost before = pairs(stored@);
        let fragment = trim_ascii(value);
        proof {
            lemma_trimmed_is_trimmed(value@);
        }
        match stored.pop() {
            Some(last) => {
                let ghost front = pairs(stored@);
                let (key, mut text) = last;
                assert(before.last() == (key@, text@));
                text.push(0x20);
                let ghost mid = text@;
                text.extend_from_slice(fragment);
                assert(text@ =~= before.last().1 + seq![0x20u8] + trimmed(value@));
                let folded = slice_to_vec(trim_ascii(text.as_slice()));
                proof {
                    lemma_trimmed_is_trimmed(text@);
                }
                stored.push((key, folded));
                proof {
                    assert(front =~= before.drop_last());
                    assert(pairs(stored@) =~= before.update(
                        before.len() - 1,
                        (before.last().0, trimmed(before.last().1 + seq![0x20u8] + trimmed(value@))),
                    ));
                }
            },
            None => {
                stored.push((Vec::new(), slice_to_vec(fragment)));
                assert(pairs(stored@) =~= seq![(Seq::<u8>::empty(), trimmed(value@))]);
            },
        }
        self.headers = stored;
    }

    /// Keys and values as text, in storage order.
    pub fn items(&self) -> (items: Vec<(String, String)>)
        ensures
            text_pairs(items@) == self@.texts(),
    {
        let mut items: Vec<(String, String)> = Vec::new();
        let mut i: usize = 0;
        while i < self.headers.len()
            invariant
                i <= self.headers.len(),
                items@.len() == i,
                forall|j: int|
                    0 <= j < i ==> (#[trigger] items@[j]).0@ == decoded(
                        self.encoding,
                        self.headers@[j].0@,
                    ) && items@[j].1@ == decoded(self.encoding, self.headers@[j].1@),
            decreases self.headers.len() - i,
        {
            let entry = &self.headers[i];
            items.push(
                (
                    decode(self.encoding, entry.0.as_slice()),
                    decode(self.encoding, entry.1.as_slice()),
                ),
            );
            i += 1;
        }
        assert(text_pairs(items@) =~= self@.texts());
        items
    }

    /// Header keys as text, in storage order.
    pub fn keys(&self) -> (keys: Vec<String>)
        ensures
            text_list(keys@) == self@.key_texts(),
    {
        let mut keys: Vec<String> = Vec::new();
        let mut i: usize = 0;
        while i < self.headers.len()
            invariant
                i <= self.headers.len(),
                keys@.len() == i,
                forall|j: int|
                    0 <= j < i ==> (#[trigger] keys@[j])@ == decoded(
                        self.encoding,
                        self.headers@[j].0@,
                    ),
            decreases self.headers.len() - i,
        {
            keys.push(decode(self.encoding, self.headers[i].0.as_slice()));
            i += 1;
        }
        assert(text_list(keys@) =~= self@.key_texts());
        keys
    }

    /// Header values as text, in storage order.
    pub fn values(&self) -> (values: Vec<String>)
        ensures
            text_list(values@) == self@.value_texts(),
    {
        let mut values: Vec<String> = Vec::new();
        let mut i: usize = 0;
        while i < self.headers.len()
            invariant
                i <= self.headers.len(),
                values@.len() == i,
                forall|j: int|
                    0 <= j < i ==> (#[trigger] values@[j])@ == decoded(
                        self.encoding,
                        self.headers@[j].1@,
                    ),
            decreases self.headers.len() - i,
        {
            values.push(decode(self.encoding, self.headers[i].1.as_slice()));
            i += 1;
        }
        assert(text_list(values@) =~= self@.value_texts());
        values
    }

    /// Headers as a series of String tuples.
    ///
    /// Duplicate headers will be preserved.
    pub fn to_tuples(&self) -> (items: Vec<(String, String)>)
        ensures
            text_pairs(items@) == self@.texts(),
    {
        self.items()
    }

    /// Headers folded by case-insensitive key.
    ///
    /// If multiple headers have the same key, the values will be concatenated with `","`.
    /// The entries stand in the order in which their keys first occur, and no
    /// key occurs twice.
    pub fn to_map(&self) -> (map: Vec<(CaseInsensitiveKey, String)>)
        ensures
            keyed(map@) == folded(self@.texts()),
            distinct_keys(keyed(map@)),
    {
        let mut map: Vec<(CaseInsensitiveKey, String)> = Vec::new();
        let ghost items = self@.texts();
        let mut i: usize = 0;
        while i < self.headers.len()
            invariant
                i <= self.headers.len(),
                items == self@.texts(),
                items.len() == self.headers.len(),
                keyed(map@) == folded(items.subrange(0, i as int)),
            decreases self.headers.len() - i,
        {
            let entry = &self.headers[i];
            let key = CaseInsensitiveKey::new(decode(self.encoding, entry.0.as_slice()));
            let value = decode(self.encoding, entry.1.as_slice());
            let ghost front = keyed(map@);
            proof {
                assert(items.subrange(0, i + 1).drop_last() =~= items.subrange(0, i as int));
                assert(items.subrange(0, i + 1).last() == (key@, value@));
            }
            let mut at: usize = 0;
            while at < map.len() && !(map[at].0 == key)
                invariant
                    at <= map.len(),
                    front == keyed(map@),
                    slot_of(front, key@, 0) == slot_of(front, key@, at as int),
                decreases map.len() - at,
            {
                at += 1;
            }
            if at < map.len() {
                let (first, mut text) = map.remove(at);
                text.append(",");
                text.append(value.as_str());
                map.insert(at, (first, text));
                assert(keyed(map@) =~= front.update(
                    at as int,
                    (front[at as int].0, front[at as int].1 + ","@ + value@),
                ));
            } else {
                map.push((key, value));
                assert(keyed(map@) =~= front.push((key@, value@)));
            }
            i += 1;
        }
        proof {
            assert(items.subrange(0, i as int) =~= items);
            lemma_folded_distinct(items);
        }
        map
    }

    /// Write header block into a byte sink; returns the number of bytes written.
    pub fn write(&self, writer: &mut Vec<u8>) -> (written: usize)
        ensures
            final(writer)@ == old(writer)@ + self@.wire(),
            written == self@.wire().len(),
    {
        let start: usize = writer.len();
        let ghost sink = writer@;
        if self.status_line.len() > 0 {
            writer.extend_from_slice(self.status_line.as_slice());
            writer.push(0x0D);
            writer.push(0x0A);
            assert(writer@ =~= sink + (self@.status_line + crlf()));
        }
        let ghost head = writer@;
        let ghost all = self@.headers;
        let mut i: usize = 0;
        while i < self.headers.len()
            invariant
                i <= self.headers.len(),
                all == pairs(self.headers@),
                writer@ == head + lines_of(all.subrange(0, i as int)),
            decreases self.headers.len() - i,
        {
            let entry = &self.headers[i];
            let ghost so_far = writer@;
            if entry.0.len() > 0 {
                writer.extend_from_slice(entry.0.as_slice());
                writer.push(0x3A);
                writer.push(0x20);
            }
            writer.extend_from_slice(entry.1.as_slice());
            writer.push(0x0D);
            writer.push(0x0A);
            proof {
                assert(all.subrange(0, i + 1).drop_last() =~= all.subrange(0, i as int));
                assert(all.subrange(0, i + 1).last() == (entry.0@, entry.1@));
                assert(writer@ =~= so_far + line_of((entry.0@, entry.1@)));
            }
            i += 1;
        }
        proof {
            assert(all.subrange(0, i as int) =~= all);
            assert(writer@ =~= sink + self@.wire());
        }
        writer.len() - start
    }

    /// Clear all headers and the status line.
    pub fn clear(&mut self)
        ensures
            final(self)@ == old(self)@.cleared(),
            final(self)@.well_formed(),
    {
        self.headers = Vec::new();
        self.status_line = Vec::new();
        assert(self@.headers =~= Seq::empty());
    }
}

impl Clone for HeaderMap {
    fn clone(&self) -> (copy: Self)
        ensures
            copy@ == self@,
            copy@.well_formed(),
    {
        proof {
            use_type_invariant(self);
        }
        let mut headers: Vec<(Vec<u8>, Vec<u8>)> = Vec::new();
        let mut i: usize = 0;
        while i < self.headers.len()
            invariant
                i <= self.headers.len(),
                pairs(headers@) == pairs(self.headers@).subrange(0, i as int),
            decreases self.headers.len() - i,
        {
            let entry = &self.headers[i];
            let ghost before = pairs(headers@);
            headers.push((slice_to_vec(entry.0.as_slice()), slice_to_vec(entry.1.as_slice())));
            i += 1;
            assert(pairs(headers@) =~= before.push((entry.0@, entry.1@)));
            assert(pairs(headers@) =~= pairs(self.headers@).subrange(0, i as int));
        }
        assert(pairs(self.headers@).subrange(0, i as int) =~= pairs(self.headers@));
        HeaderMap {
            encoding: self.encoding,
            status_line: slice_to_vec(self.status_line.as_slice()),
            headers,
        }
    }
}

} // verus!
