//! The content of a header block: an ordered list of key and value byte
//! strings that keeps duplicates, with an optional status line.

use crate::ascii::has_prefix;
use crate::ascii::is_trimmed;
use crate::ascii::joined;
use crate::ascii::position;
use crate::ascii::same_ignoring_case;
use crate::ascii::trimmed;
use crate::decimal::parsed_up_to;
use crate::text::HeaderEncoding;
use crate::text::decoded;
use vstd::prelude::*;
use vstd::string::StringSliceAdditionalSpecFns;

verus! {


/// The content of a header block.
pub struct HeaderBlock {
    pub encoding: HeaderEncoding,
    pub status_line: Seq<u8>,
    pub headers: Seq<(Seq<u8>, Seq<u8>)>,
}

/// Carriage return and line feed.
pub open spec fn crlf() -> Seq<u8> {
    seq![0x0Du8, 0x0Au8]
}

/// Whether some entry has the key, up to letter case.
pub open spec fn has_key(headers: Seq<(Seq<u8>, Seq<u8>)>, key: Seq<u8>) -> bool {
    exists|i: int| 0 <= i < headers.len() && same_ignoring_case((#[trigger] headers[i]).0, key)
}

/// The values of the entries with the key, in storage order.
pub open spec fn values_of(headers: Seq<(Seq<u8>, Seq<u8>)>, key: Seq<u8>) -> Seq<Seq<u8>>
    decreases headers.len(),
{
    if headers.len() == 0 {
        Seq::empty()
    } else {
        let front = values_of(headers.drop_last(), key);
        if same_ignoring_case(headers.last().0, key) {
            front.push(headers.last().1)
        } else {
            front
        }
    }
}

/// The entries whose key differs from `key`, in storage order.
pub open spec fn without_key(headers: Seq<(Seq<u8>, Seq<u8>)>, key: Seq<u8>) -> Seq<
    (Seq<u8>, Seq<u8>),
>
    decreases headers.len(),
{
    if headers.len() == 0 {
        Seq::empty()
    } else {
        let front = without_key(headers.drop_last(), key);
        if same_ignoring_case(headers.last().0, key) {
            front
        } else {
            front.push(headers.last())
        }
    }
}

/// Index of the first entry at or after `from` with the key, or the number
/// of entries when there is none.
pub open spec fn first_match(headers: Seq<(Seq<u8>, Seq<u8>)>, key: Seq<u8>, from: int) -> int
    decreases headers.len() - from,
{
    if 0 <= from < headers.len() && !same_ignoring_case(headers[from].0, key) {
        first_match(headers, key, from + 1)
    } else {
        from
    }
}

/// The bytes of one header line: the key with a colon and a space unless the
/// key is empty, the value, and a line end.
pub open spec fn line_of(entry: (Seq<u8>, Seq<u8>)) -> Seq<u8> {
    if entry.0.len() > 0 {
        entry.0 + seq![0x3Au8, 0x20u8] + entry.1 + crlf()
    } else {
        entry.1 + crlf()
    }
}

/// The header lines of all entries, in storage order.
pub open spec fn lines_of(headers: Seq<(Seq<u8>, Seq<u8>)>) -> Seq<u8>
    decreases headers.len(),
{
    if headers.len() == 0 {
        Seq::empty()
    } else {
        lines_of(headers.drop_last()) + line_of(headers.last())
    }
}

/// The part of `line` before its first space.
pub open spec fn first_word(line: Seq<u8>) -> Seq<u8> {
    line.subrange(0, position(line, 0x20, 0))
}

/// The part of `line` after its first space; empty without a space.
pub open spec fn after_word(line: Seq<u8>) -> Seq<u8> {
    let at = position(line, 0x20, 0);
    if at < line.len() {
        line.subrange(at + 1, line.len() as int)
    } else {
        Seq::empty()
    }
}

/// Whether `line` holds a space.
pub open spec fn has_space(line: Seq<u8>) -> bool {
    position(line, 0x20, 0) < line.len()
}

/// The bytes of `HTTP/`, with which an HTTP status line begins.
pub open spec fn http_marker() -> Seq<u8> {
    "HTTP/".spec_bytes()
}

/// Every key and value is free of surrounding white space.
pub open spec fn all_trimmed(headers: Seq<(Seq<u8>, Seq<u8>)>) -> bool {
    forall|i: int|
        0 <= i < headers.len() ==> is_trimmed((#[trigger] headers[i]).0) && is_trimmed(
            headers[i].1,
        )
}

/// The decoding of optional bytes.
pub open spec fn opt_decoded(encoding: HeaderEncoding, bytes: Option<Seq<u8>>) -> Option<
    Seq<char>,
> {
    match bytes {
        Some(b) => Some(decoded(encoding, b)),
        None => None,
    }
}

impl HeaderBlock {
    /// Every stored key and value is free of surrounding white space.
    pub open spec fn well_formed(self) -> bool {
        all_trimmed(self.headers)
    }

    /// The entries as text, in storage order.
    pub open spec fn texts(self) -> Seq<(Seq<char>, Seq<char>)> {
        Seq::new(
            self.headers.len(),
            |i: int|
                (decoded(self.encoding, self.headers[i].0), decoded(
                    self.encoding,
                    self.headers[i].1,
                )),
        )
    }

    /// The keys as text, in storage order.
    pub open spec fn key_texts(self) -> Seq<Seq<char>> {
        Seq::new(self.headers.len(), |i: int| decoded(self.encoding, self.headers[i].0))
    }

    /// The values as text, in storage order.
    pub open spec fn value_texts(self) -> Seq<Seq<char>> {
        Seq::new(self.headers.len(), |i: int| decoded(self.encoding, self.headers[i].1))
    }

    /// Whether the block has an entry with the key. The key is compared as
    /// it is given, up to letter case: keys are stored trimmed, so that a key
    /// with white space around it is the key of no entry.
    pub open spec fn contains(self, key: Seq<u8>) -> bool {
        has_key(self.headers, key)
    }

    /// The comma-joined values of the entries with the key, which is
    /// compared as it is given, up to letter case.
    pub open spec fn lookup(self, key: Seq<u8>) -> Option<Seq<u8>> {
        if self.contains(key) {
            Some(joined(values_of(self.headers, key)))
        } else {
            None
        }
    }

    /// The block with one more entry at its end.
    pub open spec fn appended(self, key: Seq<u8>, value: Seq<u8>) -> HeaderBlock {
        HeaderBlock { headers: self.headers.push((trimmed(key), trimmed(value))), ..self }
    }

    /// The block after `key` is set to `value`: the first entry with the
    /// trimmed key is replaced in place and the later ones are dropped;
    /// without such an entry a new one is added at the end.
    pub open spec fn with(self, key: Seq<u8>, value: Seq<u8>) -> HeaderBlock {
        let name = trimmed(key);
        let at = first_match(self.headers, name, 0);
        let entry = (name, trimmed(value));
        if at < self.headers.len() {
            HeaderBlock {
                headers: self.headers.subrange(0, at).push(entry) + without_key(
                    self.headers.subrange(at + 1, self.headers.len() as int),
                    name,
                ),
                ..self
            }
        } else {
            HeaderBlock { headers: self.headers.push(entry), ..self }
        }
    }

    /// The block after a continuation line: the fragment is joined to the
    /// value of the last entry with a space; a block without entries gets one
    /// with an empty key.
    pub open spec fn continued(self, fragment: Seq<u8>) -> HeaderBlock {
        if self.headers.len() == 0 {
            HeaderBlock { headers: seq![(Seq::<u8>::empty(), trimmed(fragment))], ..self }
        } else {
            let last = self.headers.last();
            HeaderBlock {
                headers: self.headers.update(
                    self.headers.len() - 1,
                    (last.0, trimmed(last.1 + seq![0x20u8] + trimmed(fragment))),
                ),
                ..self
            }
        }
    }

    /// The block with another status line.
    pub open spec fn with_status_line(self, line: Seq<u8>) -> HeaderBlock {
        HeaderBlock { status_line: line, ..self }
    }

    /// The block without status line and entries.
    pub open spec fn cleared(self) -> HeaderBlock {
        HeaderBlock { status_line: Seq::empty(), headers: Seq::empty(), ..self }
    }

    /// The bytes of the block on the wire: the status line, if any, and one
    /// line for each entry. The blank line after the block is not part of it.
    pub open spec fn wire(self) -> Seq<u8> {
        if self.status_line.len() > 0 {
            self.status_line + crlf() + lines_of(self.headers)
        } else {
            lines_of(self.headers)
        }
    }

    /// The status code of an HTTP status line: the number between the first
    /// and the second space of a line that begins with `HTTP/`.
    pub open spec fn status_code(self) -> Option<u16> {
        if has_prefix(self.status_line, http_marker()) && has_space(self.status_line) {
            match parsed_up_to(first_word(after_word(self.status_line)), 0xFFFF) {
                Some(n) => Some(n as u16),
                None => None,
            }
        } else {
            None
        }
    }

    /// The bytes of the reason phrase of an HTTP status line: what follows
    /// the second space of a line that begins with `HTTP/`.
    pub open spec fn reason(self) -> Option<Seq<u8>> {
        if has_prefix(self.status_line, http_marker()) && has_space(self.status_line)
            && has_space(after_word(self.status_line)) {
            Some(after_word(after_word(self.status_line)))
        } else {
            None
        }
    }
}

/// A key has values exactly when some entry has it.
pub proof fn lemma_values_of_has_key(headers: Seq<(Seq<u8>, Seq<u8>)>, key: Seq<u8>)
    ensures
        values_of(headers, key).len() > 0 <==> has_key(headers, key),
    decreases headers.len(),
{
    if headers.len() > 0 {
        let front = headers.drop_last();
        lemma_values_of_has_key(front, key);
        if has_key(headers, key) {
            let i = choose|i: int|
                0 <= i < headers.len() && same_ignoring_case((#[trigger] headers[i]).0, key);
            if i < headers.len() - 1 {
                assert(same_ignoring_case(front[i].0, key));
            }
        }
        if has_key(front, key) {
            let i = choose|i: int|
                0 <= i < front.len() && same_ignoring_case((#[trigger] front[i]).0, key);
            assert(same_ignoring_case(headers[i].0, key));
        }
        if same_ignoring_case(headers.last().0, key) {
            assert(same_ignoring_case(headers[headers.len() - 1].0, key));
        }
    }
}

/// Where the first entry with a key is found, and that none comes before it.
pub proof fn lemma_first_match_bounds(headers: Seq<(Seq<u8>, Seq<u8>)>, key: Seq<u8>, from: int)
    requires
        0 <= from <= headers.len(),
    ensures
        from <= first_match(headers, key, from) <= headers.len(),
        forall|i: int|
            from <= i < first_match(headers, key, from) ==> !same_ignoring_case(
                (#[trigger] headers[i]).0,
                key,
            ),
        first_match(headers, key, from) < headers.len() ==> same_ignoring_case(
            headers[first_match(headers, key, from)].0,
            key,
        ),
    decreases headers.len() - from,
{
    if from < headers.len() && !same_ignoring_case(headers[from].0, key) {
        lemma_first_match_bounds(headers, key, from + 1);
    }
}

} // verus!
