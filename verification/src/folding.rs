//! The folded map of a header block agrees with lookups in the block.

use crate::ascii::joined;
use crate::ascii::same_ignoring_case;
use crate::header_block::lemma_values_of_has_key;
use crate::header_block::values_of;
use crate::header_block::HeaderBlock;
use crate::key::folded;
use crate::key::lemma_slot_of_bounds;
use crate::key::same_key;
use crate::key::slot_of;
use crate::laws::lemma_comma_bytes;
use crate::laws::lemma_encode_concat;
use crate::text::decoded;
use crate::text::latin1_text;
use crate::text::HeaderEncoding;
use vstd::prelude::*;
use vstd::utf8::encode_utf8;
use vstd::utf8::valid_utf8;

verus! {

/// The values of the items with the key, in their order.
pub open spec fn text_values_of(items: Seq<(Seq<char>, Seq<char>)>, key: Seq<char>) -> Seq<
    Seq<char>,
>
    decreases items.len(),
{
    if items.len() == 0 {
        Seq::empty()
    } else {
        let front = text_values_of(items.drop_last(), key);
        if same_key(items.last().0, key) {
            front.push(items.last().1)
        } else {
            front
        }
    }
}

/// The texts joined by single commas.
pub open spec fn text_joined(values: Seq<Seq<char>>) -> Seq<char>
    decreases values.len(),
{
    if values.len() == 0 {
        Seq::empty()
    } else if values.len() == 1 {
        values[0]
    } else {
        text_joined(values.drop_last()) + ","@ + values.last()
    }
}

/// Where the first entry with a key stands, given that none stands before.
pub proof fn lemma_slot_is(entries: Seq<(Seq<char>, Seq<char>)>, key: Seq<char>, from: int, at: int)
    requires
        0 <= from <= at <= entries.len(),
        forall|i: int| from <= i < at ==> !same_key((#[trigger] entries[i]).0, key),
        at < entries.len() ==> same_key(entries[at].0, key),
    ensures
        slot_of(entries, key, from) == at,
    decreases at - from,
{
    if from < at {
        lemma_slot_is(entries, key, from + 1, at);
    }
}

/// The folded items hold, for every key, one entry with the joined values of
/// the items with that key, and no entry for a key that no item has.
pub proof fn lemma_folded_holds_joined(items: Seq<(Seq<char>, Seq<char>)>, key: Seq<char>)
    ensures
        ({
            let entries = folded(items);
            let at = slot_of(entries, key, 0);
            let values = text_values_of(items, key);
            &&& 0 <= at <= entries.len()
            &&& (at < entries.len()) == (values.len() > 0)
            &&& at < entries.len() ==> entries[at].1 == text_joined(values) && same_key(
                entries[at].0,
                key,
            )
        }),
    decreases items.len(),
{
    if items.len() == 0 {
    } else {
        let front = items.drop_last();
        let last = items.last();
        let before = folded(front);
        let after = folded(items);
        lemma_folded_holds_joined(front, key);
        lemma_folded_holds_joined(front, last.0);
        lemma_slot_of_bounds(before, key, 0);
        lemma_slot_of_bounds(before, last.0, 0);
        let was = slot_of(before, key, 0);
        let here = slot_of(before, last.0, 0);
        let values = text_values_of(front, key);
        if here < before.len() {
            assert(after == before.update(
                here,
                (before[here].0, before[here].1 + ","@ + last.1),
            ));
            assert forall|i: int| 0 <= i < was implies !same_key((#[trigger] after[i]).0, key) by {
                assert(after[i].0 == before[i].0);
            }
            if was < before.len() {
                assert(after[was].0 == before[was].0);
            }
            lemma_slot_is(after, key, 0, was);
            if same_key(last.0, key) {
                if was < before.len() {
                    if was < here {
                        assert(same_key(before[was].0, last.0));
                    }
                    if here < was {
                        assert(same_key(before[here].0, key));
                    }
                } else {
                    assert(same_key(before[here].0, key));
                }
                assert(was == here);
                assert(values.push(last.1).drop_last() =~= values);
            } else {
                if was == here {
                    assert(same_key(last.0, key));
                }
            }
        } else {
            assert(after == before.push(last));
            assert forall|i: int| 0 <= i < was implies !same_key((#[trigger] after[i]).0, key) by {
                assert(after[i] == before[i]);
            }
            if same_key(last.0, key) {
                if was < before.len() {
                    assert(same_key(before[was].0, last.0));
                }
                assert(was == before.len());
                lemma_slot_is(after, key, 0, was);
                assert(values.push(last.1).drop_last() =~= values);
            } else {
                if was < before.len() {
                    assert(after[was] == before[was]);
                    lemma_slot_is(after, key, 0, was);
                } else {
                    lemma_slot_is(after, key, 0, after.len() as int);
                }
            }
        }
    }
}

/// Every byte of every key is ASCII.
pub open spec fn ascii_keys(headers: Seq<(Seq<u8>, Seq<u8>)>) -> bool {
    forall|i: int, j: int|
        0 <= i < headers.len() && 0 <= j < headers[i].0.len() ==> (#[trigger] headers[i].0[j])
            < 0x80
}

/// The values can be decoded one by one: in a Latin1 block every byte stands
/// for itself; in a Unicode block the values must be well-formed UTF-8.
pub open spec fn separable_values(block: HeaderBlock) -> bool {
    block.encoding == HeaderEncoding::Unicode ==> forall|i: int|
        0 <= i < block.headers.len() ==> valid_utf8((#[trigger] block.headers[i]).1)
}

/// ASCII bytes are the UTF-8 bytes of the text that they decode to, in
/// either encoding.
pub proof fn lemma_ascii_bytes_decoded(encoding: HeaderEncoding, bytes: Seq<u8>)
    requires
        forall|j: int| 0 <= j < bytes.len() ==> #[trigger] bytes[j] < 0x80,
    ensures
        encode_utf8(decoded(encoding, bytes)) == bytes,
{
    let text = Seq::new(bytes.len(), |j: int| bytes[j] as char);
    assert(vstd::utf8::is_ascii_chars(text));
    vstd::utf8::is_ascii_chars_encode_utf8(text);
    assert(encode_utf8(text) =~= bytes) by {
        assert forall|j: int| 0 <= j < bytes.len() implies encode_utf8(text)[j] == bytes[j] by {
            assert(text[j] as u8 == encode_utf8(text)[j]);
        }
    }
    vstd::utf8::encode_utf8_valid_utf8(text);
    vstd::utf8::encode_utf8_decode_utf8(text);
    assert(latin1_text(bytes) =~= text);
}

/// Decoding goes through a comma: the text of two values with a comma
/// between them is the text of the one, a comma, and the text of the other.
pub proof fn lemma_decoded_through_comma(encoding: HeaderEncoding, a: Seq<u8>, b: Seq<u8>)
    requires
        encoding == HeaderEncoding::Unicode ==> valid_utf8(a) && valid_utf8(b),
    ensures
        decoded(encoding, a + seq![0x2Cu8] + b) == decoded(encoding, a) + ","@ + decoded(
            encoding,
            b,
        ),
        encoding == HeaderEncoding::Unicode ==> valid_utf8(a + seq![0x2Cu8] + b),
{
    lemma_comma_bytes();
    reveal_strlit(",");
    match encoding {
        HeaderEncoding::Latin1 => {
            assert(latin1_text(a + seq![0x2Cu8] + b) =~= latin1_text(a) + ","@ + latin1_text(b));
        },
        HeaderEncoding::Unicode => {
            let ta = vstd::utf8::decode_utf8(a);
            let tb = vstd::utf8::decode_utf8(b);
            vstd::utf8::decode_utf8_encode_utf8(a);
            vstd::utf8::decode_utf8_encode_utf8(b);
            lemma_encode_concat(ta, ","@);
            lemma_encode_concat(ta + ","@, tb);
            let whole = ta + ","@ + tb;
            assert(encode_utf8(whole) == a + seq![0x2Cu8] + b);
            vstd::utf8::encode_utf8_valid_utf8(whole);
            vstd::utf8::encode_utf8_decode_utf8(whole);
        },
    }
}

/// The texts of a list of values.
pub open spec fn decoded_all(encoding: HeaderEncoding, values: Seq<Seq<u8>>) -> Seq<Seq<char>> {
    Seq::new(values.len(), |i: int| decoded(encoding, values[i]))
}

/// The joined texts of values are the text of the joined values.
pub proof fn lemma_joined_decoded(encoding: HeaderEncoding, values: Seq<Seq<u8>>)
    requires
        values.len() > 0,
        encoding == HeaderEncoding::Unicode ==> forall|i: int|
            0 <= i < values.len() ==> valid_utf8(#[trigger] values[i]),
    ensures
        text_joined(decoded_all(encoding, values)) == decoded(encoding, joined(values)),
        encoding == HeaderEncoding::Unicode ==> valid_utf8(joined(values)),
    decreases values.len(),
{
    let texts = decoded_all(encoding, values);
    if values.len() == 1 {
        assert(texts[0] == decoded(encoding, values[0]));
    } else {
        let front = values.drop_last();
        assert forall|i: int| 0 <= i < front.len() implies (encoding == HeaderEncoding::Unicode
            ==> valid_utf8(#[trigger] front[i])) by {
            assert(front[i] == values[i]);
        }
        lemma_joined_decoded(encoding, front);
        assert(texts.drop_last() =~= decoded_all(encoding, front));
        assert(texts.last() == decoded(encoding, values.last()));
        assert(values[values.len() - 1] == values.last());
        lemma_decoded_through_comma(encoding, joined(front), values.last());
    }
}

/// The values of a key among the texts of a block are the texts of its
/// values among the entries, where the keys are ASCII.
pub proof fn lemma_text_values_decoded(block: HeaderBlock, key: Seq<char>)
    requires
        ascii_keys(block.headers),
    ensures
        text_values_of(block.texts(), key) == decoded_all(
            block.encoding,
            values_of(block.headers, encode_utf8(key)),
        ),
    decreases block.headers.len(),
{
    let headers = block.headers;
    let name = encode_utf8(key);
    if headers.len() == 0 {
        assert(block.texts() =~= Seq::<(Seq<char>, Seq<char>)>::empty());
        assert(decoded_all(block.encoding, values_of(headers, name)) =~= Seq::<
            Seq<char>,
        >::empty());
    } else {
        let front = HeaderBlock { headers: headers.drop_last(), ..block };
        assert(ascii_keys(front.headers)) by {
            assert forall|i: int, j: int|
                0 <= i < front.headers.len() && 0 <= j < front.headers[i].0.len() implies (
            #[trigger] front.headers[i].0[j]) < 0x80 by {
                assert(front.headers[i] == headers[i]);
                assert(headers[i].0[j] < 0x80);
            }
        }
        lemma_text_values_decoded(front, key);
        assert(block.texts().drop_last() =~= front.texts());
        let last = headers.last();
        assert(headers[headers.len() - 1] == last);
        assert(block.texts().last() == (
            decoded(block.encoding, last.0),
            decoded(block.encoding, last.1),
        ));
        assert forall|j: int| 0 <= j < last.0.len() implies #[trigger] last.0[j] < 0x80 by {
            assert(headers[headers.len() - 1].0[j] < 0x80);
        }
        lemma_ascii_bytes_decoded(block.encoding, last.0);
        let earlier = values_of(headers.drop_last(), name);
        if same_ignoring_case(last.0, name) {
            assert(decoded_all(block.encoding, earlier.push(last.1)) =~= decoded_all(
                block.encoding,
                earlier,
            ).push(decoded(block.encoding, last.1)));
        }
    }
}

/// The values of a key are values of the block.
pub proof fn lemma_values_are_stored(headers: Seq<(Seq<u8>, Seq<u8>)>, key: Seq<u8>, i: int)
    requires
        0 <= i < values_of(headers, key).len(),
    ensures
        exists|j: int| 0 <= j < headers.len() && (#[trigger] headers[j]).1 == values_of(
            headers,
            key,
        )[i],
    decreases headers.len(),
{
    let front = headers.drop_last();
    let last = headers.last();
    if same_ignoring_case(last.0, key) && i == values_of(front, key).len() {
        assert(headers[headers.len() - 1].1 == values_of(headers, key)[i]);
    } else {
        lemma_values_are_stored(front, key, i);
        let j = choose|j: int|
            0 <= j < front.len() && (#[trigger] front[j]).1 == values_of(front, key)[i];
        assert(headers[j].1 == values_of(headers, key)[i]);
    }
}

/// The folded map of a block agrees with `get` for every key, present or
/// absent and in any letter case: the map holds an entry for the key exactly
/// when the block has the key, with the text that `get` returns.
///
/// The stored keys must be ASCII, and in a Unicode block the values must be
/// well-formed UTF-8: only then is the text of joined values the joined text
/// of the values.
pub proof fn law_folded_map_agrees_with_get(block: HeaderBlock, key: Seq<char>)
    requires
        ascii_keys(block.headers),
        separable_values(block),
    ensures
        ({
            let entries = folded(block.texts());
            let at = slot_of(entries, key, 0);
            match block.lookup(encode_utf8(key)) {
                Some(value) => at < entries.len() && same_key(entries[at].0, key) && entries[at].1
                    == decoded(block.encoding, value),
                None => at == entries.len(),
            }
        }),
{
    let name = encode_utf8(key);
    let values = values_of(block.headers, name);
    lemma_folded_holds_joined(block.texts(), key);
    lemma_text_values_decoded(block, key);
    lemma_values_of_has_key(block.headers, name);
    if values.len() > 0 {
        assert forall|i: int| 0 <= i < values.len() implies (block.encoding
            == HeaderEncoding::Unicode ==> valid_utf8(#[trigger] values[i])) by {
            lemma_values_are_stored(block.headers, name, i);
        }
        lemma_joined_decoded(block.encoding, values);
    }
}

} // verus!
