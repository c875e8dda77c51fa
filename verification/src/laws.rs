//! Laws of header blocks and of the record filter.

use crate::archive::ArchiveIteratorConfig;
use crate::archive::Found;
use crate::archive::Outcome;
use crate::archive::frame_at;
use crate::archive::framed_record;
use crate::archive::judged;
use crate::archive::lemma_declared_type_is_record_kind;
use crate::archive::lemma_frame_bounds;
use crate::archive::next_record;
use crate::ascii::is_trimmed;
use crate::ascii::joined;
use crate::ascii::lemma_trim_identity;
use crate::ascii::same_ignoring_case;
use crate::ascii::trimmed;
use crate::header_block::HeaderBlock;
use crate::header_block::first_match;
use crate::header_block::lemma_first_match_bounds;
use crate::header_block::lemma_values_of_has_key;
use crate::header_block::opt_decoded;
use crate::header_block::values_of;
use crate::header_block::without_key;
use crate::record::RecordView;
use crate::record_type::WarcRecordType;
use crate::record_type::is_record_kind;
use crate::record_type::law_mask_selects_its_kinds;
use crate::record_type::mask_of;
use crate::text::HeaderEncoding;
use vstd::prelude::*;
use vstd::utf8::encode_utf8;
use vstd::utf8::is_ascii_chars;

verus! {

/// The values of a key in a list of entries are those in its first part
/// followed by those in its second part.
pub proof fn lemma_values_of_concat(
    a: Seq<(Seq<u8>, Seq<u8>)>,
    b: Seq<(Seq<u8>, Seq<u8>)>,
    key: Seq<u8>,
)
    ensures
        values_of(a + b, key) == values_of(a, key) + values_of(b, key),
    decreases b.len(),
{
    if b.len() == 0 {
        assert(a + b =~= a);
        assert(values_of(a, key) + values_of(b, key) =~= values_of(a, key));
    } else {
        lemma_values_of_concat(a, b.drop_last(), key);
        assert((a + b).drop_last() =~= a + b.drop_last());
        assert((a + b).last() == b.last());
        if same_ignoring_case(b.last().0, key) {
            assert(values_of(a, key) + values_of(b.drop_last(), key).push(b.last().1) =~= (
            values_of(a, key) + values_of(b.drop_last(), key)).push(b.last().1));
        }
    }
}

/// Entries from which a key was removed hold no value of it.
pub proof fn lemma_without_key_has_no_value(headers: Seq<(Seq<u8>, Seq<u8>)>, key: Seq<u8>)
    ensures
        values_of(without_key(headers, key), key) == Seq::<Seq<u8>>::empty(),
    decreases headers.len(),
{
    if headers.len() > 0 {
        lemma_without_key_has_no_value(headers.drop_last(), key);
        if !same_ignoring_case(headers.last().0, key) {
            let front = without_key(headers.drop_last(), key);
            assert(front.push(headers.last()).drop_last() =~= front);
        }
    }
}

/// Entries among which none has the key hold no value of it.
pub proof fn lemma_no_match_no_value(headers: Seq<(Seq<u8>, Seq<u8>)>, key: Seq<u8>)
    requires
        forall|i: int| 0 <= i < headers.len() ==> !same_ignoring_case((#[trigger] headers[i]).0, key),
    ensures
        values_of(headers, key) == Seq::<Seq<u8>>::empty(),
    decreases headers.len(),
{
    if headers.len() > 0 {
        assert forall|i: int| 0 <= i < headers.drop_last().len() implies !same_ignoring_case(
            (#[trigger] headers.drop_last()[i]).0,
            key,
        ) by {
            assert(headers.drop_last()[i] == headers[i]);
        }
        lemma_no_match_no_value(headers.drop_last(), key);
        assert(!same_ignoring_case(headers[headers.len() - 1].0, key));
    }
}

/// After a key is set, the block holds exactly one entry for it, with the
/// value that was set.
pub proof fn lemma_set_leaves_one(block: HeaderBlock, key: Seq<u8>, value: Seq<u8>)
    ensures
        values_of(block.with(key, value).headers, trimmed(key)) == seq![trimmed(value)],
        block.with(key, value).lookup(trimmed(key)) == Some(trimmed(value)),
{
    let headers = block.headers;
    let name = trimmed(key);
    let at = first_match(headers, name, 0);
    let entry = (name, trimmed(value));
    lemma_first_match_bounds(headers, name, 0);
    let one = seq![entry];
    assert(values_of(one, name) =~= seq![trimmed(value)]) by {
        assert(one.drop_last() =~= Seq::<(Seq<u8>, Seq<u8>)>::empty());
        assert(one.last() == entry);
        assert(values_of(one.drop_last(), name) =~= Seq::<Seq<u8>>::empty());
    }
    if at < headers.len() {
        let before = headers.subrange(0, at);
        let rest = without_key(headers.subrange(at + 1, headers.len() as int), name);
        assert(block.with(key, value).headers =~= before + one + rest);
        assert forall|i: int| 0 <= i < before.len() implies !same_ignoring_case(
            (#[trigger] before[i]).0,
            name,
        ) by {
            assert(before[i] == headers[i]);
        }
        lemma_no_match_no_value(before, name);
        lemma_without_key_has_no_value(headers.subrange(at + 1, headers.len() as int), name);
        lemma_values_of_concat(before, one, name);
        lemma_values_of_concat(before + one, rest, name);
        assert(values_of(before + one + rest, name) =~= seq![trimmed(value)]);
    } else {
        assert(block.with(key, value).headers =~= headers + one);
        lemma_no_match_no_value(headers, name);
        lemma_values_of_concat(headers, one, name);
        assert(values_of(headers + one, name) =~= seq![trimmed(value)]);
    }
    lemma_values_of_has_key(block.with(key, value).headers, name);
    assert(joined(seq![trimmed(value)]) == trimmed(value));
}

/// Setting a key twice leaves exactly one entry for the key, with the
/// latest value, whatever the block held before and whatever white space
/// stands around the key: the key is stored, and found again, without it.
pub proof fn law_set_twice_keeps_latest(
    block: HeaderBlock,
    key: Seq<u8>,
    first: Seq<u8>,
    second: Seq<u8>,
)
    ensures
        values_of(block.with(key, first).with(key, second).headers, trimmed(key)) == seq![
            trimmed(second),
        ],
        block.with(key, first).with(key, second).lookup(trimmed(key)) == Some(
            trimmed(second),
        ),
{
    lemma_set_leaves_one(block.with(key, first), key, second);
}

/// Appending two values under one key makes a lookup of the key return what
/// it returned before, if anything, followed by the two values, all joined by
/// commas; in a block without the key it returns `v1,v2`. The key is stored
/// without the white space around it, and it is under that key that the
/// values are found.
pub proof fn law_append_twice_joins(
    block: HeaderBlock,
    key: Seq<u8>,
    first: Seq<u8>,
    second: Seq<u8>,
)
    ensures
        block.appended(key, first).appended(key, second).lookup(trimmed(key)) == Some(
            match block.lookup(trimmed(key)) {
                Some(earlier) => earlier + seq![0x2Cu8] + trimmed(first) + seq![0x2Cu8] + trimmed(
                    second,
                ),
                None => trimmed(first) + seq![0x2Cu8] + trimmed(second),
            },
        ),
{
    let name = trimmed(key);
    let once = block.appended(key, first);
    let twice = once.appended(key, second);
    let old_values = values_of(block.headers, name);
    assert(once.headers.drop_last() =~= block.headers);
    assert(twice.headers.drop_last() =~= once.headers);
    assert(values_of(once.headers, name) == old_values.push(trimmed(first)));
    assert(values_of(twice.headers, name) == old_values.push(trimmed(first)).push(
        trimmed(second),
    ));
    lemma_values_of_has_key(block.headers, name);
    lemma_values_of_has_key(twice.headers, name);
    let both = old_values.push(trimmed(first)).push(trimmed(second));
    assert(both.drop_last() =~= old_values.push(trimmed(first)));
    assert(old_values.push(trimmed(first)).drop_last() =~= old_values);
    if old_values.len() == 0 {
        assert(joined(old_values.push(trimmed(first))) == trimmed(first));
    } else {
        let one_more = old_values.push(trimmed(first));
        assert(one_more.last() == trimmed(first));
        assert(joined(one_more) == joined(old_values) + seq![0x2Cu8] + trimmed(first));
        assert(both.last() == trimmed(second));
        assert(joined(both) == joined(one_more) + seq![0x2Cu8] + trimmed(second));
    }
}

/// The UTF-8 bytes of a text followed by another are the bytes of the one
/// followed by the bytes of the other.
pub proof fn lemma_encode_concat(a: Seq<char>, b: Seq<char>)
    ensures
        encode_utf8(a + b) == encode_utf8(a) + encode_utf8(b),
    decreases a.len(),
{
    if a.len() == 0 {
        assert(a + b =~= b);
        assert(encode_utf8(a) + encode_utf8(b) =~= encode_utf8(b));
    } else {
        lemma_encode_concat(a.drop_first(), b);
        assert((a + b).drop_first() =~= a.drop_first() + b);
        assert((a + b)[0] == a[0]);
        assert(encode_utf8(a + b) =~= encode_utf8(a) + encode_utf8(b));
    }
}

/// The bytes of a comma.
pub proof fn lemma_comma_bytes()
    ensures
        encode_utf8(","@) == seq![0x2Cu8],
{
    reveal_strlit(",");
    vstd::utf8::is_ascii_chars_encode_utf8(","@);
    assert(encode_utf8(","@) =~= seq![0x2Cu8]);
}

/// ASCII text is decoded from its bytes in either encoding, and any text is
/// decoded from its UTF-8 bytes as Unicode.
pub proof fn lemma_decoded_text(encoding: HeaderEncoding, text: Seq<char>)
    requires
        encoding == HeaderEncoding::Latin1 ==> is_ascii_chars(text),
    ensures
        crate::text::decoded(encoding, encode_utf8(text)) == text,
{
    vstd::utf8::encode_utf8_valid_utf8(text);
    vstd::utf8::encode_utf8_decode_utf8(text);
    if encoding == HeaderEncoding::Latin1 {
        vstd::utf8::is_ascii_chars_encode_utf8(text);
        let bytes = encode_utf8(text);
        assert forall|i: int| 0 <= i < bytes.len() implies #[trigger] bytes[i] < 0x80 by {
            assert('\0' <= text[i] <= '\u{7f}');
            assert(bytes[i] == text[i] as u8);
        }
        assert(crate::text::latin1_text(bytes) =~= text) by {
            assert forall|i: int| 0 <= i < text.len() implies crate::text::latin1_text(
                bytes,
            )[i] == text[i] by {
                assert('\0' <= text[i] <= '\u{7f}');
                assert(bytes[i] == text[i] as u8);
            }
        }
    }
}

/// In a block without the key, `get(k)` after `append(k, v1)` and
/// `append(k, v2)` is `v1,v2`.
///
/// Key and values must be free of surrounding white space, which `append`
/// takes off while `get` compares the key as it is given; in a Latin1 block
/// the values must be ASCII, since other characters are not read back from
/// their UTF-8 bytes.
pub proof fn law_get_after_two_appends(
    block: HeaderBlock,
    key: Seq<char>,
    first: Seq<char>,
    second: Seq<char>,
)
    requires
        !block.contains(encode_utf8(key)),
        is_trimmed(encode_utf8(key)),
        is_trimmed(encode_utf8(first)),
        is_trimmed(encode_utf8(second)),
        block.encoding == HeaderEncoding::Latin1 ==> is_ascii_chars(first) && is_ascii_chars(second),
    ensures
        opt_decoded(
            block.encoding,
            block.appended(encode_utf8(key), encode_utf8(first)).appended(
                encode_utf8(key),
                encode_utf8(second),
            ).lookup(encode_utf8(key)),
        ) == Some(first + ","@ + second),
{
    law_append_twice_joins(block, encode_utf8(key), encode_utf8(first), encode_utf8(second));
    lemma_trim_identity(encode_utf8(key));
    lemma_trim_identity(encode_utf8(first));
    lemma_trim_identity(encode_utf8(second));
    lemma_comma_bytes();
    lemma_encode_concat(first, ","@);
    lemma_encode_concat(first + ","@, second);
    let text = first + ","@ + second;
    if block.encoding == HeaderEncoding::Latin1 {
        reveal_strlit(",");
        assert(is_ascii_chars(text)) by {
            assert forall|i: int| 0 <= i < text.len() implies '\0' <= #[trigger] text[i]
                <= '\u{7f}' by {
                if i < first.len() {
                    assert(text[i] == first[i]);
                } else if i == first.len() {
                    assert(text[i] == ","@[0]);
                } else {
                    assert(text[i] == second[i - first.len() - 1]);
                }
            }
        }
    }
    lemma_decoded_text(block.encoding, text);
}

/// Keys that agree up to letter case select the same values.
pub proof fn lemma_values_of_ignore_case(
    headers: Seq<(Seq<u8>, Seq<u8>)>,
    a: Seq<u8>,
    b: Seq<u8>,
)
    requires
        same_ignoring_case(a, b),
    ensures
        values_of(headers, a) == values_of(headers, b),
    decreases headers.len(),
{
    if headers.len() > 0 {
        lemma_values_of_ignore_case(headers.drop_last(), a, b);
    }
}

/// Lookups are case-insensitive: two keys that agree up to ASCII letter
/// case give the same result in any header block, as bytes and as text.
pub proof fn law_lookup_ignores_case(block: HeaderBlock, a: Seq<u8>, b: Seq<u8>)
    requires
        same_ignoring_case(a, b),
    ensures
        block.contains(a) == block.contains(b),
        block.lookup(a) == block.lookup(b),
        opt_decoded(block.encoding, block.lookup(a)) == opt_decoded(
            block.encoding,
            block.lookup(b),
        ),
{
    lemma_values_of_ignore_case(block.headers, a, b);
    lemma_values_of_has_key(block.headers, a);
    lemma_values_of_has_key(block.headers, b);
}

/// The bounds on the content length are inclusive: a record whose kind
/// passes is kept at exactly the minimum and at exactly the maximum, and is
/// rejected one byte below the minimum and one byte above the maximum.
pub proof fn law_length_bounds_are_inclusive(
    config: ArchiveIteratorConfig,
    record_type: WarcRecordType,
    bound: usize,
)
    requires
        record_type.bits() & config.record_type_filter != 0,
    ensures
        config.min_content_length == Some(bound) && (config.max_content_length is Some
            ==> config.max_content_length->Some_0 >= bound) ==> config.accepts(
            record_type,
            bound as nat,
        ),
        config.min_content_length == Some(bound) && bound > 0 ==> !config.accepts(
            record_type,
            (bound - 1) as nat,
        ),
        config.max_content_length == Some(bound) && (config.min_content_length is Some
            ==> config.min_content_length->Some_0 <= bound) ==> config.accepts(
            record_type,
            bound as nat,
        ),
        config.max_content_length == Some(bound) ==> !config.accepts(
            record_type,
            (bound + 1) as nat,
        ),
{
}

/// An iterator hands out only records whose kind matches its mask; the kind
/// of such a record is one of the nine that a record can have.
pub proof fn law_yielded_records_pass_the_filter(
    data: Seq<u8>,
    from: int,
    config: ArchiveIteratorConfig,
)
    requires
        0 <= from,
    ensures
        match next_record(data, from, config).result {
            Ok(Some(record)) => record.record_type.bits() & config.record_type_filter != 0
                && is_record_kind(record.record_type),
            _ => true,
        },
    decreases data.len() - from,
{
    lemma_frame_bounds(data, from, config.strict_mode);
    match frame_at(data, from, config.strict_mode) {
        Found::Record(frame) => {
            lemma_declared_type_is_record_kind(frame.headers);
            match judged(config, framed_record(data, frame)) {
                Outcome::Skipped => {
                    law_yielded_records_pass_the_filter(data, frame.end, config);
                },
                _ => {},
            }
        },
        _ => {},
    }
}

/// An iterator whose mask is that of a list of kinds hands out only records
/// whose kind is in the list.
pub proof fn law_mask_of_kinds_yields_those_kinds(
    data: Seq<u8>,
    from: int,
    config: ArchiveIteratorConfig,
    kinds: Seq<WarcRecordType>,
)
    requires
        0 <= from,
        forall|i: int| 0 <= i < kinds.len() ==> is_record_kind(#[trigger] kinds[i]),
        config.record_type_filter == mask_of(kinds),
    ensures
        match next_record(data, from, config).result {
            Ok(Some(record)) => kinds.contains(record.record_type),
            _ => true,
        },
{
    law_yielded_records_pass_the_filter(data, from, config);
    match next_record(data, from, config).result {
        Ok(Some(record)) => {
            law_mask_selects_its_kinds(kinds, record.record_type);
        },
        _ => {},
    }
}

/// Skipping a record leaves the byte offset where reading it leaves it. A
/// record lies in the data as `frame_at` finds it, whatever the filter, the
/// HTTP parsing and the digest verification of a configuration are: after a
/// record that one configuration skips the search goes on at the end of its
/// frame, which is the offset after the record under a configuration that
/// hands it out.
pub proof fn law_skipping_keeps_the_offset(
    data: Seq<u8>,
    from: int,
    skipping: ArchiveIteratorConfig,
    reading: ArchiveIteratorConfig,
)
    requires
        0 <= from,
        skipping.strict_mode == reading.strict_mode,
        frame_at(data, from, reading.strict_mode) is Record,
        judged(
            skipping,
            framed_record(data, frame_at(data, from, reading.strict_mode)->Record_0),
        ) is Skipped,
        judged(
            reading,
            framed_record(data, frame_at(data, from, reading.strict_mode)->Record_0),
        ) is Yielded,
    ensures
        next_record(data, from, reading).pos == frame_at(
            data,
            from,
            reading.strict_mode,
        )->Record_0.end,
        next_record(data, from, skipping) == next_record(
            data,
            next_record(data, from, reading).pos,
            skipping,
        ),
{
    lemma_frame_bounds(data, from, reading.strict_mode);
}

/// A step that hands out a record moves the offset forward.
pub proof fn lemma_next_record_advances(data: Seq<u8>, from: int, config: ArchiveIteratorConfig)
    requires
        0 <= from,
    ensures
        next_record(data, from, config).result is Ok && next_record(
            data,
            from,
            config,
        ).result->Ok_0 is Some ==> from < next_record(data, from, config).pos <= data.len(),
    decreases data.len() - from,
{
    lemma_frame_bounds(data, from, config.strict_mode);
    match frame_at(data, from, config.strict_mode) {
        Found::Record(frame) => match judged(config, framed_record(data, frame)) {
            Outcome::Skipped => {
                lemma_next_record_advances(data, frame.end, config);
            },
            _ => {},
        },
        _ => {},
    }
}

/// All records that an iterator hands out from `from` on, up to the end of
/// the records or the first failure.
pub open spec fn records_from(data: Seq<u8>, from: int, config: ArchiveIteratorConfig) -> Seq<
    RecordView,
>
    decreases data.len() - from,
    when 0 <= from
    via records_from_decreases
{
    match next_record(data, from, config).result {
        Ok(Some(record)) => seq![record] + records_from(
            data,
            next_record(data, from, config).pos,
            config,
        ),
        _ => Seq::empty(),
    }
}

#[via_fn]
proof fn records_from_decreases(data: Seq<u8>, from: int, config: ArchiveIteratorConfig) {
    lemma_next_record_advances(data, from, config);
}

/// The configuration with another mask.
pub open spec fn with_mask(config: ArchiveIteratorConfig, mask: u16) -> ArchiveIteratorConfig {
    ArchiveIteratorConfig { record_type_filter: mask, ..config }
}

/// Filtering by kind does not disturb the iteration: an iterator with a mask
/// hands out exactly those records, in the same order and from the same
/// offsets, that match the mask among the records that the same iterator
/// hands out with the mask of all kinds. Every record that is skipped is
/// passed over whole.
///
/// Digest verification must be off: with it, an unknown algorithm in a
/// record that the mask would skip ends the unfiltered iteration.
pub proof fn law_mask_filters_the_records(
    data: Seq<u8>,
    from: int,
    config: ArchiveIteratorConfig,
    mask: u16,
)
    requires
        0 <= from,
        !config.verify_digests,
    ensures
        records_from(data, from, with_mask(config, mask)) == records_from(
            data,
            from,
            with_mask(config, 0xFFFF),
        ).filter(|record: RecordView| record.record_type.bits() & mask != 0),
    decreases data.len() - from,
{
    let filtered = with_mask(config, mask);
    let open = with_mask(config, 0xFFFF);
    let wanted = |record: RecordView| record.record_type.bits() & mask != 0;
    lemma_frame_bounds(data, from, config.strict_mode);
    match frame_at(data, from, config.strict_mode) {
        Found::Record(frame) => {
            law_mask_filters_the_records(data, frame.end, config, mask);
            let raw = framed_record(data, frame);
            let bits = raw.record_type.bits();
            assert(bits != 0 ==> bits & 0xFFFFu16 != 0) by (bit_vector);
            assert(bits & mask != 0 ==> bits & 0xFFFFu16 != 0) by (bit_vector);
            let rest_open = records_from(data, frame.end, open);
            let rest_filtered = records_from(data, frame.end, filtered);
            match judged(open, raw) {
                Outcome::Skipped => {
                    assert(judged(filtered, raw) is Skipped);
                    assert(next_record(data, from, open) == next_record(data, frame.end, open));
                    assert(next_record(data, from, filtered) == next_record(
                        data,
                        frame.end,
                        filtered,
                    ));
                },
                Outcome::Yielded(record) => {
                    assert(record.record_type == raw.record_type);
                    let one = seq![record];
                    assert(records_from(data, from, open) == one + rest_open);
                    Seq::filter_distributes_over_add(one, rest_open, wanted);
                    reveal_with_fuel(Seq::filter, 2);
                    assert(one.drop_last() =~= Seq::<RecordView>::empty());
                    if bits & mask != 0 {
                        assert(judged(filtered, raw) == Outcome::Yielded(record));
                        assert(one.filter(wanted) =~= one);
                        assert(records_from(data, from, filtered) == one + rest_filtered);
                    } else {
                        assert(judged(filtered, raw) is Skipped);
                        assert(one.filter(wanted) =~= Seq::<RecordView>::empty());
                        assert(next_record(data, from, filtered) == next_record(
                            data,
                            frame.end,
                            filtered,
                        ));
                        assert(Seq::<RecordView>::empty() + rest_open.filter(wanted)
                            =~= rest_open.filter(wanted));
                    }
                },
                Outcome::Failed(e) => {},
            }
        },
        _ => {
            reveal_with_fuel(Seq::filter, 1);
            assert(records_from(data, from, open) =~= Seq::<RecordView>::empty());
        },
    }
}

} // verus!
