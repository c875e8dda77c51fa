//! Reading back what was written: header lines, header blocks and whole
//! records.

use crate::archive::ArchiveIteratorConfig;
use crate::archive::Found;
use crate::archive::Frame;
use crate::archive::Line;
use crate::archive::Outcome;
use crate::archive::declared_http;
use crate::archive::declared_length;
use crate::archive::declared_type;
use crate::archive::frame_at;
use crate::archive::framed_record;
use crate::archive::is_version_line;
use crate::archive::judged;
use crate::archive::next_record;
use crate::archive::version_line;
use crate::ascii::is_space;
use crate::ascii::is_trimmed;
use crate::ascii::lemma_leading_bounds;
use crate::ascii::lemma_trimmed_is_trimmed;
use crate::ascii::joined;
use crate::ascii::leading;
use crate::ascii::lemma_trim_identity;
use crate::ascii::lowered;
use crate::ascii::position;
use crate::ascii::same_ignoring_case;
use crate::ascii::trailing;
use crate::ascii::trimmed;
use crate::decimal::decimal;
use crate::decimal::is_digit;
use crate::decimal::lemma_decimal_round_trip;
use crate::grammar::ReadBlock;
use crate::grammar::Reading;
use crate::grammar::fed;
use crate::grammar::is_line_break;
use crate::grammar::line_end;
use crate::grammar::line_text;
use crate::grammar::read_block;
use crate::grammar::text_end;
use crate::header_block::HeaderBlock;
use crate::header_block::crlf;
use crate::header_block::first_match;
use crate::header_block::lemma_first_match_bounds;
use crate::header_block::lemma_values_of_has_key;
use crate::header_block::line_of;
use crate::header_block::lines_of;
use crate::header_block::values_of;
use crate::header_block::without_key;
use crate::laws::lemma_no_match_no_value;
use crate::laws::lemma_values_of_concat;
use crate::record::RecordView;
use crate::record::empty_block;
use crate::record::normalised;
use crate::record::record_id_of;
use crate::record_type::WarcRecordType;
use crate::record_type::is_record_kind;
use crate::record_type::law_name_round_trip;
use crate::record_type::lemma_kind_name_bytes;
use crate::stamp::is_timestamp;
use crate::stamp::is_timestamp_byte;
use crate::text::HeaderEncoding;
use vstd::prelude::*;
use vstd::string::StringSliceAdditionalSpecFns;
use vstd::utf8::encode_utf8;
use vstd::utf8::valid_utf8;

verus! {

/// No byte is a line feed.
pub open spec fn no_line_feed(s: Seq<u8>) -> bool {
    forall|i: int| 0 <= i < s.len() ==> #[trigger] s[i] != 0x0A
}

/// A key that a header line can carry: not empty, without surrounding white
/// space, without colon and without line feed.
pub open spec fn plain_key(key: Seq<u8>) -> bool {
    &&& key.len() > 0
    &&& is_trimmed(key)
    &&& no_line_feed(key)
    &&& forall|i: int| 0 <= i < key.len() ==> #[trigger] key[i] != 0x3A
}

/// A value that a header line can carry: without surrounding white space and
/// without line feed.
pub open spec fn plain_value(value: Seq<u8>) -> bool {
    is_trimmed(value) && no_line_feed(value)
}

/// Every entry has a key and a value that a header line can carry.
pub open spec fn plain_entries(headers: Seq<(Seq<u8>, Seq<u8>)>) -> bool {
    forall|i: int|
        0 <= i < headers.len() ==> plain_key((#[trigger] headers[i]).0) && plain_value(
            headers[i].1,
        )
}

/// Where the first `b` at or after `from` stands, given that none stands
/// before `at`.
pub proof fn lemma_position_is(s: Seq<u8>, b: u8, from: int, at: int)
    requires
        0 <= from <= at <= s.len(),
        forall|i: int| from <= i < at ==> #[trigger] s[i] != b,
        at < s.len() ==> s[at] == b,
    ensures
        position(s, b, from) == at,
    decreases at - from,
{
    if from < at {
        lemma_position_is(s, b, from + 1, at);
    }
}

/// Where the text of a line ends, given the line breaks at its end.
pub proof fn lemma_text_end_is(data: Seq<u8>, lo: int, to: int, at: int)
    requires
        0 <= lo <= at <= to <= data.len(),
        forall|i: int| at <= i < to ==> is_line_break(#[trigger] data[i]),
        lo < at ==> !is_line_break(data[at - 1]),
    ensures
        text_end(data, lo, to) == at,
    decreases to - at,
{
    if at < to {
        lemma_text_end_is(data, lo, to - 1, at);
    }
}

/// Trimming takes a space off the front of a trimmed value.
pub proof fn lemma_trim_after_space(value: Seq<u8>)
    requires
        is_trimmed(value),
    ensures
        trimmed(seq![0x20u8] + value) == value,
{
    let s = seq![0x20u8] + value;
    assert(s[0] == 0x20u8);
    if value.len() > 0 {
        assert(s[1] == value[0]);
        assert(s[s.len() - 1] == value.last());
        assert(leading(s, 1) == 1);
        assert(trailing(s, 1, s.len() as int) == s.len());
    } else {
        assert(leading(s, 1) == 1);
        assert(trailing(s, 1, s.len() as int) == s.len());
    }
    assert(leading(s, 0) == 1);
    assert(s.subrange(1, s.len() as int) =~= value);
}

/// Trimming takes a line end off the back of a trimmed line.
pub proof fn lemma_trim_before_line_end(line: Seq<u8>)
    requires
        is_trimmed(line),
    ensures
        trimmed(line + crlf()) == line,
{
    let s = line + crlf();
    let n = line.len() as int;
    assert(s[n] == 0x0Du8);
    assert(s[n + 1] == 0x0Au8);
    if n > 0 {
        assert(s[0] == line[0]);
        assert(s[n - 1] == line.last());
        assert(leading(s, 0) == 0);
        assert(trailing(s, 0, n) == n);
        assert(trailing(s, 0, n + 1) == n);
        assert(trailing(s, 0, n + 2) == n);
        assert(s.subrange(0, n) =~= line);
    } else {
        assert(leading(s, 2) == 2);
        assert(leading(s, 1) == 2);
        assert(leading(s, 0) == 2);
        assert(trailing(s, 2, 2) == 2);
        assert(s.subrange(2, 2) =~= line);
    }
}

/// The block with one more entry as it is given.
pub open spec fn pushed(block: HeaderBlock, entry: (Seq<u8>, Seq<u8>)) -> HeaderBlock {
    HeaderBlock { headers: block.headers.push(entry), ..block }
}

/// The block with more entries as they are given.
pub open spec fn extended(block: HeaderBlock, entries: Seq<(Seq<u8>, Seq<u8>)>) -> HeaderBlock {
    HeaderBlock { headers: block.headers + entries, ..block }
}

/// A line that was written with a line end is found again as it was: the
/// text must be without line feed and must not end in a carriage return.
pub proof fn lemma_written_line(data: Seq<u8>, from: int, text: Seq<u8>)
    requires
        0 <= from,
        text.len() > 0,
        no_line_feed(text),
        !is_line_break(text.last()),
        from + text.len() + 2 <= data.len(),
        data.subrange(from, from + text.len() + 2) == text + crlf(),
    ensures
        line_end(data, from) == from + text.len() + 2,
        line_text(data, from) == text,
{
    let n = text.len() as int;
    let written = text + crlf();
    assert forall|i: int| from <= i < from + n + 2 implies #[trigger] data[i] == written[i
        - from] by {
        assert(data.subrange(from, from + n + 2)[i - from] == data[i]);
    }
    assert forall|i: int| from <= i < from + n + 1 implies #[trigger] data[i] != 0x0Au8 by {
        assert(data[i] == written[i - from]);
        if i - from < n {
            assert(written[i - from] == text[i - from]);
        }
    }
    assert(data[from + n + 1] == written[n + 1]);
    lemma_position_is(data, 0x0A, from, from + n + 1);
    assert(data[from + n] == written[n]);
    assert(data[from + n - 1] == written[n - 1]);
    assert(written[n - 1] == text.last());
    lemma_text_end_is(data, from, from + n + 2, from + n);
    assert(line_text(data, from) =~= text);
}

/// The text of a header line is read as the entry that it was written for.
pub proof fn lemma_fed_plain_line(state: Reading, entry: (Seq<u8>, Seq<u8>))
    requires
        !state.awaits_status,
        plain_key(entry.0),
        plain_value(entry.1),
    ensures
        fed(state, entry.0 + seq![0x3Au8, 0x20u8] + entry.1) == (Reading {
            block: pushed(state.block, entry),
            awaits_status: false,
        }),
{
    let key = entry.0;
    let value = entry.1;
    let text = key + seq![0x3Au8, 0x20u8] + value;
    assert(text[0] == key[0]);
    assert forall|i: int| 0 <= i < key.len() implies #[trigger] text[i] != 0x3Au8 by {
        assert(text[i] == key[i]);
    }
    assert(text[key.len() as int] == 0x3Au8);
    lemma_position_is(text, 0x3A, 0, key.len() as int);
    assert(text.subrange(0, key.len() as int) =~= key);
    assert(text.subrange(key.len() as int + 1, text.len() as int) =~= seq![0x20u8] + value);
    lemma_trim_identity(key);
    lemma_trim_after_space(value);
}

/// A written header line is read back as the entry that it was written for.
pub proof fn lemma_read_plain_line(
    data: Seq<u8>,
    from: int,
    state: Reading,
    entry: (Seq<u8>, Seq<u8>),
)
    requires
        0 <= from,
        !state.awaits_status,
        plain_key(entry.0),
        plain_value(entry.1),
        from + line_of(entry).len() <= data.len(),
        data.subrange(from, from + line_of(entry).len()) == line_of(entry),
    ensures
        line_end(data, from) == from + line_of(entry).len(),
        line_text(data, from).len() > 0,
        fed(state, line_text(data, from)) == (Reading {
            block: pushed(state.block, entry),
            awaits_status: false,
        }),
{
    let text = entry.0 + seq![0x3Au8, 0x20u8] + entry.1;
    assert(line_of(entry) =~= text + crlf());
    assert forall|i: int| 0 <= i < text.len() implies #[trigger] text[i] != 0x0Au8 by {
        if i < entry.0.len() {
            assert(text[i] == entry.0[i]);
        } else if i >= entry.0.len() + 2 {
            assert(text[i] == entry.1[i - entry.0.len() - 2]);
        }
    }
    if entry.1.len() > 0 {
        assert(text.last() == entry.1.last());
    } else {
        assert(text.last() == 0x20u8);
    }
    lemma_written_line(data, from, text);
    lemma_fed_plain_line(state, entry);
}

/// Written header lines are read back as the entries that they were written
/// for, one after the other.
pub proof fn lemma_read_plain_lines(
    data: Seq<u8>,
    from: int,
    state: Reading,
    entries: Seq<(Seq<u8>, Seq<u8>)>,
)
    requires
        0 <= from,
        !state.awaits_status,
        plain_entries(entries),
        from + lines_of(entries).len() <= data.len(),
        data.subrange(from, from + lines_of(entries).len()) == lines_of(entries),
    ensures
        read_block(data, from, state) == read_block(
            data,
            from + lines_of(entries).len(),
            Reading { block: extended(state.block, entries), awaits_status: false },
        ),
    decreases entries.len(),
{
    if entries.len() == 0 {
        assert(extended(state.block, entries).headers =~= state.block.headers);
    } else {
        let front = entries.drop_last();
        let last = entries.last();
        let all = lines_of(entries);
        let head = lines_of(front);
        assert(all == head + line_of(last));
        assert forall|i: int| 0 <= i < front.len() implies plain_key((#[trigger] front[i]).0)
            && plain_value(front[i].1) by {
            assert(front[i] == entries[i]);
        }
        assert(data.subrange(from, from + head.len()) =~= head) by {
            assert(data.subrange(from, from + all.len()).subrange(0, head.len() as int)
                =~= data.subrange(from, from + head.len()));
            assert(all.subrange(0, head.len() as int) =~= head);
        }
        lemma_read_plain_lines(data, from, state, front);
        let mid = from + head.len();
        let state_mid = Reading { block: extended(state.block, front), awaits_status: false };
        assert(data.subrange(mid, mid + line_of(last).len()) =~= line_of(last)) by {
            assert(data.subrange(from, from + all.len()).subrange(
                head.len() as int,
                all.len() as int,
            ) =~= data.subrange(mid, mid + line_of(last).len()));
            assert(all.subrange(head.len() as int, all.len() as int) =~= line_of(last));
        }
        assert(entries[entries.len() - 1] == last);
        lemma_read_plain_line(data, mid, state_mid, last);
        assert(pushed(extended(state.block, front), last) == extended(state.block, entries)) by {
            assert(state.block.headers + front.push(last) =~= (state.block.headers + front).push(
                last,
            ));
            assert(front.push(last) =~= entries);
        }
        assert(mid < data.len());
    }
}

/// A blank line ends a header block and is consumed.
pub proof fn lemma_read_blank_line(data: Seq<u8>, from: int, state: Reading)
    requires
        0 <= from,
        from + 2 <= data.len(),
        data[from] == 0x0Du8,
        data[from + 1] == 0x0Au8,
    ensures
        read_block(data, from, state) == (ReadBlock { block: state.block, end: from + 2 }),
{
    lemma_position_is(data, 0x0A, from, from + 1);
    lemma_text_end_is(data, from, from + 2, from);
    assert(line_text(data, from) =~= Seq::<u8>::empty());
}


/// The bytes of the names of the headers that a new record carries, of the
/// version line and of the angle brackets.
pub proof fn lemma_header_name_bytes()
    ensures
        "WARC-Type".spec_bytes() == seq![0x57u8, 0x41u8, 0x52u8, 0x43u8, 0x2Du8, 0x54u8, 0x79u8, 0x70u8, 0x65u8],
        "WARC-Date".spec_bytes() == seq![0x57u8, 0x41u8, 0x52u8, 0x43u8, 0x2Du8, 0x44u8, 0x61u8, 0x74u8, 0x65u8],
        "WARC-Record-ID".spec_bytes() == seq![0x57u8, 0x41u8, 0x52u8, 0x43u8, 0x2Du8, 0x52u8, 0x65u8, 0x63u8, 0x6Fu8, 0x72u8, 0x64u8, 0x2Du8, 0x49u8, 0x44u8],
        "Content-Length".spec_bytes() == seq![0x43u8, 0x6Fu8, 0x6Eu8, 0x74u8, 0x65u8, 0x6Eu8, 0x74u8, 0x2Du8, 0x4Cu8, 0x65u8, 0x6Eu8, 0x67u8, 0x74u8, 0x68u8],
        "Content-Type".spec_bytes() == seq![0x43u8, 0x6Fu8, 0x6Eu8, 0x74u8, 0x65u8, 0x6Eu8, 0x74u8, 0x2Du8, 0x54u8, 0x79u8, 0x70u8, 0x65u8],
        "WARC/1.1".spec_bytes() == seq![0x57u8, 0x41u8, 0x52u8, 0x43u8, 0x2Fu8, 0x31u8, 0x2Eu8, 0x31u8],
        "WARC/1.".spec_bytes() == seq![0x57u8, 0x41u8, 0x52u8, 0x43u8, 0x2Fu8, 0x31u8, 0x2Eu8],
        "WARC/0.".spec_bytes() == seq![0x57u8, 0x41u8, 0x52u8, 0x43u8, 0x2Fu8, 0x30u8, 0x2Eu8],
        "<".spec_bytes() == seq![0x3Cu8],
        ">".spec_bytes() == seq![0x3Eu8],
{
    reveal_strlit("WARC-Type");
    vstd::utf8::is_ascii_chars_encode_utf8("WARC-Type"@);
    assert("WARC-Type".spec_bytes() =~= seq![0x57u8, 0x41u8, 0x52u8, 0x43u8, 0x2Du8, 0x54u8, 0x79u8, 0x70u8, 0x65u8]);
    reveal_strlit("WARC-Date");
    vstd::utf8::is_ascii_chars_encode_utf8("WARC-Date"@);
    assert("WARC-Date".spec_bytes() =~= seq![0x57u8, 0x41u8, 0x52u8, 0x43u8, 0x2Du8, 0x44u8, 0x61u8, 0x74u8, 0x65u8]);
    reveal_strlit("WARC-Record-ID");
    vstd::utf8::is_ascii_chars_encode_utf8("WARC-Record-ID"@);
    assert("WARC-Record-ID".spec_bytes() =~= seq![0x57u8, 0x41u8, 0x52u8, 0x43u8, 0x2Du8, 0x52u8, 0x65u8, 0x63u8, 0x6Fu8, 0x72u8, 0x64u8, 0x2Du8, 0x49u8, 0x44u8]);
    reveal_strlit("Content-Length");
    vstd::utf8::is_ascii_chars_encode_utf8("Content-Length"@);
    assert("Content-Length".spec_bytes() =~= seq![0x43u8, 0x6Fu8, 0x6Eu8, 0x74u8, 0x65u8, 0x6Eu8, 0x74u8, 0x2Du8, 0x4Cu8, 0x65u8, 0x6Eu8, 0x67u8, 0x74u8, 0x68u8]);
    reveal_strlit("Content-Type");
    vstd::utf8::is_ascii_chars_encode_utf8("Content-Type"@);
    assert("Content-Type".spec_bytes() =~= seq![0x43u8, 0x6Fu8, 0x6Eu8, 0x74u8, 0x65u8, 0x6Eu8, 0x74u8, 0x2Du8, 0x54u8, 0x79u8, 0x70u8, 0x65u8]);
    reveal_strlit("WARC/1.1");
    vstd::utf8::is_ascii_chars_encode_utf8("WARC/1.1"@);
    assert("WARC/1.1".spec_bytes() =~= seq![0x57u8, 0x41u8, 0x52u8, 0x43u8, 0x2Fu8, 0x31u8, 0x2Eu8, 0x31u8]);
    reveal_strlit("WARC/1.");
    vstd::utf8::is_ascii_chars_encode_utf8("WARC/1."@);
    assert("WARC/1.".spec_bytes() =~= seq![0x57u8, 0x41u8, 0x52u8, 0x43u8, 0x2Fu8, 0x31u8, 0x2Eu8]);
    reveal_strlit("WARC/0.");
    vstd::utf8::is_ascii_chars_encode_utf8("WARC/0."@);
    assert("WARC/0.".spec_bytes() =~= seq![0x57u8, 0x41u8, 0x52u8, 0x43u8, 0x2Fu8, 0x30u8, 0x2Eu8]);
    reveal_strlit("<");
    vstd::utf8::is_ascii_chars_encode_utf8("<"@);
    assert("<".spec_bytes() =~= seq![0x3Cu8]);
    reveal_strlit(">");
    vstd::utf8::is_ascii_chars_encode_utf8(">"@);
    assert(">".spec_bytes() =~= seq![0x3Eu8]);
}

/// A written status line is read back as the status line.
pub proof fn lemma_read_status_line(data: Seq<u8>, from: int, state: Reading, status: Seq<u8>)
    requires
        0 <= from,
        state.awaits_status,
        status.len() > 0,
        is_trimmed(status),
        no_line_feed(status),
        from + status.len() + 2 <= data.len(),
        data.subrange(from, from + status.len() + 2) == status + crlf(),
    ensures
        line_end(data, from) == from + status.len() + 2,
        line_text(data, from).len() > 0,
        fed(state, line_text(data, from)) == (Reading {
            block: state.block.with_status_line(status),
            awaits_status: false,
        }),
{
    lemma_written_line(data, from, status);
}

/// A header block that was written is read back as it was: the grammar reads
/// what `write` writes, for WARC headers and for HTTP headers alike.
///
/// Keys and values must be such as a header line can carry. With a status
/// line, which must be free of surrounding white space and line feeds, the
/// block is read in status-line mode.
pub proof fn law_written_block_reads_back(block: HeaderBlock)
    requires
        plain_entries(block.headers),
        is_trimmed(block.status_line),
        no_line_feed(block.status_line),
    ensures
        read_block(
            block.wire() + crlf(),
            0,
            Reading {
                block: empty_block(block.encoding),
                awaits_status: block.status_line.len() > 0,
            },
        ) == (ReadBlock { block, end: (block.wire().len() + 2) as int }),
{
    let wire = block.wire() + crlf();
    let lines = lines_of(block.headers);
    let status = block.status_line;
    let start = Reading {
        block: empty_block(block.encoding),
        awaits_status: status.len() > 0,
    };
    let n = status.len() as int;
    if n > 0 {
        assert(block.wire() =~= status + crlf() + lines);
        assert(wire.subrange(0, n + 2) =~= status + crlf());
        lemma_read_status_line(wire, 0, start, status);
        let begun = Reading { block: start.block.with_status_line(status), awaits_status: false };
        assert(wire.subrange(n + 2, n + 2 + lines.len()) =~= lines);
        lemma_read_plain_lines(wire, n + 2, begun, block.headers);
        assert(extended(begun.block, block.headers) == block) by {
            assert(Seq::<(Seq<u8>, Seq<u8>)>::empty() + block.headers =~= block.headers);
        }
        let after = n + 2 + lines.len();
        assert(wire[after] == 0x0Du8);
        assert(wire[after + 1] == 0x0Au8);
        lemma_read_blank_line(wire, after, Reading { block, awaits_status: false });
    } else {
        assert(block.wire() =~= lines);
        assert(wire.subrange(0, lines.len() as int) =~= lines);
        lemma_read_plain_lines(wire, 0, start, block.headers);
        assert(extended(start.block, block.headers) == block) by {
            assert(Seq::<(Seq<u8>, Seq<u8>)>::empty() + block.headers =~= block.headers);
            assert(status =~= Seq::<u8>::empty());
        }
        let after = lines.len() as int;
        assert(wire[after] == 0x0Du8);
        assert(wire[after + 1] == 0x0Au8);
        lemma_read_blank_line(wire, after, Reading { block, awaits_status: false });
    }
}

/// A continuation is joined to the value before it with a single space,
/// where neither of the two is empty.
pub proof fn law_continuation_joins_with_space(block: HeaderBlock, fragment: Seq<u8>)
    requires
        block.headers.len() > 0,
        is_trimmed(block.headers.last().1),
        block.headers.last().1.len() > 0,
        trimmed(fragment).len() > 0,
    ensures
        block.continued(fragment).headers == block.headers.drop_last().push(
            (
                block.headers.last().0,
                block.headers.last().1 + seq![0x20u8] + trimmed(fragment),
            ),
        ),
{
    let last = block.headers.last();
    let piece = trimmed(fragment);
    lemma_trimmed_is_trimmed(fragment);
    let both = last.1 + seq![0x20u8] + piece;
    assert(both[0] == last.1[0]);
    assert(both.last() == piece.last());
    lemma_trim_identity(both);
    assert(block.headers.update(block.headers.len() - 1, (last.0, both))
        =~= block.headers.drop_last().push((last.0, both)));
}

/// Trimming takes indentation off the front of a trimmed text.
pub proof fn lemma_trim_after_indent(indent: Seq<u8>, text: Seq<u8>)
    requires
        forall|i: int| 0 <= i < indent.len() ==> is_space(#[trigger] indent[i]),
        is_trimmed(text),
        text.len() > 0,
    ensures
        trimmed(indent + text) == text,
{
    let s = indent + text;
    let n = indent.len() as int;
    lemma_leading_bounds(s, 0);
    let a = leading(s, 0);
    assert(s[n] == text[0]);
    if a < n {
        assert(s[a] == indent[a]);
    }
    if a > n {
        assert(is_space(s[n]));
    }
    assert(a == n);
    assert(s[s.len() - 1] == text.last());
    assert(trailing(s, n, s.len() as int) == s.len());
    assert(s.subrange(n, s.len() as int) =~= text);
}

/// A header line that is followed by an indented line yields one entry: the
/// value of the header and the text of the indented line, joined by a space.
/// So `X-Foo: bar` followed by `  baz` is read as `X-Foo` with the value
/// `bar baz`.
pub proof fn law_continuation_line_is_folded(
    encoding: HeaderEncoding,
    key: Seq<u8>,
    value: Seq<u8>,
    indent: Seq<u8>,
    more: Seq<u8>,
)
    requires
        plain_key(key),
        plain_value(value),
        value.len() > 0,
        indent.len() > 0,
        forall|i: int| 0 <= i < indent.len() ==> indent[i] == 0x20u8 || #[trigger] indent[i] == 0x09u8,
        plain_value(more),
        more.len() > 0,
    ensures
        ({
            let data = line_of((key, value)) + indent + more + crlf() + crlf();
            let read = read_block(
                data,
                0,
                Reading { block: empty_block(encoding), awaits_status: false },
            );
            &&& read.end == data.len()
            &&& read.block.headers == seq![(key, value + seq![0x20u8] + more)]
            &&& read.block.lookup(key) == Some(value + seq![0x20u8] + more)
        }),
{
    let first = line_of((key, value));
    let data = first + indent + more + crlf() + crlf();
    let start = Reading { block: empty_block(encoding), awaits_status: false };
    let n = first.len() as int;
    assert(data.subrange(0, n) =~= first);
    lemma_read_plain_line(data, 0, start, (key, value));
    let one = pushed(start.block, (key, value));
    let state = Reading { block: one, awaits_status: false };

    let text = indent + more;
    let m = text.len() as int;
    assert forall|i: int| 0 <= i < m implies #[trigger] text[i] != 0x0Au8 by {
        if i < indent.len() {
            assert(text[i] == indent[i]);
        } else {
            assert(text[i] == more[i - indent.len()]);
        }
    }
    assert(text.last() == more.last());
    assert(data.subrange(n, n + m + 2) =~= text + crlf());
    lemma_written_line(data, n, text);
    assert(text[0] == indent[0]);
    assert forall|i: int| 0 <= i < indent.len() implies is_space(#[trigger] indent[i]) by {}
    lemma_trim_after_indent(indent, more);
    assert(one.headers.last() == (key, value));
    law_continuation_joins_with_space(one, text);
    let folded = (key, value + seq![0x20u8] + more);
    assert(one.headers.drop_last().push(folded) =~= seq![folded]);
    let done = Reading { block: one.continued(text), awaits_status: false };
    assert(fed(state, text) == done);
    assert(data[n + m + 2] == 0x0Du8);
    assert(data[n + m + 3] == 0x0Au8);
    lemma_read_blank_line(data, n + m + 2, done);
    assert(read_block(data, n, state) == read_block(data, n + m + 2, done));
    lemma_trim_identity(key);
    lemma_lookup_single(done.block, 0, key);
}

/// A key that exactly one entry has is looked up as the value of that entry.
pub proof fn lemma_lookup_single(block: HeaderBlock, at: int, key: Seq<u8>)
    requires
        0 <= at < block.headers.len(),
        same_ignoring_case(block.headers[at].0, key),
        forall|i: int|
            0 <= i < block.headers.len() && i != at ==> !same_ignoring_case(
                (#[trigger] block.headers[i]).0,
                key,
            ),
    ensures
        block.lookup(key) == Some(block.headers[at].1),
{
    let headers = block.headers;
    let before = headers.subrange(0, at);
    let one = seq![headers[at]];
    let after = headers.subrange(at + 1, headers.len() as int);
    assert(headers =~= before + one + after);
    assert forall|i: int| 0 <= i < before.len() implies !same_ignoring_case(
        (#[trigger] before[i]).0,
        key,
    ) by {
        assert(before[i] == headers[i]);
    }
    assert forall|i: int| 0 <= i < after.len() implies !same_ignoring_case(
        (#[trigger] after[i]).0,
        key,
    ) by {
        assert(after[i] == headers[at + 1 + i]);
    }
    lemma_no_match_no_value(before, key);
    lemma_no_match_no_value(after, key);
    assert(values_of(one, key) =~= seq![headers[at].1]) by {
        assert(one.drop_last() =~= Seq::<(Seq<u8>, Seq<u8>)>::empty());
        assert(one.last() == headers[at]);
        assert(values_of(one.drop_last(), key) =~= Seq::<Seq<u8>>::empty());
    }
    lemma_values_of_concat(before, one, key);
    lemma_values_of_concat(before + one, after, key);
    assert(values_of(headers, key) =~= seq![headers[at].1]);
    lemma_values_of_has_key(headers, key);
    assert(joined(seq![headers[at].1]) == headers[at].1);
}

/// A key that no entry has is not found.
pub proof fn lemma_lookup_none(block: HeaderBlock, key: Seq<u8>)
    requires
        forall|i: int|
            0 <= i < block.headers.len() ==> !same_ignoring_case(
                (#[trigger] block.headers[i]).0,
                key,
            ),
    ensures
        block.lookup(key) is None,
{
    lemma_no_match_no_value(block.headers, key);
    lemma_values_of_has_key(block.headers, key);
}

/// The two beginnings of a version line have seven bytes each.
pub proof fn lemma_version_prefix_lengths()
    ensures
        "WARC/1.".spec_bytes().len() == 7,
        "WARC/0.".spec_bytes().len() == 7,
{
    lemma_header_name_bytes();
}

/// A record that was written with a version line, header lines that can
/// carry their entries and a body of the declared length is found again, from
/// its first byte to its last.
pub proof fn lemma_frame_of_written(block: HeaderBlock, content: Seq<u8>, strict: bool)
    requires
        block.encoding == HeaderEncoding::Unicode,
        is_version_line(block.status_line),
        is_trimmed(block.status_line),
        no_line_feed(block.status_line),
        plain_entries(block.headers),
        declared_length(block) == content.len(),
    ensures
        frame_at(block.wire() + crlf() + content + crlf() + crlf(), 0, strict) == Found::Record(
            Frame {
                start: 0,
                headers: block,
                body_start: (block.wire().len() + 2) as int,
                body_end: (block.wire().len() + 2 + content.len()) as int,
                end: (block.wire().len() + content.len() + 6) as int,
            },
        ),
{
    lemma_version_prefix_lengths();
    let status = block.status_line;
    let lines = lines_of(block.headers);
    let wire = block.wire() + crlf() + content + crlf() + crlf();
    let n = status.len() as int;
    assert(n >= 7);
    assert(block.wire() =~= status + crlf() + lines);
    assert forall|i: int| 0 <= i < n implies #[trigger] wire[i] != 0x0Au8 by {
        assert(wire[i] == status[i]);
    }
    assert(wire[n] == 0x0Du8);
    assert(wire[n + 1] == 0x0Au8);
    lemma_position_is(wire, 0x0A, 0, n + 1);
    assert(line_end(wire, 0) == n + 2);
    assert(wire.subrange(0, n + 2) =~= status + crlf());
    lemma_trim_before_line_end(status);
    let first = Line { start: 0, end: n + 2 };
    assert(version_line(wire, 0, strict) == Some(first));

    let start = Reading {
        block: empty_block(HeaderEncoding::Unicode).with_status_line(status),
        awaits_status: false,
    };
    assert(wire.subrange(n + 2, n + 2 + lines.len()) =~= lines);
    lemma_read_plain_lines(wire, n + 2, start, block.headers);
    let after_lines = n + 2 + lines.len();
    assert(extended(start.block, block.headers) == block) by {
        assert(Seq::<(Seq<u8>, Seq<u8>)>::empty() + block.headers =~= block.headers);
    }
    assert(wire[after_lines] == 0x0Du8);
    assert(wire[after_lines + 1] == 0x0Au8);
    lemma_read_blank_line(wire, after_lines, Reading { block, awaits_status: false });
    assert(read_block(wire, n + 2, start) == (ReadBlock { block, end: after_lines + 2 }));
    assert(block.wire().len() == after_lines);
    assert(wire.len() == after_lines + content.len() + 6);
}

/// The headers of a new outbound record with a body: the four mandatory
/// entries, each as a header line can carry it.
pub open spec fn outbound_headers(
    kind: WarcRecordType,
    urn: Seq<u8>,
    date: Seq<u8>,
    length: nat,
) -> Seq<(Seq<u8>, Seq<u8>)> {
    seq![
        ("WARC-Type".spec_bytes(), encode_utf8(kind.name())),
        ("WARC-Date".spec_bytes(), date),
        ("WARC-Record-ID".spec_bytes(), "<".spec_bytes() + urn + ">".spec_bytes()),
        ("Content-Length".spec_bytes(), decimal(length)),
    ]
}

/// The names of the headers of a new record can stand in header lines, and
/// no two of them, nor any of them and `Content-Type`, agree up to letter
/// case.
pub proof fn lemma_header_names_differ()
    ensures
        plain_key("WARC-Type".spec_bytes()),
        plain_key("WARC-Date".spec_bytes()),
        plain_key("WARC-Record-ID".spec_bytes()),
        plain_key("Content-Length".spec_bytes()),
        plain_key("Content-Type".spec_bytes()),
        !same_ignoring_case("WARC-Type".spec_bytes(), "WARC-Date".spec_bytes()),
        !same_ignoring_case("WARC-Type".spec_bytes(), "WARC-Record-ID".spec_bytes()),
        !same_ignoring_case("WARC-Type".spec_bytes(), "Content-Length".spec_bytes()),
        !same_ignoring_case("WARC-Type".spec_bytes(), "Content-Type".spec_bytes()),
        !same_ignoring_case("WARC-Date".spec_bytes(), "WARC-Type".spec_bytes()),
        !same_ignoring_case("WARC-Date".spec_bytes(), "WARC-Record-ID".spec_bytes()),
        !same_ignoring_case("WARC-Date".spec_bytes(), "Content-Length".spec_bytes()),
        !same_ignoring_case("WARC-Date".spec_bytes(), "Content-Type".spec_bytes()),
        !same_ignoring_case("WARC-Record-ID".spec_bytes(), "WARC-Type".spec_bytes()),
        !same_ignoring_case("WARC-Record-ID".spec_bytes(), "Content-Length".spec_bytes()),
        !same_ignoring_case("WARC-Record-ID".spec_bytes(), "Content-Type".spec_bytes()),
        !same_ignoring_case("Content-Length".spec_bytes(), "WARC-Type".spec_bytes()),
        !same_ignoring_case("Content-Length".spec_bytes(), "WARC-Record-ID".spec_bytes()),
        !same_ignoring_case("Content-Length".spec_bytes(), "Content-Type".spec_bytes()),
{
    lemma_header_name_bytes();
    let k1 = "WARC-Type".spec_bytes();
    let k2 = "WARC-Date".spec_bytes();
    let k3 = "WARC-Record-ID".spec_bytes();
    let k4 = "Content-Length".spec_bytes();
    let k5 = "Content-Type".spec_bytes();
    assert(lowered(k1)[5] != lowered(k2)[5]);
    assert(lowered(k1).len() != lowered(k3).len());
    assert(lowered(k1).len() != lowered(k4).len());
    assert(lowered(k1).len() != lowered(k5).len());
    assert(lowered(k2).len() != lowered(k3).len());
    assert(lowered(k2).len() != lowered(k4).len());
    assert(lowered(k2).len() != lowered(k5).len());
    assert(lowered(k3)[0] != lowered(k4)[0]);
    assert(lowered(k3).len() != lowered(k5).len());
    assert(lowered(k4).len() != lowered(k5).len());
}

/// The version line `WARC/1.1` is a version line without surrounding white
/// space and without line feed.
pub proof fn lemma_version_literal()
    ensures
        is_version_line("WARC/1.1".spec_bytes()),
        is_trimmed("WARC/1.1".spec_bytes()),
        no_line_feed("WARC/1.1".spec_bytes()),
{
    lemma_header_name_bytes();
    assert("WARC/1.1".spec_bytes().subrange(0, 7) =~= "WARC/1.".spec_bytes());
}

/// The name of any kind can stand as the value of a header line.
pub proof fn lemma_kind_names_plain(kind: WarcRecordType)
    ensures
        plain_value(encode_utf8(kind.name())),
{
    lemma_kind_name_bytes();
    assert(plain_value("warcinfo".spec_bytes()));
    assert(plain_value("response".spec_bytes()));
    assert(plain_value("resource".spec_bytes()));
    assert(plain_value("request".spec_bytes()));
    assert(plain_value("metadata".spec_bytes()));
    assert(plain_value("revisit".spec_bytes()));
    assert(plain_value("conversion".spec_bytes()));
    assert(plain_value("continuation".spec_bytes()));
    assert(plain_value("unknown".spec_bytes()));
}

/// A timestamp can stand as the value of a header line.
pub proof fn lemma_timestamp_plain(date: Seq<u8>)
    requires
        is_timestamp(date),
    ensures
        plain_value(date),
{
    if date.len() > 0 {
        assert(is_timestamp_byte(date[0]));
        assert(is_timestamp_byte(date.last()));
    }
    assert forall|i: int| 0 <= i < date.len() implies #[trigger] date[i] != 0x0Au8 by {
        assert(is_timestamp_byte(date[i]));
    }
}

/// A URN without line feed in angle brackets can stand as the value of a
/// header line; a URN that is UTF-8 is written as it is.
pub proof fn lemma_record_id_plain(urn: Seq<u8>)
    requires
        valid_utf8(urn),
        no_line_feed(urn),
    ensures
        record_id_of(urn) == "<".spec_bytes() + urn + ">".spec_bytes(),
        plain_value(record_id_of(urn)),
{
    lemma_header_name_bytes();
    vstd::utf8::decode_utf8_encode_utf8(urn);
    let id = "<".spec_bytes() + urn + ">".spec_bytes();
    assert(id[0] == 0x3Cu8);
    assert(id.last() == 0x3Eu8);
    assert forall|i: int| 0 <= i < id.len() implies #[trigger] id[i] != 0x0Au8 by {
        if 1 <= i <= urn.len() {
            assert(id[i] == urn[i - 1]);
        }
    }
}

/// A decimal number can stand as the value of a header line.
pub proof fn lemma_decimal_plain(n: nat)
    ensures
        plain_value(decimal(n)),
{
    lemma_decimal_round_trip(n);
    let text = decimal(n);
    assert(is_digit(text[0]));
    assert(is_digit(text.last()));
    assert forall|i: int| 0 <= i < text.len() implies #[trigger] text[i] != 0x0Au8 by {
        assert(is_digit(text[i]));
    }
}

/// What `init_headers` and `set_content` leave in the header block of a
/// record: the version line `WARC/1.1` and the four mandatory entries, with
/// the length of the body.
pub proof fn lemma_outbound_headers(
    start: RecordView,
    declared: nat,
    record_type: Option<WarcRecordType>,
    urn: Seq<u8>,
    date: Seq<u8>,
    content: Seq<u8>,
)
    requires
        valid_utf8(urn),
        no_line_feed(urn),
        is_timestamp(date),
    ensures
        ({
            let record = start.initialised(declared, record_type, urn, date).with_content(content);
            &&& record.headers.status_line == "WARC/1.1".spec_bytes()
            &&& record.headers.headers == outbound_headers(
                normalised(record_type),
                urn,
                date,
                content.len(),
            )
            &&& plain_entries(record.headers.headers)
            &&& record.record_type == normalised(record_type)
            &&& record.content == content
            &&& !record.stale
            &&& record.http_parsed == start.http_parsed
        }),
{
    let kind = normalised(record_type);
    let name = encode_utf8(kind.name());
    let k1 = "WARC-Type".spec_bytes();
    let k2 = "WARC-Date".spec_bytes();
    let k3 = "WARC-Record-ID".spec_bytes();
    let k4 = "Content-Length".spec_bytes();
    let id = record_id_of(urn);
    let was = decimal(declared);
    let now = decimal(content.len());
    lemma_header_names_differ();
    lemma_kind_names_plain(kind);
    lemma_timestamp_plain(date);
    lemma_record_id_plain(urn);
    lemma_decimal_plain(declared);
    lemma_decimal_plain(content.len());
    lemma_trim_identity(k1);
    lemma_trim_identity(k2);
    lemma_trim_identity(k3);
    lemma_trim_identity(k4);
    lemma_trim_identity(name);
    lemma_trim_identity(date);
    lemma_trim_identity(id);
    lemma_trim_identity(was);
    lemma_trim_identity(now);
    let first = start.initialised(declared, record_type, urn, date);
    let h0 = first.headers.headers;
    let e1 = (k1, name);
    let e2 = (k2, date);
    let e3 = (k3, id);
    assert(h0 =~= seq![e1, e2, e3, (k4, was)]);
    lemma_with_last(first.headers, e1, e2, e3, k4, was, now);
    let record = first.with_content(content);
    assert(record.headers.headers == seq![e1, e2, e3, (k4, now)]);
    let out = record.headers.headers;
    assert forall|i: int| 0 <= i < out.len() implies plain_key((#[trigger] out[i]).0)
        && plain_value(out[i].1) by {
        if i == 0 {
        } else if i == 1 {
        } else if i == 2 {
        } else {
        }
    }
}

/// Setting the key of the last of four entries, where the other three keys
/// differ from it, replaces the value of that entry.
proof fn lemma_with_last(
    block: HeaderBlock,
    e1: (Seq<u8>, Seq<u8>),
    e2: (Seq<u8>, Seq<u8>),
    e3: (Seq<u8>, Seq<u8>),
    key: Seq<u8>,
    was: Seq<u8>,
    now: Seq<u8>,
)
    requires
        block.headers == seq![e1, e2, e3, (key, was)],
        !same_ignoring_case(e1.0, key),
        !same_ignoring_case(e2.0, key),
        !same_ignoring_case(e3.0, key),
        trimmed(key) == key,
        trimmed(now) == now,
    ensures
        block.with(key, now).headers == seq![e1, e2, e3, (key, now)],
{
    let h0 = block.headers;
    lemma_first_match_bounds(h0, key, 0);
    assert(h0[0] == e1 && h0[1] == e2 && h0[2] == e3 && h0[3] == (key, was));
    assert(same_ignoring_case(h0[3].0, key));
    assert(first_match(h0, key, 0) == 3);
    let tail = h0.subrange(4, h0.len() as int);
    assert(tail =~= Seq::<(Seq<u8>, Seq<u8>)>::empty());
    assert(without_key(tail, key) =~= Seq::<(Seq<u8>, Seq<u8>)>::empty());
    assert(block.with(key, now).headers =~= seq![e1, e2, e3, (key, now)]);
}

/// The headers of a new outbound record declare its kind and the length of
/// its body, and no HTTP content; its record identifier is found under its
/// name.
pub proof fn lemma_outbound_metadata(
    block: HeaderBlock,
    kind: WarcRecordType,
    urn: Seq<u8>,
    date: Seq<u8>,
    length: nat,
)
    requires
        is_record_kind(kind),
        length <= usize::MAX,
        block.headers == outbound_headers(kind, urn, date, length),
    ensures
        declared_type(block) == kind,
        declared_length(block) == length,
        !declared_http(block),
        block.lookup("WARC-Record-ID".spec_bytes()) == Some(
            "<".spec_bytes() + urn + ">".spec_bytes(),
        ),
{
    lemma_header_names_differ();
    law_name_round_trip(kind);
    crate::laws::lemma_decoded_text(block.encoding, kind.name());
    lemma_decimal_round_trip(length);
    let headers = block.headers;
    assert(headers.len() == 4);
    assert(headers[0].0 == "WARC-Type".spec_bytes());
    assert(headers[1].0 == "WARC-Date".spec_bytes());
    assert(headers[2].0 == "WARC-Record-ID".spec_bytes());
    assert(headers[3].0 == "Content-Length".spec_bytes());
    lemma_lookup_single(block, 0, "WARC-Type".spec_bytes());
    lemma_lookup_single(block, 2, "WARC-Record-ID".spec_bytes());
    lemma_lookup_single(block, 3, "Content-Length".spec_bytes());
    lemma_lookup_none(block, "Content-Type".spec_bytes());
}

/// A record that is made by `init_headers` and `set_content`, written and
/// decoded again comes back with its kind, its body, its record identifier
/// and its other headers, and decoding ends at the end of what was written.
///
/// The kind must be given, since a record without kind is written as
/// `unknown`. The URN must be UTF-8 without line feed, or it is not written
/// as it is. The record must not carry parsed HTTP headers from an earlier
/// use, the length of the body must fit the machine, and the configuration
/// must accept the record and not ask for a digest, which a new record has
/// not got.
pub proof fn law_written_record_reads_back(
    start: RecordView,
    declared: nat,
    record_type: WarcRecordType,
    urn: Seq<u8>,
    date: Seq<u8>,
    content: Seq<u8>,
    config: ArchiveIteratorConfig,
)
    requires
        !start.http_parsed,
        valid_utf8(urn),
        no_line_feed(urn),
        is_timestamp(date),
        content.len() <= usize::MAX,
        config.accepts(normalised(Some(record_type)), content.len()),
        !config.verify_digests,
    ensures
        ({
            let record = start.initialised(declared, Some(record_type), urn, date).with_content(
                content,
            );
            let next = next_record(record.wire(), 0, config);
            &&& next.pos == record.wire().len()
            &&& next.result is Ok
            &&& next.result->Ok_0 is Some
            &&& next.result->Ok_0->Some_0.record_type == record.record_type
            &&& next.result->Ok_0->Some_0.content == record.content
            &&& next.result->Ok_0->Some_0.headers.lookup("WARC-Record-ID".spec_bytes())
                == record.headers.lookup("WARC-Record-ID".spec_bytes())
            &&& record.headers.lookup("WARC-Record-ID".spec_bytes()) == Some(record_id_of(urn))
            &&& next.result->Ok_0->Some_0.headers.headers == record.headers.headers
            &&& next.result->Ok_0->Some_0.headers.status_line == record.headers.status_line
            &&& next.result->Ok_0->Some_0.stream_pos == 0
        }),
{
    let kind = normalised(Some(record_type));
    let record = start.initialised(declared, Some(record_type), urn, date).with_content(content);
    lemma_outbound_headers(start, declared, Some(record_type), urn, date, content);
    lemma_record_id_plain(urn);
    lemma_version_literal();
    let block = HeaderBlock {
        encoding: HeaderEncoding::Unicode,
        status_line: record.headers.status_line,
        headers: record.headers.headers,
    };
    lemma_outbound_metadata(block, kind, urn, date, content.len());
    lemma_outbound_metadata(record.headers, kind, urn, date, content.len());
    lemma_frame_of_written(block, content, config.strict_mode);
    assert(record.wire() =~= block.wire() + crlf() + content + crlf() + crlf()) by {
        assert(record.http_wire() =~= Seq::<u8>::empty());
        assert(record.headers.wire() == block.wire());
    }
    let wire = record.wire();
    let frame = frame_at(wire, 0, config.strict_mode)->Record_0;
    assert(wire.subrange(frame.body_start, frame.body_end) =~= content);
    let raw = framed_record(wire, frame);
    assert(raw.with_http_parsed() == raw);
    assert(judged(config, raw) == Outcome::Yielded(raw));
}

} // verus!
