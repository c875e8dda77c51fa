//! Byte-level text helpers: ASCII white space and letter case, trimming,
//! searching and joining.

use vstd::prelude::*;
use vstd::slice::slice_subrange;

verus! {

/// ASCII white space: space, tab, line feed, form feed and carriage return.
pub open spec fn is_space(b: u8) -> bool {
    b == 0x20 || b == 0x09 || b == 0x0A || b == 0x0C || b == 0x0D
}

/// The ASCII lower-case form of a byte.
pub open spec fn lower(b: u8) -> u8 {
    if 0x41 <= b <= 0x5A {
        (b + 0x20) as u8
    } else {
        b
    }
}

/// A byte string with every ASCII capital replaced by its small letter.
pub open spec fn lowered(s: Seq<u8>) -> Seq<u8> {
    Seq::new(s.len(), |i: int| lower(s[i]))
}

/// Equality of byte strings up to ASCII letter case.
pub open spec fn same_ignoring_case(a: Seq<u8>, b: Seq<u8>) -> bool {
    lowered(a) == lowered(b)
}

/// Index of the first byte at or after `from` that is not white space, or the
/// length of `s` when only white space follows.
pub open spec fn leading(s: Seq<u8>, from: int) -> int
    decreases s.len() - from,
{
    if 0 <= from < s.len() && is_space(s[from]) {
        leading(s, from + 1)
    } else {
        from
    }
}

/// Index just past the last byte before `to` that is not white space, never
/// below `lo`.
pub open spec fn trailing(s: Seq<u8>, lo: int, to: int) -> int
    decreases to - lo,
{
    if lo < to <= s.len() && is_space(s[to - 1]) {
        trailing(s, lo, to - 1)
    } else {
        to
    }
}

/// `s` without its leading and trailing ASCII white space.
pub open spec fn trimmed(s: Seq<u8>) -> Seq<u8> {
    let a = leading(s, 0);
    s.subrange(a, trailing(s, a, s.len() as int))
}

/// Neither end of `s` is white space.
pub open spec fn is_trimmed(s: Seq<u8>) -> bool {
    s.len() == 0 || (!is_space(s[0]) && !is_space(s.last()))
}

/// Index of the first `b` at or after `from`, or the length of `s` when there
/// is none.
pub open spec fn position(s: Seq<u8>, b: u8, from: int) -> int
    decreases s.len() - from,
{
    if 0 <= from < s.len() && s[from] != b {
        position(s, b, from + 1)
    } else {
        from
    }
}

/// `p` is an initial part of `s`.
pub open spec fn has_prefix(s: Seq<u8>, p: Seq<u8>) -> bool {
    p.len() <= s.len() && s.subrange(0, p.len() as int) == p
}

/// `needle` stands in `s` at index `at`.
pub open spec fn occurs_at(s: Seq<u8>, needle: Seq<u8>, at: int) -> bool {
    0 <= at && at + needle.len() <= s.len() && s.subrange(at, at + needle.len()) == needle
}

/// Index of the first place at or after `from` where `needle` stands in `s`,
/// or the length of `s` when it stands nowhere before the end.
pub open spec fn search(s: Seq<u8>, needle: Seq<u8>, from: int) -> int
    decreases s.len() - from,
{
    if 0 <= from < s.len() && !occurs_at(s, needle, from) {
        search(s, needle, from + 1)
    } else {
        from
    }
}

/// `needle` stands somewhere in `s`.
pub open spec fn contains_text(s: Seq<u8>, needle: Seq<u8>) -> bool {
    occurs_at(s, needle, search(s, needle, 0))
}

/// The values joined by single commas.
pub open spec fn joined(values: Seq<Seq<u8>>) -> Seq<u8>
    decreases values.len(),
{
    if values.len() == 0 {
        Seq::empty()
    } else if values.len() == 1 {
        values[0]
    } else {
        joined(values.drop_last()) + seq![0x2Cu8] + values.last()
    }
}

pub proof fn lemma_leading_bounds(s: Seq<u8>, from: int)
    requires
        0 <= from <= s.len(),
    ensures
        from <= leading(s, from) <= s.len(),
        forall|i: int| from <= i < leading(s, from) ==> is_space(#[trigger] s[i]),
        leading(s, from) < s.len() ==> !is_space(s[leading(s, from)]),
    decreases s.len() - from,
{
    if from < s.len() && is_space(s[from]) {
        lemma_leading_bounds(s, from + 1);
    }
}

pub proof fn lemma_trailing_bounds(s: Seq<u8>, lo: int, to: int)
    requires
        0 <= lo <= to <= s.len(),
    ensures
        lo <= trailing(s, lo, to) <= to,
        forall|i: int| trailing(s, lo, to) <= i < to ==> is_space(#[trigger] s[i]),
        lo < trailing(s, lo, to) ==> !is_space(s[trailing(s, lo, to) - 1]),
    decreases to - lo,
{
    if lo < to && is_space(s[to - 1]) {
        lemma_trailing_bounds(s, lo, to - 1);
    }
}

/// What `trimmed` returns has no white space at either end.
pub proof fn lemma_trimmed_is_trimmed(s: Seq<u8>)
    ensures
        is_trimmed(trimmed(s)),
        trimmed(s).len() <= s.len(),
{
    let a = leading(s, 0);
    lemma_leading_bounds(s, 0);
    lemma_trailing_bounds(s, a, s.len() as int);
}

/// Trimming leaves a byte string without white space at its ends unchanged.
pub proof fn lemma_trim_identity(s: Seq<u8>)
    requires
        is_trimmed(s),
    ensures
        trimmed(s) == s,
{
    if s.len() > 0 {
        assert(leading(s, 0) == 0);
        assert(trailing(s, 0, s.len() as int) == s.len());
    }
    assert(trimmed(s) =~= s);
}

pub proof fn lemma_position_bounds(s: Seq<u8>, b: u8, from: int)
    requires
        0 <= from <= s.len(),
    ensures
        from <= position(s, b, from) <= s.len(),
        forall|i: int| from <= i < position(s, b, from) ==> #[trigger] s[i] != b,
        position(s, b, from) < s.len() ==> s[position(s, b, from)] == b,
    decreases s.len() - from,
{
    if from < s.len() && s[from] != b {
        lemma_position_bounds(s, b, from + 1);
    }
}

/// Whether `b` is ASCII white space.
pub fn byte_is_space(b: u8) -> (r: bool)
    ensures
        r == is_space(b),
{
    b == 0x20 || b == 0x09 || b == 0x0A || b == 0x0C || b == 0x0D
}

/// The ASCII lower-case form of `b`.
pub fn to_lower(b: u8) -> (r: u8)
    ensures
        r == lower(b),
{
    if 0x41 <= b && b <= 0x5A {
        b + 0x20
    } else {
        b
    }
}

/// Compares two byte strings up to ASCII letter case.
pub fn eq_ignore_ascii_case(a: &[u8], b: &[u8]) -> (same: bool)
    ensures
        same == same_ignoring_case(a@, b@),
{
    if a.len() != b.len() {
        assert(lowered(a@).len() != lowered(b@).len());
        return false;
    }
    let mut i: usize = 0;
    while i < a.len()
        invariant
            i <= a.len(),
            a.len() == b.len(),
            forall|j: int| 0 <= j < i ==> lower(#[trigger] a@[j]) == lower(b@[j]),
        decreases a.len() - i,
    {
        if to_lower(a[i]) != to_lower(b[i]) {
            assert(lowered(a@)[i as int] != lowered(b@)[i as int]);
            return false;
        }
        i += 1;
    }
    assert(lowered(a@) =~= lowered(b@));
    true
}

/// The part of `s` between its leading and trailing ASCII white space.
pub fn trim_ascii(s: &[u8]) -> (out: &[u8])
    ensures
        out@ == trimmed(s@),
{
    let mut start: usize = 0;
    while start < s.len() && byte_is_space(s[start])
        invariant
            start <= s.len(),
            leading(s@, 0) == leading(s@, start as int),
        decreases s.len() - start,
    {
        start += 1;
    }
    let mut end: usize = s.len();
    while start < end && byte_is_space(s[end - 1])
        invariant
            start <= end <= s.len(),
            trailing(s@, start as int, s.len() as int) == trailing(s@, start as int, end as int),
        decreases end - start,
    {
        end -= 1;
    }
    slice_subrange(s, start, end)
}

/// Index of the first `b` in `s` at or after `from`.
pub fn find_byte(s: &[u8], b: u8, from: usize) -> (at: usize)
    ensures
        at == position(s@, b, from as int),
        from <= at,
        from <= s.len() ==> at <= s.len(),
{
    let mut i: usize = from;
    while i < s.len() && s[i] != b
        invariant
            from <= i,
            from <= s.len() ==> i <= s.len(),
            position(s@, b, from as int) == position(s@, b, i as int),
        decreases s.len() - i,
    {
        i += 1;
    }
    i
}

/// Whether two byte strings are equal.
pub fn bytes_equal(a: &[u8], b: &[u8]) -> (same: bool)
    ensures
        same == (a@ == b@),
{
    if a.len() != b.len() {
        return false;
    }
    let mut i: usize = 0;
    while i < a.len()
        invariant
            i <= a.len(),
            a.len() == b.len(),
            forall|j: int| 0 <= j < i ==> #[trigger] a@[j] == b@[j],
        decreases a.len() - i,
    {
        if a[i] != b[i] {
            return false;
        }
        i += 1;
    }
    assert(a@ =~= b@);
    true
}

/// Whether `s` begins with `prefix`.
pub fn starts_with(s: &[u8], prefix: &[u8]) -> (r: bool)
    ensures
        r == has_prefix(s@, prefix@),
{
    if prefix.len() > s.len() {
        return false;
    }
    let mut i: usize = 0;
    while i < prefix.len()
        invariant
            i <= prefix.len() <= s.len(),
            forall|j: int| 0 <= j < i ==> #[trigger] s@[j] == prefix@[j],
        decreases prefix.len() - i,
    {
        if s[i] != prefix[i] {
            assert(s@.subrange(0, prefix@.len() as int)[i as int] != prefix@[i as int]);
            return false;
        }
        i += 1;
    }
    assert(s@.subrange(0, prefix@.len() as int) =~= prefix@);
    true
}

/// Whether `needle` stands in `s` at index `at`.
pub fn matches_at(s: &[u8], needle: &[u8], at: usize) -> (r: bool)
    ensures
        r == occurs_at(s@, needle@, at as int),
{
    if at > s.len() || needle.len() > s.len() - at {
        return false;
    }
    let mut i: usize = 0;
    while i < needle.len()
        invariant
            i <= needle.len(),
            at + needle.len() <= s.len(),
            forall|j: int| 0 <= j < i ==> s@[at + j] == #[trigger] needle@[j],
        decreases needle.len() - i,
    {
        if s[at + i] != needle[i] {
            assert(s@.subrange(at as int, at + needle@.len())[i as int] != needle@[i as int]);
            return false;
        }
        i += 1;
    }
    assert(s@.subrange(at as int, at + needle@.len()) =~= needle@);
    true
}

/// Index of the first place in `s` at or after `from` where `needle` stands.
pub fn find(s: &[u8], needle: &[u8], from: usize) -> (at: usize)
    ensures
        at == search(s@, needle@, from as int),
        from <= at,
        from <= s.len() ==> at <= s.len(),
{
    let mut i: usize = from;
    while i < s.len() && !matches_at(s, needle, i)
        invariant
            from <= i,
            from <= s.len() ==> i <= s.len(),
            search(s@, needle@, from as int) == search(s@, needle@, i as int),
        decreases s.len() - i,
    {
        i += 1;
    }
    i
}

} // verus!
