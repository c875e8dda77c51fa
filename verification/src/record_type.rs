//! The closed set of WARC record kinds and their filter bits.

use crate::ascii::bytes_equal;
use crate::text::ascii_lowercase;
use crate::text::lowercased;
use crate::text::str_to_lowercase;
use vstd::prelude::*;
use vstd::std_specs::convert::FromSpecImpl;
use vstd::std_specs::convert::TryFromSpecImpl;
use vstd::string::StringSliceAdditionalSpecFns;
use vstd::utf8::is_ascii_chars;

verus! {

/// Kind of a WARC record.
///
/// Every named kind owns one bit of a 16-bit filter mask. `AnyType` carries
/// all bits and `NoType` none; both are filter values rather than kinds that a
/// record can have.
#[derive(Debug, Clone, Copy, PartialEq, Eq, Hash, Structural)]
pub enum WarcRecordType {
    WarcInfo,
    Response,
    Resource,
    Request,
    Metadata,
    Revisit,
    Conversion,
    Continuation,
    Unknown,
    AnyType,
    NoType,
}

/// The kind of record with exactly this name. The two filter values have no
/// name.
pub open spec fn kind_spelled(name: Seq<char>) -> Option<WarcRecordType> {
    if name == "warcinfo"@ {
        Some(WarcRecordType::WarcInfo)
    } else if name == "response"@ {
        Some(WarcRecordType::Response)
    } else if name == "resource"@ {
        Some(WarcRecordType::Resource)
    } else if name == "request"@ {
        Some(WarcRecordType::Request)
    } else if name == "metadata"@ {
        Some(WarcRecordType::Metadata)
    } else if name == "revisit"@ {
        Some(WarcRecordType::Revisit)
    } else if name == "conversion"@ {
        Some(WarcRecordType::Conversion)
    } else if name == "continuation"@ {
        Some(WarcRecordType::Continuation)
    } else if name == "unknown"@ {
        Some(WarcRecordType::Unknown)
    } else {
        None
    }
}

/// Whether a string is the given text.
fn is_text(s: &str, text: &str) -> (same: bool)
    ensures
        same == (s@ == text@),
{
    proof {
        vstd::utf8::encode_utf8_decode_utf8(s@);
        vstd::utf8::encode_utf8_decode_utf8(text@);
    }
    bytes_equal(s.as_bytes(), text.as_bytes())
}

/// The kind of record with exactly this name, which is given in lower case.
pub fn kind_of_lowered(lowered: &str) -> (kind: Option<WarcRecordType>)
    ensures
        kind == kind_spelled(lowered@),
{
    if is_text(lowered, "warcinfo") {
        Some(WarcRecordType::WarcInfo)
    } else if is_text(lowered, "response") {
        Some(WarcRecordType::Response)
    } else if is_text(lowered, "resource") {
        Some(WarcRecordType::Resource)
    } else if is_text(lowered, "request") {
        Some(WarcRecordType::Request)
    } else if is_text(lowered, "metadata") {
        Some(WarcRecordType::Metadata)
    } else if is_text(lowered, "revisit") {
        Some(WarcRecordType::Revisit)
    } else if is_text(lowered, "conversion") {
        Some(WarcRecordType::Conversion)
    } else if is_text(lowered, "continuation") {
        Some(WarcRecordType::Continuation)
    } else if is_text(lowered, "unknown") {
        Some(WarcRecordType::Unknown)
    } else {
        None
    }
}

impl WarcRecordType {
    /// The filter bits of a kind.
    pub open spec fn bits(self) -> u16 {
        match self {
            WarcRecordType::WarcInfo => 2,
            WarcRecordType::Response => 4,
            WarcRecordType::Resource => 8,
            WarcRecordType::Request => 16,
            WarcRecordType::Metadata => 32,
            WarcRecordType::Revisit => 64,
            WarcRecordType::Conversion => 128,
            WarcRecordType::Continuation => 256,
            WarcRecordType::Unknown => 512,
            WarcRecordType::AnyType => 65535,
            WarcRecordType::NoType => 0,
        }
    }

    /// The lower-case name of a kind; the two filter values read as `unknown`.
    pub open spec fn name(self) -> Seq<char> {
        match self {
            WarcRecordType::WarcInfo => "warcinfo"@,
            WarcRecordType::Response => "response"@,
            WarcRecordType::Resource => "resource"@,
            WarcRecordType::Request => "request"@,
            WarcRecordType::Metadata => "metadata"@,
            WarcRecordType::Revisit => "revisit"@,
            WarcRecordType::Conversion => "conversion"@,
            WarcRecordType::Continuation => "continuation"@,
            _ => "unknown"@,
        }
    }

    /// The lower-case name of a kind as a string.
    pub open spec fn name_str(self) -> &'static str {
        match self {
            WarcRecordType::WarcInfo => "warcinfo",
            WarcRecordType::Response => "response",
            WarcRecordType::Resource => "resource",
            WarcRecordType::Request => "request",
            WarcRecordType::Metadata => "metadata",
            WarcRecordType::Revisit => "revisit",
            WarcRecordType::Conversion => "conversion",
            WarcRecordType::Continuation => "continuation",
            _ => "unknown",
        }
    }

    /// Lower-case name of the record kind.
    pub fn as_str(&self) -> (name: &'static str)
        ensures
            name == self.name_str(),
            name@ == self.name(),
    {
        match self {
            WarcRecordType::WarcInfo => "warcinfo",
            WarcRecordType::Response => "response",
            WarcRecordType::Resource => "resource",
            WarcRecordType::Request => "request",
            WarcRecordType::Metadata => "metadata",
            WarcRecordType::Revisit => "revisit",
            WarcRecordType::Conversion => "conversion",
            WarcRecordType::Continuation => "continuation",
            _ => "unknown",
        }
    }

    /// Numeric value of the record kind.
    pub fn as_u16(&self) -> (value: u16)
        ensures
            value == self.bits(),
    {
        match self {
            WarcRecordType::WarcInfo => 2,
            WarcRecordType::Response => 4,
            WarcRecordType::Resource => 8,
            WarcRecordType::Request => 16,
            WarcRecordType::Metadata => 32,
            WarcRecordType::Revisit => 64,
            WarcRecordType::Conversion => 128,
            WarcRecordType::Continuation => 256,
            WarcRecordType::Unknown => 512,
            WarcRecordType::AnyType => 65535,
            WarcRecordType::NoType => 0,
        }
    }

    /// Whether the kind shares a bit with `bitmask`.
    pub fn matches_bitmask(&self, bitmask: u16) -> (hit: bool)
        ensures
            hit == (self.bits() & bitmask != 0),
    {
        self.as_u16() & bitmask != 0
    }
}

impl TryFrom<u16> for WarcRecordType {
    type Error = &'static str;

    fn try_from(value: u16) -> (kind: Result<Self, Self::Error>) {
        match value {
            2 => Ok(WarcRecordType::WarcInfo),
            4 => Ok(WarcRecordType::Response),
            8 => Ok(WarcRecordType::Resource),
            16 => Ok(WarcRecordType::Request),
            32 => Ok(WarcRecordType::Metadata),
            64 => Ok(WarcRecordType::Revisit),
            128 => Ok(WarcRecordType::Conversion),
            256 => Ok(WarcRecordType::Continuation),
            512 => Ok(WarcRecordType::Unknown),
            65535 => Ok(WarcRecordType::AnyType),
            0 => Ok(WarcRecordType::NoType),
            _ => Err("Invalid enum value."),
        }
    }
}

impl TryFromSpecImpl<u16> for WarcRecordType {
    open spec fn obeys_try_from_spec() -> bool {
        true
    }

    open spec fn try_from_spec(value: u16) -> Result<Self, Self::Error> {
        match value {
            2 => Ok(WarcRecordType::WarcInfo),
            4 => Ok(WarcRecordType::Response),
            8 => Ok(WarcRecordType::Resource),
            16 => Ok(WarcRecordType::Request),
            32 => Ok(WarcRecordType::Metadata),
            64 => Ok(WarcRecordType::Revisit),
            128 => Ok(WarcRecordType::Conversion),
            256 => Ok(WarcRecordType::Continuation),
            512 => Ok(WarcRecordType::Unknown),
            65535 => Ok(WarcRecordType::AnyType),
            0 => Ok(WarcRecordType::NoType),
            _ => Err("Invalid enum value."),
        }
    }
}

impl<'a> TryFrom<&'a str> for WarcRecordType {
    type Error = &'static str;

    fn try_from(value: &'a str) -> (kind: Result<Self, Self::Error>) {
        let lowered = str_to_lowercase(value);
        match kind_of_lowered(lowered.as_str()) {
            Some(kind) => Ok(kind),
            None => Err("Invalid enum value."),
        }
    }
}

impl<'a> TryFromSpecImpl<&'a str> for WarcRecordType {
    open spec fn obeys_try_from_spec() -> bool {
        true
    }

    open spec fn try_from_spec(value: &'a str) -> Result<Self, Self::Error> {
        match kind_spelled(lowercased(value@)) {
            Some(kind) => Ok(kind),
            None => Err("Invalid enum value."),
        }
    }
}

impl From<WarcRecordType> for &'static str {
    fn from(value: WarcRecordType) -> (name: Self) {
        value.as_str()
    }
}

impl FromSpecImpl<WarcRecordType> for &'static str {
    open spec fn obeys_from_spec() -> bool {
        true
    }

    open spec fn from_spec(value: WarcRecordType) -> Self {
        value.name_str()
    }
}

/// The mask of a list of kinds: the bits of all of them.
pub open spec fn mask_of(kinds: Seq<WarcRecordType>) -> u16
    decreases kinds.len(),
{
    if kinds.len() == 0 {
        0
    } else {
        mask_of(kinds.drop_last()) | kinds.last().bits()
    }
}

/// A kind that a record can have: one of the nine with a name.
pub open spec fn is_record_kind(kind: WarcRecordType) -> bool {
    kind != WarcRecordType::AnyType && kind != WarcRecordType::NoType
}

/// The bits of two kinds of record overlap only where the kinds are the same.
pub proof fn lemma_kinds_have_own_bits(a: WarcRecordType, b: WarcRecordType)
    requires
        is_record_kind(a),
        is_record_kind(b),
    ensures
        (a.bits() & b.bits() != 0) <==> a == b,
{
    assert(2u16 & 2u16 != 0 && 2u16 & 4u16 == 0 && 2u16 & 8u16 == 0 && 2u16 & 16u16 == 0 && 2u16
        & 32u16 == 0 && 2u16 & 64u16 == 0 && 2u16 & 128u16 == 0 && 2u16 & 256u16 == 0 && 2u16
        & 512u16 == 0) by (bit_vector);
    assert(4u16 & 2u16 == 0 && 4u16 & 4u16 != 0 && 4u16 & 8u16 == 0 && 4u16 & 16u16 == 0 && 4u16
        & 32u16 == 0 && 4u16 & 64u16 == 0 && 4u16 & 128u16 == 0 && 4u16 & 256u16 == 0 && 4u16
        & 512u16 == 0) by (bit_vector);
    assert(8u16 & 2u16 == 0 && 8u16 & 4u16 == 0 && 8u16 & 8u16 != 0 && 8u16 & 16u16 == 0 && 8u16
        & 32u16 == 0 && 8u16 & 64u16 == 0 && 8u16 & 128u16 == 0 && 8u16 & 256u16 == 0 && 8u16
        & 512u16 == 0) by (bit_vector);
    assert(16u16 & 2u16 == 0 && 16u16 & 4u16 == 0 && 16u16 & 8u16 == 0 && 16u16 & 16u16 != 0
        && 16u16 & 32u16 == 0 && 16u16 & 64u16 == 0 && 16u16 & 128u16 == 0 && 16u16 & 256u16 == 0
        && 16u16 & 512u16 == 0) by (bit_vector);
    assert(32u16 & 2u16 == 0 && 32u16 & 4u16 == 0 && 32u16 & 8u16 == 0 && 32u16 & 16u16 == 0
        && 32u16 & 32u16 != 0 && 32u16 & 64u16 == 0 && 32u16 & 128u16 == 0 && 32u16 & 256u16 == 0
        && 32u16 & 512u16 == 0) by (bit_vector);
    assert(64u16 & 2u16 == 0 && 64u16 & 4u16 == 0 && 64u16 & 8u16 == 0 && 64u16 & 16u16 == 0
        && 64u16 & 32u16 == 0 && 64u16 & 64u16 != 0 && 64u16 & 128u16 == 0 && 64u16 & 256u16 == 0
        && 64u16 & 512u16 == 0) by (bit_vector);
    assert(128u16 & 2u16 == 0 && 128u16 & 4u16 == 0 && 128u16 & 8u16 == 0 && 128u16 & 16u16 == 0
        && 128u16 & 32u16 == 0 && 128u16 & 64u16 == 0 && 128u16 & 128u16 != 0 && 128u16 & 256u16
        == 0 && 128u16 & 512u16 == 0) by (bit_vector);
    assert(256u16 & 2u16 == 0 && 256u16 & 4u16 == 0 && 256u16 & 8u16 == 0 && 256u16 & 16u16 == 0
        && 256u16 & 32u16 == 0 && 256u16 & 64u16 == 0 && 256u16 & 128u16 == 0 && 256u16 & 256u16
        != 0 && 256u16 & 512u16 == 0) by (bit_vector);
    assert(512u16 & 2u16 == 0 && 512u16 & 4u16 == 0 && 512u16 & 8u16 == 0 && 512u16 & 16u16 == 0
        && 512u16 & 32u16 == 0 && 512u16 & 64u16 == 0 && 512u16 & 128u16 == 0 && 512u16 & 256u16
        == 0 && 512u16 & 512u16 != 0) by (bit_vector);
}

/// A kind of record matches the mask of a list of kinds exactly when it is
/// in the list.
pub proof fn law_mask_selects_its_kinds(kinds: Seq<WarcRecordType>, kind: WarcRecordType)
    requires
        is_record_kind(kind),
        forall|i: int| 0 <= i < kinds.len() ==> is_record_kind(#[trigger] kinds[i]),
    ensures
        (kind.bits() & mask_of(kinds) != 0) <==> kinds.contains(kind),
    decreases kinds.len(),
{
    if kinds.len() == 0 {
        let bits = kind.bits();
        assert(bits & 0u16 == 0) by (bit_vector);
    } else {
        let front = kinds.drop_last();
        assert forall|i: int| 0 <= i < front.len() implies is_record_kind(#[trigger] front[i]) by {
            assert(front[i] == kinds[i]);
        }
        law_mask_selects_its_kinds(front, kind);
        lemma_kinds_have_own_bits(kind, kinds.last());
        let bits = kind.bits();
        let mask = mask_of(front);
        let last = kinds.last().bits();
        assert((bits & (mask | last) != 0) <==> (bits & mask != 0 || bits & last != 0))
            by (bit_vector);
        if front.contains(kind) {
            let i = choose|i: int| 0 <= i < front.len() && front[i] == kind;
            assert(kinds[i] == kind);
        }
        if kinds.contains(kind) {
            let i = choose|i: int| 0 <= i < kinds.len() && kinds[i] == kind;
            if i < front.len() {
                assert(front[i] == kind);
            } else {
                assert(kinds.last() == kind);
            }
        }
        if kinds.last() == kind {
            assert(kinds[kinds.len() - 1] == kind);
        }
    }
}

/// A name names none but the nine kinds that a record can have.
pub proof fn lemma_spelled_kind_is_record_kind(name: Seq<char>)
    ensures
        kind_spelled(name) is Some ==> is_record_kind(kind_spelled(name)->Some_0),
{
}

/// The bytes of the names of the kinds of record.
pub proof fn lemma_kind_name_bytes()
    ensures
        "warcinfo".spec_bytes() == seq![0x77u8, 0x61u8, 0x72u8, 0x63u8, 0x69u8, 0x6Eu8, 0x66u8, 0x6Fu8],
        "response".spec_bytes() == seq![0x72u8, 0x65u8, 0x73u8, 0x70u8, 0x6Fu8, 0x6Eu8, 0x73u8, 0x65u8],
        "resource".spec_bytes() == seq![0x72u8, 0x65u8, 0x73u8, 0x6Fu8, 0x75u8, 0x72u8, 0x63u8, 0x65u8],
        "request".spec_bytes() == seq![0x72u8, 0x65u8, 0x71u8, 0x75u8, 0x65u8, 0x73u8, 0x74u8],
        "metadata".spec_bytes() == seq![0x6Du8, 0x65u8, 0x74u8, 0x61u8, 0x64u8, 0x61u8, 0x74u8, 0x61u8],
        "revisit".spec_bytes() == seq![0x72u8, 0x65u8, 0x76u8, 0x69u8, 0x73u8, 0x69u8, 0x74u8],
        "conversion".spec_bytes() == seq![0x63u8, 0x6Fu8, 0x6Eu8, 0x76u8, 0x65u8, 0x72u8, 0x73u8, 0x69u8, 0x6Fu8, 0x6Eu8],
        "continuation".spec_bytes() == seq![0x63u8, 0x6Fu8, 0x6Eu8, 0x74u8, 0x69u8, 0x6Eu8, 0x75u8, 0x61u8, 0x74u8, 0x69u8, 0x6Fu8, 0x6Eu8],
        "unknown".spec_bytes() == seq![0x75u8, 0x6Eu8, 0x6Bu8, 0x6Eu8, 0x6Fu8, 0x77u8, 0x6Eu8],
{
    reveal_strlit("warcinfo");
    vstd::utf8::is_ascii_chars_encode_utf8("warcinfo"@);
    assert("warcinfo".spec_bytes() =~= seq![0x77u8, 0x61u8, 0x72u8, 0x63u8, 0x69u8, 0x6Eu8, 0x66u8, 0x6Fu8]);
    reveal_strlit("response");
    vstd::utf8::is_ascii_chars_encode_utf8("response"@);
    assert("response".spec_bytes() =~= seq![0x72u8, 0x65u8, 0x73u8, 0x70u8, 0x6Fu8, 0x6Eu8, 0x73u8, 0x65u8]);
    reveal_strlit("resource");
    vstd::utf8::is_ascii_chars_encode_utf8("resource"@);
    assert("resource".spec_bytes() =~= seq![0x72u8, 0x65u8, 0x73u8, 0x6Fu8, 0x75u8, 0x72u8, 0x63u8, 0x65u8]);
    reveal_strlit("request");
    vstd::utf8::is_ascii_chars_encode_utf8("request"@);
    assert("request".spec_bytes() =~= seq![0x72u8, 0x65u8, 0x71u8, 0x75u8, 0x65u8, 0x73u8, 0x74u8]);
    reveal_strlit("metadata");
    vstd::utf8::is_ascii_chars_encode_utf8("metadata"@);
    assert("metadata".spec_bytes() =~= seq![0x6Du8, 0x65u8, 0x74u8, 0x61u8, 0x64u8, 0x61u8, 0x74u8, 0x61u8]);
    reveal_strlit("revisit");
    vstd::utf8::is_ascii_chars_encode_utf8("revisit"@);
    assert("revisit".spec_bytes() =~= seq![0x72u8, 0x65u8, 0x76u8, 0x69u8, 0x73u8, 0x69u8, 0x74u8]);
    reveal_strlit("conversion");
    vstd::utf8::is_ascii_chars_encode_utf8("conversion"@);
    assert("conversion".spec_bytes() =~= seq![0x63u8, 0x6Fu8, 0x6Eu8, 0x76u8, 0x65u8, 0x72u8, 0x73u8, 0x69u8, 0x6Fu8, 0x6Eu8]);
    reveal_strlit("continuation");
    vstd::utf8::is_ascii_chars_encode_utf8("continuation"@);
    assert("continuation".spec_bytes() =~= seq![0x63u8, 0x6Fu8, 0x6Eu8, 0x74u8, 0x69u8, 0x6Eu8, 0x75u8, 0x61u8, 0x74u8, 0x69u8, 0x6Fu8, 0x6Eu8]);
    reveal_strlit("unknown");
    vstd::utf8::is_ascii_chars_encode_utf8("unknown"@);
    assert("unknown".spec_bytes() =~= seq![0x75u8, 0x6Eu8, 0x6Bu8, 0x6Eu8, 0x6Fu8, 0x77u8, 0x6Eu8]);
}

/// The name of a kind of record names that kind, as it stands and after it
/// is put into lower case: names and kinds correspond one to one for the nine
/// kinds that a record can have. The names are ASCII.
pub proof fn law_name_round_trip(kind: WarcRecordType)
    requires
        is_record_kind(kind),
    ensures
        kind_spelled(kind.name()) == Some(kind),
        kind_spelled(lowercased(kind.name())) == Some(kind),
        is_ascii_chars(kind.name()),
{
    reveal_strlit("warcinfo");
    reveal_strlit("response");
    reveal_strlit("resource");
    reveal_strlit("request");
    reveal_strlit("metadata");
    reveal_strlit("revisit");
    reveal_strlit("conversion");
    reveal_strlit("continuation");
    reveal_strlit("unknown");
    let n0 = "warcinfo"@;
    let n1 = "response"@;
    let n2 = "resource"@;
    let n3 = "request"@;
    let n4 = "metadata"@;
    let n5 = "revisit"@;
    let n6 = "conversion"@;
    let n7 = "continuation"@;
    let n8 = "unknown"@;
    assert(is_ascii_chars(n0));
    assert(ascii_lowercase(n0) =~= n0);
    assert(is_ascii_chars(n1));
    assert(ascii_lowercase(n1) =~= n1);
    assert(is_ascii_chars(n2));
    assert(ascii_lowercase(n2) =~= n2);
    assert(is_ascii_chars(n3));
    assert(ascii_lowercase(n3) =~= n3);
    assert(is_ascii_chars(n4));
    assert(ascii_lowercase(n4) =~= n4);
    assert(is_ascii_chars(n5));
    assert(ascii_lowercase(n5) =~= n5);
    assert(is_ascii_chars(n6));
    assert(ascii_lowercase(n6) =~= n6);
    assert(is_ascii_chars(n7));
    assert(ascii_lowercase(n7) =~= n7);
    assert(is_ascii_chars(n8));
    assert(ascii_lowercase(n8) =~= n8);
    assert(n1[0] != n0[0]);
    assert(n2[0] != n0[0]);
    assert(n2[3] != n1[3]);
    assert(n3.len() != n0.len());
    assert(n3.len() != n1.len());
    assert(n3.len() != n2.len());
    assert(n4[0] != n0[0]);
    assert(n4[0] != n1[0]);
    assert(n4[0] != n2[0]);
    assert(n4.len() != n3.len());
    assert(n5.len() != n0.len());
    assert(n5.len() != n1.len());
    assert(n5.len() != n2.len());
    assert(n5[2] != n3[2]);
    assert(n5.len() != n4.len());
    assert(n6.len() != n0.len());
    assert(n6.len() != n1.len());
    assert(n6.len() != n2.len());
    assert(n6.len() != n3.len());
    assert(n6.len() != n4.len());
    assert(n6.len() != n5.len());
    assert(n7.len() != n0.len());
    assert(n7.len() != n1.len());
    assert(n7.len() != n2.len());
    assert(n7.len() != n3.len());
    assert(n7.len() != n4.len());
    assert(n7.len() != n5.len());
    assert(n7.len() != n6.len());
    assert(n8.len() != n0.len());
    assert(n8.len() != n1.len());
    assert(n8.len() != n2.len());
    assert(n8[0] != n3[0]);
    assert(n8.len() != n4.len());
    assert(n8[0] != n5[0]);
    assert(n8.len() != n6.len());
    assert(n8.len() != n7.len());
}

} // verus!
