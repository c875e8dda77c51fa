//! What a new outbound record takes from its surroundings: a random record
//! identifier and the current time.

use chrono::Utc;
use crate::decimal::all_digits;
use crate::decimal::is_digit;
use uuid::Uuid;
use vstd::prelude::*;

verus! {

/// A lower-case hexadecimal digit.
pub open spec fn is_hex_byte(b: u8) -> bool {
    0x30 <= b <= 0x39 || 0x61 <= b <= 0x66
}

/// The textual form of a UUID: 36 bytes, hyphens at the places 8, 13, 18 and
/// 23 and lower-case hexadecimal digits at the others.
pub open spec fn is_uuid_text(text: Seq<u8>) -> bool {
    text.len() == 36 && forall|i: int|
        0 <= i < text.len() ==> if i == 8 || i == 13 || i == 18 || i == 23 {
            #[trigger] text[i] == 0x2D
        } else {
            is_hex_byte(text[i])
        }
}

/// A byte of a timestamp: a decimal digit or one of `-`, `+`, `:`, `T`, `Z`.
pub open spec fn is_timestamp_byte(b: u8) -> bool {
    is_digit(b) || b == 0x2D || b == 0x2B || b == 0x3A || b == 0x54 || b == 0x5A
}

/// The year of a timestamp: four digits, or a plus sign and five or more
/// digits.
pub open spec fn is_year_text(year: Seq<u8>) -> bool {
    ||| year.len() == 4 && all_digits(year)
    ||| year.len() >= 6 && year[0] == 0x2B && all_digits(year.subrange(1, year.len() as int))
}

/// A timestamp of the form `YYYY-MM-DDTHH:MM:SSZ`: after the year stand
/// month, day, hour, minute and second with two digits each, between the
/// separators `-`, `-`, `T`, `:`, `:`, and a `Z` at the end.
pub open spec fn is_timestamp(text: Seq<u8>) -> bool {
    let n = text.len() as int;
    &&& n >= 20
    &&& forall|i: int| 0 <= i < n ==> is_timestamp_byte(#[trigger] text[i])
    &&& is_year_text(text.subrange(0, n - 16))
    &&& text[n - 16] == 0x2D && is_digit(text[n - 15]) && is_digit(text[n - 14])
    &&& text[n - 13] == 0x2D && is_digit(text[n - 12]) && is_digit(text[n - 11])
    &&& text[n - 10] == 0x54 && is_digit(text[n - 9]) && is_digit(text[n - 8])
    &&& text[n - 7] == 0x3A && is_digit(text[n - 6]) && is_digit(text[n - 5])
    &&& text[n - 4] == 0x3A && is_digit(text[n - 3]) && is_digit(text[n - 2])
    &&& text[n - 1] == 0x5A
}

/// The format of `WARC-Date`: `YYYY-MM-DDTHH:MM:SSZ`.
pub open spec fn date_format() -> Seq<char> {
    "%Y-%m-%dT%H:%M:%SZ"@
}

/// `uuid`'s `Uuid::new_v4`, written by its `Display`: the hyphenated form
/// in lower case. The value is random, so that only its shape is claimed: 36
/// bytes, hyphens at four fixed places and lower-case hexadecimal digits at
/// the others. The call fails only where the system gives no random bytes.
#[verifier::external_body]
pub(crate) fn random_uuid() -> (text: Vec<u8>)
    ensures
        is_uuid_text(text@),
{
    Uuid::new_v4().to_string().into_bytes()
}

/// `chrono`'s `Utc::now`, written by `DateTime::format` in the format of
/// `WARC-Date`. The value depends on the clock, so that only the shape that
/// this format gives is claimed: the year with four digits, or with a plus
/// sign and more digits, then the other fields with two digits each between
/// the separators of the format. The call fails only where the clock stands
/// before 1970 or beyond the years that `chrono` counts.
#[verifier::external_body]
pub(crate) fn utc_now(format: &str) -> (text: Vec<u8>)
    requires
        format@ == date_format(),
    ensures
        is_timestamp(text@),
{
    Utc::now().format(format).to_string().into_bytes()
}

} // verus!
