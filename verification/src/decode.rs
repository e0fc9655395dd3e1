//! Percent-decoding of href values, and the lossy recovery of text from
//! bytes that need not be valid UTF-8.

use vstd::prelude::*;

verus! {

/// The byte `%`.
pub const PERCENT: u8 = 37;

/// The value of an ASCII hex digit, or `None` for any other byte.
pub open spec fn hex_val(b: u8) -> Option<u8> {
    if 48 <= b <= 57 {
        Some((b - 48) as u8)
    } else if 65 <= b <= 70 {
        Some((b - 55) as u8)
    } else if 97 <= b <= 102 {
        Some((b - 87) as u8)
    } else {
        None
    }
}

/// Whether `s` opens with a `%XY` triplet, `X` and `Y` hex digits.
pub open spec fn opens_triplet(s: Seq<u8>) -> bool {
    s.len() >= 3 && s[0] == PERCENT && hex_val(s[1]) is Some && hex_val(s[2]) is Some
}

/// The byte a leading `%XY` triplet names.
pub open spec fn triplet_byte(s: Seq<u8>) -> u8 {
    (hex_val(s[1]).unwrap() * 16 + hex_val(s[2]).unwrap()) as u8
}

/// Standard percent-decoding: each `%XY` triplet with two hex digits
/// becomes the byte it names; every other byte, a lone `%` included, passes
/// through unchanged.
pub open spec fn percent_decoded(s: Seq<u8>) -> Seq<u8>
    decreases s.len(),
{
    if s.len() == 0 {
        seq![]
    } else if opens_triplet(s) {
        seq![triplet_byte(s)] + percent_decoded(s.skip(3))
    } else {
        seq![s[0]] + percent_decoded(s.skip(1))
    }
}

/// Relies on `percent_encoding::percent_decode`: it replaces each `%XY`
/// triplet (`X`, `Y` hex digits) by the byte the digits name and passes any
/// other byte through unchanged, a `%` that opens no such triplet included.
#[verifier::external_body]
fn percent_decode_bytes(b: &Vec<u8>) -> (r: Vec<u8>)
    ensures
        r@ == percent_decoded(b@),
{
    percent_encoding::percent_decode(b).collect()
}

/// The text that lossy UTF-8 recovery reads out of arbitrary bytes: valid
/// sequences decode as usual and each invalid sequence becomes replacement
/// characters, as the documentation of `String::from_utf8_lossy` lays down.
pub uninterp spec fn lossy_utf8(b: Seq<u8>) -> Seq<char>;

/// Relies on `String::from_utf8_lossy`: the recovered text depends on the
/// bytes alone, and never fails.
#[verifier::external_body]
fn lossy_string(b: &Vec<u8>) -> (r: String)
    ensures
        r@ == lossy_utf8(b@),
{
    String::from_utf8_lossy(b).into_owned()
}

/// Relies on `str::chars`: it yields exactly the characters of the string.
#[verifier::external_body]
pub(crate) fn chars_of(s: &str) -> (r: Vec<char>)
    ensures
        r@ == s@,
{
    s.chars().collect()
}

/// The decoded form of a raw href value: percent-decode the bytes, then
/// recover text from them lossily.
pub open spec fn decoded_href(b: Seq<u8>) -> Seq<char> {
    lossy_utf8(percent_decoded(b))
}

/// Percent-decodes an href value and recovers its text.
pub fn decode_href(b: &Vec<u8>) -> (r: Vec<char>)
    ensures
        r@ == decoded_href(b@),
{
    let raw = percent_decode_bytes(b);
    let s = lossy_string(&raw);
    chars_of(s.as_str())
}

} // verus!
