//! Percent-decoding of URL bytes. The decoding itself is done by outside
//! crates; the exact byte-level meaning is stated here and relied upon.

use vstd::prelude::*;

verus! {

/// `%`, the escape byte.
pub const PERCENT: u8 = 37;

pub open spec fn is_hex_digit(b: u8) -> bool {
    (48 <= b && b <= 57) || (65 <= b && b <= 70) || (97 <= b && b <= 102)
}

pub open spec fn hex_val(b: u8) -> int {
    if 48 <= b && b <= 57 {
        b - 48
    } else if 65 <= b && b <= 70 {
        b - 55
    } else {
        b - 87
    }
}

/// The bytes with every `%` followed by two hexadecimal digits decoded to
/// the byte those digits name, and everything else kept literally.
pub open spec fn percent_decoded(s: Seq<u8>) -> Seq<u8>
    decreases s.len(),
{
    if s.len() == 0 {
        Seq::<u8>::empty()
    } else if s[0] == PERCENT && s.len() >= 3 && is_hex_digit(s[1]) && is_hex_digit(s[2]) {
        seq![(16 * hex_val(s[1]) + hex_val(s[2])) as u8] + percent_decoded(s.skip(3))
    } else {
        seq![s[0]] + percent_decoded(s.skip(1))
    }
}

/// Relies on percent_encoding::percent_decode: any sequence of `%` followed
/// by two hexadecimal digits is decoded to that byte, and every other byte
/// is passed through unchanged.
#[verifier::external_body]
pub fn percent_decode_bytes(v: &Vec<u8>) -> (r: Vec<u8>)
    ensures
        r@ == percent_decoded(v@),
{
    percent_encoding::percent_decode(v.as_slice()).collect()
}

/// Relies on urlencoding::decode_binary: the same byte-level decoding (a
/// `%` not followed by two hexadecimal digits stays literal, and `+` is
/// preserved, not turned into a space).
#[verifier::external_body]
pub fn url_decode_bytes(v: &Vec<u8>) -> (r: Vec<u8>)
    ensures
        r@ == percent_decoded(v@),
{
    urlencoding::decode_binary(v.as_slice()).into_owned()
}

} // verus!
