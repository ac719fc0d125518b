//! Text decoders that the library takes from std and from the `cesu8` crate.
//!
//! Each function here makes one call. Its contract states what the called
//! function returns, or, for `cesu8`, ties the result to a name for it.

use vstd::prelude::*;
use vstd::utf8::{decode_utf8, valid_utf8};

verus! {

/// The characters that `String::from_utf16` decodes from `units`, or `None`
/// when the units hold an unpaired surrogate.
pub open spec fn decode_utf16_spec(units: Seq<u16>) -> Option<Seq<char>>
    decreases units.len(),
{
    if units.len() == 0 {
        Some(Seq::<char>::empty())
    } else if units[0] < 0xD800 || units[0] > 0xDFFF {
        match decode_utf16_spec(units.drop_first()) {
            Some(rest) => Some(seq![units[0] as char] + rest),
            None => None,
        }
    } else if units[0] <= 0xDBFF && units.len() >= 2 && 0xDC00 <= units[1] <= 0xDFFF {
        let code = 0x10000 + (units[0] - 0xD800) * 0x400 + (units[1] - 0xDC00);
        match decode_utf16_spec(units.subrange(2, units.len() as int)) {
            Some(rest) => Some(seq![code as char] + rest),
            None => None,
        }
    } else {
        None
    }
}

/// What `cesu8::from_java_cesu8` decodes from `bytes` (Java's modified
/// UTF-8), or `None` when it reports an error.
pub uninterp spec fn java_cesu8_decoded(bytes: Seq<u8>) -> Option<Seq<char>>;

/// Whether `v` is a Unicode scalar value, that is a value of `char`.
pub open spec fn is_scalar_value(v: u32) -> bool {
    v <= 0xD7FF || (0xE000 <= v && v <= 0x10FFFF)
}

/// `std::str::from_utf8`: the string whose UTF-8 encoding is `bytes`, or
/// `None` when `bytes` is not valid UTF-8. The contract states this over
/// vstd's `valid_utf8` and `decode_utf8`.
#[verifier::external_body]
pub(crate) fn utf8_str(bytes: &[u8]) -> (r: Option<&str>)
    ensures
        r is Some <==> valid_utf8(bytes@),
        r matches Some(s) ==> s@ == decode_utf8(bytes@),
{
    std::str::from_utf8(bytes).ok()
}

/// `cesu8::from_java_cesu8`: decodes Java's modified UTF-8. The contract
/// only ties the result to the name `java_cesu8_decoded` of the bytes; what
/// the crate accepts and how it decodes is left to the crate.
#[verifier::external_body]
pub(crate) fn java_cesu8_string(bytes: &[u8]) -> (r: Option<String>)
    ensures
        match r {
            Some(s) => java_cesu8_decoded(bytes@) == Some(s@),
            None => java_cesu8_decoded(bytes@) is None,
        },
{
    match cesu8::from_java_cesu8(bytes) {
        Ok(text) => Some(text.into_owned()),
        Err(_) => None,
    }
}

/// `String::from_utf16`: decodes UTF-16 code units, failing on an unpaired
/// surrogate, as its documentation states.
#[verifier::external_body]
pub(crate) fn utf16_string(units: &[u16]) -> (r: Option<String>)
    ensures
        match r {
            Some(s) => decode_utf16_spec(units@) == Some(s@),
            None => decode_utf16_spec(units@) is None,
        },
{
    String::from_utf16(units).ok()
}

/// `char::from_u32`: the character with code point `v`, when `v` is a Unicode
/// scalar value.
#[verifier::external_body]
pub(crate) fn char_from_u32(v: u32) -> (r: Option<char>)
    ensures
        r is Some <==> is_scalar_value(v),
        r matches Some(c) ==> c as u32 == v && c == v as char,
{
    char::from_u32(v)
}

} // verus!
