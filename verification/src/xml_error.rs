//! Errors of the XML decoders.

use vstd::prelude::*;
use crate::numbers::{byte_hex_spec, decimal_spec, hex_spec, push_byte_hex, push_radix_digits};
use crate::text::{chars_of, string_of};
use crate::unicode::char_from_u32;

verus! {

/// Why a document could not be decoded.
#[derive(Debug, Clone, Copy, PartialEq, Eq)]
pub enum XmlDecodeError {
    /// The bytes do not start with the Android binary XML magic `ABX\0`.
    MissingMagic,
    /// A read went past the end of the binary document.
    UnexpectedEnd,
    /// An offset into the binary document does not fit in `usize`.
    OffsetOverflow,
    /// A token whose command (its low four bits) is not known.
    UnsupportedToken(u8),
    /// A value whose type (the high four bits of its token) is not known.
    UnsupportedType(u8),
    /// A reference to an interned string that was never defined.
    InvalidStringPoolIndex(u16),
    /// A string that is neither UTF-8 nor Java's modified UTF-8.
    InvalidModifiedUtf8,
    /// An entity reference that is neither predefined nor numeric.
    UnknownEntity,
    /// A numeric entity reference whose number does not parse as a `u32`.
    InvalidEntityNumber,
    /// A numeric entity reference whose number is not a Unicode scalar value.
    InvalidEntityCodePoint(u32),
    /// Text XML with a UTF-8 byte order mark that is not valid UTF-8.
    InvalidUtf8,
    /// UTF-16 text XML with an odd number of bytes.
    OddUtf16Length,
    /// UTF-16 text XML with an unpaired surrogate.
    InvalidUtf16,
}

/// `{:04X}` of a code point: upper-case hexadecimal digits, at least four.
pub open spec fn code_point_hex_spec(cp: u32) -> Seq<char> {
    let h = to_ascii_upper_spec(hex_spec(cp as nat));
    if h.len() < 4 {
        Seq::new((4 - h.len()) as nat, |i: int| '0') + h
    } else {
        h
    }
}

/// `s` with every ASCII letter in upper case.
pub open spec fn to_ascii_upper_spec(s: Seq<char>) -> Seq<char> {
    s.map_values(|c: char| if 'a' <= c <= 'z' { ((c as u32) - 32) as char } else { c })
}

impl XmlDecodeError {
    /// The sentence that `message` returns.
    pub open spec fn message_spec(&self) -> Seq<char> {
        match self {
            XmlDecodeError::MissingMagic => "missing Android binary XML magic"@,
            XmlDecodeError::UnexpectedEnd => "unexpected end of Android binary XML"@,
            XmlDecodeError::OffsetOverflow => "Android binary XML offset overflow"@,
            XmlDecodeError::UnsupportedToken(t) => "unsupported Android binary XML token "@ + decimal_spec(
                *t as nat,
            ),
            XmlDecodeError::UnsupportedType(t) => "unsupported Android binary XML type 0x"@ + byte_hex_spec(
                *t,
            ),
            XmlDecodeError::InvalidStringPoolIndex(i) => "invalid Android binary XML string pool index "@
                + decimal_spec(*i as nat),
            XmlDecodeError::InvalidModifiedUtf8 => "decode modified UTF-8 XML"@,
            XmlDecodeError::UnknownEntity => "unknown XML entity reference"@,
            XmlDecodeError::InvalidEntityNumber => "decode numeric XML entity reference"@,
            XmlDecodeError::InvalidEntityCodePoint(cp) => "invalid XML entity code point U+"@
                + code_point_hex_spec(*cp),
            XmlDecodeError::InvalidUtf8 => "decode UTF-8 XML with BOM"@,
            XmlDecodeError::OddUtf16Length => "UTF-16 XML byte length is not even"@,
            XmlDecodeError::InvalidUtf16 => "decode UTF-16 XML"@,
        }
    }

    /// A sentence that describes the error.
    pub fn message(&self) -> (r: String)
        ensures
            r@ == self.message_spec(),
    {
        let text = match self {
            XmlDecodeError::MissingMagic => "missing Android binary XML magic",
            XmlDecodeError::UnexpectedEnd => "unexpected end of Android binary XML",
            XmlDecodeError::OffsetOverflow => "Android binary XML offset overflow",
            XmlDecodeError::UnsupportedToken(_) => "unsupported Android binary XML token ",
            XmlDecodeError::UnsupportedType(_) => "unsupported Android binary XML type 0x",
            XmlDecodeError::InvalidStringPoolIndex(_) => "invalid Android binary XML string pool index ",
            XmlDecodeError::InvalidModifiedUtf8 => "decode modified UTF-8 XML",
            XmlDecodeError::UnknownEntity => "unknown XML entity reference",
            XmlDecodeError::InvalidEntityNumber => "decode numeric XML entity reference",
            XmlDecodeError::InvalidEntityCodePoint(_) => "invalid XML entity code point U+",
            XmlDecodeError::InvalidUtf8 => "decode UTF-8 XML with BOM",
            XmlDecodeError::OddUtf16Length => "UTF-16 XML byte length is not even",
            XmlDecodeError::InvalidUtf16 => "decode UTF-16 XML",
        };
        let mut out = chars_of(text);
        match self {
            XmlDecodeError::UnsupportedToken(t) => {
                push_radix_digits(&mut out, *t as u64, 10);
            },
            XmlDecodeError::UnsupportedType(t) => {
                push_byte_hex(&mut out, *t);
            },
            XmlDecodeError::InvalidStringPoolIndex(i) => {
                push_radix_digits(&mut out, *i as u64, 10);
            },
            XmlDecodeError::InvalidEntityCodePoint(cp) => {
                push_code_point_hex(&mut out, *cp);
            },
            _ => {},
        }
        string_of(out.as_slice())
    }
}

/// Appends `{:04X}` of `cp`.
fn push_code_point_hex(out: &mut Vec<char>, cp: u32)
    ensures
        final(out)@ == old(out)@ + code_point_hex_spec(cp),
{
    let mut digits: Vec<char> = Vec::new();
    push_radix_digits(&mut digits, cp as u64, 16);
    let ghost h = to_ascii_upper_spec(hex_spec(cp as nat));
    let n = digits.len();
    let mut pad: usize = n;
    while pad < 4
        invariant
            n == digits@.len(),
            n <= pad <= 4 || (n > 4 && pad == n),
            out@ == old(out)@ + Seq::new((pad - n) as nat, |i: int| '0'),
        decreases 4 - pad,
    {
        out.push('0');
        pad = pad + 1;
        assert(out@ =~= old(out)@ + Seq::new((pad - n) as nat, |i: int| '0'));
    }
    let ghost padded = out@;
    let mut i: usize = 0;
    while i < n
        invariant
            n == digits@.len(),
            digits@ == hex_spec(cp as nat),
            i <= n,
            out@ == padded + to_ascii_upper_spec(digits@).take(i as int),
        decreases n - i,
    {
        let c = digits[i];
        let u = if 'a' <= c && c <= 'z' {
            char_from_ascii_upper(c)
        } else {
            c
        };
        out.push(u);
        i = i + 1;
        assert(out@ =~= padded + to_ascii_upper_spec(digits@).take(i as int));
    }
    assert(to_ascii_upper_spec(digits@).take(n as int) =~= h);
    if n < 4 {
        assert(out@ =~= old(out)@ + code_point_hex_spec(cp));
    } else {
        assert(Seq::new((pad - n) as nat, |i: int| '0') =~= Seq::<char>::empty());
        assert(out@ =~= old(out)@ + code_point_hex_spec(cp));
    }
}

/// The upper-case form of a lower-case ASCII letter.
fn char_from_ascii_upper(c: char) -> (r: char)
    requires
        'a' <= c <= 'z',
    ensures
        r == ((c as u32) - 32) as char,
{
    let v = (c as u32) - 32;
    match char_from_u32(v) {
        Some(r) => r,
        None => c,
    }
}

} // verus!
