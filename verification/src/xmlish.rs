//! Decoding of the files that Android keeps its package settings in, which
//! are either Android binary XML (ABX) or text XML in UTF-8, UTF-16 or Java's
//! modified UTF-8, and the lenient parsing of boolean and integer attribute
//! values.

use vstd::prelude::*;
use vstd::utf8::{decode_utf8, valid_utf8};
use crate::abx::{decode_abx, decode_abx_spec, has_abx_magic, starts_with_abx_magic};
use crate::markup::{DocUnit, FloatValue, TextUnit, text_units};
use crate::numbers::{
    decimal_spec,
    hex_spec,
    int_decimal_spec,
    lemma_digits_parse_i64,
    lemma_radix_digits_value,
    lemma_upper_digits_value,
    parse_i64_radix,
    parse_i64_spec,
};
use crate::xml_error::to_ascii_upper_spec;
use crate::text::{
    is_white_space_spec,
    lemma_trim_idempotent,
    lemma_trim_unpadded,
    chars_eq, eq_ignore_ascii_case, eq_ignore_ascii_case_spec, push_char, starts_with,
    starts_with_spec, string_of, trim_spec, trim_str,
};
use crate::unicode::{
    decode_utf16_spec, java_cesu8_decoded, java_cesu8_string, utf16_string, utf8_str,
};
use crate::xml_error::XmlDecodeError;

verus! {

/// The text that `bytes` holds in UTF-8, or else in Java's modified UTF-8.
pub open spec fn modified_utf8_spec(bytes: Seq<u8>) -> Option<Seq<char>> {
    if valid_utf8(bytes) {
        Some(decode_utf8(bytes))
    } else {
        java_cesu8_decoded(bytes)
    }
}

/// The UTF-16 code unit at `2 * i` in `bytes`, little- or big-endian.
pub open spec fn utf16_unit_spec(bytes: Seq<u8>, i: int, little_endian: bool) -> u16 {
    if little_endian {
        (bytes[2 * i] as int + bytes[2 * i + 1] as int * 256) as u16
    } else {
        (bytes[2 * i] as int * 256 + bytes[2 * i + 1] as int) as u16
    }
}

/// The UTF-16 code units of `bytes`, two bytes each.
pub open spec fn utf16_units_spec(bytes: Seq<u8>, little_endian: bool) -> Seq<u16> {
    Seq::new(bytes.len() / 2, |i: int| utf16_unit_spec(bytes, i, little_endian))
}

/// What `decode_utf16_xml` returns for `bytes`.
pub open spec fn utf16_xml_spec(bytes: Seq<u8>, little_endian: bool) -> Result<
    Seq<char>,
    XmlDecodeError,
> {
    if bytes.len() % 2 != 0 {
        Err(XmlDecodeError::OddUtf16Length)
    } else {
        match decode_utf16_spec(utf16_units_spec(bytes, little_endian)) {
            Some(s) => Ok(s),
            None => Err(XmlDecodeError::InvalidUtf16),
        }
    }
}

/// The byte order that the first four bytes of UTF-16 text XML without a byte
/// order mark show: `<` followed by a zero byte (little-endian) or a zero
/// byte followed by `<` (big-endian).
pub open spec fn sniff_utf16_spec(bytes: Seq<u8>) -> Option<bool> {
    if bytes.len() < 4 {
        None
    } else if bytes[0] == 0x3C && bytes[1] == 0 && bytes[3] == 0 {
        Some(true)
    } else if bytes[0] == 0 && bytes[1] == 0x3C && bytes[2] == 0 {
        Some(false)
    } else {
        None
    }
}

/// The UTF-8 byte order mark.
pub open spec fn utf8_bom() -> Seq<u8> {
    seq![0xEFu8, 0xBBu8, 0xBFu8]
}

/// What text XML decodes to: after a UTF-8 byte order mark, UTF-8; after a
/// UTF-16 byte order mark, UTF-16 in its byte order; UTF-16 recognised by its
/// first characters; otherwise UTF-8, or Java's modified UTF-8.
pub open spec fn text_xml_spec(bytes: Seq<u8>) -> Result<Seq<char>, XmlDecodeError> {
    if bytes.len() >= 3 && bytes.take(3) == utf8_bom() {
        let rest = bytes.skip(3);
        if valid_utf8(rest) {
            Ok(decode_utf8(rest))
        } else {
            Err(XmlDecodeError::InvalidUtf8)
        }
    } else if bytes.len() >= 2 && bytes[0] == 0xFF && bytes[1] == 0xFE {
        utf16_xml_spec(bytes.skip(2), true)
    } else if bytes.len() >= 2 && bytes[0] == 0xFE && bytes[1] == 0xFF {
        utf16_xml_spec(bytes.skip(2), false)
    } else if sniff_utf16_spec(bytes) is Some {
        utf16_xml_spec(bytes, sniff_utf16_spec(bytes).unwrap())
    } else {
        match modified_utf8_spec(bytes) {
            Some(s) => Ok(s),
            None => Err(XmlDecodeError::InvalidModifiedUtf8),
        }
    }
}

/// What a file of Android package settings decodes to, as units: an ABX
/// document when the bytes start with the ABX magic, text XML otherwise.
pub open spec fn xmlish_units_spec(bytes: Seq<u8>) -> Result<Seq<DocUnit>, XmlDecodeError> {
    if has_abx_magic(bytes) {
        decode_abx_spec(bytes)
    } else {
        match text_xml_spec(bytes) {
            Ok(s) => Ok(text_units(s)),
            Err(e) => Err(e),
        }
    }
}

/// The text of `units` when each floating-point unit `i` is written as
/// `floats[i]`.
pub open spec fn rendered_spec(units: Seq<DocUnit>, floats: Seq<Seq<char>>) -> Seq<char>
    decreases units.len(),
{
    if units.len() == 0 {
        Seq::<char>::empty()
    } else {
        rendered_spec(units.drop_last(), floats) + match units.last() {
            TextUnit::Char(c) => seq![c],
            TextUnit::Float(_) => floats[units.len() - 1],
        }
    }
}

/// Decodes UTF-8, or else Java's modified UTF-8 (which writes NUL as two
/// bytes and supplementary characters as surrogate pairs).
pub fn decode_modified_utf8(bytes: &[u8]) -> (r: Result<String, XmlDecodeError>)
    ensures
        match r {
            Ok(s) => modified_utf8_spec(bytes@) == Some(s@),
            Err(e) => modified_utf8_spec(bytes@) is None && e == XmlDecodeError::InvalidModifiedUtf8,
        },
{
    if let Some(text) = utf8_str(bytes) {
        return Ok(text.to_owned());
    }
    match java_cesu8_string(bytes) {
        Some(s) => Ok(s),
        None => Err(XmlDecodeError::InvalidModifiedUtf8),
    }
}

/// Whether the first four bytes show UTF-16 text XML without a byte order
/// mark, and in which byte order (`true` for little-endian).
pub fn sniff_utf16_xml_without_bom(bytes: &[u8]) -> (r: Option<bool>)
    ensures
        r == sniff_utf16_spec(bytes@),
{
    if bytes.len() < 4 {
        return None;
    }
    if bytes[0] == 0x3C && bytes[1] == 0 && bytes[3] == 0 {
        Some(true)
    } else if bytes[0] == 0 && bytes[1] == 0x3C && bytes[2] == 0 {
        Some(false)
    } else {
        None
    }
}

/// Decodes UTF-16 text XML in the given byte order.
pub fn decode_utf16_xml(bytes: &[u8], little_endian: bool) -> (r: Result<String, XmlDecodeError>)
    ensures
        match r {
            Ok(s) => utf16_xml_spec(bytes@, little_endian) == Ok::<Seq<char>, XmlDecodeError>(s@),
            Err(e) => utf16_xml_spec(bytes@, little_endian) == Err::<Seq<char>, XmlDecodeError>(e),
        },
{
    if bytes.len() % 2 != 0 {
        return Err(XmlDecodeError::OddUtf16Length);
    }
    let n = bytes.len();
    let count = n / 2;
    let mut units: Vec<u16> = Vec::new();
    let mut i: usize = 0;
    while i < count
        invariant
            n == bytes@.len(),
            count == bytes@.len() / 2,
            bytes@.len() % 2 == 0,
            i <= count,
            units@.len() == i,
            forall|k: int| 0 <= k < i ==> units@[k] == utf16_unit_spec(bytes@, k, little_endian),
        decreases count - i,
    {
        assert(2 * i + 1 < bytes@.len()) by (nonlinear_arith)
            requires
                i < count,
                count == bytes@.len() / 2,
        ;
        let lo = bytes[2 * i];
        let hi = bytes[2 * i + 1];
        let unit: u16 = if little_endian {
            (lo as u16) + (hi as u16) * 256
        } else {
            (lo as u16) * 256 + (hi as u16)
        };
        units.push(unit);
        i = i + 1;
    }
    assert(units@ =~= utf16_units_spec(bytes@, little_endian));
    match utf16_string(units.as_slice()) {
        Some(s) => Ok(s),
        None => Err(XmlDecodeError::InvalidUtf16),
    }
}

/// Decodes text XML: the byte order mark, when there is one, decides the
/// encoding; else UTF-16 is recognised by its first characters; else the
/// bytes are UTF-8, or Java's modified UTF-8.
pub fn decode_text_xml(bytes: &[u8]) -> (r: Result<String, XmlDecodeError>)
    ensures
        match r {
            Ok(s) => text_xml_spec(bytes@) == Ok::<Seq<char>, XmlDecodeError>(s@),
            Err(e) => text_xml_spec(bytes@) == Err::<Seq<char>, XmlDecodeError>(e),
        },
{
    let n = bytes.len();
    if n >= 3 && bytes[0] == 0xEF && bytes[1] == 0xBB && bytes[2] == 0xBF {
        assert(bytes@.take(3) =~= utf8_bom());
        let rest = &bytes[3..n];
        assert(rest@ =~= bytes@.skip(3));
        return match utf8_str(rest) {
            Some(text) => Ok(text.to_owned()),
            None => Err(XmlDecodeError::InvalidUtf8),
        };
    }
    if n >= 3 {
        assert(bytes@.take(3) != utf8_bom() ==> !(bytes@[0] == 0xEF && bytes@[1] == 0xBB
            && bytes@[2] == 0xBF)) by {
            if bytes@[0] == 0xEF && bytes@[1] == 0xBB && bytes@[2] == 0xBF {
                assert(bytes@.take(3) =~= utf8_bom());
            }
        }
    }
    if n >= 2 && bytes[0] == 0xFF && bytes[1] == 0xFE {
        let rest = &bytes[2..n];
        assert(rest@ =~= bytes@.skip(2));
        return decode_utf16_xml(rest, true);
    }
    if n >= 2 && bytes[0] == 0xFE && bytes[1] == 0xFF {
        let rest = &bytes[2..n];
        assert(rest@ =~= bytes@.skip(2));
        return decode_utf16_xml(rest, false);
    }
    if let Some(little_endian) = sniff_utf16_xml_without_bom(bytes) {
        return decode_utf16_xml(bytes, little_endian);
    }
    match utf8_str(bytes) {
        Some(text) => Ok(text.to_owned()),
        None => decode_modified_utf8(bytes),
    }
}

/// Writes `units`, each floating-point value in the form that `render`
/// gives it. The text is taken as `render` returns it: the shortest decimal
/// form of a float holds no character that XML escapes.
pub fn render_units<F: Fn(FloatValue) -> String>(units: &[DocUnit], render: &F) -> (r: String)
    requires
        forall|v: FloatValue| call_requires(*render, (v,)),
    ensures
        exists|floats: Seq<Seq<char>>|
            {
                &&& floats.len() == units@.len()
                &&& forall|i: int|
                    0 <= i < units@.len() ==> (#[trigger] units@[i] matches TextUnit::Float(v)
                        ==> exists|s: String| call_ensures(*render, (v,), s) && s@ == floats[i])
                &&& r@ == rendered_spec(units@, floats)
            },
{
    let mut out = String::new();
    let ghost mut floats: Seq<Seq<char>> = Seq::empty();
    let mut i: usize = 0;
    assert(units@.take(0) =~= Seq::<DocUnit>::empty());
    while i < units.len()
        invariant
            i <= units@.len(),
            forall|v: FloatValue| call_requires(*render, (v,)),
            floats.len() == i,
            forall|k: int|
                0 <= k < i ==> (#[trigger] units@[k] matches TextUnit::Float(v) ==> exists|
                    s: String,
                | call_ensures(*render, (v,), s) && s@ == floats[k]),
            out@ == rendered_spec(units@.take(i as int), floats),
        decreases units.len() - i,
    {
        let ghost prev = units@.take(i as int);
        assert(units@.take(i + 1).drop_last() =~= prev);
        proof {
            lemma_rendered_extend(prev, floats, floats.push(Seq::<char>::empty()));
        }
        match units[i] {
            TextUnit::Char(c) => {
                push_char(&mut out, c);
                proof {
                    floats = floats.push(Seq::<char>::empty());
                }
            },
            TextUnit::Float(v) => {
                let s = render(v);
                let ghost sv = s@;
                proof {
                    lemma_rendered_extend(prev, floats, floats.push(sv));
                    floats = floats.push(sv);
                }
                out.append(s.as_str());
            },
        }
        i = i + 1;
    }
    assert(units@.take(units@.len() as int) =~= units@);
    out
}

/// Rendering a prefix depends only on the renderings of its own floats.
proof fn lemma_rendered_extend(units: Seq<DocUnit>, floats: Seq<Seq<char>>, more: Seq<Seq<char>>)
    requires
        floats.len() >= units.len(),
        more.len() >= units.len(),
        forall|k: int| 0 <= k < units.len() ==> floats[k] == more[k],
    ensures
        rendered_spec(units, floats) == rendered_spec(units, more),
    decreases units.len(),
{
    if units.len() > 0 {
        lemma_rendered_extend(units.drop_last(), floats, more);
    }
}

/// Decodes a file of Android package settings to text XML. Android binary
/// XML (recognised by its magic `ABX\0`) is rewritten as the text XML it
/// encodes; text XML is decoded from its encoding. `render` writes the
/// floating-point values of binary XML (Android's own decoder writes a
/// float's shortest decimal form).
pub fn decode_xmlish_bytes<F: Fn(FloatValue) -> String>(bytes: &[u8], render: &F) -> (r: Result<
    String,
    XmlDecodeError,
>)
    requires
        forall|v: FloatValue| call_requires(*render, (v,)),
    ensures
        match r {
            Ok(s) => exists|units: Seq<DocUnit>, floats: Seq<Seq<char>>|
                {
                    &&& xmlish_units_spec(bytes@) == Ok::<Seq<DocUnit>, XmlDecodeError>(units)
                    &&& floats.len() == units.len()
                    &&& forall|i: int|
                        0 <= i < units.len() ==> (#[trigger] units[i] matches TextUnit::Float(v)
                            ==> exists|t: String| call_ensures(*render, (v,), t) && t@ == floats[i])
                    &&& s@ == rendered_spec(units, floats)
                },
            Err(e) => xmlish_units_spec(bytes@) == Err::<Seq<DocUnit>, XmlDecodeError>(e),
        },
{
    if starts_with_abx_magic(bytes) {
        return match decode_abx(bytes) {
            Ok(units) => {
                let s = render_units(units.as_slice(), render);
                Ok(s)
            },
            Err(e) => Err(e),
        };
    }
    match decode_text_xml(bytes) {
        Ok(s) => {
            proof {
                lemma_rendered_text(s@);
            }
            Ok(s)
        },
        Err(e) => Err(e),
    }
}

/// Text without floating-point values renders to itself.
pub proof fn lemma_rendered_text(s: Seq<char>)
    ensures
        rendered_spec(text_units(s), Seq::new(s.len(), |i: int| Seq::<char>::empty())) == s,
    decreases s.len(),
{
    let floats = Seq::new(s.len(), |i: int| Seq::<char>::empty());
    if s.len() > 0 {
        lemma_rendered_text(s.drop_last());
        assert(text_units(s).drop_last() =~= text_units(s.drop_last()));
        lemma_rendered_extend(
            text_units(s.drop_last()),
            Seq::new(s.drop_last().len(), |i: int| Seq::<char>::empty()),
            floats,
        );
        assert(s.drop_last() + seq![s.last()] =~= s);
    } else {
        assert(s =~= Seq::<char>::empty());
    }
}

/// `value` spelled with different ASCII case.
pub open spec fn is_word_ic(t: Seq<char>, word: Seq<char>) -> bool {
    eq_ignore_ascii_case_spec(t, word)
}

/// The boolean that `value` spells, after trimming white space: `1`, or
/// `true`, `yes` or `on` in any ASCII case, for `true`; `0`, or `false`, `no`
/// or `off`, for `false`.
pub open spec fn parse_boolish_spec(value: Seq<char>) -> Option<bool> {
    let t = trim_spec(value);
    if t == seq!['1'] {
        Some(true)
    } else if t == seq!['0'] {
        Some(false)
    } else if is_word_ic(t, seq!['t', 'r', 'u', 'e']) || is_word_ic(t, seq!['y', 'e', 's'])
        || is_word_ic(t, seq!['o', 'n']) {
        Some(true)
    } else if is_word_ic(t, seq!['f', 'a', 'l', 's', 'e']) || is_word_ic(t, seq!['n', 'o'])
        || is_word_ic(t, seq!['o', 'f', 'f']) {
        Some(false)
    } else {
        None
    }
}

/// Whether `s` holds a hexadecimal letter (`a`-`f` or `A`-`F`).
pub open spec fn has_hex_letter(s: Seq<char>) -> bool {
    exists|i: int| 0 <= i < s.len() && (('a' <= #[trigger] s[i] <= 'f') || ('A' <= s[i] <= 'F'))
}

/// The sign and the parsed magnitude of an integer attribute value: after
/// trimming and an optional sign, `0x`/`0X` and hexadecimal digits,
/// hexadecimal digits that hold a letter, or decimal digits. The magnitude
/// is parsed as `i64::from_str_radix` does.
pub open spec fn i64ish_parts_spec(value: Seq<char>) -> Option<(bool, i64)> {
    let t = trim_spec(value);
    if t.len() == 0 {
        None
    } else {
        let negative = t[0] == '-';
        let digits = if t[0] == '-' || t[0] == '+' {
            t.drop_first()
        } else {
            t
        };
        let parsed = if starts_with_spec(digits, seq!['0', 'x']) || starts_with_spec(
            digits,
            seq!['0', 'X'],
        ) {
            parse_i64_spec(digits.subrange(2, digits.len() as int), 16)
        } else if has_hex_letter(digits) {
            parse_i64_spec(digits, 16)
        } else {
            parse_i64_spec(digits, 10)
        };
        match parsed {
            Some(v) => Some((negative, v)),
            None => None,
        }
    }
}

/// The integer that `value` denotes, leniently: decimal or hexadecimal,
/// with an optional sign.
pub open spec fn parse_i64ish_spec(value: Seq<char>) -> Option<i64> {
    match i64ish_parts_spec(value) {
        Some((negative, v)) => Some(
            if negative {
                (-(v as int)) as i64
            } else {
                v
            },
        ),
        None => None,
    }
}

/// The boolean that an attribute value spells: `1`, `true`, `yes` or `on`
/// for `true` and `0`, `false`, `no` or `off` for `false`, in any ASCII case
/// and with surrounding white space; `None` for anything else.
pub fn parse_boolish(value: &str) -> (r: Option<bool>)
    ensures
        r == parse_boolish_spec(value@),
{
    let t = trim_str(value);
    let one = ['1'];
    let zero = ['0'];
    let w_true = ['t', 'r', 'u', 'e'];
    let w_yes = ['y', 'e', 's'];
    let w_on = ['o', 'n'];
    let w_false = ['f', 'a', 'l', 's', 'e'];
    let w_no = ['n', 'o'];
    let w_off = ['o', 'f', 'f'];
    assert(one@ =~= seq!['1']);
    assert(zero@ =~= seq!['0']);
    assert(w_true@ =~= seq!['t', 'r', 'u', 'e']);
    assert(w_yes@ =~= seq!['y', 'e', 's']);
    assert(w_on@ =~= seq!['o', 'n']);
    assert(w_false@ =~= seq!['f', 'a', 'l', 's', 'e']);
    assert(w_no@ =~= seq!['n', 'o']);
    assert(w_off@ =~= seq!['o', 'f', 'f']);
    if chars_eq(t.as_slice(), one.as_slice()) {
        Some(true)
    } else if chars_eq(t.as_slice(), zero.as_slice()) {
        Some(false)
    } else if eq_ignore_ascii_case(t.as_slice(), w_true.as_slice()) || eq_ignore_ascii_case(
        t.as_slice(),
        w_yes.as_slice(),
    ) || eq_ignore_ascii_case(t.as_slice(), w_on.as_slice()) {
        Some(true)
    } else if eq_ignore_ascii_case(t.as_slice(), w_false.as_slice()) || eq_ignore_ascii_case(
        t.as_slice(),
        w_no.as_slice(),
    ) || eq_ignore_ascii_case(t.as_slice(), w_off.as_slice()) {
        Some(false)
    } else {
        None
    }
}

/// Whether `s` holds a hexadecimal letter.
fn contains_hex_letter(s: &[char]) -> (r: bool)
    ensures
        r == has_hex_letter(s@),
{
    let mut i: usize = 0;
    while i < s.len()
        invariant
            i <= s@.len(),
            forall|k: int| 0 <= k < i ==> !(('a' <= #[trigger] s@[k] <= 'f') || ('A' <= s@[k] <= 'F')),
        decreases s.len() - i,
    {
        let c = s[i];
        if (c >= 'a' && c <= 'f') || (c >= 'A' && c <= 'F') {
            assert(('a' <= s@[i as int] <= 'f') || ('A' <= s@[i as int] <= 'F'));
            return true;
        }
        i = i + 1;
    }
    false
}

/// The integer that an attribute value denotes, leniently: surrounding white
/// space is ignored; an optional sign is followed by `0x` or `0X` and
/// hexadecimal digits, by hexadecimal digits among which a letter, or by
/// decimal digits. `None` when the digits do not parse as an `i64`.
pub fn parse_i64ish(value: &str) -> (r: Option<i64>)
    requires
        i64ish_parts_spec(value@) != Some((true, i64::MIN)),
    ensures
        r == parse_i64ish_spec(value@),
{
    let t = trim_str(value);
    if t.len() == 0 {
        return None;
    }
    let negative = t[0] == '-';
    let digits: Vec<char> = if t[0] == '-' || t[0] == '+' {
        let d = crate::text::suffix_from(t.as_slice(), 1);
        assert(d@ =~= t@.drop_first());
        d
    } else {
        let d = crate::text::suffix_from(t.as_slice(), 0);
        assert(d@ =~= t@);
        d
    };
    let hex_lower = ['0', 'x'];
    let hex_upper = ['0', 'X'];
    assert(hex_lower@ =~= seq!['0', 'x']);
    assert(hex_upper@ =~= seq!['0', 'X']);
    let parsed = if starts_with(digits.as_slice(), hex_lower.as_slice()) || starts_with(
        digits.as_slice(),
        hex_upper.as_slice(),
    ) {
        parse_i64_radix(&digits.as_slice()[2..digits.len()], 16)
    } else if contains_hex_letter(digits.as_slice()) {
        parse_i64_radix(digits.as_slice(), 16)
    } else {
        parse_i64_radix(digits.as_slice(), 10)
    };
    match parsed {
        Some(v) => {
            if negative {
                Some(-v)
            } else {
                Some(v)
            }
        },
        None => None,
    }
}

/// White space around a boolean value does not change what it spells.
pub proof fn law_boolish_ignores_surrounding_space(value: Seq<char>)
    ensures
        parse_boolish_spec(trim_spec(value)) == parse_boolish_spec(value),
{
    lemma_trim_idempotent(value);
}

/// The decimal form of an `i64` reads back, also with white space around
/// it; the hexadecimal form of a non-negative one reads back after `0x`,
/// and its negation after `-0X` in upper case.
pub proof fn law_i64ish_round_trip(n: i64)
    ensures
        n != i64::MIN ==> parse_i64ish_spec(int_decimal_spec(n as int)) == Some(n),
        n != i64::MIN ==> parse_i64ish_spec(seq![' '] + int_decimal_spec(n as int) + seq!['\n']) == Some(n),
        n >= 0 ==> parse_i64ish_spec(seq!['0', 'x'] + hex_spec(n as nat)) == Some(n),
        n >= 0 ==> parse_i64ish_spec(seq!['-', '0', 'X'] + to_ascii_upper_spec(hex_spec(n as nat)))
            == Some((-n) as i64),
{
    if n != i64::MIN {
        let m: nat = if n < 0 { (-n) as nat } else { n as nat };
        let d = decimal_spec(m);
        lemma_radix_digits_value(m, 10);
        assert(!has_hex_letter(d)) by {
            if has_hex_letter(d) {
                let i = choose|i: int| 0 <= i < d.len() && (('a' <= #[trigger] d[i] <= 'f') || ('A' <= d[i] <= 'F'));
                assert('0' <= d[i] <= '9');
            }
        }
        if d.len() >= 2 {
            assert(d.subrange(0, 2)[1] == d[1]);
            assert('0' <= d[1] <= '9');
        }
        assert('0' <= d[0] <= '9');
        lemma_digits_parse_i64(d, 10, m);
        let s = int_decimal_spec(n as int);
        if n < 0 {
            assert(s == seq!['-'] + d);
            assert(s.drop_first() =~= d);
            assert(s.last() == d.last());
        } else {
            assert(s == d);
        }
        assert('0' <= s.last() <= '9');
        lemma_trim_unpadded(s, ' ', '\n');
    }
    if n >= 0 {
        let h = hex_spec(n as nat);
        lemma_radix_digits_value(n as nat, 16);
        lemma_digits_parse_i64(h, 16, n as nat);
        let s = seq!['0', 'x'] + h;
        assert(s.subrange(0, 2) =~= seq!['0', 'x']);
        assert(s.subrange(2, s.len() as int) =~= h);
        assert(s.last() == h.last());
        lemma_trim_unpadded(s, ' ', ' ');
        let u = to_ascii_upper_spec(h);
        lemma_upper_digits_value(h, 16);
        assert(u.len() == h.len());
        assert(u[0] != '+' && u[0] != '-');
        lemma_digits_parse_i64(u, 16, n as nat);
        let t = seq!['-', '0', 'X'] + u;
        assert(t.drop_first() =~= seq!['0', 'X'] + u);
        assert((seq!['0', 'X'] + u).subrange(0, 2) =~= seq!['0', 'X']);
        assert((seq!['0', 'X'] + u).subrange(0, 2)[1] == 'X');
        assert((seq!['0', 'X'] + u).subrange(2, (u.len() + 2) as int) =~= u);
        assert(t.last() == u.last());
        assert(!is_white_space_spec(u.last()));
        lemma_trim_unpadded(t, ' ', ' ');
    }
}

} // verus!
