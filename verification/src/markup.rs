//! The text that a decoded XML document is made of, and the rules that turn
//! values into XML text: escaping of character data and attribute values,
//! CDATA sections, entity references, and the hexadecimal and Base64 forms of
//! byte arrays.
//!
//! A document is a sequence of `DocUnit`s: characters, and floating-point
//! values whose decimal form is written when the document is rendered.

use vstd::prelude::*;
use crate::numbers::{byte_hex_spec, parse_u32_radix, parse_u32_spec, push_byte_hex};
use crate::text::{chars_eq, contains_chars, contains_spec, starts_with, starts_with_spec};
use crate::unicode::{char_from_u32, is_scalar_value};
use crate::xml_error::XmlDecodeError;

verus! {

/// A floating-point value of a binary document, kept as its IEEE 754 bits.
#[derive(Debug, Clone, Copy, PartialEq, Eq)]
pub enum FloatValue {
    /// A 32-bit `float`.
    Single(u32),
    /// A 64-bit `double`.
    Double(u64),
}

/// One unit of decoded XML text, over a character type `C`.
#[derive(Debug, Clone, Copy, PartialEq, Eq)]
pub enum TextUnit<C> {
    /// A character of the document.
    Char(C),
    /// A floating-point value, written in its shortest decimal form.
    Float(FloatValue),
}

/// One unit of a decoded document.
pub type DocUnit = TextUnit<char>;

/// The units of the characters `s`.
pub open spec fn text_units(s: Seq<char>) -> Seq<DocUnit> {
    Seq::new(s.len(), |i: int| DocUnit::Char(s[i]))
}

/// Units of a concatenation are the concatenation of units.
pub proof fn lemma_text_units_add(a: Seq<char>, b: Seq<char>)
    ensures
        text_units(a + b) == text_units(a) + text_units(b),
{
    assert(text_units(a + b) =~= text_units(a) + text_units(b));
}

/// No characters make no units.
pub proof fn lemma_text_units_empty()
    ensures
        text_units(Seq::<char>::empty()) == Seq::<DocUnit>::empty(),
{
    assert(text_units(Seq::<char>::empty()) =~= Seq::<DocUnit>::empty());
}

/// `&amp;`
pub open spec fn amp_entity() -> Seq<char> {
    seq!['&', 'a', 'm', 'p', ';']
}

/// `&lt;`
pub open spec fn lt_entity() -> Seq<char> {
    seq!['&', 'l', 't', ';']
}

/// `&gt;`
pub open spec fn gt_entity() -> Seq<char> {
    seq!['&', 'g', 't', ';']
}

/// `&quot;`
pub open spec fn quot_entity() -> Seq<char> {
    seq!['&', 'q', 'u', 'o', 't', ';']
}

/// `&apos;`
pub open spec fn apos_entity() -> Seq<char> {
    seq!['&', 'a', 'p', 'o', 's', ';']
}

/// How one character is written in character data.
pub open spec fn escape_text_char(c: char) -> Seq<char> {
    if c == '&' {
        amp_entity()
    } else if c == '<' {
        lt_entity()
    } else if c == '>' {
        gt_entity()
    } else {
        seq![c]
    }
}

/// How one character is written in a double-quoted attribute value.
pub open spec fn escape_attribute_char(c: char) -> Seq<char> {
    if c == '"' {
        quot_entity()
    } else if c == '\'' {
        apos_entity()
    } else {
        escape_text_char(c)
    }
}

/// `s` written as character data: `&`, `<` and `>` as entity references.
pub open spec fn escape_text_spec(s: Seq<char>) -> Seq<char>
    decreases s.len(),
{
    if s.len() == 0 {
        Seq::<char>::empty()
    } else {
        escape_text_spec(s.drop_last()) + escape_text_char(s.last())
    }
}

/// `s` written as an attribute value: also `"` and `'` as entity references.
pub open spec fn escape_attribute_spec(s: Seq<char>) -> Seq<char>
    decreases s.len(),
{
    if s.len() == 0 {
        Seq::<char>::empty()
    } else {
        escape_attribute_spec(s.drop_last()) + escape_attribute_char(s.last())
    }
}

/// `]]>`
pub open spec fn cdata_end() -> Seq<char> {
    seq![']', ']', '>']
}

/// `<![CDATA[`
pub open spec fn cdata_start() -> Seq<char> {
    seq!['<', '!', '[', 'C', 'D', 'A', 'T', 'A', '[']
}

/// `s` as a CDATA section, or as escaped character data when `s` holds `]]>`.
pub open spec fn cdata_or_escaped_spec(s: Seq<char>) -> Seq<char> {
    if contains_spec(s, cdata_end()) {
        escape_text_spec(s)
    } else {
        cdata_start() + s + cdata_end()
    }
}

/// The numeric part of an entity reference `#x..`, `#X..` or `#..`, parsed as
/// a `u32`; `None` when the entity is not numeric.
pub open spec fn entity_number_spec(e: Seq<char>) -> Option<Option<u32>> {
    if starts_with_spec(e, seq!['#', 'x']) || starts_with_spec(e, seq!['#', 'X']) {
        Some(parse_u32_spec(e.subrange(2, e.len() as int), 16))
    } else if starts_with_spec(e, seq!['#']) {
        Some(parse_u32_spec(e.subrange(1, e.len() as int), 10))
    } else {
        None
    }
}

/// The text that the entity reference named `e` stands for.
pub open spec fn resolve_entity_spec(e: Seq<char>) -> Result<Seq<char>, XmlDecodeError> {
    if e.len() == 0 {
        Ok(Seq::<char>::empty())
    } else if e == seq!['l', 't'] {
        Ok(seq!['<'])
    } else if e == seq!['g', 't'] {
        Ok(seq!['>'])
    } else if e == seq!['a', 'm', 'p'] {
        Ok(seq!['&'])
    } else if e == seq!['a', 'p', 'o', 's'] {
        Ok(seq!['\''])
    } else if e == seq!['q', 'u', 'o', 't'] {
        Ok(seq!['"'])
    } else {
        match entity_number_spec(e) {
            None => Err(XmlDecodeError::UnknownEntity),
            Some(None) => Err(XmlDecodeError::InvalidEntityNumber),
            Some(Some(cp)) => if is_scalar_value(cp) {
                Ok(seq![cp as char])
            } else {
                Err(XmlDecodeError::InvalidEntityCodePoint(cp))
            },
        }
    }
}

/// The lower-case hexadecimal form of `bytes`, two digits per byte.
pub open spec fn hex_bytes_spec(bytes: Seq<u8>) -> Seq<char>
    decreases bytes.len(),
{
    if bytes.len() == 0 {
        Seq::<char>::empty()
    } else {
        hex_bytes_spec(bytes.drop_last()) + byte_hex_spec(bytes.last())
    }
}

/// The Base64 digit for `v < 64` (standard alphabet).
pub open spec fn base64_digit_spec(v: nat) -> char {
    if v < 26 {
        ((v + 'A' as u32) as u32) as char
    } else if v < 52 {
        ((v - 26 + 'a' as u32) as u32) as char
    } else if v < 62 {
        ((v - 52 + '0' as u32) as u32) as char
    } else if v == 62 {
        '+'
    } else {
        '/'
    }
}

/// The four Base64 characters of a group of one to three bytes, padded with `=`.
pub open spec fn base64_group_spec(g: Seq<u8>) -> Seq<char> {
    let b0 = g[0] as nat;
    let b1 = if g.len() > 1 { g[1] as nat } else { 0 };
    let b2 = if g.len() > 2 { g[2] as nat } else { 0 };
    seq![
        base64_digit_spec(b0 / 4),
        base64_digit_spec((b0 % 4) * 16 + b1 / 16),
        if g.len() > 1 { base64_digit_spec((b1 % 16) * 4 + b2 / 64) } else { '=' },
        if g.len() > 2 { base64_digit_spec(b2 % 64) } else { '=' },
    ]
}

/// The padded standard Base64 encoding of `bytes`.
pub open spec fn base64_spec(bytes: Seq<u8>) -> Seq<char>
    decreases bytes.len(),
{
    if bytes.len() == 0 {
        Seq::<char>::empty()
    } else if bytes.len() <= 3 {
        base64_group_spec(bytes)
    } else {
        base64_group_spec(bytes.take(3)) + base64_spec(bytes.skip(3))
    }
}

/// Appends the characters `s` as units.
pub fn push_text(out: &mut Vec<DocUnit>, s: &[char])
    ensures
        final(out)@ == old(out)@ + text_units(s@),
{
    let ghost start = out@;
    let mut i: usize = 0;
    proof {
        lemma_text_units_empty();
    }
    assert(s@.take(0) =~= Seq::<char>::empty());
    assert(out@ =~= start + text_units(s@.take(0)));
    while i < s.len()
        invariant
            i <= s@.len(),
            out@ == start + text_units(s@.take(i as int)),
        decreases s.len() - i,
    {
        out.push(DocUnit::Char(s[i]));
        i = i + 1;
        assert(text_units(s@.take(i as int)) =~= text_units(s@.take(i - 1)).push(
            DocUnit::Char(s@[i - 1]),
        ));
        assert(out@ =~= start + text_units(s@.take(i as int)));
    }
    assert(s@.take(s@.len() as int) =~= s@);
}

/// Appends the character `c` as a unit.
pub fn push_char_unit(out: &mut Vec<DocUnit>, c: char)
    ensures
        final(out)@ == old(out)@ + text_units(seq![c]),
{
    out.push(DocUnit::Char(c));
    assert(final(out)@ =~= old(out)@ + text_units(seq![c]));
}

/// Appends how `c` is written in character data.
fn push_escaped_text_char(out: &mut Vec<DocUnit>, c: char)
    ensures
        final(out)@ == old(out)@ + text_units(escape_text_char(c)),
{
    if c == '&' {
        let e = ['&', 'a', 'm', 'p', ';'];
        assert(e@ =~= amp_entity());
        push_text(out, e.as_slice());
    } else if c == '<' {
        let e = ['&', 'l', 't', ';'];
        assert(e@ =~= lt_entity());
        push_text(out, e.as_slice());
    } else if c == '>' {
        let e = ['&', 'g', 't', ';'];
        assert(e@ =~= gt_entity());
        push_text(out, e.as_slice());
    } else {
        push_char_unit(out, c);
    }
}

/// Appends how `c` is written in an attribute value.
fn push_escaped_attribute_char(out: &mut Vec<DocUnit>, c: char)
    ensures
        final(out)@ == old(out)@ + text_units(escape_attribute_char(c)),
{
    if c == '"' {
        let e = ['&', 'q', 'u', 'o', 't', ';'];
        assert(e@ =~= quot_entity());
        push_text(out, e.as_slice());
    } else if c == '\'' {
        let e = ['&', 'a', 'p', 'o', 's', ';'];
        assert(e@ =~= apos_entity());
        push_text(out, e.as_slice());
    } else {
        push_escaped_text_char(out, c);
    }
}

/// Appends `value` written as character data.
pub fn push_escaped_text(out: &mut Vec<DocUnit>, value: &[char])
    ensures
        final(out)@ == old(out)@ + text_units(escape_text_spec(value@)),
{
    let ghost start = out@;
    let mut i: usize = 0;
    assert(value@.take(0) =~= Seq::<char>::empty());
    proof {
        lemma_text_units_empty();
    }
    assert(out@ =~= start + text_units(escape_text_spec(value@.take(0))));
    while i < value.len()
        invariant
            i <= value@.len(),
            out@ == start + text_units(escape_text_spec(value@.take(i as int))),
        decreases value.len() - i,
    {
        let c = value[i];
        push_escaped_text_char(out, c);
        i = i + 1;
        proof {
            assert(value@.take(i as int).drop_last() =~= value@.take(i - 1));
            lemma_text_units_add(escape_text_spec(value@.take(i - 1)), escape_text_char(c));
        }
    }
    assert(value@.take(value@.len() as int) =~= value@);
}

/// Appends `value` written as an attribute value.
pub fn push_escaped_attribute(out: &mut Vec<DocUnit>, value: &[char])
    ensures
        final(out)@ == old(out)@ + text_units(escape_attribute_spec(value@)),
{
    let ghost start = out@;
    let mut i: usize = 0;
    assert(value@.take(0) =~= Seq::<char>::empty());
    proof {
        lemma_text_units_empty();
    }
    assert(out@ =~= start + text_units(escape_attribute_spec(value@.take(0))));
    while i < value.len()
        invariant
            i <= value@.len(),
            out@ == start + text_units(escape_attribute_spec(value@.take(i as int))),
        decreases value.len() - i,
    {
        let c = value[i];
        push_escaped_attribute_char(out, c);
        i = i + 1;
        proof {
            assert(value@.take(i as int).drop_last() =~= value@.take(i - 1));
            lemma_text_units_add(escape_attribute_spec(value@.take(i - 1)), escape_attribute_char(c));
        }
    }
    assert(value@.take(value@.len() as int) =~= value@);
}

/// Appends `value` as a CDATA section, or as escaped character data when it
/// holds `]]>`.
pub fn push_cdata_or_escaped_text(out: &mut Vec<DocUnit>, value: &[char])
    ensures
        final(out)@ == old(out)@ + text_units(cdata_or_escaped_spec(value@)),
{
    let end = [']', ']', '>'];
    assert(end@ =~= cdata_end());
    if contains_chars(value, end.as_slice()) {
        push_escaped_text(out, value);
        return;
    }
    let start = ['<', '!', '[', 'C', 'D', 'A', 'T', 'A', '['];
    assert(start@ =~= cdata_start());
    push_text(out, start.as_slice());
    push_text(out, value);
    push_text(out, end.as_slice());
    proof {
        lemma_text_units_add(cdata_start(), value@);
        lemma_text_units_add(cdata_start() + value@, cdata_end());
    }
    assert(final(out)@ =~= old(out)@ + text_units(cdata_or_escaped_spec(value@)));
}

/// The text that the entity reference named `entity` stands for: one of the
/// five predefined entities, a numeric character reference, or nothing for
/// an empty name.
pub fn resolve_entity_ref(entity: &[char]) -> (r: Result<Vec<char>, XmlDecodeError>)
    ensures
        match r {
            Ok(v) => resolve_entity_spec(entity@) == Ok::<Seq<char>, XmlDecodeError>(v@),
            Err(e) => resolve_entity_spec(entity@) == Err::<Seq<char>, XmlDecodeError>(e),
        },
{
    let lt = ['l', 't'];
    let gt = ['g', 't'];
    let amp = ['a', 'm', 'p'];
    let apos = ['a', 'p', 'o', 's'];
    let quot = ['q', 'u', 'o', 't'];
    assert(lt@ =~= seq!['l', 't']);
    assert(gt@ =~= seq!['g', 't']);
    assert(amp@ =~= seq!['a', 'm', 'p']);
    assert(apos@ =~= seq!['a', 'p', 'o', 's']);
    assert(quot@ =~= seq!['q', 'u', 'o', 't']);
    if entity.len() == 0 {
        return Ok(Vec::new());
    }
    let mut out: Vec<char> = Vec::new();
    if chars_eq(entity, lt.as_slice()) {
        out.push('<');
        return Ok(out);
    }
    if chars_eq(entity, gt.as_slice()) {
        out.push('>');
        return Ok(out);
    }
    if chars_eq(entity, amp.as_slice()) {
        out.push('&');
        return Ok(out);
    }
    if chars_eq(entity, apos.as_slice()) {
        out.push('\'');
        return Ok(out);
    }
    if chars_eq(entity, quot.as_slice()) {
        out.push('"');
        return Ok(out);
    }
    let hex_lower = ['#', 'x'];
    let hex_upper = ['#', 'X'];
    let hash = ['#'];
    assert(hex_lower@ =~= seq!['#', 'x']);
    assert(hex_upper@ =~= seq!['#', 'X']);
    assert(hash@ =~= seq!['#']);
    let number = if starts_with(entity, hex_lower.as_slice()) || starts_with(
        entity,
        hex_upper.as_slice(),
    ) {
        parse_u32_radix(&entity[2..entity.len()], 16)
    } else if starts_with(entity, hash.as_slice()) {
        parse_u32_radix(&entity[1..entity.len()], 10)
    } else {
        return Err(XmlDecodeError::UnknownEntity);
    };
    let code_point = match number {
        Some(v) => v,
        None => {
            return Err(XmlDecodeError::InvalidEntityNumber);
        },
    };
    match char_from_u32(code_point) {
        Some(c) => {
            out.push(c);
            assert(out@ =~= seq![c]);
            Ok(out)
        },
        None => Err(XmlDecodeError::InvalidEntityCodePoint(code_point)),
    }
}

/// Appends the lower-case hexadecimal form of `bytes`.
pub fn push_bytes_hex(out: &mut Vec<char>, bytes: &[u8])
    ensures
        final(out)@ == old(out)@ + hex_bytes_spec(bytes@),
{
    let ghost start = out@;
    let mut i: usize = 0;
    assert(bytes@.take(0) =~= Seq::<u8>::empty());
    while i < bytes.len()
        invariant
            i <= bytes@.len(),
            out@ == start + hex_bytes_spec(bytes@.take(i as int)),
        decreases bytes.len() - i,
    {
        push_byte_hex(out, bytes[i]);
        i = i + 1;
        assert(bytes@.take(i as int).drop_last() =~= bytes@.take(i - 1));
        assert(out@ =~= start + hex_bytes_spec(bytes@.take(i as int)));
    }
    assert(bytes@.take(bytes@.len() as int) =~= bytes@);
}

/// The lower-case hexadecimal form of `bytes`, two digits per byte.
pub fn bytes_to_hex(bytes: &[u8]) -> (out: Vec<char>)
    ensures
        out@ == hex_bytes_spec(bytes@),
{
    let mut out: Vec<char> = Vec::new();
    push_bytes_hex(&mut out, bytes);
    assert(out@ =~= hex_bytes_spec(bytes@));
    out
}

/// The Base64 digit for `v < 64`.
fn base64_digit(v: u8) -> (c: char)
    requires
        v < 64,
    ensures
        c == base64_digit_spec(v as nat),
{
    if v < 26 {
        (v + ('A' as u8)) as char
    } else if v < 52 {
        (v - 26 + ('a' as u8)) as char
    } else if v < 62 {
        (v - 52 + ('0' as u8)) as char
    } else if v == 62 {
        '+'
    } else {
        '/'
    }
}

/// The padded standard Base64 encoding of `bytes`.
pub fn bytes_to_base64(bytes: &[u8]) -> (out: Vec<char>)
    ensures
        out@ == base64_spec(bytes@),
{
    let mut out: Vec<char> = Vec::new();
    let mut i: usize = 0;
    assert(bytes@.skip(0) =~= bytes@);
    while i < bytes.len()
        invariant
            i <= bytes@.len(),
            base64_spec(bytes@) == out@ + base64_spec(bytes@.skip(i as int)),
        decreases bytes.len() - i,
    {
        let ghost rest = bytes@.skip(i as int);
        let n = bytes.len() - i;
        let b0 = bytes[i];
        let b1: u8 = if n > 1 { bytes[i + 1] } else { 0 };
        let b2: u8 = if n > 2 { bytes[i + 2] } else { 0 };
        let ghost group = if n <= 3 { rest } else { rest.take(3) };
        assert(group[0] == b0);
        assert(n > 1 ==> group[1] == b1);
        assert(n > 2 ==> group[2] == b2);
        let c0 = base64_digit(b0 / 4);
        let c1 = base64_digit((b0 % 4) * 16 + b1 / 16);
        let c2 = if n > 1 { base64_digit((b1 % 16) * 4 + b2 / 64) } else { '=' };
        let c3 = if n > 2 { base64_digit(b2 % 64) } else { '=' };
        out.push(c0);
        out.push(c1);
        out.push(c2);
        out.push(c3);
        let ghost chunk = seq![c0, c1, c2, c3];
        assert(chunk =~= base64_group_spec(group));
        if n <= 3 {
            assert(bytes@.skip(bytes@.len() as int) =~= Seq::<u8>::empty());
            i = bytes.len();
        } else {
            assert(rest.skip(3) =~= bytes@.skip(i + 3));
            i = i + 3;
        }
        assert(out@ =~= out@.subrange(0, out@.len() - 4) + chunk);
    }
    assert(bytes@.skip(bytes@.len() as int) =~= Seq::<u8>::empty());
    assert(out@ =~= out@ + Seq::<char>::empty());
    out
}

/// Escaped character data holds no `<` and no `>`: a value never opens or
/// closes a tag of the decoded document.
pub proof fn law_escaped_text_has_no_angle_brackets(s: Seq<char>)
    ensures
        forall|i: int|
            0 <= i < escape_text_spec(s).len() ==> #[trigger] escape_text_spec(s)[i] != '<'
                && escape_text_spec(s)[i] != '>',
    decreases s.len(),
{
    if s.len() > 0 {
        law_escaped_text_has_no_angle_brackets(s.drop_last());
        let prev = escape_text_spec(s.drop_last());
        let tail = escape_text_char(s.last());
        assert(escape_text_spec(s) == prev + tail);
        assert forall|i: int| 0 <= i < escape_text_spec(s).len() implies #[trigger] escape_text_spec(
            s,
        )[i] != '<' && escape_text_spec(s)[i] != '>' by {
            if i >= prev.len() {
                assert(escape_text_spec(s)[i] == tail[i - prev.len()]);
            } else {
                assert(escape_text_spec(s)[i] == prev[i]);
            }
        }
    }
}

/// An escaped attribute value holds no `<`, `>`, `"` or `'`: it never ends
/// the double-quoted value it is written in.
pub proof fn law_escaped_attribute_has_no_quotes(s: Seq<char>)
    ensures
        forall|i: int|
            0 <= i < escape_attribute_spec(s).len() ==> {
                let c = #[trigger] escape_attribute_spec(s)[i];
                c != '<' && c != '>' && c != '"' && c != '\''
            },
    decreases s.len(),
{
    if s.len() > 0 {
        law_escaped_attribute_has_no_quotes(s.drop_last());
        let prev = escape_attribute_spec(s.drop_last());
        let tail = escape_attribute_char(s.last());
        assert(escape_attribute_spec(s) == prev + tail);
        assert forall|i: int| 0 <= i < escape_attribute_spec(s).len() implies {
            let c = #[trigger] escape_attribute_spec(s)[i];
            c != '<' && c != '>' && c != '"' && c != '\''
        } by {
            if i >= prev.len() {
                assert(escape_attribute_spec(s)[i] == tail[i - prev.len()]);
            } else {
                assert(escape_attribute_spec(s)[i] == prev[i]);
            }
        }
    }
}

/// Hexadecimal text has two digits per byte.
pub proof fn law_hex_length(bytes: Seq<u8>)
    ensures
        hex_bytes_spec(bytes).len() == 2 * bytes.len(),
    decreases bytes.len(),
{
    if bytes.len() > 0 {
        law_hex_length(bytes.drop_last());
    }
}

/// Base64 text has four characters per started group of three bytes.
pub proof fn law_base64_length(bytes: Seq<u8>)
    ensures
        base64_spec(bytes).len() == 4 * ((bytes.len() + 2) / 3),
    decreases bytes.len(),
{
    if bytes.len() > 3 {
        law_base64_length(bytes.skip(3));
    }
}

/// Escaping one character is escaping that character.
proof fn lemma_escape_one(c: char)
    ensures
        escape_text_spec(seq![c]) == escape_text_char(c),
        escape_attribute_spec(seq![c]) == escape_attribute_char(c),
{
    let s = seq![c];
    assert(s.drop_last() =~= Seq::<char>::empty());
    assert(s.last() == c);
    assert(escape_text_spec(s.drop_last()) == Seq::<char>::empty());
    assert(escape_attribute_spec(s.drop_last()) == Seq::<char>::empty());
    assert(Seq::<char>::empty() + escape_text_char(c) =~= escape_text_char(c));
    assert(Seq::<char>::empty() + escape_attribute_char(c) =~= escape_attribute_char(c));
}

/// Escaping character data writes `&`, `<` and `>` as `&amp;`, `&lt;` and
/// `&gt;`, keeps every other character, and escapes text piece by piece.
pub proof fn law_text_escaping(a: Seq<char>, b: Seq<char>, c: char)
    ensures
        escape_text_spec(a + b) == escape_text_spec(a) + escape_text_spec(b),
        escape_text_spec(seq!['&']) == seq!['&', 'a', 'm', 'p', ';'],
        escape_text_spec(seq!['<']) == seq!['&', 'l', 't', ';'],
        escape_text_spec(seq!['>']) == seq!['&', 'g', 't', ';'],
        c != '&' && c != '<' && c != '>' ==> escape_text_spec(seq![c]) == seq![c],
    decreases b.len(),
{
    lemma_escape_one('&');
    lemma_escape_one('<');
    lemma_escape_one('>');
    lemma_escape_one(c);
    if b.len() == 0 {
        assert(a + b =~= a);
        assert(escape_text_spec(a) + Seq::<char>::empty() =~= escape_text_spec(a));
    } else {
        law_text_escaping(a, b.drop_last(), c);
        assert((a + b).drop_last() =~= a + b.drop_last());
        assert((a + b).last() == b.last());
        assert(escape_text_spec(a) + escape_text_spec(b.drop_last()) + escape_text_char(b.last())
            =~= escape_text_spec(a) + (escape_text_spec(b.drop_last()) + escape_text_char(b.last())));
    }
}

/// Escaping an attribute value also writes `"` and `'` as `&quot;` and
/// `&apos;`, keeps every character that is not special, and escapes the
/// value piece by piece.
pub proof fn law_attribute_escaping(a: Seq<char>, b: Seq<char>, c: char)
    ensures
        escape_attribute_spec(a + b) == escape_attribute_spec(a) + escape_attribute_spec(b),
        escape_attribute_spec(seq!['"']) == seq!['&', 'q', 'u', 'o', 't', ';'],
        escape_attribute_spec(seq!['\'']) == seq!['&', 'a', 'p', 'o', 's', ';'],
        escape_attribute_spec(seq!['&']) == seq!['&', 'a', 'm', 'p', ';'],
        escape_attribute_spec(seq!['<']) == seq!['&', 'l', 't', ';'],
        escape_attribute_spec(seq!['>']) == seq!['&', 'g', 't', ';'],
        c != '&' && c != '<' && c != '>' && c != '"' && c != '\'' ==> escape_attribute_spec(seq![c])
            == seq![c],
    decreases b.len(),
{
    lemma_escape_one('"');
    lemma_escape_one('\'');
    lemma_escape_one('&');
    lemma_escape_one('<');
    lemma_escape_one('>');
    lemma_escape_one(c);
    if b.len() == 0 {
        assert(a + b =~= a);
        assert(escape_attribute_spec(a) + Seq::<char>::empty() =~= escape_attribute_spec(a));
    } else {
        law_attribute_escaping(a, b.drop_last(), c);
        assert((a + b).drop_last() =~= a + b.drop_last());
        assert((a + b).last() == b.last());
        assert(escape_attribute_spec(a) + escape_attribute_spec(b.drop_last())
            + escape_attribute_char(b.last()) =~= escape_attribute_spec(a) + (escape_attribute_spec(
            b.drop_last(),
        ) + escape_attribute_char(b.last())));
    }
}

} // verus!
