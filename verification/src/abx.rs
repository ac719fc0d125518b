//! Android binary XML (ABX), the format in which Android writes its package
//! settings, and its rewriting as text XML.
//!
//! A document is the magic `ABX\0` followed by tokens. A token is one byte:
//! its low four bits are a command and its high four bits the type of the
//! value that follows. Names are interned strings: a big-endian `u16` index
//! into the strings defined so far, or `0xFFFF` followed by a new string.
//! Strings are a big-endian `u16` byte length and that many bytes of UTF-8 or
//! Java's modified UTF-8. Integers are big-endian.
//!
//! The `*_spec` functions below define the decoding over the bytes; the
//! decoder's methods are proved to compute them.

use vstd::prelude::*;
use crate::markup::{
    DocUnit, FloatValue, TextUnit, base64_spec, bytes_to_base64, bytes_to_hex,
    cdata_or_escaped_spec, escape_attribute_spec, escape_text_spec, hex_bytes_spec,
    lemma_text_units_add, lemma_text_units_empty, push_cdata_or_escaped_text, push_char_unit,
    push_escaped_attribute, push_escaped_text, push_text, resolve_entity_ref, resolve_entity_spec,
    text_units,
};
use vstd::arithmetic::power2::{lemma2_to64, lemma_pow2_adds, lemma_pow2_strictly_increases, pow2};
use crate::numbers::{hex_spec, int_decimal_spec, push_i64_decimal, push_u64_hex};
use crate::text::{chars_of, suffix_from};
use crate::xml_error::XmlDecodeError;
use crate::xmlish::{decode_modified_utf8, modified_utf8_spec};

verus! {

/// Command of the token that starts the document.
pub const START_DOCUMENT: u8 = 0;

/// Command of the token that ends the document.
pub const END_DOCUMENT: u8 = 1;

/// Command of a start tag, followed by the tag's interned name.
pub const START_TAG: u8 = 2;

/// Command of an end tag, followed by the tag's interned name.
pub const END_TAG: u8 = 3;

/// Command of character data.
pub const TEXT: u8 = 4;

/// Command of a CDATA section.
pub const CDSECT: u8 = 5;

/// Command of an entity reference.
pub const ENTITY_REF: u8 = 6;

/// Command of ignorable white space.
pub const IGNORABLE_WHITESPACE: u8 = 7;

/// Command of a processing instruction.
pub const PROCESSING_INSTRUCTION: u8 = 8;

/// Command of a comment.
pub const COMMENT: u8 = 9;

/// Command of a document type declaration.
pub const DOCDECL: u8 = 10;

/// Command of an attribute of the start tag before it.
pub const ATTRIBUTE: u8 = 15;

/// Type of an empty value (`1 << 4`).
pub const TYPE_NULL: u8 = 0x10;

/// Type of a string (`2 << 4`).
pub const TYPE_STRING: u8 = 0x20;

/// Type of an interned string (`3 << 4`).
pub const TYPE_STRING_INTERNED: u8 = 0x30;

/// Type of bytes written in hexadecimal (`4 << 4`).
pub const TYPE_BYTES_HEX: u8 = 0x40;

/// Type of bytes written in Base64 (`5 << 4`).
pub const TYPE_BYTES_BASE64: u8 = 0x50;

/// Type of a 32-bit integer written in decimal (`6 << 4`).
pub const TYPE_INT: u8 = 0x60;

/// Type of a 32-bit integer written in hexadecimal (`7 << 4`).
pub const TYPE_INT_HEX: u8 = 0x70;

/// Type of a 64-bit integer written in decimal (`8 << 4`).
pub const TYPE_LONG: u8 = 0x80;

/// Type of a 64-bit integer written in hexadecimal (`9 << 4`).
pub const TYPE_LONG_HEX: u8 = 0x90;

/// Type of a 32-bit float (`10 << 4`).
pub const TYPE_FLOAT: u8 = 0xA0;

/// Type of a 64-bit float (`11 << 4`).
pub const TYPE_DOUBLE: u8 = 0xB0;

/// Type of the boolean `true` (`12 << 4`).
pub const TYPE_BOOLEAN_TRUE: u8 = 0xC0;

/// Type of the boolean `false` (`13 << 4`).
pub const TYPE_BOOLEAN_FALSE: u8 = 0xD0;

/// Index that introduces a new interned string.
pub const INTERNED_STRING_NEW_MARKER: u16 = 0xFFFF;

/// A value of the document: text, or a floating-point value.
#[derive(Debug)]
pub enum TypedValue<S> {
    /// A value written as text.
    Text(S),
    /// A floating-point value.
    Float(FloatValue),
}

/// The magic that starts an ABX document: `ABX\0`.
pub open spec fn abx_magic() -> Seq<u8> {
    seq![0x41u8, 0x42u8, 0x58u8, 0x00u8]
}

/// Whether `b` starts with the ABX magic.
pub open spec fn has_abx_magic(b: Seq<u8>) -> bool {
    b.len() >= 4 && b.take(4) == abx_magic()
}

/// The unsigned big-endian value of `x`.
pub open spec fn be_spec(x: Seq<u8>) -> nat
    decreases x.len(),
{
    if x.len() == 0 {
        0
    } else {
        be_spec(x.drop_last()) * 256 + x.last() as nat
    }
}

/// The value of the 32-bit two's complement integer whose bits are `v`.
pub open spec fn signed32_spec(v: nat) -> int {
    if v >= 0x8000_0000 {
        v - 0x1_0000_0000
    } else {
        v as int
    }
}

/// The value of the 64-bit two's complement integer whose bits are `v`.
pub open spec fn signed64_spec(v: nat) -> int {
    if v >= 0x8000_0000_0000_0000 {
        v - 0x1_0000_0000_0000_0000
    } else {
        v as int
    }
}

/// The `len` bytes at `pos`, and the position after them.
pub open spec fn read_slice_spec(b: Seq<u8>, pos: nat, len: nat) -> Result<
    (Seq<u8>, nat),
    XmlDecodeError,
> {
    if pos + len > usize::MAX {
        Err(XmlDecodeError::OffsetOverflow)
    } else if pos + len > b.len() {
        Err(XmlDecodeError::UnexpectedEnd)
    } else {
        Ok((b.subrange(pos as int, (pos + len) as int), pos + len))
    }
}

/// The byte at `pos`, and the position after it.
pub open spec fn read_u8_spec(b: Seq<u8>, pos: nat) -> Result<(u8, nat), XmlDecodeError> {
    if pos < b.len() {
        Ok((b[pos as int], pos + 1))
    } else {
        Err(XmlDecodeError::UnexpectedEnd)
    }
}

/// The unsigned big-endian integer of `len` bytes at `pos`, and the position
/// after it.
pub open spec fn read_be_spec(b: Seq<u8>, pos: nat, len: nat) -> Result<(nat, nat), XmlDecodeError> {
    match read_slice_spec(b, pos, len) {
        Ok((x, p)) => Ok((be_spec(x), p)),
        Err(e) => Err(e),
    }
}

/// A string at `pos`: its byte length, then its bytes in (modified) UTF-8.
pub open spec fn read_utf_spec(b: Seq<u8>, pos: nat) -> Result<(Seq<char>, nat), XmlDecodeError> {
    match read_be_spec(b, pos, 2) {
        Err(e) => Err(e),
        Ok((len, p)) => match read_slice_spec(b, p, len) {
            Err(e) => Err(e),
            Ok((x, p2)) => match modified_utf8_spec(x) {
                Some(s) => Ok((s, p2)),
                None => Err(XmlDecodeError::InvalidModifiedUtf8),
            },
        },
    }
}

/// An interned string at `pos`, given the strings interned so far: the
/// string, the position after it, and the interned strings after it.
pub open spec fn read_interned_spec(b: Seq<u8>, pos: nat, pool: Seq<Seq<char>>) -> Result<
    (Seq<char>, nat, Seq<Seq<char>>),
    XmlDecodeError,
> {
    match read_be_spec(b, pos, 2) {
        Err(e) => Err(e),
        Ok((index, p)) => if index == 0xFFFF {
            match read_utf_spec(b, p) {
                Err(e) => Err(e),
                Ok((s, p2)) => Ok((s, p2, pool.push(s))),
            }
        } else if index < pool.len() {
            Ok((pool[index as int], p, pool))
        } else {
            Err(XmlDecodeError::InvalidStringPoolIndex(index as u16))
        },
    }
}

/// A byte array at `pos` (its `u16` length, then its bytes), written with
/// `write`.
pub open spec fn read_bytes_text_spec(b: Seq<u8>, pos: nat, base64: bool) -> Result<
    (Seq<char>, nat),
    XmlDecodeError,
> {
    match read_be_spec(b, pos, 2) {
        Err(e) => Err(e),
        Ok((len, p)) => match read_slice_spec(b, p, len) {
            Err(e) => Err(e),
            Ok((x, p2)) => Ok(
                (
                    if base64 {
                        base64_spec(x)
                    } else {
                        hex_bytes_spec(x)
                    },
                    p2,
                ),
            ),
        },
    }
}

/// `true`
pub open spec fn true_text() -> Seq<char> {
    seq!['t', 'r', 'u', 'e']
}

/// `false`
pub open spec fn false_text() -> Seq<char> {
    seq!['f', 'a', 'l', 's', 'e']
}

/// The value of type `ty` at `pos`, the position after it, and the interned
/// strings after it. Integers are written in decimal, or as `0x` and
/// lower-case hexadecimal digits of their unsigned bits.
pub open spec fn read_typed_spec(b: Seq<u8>, pos: nat, pool: Seq<Seq<char>>, ty: u8) -> Result<
    (TypedValue<Seq<char>>, nat, Seq<Seq<char>>),
    XmlDecodeError,
> {
    if ty == TYPE_NULL {
        Ok((TypedValue::Text(Seq::<char>::empty()), pos, pool))
    } else if ty == TYPE_STRING {
        match read_utf_spec(b, pos) {
            Ok((s, p)) => Ok((TypedValue::Text(s), p, pool)),
            Err(e) => Err(e),
        }
    } else if ty == TYPE_STRING_INTERNED {
        match read_interned_spec(b, pos, pool) {
            Ok((s, p, pl)) => Ok((TypedValue::Text(s), p, pl)),
            Err(e) => Err(e),
        }
    } else if ty == TYPE_BYTES_HEX || ty == TYPE_BYTES_BASE64 {
        match read_bytes_text_spec(b, pos, ty == TYPE_BYTES_BASE64) {
            Ok((s, p)) => Ok((TypedValue::Text(s), p, pool)),
            Err(e) => Err(e),
        }
    } else if ty == TYPE_INT || ty == TYPE_INT_HEX || ty == TYPE_FLOAT {
        match read_be_spec(b, pos, 4) {
            Ok((v, p)) => Ok(
                (
                    if ty == TYPE_INT {
                        TypedValue::Text(int_decimal_spec(signed32_spec(v)))
                    } else if ty == TYPE_INT_HEX {
                        TypedValue::Text(seq!['0', 'x'] + hex_spec(v))
                    } else {
                        TypedValue::Float(FloatValue::Single(v as u32))
                    },
                    p,
                    pool,
                ),
            ),
            Err(e) => Err(e),
        }
    } else if ty == TYPE_LONG || ty == TYPE_LONG_HEX || ty == TYPE_DOUBLE {
        match read_be_spec(b, pos, 8) {
            Ok((v, p)) => Ok(
                (
                    if ty == TYPE_LONG {
                        TypedValue::Text(int_decimal_spec(signed64_spec(v)))
                    } else if ty == TYPE_LONG_HEX {
                        TypedValue::Text(seq!['0', 'x'] + hex_spec(v))
                    } else {
                        TypedValue::Float(FloatValue::Double(v as u64))
                    },
                    p,
                    pool,
                ),
            ),
            Err(e) => Err(e),
        }
    } else if ty == TYPE_BOOLEAN_TRUE {
        Ok((TypedValue::Text(true_text()), pos, pool))
    } else if ty == TYPE_BOOLEAN_FALSE {
        Ok((TypedValue::Text(false_text()), pos, pool))
    } else {
        Err(XmlDecodeError::UnsupportedType(ty))
    }
}

/// The units of a value written where `escape` says how text is written.
pub open spec fn value_units(v: TypedValue<Seq<char>>, attribute: bool) -> Seq<DocUnit> {
    match v {
        TypedValue::Text(s) => text_units(
            if attribute {
                escape_attribute_spec(s)
            } else {
                escape_text_spec(s)
            },
        ),
        TypedValue::Float(f) => seq![TextUnit::Float(f)],
    }
}

/// ` name="`
pub open spec fn attribute_open_text(name: Seq<char>) -> Seq<char> {
    seq![' '] + name + seq!['=', '"']
}

/// The attribute whose token is `token`, at `pos` (just after the token):
/// ` name="value"` with the value escaped.
pub open spec fn attribute_spec(b: Seq<u8>, pos: nat, pool: Seq<Seq<char>>, token: u8) -> Result<
    (Seq<DocUnit>, nat, Seq<Seq<char>>),
    XmlDecodeError,
> {
    match read_interned_spec(b, pos, pool) {
        Err(e) => Err(e),
        Ok((name, p, pl)) => match read_typed_spec(b, p, pl, token & 0xF0) {
            Err(e) => Err(e),
            Ok((v, p2, pl2)) => Ok(
                (
                    text_units(attribute_open_text(name)) + value_units(v, true) + text_units(
                        seq!['"'],
                    ),
                    p2,
                    pl2,
                ),
            ),
        },
    }
}

/// Reading an attribute moves past its token's position.
pub proof fn lemma_attribute_advances(b: Seq<u8>, pos: nat, pool: Seq<Seq<char>>, token: u8)
    requires
        pos <= b.len(),
    ensures
        attribute_spec(b, pos, pool, token) matches Ok((_, p, _)) ==> pos < p <= b.len(),
{
}

/// The attributes that follow a start tag: as long as the next token's
/// command is `ATTRIBUTE`.
pub open spec fn attributes_spec(b: Seq<u8>, pos: nat, pool: Seq<Seq<char>>) -> Result<
    (Seq<DocUnit>, nat, Seq<Seq<char>>),
    XmlDecodeError,
>
    decreases b.len() - pos,
{
    if pos < b.len() && b[pos as int] & 0x0F == ATTRIBUTE {
        match attribute_spec(b, pos + 1, pool, b[pos as int]) {
            Err(e) => Err(e),
            Ok((u, p, pl)) => {
                proof {
                    lemma_attribute_advances(b, pos + 1, pool, b[pos as int]);
                }
                match attributes_spec(b, p, pl) {
                    Err(e) => Err(e),
                    Ok((u2, p2, pl2)) => Ok((u + u2, p2, pl2)),
                }
            },
        }
    } else {
        Ok((Seq::<DocUnit>::empty(), pos, pool))
    }
}

/// `Ok((prefix + u, p, pl))` for `Ok((u, p, pl))`; errors unchanged.
pub open spec fn prepend_attrs(
    prefix: Seq<DocUnit>,
    r: Result<(Seq<DocUnit>, nat, Seq<Seq<char>>), XmlDecodeError>,
) -> Result<(Seq<DocUnit>, nat, Seq<Seq<char>>), XmlDecodeError> {
    match r {
        Ok((u, p, pl)) => Ok((prefix + u, p, pl)),
        Err(e) => Err(e),
    }
}

/// Prepending nothing changes nothing.
proof fn lemma_prepend_attrs_empty(r: Result<(Seq<DocUnit>, nat, Seq<Seq<char>>), XmlDecodeError>)
    ensures
        prepend_attrs(Seq::<DocUnit>::empty(), r) == r,
{
    if let Ok((u, p, pl)) = r {
        assert(Seq::<DocUnit>::empty() + u =~= u);
    }
}

/// Prepending twice is prepending the concatenation.
proof fn lemma_prepend_attrs_assoc(
    a: Seq<DocUnit>,
    c: Seq<DocUnit>,
    r: Result<(Seq<DocUnit>, nat, Seq<Seq<char>>), XmlDecodeError>,
)
    ensures
        prepend_attrs(a, prepend_attrs(c, r)) == prepend_attrs(a + c, r),
{
    if let Ok((u, p, pl)) = r {
        assert(a + (c + u) =~= (a + c) + u);
    }
}

/// One step of `attributes_spec` at an attribute token.
proof fn lemma_attributes_step(b: Seq<u8>, pos: nat, pool: Seq<Seq<char>>)
    requires
        pos < b.len(),
        b[pos as int] & 0x0F == ATTRIBUTE,
    ensures
        attributes_spec(b, pos, pool) == match attribute_spec(b, pos + 1, pool, b[pos as int]) {
            Err(e) => Err(e),
            Ok((u, p, pl)) => prepend_attrs(u, attributes_spec(b, p, pl)),
        },
{
}

/// Reading attributes never moves back nor past the end.
pub proof fn lemma_attributes_advance(b: Seq<u8>, pos: nat, pool: Seq<Seq<char>>)
    requires
        pos <= b.len(),
    ensures
        attributes_spec(b, pos, pool) matches Ok((_, p, _)) ==> pos <= p <= b.len(),
    decreases b.len() - pos,
{
    if pos < b.len() && b[pos as int] & 0x0F == ATTRIBUTE {
        lemma_attribute_advances(b, pos + 1, pool, b[pos as int]);
        if let Ok((u, p, pl)) = attribute_spec(b, pos + 1, pool, b[pos as int]) {
            lemma_attributes_advance(b, p, pl);
        }
    }
}

/// The token at `pos`: its text, the position after it, the interned
/// strings after it, and whether decoding goes on after it.
pub open spec fn token_spec(b: Seq<u8>, pos: nat, pool: Seq<Seq<char>>) -> Result<
    (Seq<DocUnit>, nat, Seq<Seq<char>>, bool),
    XmlDecodeError,
> {
    match read_u8_spec(b, pos) {
        Err(e) => Err(e),
        Ok((token, p)) => {
            let command = token & 0x0F;
            let ty = token & 0xF0;
            if command == START_DOCUMENT {
                Ok((Seq::<DocUnit>::empty(), p, pool, true))
            } else if command == END_DOCUMENT {
                Ok((Seq::<DocUnit>::empty(), p, pool, false))
            } else if command == START_TAG {
                match read_interned_spec(b, p, pool) {
                    Err(e) => Err(e),
                    Ok((name, p2, pl2)) => match attributes_spec(b, p2, pl2) {
                        Err(e) => Err(e),
                        Ok((attrs, p3, pl3)) => Ok(
                            (
                                text_units(seq!['<'] + name) + attrs + text_units(seq!['>']),
                                p3,
                                pl3,
                                true,
                            ),
                        ),
                    },
                }
            } else if command == END_TAG {
                match read_interned_spec(b, p, pool) {
                    Err(e) => Err(e),
                    Ok((name, p2, pl2)) => Ok(
                        (text_units(seq!['<', '/'] + name + seq!['>']), p2, pl2, true),
                    ),
                }
            } else if command == TEXT || command == IGNORABLE_WHITESPACE || command == CDSECT
                || command == ENTITY_REF || command == PROCESSING_INSTRUCTION || command
                == COMMENT || command == DOCDECL {
                match read_typed_spec(b, p, pool, ty) {
                    Err(e) => Err(e),
                    Ok((v, p2, pl2)) => if command == TEXT || command == IGNORABLE_WHITESPACE {
                        Ok((value_units(v, false), p2, pl2, true))
                    } else if command == CDSECT {
                        Ok(
                            (
                                match v {
                                    TypedValue::Text(s) => text_units(cdata_or_escaped_spec(s)),
                                    TypedValue::Float(f) => text_units(
                                        seq!['<', '!', '[', 'C', 'D', 'A', 'T', 'A', '['],
                                    ) + seq![TextUnit::Float(f)] + text_units(
                                        seq![']', ']', '>'],
                                    ),
                                },
                                p2,
                                pl2,
                                true,
                            ),
                        )
                    } else if command == ENTITY_REF {
                        match v {
                            TypedValue::Text(s) => match resolve_entity_spec(s) {
                                Ok(r) => Ok((text_units(escape_text_spec(r)), p2, pl2, true)),
                                Err(e) => Err(e),
                            },
                            TypedValue::Float(_) => Err(XmlDecodeError::UnknownEntity),
                        }
                    } else {
                        Ok((Seq::<DocUnit>::empty(), p2, pl2, true))
                    },
                }
            } else {
                Err(XmlDecodeError::UnsupportedToken(command))
            }
        },
    }
}

/// Reading a token moves past its position, and not past the end.
pub proof fn lemma_token_advances(b: Seq<u8>, pos: nat, pool: Seq<Seq<char>>)
    requires
        pos <= b.len(),
    ensures
        token_spec(b, pos, pool) matches Ok((_, p, _, _)) ==> pos < p <= b.len(),
{
    if pos < b.len() {
        let token = b[pos as int];
        if token & 0x0F == START_TAG {
            if let Ok((name, p2, pl2)) = read_interned_spec(b, pos + 1, pool) {
                lemma_attributes_advance(b, p2, pl2);
            }
        }
    }
}

/// The text of the tokens from `pos` on, until the end of the bytes or an
/// `END_DOCUMENT` token.
pub open spec fn decode_from_spec(b: Seq<u8>, pos: nat, pool: Seq<Seq<char>>) -> Result<
    Seq<DocUnit>,
    XmlDecodeError,
>
    decreases b.len() - pos,
{
    if pos >= b.len() {
        Ok(Seq::<DocUnit>::empty())
    } else {
        match token_spec(b, pos, pool) {
            Err(e) => Err(e),
            Ok((u, p, pl, more)) => if !more {
                Ok(u)
            } else {
                proof {
                    lemma_token_advances(b, pos, pool);
                }
                match decode_from_spec(b, p, pl) {
                    Ok(rest) => Ok(u + rest),
                    Err(e) => Err(e),
                }
            },
        }
    }
}

/// The text XML that the ABX document `b` encodes.
pub open spec fn decode_abx_spec(b: Seq<u8>) -> Result<Seq<DocUnit>, XmlDecodeError> {
    if has_abx_magic(b) {
        decode_from_spec(b, 4, Seq::<Seq<char>>::empty())
    } else {
        Err(XmlDecodeError::MissingMagic)
    }
}

/// `Ok(prefix + x)` for `Ok(x)`; errors unchanged.
pub open spec fn prepend_units(prefix: Seq<DocUnit>, r: Result<Seq<DocUnit>, XmlDecodeError>) -> Result<
    Seq<DocUnit>,
    XmlDecodeError,
> {
    match r {
        Ok(x) => Ok(prefix + x),
        Err(e) => Err(e),
    }
}

/// The characters of each interned string.
pub open spec fn pool_view(strings: Seq<Vec<char>>) -> Seq<Seq<char>> {
    Seq::new(strings.len(), |i: int| strings[i]@)
}

/// The view of a value read by the decoder.
pub open spec fn typed_value_view(v: TypedValue<Vec<char>>) -> TypedValue<Seq<char>> {
    match v {
        TypedValue::Text(s) => TypedValue::Text(s@),
        TypedValue::Float(f) => TypedValue::Float(f),
    }
}

/// Whether `bytes` starts with the ABX magic.
pub fn starts_with_abx_magic(bytes: &[u8]) -> (r: bool)
    ensures
        r == has_abx_magic(bytes@),
{
    let r = bytes.len() >= 4 && bytes[0] == 0x41 && bytes[1] == 0x42 && bytes[2] == 0x58
        && bytes[3] == 0x00;
    if bytes.len() >= 4 {
        if r {
            assert(bytes@.take(4) =~= abx_magic());
        } else {
            assert(bytes@.take(4) != abx_magic()) by {
                if bytes@.take(4) =~= abx_magic() {
                    assert(bytes@.take(4)[0] == 0x41);
                    assert(bytes@.take(4)[1] == 0x42);
                    assert(bytes@.take(4)[2] == 0x58);
                    assert(bytes@.take(4)[3] == 0x00);
                }
            }
        }
    }
    r
}

/// A decoder that reads an ABX document token by token.
pub struct AbxDecoder<'a> {
    bytes: &'a [u8],
    pos: usize,
    interned_strings: Vec<Vec<char>>,
}

impl<'a> AbxDecoder<'a> {
    /// The document's bytes.
    pub closed spec fn bytes_view(&self) -> Seq<u8> {
        self.bytes@
    }

    /// The position of the next byte to read.
    pub closed spec fn pos_view(&self) -> nat {
        self.pos as nat
    }

    /// The strings interned so far.
    pub closed spec fn pool(&self) -> Seq<Seq<char>> {
        pool_view(self.interned_strings@)
    }

    /// The position is within the document.
    pub closed spec fn wf(&self) -> bool {
        self.pos <= self.bytes@.len()
    }

    /// A decoder placed after the magic of `bytes`.
    pub fn new(bytes: &'a [u8]) -> (r: Result<Self, XmlDecodeError>)
        ensures
            match r {
                Ok(d) => has_abx_magic(bytes@) && d.wf() && d.bytes_view() == bytes@ && d.pos_view()
                    == 4 && d.pool() == Seq::<Seq<char>>::empty(),
                Err(e) => !has_abx_magic(bytes@) && e == XmlDecodeError::MissingMagic,
            },
    {
        if !starts_with_abx_magic(bytes) {
            return Err(XmlDecodeError::MissingMagic);
        }
        let d = AbxDecoder { bytes, pos: 4, interned_strings: Vec::new() };
        assert(d.pool() =~= Seq::<Seq<char>>::empty());
        Ok(d)
    }

    /// The `len` bytes at the position; the position moves past them.
    fn read_slice(&mut self, len: usize) -> (r: Result<&'a [u8], XmlDecodeError>)
        requires
            old(self).wf(),
        ensures
            final(self).wf(),
            final(self).bytes == old(self).bytes,
            final(self).interned_strings == old(self).interned_strings,
            match read_slice_spec(old(self).bytes@, old(self).pos as nat, len as nat) {
                Ok((x, p)) => r matches Ok(s) && s@ == x && final(self).pos == p,
                Err(e) => r == Err::<&'a [u8], XmlDecodeError>(e),
            },
    {
        let end = match self.pos.checked_add(len) {
            Some(end) => end,
            None => {
                return Err(XmlDecodeError::OffsetOverflow);
            },
        };
        if end > self.bytes.len() {
            return Err(XmlDecodeError::UnexpectedEnd);
        }
        let bytes: &'a [u8] = self.bytes;
        let slice = &bytes[self.pos..end];
        self.pos = end;
        Ok(slice)
    }

    /// The byte at the position; the position moves past it.
    fn read_u8(&mut self) -> (r: Result<u8, XmlDecodeError>)
        requires
            old(self).wf(),
        ensures
            final(self).wf(),
            final(self).bytes == old(self).bytes,
            final(self).interned_strings == old(self).interned_strings,
            match read_u8_spec(old(self).bytes@, old(self).pos as nat) {
                Ok((v, p)) => r == Ok::<u8, XmlDecodeError>(v) && final(self).pos == p,
                Err(e) => r == Err::<u8, XmlDecodeError>(e),
            },
    {
        if self.pos < self.bytes.len() {
            let byte = self.bytes[self.pos];
            self.pos = self.pos + 1;
            Ok(byte)
        } else {
            Err(XmlDecodeError::UnexpectedEnd)
        }
    }

    /// A big-endian `u16`.
    fn read_u16(&mut self) -> (r: Result<u16, XmlDecodeError>)
        requires
            old(self).wf(),
        ensures
            final(self).wf(),
            final(self).bytes == old(self).bytes,
            final(self).interned_strings == old(self).interned_strings,
            match read_be_spec(old(self).bytes@, old(self).pos as nat, 2) {
                Ok((v, p)) => r matches Ok(x) && x as nat == v && final(self).pos == p,
                Err(e) => r == Err::<u16, XmlDecodeError>(e),
            },
    {
        let bytes = self.read_slice(2)?;
        proof {
            reveal_with_fuel(be_spec, 3);
            assert(bytes@.drop_last().drop_last() =~= Seq::<u8>::empty());
        }
        Ok((bytes[0] as u16) * 256 + (bytes[1] as u16))
    }

    /// A big-endian `u32`.
    fn read_u32(&mut self) -> (r: Result<u32, XmlDecodeError>)
        requires
            old(self).wf(),
        ensures
            final(self).wf(),
            final(self).bytes == old(self).bytes,
            final(self).interned_strings == old(self).interned_strings,
            match read_be_spec(old(self).bytes@, old(self).pos as nat, 4) {
                Ok((v, p)) => r matches Ok(x) && x as nat == v && final(self).pos == p,
                Err(e) => r == Err::<u32, XmlDecodeError>(e),
            },
    {
        let bytes = self.read_slice(4)?;
        proof {
            reveal_with_fuel(be_spec, 5);
            let x = bytes@;
            assert(x.drop_last().drop_last().drop_last().drop_last() =~= Seq::<u8>::empty());
            assert(x.drop_last().drop_last().drop_last() =~= seq![x[0]]);
            assert(x.drop_last().drop_last() =~= seq![x[0], x[1]]);
            assert(x.drop_last() =~= seq![x[0], x[1], x[2]]);
        }
        let v: u32 = (((bytes[0] as u32) * 256 + (bytes[1] as u32)) * 256 + (bytes[2] as u32))
            * 256 + (bytes[3] as u32);
        Ok(v)
    }

    /// A big-endian `u64`.
    fn read_u64(&mut self) -> (r: Result<u64, XmlDecodeError>)
        requires
            old(self).wf(),
        ensures
            final(self).wf(),
            final(self).bytes == old(self).bytes,
            final(self).interned_strings == old(self).interned_strings,
            match read_be_spec(old(self).bytes@, old(self).pos as nat, 8) {
                Ok((v, p)) => r matches Ok(x) && x as nat == v && final(self).pos == p,
                Err(e) => r == Err::<u64, XmlDecodeError>(e),
            },
    {
        let bytes = self.read_slice(8)?;
        let mut v: u64 = 0;
        let mut i: usize = 0;
        assert(bytes@.take(0) =~= Seq::<u8>::empty());
        proof {
            lemma2_to64();
        }
        while i < 8
            invariant
                bytes@.len() == 8,
                i <= 8,
                v as nat == be_spec(bytes@.take(i as int)),
                v < pow2(8 * i as nat),
                pow2(8) == 256,
                pow2(64) == 0x1_0000_0000_0000_0000,
            decreases 8 - i,
        {
            assert(bytes@.take(i + 1).drop_last() =~= bytes@.take(i as int));
            proof {
                lemma_pow2_adds(8 * i as nat, 8);
                assert(8 * i as nat + 8 == 8 * (i + 1) as nat);
                if i < 7 {
                    lemma_pow2_strictly_increases(8 * (i + 1) as nat, 64);
                }
            }
            assert(v * 256 + bytes[i as int] < pow2(8 * (i + 1) as nat)) by (nonlinear_arith)
                requires
                    v < pow2(8 * i as nat),
                    pow2(8 * (i + 1) as nat) == pow2(8 * i as nat) * 256,
                    bytes[i as int] < 256,
            ;
            v = v * 256 + (bytes[i] as u64);
            i = i + 1;
        }
        assert(bytes@.take(8) =~= bytes@);
        Ok(v)
    }

    /// A big-endian 32-bit two's complement integer.
    fn read_i32(&mut self) -> (r: Result<i32, XmlDecodeError>)
        requires
            old(self).wf(),
        ensures
            final(self).wf(),
            final(self).bytes == old(self).bytes,
            final(self).interned_strings == old(self).interned_strings,
            match read_be_spec(old(self).bytes@, old(self).pos as nat, 4) {
                Ok((v, p)) => r matches Ok(x) && x as int == signed32_spec(v) && final(self).pos
                    == p,
                Err(e) => r == Err::<i32, XmlDecodeError>(e),
            },
    {
        let v = self.read_u32()?;
        if v >= 0x8000_0000 {
            Ok(((v - 0x8000_0000) as i32) - 0x7FFF_FFFF - 1)
        } else {
            Ok(v as i32)
        }
    }

    /// A big-endian 64-bit two's complement integer.
    fn read_i64(&mut self) -> (r: Result<i64, XmlDecodeError>)
        requires
            old(self).wf(),
        ensures
            final(self).wf(),
            final(self).bytes == old(self).bytes,
            final(self).interned_strings == old(self).interned_strings,
            match read_be_spec(old(self).bytes@, old(self).pos as nat, 8) {
                Ok((v, p)) => r matches Ok(x) && x as int == signed64_spec(v) && final(self).pos
                    == p,
                Err(e) => r == Err::<i64, XmlDecodeError>(e),
            },
    {
        let v = self.read_u64()?;
        if v >= 0x8000_0000_0000_0000 {
            Ok(((v - 0x8000_0000_0000_0000) as i64) - 0x7FFF_FFFF_FFFF_FFFF - 1)
        } else {
            Ok(v as i64)
        }
    }

    /// A 32-bit float, kept as its bits.
    fn read_f32(&mut self) -> (r: Result<FloatValue, XmlDecodeError>)
        requires
            old(self).wf(),
        ensures
            final(self).wf(),
            final(self).bytes == old(self).bytes,
            final(self).interned_strings == old(self).interned_strings,
            match read_be_spec(old(self).bytes@, old(self).pos as nat, 4) {
                Ok((v, p)) => r == Ok::<FloatValue, XmlDecodeError>(FloatValue::Single(v as u32))
                    && final(self).pos == p,
                Err(e) => r == Err::<FloatValue, XmlDecodeError>(e),
            },
    {
        let v = self.read_u32()?;
        Ok(FloatValue::Single(v))
    }

    /// A 64-bit float, kept as its bits.
    fn read_f64(&mut self) -> (r: Result<FloatValue, XmlDecodeError>)
        requires
            old(self).wf(),
        ensures
            final(self).wf(),
            final(self).bytes == old(self).bytes,
            final(self).interned_strings == old(self).interned_strings,
            match read_be_spec(old(self).bytes@, old(self).pos as nat, 8) {
                Ok((v, p)) => r == Ok::<FloatValue, XmlDecodeError>(FloatValue::Double(v as u64))
                    && final(self).pos == p,
                Err(e) => r == Err::<FloatValue, XmlDecodeError>(e),
            },
    {
        let v = self.read_u64()?;
        Ok(FloatValue::Double(v))
    }

    /// The command (low four bits) of the next token, if there is one.
    fn peek_command(&self) -> (r: Option<u8>)
        requires
            self.wf(),
        ensures
            self.pos < self.bytes@.len() ==> r == Some(self.bytes@[self.pos as int] & 0x0F),
            self.pos >= self.bytes@.len() ==> r is None,
    {
        if self.pos < self.bytes.len() {
            Some(self.bytes[self.pos] & 0x0F)
        } else {
            None
        }
    }

    /// A string: its byte length, then its bytes in (modified) UTF-8.
    fn read_utf_string(&mut self) -> (r: Result<Vec<char>, XmlDecodeError>)
        requires
            old(self).wf(),
        ensures
            final(self).wf(),
            final(self).bytes == old(self).bytes,
            final(self).interned_strings == old(self).interned_strings,
            match read_utf_spec(old(self).bytes@, old(self).pos as nat) {
                Ok((s, p)) => r matches Ok(x) && x@ == s && final(self).pos == p,
                Err(e) => r == Err::<Vec<char>, XmlDecodeError>(e),
            },
    {
        let length = self.read_u16()?;
        let bytes = self.read_slice(length as usize)?;
        let text = decode_modified_utf8(bytes)?;
        Ok(chars_of(text.as_str()))
    }

    /// An interned string: a new one (after the marker `0xFFFF`), which is
    /// added to the interned strings, or one interned before, by index.
    fn read_interned_string(&mut self) -> (r: Result<Vec<char>, XmlDecodeError>)
        requires
            old(self).wf(),
        ensures
            final(self).wf(),
            final(self).bytes == old(self).bytes,
            match read_interned_spec(old(self).bytes@, old(self).pos as nat, old(self).pool()) {
                Ok((s, p, pl)) => r matches Ok(x) && x@ == s && final(self).pos == p
                    && final(self).pool() == pl,
                Err(e) => r == Err::<Vec<char>, XmlDecodeError>(e),
            },
    {
        let index = self.read_u16()?;
        if index == INTERNED_STRING_NEW_MARKER {
            let value = self.read_utf_string()?;
            let copy = suffix_from(value.as_slice(), 0);
            assert(value@.subrange(0, value@.len() as int) =~= value@);
            let ghost before = self.interned_strings@;
            self.interned_strings.push(copy);
            assert(self.pool() =~= pool_view(before).push(value@));
            return Ok(value);
        }
        let i = index as usize;
        if i < self.interned_strings.len() {
            let value = suffix_from(self.interned_strings[i].as_slice(), 0);
            assert(self.interned_strings@[i as int]@.subrange(
                0,
                self.interned_strings@[i as int]@.len() as int,
            ) =~= self.interned_strings@[i as int]@);
            Ok(value)
        } else {
            Err(XmlDecodeError::InvalidStringPoolIndex(index))
        }
    }

    /// A byte array written in hexadecimal or Base64.
    fn read_bytes_text(&mut self, base64: bool) -> (r: Result<Vec<char>, XmlDecodeError>)
        requires
            old(self).wf(),
        ensures
            final(self).wf(),
            final(self).bytes == old(self).bytes,
            final(self).interned_strings == old(self).interned_strings,
            match read_bytes_text_spec(old(self).bytes@, old(self).pos as nat, base64) {
                Ok((s, p)) => r matches Ok(x) && x@ == s && final(self).pos == p,
                Err(e) => r == Err::<Vec<char>, XmlDecodeError>(e),
            },
    {
        let length = self.read_u16()?;
        let bytes = self.read_slice(length as usize)?;
        if base64 {
            Ok(bytes_to_base64(bytes))
        } else {
            Ok(bytes_to_hex(bytes))
        }
    }

    /// A value of type `type_info`.
    fn read_typed_value(&mut self, type_info: u8) -> (r: Result<
        TypedValue<Vec<char>>,
        XmlDecodeError,
    >)
        requires
            old(self).wf(),
        ensures
            final(self).wf(),
            final(self).bytes == old(self).bytes,
            match read_typed_spec(
                old(self).bytes@,
                old(self).pos as nat,
                old(self).pool(),
                type_info,
            ) {
                Ok((v, p, pl)) => r matches Ok(x) && typed_value_view(x) == v && final(self).pos == p
                    && final(self).pool() == pl,
                Err(e) => r == Err::<TypedValue<Vec<char>>, XmlDecodeError>(e),
            },
    {
        if type_info == TYPE_NULL {
            let empty: Vec<char> = Vec::new();
            assert(empty@ =~= Seq::<char>::empty());
            Ok(TypedValue::Text(empty))
        } else if type_info == TYPE_STRING {
            let s = self.read_utf_string()?;
            Ok(TypedValue::Text(s))
        } else if type_info == TYPE_STRING_INTERNED {
            let s = self.read_interned_string()?;
            Ok(TypedValue::Text(s))
        } else if type_info == TYPE_BYTES_HEX {
            let s = self.read_bytes_text(false)?;
            Ok(TypedValue::Text(s))
        } else if type_info == TYPE_BYTES_BASE64 {
            let s = self.read_bytes_text(true)?;
            Ok(TypedValue::Text(s))
        } else if type_info == TYPE_INT {
            let v = self.read_i32()?;
            let mut out: Vec<char> = Vec::new();
            push_i64_decimal(&mut out, v as i64);
            assert(out@ =~= int_decimal_spec(v as int));
            Ok(TypedValue::Text(out))
        } else if type_info == TYPE_INT_HEX {
            let v = self.read_u32()?;
            let mut out: Vec<char> = Vec::new();
            out.push('0');
            out.push('x');
            push_u64_hex(&mut out, v as u64);
            assert(out@ =~= seq!['0', 'x'] + hex_spec(v as nat));
            Ok(TypedValue::Text(out))
        } else if type_info == TYPE_LONG {
            let v = self.read_i64()?;
            let mut out: Vec<char> = Vec::new();
            push_i64_decimal(&mut out, v);
            assert(out@ =~= int_decimal_spec(v as int));
            Ok(TypedValue::Text(out))
        } else if type_info == TYPE_LONG_HEX {
            let v = self.read_u64()?;
            let mut out: Vec<char> = Vec::new();
            out.push('0');
            out.push('x');
            push_u64_hex(&mut out, v);
            assert(out@ =~= seq!['0', 'x'] + hex_spec(v as nat));
            Ok(TypedValue::Text(out))
        } else if type_info == TYPE_FLOAT {
            let f = self.read_f32()?;
            Ok(TypedValue::Float(f))
        } else if type_info == TYPE_DOUBLE {
            let f = self.read_f64()?;
            Ok(TypedValue::Float(f))
        } else if type_info == TYPE_BOOLEAN_TRUE {
            let t = ['t', 'r', 'u', 'e'];
            let mut out: Vec<char> = Vec::new();
            out.extend_from_slice(t.as_slice());
            assert(out@ =~= true_text());
            Ok(TypedValue::Text(out))
        } else if type_info == TYPE_BOOLEAN_FALSE {
            let f = ['f', 'a', 'l', 's', 'e'];
            let mut out: Vec<char> = Vec::new();
            out.extend_from_slice(f.as_slice());
            assert(out@ =~= false_text());
            Ok(TypedValue::Text(out))
        } else {
            Err(XmlDecodeError::UnsupportedType(type_info))
        }
    }

    /// Reads the attribute whose token was `token` and appends
    /// ` name="value"`.
    fn write_attribute(&mut self, out: &mut Vec<DocUnit>, token: u8) -> (r: Result<
        (),
        XmlDecodeError,
    >)
        requires
            old(self).wf(),
        ensures
            final(self).wf(),
            final(self).bytes == old(self).bytes,
            match attribute_spec(old(self).bytes@, old(self).pos as nat, old(self).pool(), token) {
                Ok((u, p, pl)) => r is Ok && final(out)@ == old(out)@ + u && final(self).pos == p
                    && final(self).pool() == pl,
                Err(e) => r == Err::<(), XmlDecodeError>(e),
            },
    {
        let type_info = token & 0xF0;
        let name = self.read_interned_string()?;
        let value = self.read_typed_value(type_info)?;
        let ghost start = out@;
        push_char_unit(out, ' ');
        push_text(out, name.as_slice());
        let eq = ['=', '"'];
        assert(eq@ =~= seq!['=', '"']);
        push_text(out, eq.as_slice());
        proof {
            lemma_text_units_add(seq![' '], name@);
            lemma_text_units_add(seq![' '] + name@, seq!['=', '"']);
            assert(out@ =~= start + text_units(attribute_open_text(name@)));
        }
        let ghost mid = out@;
        match value {
            TypedValue::Text(s) => {
                push_escaped_attribute(out, s.as_slice());
            },
            TypedValue::Float(f) => {
                out.push(TextUnit::Float(f));
                assert(out@ =~= mid + seq![TextUnit::Float(f)]);
            },
        }
        push_char_unit(out, '"');
        assert(out@ =~= start + text_units(attribute_open_text(name@)) + value_units(
            typed_value_view(value),
            true,
        ) + text_units(seq!['"']));
        Ok(())
    }

    /// Reads the name and the attributes of a start tag (after its token)
    /// and appends `<name attributes>`.
    #[verifier::rlimit(40)]
    fn write_start_tag(&mut self, out: &mut Vec<DocUnit>) -> (r: Result<(), XmlDecodeError>)
        requires
            old(self).wf(),
        ensures
            final(self).wf(),
            final(self).bytes == old(self).bytes,
            match read_interned_spec(old(self).bytes@, old(self).pos as nat, old(self).pool()) {
                Err(e) => r == Err::<(), XmlDecodeError>(e),
                Ok((name, p2, pl2)) => match attributes_spec(old(self).bytes@, p2, pl2) {
                    Err(e) => r == Err::<(), XmlDecodeError>(e),
                    Ok((attrs, p3, pl3)) => r is Ok && final(out)@ == old(out)@ + (text_units(
                        seq!['<'] + name,
                    ) + attrs + text_units(seq!['>'])) && final(self).pos == p3
                        && final(self).pool() == pl3,
                },
            },
    {
        let ghost b = self.bytes@;
        let ghost start = out@;
        let tag_name = self.read_interned_string()?;
        push_char_unit(out, '<');
        push_text(out, tag_name.as_slice());
        proof {
            lemma_text_units_add(seq!['<'], tag_name@);
        }
        let ghost after_name = out@;
        let ghost attr_pos = self.pos as nat;
        let ghost attr_pool = self.pool();
        let ghost mut attrs: Seq<DocUnit> = Seq::empty();
        assert(out@ =~= start + text_units(seq!['<'] + tag_name@));
        assert(out@ =~= after_name + attrs);
        proof {
            lemma_prepend_attrs_empty(attributes_spec(b, attr_pos, attr_pool));
        }
        #[verifier::loop_isolation(false)]
        while self.peek_command() == Some(ATTRIBUTE)
            invariant
                self.wf(),
                self.bytes@ == b,
                out@ == after_name + attrs,
                attributes_spec(b, attr_pos, attr_pool) == prepend_attrs(
                    attrs,
                    attributes_spec(b, self.pos as nat, self.pool()),
                ),
            decreases b.len() - self.pos,
        {
            let ghost before_pos = self.pos as nat;
            let ghost before_pool = self.pool();
            proof {
                lemma_attributes_step(b, before_pos, before_pool);
                lemma_attribute_advances(b, before_pos + 1, before_pool, b[before_pos as int]);
            }
            let attribute_token = self.read_u8()?;
            let ghost before_out = out@;
            self.write_attribute(out, attribute_token)?;
            proof {
                let u = match attribute_spec(b, before_pos + 1, before_pool, b[before_pos as int]) {
                    Ok((u, _, _)) => u,
                    Err(_) => Seq::<DocUnit>::empty(),
                };
                assert(out@ == before_out + u);
                lemma_prepend_attrs_assoc(attrs, u, attributes_spec(b, self.pos as nat, self.pool()));
                attrs = attrs + u;
                assert(out@ =~= after_name + attrs);
            }
        }
        assert(attributes_spec(b, self.pos as nat, self.pool()) == Ok::<
            (Seq<DocUnit>, nat, Seq<Seq<char>>),
            XmlDecodeError,
        >((Seq::<DocUnit>::empty(), self.pos as nat, self.pool())));
        assert(attrs + Seq::<DocUnit>::empty() =~= attrs);
        push_char_unit(out, '>');
        assert(out@ =~= start + text_units(seq!['<'] + tag_name@) + attrs + text_units(
            seq!['>'],
        ));
        Ok(())
    }

    /// Reads one token and appends its text; returns whether decoding goes on.
    pub fn process_token(&mut self, out: &mut Vec<DocUnit>) -> (r: Result<bool, XmlDecodeError>)
        requires
            old(self).wf(),
        ensures
            final(self).wf(),
            final(self).bytes_view() == old(self).bytes_view(),
            match token_spec(old(self).bytes_view(), old(self).pos_view(), old(self).pool()) {
                Ok((u, p, pl, more)) => r == Ok::<bool, XmlDecodeError>(more) && final(out)@ == old(
                    out,
                )@ + u && final(self).pos_view() == p && final(self).pool() == pl,
                Err(e) => r == Err::<bool, XmlDecodeError>(e),
            },
            r is Err && !(read_u8_spec(old(self).bytes_view(), old(self).pos_view()) matches Ok((t, _))
                && t & 0x0F == START_TAG) ==> final(out)@ == old(out)@,
    {
        let ghost b = self.bytes@;
        let ghost start = out@;
        let token = self.read_u8()?;
        let command = token & 0x0F;
        let type_info = token & 0xF0;
        if command == START_DOCUMENT {
            assert(out@ =~= start + Seq::<DocUnit>::empty());
            return Ok(true);
        }
        if command == END_DOCUMENT {
            assert(out@ =~= start + Seq::<DocUnit>::empty());
            return Ok(false);
        }
        if command == START_TAG {
            self.write_start_tag(out)?;
            return Ok(true);
        }
        if command == END_TAG {
            let tag_name = self.read_interned_string()?;
            let open = ['<', '/'];
            assert(open@ =~= seq!['<', '/']);
            push_text(out, open.as_slice());
            push_text(out, tag_name.as_slice());
            push_char_unit(out, '>');
            proof {
                lemma_text_units_add(seq!['<', '/'], tag_name@);
                lemma_text_units_add(seq!['<', '/'] + tag_name@, seq!['>']);
            }
            assert(out@ =~= start + text_units(seq!['<', '/'] + tag_name@ + seq!['>']));
            return Ok(true);
        }
        if command == TEXT || command == IGNORABLE_WHITESPACE {
            let value = self.read_typed_value(type_info)?;
            match value {
                TypedValue::Text(s) => {
                    push_escaped_text(out, s.as_slice());
                },
                TypedValue::Float(f) => {
                    out.push(TextUnit::Float(f));
                    assert(out@ =~= start + seq![TextUnit::Float(f)]);
                },
            }
            return Ok(true);
        }
        if command == CDSECT {
            let value = self.read_typed_value(type_info)?;
            match value {
                TypedValue::Text(s) => {
                    push_cdata_or_escaped_text(out, s.as_slice());
                },
                TypedValue::Float(f) => {
                    let open = ['<', '!', '[', 'C', 'D', 'A', 'T', 'A', '['];
                    let close = [']', ']', '>'];
                    assert(open@ =~= seq!['<', '!', '[', 'C', 'D', 'A', 'T', 'A', '[']);
                    assert(close@ =~= seq![']', ']', '>']);
                    push_text(out, open.as_slice());
                    out.push(TextUnit::Float(f));
                    push_text(out, close.as_slice());
                    assert(out@ =~= start + text_units(
                        seq!['<', '!', '[', 'C', 'D', 'A', 'T', 'A', '['],
                    ) + seq![TextUnit::Float(f)] + text_units(seq![']', ']', '>']));
                },
            }
            return Ok(true);
        }
        if command == ENTITY_REF {
            let entity = self.read_typed_value(type_info)?;
            match entity {
                TypedValue::Text(s) => {
                    let value = resolve_entity_ref(s.as_slice())?;
                    push_escaped_text(out, value.as_slice());
                },
                TypedValue::Float(_) => {
                    return Err(XmlDecodeError::UnknownEntity);
                },
            }
            return Ok(true);
        }
        if command == PROCESSING_INSTRUCTION || command == COMMENT || command == DOCDECL {
            let _ = self.read_typed_value(type_info)?;
            assert(out@ =~= start + Seq::<DocUnit>::empty());
            return Ok(true);
        }
        Err(XmlDecodeError::UnsupportedToken(command))
    }

    /// Reads tokens until the end of the bytes or an `END_DOCUMENT` token and
    /// returns the text they make.
    pub fn decode(&mut self) -> (r: Result<Vec<DocUnit>, XmlDecodeError>)
        requires
            old(self).wf(),
        ensures
            match decode_from_spec(old(self).bytes_view(), old(self).pos_view(), old(self).pool()) {
                Ok(u) => r matches Ok(x) && x@ == u,
                Err(e) => r == Err::<Vec<DocUnit>, XmlDecodeError>(e),
            },
    {
        let ghost b = self.bytes@;
        let ghost whole = decode_from_spec(b, self.pos as nat, self.pool());
        let mut xml: Vec<DocUnit> = Vec::new();
        assert(xml@ + Seq::<DocUnit>::empty() =~= Seq::<DocUnit>::empty());
        assert forall|x: Seq<DocUnit>| #![trigger Seq::<DocUnit>::empty() + x]
            Seq::<DocUnit>::empty() + x == x by {
            assert(Seq::<DocUnit>::empty() + x =~= x);
        }
        #[verifier::loop_isolation(false)]
        while self.pos < self.bytes.len()
            invariant
                self.wf(),
                self.bytes@ == b,
                whole == prepend_units(xml@, decode_from_spec(b, self.pos as nat, self.pool())),
            decreases b.len() - self.pos,
        {
            let ghost before_pos = self.pos as nat;
            let ghost before_pool = self.pool();
            let ghost before_xml = xml@;
            proof {
                lemma_token_advances(b, before_pos, before_pool);
            }
            let more = self.process_token(&mut xml)?;
            assert forall|u1: Seq<DocUnit>, u2: Seq<DocUnit>, u3: Seq<DocUnit>|
                #![trigger (u1 + u2) + u3] (u1 + u2) + u3 == u1 + (u2 + u3) by {
                assert((u1 + u2) + u3 =~= u1 + (u2 + u3));
            }
            if !more {
                return Ok(xml);
            }
        }
        assert(xml@ + Seq::<DocUnit>::empty() =~= xml@);
        Ok(xml)
    }
}

/// Decodes the ABX document `bytes` to the text XML it encodes.
pub fn decode_abx(bytes: &[u8]) -> (r: Result<Vec<DocUnit>, XmlDecodeError>)
    ensures
        match decode_abx_spec(bytes@) {
            Ok(u) => r matches Ok(x) && x@ == u,
            Err(e) => r == Err::<Vec<DocUnit>, XmlDecodeError>(e),
        },
{
    let mut decoder = AbxDecoder::new(bytes)?;
    decoder.decode()
}

/// A boolean value takes no bytes: type `0xC0` is the text `true` and type
/// `0xD0` the text `false`, whatever follows and whatever was interned.
pub proof fn law_boolean_values(b: Seq<u8>, pos: nat, pool: Seq<Seq<char>>)
    ensures
        read_typed_spec(b, pos, pool, 0xC0u8) == Ok::<_, XmlDecodeError>(
            (TypedValue::Text(seq!['t', 'r', 'u', 'e']), pos, pool),
        ),
        read_typed_spec(b, pos, pool, 0xD0u8) == Ok::<_, XmlDecodeError>(
            (TypedValue::Text(seq!['f', 'a', 'l', 's', 'e']), pos, pool),
        ),
        read_typed_spec(b, pos, pool, 0x10u8) == Ok::<_, XmlDecodeError>(
            (TypedValue::Text(Seq::<char>::empty()), pos, pool),
        ),
{
}

/// The unsigned big-endian value of the four bytes at `pos`.
pub open spec fn be4_at(b: Seq<u8>, pos: nat) -> nat {
    (b[pos as int] as nat) * 0x100_0000 + (b[(pos + 1) as int] as nat) * 0x1_0000 + (b[(pos + 2) as int] as nat)
        * 0x100 + (b[(pos + 3) as int] as nat)
}

/// The unsigned big-endian value of the eight bytes at `pos`.
pub open spec fn be8_at(b: Seq<u8>, pos: nat) -> nat {
    be4_at(b, pos) * 0x1_0000_0000 + be4_at(b, pos + 4)
}

/// The big-endian value of bytes extended by one byte.
proof fn lemma_be_push(x: Seq<u8>)
    requires
        x.len() > 0,
    ensures
        be_spec(x) == be_spec(x.drop_last()) * 256 + x.last() as nat,
{
}

/// The big-endian value of four and of eight bytes, digit by digit.
proof fn lemma_be_fixed(b: Seq<u8>, pos: nat)
    requires
        pos + 8 <= b.len(),
    ensures
        be_spec(b.subrange(pos as int, (pos + 4) as int)) == be4_at(b, pos),
        be_spec(b.subrange(pos as int, (pos + 8) as int)) == be8_at(b, pos),
{
    reveal_with_fuel(be_prefix, 9);
    let x8 = b.subrange(pos as int, (pos + 8) as int);
    assert(x8.take(0) =~= Seq::<u8>::empty());
    assert forall|j: int| 0 <= j <= 8 implies #[trigger] be_spec(x8.take(j)) == be_prefix(b, pos, j) by {
        lemma_be_prefix(b, pos, j);
    }
    assert(x8.take(8) =~= x8);
    assert(x8.take(4) =~= b.subrange(pos as int, (pos + 4) as int));
    assert(be_prefix(b, pos, 4) == be4_at(b, pos)) by (nonlinear_arith)
        requires
            be_prefix(b, pos, 4) == ((((b[pos as int] as nat) * 256 + b[(pos + 1) as int] as nat) * 256
                + b[(pos + 2) as int] as nat) * 256 + b[(pos + 3) as int] as nat),
    {
    }
    assert(be_prefix(b, pos, 8) == be8_at(b, pos)) by (nonlinear_arith)
        requires
            be_prefix(b, pos, 8) == ((((be_prefix(b, pos, 4) * 256 + b[(pos + 4) as int] as nat) * 256
                + b[(pos + 5) as int] as nat) * 256 + b[(pos + 6) as int] as nat) * 256 + b[(pos + 7) as int] as nat),
            be_prefix(b, pos, 4) == be4_at(b, pos),
    {
    }
}

/// The big-endian value of the first `j` of the bytes at `pos`.
spec fn be_prefix(b: Seq<u8>, pos: nat, j: int) -> nat
    decreases j,
{
    if j <= 0 {
        0
    } else {
        be_prefix(b, pos, j - 1) * 256 + b[pos + j - 1] as nat
    }
}

/// `be_spec` of a prefix of the bytes at `pos` is `be_prefix`.
proof fn lemma_be_prefix(b: Seq<u8>, pos: nat, j: int)
    requires
        0 <= j <= 8,
        pos + 8 <= b.len(),
    ensures
        be_spec(b.subrange(pos as int, (pos + 8) as int).take(j)) == be_prefix(b, pos, j),
    decreases j,
{
    let x = b.subrange(pos as int, (pos + 8) as int).take(j);
    if j > 0 {
        lemma_be_prefix(b, pos, j - 1);
        assert(x.drop_last() =~= b.subrange(pos as int, (pos + 8) as int).take(j - 1));
        assert(x.last() == b[pos + j - 1]);
    } else {
        assert(x =~= Seq::<u8>::empty());
    }
}

/// An `int` value (type `0x60`) takes the next four bytes and is written as
/// the signed decimal of their big-endian two's complement value; a `long`
/// (type `0x80`) does the same with eight bytes. The position moves past
/// them and nothing is interned.
pub proof fn law_integer_values(b: Seq<u8>, pos: nat, pool: Seq<Seq<char>>)
    requires
        b.len() <= usize::MAX,
    ensures
        pos + 4 <= b.len() ==> read_typed_spec(b, pos, pool, 0x60u8) == Ok::<_, XmlDecodeError>(
            (
                TypedValue::Text(
                    int_decimal_spec(
                        if be4_at(b, pos) >= 0x8000_0000 {
                            be4_at(b, pos) - 0x1_0000_0000
                        } else {
                            be4_at(b, pos) as int
                        },
                    ),
                ),
                pos + 4,
                pool,
            ),
        ),
        pos + 8 <= b.len() ==> read_typed_spec(b, pos, pool, 0x80u8) == Ok::<_, XmlDecodeError>(
            (
                TypedValue::Text(
                    int_decimal_spec(
                        if be8_at(b, pos) >= 0x8000_0000_0000_0000 {
                            be8_at(b, pos) - 0x1_0000_0000_0000_0000
                        } else {
                            be8_at(b, pos) as int
                        },
                    ),
                ),
                pos + 8,
                pool,
            ),
        ),
        pos + 8 > b.len() ==> read_typed_spec(b, pos, pool, 0x80u8) is Err,
        pos + 4 > b.len() ==> read_typed_spec(b, pos, pool, 0x60u8) is Err,
{
    if pos + 8 <= b.len() {
        lemma_be_fixed(b, pos);
    } else if pos + 4 <= b.len() {
        let x4 = b.subrange(pos as int, (pos + 4) as int);
        assert(x4.drop_last().drop_last().drop_last().drop_last() =~= Seq::<u8>::empty());
        assert(be_spec(x4) == ((((b[pos as int] as nat) * 256 + b[(pos + 1) as int] as nat) * 256
            + b[(pos + 2) as int] as nat) * 256 + b[(pos + 3) as int] as nat)) by {
            reveal_with_fuel(be_spec, 5);
        }
        assert(be_spec(x4) == be4_at(b, pos)) by (nonlinear_arith)
            requires
                be_spec(x4) == ((((b[pos as int] as nat) * 256 + b[(pos + 1) as int] as nat) * 256
                    + b[(pos + 2) as int] as nat) * 256 + b[(pos + 3) as int] as nat),
        {
        }
    }
}

/// A new interned string (index `0xFFFF`, then the string) is appended to
/// the pool, and an index below the pool's length names the string at that
/// index.
pub proof fn law_interned_strings(b: Seq<u8>, pos: nat, pool: Seq<Seq<char>>)
    requires
        b.len() <= usize::MAX,
        pos + 2 <= b.len(),
    ensures
        b[pos as int] == 0xFF && b[(pos + 1) as int] == 0xFF ==> match read_utf_spec(b, pos + 2) {
            Ok((s, q)) => read_interned_spec(b, pos, pool) == Ok::<_, XmlDecodeError>(
                (s, q, pool.push(s)),
            ),
            Err(e) => read_interned_spec(b, pos, pool) == Err::<(Seq<char>, nat, Seq<Seq<char>>), XmlDecodeError>(e),
        },
        !(b[pos as int] == 0xFF && b[(pos + 1) as int] == 0xFF) && (b[pos as int] as nat) * 256 + (
            b[(pos + 1) as int] as nat) < pool.len() ==> read_interned_spec(
            b,
            pos,
            pool,
        ) == Ok::<_, XmlDecodeError>(
            (pool[((b[pos as int] as nat) * 256 + (b[(pos + 1) as int] as nat)) as int], pos + 2, pool),
        ),
{
    let x = b.subrange(pos as int, (pos + 2) as int);
    assert(x.drop_last().drop_last() =~= Seq::<u8>::empty());
    assert(be_spec(x) == (b[pos as int] as nat) * 256 + (b[(pos + 1) as int] as nat)) by {
        reveal_with_fuel(be_spec, 3);
    }
}

/// Reading a value keeps what was interned, and may only add to it.
proof fn lemma_typed_keeps_pool(b: Seq<u8>, pos: nat, pool: Seq<Seq<char>>, ty: u8)
    ensures
        read_typed_spec(b, pos, pool, ty) matches Ok((_, _, pl)) ==> pl.len() >= pool.len()
            && pl.take(pool.len() as int) == pool,
{
    if let Ok((_, _, pl)) = read_typed_spec(b, pos, pool, ty) {
        if pl.len() > pool.len() {
            assert(pl.take(pool.len() as int) =~= pool);
        } else {
            assert(pl.take(pool.len() as int) =~= pool);
        }
    }
}

/// An attribute whose name is new (index `0xFFFF`, then the name) adds the
/// name to the pool right after what was interned before, so a later
/// reference to that index reads the name back.
pub proof fn law_new_attribute_name_is_interned(
    b: Seq<u8>,
    pos: nat,
    pool: Seq<Seq<char>>,
    token: u8,
    name: Seq<char>,
    q: nat,
    later: Seq<u8>,
    at: nat,
)
    requires
        b.len() <= usize::MAX,
        pos + 2 <= b.len(),
        b[pos as int] == 0xFF,
        b[(pos + 1) as int] == 0xFF,
        read_utf_spec(b, pos + 2) == Ok::<_, XmlDecodeError>((name, q)),
        later.len() <= usize::MAX,
        at + 2 <= later.len(),
        (later[at as int] as nat) * 256 + (later[(at + 1) as int] as nat) == pool.len(),
        pool.len() < 0xFFFF,
    ensures
        attribute_spec(b, pos, pool, token) matches Ok((_, _, pl)) ==> {
            &&& pl.len() > pool.len()
            &&& pl.take(pool.len() as int) == pool
            &&& pl[pool.len() as int] == name
            &&& read_interned_spec(later, at, pl) matches Ok((s, _, _)) && s == name
        },
{
    law_interned_strings(b, pos, pool);
    let pool1 = pool.push(name);
    lemma_typed_keeps_pool(b, q, pool1, token & 0xF0);
    if let Ok((_, _, pl)) = attribute_spec(b, pos, pool, token) {
        assert(pl.take(pool1.len() as int) == pool1);
        assert(pl[pool.len() as int] == pl.take(pool1.len() as int)[pool.len() as int]);
        assert(pl.take(pool.len() as int) =~= pool1.take(pool.len() as int));
        assert(pool1.take(pool.len() as int) =~= pool);
        law_interned_strings(later, at, pl);
    }
}

/// Hexadecimal integers (types `0x70` and `0x90`) are written as `0x` and
/// the lower-case hexadecimal digits of their unsigned big-endian bits, four
/// and eight bytes; strings (type `0x20`) are read as a length and bytes,
/// and interned strings (type `0x30`) through the pool.
pub proof fn law_text_values(b: Seq<u8>, pos: nat, pool: Seq<Seq<char>>)
    requires
        b.len() <= usize::MAX,
    ensures
        pos + 4 <= b.len() ==> read_typed_spec(b, pos, pool, 0x70u8) == Ok::<_, XmlDecodeError>(
            (TypedValue::Text(seq!['0', 'x'] + hex_spec(be4_at(b, pos))), pos + 4, pool),
        ),
        pos + 8 <= b.len() ==> read_typed_spec(b, pos, pool, 0x90u8) == Ok::<_, XmlDecodeError>(
            (TypedValue::Text(seq!['0', 'x'] + hex_spec(be8_at(b, pos))), pos + 8, pool),
        ),
        read_typed_spec(b, pos, pool, 0x20u8) == match read_utf_spec(b, pos) {
            Ok((s, p)) => Ok::<_, XmlDecodeError>((TypedValue::Text(s), p, pool)),
            Err(e) => Err(e),
        },
        read_typed_spec(b, pos, pool, 0x30u8) == match read_interned_spec(b, pos, pool) {
            Ok((s, p, pl)) => Ok::<_, XmlDecodeError>((TypedValue::Text(s), p, pl)),
            Err(e) => Err(e),
        },
{
    if pos + 8 <= b.len() {
        lemma_be_fixed(b, pos);
    } else if pos + 4 <= b.len() {
        let x4 = b.subrange(pos as int, (pos + 4) as int);
        assert(be_spec(x4) == ((((b[pos as int] as nat) * 256 + b[(pos + 1) as int] as nat) * 256
            + b[(pos + 2) as int] as nat) * 256 + b[(pos + 3) as int] as nat)) by {
            reveal_with_fuel(be_spec, 5);
        }
        assert(be_spec(x4) == be4_at(b, pos)) by (nonlinear_arith)
            requires
                be_spec(x4) == ((((b[pos as int] as nat) * 256 + b[(pos + 1) as int] as nat) * 256
                    + b[(pos + 2) as int] as nat) * 256 + b[(pos + 3) as int] as nat),
        {
        }
    }
}

/// The document tokens: `0x00` starts the document and `0x01` ends it,
/// neither writing anything; an end tag (`0x03`) naming an interned string
/// writes `</name>`; commands 11 to 14 are refused.
pub proof fn law_document_tokens(b: Seq<u8>, pos: nat, pool: Seq<Seq<char>>)
    requires
        b.len() <= usize::MAX,
        pos < b.len(),
    ensures
        b[pos as int] == 0x00 ==> token_spec(b, pos, pool) == Ok::<_, XmlDecodeError>(
            (Seq::<DocUnit>::empty(), pos + 1, pool, true),
        ),
        b[pos as int] == 0x01 ==> token_spec(b, pos, pool) == Ok::<_, XmlDecodeError>(
            (Seq::<DocUnit>::empty(), pos + 1, pool, false),
        ),
        11 <= b[pos as int] & 0x0F <= 14 ==> token_spec(b, pos, pool) == Err::<
            (Seq<DocUnit>, nat, Seq<Seq<char>>, bool),
            XmlDecodeError,
        >(XmlDecodeError::UnsupportedToken(b[pos as int] & 0x0F)),
        b[pos as int] == 0x03 && pos + 3 <= b.len() && !(b[(pos + 1) as int] == 0xFF && b[(pos
            + 2) as int] == 0xFF) && (b[(pos + 1) as int] as nat) * 256 + (b[(pos + 2) as int] as nat)
            < pool.len() ==> token_spec(b, pos, pool) == Ok::<_, XmlDecodeError>(
            (
                text_units(
                    seq!['<', '/'] + pool[((b[(pos + 1) as int] as nat) * 256 + (b[(pos
                        + 2) as int] as nat)) as int] + seq!['>'],
                ),
                pos + 3,
                pool,
                true,
            ),
        ),
{
    let t = b[pos as int];
    assert(0x00u8 & 0x0F == 0) by (bit_vector);
    assert(0x01u8 & 0x0F == 1) by (bit_vector);
    assert(0x03u8 & 0x0F == 3) by (bit_vector);
    if pos + 3 <= b.len() {
        law_interned_strings(b, pos + 1, pool);
    }
}

/// A start tag (`0x02`) followed by no attribute writes `<name>`: a name
/// given by index is taken from the pool, and a new name (index `0xFFFF`)
/// is written and added to the pool.
pub proof fn law_start_tag_without_attributes(b: Seq<u8>, pos: nat, pool: Seq<Seq<char>>)
    requires
        b.len() <= usize::MAX,
        pos + 3 <= b.len(),
        b[pos as int] == 0x02,
    ensures
        !(b[(pos + 1) as int] == 0xFF && b[(pos + 2) as int] == 0xFF) && (b[(pos + 1) as int] as nat)
            * 256 + (b[(pos + 2) as int] as nat) < pool.len() && (pos + 3 == b.len() || b[(pos
            + 3) as int] & 0x0F != 15) ==> token_spec(b, pos, pool) == Ok::<_, XmlDecodeError>(
            (
                text_units(
                    seq!['<'] + pool[((b[(pos + 1) as int] as nat) * 256 + (b[(pos
                        + 2) as int] as nat)) as int] + seq!['>'],
                ),
                pos + 3,
                pool,
                true,
            ),
        ),
        b[(pos + 1) as int] == 0xFF && b[(pos + 2) as int] == 0xFF ==> match read_utf_spec(
            b,
            pos + 3,
        ) {
            Ok((name, q)) => (q == b.len() || b[q as int] & 0x0F != 15) ==> token_spec(b, pos, pool)
                == Ok::<_, XmlDecodeError>(
                (text_units(seq!['<'] + name + seq!['>']), q, pool.push(name), true),
            ),
            Err(_) => token_spec(b, pos, pool) is Err,
        },
{
    assert(0x02u8 & 0x0F == 2) by (bit_vector);
    law_interned_strings(b, pos + 1, pool);
    let i = ((b[(pos + 1) as int] as nat) * 256 + (b[(pos + 2) as int] as nat)) as int;
    if 0 <= i < pool.len() {
        let name = pool[i];
        lemma_text_units_add(seq!['<'] + name, seq!['>']);
        assert(text_units(seq!['<'] + name) + Seq::<DocUnit>::empty() + text_units(seq!['>'])
            =~= text_units(seq!['<'] + name) + text_units(seq!['>']));
    }
    if let Ok((name, q)) = read_utf_spec(b, pos + 3) {
        lemma_text_units_add(seq!['<'] + name, seq!['>']);
        assert(text_units(seq!['<'] + name) + Seq::<DocUnit>::empty() + text_units(seq!['>'])
            =~= text_units(seq!['<'] + name) + text_units(seq!['>']));
    }
}

} // verus!
