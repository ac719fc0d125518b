use oukaro::abx::AbxDecoder;
use oukaro::markup::{FloatValue, bytes_to_base64, bytes_to_hex, resolve_entity_ref};
use oukaro::xml_error::XmlDecodeError;
use oukaro::xmlish::{
    decode_modified_utf8, decode_text_xml, decode_xmlish_bytes, parse_boolish, parse_i64ish,
    sniff_utf16_xml_without_bom,
};

fn render(value: FloatValue) -> String {
    match value {
        FloatValue::Single(bits) => f32::from_bits(bits).to_string(),
        FloatValue::Double(bits) => f64::from_bits(bits).to_string(),
    }
}

fn decode(bytes: &[u8]) -> Result<String, XmlDecodeError> {
    decode_xmlish_bytes(bytes, &render)
}

fn push_utf(buf: &mut Vec<u8>, value: &str) {
    buf.extend_from_slice(&(value.len() as u16).to_be_bytes());
    buf.extend_from_slice(value.as_bytes());
}

fn push_new_interned(buf: &mut Vec<u8>, value: &str) {
    buf.extend_from_slice(&0xFFFF_u16.to_be_bytes());
    push_utf(buf, value);
}

fn abx_with_root(body: &[u8]) -> Vec<u8> {
    let mut abx = b"ABX\0".to_vec();
    abx.push(0x00);
    abx.push(0x02);
    push_new_interned(&mut abx, "root");
    abx.extend_from_slice(body);
    abx.push(0x03);
    abx.extend_from_slice(&0_u16.to_be_bytes());
    abx.push(0x01);
    abx
}

fn chars(s: &str) -> Vec<char> {
    s.chars().collect()
}

#[test]
fn text_and_attributes_are_escaped() {
    let mut body = Vec::new();
    body.push(0x2F);
    push_new_interned(&mut body, "v");
    push_utf(&mut body, "a\"b'c<&>");
    let mut abx = abx_with_root(&[]);
    abx.truncate(abx.len() - 4);
    abx.extend_from_slice(&body);
    abx.push(0x24);
    push_utf(&mut abx, "x<y&z>");
    abx.push(0x03);
    abx.extend_from_slice(&0_u16.to_be_bytes());
    abx.push(0x01);
    assert_eq!(
        decode(&abx).unwrap(),
        "<root v=\"a&quot;b&apos;c&lt;&amp;&gt;\">x&lt;y&amp;z&gt;</root>"
    );
}

#[test]
fn cdata_is_kept_unless_it_holds_its_end() {
    let mut body = Vec::new();
    body.push(0x25);
    push_utf(&mut body, "a<b");
    body.push(0x25);
    push_utf(&mut body, "x]]>y");
    assert_eq!(
        decode(&abx_with_root(&body)).unwrap(),
        "<root><![CDATA[a<b]]>x]]&gt;y</root>"
    );
}

#[test]
fn typed_values_are_rendered_as_android_writes_them() {
    let mut body = Vec::new();
    body.push(0x6F);
    push_new_interned(&mut body, "i");
    body.extend_from_slice(&(-5_i32).to_be_bytes());
    body.push(0x9F);
    push_new_interned(&mut body, "l");
    body.extend_from_slice(&(-1_i64).to_be_bytes());
    body.push(0x4F);
    push_new_interned(&mut body, "h");
    body.extend_from_slice(&2_u16.to_be_bytes());
    body.extend_from_slice(&[0xAB, 0x01]);
    body.push(0xAF);
    push_new_interned(&mut body, "f");
    body.extend_from_slice(&1.5_f32.to_bits().to_be_bytes());
    body.push(0x1F);
    push_new_interned(&mut body, "n");
    assert_eq!(
        decode(&abx_with_root(&body)).unwrap(),
        "<root i=\"-5\" l=\"0xffffffffffffffff\" h=\"ab01\" f=\"1.5\" n=\"\"></root>"
    );
}

#[test]
fn interned_strings_are_reused_by_index() {
    let mut abx = b"ABX\0".to_vec();
    abx.push(0x02);
    push_new_interned(&mut abx, "a");
    abx.push(0x02);
    abx.extend_from_slice(&0_u16.to_be_bytes());
    abx.push(0x03);
    abx.extend_from_slice(&0_u16.to_be_bytes());
    abx.push(0x03);
    abx.extend_from_slice(&0_u16.to_be_bytes());
    assert_eq!(decode(&abx).unwrap(), "<a><a></a></a>");
}

#[test]
fn comments_and_instructions_are_dropped() {
    let mut body = Vec::new();
    body.push(0x29);
    push_utf(&mut body, "a comment");
    body.push(0x28);
    push_utf(&mut body, "pi");
    assert_eq!(decode(&abx_with_root(&body)).unwrap(), "<root></root>");
}

#[test]
fn malformed_binary_documents_are_refused() {
    let mut truncated = b"ABX\0".to_vec();
    truncated.push(0x02);
    truncated.push(0xFF);
    assert_eq!(decode(&truncated), Err(XmlDecodeError::UnexpectedEnd));

    let mut token = b"ABX\0".to_vec();
    token.push(0x0B);
    let error = decode(&token).unwrap_err();
    assert_eq!(error, XmlDecodeError::UnsupportedToken(11));
    assert_eq!(error.message(), "unsupported Android binary XML token 11");

    let mut typed = b"ABX\0".to_vec();
    typed.push(0xE4);
    let error = decode(&typed).unwrap_err();
    assert_eq!(error, XmlDecodeError::UnsupportedType(0xE0));
    assert_eq!(error.message(), "unsupported Android binary XML type 0xe0");

    let mut index = b"ABX\0".to_vec();
    index.push(0x02);
    index.extend_from_slice(&7_u16.to_be_bytes());
    let error = decode(&index).unwrap_err();
    assert_eq!(error, XmlDecodeError::InvalidStringPoolIndex(7));
    assert_eq!(error.message(), "invalid Android binary XML string pool index 7");

    let mut utf = b"ABX\0".to_vec();
    utf.push(0x24);
    utf.extend_from_slice(&1_u16.to_be_bytes());
    utf.push(0xFF);
    assert_eq!(decode(&utf), Err(XmlDecodeError::InvalidModifiedUtf8));

    assert_eq!(AbxDecoder::new(b"<root/>").err(), Some(XmlDecodeError::MissingMagic));
    assert_eq!(XmlDecodeError::MissingMagic.message(), "missing Android binary XML magic");
}

#[test]
fn entity_references_resolve_like_android() {
    assert_eq!(resolve_entity_ref(&chars("lt")), Ok(chars("<")));
    assert_eq!(resolve_entity_ref(&chars("quot")), Ok(chars("\"")));
    assert_eq!(resolve_entity_ref(&chars("")), Ok(chars("")));
    assert_eq!(resolve_entity_ref(&chars("#x41")), Ok(chars("A")));
    assert_eq!(resolve_entity_ref(&chars("#X1F600")), Ok(chars("😀")));
    assert_eq!(resolve_entity_ref(&chars("#66")), Ok(chars("B")));
    assert_eq!(resolve_entity_ref(&chars("nbsp")), Err(XmlDecodeError::UnknownEntity));
    assert_eq!(resolve_entity_ref(&chars("#xZZ")), Err(XmlDecodeError::InvalidEntityNumber));
    let error = resolve_entity_ref(&chars("#xD800")).unwrap_err();
    assert_eq!(error, XmlDecodeError::InvalidEntityCodePoint(0xD800));
    assert_eq!(error.message(), "invalid XML entity code point U+D800");
    assert_eq!(
        XmlDecodeError::InvalidEntityCodePoint(0x1F).message(),
        "invalid XML entity code point U+001F"
    );
}

#[test]
fn hex_and_base64_lengths() {
    assert_eq!(bytes_to_hex(&[0x00, 0x0F, 0xA0]), chars("000fa0"));
    assert_eq!(bytes_to_hex(&[]), chars(""));
    assert_eq!(bytes_to_base64(&[]), chars(""));
    assert_eq!(bytes_to_base64(&[0x4D]), chars("TQ=="));
    assert_eq!(bytes_to_base64(&[0x4D, 0x61]), chars("TWE="));
    assert_eq!(bytes_to_base64(&[0x4D, 0x61, 0x6E, 0xFF]), chars("TWFu/w=="));
}

#[test]
fn text_xml_encodings_are_detected() {
    assert_eq!(decode_text_xml(b"\xEF\xBB\xBF<a/>"), Ok("<a/>".to_string()));
    assert_eq!(decode_text_xml(b"\xEF\xBB\xBF\xFF"), Err(XmlDecodeError::InvalidUtf8));
    assert_eq!(decode_text_xml(b"\xFF\xFE<\x00a\x00"), Ok("<a".to_string()));
    assert_eq!(decode_text_xml(b"\xFE\xFF\x00<\x00a"), Ok("<a".to_string()));
    assert_eq!(decode_text_xml(b"\xFF\xFE<"), Err(XmlDecodeError::OddUtf16Length));
    assert_eq!(decode_text_xml(b"\xFF\xFE\x00\xD8"), Err(XmlDecodeError::InvalidUtf16));
    assert_eq!(sniff_utf16_xml_without_bom(b"\x00<\x00a"), Some(false));
    assert_eq!(sniff_utf16_xml_without_bom(b"<\x00a\x00"), Some(true));
    assert_eq!(sniff_utf16_xml_without_bom(b"<a"), None);
    assert_eq!(decode_text_xml(b"plain <x/>"), Ok("plain <x/>".to_string()));
}

#[test]
fn i64ish_handles_signs_spaces_and_bad_digits() {
    assert_eq!(parse_i64ish("  +5 "), Some(5));
    assert_eq!(parse_i64ish("-12"), Some(-12));
    assert_eq!(parse_i64ish("0X1f"), Some(31));
    assert_eq!(parse_i64ish("abc"), Some(2748));
    assert_eq!(parse_i64ish(""), None);
    assert_eq!(parse_i64ish("0x"), None);
    assert_eq!(parse_i64ish("12z"), None);
    assert_eq!(parse_i64ish("9223372036854775807"), Some(i64::MAX));
}

#[test]
fn java_modified_utf8_is_decoded() {
    assert_eq!(
        decode_modified_utf8(&[0xED, 0xA0, 0xBD, 0xED, 0xB8, 0x80]),
        Ok("😀".to_string())
    );
    assert_eq!(decode_modified_utf8(&[0x61, 0xC0, 0x80, 0x62]), Ok("a\0b".to_string()));
    assert_eq!(decode_modified_utf8("plain é".as_bytes()), Ok("plain é".to_string()));
    assert_eq!(decode_modified_utf8(&[0xFF]), Err(XmlDecodeError::InvalidModifiedUtf8));
}

#[test]
fn boolish_values_ignore_surrounding_space() {
    assert_eq!(parse_boolish("  yes\t"), Some(true));
    assert_eq!(parse_boolish("\nOFF "), Some(false));
    assert_eq!(parse_boolish(" 1 "), Some(true));
    assert_eq!(parse_boolish("t rue"), None);
}

#[test]
fn unsupported_token_leaves_the_output_unchanged() {
    let bytes = b"ABX\0\x0C".to_vec();
    let mut decoder = AbxDecoder::new(&bytes).unwrap();
    let mut out = Vec::new();
    assert_eq!(decoder.process_token(&mut out), Err(XmlDecodeError::UnsupportedToken(12)));
    assert!(out.is_empty());
}

#[test]
fn i64_forms_read_back() {
    for n in [0_i64, 7, -7, 255, -4096, i64::MAX, i64::MIN + 1] {
        assert_eq!(parse_i64ish(&n.to_string()), Some(n));
        assert_eq!(parse_i64ish(&format!(" {n}\n")), Some(n));
        if n >= 0 {
            assert_eq!(parse_i64ish(&format!("0x{n:x}")), Some(n));
            assert_eq!(parse_i64ish(&format!("-0X{n:X}")), Some(-n));
        }
    }
}
