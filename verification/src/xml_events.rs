//! Reading the tags of a text XML document with `quick-xml`.
//!
//! The reader, the tags it yields and their attribute iterators are the
//! crate's own values. What each of them holds is named below: the events a
//! reader will yield, the name and attributes a tag holds, the attributes an
//! iterator will yield, and the name and decoded value of an attribute. The
//! reader is built from the document text alone, so the events it yields are
//! a function of that text, `xml_events_of`. The trusted functions make one
//! call each and say, over these names, what the call returns and how it
//! advances the reader or iterator; the readers of package metadata are
//! proved against them.

use vstd::prelude::*;
use quick_xml::events::attributes::{AttrError, Attribute, Attributes};
use quick_xml::events::{BytesStart, Event};
use quick_xml::{Decoder, Reader};
use crate::package_xml::attr_views;

verus! {

/// `quick_xml::Reader`, the XML pull parser.
#[verifier::external_type_specification]
#[verifier::external_body]
#[verifier::reject_recursive_types(R)]
pub struct ExReader<R>(Reader<R>);

/// `quick_xml::events::BytesStart`, a start tag or an empty-element tag.
#[verifier::external_type_specification]
#[verifier::external_body]
pub struct ExBytesStart<'a>(BytesStart<'a>);

/// `quick_xml::events::attributes::Attributes`, an iterator over a tag's
/// attributes.
#[verifier::external_type_specification]
#[verifier::external_body]
pub struct ExAttributes<'a>(Attributes<'a>);

/// `quick_xml::events::attributes::Attribute`, one attribute.
#[verifier::external_type_specification]
#[verifier::external_body]
pub struct ExAttribute<'a>(Attribute<'a>);

/// `quick_xml::events::attributes::AttrError`, a malformed attribute.
#[verifier::external_type_specification]
#[verifier::external_body]
pub struct ExAttrError(AttrError);

/// `quick_xml::Error`, a syntax or decoding error.
#[verifier::external_type_specification]
#[verifier::external_body]
pub struct ExXmlError(quick_xml::Error);

/// `quick_xml::Decoder`, the decoder of the document's encoding.
#[verifier::external_type_specification]
#[verifier::external_body]
pub struct ExDecoder(Decoder);

/// What the reader found next.
pub enum XmlEvent<'a> {
    /// A start tag `<name ...>`.
    Start(BytesStart<'a>),
    /// An empty-element tag `<name ... />`.
    Empty(BytesStart<'a>),
    /// The end of the document.
    Eof,
    /// Anything else: end tags, text, comments, declarations.
    Other,
}

/// Why a text XML document could not be read.
#[derive(Debug, Clone, PartialEq, Eq)]
pub enum XmlParseError {
    /// The document is not well-formed, or a value could not be decoded, as
    /// `quick-xml` reports it.
    Syntax(String),
    /// An attribute is malformed, as `quick-xml` reports it.
    Attribute(String),
}

impl XmlParseError {
    /// A sentence that describes the error.
    pub fn message(&self) -> (r: String)
        ensures
            self matches XmlParseError::Syntax(m) ==> r@ == m@,
            self matches XmlParseError::Attribute(m) ==> r@ == m@,
    {
        match self {
            XmlParseError::Syntax(m) => m.clone(),
            XmlParseError::Attribute(m) => m.clone(),
        }
    }
}

/// One attribute of a tag, as plain values: its raw name and its decoded,
/// unescaped value.
#[derive(Debug, Clone, PartialEq, Eq)]
pub struct XmlAttribute {
    /// The attribute's qualified name, as bytes.
    pub key: Vec<u8>,
    /// The attribute's value.
    pub value: String,
}

/// A start or empty-element tag, as plain values: its qualified name and
/// its attributes in document order.
#[derive(Debug, Clone, PartialEq, Eq)]
pub struct XmlElement {
    /// The tag's qualified name, as bytes.
    pub name: Vec<u8>,
    /// The tag's attributes.
    pub attributes: Vec<XmlAttribute>,
}

/// What an attribute holds: its qualified name, and its value decoded and
/// with entity references replaced, `None` when that fails.
pub type AttributeView = (Seq<u8>, Option<Seq<char>>);

/// What one call of an attribute iterator's `next` yields.
pub enum AttributeStep {
    /// An attribute.
    Item(AttributeView),
    /// A malformed attribute.
    Malformed,
    /// The end of the attributes.
    End,
}

/// What a start or empty-element tag holds: its qualified name, and what
/// its attribute iterator, without the duplicate check, yields up to its end
/// or first malformed attribute.
pub type TagView = (Seq<u8>, Seq<AttributeStep>);

/// What one call of the reader's `read_event` yields.
pub enum EventView {
    /// A start or empty-element tag.
    Tag(TagView),
    /// Another event: an end tag, text, a comment, a declaration.
    Other,
    /// The end of the document.
    End,
    /// An error.
    Fail,
}

/// The events that a reader over `contents` that trims text yields, up to
/// the end of the document or the first error.
pub uninterp spec fn xml_events_of(contents: Seq<char>) -> Seq<EventView>;

/// The events that `reader` will yield, up to and including the end of the
/// document or the first error; what the reader yields after that is not
/// part of it.
pub uninterp spec fn reader_events(reader: Reader<&[u8]>) -> Seq<EventView>;

/// What the tag `tag` holds.
pub uninterp spec fn tag_view_of(tag: BytesStart) -> TagView;

/// The steps that `attributes` will yield, up to and including its end or
/// the first malformed attribute; what it yields after that is not part of
/// it.
pub uninterp spec fn attributes_pending(attributes: Attributes) -> Seq<AttributeStep>;

/// What the attribute `attribute` holds.
pub uninterp spec fn attribute_view_of(attribute: Attribute) -> AttributeView;

/// The end of the document or an error: the reader yields nothing more of
/// use after it.
pub open spec fn is_terminal(e: EventView) -> bool {
    e is End || e is Fail
}

/// A sequence of events that ends with its first end or error.
pub open spec fn events_well_ended(ev: Seq<EventView>) -> bool {
    &&& ev.len() > 0
    &&& is_terminal(ev.last())
    &&& forall|i: int| 0 <= i < ev.len() - 1 ==> !is_terminal(#[trigger] ev[i])
}

/// A sequence of attribute steps that ends with its first end or malformed
/// attribute.
pub open spec fn steps_well_ended(st: Seq<AttributeStep>) -> bool {
    &&& st.len() > 0
    &&& !(st.last() is Item)
    &&& forall|i: int| 0 <= i < st.len() - 1 ==> #[trigger] st[i] is Item
}

/// The events `ev` without the leading ones that are not tags, ends or
/// errors.
pub open spec fn skip_others(ev: Seq<EventView>) -> Seq<EventView>
    decreases ev.len(),
{
    if ev.len() > 0 && ev[0] is Other {
        skip_others(ev.drop_first())
    } else {
        ev
    }
}

/// A well-ended sequence stays well ended without its first event, when
/// that one is neither an end nor an error.
pub proof fn lemma_drop_first_well_ended(ev: Seq<EventView>)
    requires
        events_well_ended(ev),
        !is_terminal(ev[0]),
    ensures
        events_well_ended(ev.drop_first()),
        ev.drop_first().len() < ev.len(),
{
    assert(ev.len() > 1);
    assert forall|i: int| 0 <= i < ev.drop_first().len() - 1 implies !is_terminal(
        #[trigger] ev.drop_first()[i],
    ) by {
        assert(ev.drop_first()[i] == ev[i + 1]);
    }
}

/// Skipping the other events of a well-ended sequence leaves a well-ended
/// sequence that starts with a tag, an end or an error.
pub proof fn lemma_skip_others(ev: Seq<EventView>)
    requires
        events_well_ended(ev),
    ensures
        events_well_ended(skip_others(ev)),
        !(skip_others(ev)[0] is Other),
        skip_others(ev).len() <= ev.len(),
    decreases ev.len(),
{
    if ev[0] is Other {
        lemma_drop_first_well_ended(ev);
        lemma_skip_others(ev.drop_first());
    }
}

/// The attributes that steps give, in order: `None` when one is malformed
/// or its value cannot be decoded before the end.
pub open spec fn attrs_spec(steps: Seq<AttributeStep>) -> Option<Seq<(Seq<u8>, Seq<char>)>>
    decreases steps.len(),
{
    if steps.len() == 0 {
        Some(Seq::empty())
    } else {
        match steps[0] {
            AttributeStep::End => Some(Seq::empty()),
            AttributeStep::Malformed => None,
            AttributeStep::Item((k, v)) => match v {
                None => None,
                Some(value) => match attrs_spec(steps.drop_first()) {
                    Some(rest) => Some(seq![(k, value)] + rest),
                    None => None,
                },
            },
        }
    }
}

/// The event that a `read_event` result stands for.
pub open spec fn event_result_view<'a>(r: Result<XmlEvent<'a>, quick_xml::Error>) -> EventView {
    match r {
        Ok(XmlEvent::Start(e)) => EventView::Tag(tag_view_of(e)),
        Ok(XmlEvent::Empty(e)) => EventView::Tag(tag_view_of(e)),
        Ok(XmlEvent::Eof) => EventView::End,
        Ok(XmlEvent::Other) => EventView::Other,
        Err(_) => EventView::Fail,
    }
}

/// `Reader::from_str` configured with `Config::trim_text(true)`, as the
/// package readers use it. Trusted: the events it yields are
/// `xml_events_of` of the text, and they reach the end of the document or
/// an error (every other event consumes input).
#[verifier::external_body]
fn trimmed_reader<'a>(contents: &'a str) -> (r: Reader<&'a [u8]>)
    ensures
        reader_events(r) == xml_events_of(contents@),
        events_well_ended(reader_events(r)),
{
    let mut reader = Reader::from_str(contents);
    reader.config_mut().trim_text(true);
    reader
}

/// `Reader::decoder`: the decoder of the reader's encoding. Without the
/// crate's `encoding` feature it is always UTF-8 and holds nothing.
#[verifier::external_body]
fn reader_decoder(reader: &Reader<&[u8]>) -> Decoder {
    reader.decoder()
}

/// `Reader::read_event`: the next event, told apart by kind. Trusted: it is
/// the first of the reader's pending events; when that is neither the end
/// nor an error, the reader moves past it. Nothing is said of the reader
/// after the end or an error.
#[verifier::external_body]
fn reader_read_event<'a>(reader: &mut Reader<&'a [u8]>) -> (r: Result<XmlEvent<'a>, quick_xml::Error>)
    requires
        reader_events(*old(reader)).len() > 0,
    ensures
        event_result_view(r) == reader_events(*old(reader))[0],
        !is_terminal(reader_events(*old(reader))[0]) ==> reader_events(*final(reader))
            == reader_events(*old(reader)).drop_first(),
{
    match reader.read_event() {
        Ok(Event::Start(e)) => Ok(XmlEvent::Start(e)),
        Ok(Event::Empty(e)) => Ok(XmlEvent::Empty(e)),
        Ok(Event::Eof) => Ok(XmlEvent::Eof),
        Ok(_) => Ok(XmlEvent::Other),
        Err(e) => Err(e),
    }
}

/// `quick_xml::Error`'s `Display`: its message.
#[verifier::external_body]
fn xml_error_text(e: &quick_xml::Error) -> String {
    e.to_string()
}

/// `AttrError`'s `Display`: its message.
#[verifier::external_body]
fn attr_error_text(e: &AttrError) -> String {
    e.to_string()
}

/// `BytesStart::name`: the tag's qualified name, as bytes. Trusted: it is
/// the name that `tag_view_of` gives.
#[verifier::external_body]
fn start_name(e: &BytesStart) -> (r: Vec<u8>)
    ensures
        r@ == tag_view_of(*e).0,
{
    e.name().as_ref().to_vec()
}

/// `BytesStart::attributes` with `Attributes::with_checks(false)`: an
/// iterator over the tag's attributes that does not check for duplicates.
/// Trusted: it yields the steps that `tag_view_of` gives, which end at the
/// end or at the first malformed attribute.
#[verifier::external_body]
fn start_attributes_unchecked<'b>(e: &'b BytesStart) -> (r: Attributes<'b>)
    ensures
        attributes_pending(r) == tag_view_of(*e).1,
        steps_well_ended(attributes_pending(r)),
{
    let mut attributes = e.attributes();
    attributes.with_checks(false);
    attributes
}

/// `Attributes::next`: the next attribute, if any. Trusted: it is the first
/// pending step; when that is an attribute, the iterator moves past it.
/// Nothing is said of the iterator after its end or a malformed attribute.
#[verifier::external_body]
fn attributes_next<'b>(attributes: &mut Attributes<'b>) -> (r: Option<Result<Attribute<'b>, AttrError>>)
    requires
        attributes_pending(*old(attributes)).len() > 0,
    ensures
        attributes_pending(*old(attributes))[0] is Item ==> attributes_pending(*final(attributes))
            == attributes_pending(*old(attributes)).drop_first(),
        match r {
            None => attributes_pending(*old(attributes))[0] is End,
            Some(Err(_)) => attributes_pending(*old(attributes))[0] is Malformed,
            Some(Ok(a)) => attributes_pending(*old(attributes))[0] == AttributeStep::Item(
                attribute_view_of(a),
            ),
        },
{
    attributes.next()
}

/// `Attribute::key`: the attribute's qualified name, as bytes. Trusted: it
/// is the name that `attribute_view_of` gives.
#[verifier::external_body]
fn attribute_key(a: &Attribute) -> (r: Vec<u8>)
    ensures
        r@ == attribute_view_of(*a).0,
{
    a.key.as_ref().to_vec()
}

/// `Attribute::decode_and_unescape_value`: the attribute's value, decoded
/// and with its entity references replaced. Trusted: it is the value that
/// `attribute_view_of` gives; the decoder holds nothing without the crate's
/// `encoding` feature.
#[verifier::external_body]
fn attribute_value(a: &Attribute, decoder: Decoder) -> (r: Result<String, quick_xml::Error>)
    ensures
        match r {
            Ok(v) => attribute_view_of(*a).1 == Some(v@),
            Err(_) => attribute_view_of(*a).1 is None,
        },
{
    match a.decode_and_unescape_value(decoder) {
        Ok(value) => Ok(value.into_owned()),
        Err(e) => Err(e),
    }
}

/// A reader over a document that trims text, as the package readers use it.
pub struct ElementReader<'a> {
    reader: Reader<&'a [u8]>,
}

impl<'a> ElementReader<'a> {
    /// The events the reader will yield, up to the end or the first error.
    pub closed spec fn pending(&self) -> Seq<EventView> {
        reader_events(self.reader)
    }

    /// A reader over `contents`.
    pub fn new(contents: &'a str) -> (r: Self)
        ensures
            r.pending() == xml_events_of(contents@),
            events_well_ended(r.pending()),
    {
        ElementReader { reader: trimmed_reader(contents) }
    }

    /// The next start or empty-element tag, or `None` at the end of the
    /// document; the events in between are skipped.
    pub fn next_element(&mut self) -> (r: Result<Option<BytesStart<'a>>, XmlParseError>)
        requires
            events_well_ended(old(self).pending()),
        ensures
            skip_others(old(self).pending())[0] matches EventView::Tag(t) ==> (r matches Ok(Some(e))
                && tag_view_of(e) == t),
            skip_others(old(self).pending())[0] is Tag ==> final(self).pending() == skip_others(
                old(self).pending(),
            ).drop_first(),
            skip_others(old(self).pending())[0] is Tag ==> events_well_ended(final(self).pending()),
            skip_others(old(self).pending())[0] is Tag ==> final(self).pending().len() < old(self).pending().len(),
            skip_others(old(self).pending())[0] is End ==> r matches Ok(None),
            skip_others(old(self).pending())[0] is Fail ==> r matches Err(XmlParseError::Syntax(_)),
    {
        proof {
            lemma_skip_others(old(self).pending());
        }
        loop
            invariant
                events_well_ended(self.pending()),
                skip_others(self.pending()) == skip_others(old(self).pending()),
                self.pending().len() <= old(self).pending().len(),
            decreases self.pending().len(),
        {
            let ghost before = self.pending();
            let event = reader_read_event(&mut self.reader);
            match event {
                Ok(XmlEvent::Start(e)) => {
                    return Ok(Some(e));
                },
                Ok(XmlEvent::Empty(e)) => {
                    return Ok(Some(e));
                },
                Ok(XmlEvent::Eof) => {
                    return Ok(None);
                },
                Ok(XmlEvent::Other) => {
                    proof {
                        lemma_drop_first_well_ended(before);
                    }
                },
                Err(e) => {
                    return Err(XmlParseError::Syntax(xml_error_text(&e)));
                },
            }
        }
    }

    /// The qualified name of a tag, as bytes.
    pub fn element_name(&self, e: &BytesStart) -> (r: Vec<u8>)
        ensures
            r@ == tag_view_of(*e).0,
    {
        start_name(e)
    }

    /// The attributes of a tag, in document order, without the duplicate
    /// check: an error at the first malformed attribute or value that cannot
    /// be decoded.
    pub fn element_attributes(&self, e: &BytesStart) -> (r: Result<Vec<XmlAttribute>, XmlParseError>)
        ensures
            match attrs_spec(tag_view_of(*e).1) {
                Some(a) => r matches Ok(v) && attr_views(v@) == a,
                None => r is Err,
            },
    {
        let mut attributes = start_attributes_unchecked(e);
        let decoder = reader_decoder(&self.reader);
        let mut out: Vec<XmlAttribute> = Vec::new();
        let ghost all = tag_view_of(*e).1;
        assert(attr_views(out@) =~= Seq::<(Seq<u8>, Seq<char>)>::empty());
        loop
            invariant
                all == tag_view_of(*e).1,
                steps_well_ended(attributes_pending(attributes)),
                match attrs_spec(attributes_pending(attributes)) {
                    Some(rest) => attrs_spec(all) == Some(attr_views(out@) + rest),
                    None => attrs_spec(all) is None,
                },
            decreases attributes_pending(attributes).len(),
        {
            let ghost st = attributes_pending(attributes);
            let next = attributes_next(&mut attributes);
            match next {
                None => {
                    assert(attr_views(out@) + Seq::<(Seq<u8>, Seq<char>)>::empty() =~= attr_views(out@));
                    return Ok(out);
                },
                Some(Err(error)) => {
                    return Err(XmlParseError::Attribute(attr_error_text(&error)));
                },
                Some(Ok(a)) => {
                    let key = attribute_key(&a);
                    match attribute_value(&a, decoder) {
                        Ok(value) => {
                            proof {
                                assert(st.len() > 1);
                                assert forall|i: int| 0 <= i < st.drop_first().len() - 1 implies #[trigger] st.drop_first()[i] is Item by {
                                    assert(st.drop_first()[i] == st[i + 1]);
                                }
                            }
                            let ghost before = out@;
                            out.push(XmlAttribute { key, value });
                            proof {
                                let pair = (out@.last().key@, out@.last().value@);
                                assert(attr_views(out@) =~= attr_views(before) + seq![pair]);
                                match attrs_spec(st.drop_first()) {
                                    Some(rest) => {
                                        assert(attr_views(before) + (seq![pair] + rest) =~= attr_views(out@) + rest);
                                    },
                                    None => {},
                                }
                            }
                        },
                        Err(error) => {
                            return Err(XmlParseError::Syntax(xml_error_text(&error)));
                        },
                    }
                },
            }
        }
    }
}

/// Whether the bytes `a` are `b`.
pub fn bytes_eq(a: &[u8], b: &[u8]) -> (r: bool)
    ensures
        r == (a@ == b@),
{
    if a.len() != b.len() {
        return false;
    }
    let mut i: usize = 0;
    while i < a.len()
        invariant
            a@.len() == b@.len(),
            i <= a@.len(),
            forall|j: int| 0 <= j < i ==> a@[j] == b@[j],
        decreases a.len() - i,
    {
        if a[i] != b[i] {
            return false;
        }
        i = i + 1;
    }
    assert(a@ =~= b@);
    true
}

} // verus!
