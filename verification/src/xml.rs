//! XML read through `quick_xml`: the events of a document, as plain values.
use vstd::prelude::*;
use vstd::string::StringSliceAdditionalSpecFns;

verus! {

/// An attribute: the key's bytes and the value as text (empty when the
/// value is not UTF-8).
#[derive(Debug, Clone)]
pub struct XmlAttr {
    pub key: Vec<u8>,
    pub value: String,
}

/// A start or empty tag: its name and attributes.
#[derive(Debug, Clone)]
pub struct XmlTag {
    pub name: String,
    pub attrs: Vec<XmlAttr>,
}

/// One event of a document read with text trimming on.
#[derive(Debug, Clone)]
pub enum XmlEvent {
    Start(XmlTag),
    Empty(XmlTag),
    /// Text with entities resolved (empty when they do not resolve).
    Text(String),
    /// The name of an end tag.
    End(String),
    /// CDATA, comments, declarations and the like.
    Other,
}

/// Where and why reading stopped.
#[derive(Debug, Clone)]
pub struct XmlFailure {
    /// Byte offset in the input.
    pub byte_pos: usize,
    pub message: String,
}

/// A tag as values: name, and (key bytes, value) of each attribute.
pub type TagView = (Seq<char>, Seq<(Seq<u8>, Seq<char>)>);

pub enum XmlEventView {
    Start(TagView),
    Empty(TagView),
    Text(Seq<char>),
    End(Seq<char>),
    Other,
}

pub open spec fn attrs_view(a: Seq<XmlAttr>) -> Seq<(Seq<u8>, Seq<char>)> {
    a.map_values(|x: XmlAttr| (x.key@, x.value@))
}

pub open spec fn tag_view(t: XmlTag) -> TagView {
    (t.name@, attrs_view(t.attrs@))
}

pub open spec fn event_view(e: XmlEvent) -> XmlEventView {
    match e {
        XmlEvent::Start(t) => XmlEventView::Start(tag_view(t)),
        XmlEvent::Empty(t) => XmlEventView::Empty(tag_view(t)),
        XmlEvent::Text(s) => XmlEventView::Text(s@),
        XmlEvent::End(s) => XmlEventView::End(s@),
        XmlEvent::Other => XmlEventView::Other,
    }
}

pub open spec fn events_view(es: Seq<XmlEvent>) -> Seq<XmlEventView> {
    es.map_values(|e: XmlEvent| event_view(e))
}

pub open spec fn failure_view(f: Option<XmlFailure>) -> Option<(usize, Seq<char>)> {
    match f {
        Some(x) => Some((x.byte_pos, x.message@)),
        None => None,
    }
}

/// What `quick_xml` reads from `content` (with `trim_text(true)`): the
/// events before the end or the first error, and the error's byte
/// position and message.
pub uninterp spec fn xml_parse(content: Seq<char>) -> (Seq<XmlEventView>, Option<(usize, Seq<char>)>);

#[verifier::external_type_specification]
#[verifier::external_body]
pub struct ExEvent<'a>(quick_xml::events::Event<'a>);

#[verifier::external_type_specification]
#[verifier::external_body]
pub struct ExBytesStart<'a>(quick_xml::events::BytesStart<'a>);

/// Converts a `quick_xml` start tag: its name and its readable attributes
/// (`Attributes` items that are errors are skipped).
#[verifier::external_body]
fn xml_tag_of(t: &quick_xml::events::BytesStart) -> XmlTag {
    XmlTag {
        name: std::str::from_utf8(t.name().as_ref()).unwrap_or("").to_string(),
        attrs: t.attributes().flatten().map(
            |a| XmlAttr { key: a.key.as_ref().to_vec(), value: std::str::from_utf8(&a.value).unwrap_or("").to_string() },
        ).collect(),
    }
}

/// Converts a `quick_xml` event, one variant for each that the readers
/// here tell apart; text goes through `BytesText::unescape`.
#[verifier::external_body]
fn xml_event_of(e: &quick_xml::events::Event) -> XmlEvent {
    match e {
        quick_xml::events::Event::Start(t) => XmlEvent::Start(xml_tag_of(t)),
        quick_xml::events::Event::Empty(t) => XmlEvent::Empty(xml_tag_of(t)),
        quick_xml::events::Event::Text(t) => XmlEvent::Text(t.unescape().unwrap_or_default().to_string()),
        quick_xml::events::Event::End(t) => XmlEvent::End(std::str::from_utf8(t.name().as_ref()).unwrap_or("").to_string()),
        _ => XmlEvent::Other,
    }
}

/// Wraps `quick_xml::Reader::from_str` with `trim_text(true)` and
/// `read_event_into` until the end or the first error.  The result is named
/// by `xml_parse`; the crate documents `buffer_position` as a byte position
/// in the input, so it is at most the input's byte length.
#[verifier::external_body]
pub(crate) fn xml_read_events(content: &str) -> (r: (Vec<XmlEvent>, Option<XmlFailure>))
    ensures
        (events_view(r.0@), failure_view(r.1)) == xml_parse(content@),
        r.1 matches Some(f) ==> f.byte_pos <= content.spec_bytes().len(),
{
    let mut reader = quick_xml::Reader::from_str(content);
    reader.config_mut().trim_text(true);
    let (mut events, mut buf) = (Vec::new(), Vec::new());
    loop {
        match reader.read_event_into(&mut buf) {
            Ok(quick_xml::events::Event::Eof) => return (events, None),
            Ok(e) => events.push(xml_event_of(&e)),
            Err(e) => return (events, Some(XmlFailure { byte_pos: reader.buffer_position() as usize, message: e.to_string() })),
        }
        buf.clear();
    }
}

/// The value of the last attribute with key `key`.
pub open spec fn last_attr(attrs: Seq<(Seq<u8>, Seq<char>)>, key: Seq<u8>) -> Option<Seq<char>>
    decreases attrs.len(),
{
    if attrs.len() == 0 {
        None
    } else if attrs.last().0 == key {
        Some(attrs.last().1)
    } else {
        last_attr(attrs.drop_last(), key)
    }
}

/// Whether two byte strings are equal.
pub fn bytes_eq(a: &Vec<u8>, b: &[u8]) -> (r: bool)
    ensures
        r == (a@ == b@),
{
    if a.len() != b.len() {
        return false;
    }
    let mut i: usize = 0;
    while i < a.len()
        invariant
            i <= a.len(),
            a.len() == b@.len(),
            forall|j: int| 0 <= j < i ==> a@[j] == b@[j],
        decreases a.len() - i,
    {
        if a[i] != b[i] {
            return false;
        }
        i += 1;
    }
    assert(a@ =~= b@);
    true
}

} // verus!
