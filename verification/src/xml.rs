//! XML documents as sequences of events.

use quick_xml::events::{BytesDecl, BytesEnd, BytesStart, BytesText, Event};
use vstd::prelude::*;

use crate::order::pair_views;

verus! {

/// A part of an XML document.
#[derive(Debug)]
pub enum XmlEvent {
    /// The declaration.
    Decl { version: String, encoding: String },
    /// The start of an element.
    Start { name: String, attributes: Vec<(String, String)> },
    /// An element without content.
    Empty { name: String, attributes: Vec<(String, String)> },
    /// Text.
    Text { content: String },
    /// The end of an element.
    End { name: String },
}

/// A part of an XML document as a mathematical value.
pub enum XmlPart {
    Decl { version: Seq<char>, encoding: Seq<char> },
    Start { name: Seq<char>, attributes: Seq<(Seq<char>, Seq<char>)> },
    Empty { name: Seq<char>, attributes: Seq<(Seq<char>, Seq<char>)> },
    Text { content: Seq<char> },
    End { name: Seq<char> },
}

impl View for XmlEvent {
    type V = XmlPart;

    open spec fn view(&self) -> XmlPart {
        match self {
            XmlEvent::Decl { version, encoding } => XmlPart::Decl {
                version: version@,
                encoding: encoding@,
            },
            XmlEvent::Start { name, attributes } => XmlPart::Start {
                name: name@,
                attributes: pair_views(attributes@),
            },
            XmlEvent::Empty { name, attributes } => XmlPart::Empty {
                name: name@,
                attributes: pair_views(attributes@),
            },
            XmlEvent::Text { content } => XmlPart::Text { content: content@ },
            XmlEvent::End { name } => XmlPart::End { name: name@ },
        }
    }
}

/// The views of a sequence of events.
pub open spec fn part_views(v: Seq<XmlEvent>) -> Seq<XmlPart> {
    Seq::new(v.len(), |i: int| v[i]@)
}

/// The writer of the XML library.
#[verifier::external_type_specification]
#[verifier::external_body]
#[verifier::reject_recursive_types(W)]
pub struct ExWriter<W>(quick_xml::Writer<W>);

/// The events that a writer was given, in order.
pub uninterp spec fn written(w: quick_xml::Writer<Vec<u8>>) -> Seq<XmlPart>;

/// The number of spaces by which a writer indents.
pub uninterp spec fn indentation(w: quick_xml::Writer<Vec<u8>>) -> nat;

/// The text that a writer makes of the events it was given, indented by so
/// many spaces.
pub uninterp spec fn xml_text(parts: Seq<XmlPart>, indent: nat) -> Seq<char>;

/// `quick_xml::Writer::new_with_indent` makes a writer that was given nothing.
#[verifier::external_body]
pub(crate) fn new_writer(indent: u8) -> (w: quick_xml::Writer<Vec<u8>>)
    ensures
        written(w).len() == 0,
        indentation(w) == indent,
{
    quick_xml::Writer::new_with_indent(Vec::new(), b' ', indent as usize)
}

/// `quick_xml::Writer::write_event` given a declaration. Writing to memory
/// does not fail.
#[verifier::external_body]
pub(crate) fn write_decl(w: &mut quick_xml::Writer<Vec<u8>>, version: &str, encoding: &str)
    ensures
        written(*final(w)) == written(*old(w)).push(
            XmlPart::Decl { version: version@, encoding: encoding@ },
        ),
        indentation(*final(w)) == indentation(*old(w)),
{
    let _ = w.write_event(Event::Decl(BytesDecl::new(version, Some(encoding), None)));
}

/// `quick_xml::Writer::write_event` given the start of an element, whose
/// attribute values are escaped.
#[verifier::external_body]
pub(crate) fn write_start(
    w: &mut quick_xml::Writer<Vec<u8>>,
    name: &str,
    attributes: &Vec<(String, String)>,
)
    ensures
        written(*final(w)) == written(*old(w)).push(
            XmlPart::Start { name: name@, attributes: pair_views(attributes@) },
        ),
        indentation(*final(w)) == indentation(*old(w)),
{
    let pairs = attributes.iter().map(|p| (p.0.as_str(), p.1.as_str()));
    let _ = w.write_event(Event::Start(BytesStart::new(name).with_attributes(pairs)));
}

/// `quick_xml::Writer::write_event` given an element without content, whose
/// attribute values are escaped.
#[verifier::external_body]
pub(crate) fn write_empty(
    w: &mut quick_xml::Writer<Vec<u8>>,
    name: &str,
    attributes: &Vec<(String, String)>,
)
    ensures
        written(*final(w)) == written(*old(w)).push(
            XmlPart::Empty { name: name@, attributes: pair_views(attributes@) },
        ),
        indentation(*final(w)) == indentation(*old(w)),
{
    let pairs = attributes.iter().map(|p| (p.0.as_str(), p.1.as_str()));
    let _ = w.write_event(Event::Empty(BytesStart::new(name).with_attributes(pairs)));
}

/// `quick_xml::Writer::write_event` given text, which is escaped.
#[verifier::external_body]
pub(crate) fn write_text(w: &mut quick_xml::Writer<Vec<u8>>, content: &str)
    ensures
        written(*final(w)) == written(*old(w)).push(XmlPart::Text { content: content@ }),
        indentation(*final(w)) == indentation(*old(w)),
{
    let _ = w.write_event(Event::Text(BytesText::new(content)));
}

/// `quick_xml::Writer::write_event` given the end of an element.
#[verifier::external_body]
pub(crate) fn write_end(w: &mut quick_xml::Writer<Vec<u8>>, name: &str)
    ensures
        written(*final(w)) == written(*old(w)).push(XmlPart::End { name: name@ }),
        indentation(*final(w)) == indentation(*old(w)),
{
    let _ = w.write_event(Event::End(BytesEnd::new(name)));
}

/// `quick_xml::Writer::into_inner` gives the bytes written, which are a
/// function of the events and the indentation. They are text, since a writer
/// writes nothing but the texts of events, markup and spaces.
#[verifier::external_body]
pub(crate) fn finish(w: quick_xml::Writer<Vec<u8>>) -> (r: Result<String, String>)
    ensures
        r is Ok && r->Ok_0@ == xml_text(written(w), indentation(w)),
{
    String::from_utf8(w.into_inner()).map_err(|e| e.to_string())
}

/// Writes a document.
pub fn render(events: &Vec<XmlEvent>, indent: u8) -> (r: Result<String, String>)
    ensures
        r matches Ok(t) && t@ == xml_text(part_views(events@), indent as nat),
{
    let mut w = new_writer(indent);
    let mut i: usize = 0;
    proof {
        assert(written(w) =~= part_views(events@).take(0));
    }
    while i < events.len()
        invariant
            0 <= i <= events@.len(),
            written(w) == part_views(events@).take(i as int),
            indentation(w) == indent,
        decreases events@.len() - i,
    {
        proof {
            let p = part_views(events@);
            assert(p.take(i + 1) =~= p.take(i as int).push(p[i as int]));
        }
        match &events[i] {
            XmlEvent::Decl { version, encoding } => {
                write_decl(&mut w, version.as_str(), encoding.as_str());
            },
            XmlEvent::Start { name, attributes } => {
                write_start(&mut w, name.as_str(), attributes);
            },
            XmlEvent::Empty { name, attributes } => {
                write_empty(&mut w, name.as_str(), attributes);
            },
            XmlEvent::Text { content } => {
                write_text(&mut w, content.as_str());
            },
            XmlEvent::End { name } => {
                write_end(&mut w, name.as_str());
            },
        }
        i = i + 1;
    }
    proof {
        assert(part_views(events@).take(events@.len() as int) =~= part_views(events@));
    }
    finish(w)
}

} // verus!
