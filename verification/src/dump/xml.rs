//! Reading XML events from a string with `quick_xml`.
//!
//! An [`XmlCursor`] walks the events of one text in order. Its fields are
//! private to this module and only the two functions here create and
//! advance it, so its `count` is always the number of events read so far.

use quick_xml::events::Event;
use std::str::from_utf8;
use vstd::prelude::*;

verus! {

#[verifier::external_type_specification]
#[verifier::external_body]
#[verifier::reject_recursive_types(R)]
pub struct ExXmlReader<R>(quick_xml::reader::Reader<R>);

/// One XML event, with names and texts as owned values.
#[derive(Debug)]
pub enum XmlEvent {
    /// An opening tag, by name (empty when the name is not UTF-8).
    Start(String),
    /// A closing tag, by name (empty when the name is not UTF-8).
    End(String),
    /// Character data with entities replaced, or the unescape error text.
    Text(Result<String, String>),
    /// The raw bytes of a CDATA section.
    CData(Vec<u8>),
    /// The end of the document.
    Eof,
    /// Any other event (empty elements, comments, declarations, ...).
    Other,
    /// A syntax error, with its text.
    Error(String),
}

/// An event with its strings taken by their views.
pub enum XmlEventView {
    Start(Seq<char>),
    End(Seq<char>),
    Text(Result<Seq<char>, Seq<char>>),
    CData(Seq<u8>),
    Eof,
    Other,
    Error(Seq<char>),
}

/// The view of an event.
pub open spec fn event_view(e: XmlEvent) -> XmlEventView {
    match e {
        XmlEvent::Start(s) => XmlEventView::Start(s@),
        XmlEvent::End(s) => XmlEventView::End(s@),
        XmlEvent::Text(Ok(s)) => XmlEventView::Text(Ok(s@)),
        XmlEvent::Text(Err(s)) => XmlEventView::Text(Err(s@)),
        XmlEvent::CData(b) => XmlEventView::CData(b@),
        XmlEvent::Eof => XmlEventView::Eof,
        XmlEvent::Other => XmlEventView::Other,
        XmlEvent::Error(s) => XmlEventView::Error(s@),
    }
}

/// The `k`-th event (from 0) that `quick_xml`'s `Reader::from_str`, with
/// text trimming off, produces on `text`.
pub uninterp spec fn xml_event_at(text: Seq<char>, k: nat) -> XmlEventView;

/// Whether `e` ends reading: the end of the document or a syntax error.
pub open spec fn ends_reading(e: XmlEventView) -> bool {
    e is Eof || e is Error
}

/// Whether one of the events of `text` up to the `n`-th, where `n` is the
/// length of `text` in UTF-8 bytes, ends reading.
pub open spec fn stops_within_length(text: Seq<char>) -> bool {
    exists|k: nat|
        k <= vstd::utf8::encode_utf8(text).len() && ends_reading(#[trigger] xml_event_at(text, k))
}

/// A position in the event stream of one text.
pub struct XmlCursor<'a> {
    reader: quick_xml::reader::Reader<&'a [u8]>,
    text: &'a str,
    count: usize,
}

impl<'a> XmlCursor<'a> {
    /// The text being read.
    pub closed spec fn text(&self) -> Seq<char> {
        self.text@
    }

    /// How many events have been read.
    pub closed spec fn count(&self) -> nat {
        self.count as nat
    }
}

/// `Reader::from_str(text)` with `trim_text(false)`: a cursor before the
/// first event of `text`.
///
/// The reader consumes at least one byte for every event other than the end
/// of the document and an error: a text event its characters, a markup event
/// its `<` and what follows (empty elements are not expanded). Once its
/// input is used up it gives the end of the document, so reading stops
/// within the first `n + 1` events, `n` being the length of `text` in bytes.
#[verifier::external_body]
pub(crate) fn xml_cursor<'a>(text: &'a str) -> (r: XmlCursor<'a>)
    ensures
        r.text() == text@,
        r.count() == 0,
        stops_within_length(r.text()),
{
    let mut reader = quick_xml::reader::Reader::from_str(text);
    reader.config_mut().trim_text(false);
    XmlCursor { reader, text, count: 0 }
}

/// `Reader::read_event`: the next event, converted to owned values (tag
/// names through `str::from_utf8`, text through `BytesText::unescape`,
/// CDATA through `BytesCData::into_inner`). The contract names the event by
/// its index in the stream of the cursor's text.
#[verifier::external_body]
pub(crate) fn xml_next<'a>(c: &mut XmlCursor<'a>) -> (r: XmlEvent)
    requires
        old(c).count() < usize::MAX,
    ensures
        event_view(r) == xml_event_at(old(c).text(), old(c).count()),
        final(c).text() == old(c).text(),
        final(c).count() == old(c).count() + 1,
{
    c.count += 1;
    match c.reader.read_event() {
        Ok(Event::Start(e)) => XmlEvent::Start(from_utf8(e.name().as_ref()).unwrap_or("").to_string()),
        Ok(Event::End(e)) => XmlEvent::End(from_utf8(e.name().as_ref()).unwrap_or("").to_string()),
        Ok(Event::Text(e)) => XmlEvent::Text(e.unescape().map(|t| t.into_owned()).map_err(|err| err.to_string())),
        Ok(Event::CData(e)) => XmlEvent::CData(e.into_inner().into_owned()),
        Ok(Event::Eof) => XmlEvent::Eof,
        Ok(_) => XmlEvent::Other,
        Err(err) => XmlEvent::Error(err.to_string()),
    }
}

} // verus!
