//! XML events of the `quick-xml` crate, as plain values.

use quick_xml::events::{BytesCData, BytesDecl, BytesEnd, BytesStart, BytesText, Event};
use quick_xml::{Reader, Writer};
use vstd::prelude::*;

verus! {

/// The kinds of structural event that a document is made of.
#[derive(Clone, Copy, Debug, PartialEq, Eq, Structural)]
pub enum EventKind {
    Start,
    End,
    Empty,
    Text,
    CData,
    Comment,
    Decl,
    PI,
    DocType,
}

/// One structural event: its kind and the text between its delimiters.
#[derive(Clone, Debug)]
pub struct XmlEvent {
    pub kind: EventKind,
    pub content: String,
}

/// An event as a mathematical value.
pub struct EventView {
    pub kind: EventKind,
    pub content: Seq<char>,
}

impl View for XmlEvent {
    type V = EventView;

    open spec fn view(&self) -> EventView {
        EventView { kind: self.kind, content: self.content@ }
    }
}

impl DeepView for XmlEvent {
    type V = EventView;

    open spec fn deep_view(&self) -> EventView {
        self@
    }
}

/// The delimiter that opens an event of the given kind in a document.
pub open spec fn opening(kind: EventKind) -> Seq<char> {
    match kind {
        EventKind::Start => "<"@,
        EventKind::End => "</"@,
        EventKind::Empty => "<"@,
        EventKind::Text => ""@,
        EventKind::CData => "<![CDATA["@,
        EventKind::Comment => "<!--"@,
        EventKind::Decl => "<?"@,
        EventKind::PI => "<?"@,
        EventKind::DocType => "<!DOCTYPE "@,
    }
}

/// The delimiter that closes an event of the given kind in a document.
pub open spec fn closing(kind: EventKind) -> Seq<char> {
    match kind {
        EventKind::Start => ">"@,
        EventKind::End => ">"@,
        EventKind::Empty => "/>"@,
        EventKind::Text => ""@,
        EventKind::CData => "]]>"@,
        EventKind::Comment => "-->"@,
        EventKind::Decl => "?>"@,
        EventKind::PI => "?>"@,
        EventKind::DocType => ">"@,
    }
}

/// An event as it is written into a document: its content between the
/// delimiters of its kind, with nothing escaped or added.
pub open spec fn markup(kind: EventKind, content: Seq<char>) -> Seq<char> {
    opening(kind) + content + closing(kind)
}

/// What stands for the character `c` in escaped text.
pub open spec fn escaped_char(c: char) -> Seq<char> {
    if c == '<' {
        "&lt;"@
    } else if c == '>' {
        "&gt;"@
    } else if c == '&' {
        "&amp;"@
    } else if c == '\'' {
        "&apos;"@
    } else if c == '"' {
        "&quot;"@
    } else {
        seq![c]
    }
}

/// `text` with the five characters `<`, `>`, `&`, `'` and `"` replaced by
/// their entities.
pub open spec fn escaped(text: Seq<char>) -> Seq<char>
    decreases text.len(),
{
    if text.len() == 0 {
        text
    } else {
        escaped_char(text[0]) + escaped(text.skip(1))
    }
}

/// The text that escaped text stands for, as `BytesText::unescape` resolves
/// it: `None` where an entity is unknown or not terminated.
pub uninterp spec fn unescaped(raw: Seq<char>) -> Option<Seq<char>>;

/// What a reader has yet to yield: the events before the end of the input or
/// the first error, and that error's message if the input is malformed.
pub struct Tokens {
    pub events: Seq<EventView>,
    pub failure: Option<Seq<char>>,
}

/// The pull parser of `quick-xml`, opaque to the verifier.
#[verifier::external_type_specification]
#[verifier::external_body]
#[verifier::reject_recursive_types(R)]
pub struct ExReader<R>(Reader<R>);

/// The events that `quick-xml` reads from `input`, with text trimmed of
/// surrounding white space where `trim` is set.
pub uninterp spec fn tokenized(input: Seq<char>, trim: bool) -> Tokens;

/// What the calls of `Reader::read_event` that are still to come will yield.
pub uninterp spec fn pending(reader: &Reader<&[u8]>) -> Tokens;

/// Calls `Reader::from_str` and `Reader::trim_text`.
#[verifier::external_body]
pub(crate) fn open_reader<'a>(input: &'a str, trim: bool) -> (reader: Reader<&'a [u8]>)
    ensures
        pending(&reader) == tokenized(input@, trim),
{
    let mut reader = Reader::from_str(input);
    reader.trim_text(trim);
    reader
}

/// Calls `Reader::read_event` and copies the event out.
#[verifier::external_body]
pub(crate) fn next_event(reader: &mut Reader<&[u8]>) -> (r: Result<Option<XmlEvent>, String>)
    ensures
        match r {
            Ok(Some(event)) => pending(old(reader)).events.len() > 0 && event@ == pending(
                old(reader),
            ).events[0] && pending(final(reader)) == (Tokens {
                events: pending(old(reader)).events.skip(1),
                failure: pending(old(reader)).failure,
            }),
            Ok(None) => pending(old(reader)).events.len() == 0 && pending(old(reader)).failure
                is None,
            Err(message) => pending(old(reader)).events.len() == 0 && pending(
                old(reader),
            ).failure == Some(message@),
        },
{
    let event = reader.read_event().map_err(|e| e.to_string())?;
    let content = String::from_utf8_lossy(&event).into_owned();
    Ok(Some(XmlEvent { content, kind: match event {
        Event::Start(_) => EventKind::Start,
        Event::End(_) => EventKind::End,
        Event::Empty(_) => EventKind::Empty,
        Event::Text(_) => EventKind::Text,
        Event::CData(_) => EventKind::CData,
        Event::Comment(_) => EventKind::Comment,
        Event::Decl(_) => EventKind::Decl,
        Event::PI(_) => EventKind::PI,
        Event::DocType(_) => EventKind::DocType,
        Event::Eof => return Ok(None),
    } }))
}

/// Calls `quick_xml::escape::escape`, which replaces each of `<`, `>`, `&`,
/// `'` and `"` by its entity and copies every other character.
#[verifier::external_body]
pub(crate) fn escape_text(text: &str) -> (r: String)
    ensures
        r@ == escaped(text@),
{
    quick_xml::escape::escape(text).into_owned()
}

/// Calls `BytesText::unescape` on `raw` taken as escaped text.
#[verifier::external_body]
pub(crate) fn unescape_text(raw: &str) -> (r: Option<String>)
    ensures
        r.deep_view() == unescaped(raw@),
{
    BytesText::from_escaped(raw).unescape().ok().map(|text| text.into_owned())
}

/// Calls `Writer::write_event` on an event of the given kind and content, and
/// returns what it wrote. A writer without indentation writes the opening
/// delimiter of the kind, the content as it is, and the closing delimiter.
#[verifier::external_body]
pub(crate) fn event_markup(kind: EventKind, content: &str) -> (r: String)
    ensures
        r@ == markup(kind, content@),
{
    let event = match kind {
        EventKind::Start => Event::Start(BytesStart::new(content)),
        EventKind::End => Event::End(BytesEnd::new(content)),
        EventKind::Empty => Event::Empty(BytesStart::new(content)),
        EventKind::Text => Event::Text(BytesText::from_escaped(content)),
        EventKind::CData => Event::CData(BytesCData::new(content)),
        EventKind::Comment => Event::Comment(BytesText::from_escaped(content)),
        EventKind::Decl => Event::Decl(BytesDecl::from_start(BytesStart::new(content))),
        EventKind::PI => Event::PI(BytesText::from_escaped(content)),
        EventKind::DocType => Event::DocType(BytesText::from_escaped(content)),
    };
    let mut writer = Writer::new(Vec::new());
    let _ = writer.write_event(event);
    String::from_utf8_lossy(writer.get_ref()).into_owned()
}

} // verus!
