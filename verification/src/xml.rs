use quick_xml::events::attributes::Attributes;
use quick_xml::events::Event;
use quick_xml::Reader;

use vstd::prelude::*;
use vstd::utf8::{decode_utf8, valid_utf8};

use crate::types::opt_text;

verus! {

/// The start of an element, `<name attr="value" ...>`, as the reader gives it: the text
/// between `<` and `>` (without a closing `/`), and how many of its bytes name the element.
pub struct XmlTag {
    pub content: Vec<u8>,
    pub name_len: usize,
}

/// One attribute of an element, key and value as they stand in the input (the value without
/// its quotes, not unescaped).
pub struct XmlAttribute {
    pub key: Vec<u8>,
    pub value: Vec<u8>,
}

/// One event of the XML reader.
pub enum XmlEvent {
    /// `<name ...>`
    Start(XmlTag),
    /// `<name .../>`
    Empty(XmlTag),
    /// `</name>`, with the bytes of the name
    End(Vec<u8>),
    /// the end of the input
    Eof,
    /// ill-formed input, with the reader's message
    Error(String),
    /// text, comments, declarations and the like
    Other,
}

/// An element start as plain values.
pub struct XmlTagView {
    pub content: Seq<u8>,
    pub name_len: nat,
}

/// A reader event as plain values.
pub enum XmlEventView {
    Start(XmlTagView),
    Empty(XmlTagView),
    End(Seq<u8>),
    Eof,
    Error(Seq<char>),
    Other,
}

impl View for XmlTag {
    type V = XmlTagView;

    open spec fn view(&self) -> XmlTagView {
        XmlTagView { content: self.content@, name_len: self.name_len as nat }
    }
}

impl View for XmlEvent {
    type V = XmlEventView;

    open spec fn view(&self) -> XmlEventView {
        match self {
            XmlEvent::Start(t) => XmlEventView::Start(t@),
            XmlEvent::Empty(t) => XmlEventView::Empty(t@),
            XmlEvent::End(n) => XmlEventView::End(n@),
            XmlEvent::Eof => XmlEventView::Eof,
            XmlEvent::Error(m) => XmlEventView::Error(m@),
            XmlEvent::Other => XmlEventView::Other,
        }
    }
}

/// An attribute as plain values: the key and the raw value.
pub open spec fn attribute_view(a: Option<XmlAttribute>) -> Option<(Seq<u8>, Seq<u8>)> {
    match a {
        Some(at) => Some((at.key@, at.value@)),
        None => None,
    }
}

// ---------------------------------------------------------------------------
// Names for what the outside functions compute
// ---------------------------------------------------------------------------
/// The events that quick_xml's reader, created by `Reader::from_str` on `input`, yields one
/// after another, up to and including the first end of input or error.
pub uninterp spec fn xml_events(input: Seq<char>) -> Seq<XmlEventView>;

/// The attributes that quick_xml's attribute iterator reads from the content of an element
/// start (the name takes its first `name_len` bytes); `None` stands for an attribute that it
/// reports as ill-formed.
pub uninterp spec fn xml_attributes(content: Seq<u8>, name_len: nat) -> Seq<
    Option<(Seq<u8>, Seq<u8>)>,
>;

/// The text that `String::from_utf8_lossy` makes of some bytes.
pub uninterp spec fn utf8_lossy_text(bytes: Seq<u8>) -> Seq<char>;

/// What quick_xml's `escape::unescape` makes of a text: the text with its entity and character
/// references resolved, or `None` where one of them is unknown or not terminated.
pub uninterp spec fn xml_unescaped(s: Seq<char>) -> Option<Seq<char>>;

// ---------------------------------------------------------------------------
// Trusted items
// ---------------------------------------------------------------------------
/// quick_xml's reader. Held opaque: the events it yields are known through `xml_events`.
#[verifier::external_type_specification]
#[verifier::external_body]
#[verifier::reject_recursive_types(R)]
pub struct ExReader<R>(Reader<R>);

/// quick_xml's reader over a string, with the events read so far counted.
pub struct XmlEventReader<'a> {
    reader: Reader<&'a [u8]>,
    buf: Vec<u8>,
    input: Ghost<Seq<char>>,
    read: Ghost<nat>,
}

impl<'a> XmlEventReader<'a> {
    /// The text being read.
    pub closed spec fn input(&self) -> Seq<char> {
        self.input@
    }

    /// How many events have been read.
    pub closed spec fn read(&self) -> nat {
        self.read@
    }

    /// `quick_xml::Reader::from_str`: a reader at the start of `xml`. The claim is that its
    /// events are `xml_events(xml@)`, a finite sequence (each event but the last consumes
    /// input), which the calls of `next_event` give one by one.
    #[verifier::external_body]
    pub fn new(xml: &'a str) -> (r: Self)
        ensures
            r.input() == xml@,
            r.read() == 0,
            xml_events(r.input()).len() > 0,
    {
        XmlEventReader {
            reader: Reader::from_str(xml),
            buf: Vec::new(),
            input: Ghost(xml@),
            read: Ghost(0nat),
        }
    }

    /// `quick_xml::Reader::read_event_into`: the next event. The claim is that it is the next
    /// of `xml_events`, converted field by field; that the sequence ends with its first end of
    /// input or error; and that the name of an element start lies within its content.
    #[verifier::external_body]
    pub fn next_event(&mut self) -> (ev: XmlEvent)
        requires
            old(self).read() < xml_events(old(self).input()).len(),
        ensures
            final(self).input() == old(self).input(),
            final(self).read() == old(self).read() + 1,
            ev@ == xml_events(old(self).input())[old(self).read() as int],
            (ev is Eof || ev is Error) <==> final(self).read() == xml_events(
                old(self).input(),
            ).len(),
            ev matches XmlEvent::Start(t) ==> t.name_len <= t.content.len(),
            ev matches XmlEvent::Empty(t) ==> t.name_len <= t.content.len(),
    {
        self.buf.clear();
        self.read = Ghost((self.read@ + 1) as nat);
        match self.reader.read_event_into(&mut self.buf) {
            Ok(Event::Start(e)) => XmlEvent::Start(
                XmlTag { content: e.to_vec(), name_len: e.name().as_ref().len() },
            ),
            Ok(Event::Empty(e)) => XmlEvent::Empty(
                XmlTag { content: e.to_vec(), name_len: e.name().as_ref().len() },
            ),
            Ok(Event::End(e)) => XmlEvent::End(e.name().as_ref().to_vec()),
            Ok(Event::Eof) => XmlEvent::Eof,
            Err(err) => XmlEvent::Error(err.to_string()),
            Ok(_) => XmlEvent::Other,
        }
    }
}

/// quick_xml's `Attributes` iterator (what `BytesStart::attributes` walks): the attributes of
/// an element start, each converted to its key and raw value, an ill-formed one to `None`.
/// The iterator takes text, so the content is handed to it as its lossy UTF-8 text; content
/// that the reader gives for a `&str` input is valid UTF-8 and passes unchanged. The iterator
/// starts reading at byte `name_len`, which must lie within the content (lossy decoding never
/// shortens it). The claim is that the result is `xml_attributes` of the content and name
/// length.
#[verifier::external_body]
pub fn tag_attributes(tag: &XmlTag) -> (r: Vec<Option<XmlAttribute>>)
    requires
        tag.name_len <= tag.content.len(),
    ensures
        r@.map_values(|a: Option<XmlAttribute>| attribute_view(a)) == xml_attributes(
            tag.content@,
            tag.name_len as nat,
        ),
{
    let text = String::from_utf8_lossy(&tag.content);
    Attributes::new(&text, tag.name_len).map(
        |a| a.ok().map(|a| XmlAttribute { key: a.key.as_ref().to_vec(), value: a.value.to_vec() }),
    ).collect()
}

/// `String::from_utf8`: the text that bytes encode, where they are valid UTF-8. The claim is
/// the documented one: `Some` exactly for valid UTF-8, with the decoded characters.
#[verifier::external_body]
pub fn utf8_text(bytes: &Vec<u8>) -> (r: Option<String>)
    ensures
        r is Some <==> valid_utf8(bytes@),
        r matches Some(s) ==> s@ == decode_utf8(bytes@),
{
    String::from_utf8(bytes.clone()).ok()
}

/// `String::from_utf8_lossy`: the text of some bytes, each invalid sequence replaced by
/// U+FFFD. The claim is that the result is `utf8_lossy_text` of the bytes, and the decoded
/// text itself where the bytes are valid UTF-8, as its documentation says.
#[verifier::external_body]
pub fn utf8_lossy(bytes: &Vec<u8>) -> (r: String)
    ensures
        r@ == utf8_lossy_text(bytes@),
        valid_utf8(bytes@) ==> r@ == decode_utf8(bytes@),
{
    String::from_utf8_lossy(bytes).into_owned()
}

/// `quick_xml::escape::unescape`: resolves the entity and character references of a text.
/// The claim is that the result is `xml_unescaped` of the text, and the text itself where it
/// holds no `&`, as the function's source shows.
#[verifier::external_body]
pub fn xml_unescape(s: &str) -> (r: Option<String>)
    ensures
        opt_text(r) == xml_unescaped(s@),
        !s@.contains('&') ==> opt_text(r) == Some(s@),
{
    match quick_xml::escape::unescape(s) {
        Ok(text) => Some(text.into_owned()),
        Err(_) => None,
    }
}

} // verus!
