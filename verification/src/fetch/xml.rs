//! The events of an XML document, read one at a time with `quick_xml`, and
//! what the feed reader needs of them: names, attributes and text.
use crate::network_runtime::opt_text;
use crate::text::chars_of;
use quick_xml::events::{BytesStart, BytesText, Event};
use quick_xml::Reader;
use vstd::prelude::*;
use vstd::string::StrSliceExecFns;
use vstd::string::StringExecFns;
use vstd::utf8::{decode_utf8, valid_utf8};

verus! {

/// `quick_xml::Error`, why a document could not be read; the verifier sees
/// nothing inside.
#[verifier::external_type_specification]
#[verifier::external_body]
pub struct ExXmlError(quick_xml::Error);

/// Why a document gave no feed.
#[derive(Debug)]
pub enum ParseError {
    /// The document is no XML.
    Xml(quick_xml::Error),
    /// A name or a text is no UTF-8.
    Utf8,
    /// The feed's title is empty.
    MissingTitle,
    /// An end tag does not name the element that is open.
    EndMismatch,
}

/// Why a document gave no feed, for contracts.
#[derive(PartialEq, Eq, Structural)]
pub enum ParseFault {
    Xml,
    Utf8,
    MissingTitle,
    EndMismatch,
}

impl ParseError {
    /// The kind of this error.
    pub open spec fn fault(&self) -> ParseFault {
        match self {
            ParseError::Xml(_) => ParseFault::Xml,
            ParseError::Utf8 => ParseFault::Utf8,
            ParseError::MissingTitle => ParseFault::MissingTitle,
            ParseError::EndMismatch => ParseFault::EndMismatch,
        }
    }
}

/// What an event of a document is.
#[derive(Debug, Clone, Copy, PartialEq, Eq, Structural)]
pub enum XmlKind {
    /// An element opens.
    Start,
    /// An element that opens and closes at once.
    Empty,
    /// An element closes.
    End,
    /// Text, with its escapes.
    Text,
    /// A CDATA section.
    CData,
    /// The document ends.
    Eof,
    /// A comment, a declaration, an instruction or a document type.
    Other,
}

/// One event as the reader hands it out: what it is, its bytes (of an
/// element that opens its name and attributes, of an element that closes
/// its name, of a text its content), how many of the bytes of an element
/// that opens are its name, and how many bytes the reader has taken.
#[derive(Debug)]
pub struct RawEvent {
    pub kind: XmlKind,
    pub name_len: usize,
    pub content: Vec<u8>,
    pub consumed: usize,
}

/// An event as the reader hands it out, for contracts.
pub struct RawEventView {
    pub kind: XmlKind,
    pub name_len: nat,
    pub content: Seq<u8>,
    pub consumed: nat,
}

impl View for RawEvent {
    type V = RawEventView;

    open spec fn view(&self) -> RawEventView {
        RawEventView {
            kind: self.kind,
            name_len: self.name_len as nat,
            content: self.content@,
            consumed: self.consumed as nat,
        }
    }
}

/// One event of a document, with the place where the next event starts.
#[derive(Debug)]
pub struct XmlEvent {
    pub kind: XmlKind,
    pub name_len: usize,
    pub content: Vec<u8>,
    pub next: usize,
}

/// An event, for contracts.
pub struct XmlEventView {
    pub kind: XmlKind,
    pub name_len: nat,
    pub content: Seq<u8>,
    pub next: nat,
}

impl View for XmlEvent {
    type V = XmlEventView;

    open spec fn view(&self) -> XmlEventView {
        XmlEventView {
            kind: self.kind,
            name_len: self.name_len as nat,
            content: self.content@,
            next: self.next as nat,
        }
    }
}

/// The event that starts at `pos` in the document `text`, as `quick_xml`
/// reads it with surrounding white space taken off texts and without
/// holding end tags against start tags; `None` where it reports an error.
pub uninterp spec fn xml_raw_event(text: Seq<u8>, pos: nat) -> Option<RawEventView>;

/// The attributes of an element with the bytes `content`, of which the
/// first `name_len` are its name: pairs of a key and its value as it
/// stands in the document, in the element's order; `None` where
/// `quick_xml` reports an error.
pub uninterp spec fn xml_attributes(content: Seq<u8>, name_len: nat) -> Option<
    Seq<(Seq<u8>, Seq<u8>)>,
>;

/// The text `raw` with its escapes resolved; `None` where `quick_xml`
/// reports an error.
pub uninterp spec fn xml_unescaped(raw: Seq<u8>) -> Option<Seq<u8>>;

/// Reads the event that starts at `pos`.
///
/// Trusted: makes a `quick_xml::Reader` over the document from `pos` on,
/// with `trim_text` on and `check_end_names` off, and calls `read_event`
/// once. What comes back is fixed by the bytes from `pos` on and is named
/// `xml_raw_event`; the bytes taken are the reader's `buffer_position`.
#[verifier::external_body]
fn read_event(text: &[u8], pos: usize) -> (r: Result<RawEvent, quick_xml::Error>)
    requires
        pos <= text.len(),
    ensures
        r is Ok <==> xml_raw_event(text@, pos as nat) is Some,
        r matches Ok(e) ==> xml_raw_event(text@, pos as nat) == Some(e@),
{
    let mut reader = Reader::from_reader(&text[pos..]);
    reader.trim_text(true).check_end_names(false);
    let mut buf = Vec::new();
    let event = reader.read_event(&mut buf)?;
    let name_len: usize = match &event {
        Event::Start(e) | Event::Empty(e) => e.name().len(),
        _ => 0,
    };
    let kind = match &event {
        Event::Start(_) => XmlKind::Start, Event::Empty(_) => XmlKind::Empty,
        Event::End(_) => XmlKind::End, Event::Text(_) => XmlKind::Text,
        Event::CData(_) => XmlKind::CData, Event::Eof => XmlKind::Eof,
        _ => XmlKind::Other,
    };
    Ok(RawEvent { kind, name_len, content: event.to_vec(), consumed: reader.buffer_position() })
}

/// The event that starts at `pos` in the document `text`, with the place
/// where the next event starts: `pos` and the bytes the reader has taken,
/// or 0, which leads nowhere, where that is past the document.
pub open spec fn xml_event(text: Seq<u8>, pos: nat) -> Option<XmlEventView> {
    match xml_raw_event(text, pos) {
        None => None,
        Some(raw) => Some(
            XmlEventView {
                kind: raw.kind,
                name_len: raw.name_len,
                content: raw.content,
                next: if pos + raw.consumed <= text.len() {
                    pos + raw.consumed
                } else {
                    0
                },
            },
        ),
    }
}

/// What pairs of byte strings read.
pub open spec fn byte_pairs(v: Seq<(Vec<u8>, Vec<u8>)>) -> Seq<(Seq<u8>, Seq<u8>)> {
    Seq::new(v.len(), |i: int| (v[i].0@, v[i].1@))
}

/// The attributes of an element.
///
/// Trusted: walks `quick_xml::events::BytesStart::attributes` over the
/// element's bytes and hands out each attribute's key and value as they
/// stand; the first error of the walk is the result. The outcome is fixed
/// by the bytes and the length of the name.
#[verifier::external_body]
fn attributes(content: &[u8], name_len: usize) -> (r: Result<
    Vec<(Vec<u8>, Vec<u8>)>,
    quick_xml::Error,
>)
    requires
        name_len <= content.len(),
    ensures
        r is Ok <==> xml_attributes(content@, name_len as nat) is Some,
        r matches Ok(v) ==> xml_attributes(content@, name_len as nat) == Some(byte_pairs(v@)),
{
    BytesStart::borrowed(content, name_len)
        .attributes()
        .map(|attr| attr.map(|a| (a.key.to_vec(), a.value.into_owned())))
        .collect()
}

/// Resolves the escapes of a text.
///
/// Trusted: calls `quick_xml::events::BytesText::unescaped` on the bytes;
/// the outcome is fixed by them.
#[verifier::external_body]
fn unescape(raw: &[u8]) -> (r: Result<Vec<u8>, quick_xml::Error>)
    ensures
        r is Ok <==> xml_unescaped(raw@) is Some,
        r matches Ok(v) ==> xml_unescaped(raw@) == Some(v@),
{
    BytesText::from_escaped(raw).unescaped().map(|c| c.into_owned())
}

/// The text that bytes spell in UTF-8; `None` where they spell none.
pub open spec fn utf8_text(bytes: Seq<u8>) -> Option<Seq<char>> {
    if valid_utf8(bytes) {
        Some(decode_utf8(bytes))
    } else {
        None
    }
}

/// The text that `bytes` spell in UTF-8.
///
/// Trusted: calls `String::from_utf8`, which gives the text exactly where
/// the bytes are UTF-8.
#[verifier::external_body]
fn text_of_utf8(bytes: Vec<u8>) -> (r: Option<String>)
    ensures
        opt_text(r) == utf8_text(bytes@),
{
    String::from_utf8(bytes).ok()
}

/// The characters that bytes spell, or the fault that they spell none.
pub open spec fn utf8_or_fault(bytes: Seq<u8>) -> Result<Seq<char>, ParseFault> {
    match utf8_text(bytes) {
        Some(t) => Ok(t),
        None => Err(ParseFault::Utf8),
    }
}

/// A text with its escapes resolved, as characters.
pub open spec fn unescaped_text(raw: Seq<u8>) -> Result<Seq<char>, ParseFault> {
    match xml_unescaped(raw) {
        Some(bytes) => utf8_or_fault(bytes),
        None => Err(ParseFault::Xml),
    }
}

/// The name of an element, as characters.
pub open spec fn name_text(e: XmlEventView) -> Result<Seq<char>, ParseFault> {
    if e.name_len <= e.content.len() {
        utf8_or_fault(e.content.take(e.name_len as int))
    } else {
        Err(ParseFault::Utf8)
    }
}

/// The part of a name behind its first colon; the name where it has none.
pub open spec fn local_name(name: Seq<char>) -> Seq<char>
    decreases name.len(),
{
    if name.len() == 0 {
        name
    } else if name[0] == ':' {
        name.drop_first()
    } else if name.drop_first().contains(':') {
        local_name(name.drop_first())
    } else {
        name
    }
}

fn copy_prefix(v: &Vec<u8>, n: usize) -> (r: Vec<u8>)
    requires
        n <= v.len(),
    ensures
        r@ == v@.take(n as int),
{
    let mut r: Vec<u8> = Vec::new();
    let mut i: usize = 0;
    while i < n
        invariant
            i <= n <= v.len(),
            r@ == v@.take(i as int),
        decreases n - i,
    {
        r.push(v[i]);
        proof {
            assert(r@ =~= v@.take(i + 1));
        }
        i += 1;
    }
    r
}

/// The name of the element that `e` opens or closes.
pub fn name_of(e: &XmlEvent) -> (r: Result<String, ParseError>)
    ensures
        match name_text(e@) {
            Ok(t) => r matches Ok(s) && s@ == t,
            Err(f) => r matches Err(x) && x.fault() == f,
        },
{
    if e.name_len > e.content.len() {
        return Err(ParseError::Utf8);
    }
    match text_of_utf8(copy_prefix(&e.content, e.name_len)) {
        Some(s) => Ok(s),
        None => Err(ParseError::Utf8),
    }
}

/// The part of `name` behind its first colon.
pub fn local_name_of(name: &str) -> (r: String)
    ensures
        r@ == local_name(name@),
{
    let v = chars_of(name);
    let mut i: usize = 0;
    proof {
        assert(v@.skip(0) =~= v@);
    }
    while i < v.len()
        invariant
            i <= v.len(),
            v@ == name@,
            forall|j: int| 0 <= j < i ==> v@[j] != ':',
            local_name(name@) == (if v@.skip(i as int).contains(':') {
                local_name(v@.skip(i as int))
            } else {
                name@
            }),
        decreases v.len() - i,
    {
        let ghost rest = v@.skip(i as int);
        proof {
            assert(rest.drop_first() =~= v@.skip(i + 1));
            assert(rest[0] == v@[i as int]);
        }
        if v[i] == ':' {
            proof {
                assert(rest.contains(':'));
            }
            return name.substring_char(i + 1, v.len()).to_owned();
        }
        proof {
            if rest.contains(':') {
                let w = choose|w: int| 0 <= w < rest.len() && rest[w] == ':';
                assert(rest.drop_first()[w - 1] == ':');
            }
            if rest.drop_first().contains(':') {
                let w = choose|w: int|
                    0 <= w < rest.drop_first().len() && rest.drop_first()[w] == ':';
                assert(rest[w + 1] == ':');
            }
        }
        i += 1;
    }
    name.to_owned()
}

/// The text that is left of `acc`: none where it is empty.
pub open spec fn non_empty(acc: Seq<char>) -> Option<Seq<char>> {
    if acc.len() == 0 {
        None
    } else {
        Some(acc)
    }
}

/// Whether the event `e`, read at `pos`, ends the reading: the document
/// ends, the event leads nowhere, or it is a text that no `<` follows, as
/// at the end of a document that was cut off.
pub open spec fn ends(e: XmlEventView, text: Seq<u8>, pos: nat) -> bool {
    e.kind == XmlKind::Eof || e.next <= pos || e.next > text.len() || (e.kind == XmlKind::Text && (
    e.next >= text.len() || text[e.next as int] != 0x3c))
}

/// Whether the event `e`, read at `at`, ends the reading.
pub(crate) fn is_end(e: &XmlEvent, text: &[u8], at: usize) -> (r: bool)
    ensures
        r == ends(e@, text@, at as nat),
{
    if e.kind == XmlKind::Eof || e.next <= at || e.next > text.len() {
        return true;
    }
    match e.kind {
        XmlKind::Text => e.next >= text.len() || text[e.next] != 0x3c,
        _ => false,
    }
}

/// The name of the element that the event `e` opens, as bytes.
pub open spec fn start_name(e: XmlEventView) -> Seq<u8> {
    if e.name_len <= e.content.len() {
        e.content.take(e.name_len as int)
    } else {
        e.content
    }
}

/// The name of the element that `e` opens, as bytes.
pub(crate) fn start_name_of(e: &XmlEvent) -> (r: Vec<u8>)
    ensures
        r@ == start_name(e@),
{
    if e.name_len <= e.content.len() {
        copy_prefix(&e.content, e.name_len)
    } else {
        let r = copy_prefix(&e.content, e.content.len());
        proof {
            assert(r@ =~= e.content@);
        }
        r
    }
}

/// What a list of names reads.
pub open spec fn names(v: Seq<Vec<u8>>) -> Seq<Seq<u8>> {
    Seq::new(v.len(), |i: int| v[i]@)
}

/// Whether the end tag `e` closes the innermost of the elements `open`:
/// an element is open, and the tag names it.
pub open spec fn closes(e: XmlEventView, open: Seq<Seq<u8>>) -> bool {
    open.len() > 0 && e.content == open.last()
}

/// Whether the end tag `e` closes the innermost of the elements `open`.
pub(crate) fn closes_top(e: &XmlEvent, open: &Vec<Vec<u8>>) -> (r: bool)
    ensures
        r == closes(e@, names(open@)),
{
    if open.len() == 0 {
        return false;
    }
    proof {
        assert(names(open@).last() == open[open.len() - 1]@);
    }
    bytes_eq(&open[open.len() - 1], e.content.as_slice())
}

/// A copy of `bytes`.
pub(crate) fn copy_bytes(bytes: &[u8]) -> (r: Vec<u8>)
    ensures
        r@ == bytes@,
{
    let mut r: Vec<u8> = Vec::new();
    let mut i: usize = 0;
    while i < bytes.len()
        invariant
            i <= bytes.len(),
            r@ == bytes@.take(i as int),
        decreases bytes.len() - i,
    {
        r.push(bytes[i]);
        proof {
            assert(r@ =~= bytes@.take(i + 1));
        }
        i += 1;
    }
    proof {
        assert(bytes@.take(bytes@.len() as int) =~= bytes@);
    }
    r
}

/// The list that holds the one name `name`.
pub(crate) fn one_open(name: &[u8]) -> (r: Vec<Vec<u8>>)
    ensures
        names(r@) == seq![name@],
{
    let mut r: Vec<Vec<u8>> = Vec::new();
    r.push(copy_bytes(name));
    proof {
        assert(names(r@) =~= seq![name@]);
    }
    r
}

/// Puts the name of the element that `e` opens on the list of open
/// elements.
pub(crate) fn push_open(open: &mut Vec<Vec<u8>>, e: &XmlEvent)
    ensures
        names(final(open)@) == names(old(open)@).push(start_name(e@)),
{
    let ghost before = names(open@);
    let name = start_name_of(e);
    open.push(name);
    proof {
        assert(names(open@) =~= before.push(start_name(e@)));
    }
}

/// Takes the innermost element off the list of open elements.
pub(crate) fn pop_open(open: &mut Vec<Vec<u8>>)
    requires
        old(open).len() > 0,
    ensures
        names(final(open)@) == names(old(open)@).drop_last(),
{
    let ghost before = names(open@);
    let _ = open.pop();
    proof {
        assert(names(open@) =~= before.drop_last());
    }
}

/// The text of an element from `pos` on, where the elements `open` are
/// open, the innermost last, and `acc` is the text so far: the texts and
/// CDATA sections, their escapes resolved and white space at their ends
/// taken off, up to the end of the outermost of these elements, whatever
/// elements stand between, and the place behind that end. An end tag that
/// does not name the innermost open element is a fault, as is whatever is
/// broken in the document.
pub open spec fn text_run(text: Seq<u8>, pos: nat, open: Seq<Seq<u8>>, acc: Seq<char>) -> Result<
    (Seq<char>, nat),
    ParseFault,
>
    decreases text.len() - pos,
{
    match xml_event(text, pos) {
        None => Err(ParseFault::Xml),
        Some(e) => if ends(e, text, pos) {
            Ok((acc, pos))
        } else {
            match e.kind {
                XmlKind::Start => text_run(text, e.next, open.push(start_name(e)), acc),
                XmlKind::End => if !closes(e, open) {
                    Err(ParseFault::EndMismatch)
                } else if open.len() == 1 {
                    Ok((acc, e.next))
                } else {
                    text_run(text, e.next, open.drop_last(), acc)
                },
                XmlKind::Text | XmlKind::CData => match unescaped_text(e.content) {
                    Ok(t) => text_run(text, e.next, open, acc + t),
                    Err(f) => Err(f),
                },
                _ => text_run(text, e.next, open, acc),
            }
        },
    }
}

/// The text of a text or a CDATA section, its escapes resolved.
fn event_text(e: XmlEvent) -> (r: Result<String, ParseError>)
    ensures
        match unescaped_text(e.content@) {
            Ok(t) => r matches Ok(s) && s@ == t,
            Err(f) => r matches Err(x) && x.fault() == f,
        },
{
    unescaped(e.content.as_slice())
}

/// The text `raw` with its escapes resolved, as a string.
fn unescaped(raw: &[u8]) -> (r: Result<String, ParseError>)
    ensures
        match unescaped_text(raw@) {
            Ok(t) => r matches Ok(s) && s@ == t,
            Err(f) => r matches Err(x) && x.fault() == f,
        },
{
    let bytes = match unescape(raw) {
        Ok(b) => b,
        Err(x) => {
            return Err(ParseError::Xml(x));
        },
    };
    match text_of_utf8(bytes) {
        Some(s) => Ok(s),
        None => Err(ParseError::Utf8),
    }
}

/// Reads the text of the element `name` that was opened just before `pos`,
/// and returns it with the place behind the element's end.
pub fn text_or_cdata(text: &[u8], pos: usize, name: &[u8]) -> (r: Result<
    (Option<String>, usize),
    ParseError,
>)
    requires
        pos <= text.len(),
    ensures
        match text_run(text@, pos as nat, seq![name@], Seq::empty()) {
            Ok((t, n)) => r matches Ok((s, m)) && m == n && pos <= m <= text.len() && opt_text(
                s,
            ) == non_empty(t),
            Err(f) => r matches Err(x) && x.fault() == f,
        },
{
    let mut at: usize = pos;
    let mut open = one_open(name);
    let mut acc = String::new();
    loop
        invariant
            pos <= at <= text.len(),
            text_run(text@, pos as nat, seq![name@], Seq::empty()) == text_run(
                text@,
                at as nat,
                names(open@),
                acc@,
            ),
        decreases text.len() - at,
    {
        let e = match event_at(text, at) {
            Ok(e) => e,
            Err(x) => {
                return Err(x);
            },
        };
        let next = e.next;
        let mut done = is_end(&e, text, at);
        let mut end = at;
        if !done {
            match e.kind {
                XmlKind::Start => {
                    push_open(&mut open, &e);
                },
                XmlKind::End => {
                    if !closes_top(&e, &open) {
                        return Err(ParseError::EndMismatch);
                    }
                    if open.len() == 1 {
                        done = true;
                        end = next;
                    } else {
                        pop_open(&mut open);
                    }
                },
                XmlKind::Text | XmlKind::CData => {
                    let t = match event_text(e) {
                        Ok(t) => t,
                        Err(x) => {
                            return Err(x);
                        },
                    };
                    acc.append(t.as_str());
                },
                _ => {},
            }
        }
        if done {
            let s = if acc.as_str().unicode_len() == 0 {
                None
            } else {
                Some(acc)
            };
            return Ok((s, end));
        }
        at = next;
    }
}

/// Where the element ends that was opened just before `pos`, the elements
/// `open` being open, the innermost last: the place behind the end of the
/// outermost of them. An end tag that does not name the innermost open
/// element is a fault.
pub open spec fn skip_run(text: Seq<u8>, pos: nat, open: Seq<Seq<u8>>) -> Result<nat, ParseFault>
    decreases text.len() - pos,
{
    match xml_event(text, pos) {
        None => Err(ParseFault::Xml),
        Some(e) => if ends(e, text, pos) {
            Ok(pos)
        } else {
            match e.kind {
                XmlKind::Start => skip_run(text, e.next, open.push(start_name(e))),
                XmlKind::End => if !closes(e, open) {
                    Err(ParseFault::EndMismatch)
                } else if open.len() == 1 {
                    Ok(e.next)
                } else {
                    skip_run(text, e.next, open.drop_last())
                },
                _ => skip_run(text, e.next, open),
            }
        },
    }
}

/// Passes over the element `name` that was opened just before `pos`, and
/// returns the place behind its end.
pub fn skip_this_element(text: &[u8], pos: usize, name: &[u8]) -> (r: Result<usize, ParseError>)
    requires
        pos <= text.len(),
    ensures
        match skip_run(text@, pos as nat, seq![name@]) {
            Ok(n) => r matches Ok(m) && m == n && pos <= m <= text.len(),
            Err(f) => r matches Err(x) && x.fault() == f,
        },
{
    let mut at: usize = pos;
    let mut open = one_open(name);
    loop
        invariant
            pos <= at <= text.len(),
            skip_run(text@, pos as nat, seq![name@]) == skip_run(
                text@,
                at as nat,
                names(open@),
            ),
        decreases text.len() - at,
    {
        let e = match event_at(text, at) {
            Ok(e) => e,
            Err(x) => {
                return Err(x);
            },
        };
        let next = e.next;
        if is_end(&e, text, at) {
            return Ok(at);
        }
        match e.kind {
            XmlKind::Start => {
                push_open(&mut open, &e);
            },
            XmlKind::End => {
                if !closes_top(&e, &open) {
                    return Err(ParseError::EndMismatch);
                }
                if open.len() == 1 {
                    return Ok(next);
                }
                pop_open(&mut open);
            },
            _ => {},
        }
        at = next;
    }
}

/// The event at `pos`, with the place where the next event starts.
pub(crate) fn event_at(text: &[u8], pos: usize) -> (r: Result<XmlEvent, ParseError>)
    requires
        pos <= text.len(),
    ensures
        r is Ok <==> xml_event(text@, pos as nat) is Some,
        r matches Ok(e) ==> xml_event(text@, pos as nat) == Some(e@),
        r matches Err(x) ==> x is Xml,
{
    match read_event(text, pos) {
        Ok(raw) => {
            let next = if raw.consumed <= text.len() - pos {
                pos + raw.consumed
            } else {
                0
            };
            Ok(XmlEvent { kind: raw.kind, name_len: raw.name_len, content: raw.content, next })
        },
        Err(x) => Err(ParseError::Xml(x)),
    }
}

/// The value of the attribute `key` among `attrs`, as characters: that of
/// the first attribute of this key, its escapes resolved; `None` where
/// there is none; a fault where the value's escapes are broken or what
/// they give is no UTF-8.
pub open spec fn attribute_value(attrs: Seq<(Seq<u8>, Seq<u8>)>, key: Seq<u8>) -> Result<
    Option<Seq<char>>,
    ParseFault,
>
    decreases attrs.len(),
{
    if attrs.len() == 0 {
        Ok(None)
    } else if attrs[0].0 == key {
        match unescaped_text(attrs[0].1) {
            Ok(t) => Ok(Some(t)),
            Err(f) => Err(f),
        }
    } else {
        attribute_value(attrs.drop_first(), key)
    }
}

/// The attributes of the element `e`, or the fault of its bytes.
pub open spec fn attributes_view(e: XmlEventView) -> Result<Seq<(Seq<u8>, Seq<u8>)>, ParseFault> {
    if e.name_len > e.content.len() {
        Err(ParseFault::Utf8)
    } else {
        match xml_attributes(e.content, e.name_len) {
            Some(a) => Ok(a),
            None => Err(ParseFault::Xml),
        }
    }
}

/// The attributes of the element `e`, for the readers of this crate.
pub(crate) fn attributes_of(e: &XmlEvent) -> (r: Result<Vec<(Vec<u8>, Vec<u8>)>, ParseError>)
    ensures
        match attributes_view(e@) {
            Ok(a) => r matches Ok(v) && byte_pairs(v@) == a,
            Err(f) => r matches Err(x) && x.fault() == f,
        },
{
    if e.name_len > e.content.len() {
        return Err(ParseError::Utf8);
    }
    match attributes(e.content.as_slice(), e.name_len) {
        Ok(v) => Ok(v),
        Err(x) => Err(ParseError::Xml(x)),
    }
}

/// Whether two byte strings are the same.
pub(crate) fn bytes_eq(a: &Vec<u8>, b: &[u8]) -> (r: bool)
    ensures
        r == (a@ == b@),
{
    if a.len() != b.len() {
        return false;
    }
    let mut i: usize = 0;
    while i < a.len()
        invariant
            i <= a.len(),
            a.len() == b.len(),
            forall|j: int| 0 <= j < i ==> a@[j] == b@[j],
        decreases a.len() - i,
    {
        if a[i] != b[i] {
            return false;
        }
        i += 1;
    }
    proof {
        assert(a@ =~= b@);
    }
    true
}

/// The value of the attribute `key` among `attrs`.
pub(crate) fn attribute(attrs: &Vec<(Vec<u8>, Vec<u8>)>, key: &str) -> (r: Result<
    Option<String>,
    ParseError,
>)
    ensures
        match attribute_value(byte_pairs(attrs@), vstd::utf8::encode_utf8(key@)) {
            Ok(v) => r matches Ok(s) && opt_text(s) == v,
            Err(f) => r matches Err(x) && x.fault() == f,
        },
{
    let ghost all = byte_pairs(attrs@);
    let k = key.as_bytes();
    let mut i: usize = 0;
    proof {
        assert(all.skip(0) =~= all);
    }
    while i < attrs.len()
        invariant
            i <= attrs.len(),
            all == byte_pairs(attrs@),
            k@ == vstd::utf8::encode_utf8(key@),
            attribute_value(all, k@) == attribute_value(all.skip(i as int), k@),
        decreases attrs.len() - i,
    {
        proof {
            assert(all.skip(i as int)[0] == all[i as int]);
            assert(all.skip(i as int).drop_first() =~= all.skip(i + 1));
        }
        if bytes_eq(&attrs[i].0, k) {
            return match unescaped(attrs[i].1.as_slice()) {
                Ok(s) => Ok(Some(s)),
                Err(x) => Err(x),
            };
        }
        i += 1;
    }
    Ok(None)
}

} // verus!
