//! Pull access to the events of an XML document, read with `quick_xml`.
//!
//! A [`XmlCursor`] reads the events of one document in order. What the
//! reader yields is named, not restated: the `k`-th event of a document is
//! `xml_event_at(data, trim, k)`.

use vstd::prelude::*;
use quick_xml::events::Event;
use quick_xml::Reader;
use crate::text::utf8_decode;

verus! {

#[verifier::external_type_specification]
#[verifier::external_body]
#[verifier::reject_recursive_types(R)]
pub struct ExXmlReader<R>(Reader<R>);

/// One event of an XML document.
pub enum XmlEvent {
    /// An opening tag, with its qualified name.
    Start(Vec<u8>),
    /// A self-closing tag, with its qualified name.
    Empty(Vec<u8>),
    /// A closing tag, with its qualified name.
    End(Vec<u8>),
    /// Character data, still escaped.
    Text(Vec<u8>),
    /// End of the document.
    Eof,
    /// A syntax error, with the reader's description of it.
    Error(String),
    /// Any other markup (declarations, comments, CDATA, processing instructions).
    Other,
}

/// The content of an [`XmlEvent`].
pub enum XmlEventView {
    Start(Seq<u8>),
    Empty(Seq<u8>),
    End(Seq<u8>),
    Text(Seq<u8>),
    Eof,
    Error(Seq<char>),
    Other,
}

impl View for XmlEvent {
    type V = XmlEventView;

    open spec fn view(&self) -> XmlEventView {
        match self {
            XmlEvent::Start(n) => XmlEventView::Start(n@),
            XmlEvent::Empty(n) => XmlEventView::Empty(n@),
            XmlEvent::End(n) => XmlEventView::End(n@),
            XmlEvent::Text(t) => XmlEventView::Text(t@),
            XmlEvent::Eof => XmlEventView::Eof,
            XmlEvent::Error(m) => XmlEventView::Error(m@),
            XmlEvent::Other => XmlEventView::Other,
        }
    }
}

/// The `index`-th event (from 0) that a `quick_xml::Reader` created with
/// `Reader::from_reader(data)` and `trim_text(trim)` yields.
pub uninterp spec fn xml_event_at(data: Seq<u8>, trim: bool, index: nat) -> XmlEventView;

/// The event ends the reading of a document.
pub open spec fn is_stop(e: XmlEventView) -> bool {
    e is Eof || e is Error
}

/// `k` is the index of the first event that ends the reading of `data`.
pub open spec fn first_stop(data: Seq<u8>, trim: bool, k: nat) -> bool {
    &&& is_stop(xml_event_at(data, trim, k))
    &&& forall|j: nat| j < k ==> !is_stop(#[trigger] xml_event_at(data, trim, j))
}

/// Two indices that both end the reading first are the same.
pub proof fn lemma_first_stop_unique(data: Seq<u8>, trim: bool, k1: nat, k2: nat)
    requires
        first_stop(data, trim, k1),
        first_stop(data, trim, k2),
    ensures
        k1 == k2,
{
    if k1 < k2 {
        assert(!is_stop(xml_event_at(data, trim, k1)));
    } else if k2 < k1 {
        assert(!is_stop(xml_event_at(data, trim, k2)));
    }
}

/// A reader over one document, with the number of events read so far.
pub struct XmlCursor<'a> {
    reader: Reader<&'a [u8]>,
    data: Ghost<Seq<u8>>,
    trim: Ghost<bool>,
    count: Ghost<nat>,
    pos: usize,
}

impl<'a> XmlCursor<'a> {
    /// The document.
    pub closed spec fn doc(&self) -> Seq<u8> {
        self.data@
    }

    /// Whether text is trimmed of surrounding whitespace.
    pub closed spec fn trims(&self) -> bool {
        self.trim@
    }

    /// How many events have been read.
    pub closed spec fn count(&self) -> nat {
        self.count@
    }

    /// How many bytes of the document have been consumed.
    pub closed spec fn consumed(&self) -> nat {
        self.pos as nat
    }
}

/// `Reader::from_reader(data)` with `trim_text(trim)`.
#[verifier::external_body]
fn new_reader<'a>(data: &'a [u8], trim: bool) -> Reader<&'a [u8]> {
    let mut reader = Reader::from_reader(data);
    reader.config_mut().trim_text(trim);
    reader
}

/// A cursor at the start of `data`.
pub fn open_xml<'a>(data: &'a [u8], trim: bool) -> (r: XmlCursor<'a>)
    ensures
        r.doc() == data@,
        r.trims() == trim,
        r.count() == 0,
        r.consumed() == 0,
{
    XmlCursor { reader: new_reader(data, trim), data: Ghost(data@), trim: Ghost(trim), count: Ghost(0), pos: 0 }
}

/// `Reader::read_event` on the cursor's reader. The cursor is only ever made
/// by [`open_xml`] and advanced here, so its reader has read `count` events
/// of `data`; the event returned is the next one. A reader consumes at least
/// one byte for every event but the end of the document (or an error), and
/// never more bytes than the document holds.
#[verifier::external_body]
pub(crate) fn next_event(cur: &mut XmlCursor) -> (ev: XmlEvent)
    ensures
        ev@ == xml_event_at(old(cur).doc(), old(cur).trims(), old(cur).count()),
        final(cur).doc() == old(cur).doc(),
        final(cur).trims() == old(cur).trims(),
        final(cur).count() == old(cur).count() + 1,
        final(cur).consumed() <= old(cur).doc().len(),
        is_stop(ev@) || old(cur).consumed() < final(cur).consumed(),
{
    let ev = match cur.reader.read_event() {
        Ok(Event::Start(e)) => XmlEvent::Start(e.name().as_ref().to_vec()),
        Ok(Event::Empty(e)) => XmlEvent::Empty(e.name().as_ref().to_vec()),
        Ok(Event::End(e)) => XmlEvent::End(e.name().as_ref().to_vec()),
        Ok(Event::Text(e)) => XmlEvent::Text(e.into_inner().into_owned()),
        Ok(Event::Eof) => XmlEvent::Eof,
        Ok(_) => XmlEvent::Other,
        Err(e) => XmlEvent::Error(format!("{}", e)),
    };
    cur.pos = cur.reader.buffer_position() as usize;
    ev
}

/// What `quick_xml::escape::unescape` gives for a text: `None` on a
/// malformed or unknown entity reference.
pub uninterp spec fn xml_unescaped(raw: Seq<char>) -> Option<Seq<char>>;

/// `quick_xml::escape::unescape`; the entity rules are not restated.
#[verifier::external_body]
fn unescape(raw: &str) -> (r: Option<String>)
    ensures
        match r {
            Some(s) => xml_unescaped(raw@) == Some(s@),
            None => xml_unescaped(raw@) is None,
        },
{
    match quick_xml::escape::unescape(raw) {
        Ok(s) => Some(s.into_owned()),
        Err(_) => None,
    }
}

/// The text of a character-data event: the bytes decoded as UTF-8 and
/// unescaped, or the empty text when either step fails
/// (`BytesText::unescape().unwrap_or_default()`).
pub open spec fn text_value(raw: Seq<u8>) -> Seq<char> {
    if vstd::utf8::valid_utf8(raw) {
        match xml_unescaped(vstd::utf8::decode_utf8(raw)) {
            Some(s) => s,
            None => seq![],
        }
    } else {
        seq![]
    }
}

pub fn text_of(raw: &Vec<u8>) -> (r: String)
    ensures
        r@ == text_value(raw@),
{
    match utf8_decode(raw.as_slice()) {
        Some(s) => match unescape(s.as_str()) {
            Some(t) => t,
            None => String::new(),
        },
        None => String::new(),
    }
}

/// The local part of a qualified name: what follows its first `:`, or the
/// whole name.
pub open spec fn local_part(name: Seq<u8>) -> Seq<u8> {
    if exists|i: int| 0 <= i < name.len() && name[i] == 0x3a {
        let i = choose|i: int|
            0 <= i < name.len() && name[i] == 0x3a && forall|j: int| 0 <= j < i ==> name[j] != 0x3a;
        name.subrange(i + 1, name.len() as int)
    } else {
        name
    }
}

/// `QName::local_name`.
pub fn local_name(name: &Vec<u8>) -> (r: Vec<u8>)
    ensures
        r@ == local_part(name@),
{
    let mut i: usize = 0;
    while i < name.len()
        invariant
            i <= name.len(),
            forall|j: int| 0 <= j < i ==> name@[j] != 0x3a,
        decreases name.len() - i,
    {
        if name[i] == 0x3a {
            let mut r: Vec<u8> = Vec::new();
            let mut k = i + 1;
            while k < name.len()
                invariant
                    i < k <= name.len(),
                    r@ == name@.subrange(i + 1, k as int),
                decreases name.len() - k,
            {
                r.push(name[k]);
                assert(name@.subrange(i + 1, k + 1) =~= name@.subrange(i + 1, k as int).push(
                    name@[k as int],
                ));
                k = k + 1;
            }
            proof {
                let c = choose|c: int|
                    0 <= c < name@.len() && name@[c] == 0x3a && forall|j: int|
                        0 <= j < c ==> name@[j] != 0x3a;
                assert(name@[i as int] == 0x3a);
                if c < i {
                    assert(name@[c] != 0x3a);
                }
                if c > i {
                    assert(name@[i as int] != 0x3a);
                }
            }
            return r;
        }
        i = i + 1;
    }
    let mut r: Vec<u8> = Vec::new();
    let mut k: usize = 0;
    while k < name.len()
        invariant
            k <= name.len(),
            r@ == name@.subrange(0, k as int),
        decreases name.len() - k,
    {
        r.push(name[k]);
        assert(name@.subrange(0, k + 1) =~= name@.subrange(0, k as int).push(name@[k as int]));
        k = k + 1;
    }
    assert(name@.subrange(0, name@.len() as int) =~= name@);
    r
}

/// Byte-wise equality with a literal.
pub fn bytes_eq(a: &Vec<u8>, b: &[u8]) -> (r: bool)
    ensures
        r == (a@ == b@),
{
    if a.len() != b.len() {
        return false;
    }
    let mut i: usize = 0;
    while i < a.len()
        invariant
            i <= a.len(),
            a.len() == b.len(),
            forall|k: int| 0 <= k < i ==> a@[k] == b@[k],
        decreases a.len() - i,
    {
        if a[i] != b[i] {
            return false;
        }
        i = i + 1;
    }
    assert(a@ =~= b@);
    true
}

} // verus!
