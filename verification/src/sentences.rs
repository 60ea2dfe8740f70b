//! Sentence extraction for alignment and term extraction: a flat list of
//! sentences from a TXT, XLIFF or DOCX upload, chosen by file name.

use vstd::prelude::*;
use crate::text::{
    chars_of, ends_with, lowercase, push_str, split_char, split_on, strs, to_lowercase, trim,
    trim_chars, trim_str, utf8_decode, views, string_of,
};
use crate::xliff::{name_source, source_name, ParseError};
use crate::xml::{
    bytes_eq, first_stop, is_stop, local_name, local_part, next_event, open_xml, text_of,
    text_value, xml_event_at, XmlEvent, XmlEventView,
};

verus! {

// ───────────────────────────── TXT ─────────────────────────────

/// The trimmed, non-blank pieces of a list, in order.
pub open spec fn nonblank_trimmed(pieces: Seq<Seq<char>>) -> Seq<Seq<char>>
    decreases pieces.len(),
{
    if pieces.len() == 0 {
        seq![]
    } else {
        let r = nonblank_trimmed(pieces.drop_last());
        let t = trim(pieces.last());
        if t.len() > 0 {
            r.push(t)
        } else {
            r
        }
    }
}

/// The sentences of a plain text: its lines, trimmed, blank ones dropped.
/// (Splitting at `\n` and trimming gives what `str::lines` and trimming
/// give, since a `\r` before the `\n` is whitespace.)
pub open spec fn txt_sentences(text: Seq<char>) -> Seq<Seq<char>> {
    nonblank_trimmed(split_on(text, '\n'))
}

pub open spec fn sentences_view(r: Result<Vec<String>, ParseError>) -> Result<
    Seq<Seq<char>>,
    Seq<char>,
> {
    match r {
        Ok(v) => Ok(strs(v@)),
        Err(e) => Err(e.message@),
    }
}

fn err(msg: &str) -> (r: ParseError)
    ensures
        r.message@ == msg@,
{
    ParseError { message: String::from_str(msg) }
}

fn parse_txt(bytes: &[u8]) -> (r: Result<Vec<String>, ParseError>)
    ensures
        sentences_view(r) == (if vstd::utf8::valid_utf8(bytes@) {
            Ok(txt_sentences(vstd::utf8::decode_utf8(bytes@)))
        } else {
            Err("TXT file is not valid UTF-8"@)
        }),
{
    let text = match utf8_decode(bytes) {
        Some(t) => t,
        None => return Err(err("TXT file is not valid UTF-8")),
    };
    let cs = chars_of(text.as_str());
    let pieces = split_char(&cs, '\n');
    let mut out: Vec<String> = Vec::new();
    let mut i: usize = 0;
    assert(views(pieces@).take(0) =~= Seq::<Seq<char>>::empty());
    assert(strs(out@) =~= Seq::<Seq<char>>::empty());
    while i < pieces.len()
        invariant
            i <= pieces.len(),
            strs(out@) == nonblank_trimmed(views(pieces@).take(i as int)),
        decreases pieces.len() - i,
    {
        let ghost before = strs(out@);
        assert(views(pieces@).take(i + 1).drop_last() =~= views(pieces@).take(i as int));
        assert(views(pieces@).take(i + 1).last() == pieces@[i as int]@);
        let t = trim_chars(&pieces[i]);
        if t.len() > 0 {
            out.push(string_of(&t));
            assert(strs(out@) =~= before.push(t@));
        }
        i = i + 1;
    }
    assert(views(pieces@).take(pieces.len() as int) =~= views(pieces@));
    Ok(out)
}

// ───────────────────────────── XLIFF ─────────────────────────────

/// State of the XLIFF sentence reader: inside a `<source>` element or not,
/// and the sentences found.
pub struct SourceScan {
    pub in_source: bool,
    pub found: Seq<Seq<char>>,
}

/// One event: `<source>` and `</source>` (by local name) toggle the state,
/// and text inside a source is recorded trimmed when non-blank.
pub open spec fn source_step(st: SourceScan, e: XmlEventView) -> SourceScan {
    match e {
        XmlEventView::Start(n) => if local_part(n) == name_source() {
            SourceScan { in_source: true, ..st }
        } else {
            st
        },
        XmlEventView::End(n) => if local_part(n) == name_source() {
            SourceScan { in_source: false, ..st }
        } else {
            st
        },
        XmlEventView::Text(raw) => if st.in_source && trim(text_value(raw)).len() > 0 {
            SourceScan { found: st.found.push(trim(text_value(raw))), ..st }
        } else {
            st
        },
        _ => st,
    }
}

pub open spec fn source_after(data: Seq<u8>, k: nat) -> SourceScan
    decreases k,
{
    if k == 0 {
        SourceScan { in_source: false, found: seq![] }
    } else {
        source_step(source_after(data, (k - 1) as nat), xml_event_at(data, true, (k - 1) as nat))
    }
}

pub open spec fn xliff_sentences(data: Seq<u8>, k: nat) -> Result<Seq<Seq<char>>, Seq<char>> {
    match xml_event_at(data, true, k) {
        XmlEventView::Error(m) => Err("XLIFF parse error: "@ + m),
        _ => Ok(source_after(data, k).found),
    }
}

fn parse_xliff_sources(bytes: &[u8]) -> (r: Result<Vec<String>, ParseError>)
    ensures
        !vstd::utf8::valid_utf8(bytes@) ==> sentences_view(r) == Err::<Seq<Seq<char>>, Seq<char>>(
            "XLIFF file is not valid UTF-8"@,
        ),
        vstd::utf8::valid_utf8(bytes@) ==> exists|k: nat|
            first_stop(bytes@, true, k) && sentences_view(r) == xliff_sentences(bytes@, k),
{
    if utf8_decode(bytes).is_none() {
        return Err(err("XLIFF file is not valid UTF-8"));
    }
    let n_source = source_name();
    let mut cur = open_xml(bytes, true);
    let mut in_source = false;
    let mut sentences: Vec<String> = Vec::new();
    assert(strs(sentences@) =~= Seq::<Seq<char>>::empty());
    loop
        invariant
            cur.doc() == bytes@,
            cur.trims() == true,
            vstd::utf8::valid_utf8(bytes@),
            cur.consumed() <= bytes@.len(),
            n_source@ == name_source(),
            source_after(bytes@, cur.count()) == (SourceScan {
                in_source: in_source,
                found: strs(sentences@),
            }),
            forall|j: nat| j < cur.count() ==> !is_stop(#[trigger] xml_event_at(bytes@, true, j)),
        decreases bytes@.len() - cur.consumed(),
    {
        let ghost k = cur.count();
        let ghost before = strs(sentences@);
        let ev = next_event(&mut cur);
        assert(source_after(bytes@, (k + 1) as nat) == source_step(source_after(bytes@, k), ev@));
        match ev {
            XmlEvent::Start(name) => {
                let local = local_name(&name);
                if bytes_eq(&local, n_source.as_slice()) {
                    in_source = true;
                }
            },
            XmlEvent::End(name) => {
                let local = local_name(&name);
                if bytes_eq(&local, n_source.as_slice()) {
                    in_source = false;
                }
            },
            XmlEvent::Text(raw) => {
                if in_source {
                    let text = text_of(&raw);
                    let s = trim_str(text.as_str());
                    if !s.as_str().is_empty() {
                        let ghost sv = s@;
                        sentences.push(s);
                        assert(strs(sentences@) =~= before.push(sv));
                    }
                }
            },
            XmlEvent::Eof => {
                assert(first_stop(bytes@, true, k));
                let r = Ok(sentences);
                assert(sentences_view(r) == xliff_sentences(bytes@, k));
                return r;
            },
            XmlEvent::Error(e) => {
                assert(first_stop(bytes@, true, k));
                let mut msg = String::from_str("XLIFF parse error: ");
                push_str(&mut msg, e.as_str());
                let r = Err(ParseError { message: msg });
                assert(sentences_view(r) == xliff_sentences(bytes@, k));
                return r;
            },
            _ => {},
        }
        assert forall|j: nat| j < cur.count() implies !is_stop(
            #[trigger] xml_event_at(bytes@, true, j),
        ) by {
            if j == k {
                assert(!is_stop(ev@));
            }
        }
    }
}

// ───────────────────────────── DOCX ─────────────────────────────

pub open spec fn name_p() -> Seq<u8> {
    seq![112u8]
}

pub open spec fn name_t() -> Seq<u8> {
    seq![116u8]
}

/// State of the DOCX paragraph reader: inside a `<w:t>` run or not, the
/// text of the current paragraph, and the paragraphs found.
pub struct DocxScan {
    pub in_text: bool,
    pub current: Seq<char>,
    pub found: Seq<Seq<char>>,
}

/// One event of `word/document.xml`: `<w:p>` starts a paragraph, `<w:t>`
/// and `</w:t>` delimit its text runs, `</w:p>` records it trimmed when
/// non-blank.
pub open spec fn docx_step(st: DocxScan, e: XmlEventView) -> DocxScan {
    match e {
        XmlEventView::Start(n) => if local_part(n) == name_p() {
            DocxScan { current: seq![], ..st }
        } else if local_part(n) == name_t() {
            DocxScan { in_text: true, ..st }
        } else {
            st
        },
        XmlEventView::End(n) => if local_part(n) == name_p() {
            if trim(st.current).len() > 0 {
                DocxScan { found: st.found.push(trim(st.current)), ..st }
            } else {
                st
            }
        } else if local_part(n) == name_t() {
            DocxScan { in_text: false, ..st }
        } else {
            st
        },
        XmlEventView::Text(raw) => if st.in_text {
            DocxScan { current: st.current + text_value(raw), ..st }
        } else {
            st
        },
        _ => st,
    }
}

pub open spec fn docx_after(xml: Seq<u8>, k: nat) -> DocxScan
    decreases k,
{
    if k == 0 {
        DocxScan { in_text: false, current: seq![], found: seq![] }
    } else {
        docx_step(docx_after(xml, (k - 1) as nat), xml_event_at(xml, false, (k - 1) as nat))
    }
}

pub open spec fn docx_sentences(xml: Seq<u8>, k: nat) -> Result<Seq<Seq<char>>, Seq<char>> {
    match xml_event_at(xml, false, k) {
        XmlEventView::Error(m) => Err("DOCX XML parse error: "@ + m),
        _ => Ok(docx_after(xml, k).found),
    }
}

fn p_name() -> (r: Vec<u8>)
    ensures
        r@ == name_p(),
{
    let r = vec![112u8];
    assert(r@ =~= name_p());
    r
}

fn t_name() -> (r: Vec<u8>)
    ensures
        r@ == name_t(),
{
    let r = vec![116u8];
    assert(r@ =~= name_t());
    r
}

fn extract_docx_paragraphs(xml: &[u8]) -> (r: Result<Vec<String>, ParseError>)
    ensures
        !vstd::utf8::valid_utf8(xml@) ==> sentences_view(r) == Err::<Seq<Seq<char>>, Seq<char>>(
            "DOCX XML is not valid UTF-8"@,
        ),
        vstd::utf8::valid_utf8(xml@) ==> exists|k: nat|
            first_stop(xml@, false, k) && sentences_view(r) == docx_sentences(xml@, k),
{
    if utf8_decode(xml).is_none() {
        return Err(err("DOCX XML is not valid UTF-8"));
    }
    let np = p_name();
    let nt = t_name();
    let mut cur = open_xml(xml, false);
    let mut in_text = false;
    let mut current = String::new();
    let mut sentences: Vec<String> = Vec::new();
    assert(strs(sentences@) =~= Seq::<Seq<char>>::empty());
    loop
        invariant
            cur.doc() == xml@,
            cur.trims() == false,
            vstd::utf8::valid_utf8(xml@),
            cur.consumed() <= xml@.len(),
            np@ == name_p(),
            nt@ == name_t(),
            docx_after(xml@, cur.count()) == (DocxScan {
                in_text: in_text,
                current: current@,
                found: strs(sentences@),
            }),
            forall|j: nat| j < cur.count() ==> !is_stop(#[trigger] xml_event_at(xml@, false, j)),
        decreases xml@.len() - cur.consumed(),
    {
        let ghost k = cur.count();
        let ghost before = strs(sentences@);
        let ev = next_event(&mut cur);
        assert(docx_after(xml@, (k + 1) as nat) == docx_step(docx_after(xml@, k), ev@));
        match ev {
            XmlEvent::Start(name) => {
                let local = local_name(&name);
                if bytes_eq(&local, np.as_slice()) {
                    current = String::new();
                } else if bytes_eq(&local, nt.as_slice()) {
                    in_text = true;
                }
            },
            XmlEvent::End(name) => {
                let local = local_name(&name);
                if bytes_eq(&local, np.as_slice()) {
                    let s = trim_str(current.as_str());
                    if !s.as_str().is_empty() {
                        let ghost sv = s@;
                        sentences.push(s);
                        assert(strs(sentences@) =~= before.push(sv));
                    }
                } else if bytes_eq(&local, nt.as_slice()) {
                    in_text = false;
                }
            },
            XmlEvent::Text(raw) => {
                if in_text {
                    let text = text_of(&raw);
                    push_str(&mut current, text.as_str());
                }
            },
            XmlEvent::Eof => {
                assert(first_stop(xml@, false, k));
                let r = Ok(sentences);
                assert(sentences_view(r) == docx_sentences(xml@, k));
                return r;
            },
            XmlEvent::Error(e) => {
                assert(first_stop(xml@, false, k));
                let mut msg = String::from_str("DOCX XML parse error: ");
                push_str(&mut msg, e.as_str());
                let r = Err(ParseError { message: msg });
                assert(sentences_view(r) == docx_sentences(xml@, k));
                return r;
            },
            _ => {},
        }
        assert forall|j: nat| j < cur.count() implies !is_stop(
            #[trigger] xml_event_at(xml@, false, j),
        ) by {
            if j == k {
                assert(!is_stop(ev@));
            }
        }
    }
}

/// The outcome of reading one member of a ZIP archive.
pub enum ZipRead {
    Found(Vec<u8>),
    /// The bytes are not a ZIP archive.
    NotZip,
    /// The archive has no member of that name.
    Missing,
    /// The member could not be read; the I/O error's text.
    Failed(String),
}

pub enum ZipReadView {
    Found(Seq<u8>),
    NotZip,
    Missing,
    Failed(Seq<char>),
}

impl View for ZipRead {
    type V = ZipReadView;

    open spec fn view(&self) -> ZipReadView {
        match self {
            ZipRead::Found(b) => ZipReadView::Found(b@),
            ZipRead::NotZip => ZipReadView::NotZip,
            ZipRead::Missing => ZipReadView::Missing,
            ZipRead::Failed(m) => ZipReadView::Failed(m@),
        }
    }
}

/// What reading the member `name` of the ZIP archive `archive` with the `zip`
/// crate gives.
pub uninterp spec fn zip_member(archive: Seq<u8>, name: Seq<char>) -> ZipReadView;

/// `zip::ZipArchive::new` on the bytes, then `by_name(name)` read to its
/// end. The outcome is `zip_member` of the arguments; the ZIP format is not
/// restated.
#[verifier::external_body]
fn read_zip_member(archive: &[u8], name: &str) -> (r: ZipRead)
    ensures
        r@ == zip_member(archive@, name@),
{
    let mut zip = match zip::ZipArchive::new(std::io::Cursor::new(archive)) {
        Ok(z) => z,
        Err(_) => return ZipRead::NotZip,
    };
    let mut entry = match zip.by_name(name) {
        Ok(e) => e,
        Err(_) => return ZipRead::Missing,
    };
    let mut buf = Vec::new();
    match std::io::Read::read_to_end(&mut entry, &mut buf) {
        Ok(_) => ZipRead::Found(buf),
        Err(e) => ZipRead::Failed(format!("{}", e)),
    }
}

/// The sentences of a DOCX file, by what reading its `word/document.xml`
/// gives.
pub open spec fn docx_outcome(z: ZipReadView, r: Result<Seq<Seq<char>>, Seq<char>>) -> bool {
    match z {
        ZipReadView::NotZip => r == Err::<Seq<Seq<char>>, Seq<char>>("Failed to open DOCX as ZIP"@),
        ZipReadView::Missing => r == Err::<Seq<Seq<char>>, Seq<char>>(
            "word/document.xml not found in DOCX"@,
        ),
        ZipReadView::Failed(m) => r == Err::<Seq<Seq<char>>, Seq<char>>(m),
        ZipReadView::Found(xml) => if vstd::utf8::valid_utf8(xml) {
            exists|k: nat| first_stop(xml, false, k) && r == docx_sentences(xml, k)
        } else {
            r == Err::<Seq<Seq<char>>, Seq<char>>("DOCX XML is not valid UTF-8"@)
        },
    }
}

fn parse_docx(bytes: &[u8]) -> (r: Result<Vec<String>, ParseError>)
    ensures
        docx_outcome(zip_member(bytes@, "word/document.xml"@), sentences_view(r)),
{
    match read_zip_member(bytes, "word/document.xml") {
        ZipRead::NotZip => Err(err("Failed to open DOCX as ZIP")),
        ZipRead::Missing => Err(err("word/document.xml not found in DOCX")),
        ZipRead::Failed(m) => Err(ParseError { message: m }),
        ZipRead::Found(xml) => extract_docx_paragraphs(xml.as_slice()),
    }
}

// ───────────────────────────── dispatch ─────────────────────────────

pub open spec fn seq_ends_with(s: Seq<char>, suffix: Seq<char>) -> bool {
    suffix.len() <= s.len() && s.subrange(s.len() - suffix.len(), s.len() as int) == suffix
}

/// The format a file name selects, by its lower-cased ending: XLIFF (1),
/// DOCX (2), TXT (3), or none (0).
pub open spec fn format_of(filename: Seq<char>) -> int {
    let lower = lowercase(filename);
    if seq_ends_with(lower, ".xliff"@) || seq_ends_with(lower, ".xlf"@) {
        1
    } else if seq_ends_with(lower, ".docx"@) {
        2
    } else if seq_ends_with(lower, ".txt"@) {
        3
    } else {
        0
    }
}

pub open spec fn unsupported_message(filename: Seq<char>) -> Seq<char> {
    "Unsupported file format: '"@ + filename + "'.  Accepted: .txt, .xliff, .xlf, .docx"@
}

fn suffix_is(lower: &Vec<char>, suffix: &str) -> (r: bool)
    ensures
        r == seq_ends_with(lower@, suffix@),
{
    let s = chars_of(suffix);
    ends_with(lower, &s)
}

/// Parses raw file bytes into a list of sentences; `filename` is used only
/// for format detection (`.xliff`/`.xlf`, `.docx`, `.txt`, case-insensitive).
pub fn extract_sentences(bytes: &[u8], filename: &str) -> (r: Result<Vec<String>, ParseError>)
    ensures
        format_of(filename@) == 0 ==> sentences_view(r) == Err::<Seq<Seq<char>>, Seq<char>>(
            unsupported_message(filename@),
        ),
        format_of(filename@) == 3 ==> sentences_view(r) == (if vstd::utf8::valid_utf8(bytes@) {
            Ok(txt_sentences(vstd::utf8::decode_utf8(bytes@)))
        } else {
            Err("TXT file is not valid UTF-8"@)
        }),
        format_of(filename@) == 1 && !vstd::utf8::valid_utf8(bytes@) ==> sentences_view(r) == Err::<
            Seq<Seq<char>>,
            Seq<char>,
        >("XLIFF file is not valid UTF-8"@),
        format_of(filename@) == 1 && vstd::utf8::valid_utf8(bytes@) ==> exists|k: nat|
            first_stop(bytes@, true, k) && sentences_view(r) == xliff_sentences(bytes@, k),
        format_of(filename@) == 2 ==> docx_outcome(
            zip_member(bytes@, "word/document.xml"@),
            sentences_view(r),
        ),
{
    let lower_s = to_lowercase(filename);
    let lower = chars_of(lower_s.as_str());
    if suffix_is(&lower, ".xliff") || suffix_is(&lower, ".xlf") {
        parse_xliff_sources(bytes)
    } else if suffix_is(&lower, ".docx") {
        parse_docx(bytes)
    } else if suffix_is(&lower, ".txt") {
        parse_txt(bytes)
    } else {
        let mut msg = String::from_str("Unsupported file format: '");
        push_str(&mut msg, filename);
        push_str(&mut msg, "'.  Accepted: .txt, .xliff, .xlf, .docx");
        Err(ParseError { message: msg })
    }
}

} // verus!
