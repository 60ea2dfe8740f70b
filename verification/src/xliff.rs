//! XLIFF 1.2 import: the (source, target) pairs of the translation units of
//! a document.

use vstd::prelude::*;
use crate::text::{push_str, trim, trim_start, trim_str};
use crate::xml::{
    bytes_eq, first_stop, is_stop, next_event, open_xml, text_of, text_value, xml_event_at,
    XmlEvent, XmlEventView,
};

verus! {

/// One translation unit of an imported document.
pub struct ParsedSegment {
    pub source: String,
    pub target: String,
}

/// A document that could not be read, with the reason.
pub struct ParseError {
    pub message: String,
}

pub open spec fn segment_views(v: Seq<ParsedSegment>) -> Seq<(Seq<char>, Seq<char>)> {
    v.map_values(|s: ParsedSegment| (s.source@, s.target@))
}

pub open spec fn name_source() -> Seq<u8> {
    seq![115u8, 111u8, 117u8, 114u8, 99u8, 101u8]
}

pub open spec fn name_target() -> Seq<u8> {
    seq![116u8, 97u8, 114u8, 103u8, 101u8, 116u8]
}

pub open spec fn name_unit() -> Seq<u8> {
    seq![116u8, 114u8, 97u8, 110u8, 115u8, 45u8, 117u8, 110u8, 105u8, 116u8]
}

pub fn source_name() -> (r: Vec<u8>)
    ensures
        r@ == name_source(),
{
    let r = vec![115u8, 111u8, 117u8, 114u8, 99u8, 101u8];
    assert(r@ =~= name_source());
    r
}

fn target_name() -> (r: Vec<u8>)
    ensures
        r@ == name_target(),
{
    let r = vec![116u8, 97u8, 114u8, 103u8, 101u8, 116u8];
    assert(r@ =~= name_target());
    r
}

fn unit_name() -> (r: Vec<u8>)
    ensures
        r@ == name_unit(),
{
    let r = vec![116u8, 114u8, 97u8, 110u8, 115u8, 45u8, 117u8, 110u8, 105u8, 116u8];
    assert(r@ =~= name_unit());
    r
}

/// Where the reader is: outside (0), in a `<source>` (1) or a `<target>` (2).
pub struct XliffState {
    pub mode: u8,
    pub src: Seq<char>,
    pub tgt: Seq<char>,
    pub segs: Seq<(Seq<char>, Seq<char>)>,
}

pub open spec fn xliff_open(st: XliffState, name: Seq<u8>) -> XliffState {
    if name == name_source() {
        XliffState { mode: 1, ..st }
    } else if name == name_target() {
        XliffState { mode: 2, ..st }
    } else if name == name_unit() {
        XliffState { src: seq![], tgt: seq![], ..st }
    } else {
        st
    }
}

/// One event of an XLIFF document: `<source>` and `<target>` select where
/// text goes, a new `<trans-unit>` starts empty, and the end of a unit with
/// a non-empty source records the trimmed pair.
pub open spec fn xliff_step(st: XliffState, e: XmlEventView) -> XliffState {
    match e {
        XmlEventView::Start(n) => xliff_open(st, n),
        XmlEventView::Empty(n) => xliff_open(st, n),
        XmlEventView::End(n) => {
            if n == name_source() || n == name_target() {
                XliffState { mode: 0, ..st }
            } else if n == name_unit() {
                let segs = if st.src.len() > 0 {
                    st.segs.push((trim(st.src), trim(st.tgt)))
                } else {
                    st.segs
                };
                XliffState { mode: st.mode, src: seq![], tgt: seq![], segs: segs }
            } else {
                st
            }
        },
        XmlEventView::Text(raw) => {
            if st.mode == 1 {
                XliffState { src: st.src + text_value(raw), ..st }
            } else if st.mode == 2 {
                XliffState { tgt: st.tgt + text_value(raw), ..st }
            } else {
                st
            }
        },
        _ => st,
    }
}

/// The state after the first `k` events of `data`.
pub open spec fn xliff_after(data: Seq<u8>, k: nat) -> XliffState
    decreases k,
{
    if k == 0 {
        XliffState { mode: 0, src: seq![], tgt: seq![], segs: seq![] }
    } else {
        xliff_step(xliff_after(data, (k - 1) as nat), xml_event_at(data, true, (k - 1) as nat))
    }
}

/// The result of importing `data`, where `k` is the first event that ends
/// the reading: the pairs found before it, or the reader's error.
pub open spec fn xliff_result(data: Seq<u8>, k: nat) -> Result<
    Seq<(Seq<char>, Seq<char>)>,
    Seq<char>,
> {
    match xml_event_at(data, true, k) {
        XmlEventView::Error(m) => Err("XLIFF parse error: "@ + m),
        _ => Ok(xliff_after(data, k).segs),
    }
}

pub open spec fn parse_view(r: Result<Vec<ParsedSegment>, ParseError>) -> Result<
    Seq<(Seq<char>, Seq<char>)>,
    Seq<char>,
> {
    match r {
        Ok(v) => Ok(segment_views(v@)),
        Err(e) => Err(e.message@),
    }
}

/// Parses XLIFF 1.2 bytes into the (source, target) pairs of its
/// translation units, in document order.
pub fn parse_xliff(data: &[u8]) -> (r: Result<Vec<ParsedSegment>, ParseError>)
    ensures
        exists|k: nat| first_stop(data@, true, k) && parse_view(r) == xliff_result(data@, k),
{
    let n_source = source_name();
    let n_target = target_name();
    let n_unit = unit_name();
    let mut cur = open_xml(data, true);
    let mut mode: u8 = 0;
    let mut current_source = String::new();
    let mut current_target = String::new();
    let mut segments: Vec<ParsedSegment> = Vec::new();
    assert(segment_views(segments@) =~= Seq::<(Seq<char>, Seq<char>)>::empty());
    loop
        invariant
            cur.doc() == data@,
            cur.trims() == true,
            cur.consumed() <= data@.len(),
            n_source@ == name_source(),
            n_target@ == name_target(),
            n_unit@ == name_unit(),
            xliff_after(data@, cur.count()) == (XliffState {
                mode: mode,
                src: current_source@,
                tgt: current_target@,
                segs: segment_views(segments@),
            }),
            forall|j: nat| j < cur.count() ==> !is_stop(#[trigger] xml_event_at(data@, true, j)),
        decreases data@.len() - cur.consumed(),
    {
        let ghost k = cur.count();
        let ghost before = segment_views(segments@);
        let ev = next_event(&mut cur);
        assert(xliff_after(data@, (k + 1) as nat) == xliff_step(xliff_after(data@, k), ev@));
        match ev {
            XmlEvent::Start(name) | XmlEvent::Empty(name) => {
                if bytes_eq(&name, n_source.as_slice()) {
                    mode = 1;
                } else if bytes_eq(&name, n_target.as_slice()) {
                    mode = 2;
                } else if bytes_eq(&name, n_unit.as_slice()) {
                    current_source = String::new();
                    current_target = String::new();
                }
            },
            XmlEvent::End(name) => {
                if bytes_eq(&name, n_source.as_slice()) || bytes_eq(&name, n_target.as_slice()) {
                    mode = 0;
                } else if bytes_eq(&name, n_unit.as_slice()) {
                    if !current_source.as_str().is_empty() {
                        let seg = ParsedSegment {
                            source: trim_str(current_source.as_str()),
                            target: trim_str(current_target.as_str()),
                        };
                        segments.push(seg);
                        assert(segment_views(segments@) =~= before.push(
                            (trim(current_source@), trim(current_target@)),
                        ));
                    }
                    current_source = String::new();
                    current_target = String::new();
                }
            },
            XmlEvent::Text(raw) => {
                let text = text_of(&raw);
                if mode == 1 {
                    push_str(&mut current_source, text.as_str());
                } else if mode == 2 {
                    push_str(&mut current_target, text.as_str());
                }
            },
            XmlEvent::Eof => {
                assert(first_stop(data@, true, k));
                let r = Ok(segments);
                assert(parse_view(r) == xliff_result(data@, k));
                return r;
            },
            XmlEvent::Error(e) => {
                assert(first_stop(data@, true, k));
                let mut msg = String::from_str("XLIFF parse error: ");
                push_str(&mut msg, e.as_str());
                let r = Err(ParseError { message: msg });
                assert(parse_view(r) == xliff_result(data@, k));
                return r;
            },
            XmlEvent::Other => {},
        }
        assert forall|j: nat| j < cur.count() implies !is_stop(
            #[trigger] xml_event_at(data@, true, j),
        ) by {
            if j == k {
                assert(!is_stop(ev@));
            }
        }
    }
}


/// The state after the events `es`, starting from `st`.
pub open spec fn xliff_run(st: XliffState, es: Seq<XmlEventView>) -> XliffState
    decreases es.len(),
{
    if es.len() == 0 {
        st
    } else {
        xliff_step(xliff_run(st, es.drop_last()), es.last())
    }
}

/// No event of `es` opens, closes or holds an empty `<trans-unit>`.
pub open spec fn inside_one_unit(es: Seq<XmlEventView>) -> bool {
    forall|i: int|
        0 <= i < es.len() ==> {
            let e = #[trigger] es[i];
            e != XmlEventView::Start(name_unit()) && e != XmlEventView::Empty(name_unit())
                && e != XmlEventView::End(name_unit())
        }
}

/// No event of `es` opens a `<target>`.
pub open spec fn opens_no_target(es: Seq<XmlEventView>) -> bool {
    forall|i: int|
        0 <= i < es.len() ==> {
            let e = #[trigger] es[i];
            e != XmlEventView::Start(name_target()) && e != XmlEventView::Empty(name_target())
        }
}

proof fn lemma_run_same_text(s1: XliffState, s2: XliffState, es: Seq<XmlEventView>)
    requires
        s1.mode == s2.mode,
        s1.src == s2.src,
        s1.tgt == s2.tgt,
        inside_one_unit(es),
    ensures
        xliff_run(s1, es).mode == xliff_run(s2, es).mode,
        xliff_run(s1, es).src == xliff_run(s2, es).src,
        xliff_run(s1, es).tgt == xliff_run(s2, es).tgt,
        xliff_run(s1, es).segs == s1.segs,
        xliff_run(s2, es).segs == s2.segs,
    decreases es.len(),
{
    if es.len() > 0 {
        let init = es.drop_last();
        assert forall|i: int| 0 <= i < init.len() implies {
            let e = #[trigger] init[i];
            e != XmlEventView::Start(name_unit()) && e != XmlEventView::Empty(name_unit())
                && e != XmlEventView::End(name_unit())
        } by {
            assert(init[i] == es[i]);
        }
        lemma_run_same_text(s1, s2, init);
        let e = es[es.len() - 1];
        assert(e != XmlEventView::End(name_unit()));
    }
}

/// What a translation unit records depends on that unit's own events
/// alone: from any two states in the same mode, a `<trans-unit>` followed
/// by the same events holds the same source and target text, keeps the
/// pairs recorded before it, and on closing records the same pair.
pub proof fn lemma_unit_independent(st1: XliffState, st2: XliffState, es: Seq<XmlEventView>)
    requires
        st1.mode == st2.mode,
        inside_one_unit(es),
    ensures
        ({
            let a = xliff_run(xliff_step(st1, XmlEventView::Start(name_unit())), es);
            let b = xliff_run(xliff_step(st2, XmlEventView::Start(name_unit())), es);
            let ea = xliff_step(a, XmlEventView::End(name_unit()));
            let eb = xliff_step(b, XmlEventView::End(name_unit()));
            &&& a.src == b.src
            &&& a.tgt == b.tgt
            &&& a.segs == st1.segs
            &&& b.segs == st2.segs
            &&& ea.segs.take(st1.segs.len() as int) == st1.segs
            &&& eb.segs.take(st2.segs.len() as int) == st2.segs
            &&& ea.segs.skip(st1.segs.len() as int) == eb.segs.skip(st2.segs.len() as int)
            &&& ea.src.len() == 0 && ea.tgt.len() == 0
        }),
{
    let s1 = xliff_step(st1, XmlEventView::Start(name_unit()));
    let s2 = xliff_step(st2, XmlEventView::Start(name_unit()));
    assert(name_unit() != name_source()) by {
        assert(name_unit().len() != name_source().len());
    }
    assert(name_unit() != name_target()) by {
        assert(name_unit().len() != name_target().len());
    }
    lemma_run_same_text(s1, s2, es);
    let a = xliff_run(s1, es);
    let b = xliff_run(s2, es);
    let ea = xliff_step(a, XmlEventView::End(name_unit()));
    let eb = xliff_step(b, XmlEventView::End(name_unit()));
    if a.src.len() > 0 {
        assert(ea.segs.take(st1.segs.len() as int) =~= st1.segs);
        assert(eb.segs.take(st2.segs.len() as int) =~= st2.segs);
        assert(ea.segs.skip(st1.segs.len() as int) =~= eb.segs.skip(st2.segs.len() as int));
    } else {
        assert(ea.segs.take(st1.segs.len() as int) =~= st1.segs);
        assert(eb.segs.take(st2.segs.len() as int) =~= st2.segs);
        assert(ea.segs.skip(st1.segs.len() as int) =~= eb.segs.skip(st2.segs.len() as int));
    }
}

proof fn lemma_run_no_target(s: XliffState, es: Seq<XmlEventView>)
    requires
        s.mode != 2,
        s.tgt.len() == 0,
        inside_one_unit(es),
        opens_no_target(es),
    ensures
        xliff_run(s, es).mode != 2,
        xliff_run(s, es).tgt.len() == 0,
        xliff_run(s, es).segs == s.segs,
    decreases es.len(),
{
    if es.len() > 0 {
        let init = es.drop_last();
        assert forall|i: int| 0 <= i < init.len() implies {
            let e = #[trigger] init[i];
            e != XmlEventView::Start(name_unit()) && e != XmlEventView::Empty(name_unit())
                && e != XmlEventView::End(name_unit())
        } by {
            assert(init[i] == es[i]);
        }
        assert forall|i: int| 0 <= i < init.len() implies {
            let e = #[trigger] init[i];
            e != XmlEventView::Start(name_target()) && e != XmlEventView::Empty(name_target())
        } by {
            assert(init[i] == es[i]);
        }
        lemma_run_no_target(s, init);
        let e = es[es.len() - 1];
        assert(e != XmlEventView::End(name_unit()));
        assert(e != XmlEventView::Start(name_target()));
        assert(e != XmlEventView::Empty(name_target()));
    }
}

/// A translation unit without a `<target>` element records an empty
/// target, whatever the units before it held: the text of the unit stays
/// out of the target, and closing it records its trimmed source with an
/// empty target (when the source is not empty).
pub proof fn lemma_unit_without_target(st: XliffState, es: Seq<XmlEventView>)
    requires
        st.mode != 2,
        inside_one_unit(es),
        opens_no_target(es),
    ensures
        ({
            let a = xliff_run(xliff_step(st, XmlEventView::Start(name_unit())), es);
            let ea = xliff_step(a, XmlEventView::End(name_unit()));
            &&& a.tgt.len() == 0
            &&& a.segs == st.segs
            &&& a.src.len() > 0 ==> ea.segs == st.segs.push((trim(a.src), Seq::<char>::empty()))
            &&& a.src.len() == 0 ==> ea.segs == st.segs
        }),
{
    let s = xliff_step(st, XmlEventView::Start(name_unit()));
    assert(name_unit() != name_source()) by {
        assert(name_unit().len() != name_source().len());
    }
    assert(name_unit() != name_target()) by {
        assert(name_unit().len() != name_target().len());
    }
    lemma_run_no_target(s, es);
    let a = xliff_run(s, es);
    assert(a.tgt =~= Seq::<char>::empty());
    assert(trim_start(Seq::<char>::empty()) == Seq::<char>::empty());
    assert(trim(Seq::<char>::empty()) == Seq::<char>::empty());
}

/// The events of `data` before the `k`-th.
pub open spec fn events_before(data: Seq<u8>, k: nat) -> Seq<XmlEventView> {
    Seq::new(k, |i: int| xml_event_at(data, true, i as nat))
}

/// Reading a document is running its events from the empty state, so the
/// laws on runs of events above speak of what `parse_xliff` returns.
pub proof fn lemma_after_is_run(data: Seq<u8>, k: nat)
    ensures
        xliff_after(data, k) == xliff_run(
            XliffState { mode: 0, src: seq![], tgt: seq![], segs: seq![] },
            events_before(data, k),
        ),
    decreases k,
{
    if k > 0 {
        lemma_after_is_run(data, (k - 1) as nat);
        assert(events_before(data, k).drop_last() =~= events_before(data, (k - 1) as nat));
    }
}

} // verus!
