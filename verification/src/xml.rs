//! Reading a schema document as a stream of XML events. The document is read
//! by quick-xml; what the schema rules need of each event (a tag's name and
//! attributes, the end of an element, the end of the document or an error) is
//! handed over as plain values.
use vstd::prelude::*;
use quick_xml::events::{BytesStart, Event};
use crate::parser::{attr_pos, attr_val, lemma_attr_pos, UIParser};
use crate::text::{lemma_trim_idempotent, push_str, trim, trimmed};

verus! {

/// A start or empty-element tag: its name, and its attributes in document
/// order or the reader's message on why they could not be read.
pub struct XmlTag {
    pub name: String,
    pub attrs: Result<Vec<(String, String)>, String>,
}

/// One event of a document, as the schema rules see it.
pub enum XmlEvent {
    /// `<name ...>`.
    Start(XmlTag),
    /// `<name .../>`.
    Empty(XmlTag),
    /// `</name>`, with the name.
    End(String),
    /// The end of the document.
    Eof,
    /// A syntax error, with its message.
    Error(String),
    /// Anything else: text, comments, declarations.
    Other,
}

/// An attribute list as pairs of character sequences.
pub open spec fn attrs_view(a: Seq<(String, String)>) -> Seq<(Seq<char>, Seq<char>)> {
    a.map_values(|p: (String, String)| (p.0@, p.1@))
}

/// [`XmlTag`] as values.
pub ghost struct XmlTagView {
    pub name: Seq<char>,
    pub attrs: Result<Seq<(Seq<char>, Seq<char>)>, Seq<char>>,
}

/// [`XmlEvent`] as values.
pub ghost enum XmlEventView {
    Start(XmlTagView),
    Empty(XmlTagView),
    End(Seq<char>),
    Eof,
    Error(Seq<char>),
    Other,
}

impl View for XmlTag {
    type V = XmlTagView;

    open spec fn view(&self) -> XmlTagView {
        XmlTagView {
            name: self.name@,
            attrs: match self.attrs {
                Ok(a) => Ok(attrs_view(a@)),
                Err(m) => Err(m@),
            },
        }
    }
}

impl View for XmlEvent {
    type V = XmlEventView;

    open spec fn view(&self) -> XmlEventView {
        match self {
            XmlEvent::Start(t) => XmlEventView::Start(t@),
            XmlEvent::Empty(t) => XmlEventView::Empty(t@),
            XmlEvent::End(n) => XmlEventView::End(n@),
            XmlEvent::Eof => XmlEventView::Eof,
            XmlEvent::Error(m) => XmlEventView::Error(m@),
            XmlEvent::Other => XmlEventView::Other,
        }
    }
}

/// The event ends the reading: the end of the document or an error.
pub open spec fn is_last(e: XmlEventView) -> bool {
    e is Eof || e is Error
}

/// A sequence of events that ends, at its last event and nowhere before, with
/// the end of the document or an error.
pub open spec fn well_ended(evs: Seq<XmlEventView>) -> bool {
    &&& evs.len() > 0
    &&& is_last(evs.last())
    &&& forall|k: int| 0 <= k < evs.len() - 1 ==> !is_last(#[trigger] evs[k])
}

/// The value of the first attribute named `key`, if any.
pub open spec fn attr_of(avs: Seq<(Seq<char>, Seq<char>)>, key: Seq<char>) -> Option<Seq<char>>
    decreases avs.len(),
{
    if avs.len() == 0 {
        None
    } else if avs[0].0 == key {
        Some(avs[0].1)
    } else {
        attr_of(avs.drop_first(), key)
    }
}

pub(crate) proof fn lemma_attr_of(a: Seq<(String, String)>, key: Seq<char>)
    ensures
        attr_val(a, key) == attr_of(attrs_view(a), key),
    decreases a.len(),
{
    if a.len() > 0 && a[0].0@ != key {
        let t = a.drop_first();
        lemma_attr_of(t, key);
        lemma_attr_pos(t, key);
        assert(attrs_view(a).drop_first() =~= attrs_view(t));
        assert(attr_pos(a, key) == 1 + attr_pos(t, key));
        if 0 <= attr_pos(t, key) < t.len() {
            assert(a[attr_pos(a, key)] == t[attr_pos(t, key)]);
        }
    }
}

#[verifier::external_type_specification]
#[verifier::external_body]
#[verifier::reject_recursive_types(R)]
pub struct ExXmlReader<R>(quick_xml::Reader<R>);

/// The events that a quick-xml reader over `text` hands out, from the first
/// up to and including the first end of the document or error.
pub uninterp spec fn xml_events_of(text: Seq<char>) -> Seq<XmlEventView>;

/// The events that `r` has still to hand out, up to and including the first
/// end of the document or error.
pub uninterp spec fn pending_events(r: quick_xml::Reader<&[u8]>) -> Seq<XmlEventView>;

/// Calls quick-xml's `Reader::from_str`. Claimed: the reader hands out the
/// events of `text`, and reading it ends, after finitely many events, with
/// the end of the document or an error (each event that is neither consumes
/// input; quick-xml stays at `Eof` once it got there or hit an error that it
/// does not recover from). Which events a document gives is left to
/// quick-xml and only named.
#[verifier::external_body]
fn open_reader<'a>(text: &'a str) -> (r: quick_xml::Reader<&'a [u8]>)
    ensures
        pending_events(r) == xml_events_of(text@),
        well_ended(pending_events(r)),
{
    quick_xml::Reader::from_str(text)
}

/// Calls quick-xml's `Reader::read_event` and hands the event over as plain
/// values: a tag's name and its attributes (key and raw value, as in the
/// source, or the message of the error that stopped reading them), an end
/// tag's name, or the error's message. Claimed: while the reader has events
/// to hand out, the call gives the next one; while that one is not the last
/// of them, the rest stay pending. After the last (the end of the document or
/// an error) nothing is claimed: quick-xml goes on reading after an error
/// that it can recover from.
#[verifier::external_body]
fn read_event(r: &mut quick_xml::Reader<&[u8]>) -> (e: XmlEvent)
    ensures
        pending_events(*old(r)).len() > 0 ==> e@ == pending_events(*old(r))[0],
        pending_events(*old(r)).len() > 1 ==> pending_events(*final(r)) == pending_events(*old(r)).drop_first(),
{
    let tag = |e: &BytesStart| XmlTag {
        name: e.name().0.to_string(),
        attrs: e.attributes().map(|a| a.map(|a| (a.key.0.to_string(), a.value.to_string()))
            .map_err(|x| x.to_string())).collect(),
    };
    match r.read_event() {
        Ok(Event::Start(e)) => XmlEvent::Start(tag(&e)),
        Ok(Event::Empty(e)) => XmlEvent::Empty(tag(&e)),
        Ok(Event::End(e)) => XmlEvent::End(e.name().0.to_string()),
        Ok(Event::Eof) => XmlEvent::Eof,
        Ok(_) => XmlEvent::Other,
        Err(e) => XmlEvent::Error(format!("{}", e)),
    }
}

/// A document being read, event by event.
pub struct XmlStream<'a> {
    reader: quick_xml::Reader<&'a [u8]>,
    done: bool,
}

impl<'a> XmlStream<'a> {
    /// The events still to come.
    pub closed spec fn events(&self) -> Seq<XmlEventView> {
        if self.done {
            Seq::empty()
        } else {
            pending_events(self.reader)
        }
    }

    /// The events still to come end with the end of the document or an
    /// error, or none are left.
    pub closed spec fn wf(&self) -> bool {
        self.done || well_ended(pending_events(self.reader))
    }

    /// Starts reading `text`.
    pub fn new(text: &'a str) -> (s: Self)
        ensures
            s.wf(),
            s.events() == xml_events_of(text@),
            well_ended(xml_events_of(text@)),
    {
        XmlStream { reader: open_reader(text), done: false }
    }

    /// The next event; once the end of the document or an error was handed
    /// out, the end of the document again.
    pub fn next(&mut self) -> (e: XmlEvent)
        requires
            old(self).wf(),
        ensures
            final(self).wf(),
            old(self).events().len() > 0 ==> e@ == old(self).events()[0]
                && final(self).events() == old(self).events().drop_first(),
            old(self).events().len() == 0 ==> e@ == XmlEventView::Eof
                && final(self).events() == old(self).events(),
            final(self).events().len() == 0 || well_ended(final(self).events()),
    {
        if self.done {
            return XmlEvent::Eof;
        }
        let e = read_event(&mut self.reader);
        let last = match e {
            XmlEvent::Eof => true,
            XmlEvent::Error(_) => true,
            _ => false,
        };
        proof {
            let p = pending_events(old(self).reader);
            if !last {
                assert forall|k: int| 0 <= k < p.drop_first().len() - 1 implies !is_last(#[trigger] p.drop_first()[k]) by {
                    assert(p.drop_first()[k] == p[k + 1]);
                }
            } else {
                assert(p.len() == 1) by {
                    if p.len() > 1 {
                        assert(!is_last(p[0]));
                    }
                }
            }
        }
        self.done = last;
        e
    }
}

/// The `src` value of a `<schema>` tag, trimmed, where it has a non-empty one
/// and its attributes could be read.
pub open spec fn source_of(t: XmlTagView) -> Seq<Seq<char>> {
    if t.name == "schema"@ {
        match t.attrs {
            Ok(avs) => match attr_of(avs, "src"@) {
                Some(v) => if trim(v).len() > 0 {
                    seq![trim(v)]
                } else {
                    Seq::empty()
                },
                None => Seq::empty(),
            },
            Err(_) => Seq::empty(),
        }
    } else {
        Seq::empty()
    }
}

/// What one event contributes to [`schema_sources`].
pub open spec fn source_of_event(e: XmlEventView) -> Seq<Seq<char>> {
    match e {
        XmlEventView::Start(t) => source_of(t),
        XmlEventView::Empty(t) => source_of(t),
        _ => Seq::empty(),
    }
}

/// The sources of the `<schema>` tags (start or empty) among `evs`, in
/// document order, up to the end of the document or the first error.
pub open spec fn schema_sources(evs: Seq<XmlEventView>) -> Seq<Seq<char>>
    decreases evs.len(),
{
    if evs.len() == 0 || is_last(evs[0]) {
        Seq::empty()
    } else {
        source_of_event(evs[0]) + schema_sources(evs.drop_first())
    }
}

/// The message when the document ends inside a skipped `<tag>`.
pub open spec fn skip_eof_msg(tag: Seq<char>) -> Seq<char> {
    "Unexpected EOF while skipping <"@ + tag + "> tag"@
}

/// The message when a syntax error `m` comes inside a skipped `<tag>`.
pub open spec fn skip_error_msg(tag: Seq<char>, m: Seq<char>) -> Seq<char> {
    "XML syntax error while skipping <"@ + tag + ">: "@ + m
}

/// One more level of nesting, counted up to `u64::MAX`.
pub open spec fn deeper(depth: int) -> int {
    if depth < u64::MAX {
        depth + 1
    } else {
        depth
    }
}

/// Skipping the rest of a `<tag>` element, `depth` levels of `<tag>` deep:
/// the outcome, and how many events it reads. Nested `<tag>` elements are
/// counted, other elements are passed over.
pub open spec fn skip_outcome(evs: Seq<XmlEventView>, tag: Seq<char>, depth: int) -> (Result<(), Seq<char>>, int)
    decreases evs.len(),
{
    if evs.len() == 0 {
        (Err(skip_eof_msg(tag)), 0)
    } else {
        match evs[0] {
            XmlEventView::Start(t) => {
                let r = skip_outcome(evs.drop_first(), tag, if t.name == tag { deeper(depth) } else { depth });
                (r.0, r.1 + 1)
            },
            XmlEventView::End(n) => if n == tag && depth <= 1 {
                (Ok(()), 1)
            } else {
                let r = skip_outcome(evs.drop_first(), tag, if n == tag { depth - 1 } else { depth });
                (r.0, r.1 + 1)
            },
            XmlEventView::Eof => (Err(skip_eof_msg(tag)), 1),
            XmlEventView::Error(m) => (Err(skip_error_msg(tag, m)), 1),
            _ => {
                let r = skip_outcome(evs.drop_first(), tag, depth);
                (r.0, r.1 + 1)
            },
        }
    }
}

proof fn lemma_skip_count(evs: Seq<XmlEventView>, tag: Seq<char>, depth: int)
    ensures
        0 <= skip_outcome(evs, tag, depth).1 <= evs.len(),
    decreases evs.len(),
{
    if evs.len() > 0 {
        let d = match evs[0] {
            XmlEventView::Start(t) => if t.name == tag { deeper(depth) } else { depth },
            XmlEventView::End(n) => if n == tag { depth - 1 } else { depth },
            _ => depth,
        };
        lemma_skip_count(evs.drop_first(), tag, d);
    }
}

/// Where a tag is a `<schema>` with a source, the source.
fn tag_source(t: &XmlTag) -> (r: Option<String>)
    ensures
        match r {
            Some(v) => source_of(t@) == seq![v@],
            None => source_of(t@) == Seq::<Seq<char>>::empty(),
        },
{
    if !crate::text::str_is(t.name.as_str(), "schema") {
        return None;
    }
    match &t.attrs {
        Ok(a) => {
            proof {
                lemma_attr_of(a@, "src"@);
            }
            match UIParser::raw_attr(a.as_slice(), "src") {
                Some(v) => {
                    let s = trimmed(v.as_str());
                    if s.as_str().is_empty() {
                        None
                    } else {
                        Some(s)
                    }
                },
                None => None,
            }
        },
        Err(_) => None,
    }
}

/// Every source that a document includes is non-empty and trimmed.
pub proof fn law_sources_trimmed(evs: Seq<XmlEventView>)
    ensures
        forall|k: int| 0 <= k < schema_sources(evs).len() ==> {
            let v = #[trigger] schema_sources(evs)[k];
            &&& v.len() > 0
            &&& trim(v) == v
        },
    decreases evs.len(),
{
    if evs.len() > 0 && !is_last(evs[0]) {
        law_sources_trimmed(evs.drop_first());
        let here = source_of_event(evs[0]);
        let rest = schema_sources(evs.drop_first());
        assert(schema_sources(evs) == here + rest);
        assert forall|k: int| 0 <= k < schema_sources(evs).len() implies {
            let v = #[trigger] schema_sources(evs)[k];
            &&& v.len() > 0
            &&& trim(v) == v
        } by {
            if k < here.len() {
                let t = match evs[0] {
                    XmlEventView::Start(t) => t,
                    XmlEventView::Empty(t) => t,
                    _ => arbitrary(),
                };
                let raw = attr_of(t.attrs->Ok_0, "src"@)->Some_0;
                assert(schema_sources(evs)[k] == trim(raw));
                lemma_trim_idempotent(raw);
            } else {
                assert(schema_sources(evs)[k] == rest[k - here.len()]);
            }
        }
    }
}

impl UIParser {
    /// The sources that a document includes with `<schema src="..">` (see
    /// [`schema_sources`]).
    pub fn extract_schema_sources(xml: &str) -> (r: Vec<String>)
        ensures
            r@.map_values(|v: String| v@) == schema_sources(xml_events_of(xml@)),
    {
        let mut s = XmlStream::new(xml);
        let ghost all = schema_sources(xml_events_of(xml@));
        let mut out: Vec<String> = Vec::new();
        loop
            invariant
                s.wf(),
                all == schema_sources(xml_events_of(xml@)),
                s.events().len() == 0 || well_ended(s.events()),
                out@.map_values(|v: String| v@) + schema_sources(s.events()) == all,
            decreases s.events().len(),
        {
            let ghost before = s.events();
            let ghost seen = out@.map_values(|v: String| v@);
            let e = s.next();
            let found = match &e {
                XmlEvent::Start(t) => tag_source(t),
                XmlEvent::Empty(t) => tag_source(t),
                XmlEvent::Eof => {
                    assert(seen + schema_sources(before) =~= seen);
                    return out;
                },
                XmlEvent::Error(_) => {
                    assert(seen + schema_sources(before) =~= seen);
                    return out;
                },
                XmlEvent::Other => None,
                XmlEvent::End(_) => None,
            };
            match found {
                Some(v) => {
                    out.push(v);
                    assert(out@.map_values(|v: String| v@) =~= seen + source_of_event(before[0]));
                },
                None => {
                    assert(out@.map_values(|v: String| v@) =~= seen + source_of_event(before[0]));
                },
            }
            assert(schema_sources(before) == source_of_event(before[0]) + schema_sources(s.events()));
        }
    }

    /// Reads on to the end of the `<tag>` element whose start was just read
    /// (see [`skip_outcome`]).
    pub fn skip_tag(s: &mut XmlStream, tag: &str) -> (r: Result<(), String>)
        requires
            old(s).wf(),
        ensures
            final(s).wf(),
            final(s).events() == old(s).events().skip(skip_outcome(old(s).events(), tag@, 1).1),
            match r {
                Ok(()) => skip_outcome(old(s).events(), tag@, 1).0 is Ok,
                Err(m) => skip_outcome(old(s).events(), tag@, 1).0 == Err::<(), Seq<char>>(m@),
            },
    {
        let ghost start = s.events();
        let ghost mut k: int = 0;
        let mut depth: u64 = 1;
        proof {
            assert(start.skip(0) =~= start);
        }
        loop
            invariant
                s.wf(),
                start == old(s).events(),
                s.events().len() == 0 || well_ended(s.events()),
                1 <= depth,
                0 <= k <= start.len(),
                s.events() == start.skip(k),
                skip_outcome(start, tag@, 1).0 == skip_outcome(s.events(), tag@, depth as int).0,
                skip_outcome(start, tag@, 1).1 == k + skip_outcome(s.events(), tag@, depth as int).1,
            decreases s.events().len(),
        {
            let ghost before = s.events();
            let e = s.next();
            proof {
                if before.len() > 0 {
                    assert(s.events() =~= start.skip(k + 1));
                }
            }
            match e {
                XmlEvent::Start(t) => {
                    if crate::text::str_is(t.name.as_str(), tag) && depth < u64::MAX {
                        depth = depth + 1;
                    }
                },
                XmlEvent::End(n) => {
                    if crate::text::str_is(n.as_str(), tag) {
                        if depth <= 1 {
                            return Ok(());
                        }
                        depth = depth - 1;
                    }
                },
                XmlEvent::Eof => {
                    let mut m = String::new();
                    push_str(&mut m, "Unexpected EOF while skipping <");
                    push_str(&mut m, tag);
                    push_str(&mut m, "> tag");
                    proof {
                        if before.len() == 0 {
                            assert(s.events() =~= start.skip(k));
                        }
                    }
                    return Err(m);
                },
                XmlEvent::Error(msg) => {
                    let mut m = String::new();
                    push_str(&mut m, "XML syntax error while skipping <");
                    push_str(&mut m, tag);
                    push_str(&mut m, ">: ");
                    push_str(&mut m, msg.as_str());
                    return Err(m);
                },
                _ => {},
            }
            proof {
                k = k + 1;
            }
        }
    }
}

} // verus!
