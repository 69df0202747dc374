//! The structure of a schema document: what each XML event means at the top
//! level, inside the `<def>` block, and among a component's children. Each
//! reading step takes the event that was read and says what to do next;
//! building the components themselves is left to the caller.
use vstd::prelude::*;
use crate::def::{def_kind, def_value, global_flag, DefEntry};
use crate::parser::UIParser;
use crate::text::{chars_of, has_prefix, push_range, push_str, str_is, trimmed};
use crate::vars::GlobalVarStore;
use crate::xml::{attr_of, attrs_view, lemma_attr_of, XmlEvent, XmlEventView};

verus! {

/// What the top level of a document does with an event.
pub enum RootStep {
    /// Read on.
    Skip,
    /// A `<def>` block starts.
    Def,
    /// The root element (`<ui>` or `<schema>`) starts; its name.
    Root(String),
    /// The document is refused, with the message.
    Fail(String),
}

/// What the `<def>` block does with an event.
pub enum DefStep {
    /// Read on.
    Skip,
    /// A declaration.
    Entry(DefEntry),
    /// The block ends.
    Done,
    /// The document is refused, with the message.
    Fail(String),
}

/// What the children of an element do with an event.
pub enum ChildStep {
    /// Read on.
    Skip,
    /// A `<schema>` include, with its attributes; `true` where it was an
    /// opening tag, whose content is then skipped.
    Include(Vec<(String, String)>, bool),
    /// A component with children starts: its tag and attributes.
    Open(String, Vec<(String, String)>),
    /// A self-closing component: its tag and attributes.
    Leaf(String, Vec<(String, String)>),
    /// A `<var .. />` update, with its attributes.
    Var(Vec<(String, String)>),
    /// The parent element ends.
    Done,
    /// The document is refused, with the message.
    Fail(String),
}

/// The attribute `key` of `avs`, or nothing where it is missing.
pub open spec fn attr_or_empty(avs: Seq<(Seq<char>, Seq<char>)>, key: Seq<char>) -> Seq<char> {
    match attr_of(avs, key) {
        Some(v) => v,
        None => Seq::empty(),
    }
}

/// The message that refuses a tag whose attributes could not be read, with
/// the reader's message `m`.
pub open spec fn attr_error(m: Seq<char>) -> Seq<char> {
    "Attribute parse error: "@ + m
}

/// `en` is the declaration that tag `tag` with attributes `avs` makes.
pub open spec fn is_entry_of(en: DefEntry, tag: Seq<char>, avs: Seq<(Seq<char>, Seq<char>)>) -> bool {
    &&& en.name@ == attr_or_empty(avs, "name"@)
    &&& en.value@ == crate::text::trim(attr_or_empty(avs, "value"@))
    &&& en.kind == def_kind(tag)
    &&& en.is_global == global_flag(attr_of(avs, "global"@))
    &&& en.parsed == def_value(en.value@)
}

/// Reads a declaration's tag and attributes into a [`DefEntry`].
fn entry_of(tag: &str, a: &Vec<(String, String)>) -> (en: DefEntry)
    ensures
        is_entry_of(en, tag@, attrs_view(a@)),
{
    proof {
        lemma_attr_of(a@, "name"@);
        lemma_attr_of(a@, "value"@);
        lemma_attr_of(a@, "global"@);
    }
    UIParser::def_entry(tag, a.as_slice())
}

/// `a`, then `b`, as a `String`.
fn joined2(a: &str, b: &str) -> (r: String)
    ensures
        r@ == a@ + b@,
{
    let mut r = String::new();
    push_str(&mut r, a);
    push_str(&mut r, b);
    r
}

/// `a`, then `b`, then `c`, as a `String`.
fn joined(a: &str, b: &str, c: &str) -> (r: String)
    ensures
        r@ == a@ + b@ + c@,
{
    let mut r = String::new();
    push_str(&mut r, a);
    push_str(&mut r, b);
    push_str(&mut r, c);
    r
}

/// `a`, `b`, `c`, `d` and `e`, as a `String`.
fn joined5(a: &str, b: &str, c: &str, d: &str, e: &str) -> (r: String)
    ensures
        r@ == a@ + b@ + c@ + d@ + e@,
{
    let mut r = joined(a, b, c);
    push_str(&mut r, d);
    push_str(&mut r, e);
    r
}

/// What the top level does with `e`: an `<xml>` wrapper is read through, a
/// `<def>` block is read, `<ui>` or `<schema>` is the root; any other element,
/// a self-closing tag other than `<def/>`, the end of the wrapper, the end of
/// the document or an error refuses the document.
pub fn root_step(e: XmlEvent) -> (r: RootStep)
    ensures
        match e@ {
            XmlEventView::Start(t) => if t.name == "xml"@ {
                r is Skip
            } else if t.name == "def"@ {
                r is Def
            } else if t.name == "ui"@ || t.name == "schema"@ {
                r matches RootStep::Root(n) && n@ == t.name
            } else {
                r matches RootStep::Fail(m) && m@ == "Expected <def> or <ui> at top level, found <"@ + t.name + ">"@
            },
            XmlEventView::End(n) => if n == "xml"@ {
                r matches RootStep::Fail(m) && m@ == "Missing <ui> element inside <xml>"@
            } else {
                r is Skip
            },
            XmlEventView::Empty(t) => if t.name != "def"@ {
                r matches RootStep::Fail(m) && m@ == "Unexpected self-closing <"@ + t.name + "/> at top level"@
            } else {
                r is Skip
            },
            XmlEventView::Eof => r matches RootStep::Fail(m) && m@ == "Empty or missing <ui> root element"@,
            XmlEventView::Error(m0) => r matches RootStep::Fail(m) && m@ == "XML syntax error: "@ + m0,
            XmlEventView::Other => r is Skip,
        },
{
    match e {
        XmlEvent::Start(t) => {
            let n = t.name;
            if str_is(n.as_str(), "xml") {
                RootStep::Skip
            } else if str_is(n.as_str(), "def") {
                RootStep::Def
            } else if str_is(n.as_str(), "ui") || str_is(n.as_str(), "schema") {
                RootStep::Root(n)
            } else {
                RootStep::Fail(joined("Expected <def> or <ui> at top level, found <", n.as_str(), ">"))
            }
        },
        XmlEvent::End(n) => {
            if str_is(n.as_str(), "xml") {
                RootStep::Fail(String::from_str("Missing <ui> element inside <xml>"))
            } else {
                RootStep::Skip
            }
        },
        XmlEvent::Empty(t) => {
            if !str_is(t.name.as_str(), "def") {
                RootStep::Fail(joined("Unexpected self-closing <", t.name.as_str(), "/> at top level"))
            } else {
                RootStep::Skip
            }
        },
        XmlEvent::Eof => RootStep::Fail(String::from_str("Empty or missing <ui> root element")),
        XmlEvent::Error(m) => RootStep::Fail(joined2("XML syntax error: ", m.as_str())),
        XmlEvent::Other => RootStep::Skip,
    }
}

/// What the `<def>` block does with `e`: each self-closing tag is a
/// declaration (a tag whose attributes cannot be read refuses the document);
/// `</def>` ends the block; the end of the document or an error refuses it.
pub fn def_step(e: XmlEvent) -> (r: DefStep)
    ensures
        match e@ {
            XmlEventView::Empty(t) => match t.attrs {
                Ok(avs) => r matches DefStep::Entry(en) && is_entry_of(en, t.name, avs),
                Err(m0) => r matches DefStep::Fail(m) && m@ == attr_error(m0),
            },
            XmlEventView::End(n) => if n == "def"@ {
                r is Done
            } else {
                r is Skip
            },
            XmlEventView::Eof => r matches DefStep::Fail(m) && m@ == "Unexpected EOF inside <def>"@,
            XmlEventView::Error(m0) => r matches DefStep::Fail(m) && m@ == "XML error in <def>: "@ + m0,
            _ => r is Skip,
        },
{
    match e {
        XmlEvent::Empty(t) => match t.attrs {
            Ok(a) => DefStep::Entry(entry_of(t.name.as_str(), &a)),
            Err(m) => DefStep::Fail(joined2("Attribute parse error: ", m.as_str())),
        },
        XmlEvent::End(n) => {
            if str_is(n.as_str(), "def") {
                DefStep::Done
            } else {
                DefStep::Skip
            }
        },
        XmlEvent::Eof => DefStep::Fail(String::from_str("Unexpected EOF inside <def>")),
        XmlEvent::Error(m) => DefStep::Fail(joined2("XML error in <def>: ", m.as_str())),
        _ => DefStep::Skip,
    }
}

/// Before a document is read in full, its `<def>` block is scanned for
/// global declarations: `e` is a global declaration that no earlier file
/// made (the first writer wins); tags whose attributes cannot be read are
/// passed over; `</def>`, the end of the document or an error end the scan.
pub fn prescan_step<F: Copy, C: Copy>(e: XmlEvent, globals: &GlobalVarStore<F, C>) -> (r: DefStep)
    ensures
        match e@ {
            XmlEventView::Empty(t) => match t.attrs {
                Ok(avs) => {
                    let name = attr_or_empty(avs, "name"@);
                    let fresh = global_flag(attr_of(avs, "global"@)) && !(globals.view().mutable.contains_key(name)
                        || globals.view().color_mutable.contains_key(name)
                        || globals.view().string_mutable.contains_key(name)
                        || globals.view().bool_mutable.contains_key(name));
                    if fresh {
                        r matches DefStep::Entry(en) && is_entry_of(en, t.name, avs)
                    } else {
                        r is Skip
                    }
                },
                Err(_) => r is Skip,
            },
            XmlEventView::End(n) => if n == "def"@ {
                r is Done
            } else {
                r is Skip
            },
            XmlEventView::Eof => r is Done,
            XmlEventView::Error(_) => r is Done,
            _ => r is Skip,
        },
{
    match e {
        XmlEvent::Empty(t) => match t.attrs {
            Ok(a) => {
                let en = entry_of(t.name.as_str(), &a);
                if !en.is_global || globals.is_defined(en.name.as_str()) {
                    DefStep::Skip
                } else {
                    DefStep::Entry(en)
                }
            },
            Err(_) => DefStep::Skip,
        },
        XmlEvent::End(n) => {
            if str_is(n.as_str(), "def") {
                DefStep::Done
            } else {
                DefStep::Skip
            }
        },
        XmlEvent::Eof => DefStep::Done,
        XmlEvent::Error(_) => DefStep::Done,
        _ => DefStep::Skip,
    }
}

/// The scan for globals starts at the first `<def>`; `None` where `e` does
/// not start it, `Some(false)` where the document ends or breaks first.
pub fn prescan_start(e: &XmlEvent) -> (r: Option<bool>)
    ensures
        r == match e@ {
            XmlEventView::Start(t) => if t.name == "def"@ { Some(true) } else { None },
            XmlEventView::Eof => Some(false),
            XmlEventView::Error(_) => Some(false),
            _ => None,
        },
{
    match e {
        XmlEvent::Start(t) => {
            if str_is(t.name.as_str(), "def") {
                Some(true)
            } else {
                None
            }
        },
        XmlEvent::Eof => Some(false),
        XmlEvent::Error(_) => Some(false),
        _ => None,
    }
}

/// What the children of `<parent>` do with `e`. A `<schema>` tag includes
/// another file; a self-closing `<var>` updates a variable; any other tag
/// must be a known component (checked before its attributes are read) and
/// becomes a child. A tag whose attributes cannot be read refuses the
/// document, and so do an end tag other than `</parent>`, the end of the
/// document and an error.
pub fn child_step(e: XmlEvent, parent: &str) -> (r: ChildStep)
    ensures
        match e@ {
            XmlEventView::Start(t) => if t.name == "schema"@ {
                match t.attrs {
                    Ok(avs) => r matches ChildStep::Include(a, open) && attrs_view(a@) == avs && open,
                    Err(m0) => r matches ChildStep::Fail(m) && m@ == attr_error(m0),
                }
            } else if !crate::parser::is_valid_tag(t.name) {
                r matches ChildStep::Fail(m) && m@ == "Unknown UI component tag: <"@ + t.name + ">"@
            } else {
                match t.attrs {
                    Ok(avs) => r matches ChildStep::Open(n, a) && n@ == t.name && attrs_view(a@) == avs,
                    Err(m0) => r matches ChildStep::Fail(m) && m@ == attr_error(m0),
                }
            },
            XmlEventView::Empty(t) => if t.name == "schema"@ || t.name == "var"@ {
                match t.attrs {
                    Ok(avs) => if t.name == "schema"@ {
                        r matches ChildStep::Include(a, open) && attrs_view(a@) == avs && !open
                    } else {
                        r matches ChildStep::Var(a) && attrs_view(a@) == avs
                    },
                    Err(m0) => r matches ChildStep::Fail(m) && m@ == attr_error(m0),
                }
            } else if !crate::parser::is_valid_tag(t.name) {
                r matches ChildStep::Fail(m) && m@ == "Unknown UI component tag: <"@ + t.name + ">"@
            } else {
                match t.attrs {
                    Ok(avs) => r matches ChildStep::Leaf(n, a) && n@ == t.name && attrs_view(a@) == avs,
                    Err(m0) => r matches ChildStep::Fail(m) && m@ == attr_error(m0),
                }
            },
            XmlEventView::End(n) => if n == parent@ {
                r is Done
            } else {
                r matches ChildStep::Fail(m) && m@ == "Unexpected closing tag </"@ + n + ">, expected </"@ + parent@ + ">"@
            },
            XmlEventView::Eof => r matches ChildStep::Fail(m) && m@ == "Unexpected end of file while parsing <"@ + parent@ + ">"@,
            XmlEventView::Error(m0) => r matches ChildStep::Fail(m) && m@ == "XML syntax error inside <"@ + parent@ + ">: "@ + m0,
            XmlEventView::Other => r is Skip,
        },
{
    match e {
        XmlEvent::Start(t) => {
            if str_is(t.name.as_str(), "schema") {
                return match t.attrs {
                    Ok(a) => ChildStep::Include(a, true),
                    Err(m) => ChildStep::Fail(joined2("Attribute parse error: ", m.as_str())),
                };
            }
            match UIParser::validate_tag(t.name.as_str()) {
                Err(m) => ChildStep::Fail(m),
                Ok(()) => match t.attrs {
                    Ok(a) => ChildStep::Open(t.name, a),
                    Err(m) => ChildStep::Fail(joined2("Attribute parse error: ", m.as_str())),
                },
            }
        },
        XmlEvent::Empty(t) => {
            let schema = str_is(t.name.as_str(), "schema");
            if schema || str_is(t.name.as_str(), "var") {
                return match t.attrs {
                    Ok(a) => if schema {
                        ChildStep::Include(a, false)
                    } else {
                        ChildStep::Var(a)
                    },
                    Err(m) => ChildStep::Fail(joined2("Attribute parse error: ", m.as_str())),
                };
            }
            match UIParser::validate_tag(t.name.as_str()) {
                Err(m) => ChildStep::Fail(m),
                Ok(()) => match t.attrs {
                    Ok(a) => ChildStep::Leaf(t.name, a),
                    Err(m) => ChildStep::Fail(joined2("Attribute parse error: ", m.as_str())),
                },
            }
        },
        XmlEvent::End(n) => {
            if str_is(n.as_str(), parent) {
                ChildStep::Done
            } else {
                ChildStep::Fail(joined5("Unexpected closing tag </", n.as_str(), ">, expected </", parent, ">"))
            }
        },
        XmlEvent::Eof => ChildStep::Fail(joined("Unexpected end of file while parsing <", parent, ">")),
        XmlEvent::Error(m) => {
            let mut r = joined("XML syntax error inside <", parent, ">: ");
            push_str(&mut r, m.as_str());
            ChildStep::Fail(r)
        },
        XmlEvent::Other => ChildStep::Skip,
    }
}

/// What an include's `src` names: trimmed, with a leading `@/` (the schema
/// root) taken off; an empty one is an error.
pub open spec fn include_target(src: Seq<char>) -> Result<Seq<char>, Seq<char>> {
    let t = crate::text::trim(src);
    if t.len() == 0 {
        Err("Schema include src cannot be empty"@)
    } else if has_prefix(t, seq!['@', '/']) {
        Ok(t.skip(2))
    } else {
        Ok(t)
    }
}

/// The path text that an include's `src` names (see [`include_target`]).
pub fn include_path_text(src: &str) -> (r: Result<String, String>)
    ensures
        match r {
            Ok(p) => include_target(src@) == Ok::<Seq<char>, Seq<char>>(p@),
            Err(m) => include_target(src@) == Err::<Seq<char>, Seq<char>>(m@),
        },
{
    let t = trimmed(src);
    let cs = chars_of(t.as_str());
    let n = cs.len();
    if n == 0 {
        return Err(String::from_str("Schema include src cannot be empty"));
    }
    if n >= 2 && cs[0] == '@' && cs[1] == '/' {
        assert(cs@.take(2) =~= seq!['@', '/']);
        let mut rest = String::new();
        push_range(&mut rest, cs.as_slice(), 2, n);
        assert(rest@ =~= t@.skip(2));
        Ok(rest)
    } else {
        proof {
            if n >= 2 {
                assert(cs@.take(2) =~= seq![cs@[0], cs@[1]]);
            }
        }
        Ok(t)
    }
}

/// `parts` joined by ` -> `.
pub open spec fn arrow_chain(parts: Seq<Seq<char>>) -> Seq<char>
    decreases parts.len(),
{
    if parts.len() == 0 {
        Seq::empty()
    } else if parts.len() == 1 {
        parts[0]
    } else {
        arrow_chain(parts.drop_last()) + " -> "@ + parts.last()
    }
}

/// The message that refuses a schema which includes itself: `chain` holds
/// the files from the first occurrence of the repeated one to the repeat.
pub fn circular_include_message(chain: &Vec<String>) -> (r: String)
    ensures
        r@ == "Circular schema copy detected: "@ + arrow_chain(chain@.map_values(|p: String| p@)),
{
    let ghost parts = chain@.map_values(|p: String| p@);
    let mut body = String::new();
    let mut i: usize = 0;
    while i < chain.len()
        invariant
            i <= chain@.len(),
            parts == chain@.map_values(|p: String| p@),
            body@ == arrow_chain(parts.take(i as int)),
        decreases chain@.len() - i,
    {
        if i > 0 {
            push_str(&mut body, " -> ");
        }
        push_str(&mut body, chain[i].as_str());
        proof {
            assert(parts.take(i + 1).drop_last() =~= parts.take(i as int));
            if i == 0 {
                assert(parts.take(0) =~= Seq::<Seq<char>>::empty());
                assert(body@ =~= parts.take(1)[0]);
            }
        }
        i = i + 1;
    }
    assert(parts.take(chain@.len() as int) =~= parts);
    joined2("Circular schema copy detected: ", body.as_str())
}

} // verus!
