use jl_ui::document::{child_step, circular_include_message, def_step, include_path_text, prescan_start, prescan_step, root_step, ChildStep, DefStep, RootStep};
use jl_ui::def::DefKind;
use jl_ui::parser::UIParser;
use jl_ui::vars::GlobalVarStore;
use jl_ui::xml::{XmlEvent, XmlStream, XmlTag};

fn tag(name: &str, attrs: &[(&str, &str)]) -> XmlTag {
    XmlTag {
        name: name.to_string(),
        attrs: Ok(attrs.iter().map(|(k, v)| (k.to_string(), v.to_string())).collect()),
    }
}

fn names(events: &mut XmlStream) -> Vec<String> {
    let mut out = Vec::new();
    loop {
        match events.next() {
            XmlEvent::Start(t) => out.push(format!("start {}", t.name)),
            XmlEvent::Empty(t) => out.push(format!("empty {}", t.name)),
            XmlEvent::End(n) => out.push(format!("end {}", n)),
            XmlEvent::Other => out.push("other".to_string()),
            XmlEvent::Eof => {
                out.push("eof".to_string());
                return out;
            }
            XmlEvent::Error(_) => {
                out.push("error".to_string());
                return out;
            }
        }
    }
}

#[test]
fn stream_hands_out_events_in_order() {
    let mut s = XmlStream::new("<ui><view id=\"a\"/></ui>");
    assert_eq!(names(&mut s), vec!["start ui", "empty view", "end ui", "eof"]);
    assert!(matches!(s.next(), XmlEvent::Eof));
}

#[test]
fn stream_reads_attributes_in_document_order() {
    let mut s = XmlStream::new("<ui a=\"1\" b='x y'/>");
    match s.next() {
        XmlEvent::Empty(t) => {
            assert_eq!(t.name, "ui");
            assert_eq!(t.attrs, Ok(vec![("a".to_string(), "1".to_string()), ("b".to_string(), "x y".to_string())]));
        }
        _ => panic!("expected an empty tag"),
    }
}

#[test]
fn stream_reports_duplicate_attributes() {
    let mut s = XmlStream::new("<ui a=\"1\" a=\"2\"/>");
    match s.next() {
        XmlEvent::Empty(t) => {
            let err = t.attrs.clone().unwrap_err();
            assert!(!err.is_empty());
            match def_step(XmlEvent::Empty(t)) {
                DefStep::Fail(m) => assert_eq!(m, format!("Attribute parse error: {}", err)),
                _ => panic!("expected a failure"),
            }
        }
        _ => panic!("expected an empty tag"),
    }
}

#[test]
fn stream_stops_after_a_syntax_error() {
    let mut s = XmlStream::new("<ui></view><x/>");
    assert_eq!(names(&mut s), vec!["start ui", "error"]);
    assert!(matches!(s.next(), XmlEvent::Eof));
}

#[test]
fn schema_sources_trimmed_and_in_order() {
    let xml = "<ui><schema src=\" a.xml \"/><view/><schema src=\"b.xml\"></schema><schema src=\"  \"/><schema/></ui>";
    assert_eq!(UIParser::extract_schema_sources(xml), vec!["a.xml".to_string(), "b.xml".to_string()]);
}

#[test]
fn schema_sources_stop_at_error() {
    let xml = "<ui><schema src=\"a\"/></wrong><schema src=\"b\"/></ui>";
    assert_eq!(UIParser::extract_schema_sources(xml), vec!["a".to_string()]);
}

#[test]
fn skip_tag_passes_nested_elements() {
    let mut s = XmlStream::new("<schema><schema></schema><x/></schema><after/>");
    assert!(matches!(s.next(), XmlEvent::Start(_)));
    assert_eq!(UIParser::skip_tag(&mut s, "schema"), Ok(()));
    match s.next() {
        XmlEvent::Empty(t) => assert_eq!(t.name, "after"),
        _ => panic!("expected <after/>"),
    }
}

#[test]
fn skip_tag_reports_end_of_document() {
    let mut s = XmlStream::new("<schema><x/>");
    assert!(matches!(s.next(), XmlEvent::Start(_)));
    assert_eq!(UIParser::skip_tag(&mut s, "schema"), Err("Unexpected EOF while skipping <schema> tag".to_string()));
}

#[test]
fn skip_tag_reports_syntax_error() {
    let mut s = XmlStream::new("<schema></other>");
    assert!(matches!(s.next(), XmlEvent::Start(_)));
    let err = UIParser::skip_tag(&mut s, "schema").unwrap_err();
    assert!(err.starts_with("XML syntax error while skipping <schema>: "), "{}", err);
}

#[test]
fn root_step_decisions() {
    assert!(matches!(root_step(XmlEvent::Start(tag("xml", &[]))), RootStep::Skip));
    assert!(matches!(root_step(XmlEvent::Start(tag("def", &[]))), RootStep::Def));
    match root_step(XmlEvent::Start(tag("schema", &[]))) {
        RootStep::Root(n) => assert_eq!(n, "schema"),
        _ => panic!("expected the root"),
    }
    match root_step(XmlEvent::Start(tag("view", &[]))) {
        RootStep::Fail(m) => assert_eq!(m, "Expected <def> or <ui> at top level, found <view>"),
        _ => panic!("expected a failure"),
    }
    match root_step(XmlEvent::End("xml".to_string())) {
        RootStep::Fail(m) => assert_eq!(m, "Missing <ui> element inside <xml>"),
        _ => panic!("expected a failure"),
    }
    assert!(matches!(root_step(XmlEvent::End("other".to_string())), RootStep::Skip));
    assert!(matches!(root_step(XmlEvent::Empty(tag("def", &[]))), RootStep::Skip));
    match root_step(XmlEvent::Empty(tag("ui", &[]))) {
        RootStep::Fail(m) => assert_eq!(m, "Unexpected self-closing <ui/> at top level"),
        _ => panic!("expected a failure"),
    }
    match root_step(XmlEvent::Eof) {
        RootStep::Fail(m) => assert_eq!(m, "Empty or missing <ui> root element"),
        _ => panic!("expected a failure"),
    }
    match root_step(XmlEvent::Error("bad".to_string())) {
        RootStep::Fail(m) => assert_eq!(m, "XML syntax error: bad"),
        _ => panic!("expected a failure"),
    }
    assert!(matches!(root_step(XmlEvent::Other), RootStep::Skip));
}

#[test]
fn def_step_decisions() {
    match def_step(XmlEvent::Empty(tag("const", &[("name", "w"), ("value", " 10px "), ("global", "TRUE")]))) {
        DefStep::Entry(en) => {
            assert_eq!(en.name, "w");
            assert_eq!(en.value, "10px");
            assert_eq!(en.kind, DefKind::Const);
            assert!(en.is_global);
        }
        _ => panic!("expected an entry"),
    }
    let broken = XmlTag { name: "var".to_string(), attrs: Err("x".to_string()) };
    match def_step(XmlEvent::Empty(broken)) {
        DefStep::Fail(m) => assert_eq!(m, "Attribute parse error: x"),
        _ => panic!("expected a failure"),
    }
    assert!(matches!(def_step(XmlEvent::End("def".to_string())), DefStep::Done));
    assert!(matches!(def_step(XmlEvent::End("var".to_string())), DefStep::Skip));
    match def_step(XmlEvent::Eof) {
        DefStep::Fail(m) => assert_eq!(m, "Unexpected EOF inside <def>"),
        _ => panic!("expected a failure"),
    }
    match def_step(XmlEvent::Error("oops".to_string())) {
        DefStep::Fail(m) => assert_eq!(m, "XML error in <def>: oops"),
        _ => panic!("expected a failure"),
    }
    assert!(matches!(def_step(XmlEvent::Start(tag("var", &[]))), DefStep::Skip));
}

#[test]
fn prescan_keeps_first_writer() {
    let mut globals: GlobalVarStore<f32, u8> = GlobalVarStore::new();
    let ev = || XmlEvent::Empty(tag("var", &[("name", "g"), ("value", "true"), ("global", "1")]));
    assert!(matches!(prescan_step(ev(), &globals), DefStep::Entry(_)));
    globals.define_bool("g", true, true);
    assert!(matches!(prescan_step(ev(), &globals), DefStep::Skip));
    let local = XmlEvent::Empty(tag("var", &[("name", "h"), ("value", "1")]));
    assert!(matches!(prescan_step(local, &globals), DefStep::Skip));
    assert!(matches!(prescan_step(XmlEvent::End("def".to_string()), &globals), DefStep::Done));
    assert!(matches!(prescan_step(XmlEvent::Eof, &globals), DefStep::Done));
    assert_eq!(prescan_start(&XmlEvent::Start(tag("def", &[]))), Some(true));
    assert_eq!(prescan_start(&XmlEvent::Start(tag("ui", &[]))), None);
    assert_eq!(prescan_start(&XmlEvent::Error("e".to_string())), Some(false));
}

#[test]
fn child_step_decisions() {
    match child_step(XmlEvent::Start(tag("schema", &[("src", "a.xml")])), "ui") {
        ChildStep::Include(a, open) => {
            assert!(open);
            assert_eq!(a, vec![("src".to_string(), "a.xml".to_string())]);
        }
        _ => panic!("expected an include"),
    }
    assert!(matches!(child_step(XmlEvent::Empty(tag("schema", &[])), "ui"), ChildStep::Include(_, false)));
    assert!(matches!(child_step(XmlEvent::Empty(tag("var", &[("name", "x")])), "ui"), ChildStep::Var(_)));
    match child_step(XmlEvent::Start(tag("view", &[("id", "v")])), "ui") {
        ChildStep::Open(n, a) => {
            assert_eq!(n, "view");
            assert_eq!(a.len(), 1);
        }
        _ => panic!("expected an open component"),
    }
    assert!(matches!(child_step(XmlEvent::Empty(tag("label", &[])), "ui"), ChildStep::Leaf(_, _)));
    match child_step(XmlEvent::Empty(tag("widget", &[])), "ui") {
        ChildStep::Fail(m) => assert_eq!(m, "Unknown UI component tag: <widget>"),
        _ => panic!("expected a failure"),
    }
    assert!(matches!(child_step(XmlEvent::End("ui".to_string()), "ui"), ChildStep::Done));
    match child_step(XmlEvent::End("view".to_string()), "ui") {
        ChildStep::Fail(m) => assert_eq!(m, "Unexpected closing tag </view>, expected </ui>"),
        _ => panic!("expected a failure"),
    }
    match child_step(XmlEvent::Eof, "view") {
        ChildStep::Fail(m) => assert_eq!(m, "Unexpected end of file while parsing <view>"),
        _ => panic!("expected a failure"),
    }
    match child_step(XmlEvent::Error("e".to_string()), "view") {
        ChildStep::Fail(m) => assert_eq!(m, "XML syntax error inside <view>: e"),
        _ => panic!("expected a failure"),
    }
    assert!(matches!(child_step(XmlEvent::Other, "ui"), ChildStep::Skip));
}

#[test]
fn include_sources_and_cycles() {
    assert_eq!(include_path_text("  @/ui/menu.xml "), Ok("ui/menu.xml".to_string()));
    assert_eq!(include_path_text("parts/a.xml"), Ok("parts/a.xml".to_string()));
    assert_eq!(include_path_text("/abs/a.xml"), Ok("/abs/a.xml".to_string()));
    assert_eq!(include_path_text("   "), Err("Schema include src cannot be empty".to_string()));
    let chain = vec!["/s/a.xml".to_string(), "/s/b.xml".to_string(), "/s/a.xml".to_string()];
    assert_eq!(
        circular_include_message(&chain),
        "Circular schema copy detected: /s/a.xml -> /s/b.xml -> /s/a.xml"
    );
    assert_eq!(circular_include_message(&vec!["x".to_string()]), "Circular schema copy detected: x");
}
