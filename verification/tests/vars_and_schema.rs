use jl_ui::hex::Rgba8;
use jl_ui::schema::{is_schema_file, normalize_schema_id, MoveBackError, SchemaHistory, SchemaState, UseSchema, MAX_HISTORY};
use jl_ui::table::Table;
use jl_ui::vars::{AugOp, GlobalVarStore, VarStore, XmlVariableValue};

type Val = XmlVariableValue<f32, Rgba8>;
type State = SchemaState<f32, Rgba8>;

fn as_i32(v: Option<Val>) -> Option<i32> {
    match v {
        Some(XmlVariableValue::NumberI32(n)) => Some(n),
        _ => None,
    }
}

fn as_string(v: Option<Val>) -> Option<String> {
    match v {
        Some(XmlVariableValue::String(s)) => Some(s),
        _ => None,
    }
}

#[test]
fn table_insert_get_remove() {
    let mut t: Table<u32> = Table::new();
    t.insert("a", 1);
    t.insert("b", 2);
    t.insert("a", 3);
    assert_eq!(t.get("a"), Some(&3));
    assert_eq!(t.len(), 2);
    t.insert_if_absent("b", 9);
    t.insert_if_absent("c", 4);
    assert_eq!(t.get("b"), Some(&2));
    assert_eq!(t.get("c"), Some(&4));
    assert_eq!(t.remove("a"), Some(3));
    assert_eq!(t.remove("a"), None);
    assert!(!t.contains("a"));
    let mut other: Table<u32> = Table::new();
    other.insert("c", 40);
    other.insert("d", 50);
    t.absorb(other);
    assert_eq!(t.get("c"), Some(&40));
    assert_eq!(t.get("d"), Some(&50));
    assert_eq!(t.get("b"), Some(&2));
}

#[test]
fn var_store_consts_are_never_written() {
    let mut vs: VarStore<f32, Rgba8> = VarStore::new();
    vs.define_i32_const("max", 3);
    vs.define_i32_var("count", 0);
    assert!(!vs.set_value("max", XmlVariableValue::NumberI32(9)));
    assert_eq!(vs.get_i32_var("max"), Some(3));
    assert!(vs.set_value("count", XmlVariableValue::NumberI32(9)));
    assert_eq!(vs.get_i32_var("count"), Some(9));
    assert!(!vs.set_value("count", XmlVariableValue::Bool(true)));
    assert!(!vs.set_value("missing", XmlVariableValue::NumberI32(1)));
    assert!(vs.is_mutable("count"));
    assert!(!vs.is_mutable("max"));
}

#[test]
fn var_store_kinds_and_lookup_order() {
    let mut vs: VarStore<f32, Rgba8> = VarStore::new();
    vs.define_string_var("title", "Menu");
    vs.define_bool_const("debug", true);
    vs.define_color_var("bg", Rgba8 { r: 1, g: 2, b: 3, a: 4 });
    vs.define_f32_var("speed", 1.5);
    assert_eq!(vs.get_string_var("title"), Some("Menu"));
    assert_eq!(vs.get_bool_var("debug"), Some(true));
    assert_eq!(vs.get_color_var("bg"), Some(Rgba8 { r: 1, g: 2, b: 3, a: 4 }));
    assert_eq!(vs.get_f32_var("speed"), Some(1.5));
    assert!(vs.has_value("title"));
    assert!(!vs.has_value("nothing"));
    assert_eq!(as_string(vs.get_value("title")), Some("Menu".to_string()));
    assert!(vs.set_value("title", XmlVariableValue::String("Pause".to_string())));
    assert_eq!(vs.get_string_var("title"), Some("Pause"));
    assert!(!vs.set_value("debug", XmlVariableValue::Bool(false)));
    vs.force_set_bool("debug", false);
    assert_eq!(vs.get_bool_var("debug"), Some(false));
}

#[test]
fn augmented_assignment_start() {
    let mut vs: VarStore<f32, Rgba8> = VarStore::new();
    vs.define_i32_var("n", 4);
    assert_eq!(vs.augmented_begin("n", "+=", 0.0), Some((AugOp::Add, 0.0)));
    vs.define_f32_var("f", 2.0);
    assert_eq!(vs.augmented_begin("f", "*=", 0.0), Some((AugOp::Mul, 2.0)));
    assert_eq!(vs.augmented_begin("f", "^=", 0.0), None);
    vs.define_f32_const("c", 1.0);
    assert_eq!(vs.augmented_begin("c", "+=", 0.0), None);
    assert_eq!(AugOp::from_op("%="), Some(AugOp::Rem));
    assert_eq!(AugOp::from_op("="), None);
}

#[test]
fn absorb_takes_values_of_other() {
    let mut a: VarStore<f32, Rgba8> = VarStore::new();
    a.define_f32_var("x", 1.0);
    let mut b: VarStore<f32, Rgba8> = VarStore::new();
    b.define_f32_const("x", 2.0);
    b.define_string_var("s", "t");
    a.absorb_from(b);
    assert_eq!(a.get_f32_var("x"), Some(2.0));
    assert!(!a.is_mutable("x"));
    assert_eq!(a.get_string_var("s"), Some("t"));
}

#[test]
fn global_store_defines() {
    let mut g: GlobalVarStore<f32, Rgba8> = GlobalVarStore::new();
    g.define_u32("lives", 3, true);
    g.define_string("name", "p1", false);
    assert!(g.is_defined("lives"));
    assert!(g.is_defined("name"));
    assert!(!g.is_defined("other"));
    assert_eq!(g.get_u32("lives"), Some(3));
    assert!(g.set_value("lives", XmlVariableValue::NumberU32(2)));
    assert_eq!(g.get_u32("lives"), Some(2));
    assert!(!g.set_value("name", XmlVariableValue::String("p2".to_string())));
    assert_eq!(g.get_string("name"), Some("p1"));
}

fn vars_with(name: &str, v: i32, mutable: bool) -> VarStore<f32, Rgba8> {
    let mut vs = VarStore::new();
    if mutable {
        vs.define_i32_var(name, v);
    } else {
        vs.define_i32_const(name, v);
    }
    vs
}

#[test]
fn normalize_ids() {
    assert_eq!(normalize_schema_id("menus\\pause.xml"), "menus/pause.xml");
    assert_eq!(normalize_schema_id("a/b"), "a/b");
}

#[test]
fn register_and_use_schemas() {
    let mut st: State = SchemaState::new();
    assert!(st.register_schema("main.xml", vars_with("score", 1, true)));
    assert!(st.register_schema("menus\\pause.xml", vars_with("score", 2, true)));
    assert!(!st.register_schema("menus/pause.xml", VarStore::new()));
    assert!(st.has_schema_id("menus/pause.xml"));
    assert_eq!(st.get_active_schema(), None);
    assert_eq!(st.use_schema("missing.xml"), UseSchema::NotFound);
    assert_eq!(st.use_schema("main.xml"), UseSchema::Activated);
    assert_eq!(st.use_schema("main.xml"), UseSchema::AlreadyActive);
    assert_eq!(st.use_schema("menus\\pause.xml"), UseSchema::Activated);
    assert_eq!(st.get_active_schema(), Some("menus/pause.xml".to_string()));
    assert_eq!(st.get_schema_history(), vec!["main.xml".to_string(), "menus/pause.xml".to_string()]);
}

#[test]
fn history_keeps_ten_newest() {
    let mut st: State = SchemaState::new();
    for i in 0..12 {
        let id = format!("s{}.xml", i);
        assert!(st.register_schema(&id, VarStore::new()));
        assert_eq!(st.use_schema(&id), UseSchema::Activated);
    }
    let h = st.get_schema_history();
    assert_eq!(h.len(), MAX_HISTORY);
    assert_eq!(h[0], "s2.xml");
    assert_eq!(h[9], "s11.xml");
}

#[test]
fn schema_history_type() {
    let mut h = SchemaHistory::new();
    assert_eq!(h.last(), None);
    for i in 0..11 {
        h.push(format!("{}", i));
    }
    assert_eq!(h.len(), 10);
    assert_eq!(h.get(0), "1");
    assert_eq!(h.last(), Some("10".to_string()));
    h.clear();
    assert_eq!(h.len(), 0);
}

#[test]
fn move_back_errors_and_success() {
    let mut st: State = SchemaState::new();
    assert_eq!(st.move_back_schema(-1), Err(MoveBackError::NoHistory));
    assert_eq!(st.move_back_schema(0), Err(MoveBackError::NotNegative));
    st.register_schema("a.xml", VarStore::new());
    st.register_schema("b.xml", VarStore::new());
    st.use_schema("a.xml");
    st.use_schema("b.xml");
    assert_eq!(st.move_back_schema(-2), Err(MoveBackError::OutOfBounds));
    assert_eq!(st.move_back_schema(i32::MIN), Err(MoveBackError::OutOfBounds));
    assert_eq!(st.move_back_schema(-1), Ok(UseSchema::Activated));
    assert_eq!(st.get_active_schema(), Some("a.xml".to_string()));
    assert_eq!(st.get_schema_history().len(), 3);
}

#[test]
fn local_variables_shadow_globals() {
    let mut st: State = SchemaState::new();
    st.globals_mut().define_i32("score", 100, true);
    st.globals_mut().define_i32("lives", 3, false);
    st.register_schema("a.xml", vars_with("score", 1, true));
    assert_eq!(as_i32(st.xml_variable("score")), Some(100));
    st.use_schema("a.xml");
    assert_eq!(as_i32(st.xml_variable("score")), Some(1));
    assert_eq!(as_i32(st.xml_variable("lives")), Some(3));
    assert!(st.set_xml_i32_variable("score", 5));
    assert_eq!(as_i32(st.xml_variable("score")), Some(5));
    assert_eq!(as_i32(st.xml_variable_in_schema("a.xml", "score")), Some(5));
    assert_eq!(st.globals().get_i32("score"), Some(100));
    assert!(!st.set_xml_i32_variable("lives", 9));
    assert!(!st.set_xml_variable("ghost", XmlVariableValue::NumberI32(1)));
    assert!(st.xml_variable("ghost").is_none());
}

#[test]
fn set_in_schema_falls_back_to_globals() {
    let mut st: State = SchemaState::new();
    st.globals_mut().define_i32("level", 1, true);
    st.register_schema("a.xml", vars_with("level", 7, false));
    // The schema's own `level` is a constant, so the write goes to the global.
    assert!(st.set_xml_variable_in_schema("a.xml", "level", XmlVariableValue::NumberI32(2)));
    assert_eq!(as_i32(st.xml_variable_in_schema("a.xml", "level")), Some(7));
    assert_eq!(st.globals().get_i32("level"), Some(2));
    assert!(st.set_xml_variable_in_schema("nowhere.xml", "level", XmlVariableValue::NumberI32(3)));
    assert_eq!(st.globals().get_i32("level"), Some(3));
}

#[test]
fn schema_variables_initial_and_reset() {
    let mut st: State = SchemaState::new();
    st.register_schema("a.xml", VarStore::new());
    assert!(!st.define_schema_variable("hits", XmlVariableValue::NumberI32(0), XmlVariableValue::Bool(false)));
    assert!(st.define_schema_variable("hits", XmlVariableValue::NumberI32(10), XmlVariableValue::NumberI32(0)));
    assert_eq!(as_i32(st.schema_variable("hits")), None);
    assert!(!st.set_schema_variable("hits", XmlVariableValue::NumberI32(4)));
    st.use_schema("a.xml");
    assert_eq!(as_i32(st.schema_variable("hits")), Some(0));
    assert!(st.set_schema_variable("hits", XmlVariableValue::NumberI32(4)));
    assert_eq!(as_i32(st.schema_variable("hits")), Some(4));
    assert!(!st.set_schema_variable("hits", XmlVariableValue::Bool(true)));
    assert!(!st.set_schema_variable("unknown", XmlVariableValue::NumberI32(1)));
    st.register_schema("b.xml", VarStore::new());
    st.use_schema("b.xml");
    assert_eq!(as_i32(st.schema_variable("hits")), Some(0));
    st.use_schema("a.xml");
    assert_eq!(as_i32(st.schema_variable("hits")), Some(0));
}

#[test]
fn new_schema_starts_from_initial_value() {
    let mut st: State = SchemaState::new();
    st.define_schema_variable("name", XmlVariableValue::String("x".to_string()), XmlVariableValue::String("y".to_string()));
    st.register_schema("late.xml", VarStore::new());
    st.register_schema("other.xml", VarStore::new());
    st.use_schema("other.xml");
    assert_eq!(as_string(st.schema_variable("name")), Some("y".to_string()));
}

#[test]
fn clearing_keeps_declarations() {
    let mut st: State = SchemaState::new();
    st.define_schema_variable("k", XmlVariableValue::NumberI32(1), XmlVariableValue::NumberI32(2));
    st.register_schema("a.xml", VarStore::new());
    st.use_schema("a.xml");
    st.clear_schemas();
    assert!(!st.has_schema_id("a.xml"));
    assert_eq!(st.get_active_schema(), None);
    st.register_schema("a.xml", VarStore::new());
    st.use_schema("a.xml");
    assert_eq!(as_i32(st.schema_variable("k")), Some(2));
}

#[test]
fn schema_files_by_extension() {
    assert!(is_schema_file("main.xml"));
    assert!(is_schema_file("menu.XML"));
    assert!(is_schema_file("a.b.Xml"));
    assert!(!is_schema_file(".xml"));
    assert!(!is_schema_file("xml"));
    assert!(!is_schema_file("notes.xml.bak"));
    assert!(!is_schema_file("conf.jsonc"));
}

#[test]
fn defining_reads_back_initial_in_active_schema() {
    let mut st: State = SchemaState::new();
    st.register_schema("a.xml", VarStore::new());
    st.use_schema("a.xml");
    assert!(st.define_schema_variable("lives", XmlVariableValue::NumberI32(3), XmlVariableValue::NumberI32(0)));
    assert_eq!(as_i32(st.schema_variable("lives")), Some(3));
    assert!(st.set_schema_variable("lives", XmlVariableValue::NumberI32(1)));
    assert!(st.define_schema_variable("lives", XmlVariableValue::NumberI32(5), XmlVariableValue::NumberI32(0)));
    assert_eq!(as_i32(st.schema_variable("lives")), Some(5));
}

#[test]
fn clearing_forgets_declared_globals() {
    let mut st: State = SchemaState::new();
    st.globals_mut().mark_declared("g");
    assert!(st.globals().is_declared("g"));
    st.clear_schemas();
    assert!(!st.globals().is_declared("g"));
}
