use jl_ui::def::{apply_def_entry, apply_var_update, register_global_def, DefKind, DefValue, VarAssign};
use jl_ui::vars::AugOp;
use jl_ui::expand::{expand_vars, Piece};
use jl_ui::hex::Rgba8;
use jl_ui::parser::UIParser;
use jl_ui::vars::{GlobalVarStore, VarStore, XmlVariableValue};

fn attrs(pairs: &[(&str, &str)]) -> Vec<(String, String)> {
    pairs.iter().map(|(k, v)| (k.to_string(), v.to_string())).collect()
}

fn render(pieces: &[Piece<f32, Rgba8>]) -> String {
    let mut out = String::new();
    for p in pieces {
        match p {
            Piece::Char(c) => out.push(*c),
            Piece::Text(t) => out.push_str(t),
            Piece::Number(x) => out.push_str(&format!("<{}>", x)),
            Piece::Color(c) => out.push_str(&format!("<#{:02X}{:02X}{:02X}{:02X}>", c.r, c.g, c.b, c.a)),
        }
    }
    out
}

#[test]
fn expansion_prefers_local_then_global() {
    let mut vars: VarStore<f32, Rgba8> = VarStore::new();
    vars.define_f32_var("pad", 8.0);
    vars.define_string_const("img", "@/a.png");
    vars.define_bool_var("on", true);
    let mut globals: GlobalVarStore<f32, Rgba8> = GlobalVarStore::new();
    globals.define_color("accent", Rgba8 { r: 255, g: 0, b: 16, a: 255 }, false);
    globals.define_f32("pad", 99.0, true);
    let out = expand_vars("$pad + $accent $img $on $nope", &vars, &globals);
    assert_eq!(render(&out), "<8> + <#FF0010FF> @/a.png true 0px");
}

#[test]
fn lone_dollar_and_digits_stay() {
    let vars: VarStore<f32, Rgba8> = VarStore::new();
    let globals: GlobalVarStore<f32, Rgba8> = GlobalVarStore::new();
    assert_eq!(render(&expand_vars("$ + 10px", &vars, &globals)), "$ + 10px");
    assert_eq!(render(&expand_vars("$1", &vars, &globals)), "$1");
    assert_eq!(render(&expand_vars("a$", &vars, &globals)), "a$");
}

#[test]
fn names_take_digits_underscores_and_dashes() {
    let mut vars: VarStore<f32, Rgba8> = VarStore::new();
    vars.define_string_var("btn_w-2", "x");
    let globals: GlobalVarStore<f32, Rgba8> = GlobalVarStore::new();
    assert_eq!(render(&expand_vars("[$btn_w-2]", &vars, &globals)), "[x]");
    assert_eq!(render(&expand_vars("$_", &vars, &globals)), "0px");
}

#[test]
fn def_entries_are_classified() {
    let e = UIParser::def_entry("var", &attrs(&[("name", "bg"), ("value", " #112233 "), ("global", " TRUE ")]));
    assert_eq!(e.name, "bg");
    assert_eq!(e.value, "#112233");
    assert_eq!(e.kind, DefKind::Var);
    assert!(e.is_global);
    assert_eq!(e.parsed, DefValue::Color(Rgba8 { r: 0x11, g: 0x22, b: 0x33, a: 255 }));

    let t = UIParser::def_entry("const", &attrs(&[("name", "c"), ("value", "Transparent")]));
    assert_eq!(t.kind, DefKind::Const);
    assert!(!t.is_global);
    assert_eq!(t.parsed, DefValue::Color(Rgba8 { r: 0, g: 0, b: 0, a: 0 }));

    assert_eq!(UIParser::def_entry("var", &attrs(&[("value", "1")])).parsed, DefValue::Bool(true));
    assert_eq!(UIParser::def_entry("var", &attrs(&[("value", "../img.png")])).parsed, DefValue::Path);
    assert_eq!(UIParser::def_entry("var", &attrs(&[("value", "/abs")])).parsed, DefValue::Path);
    assert_eq!(UIParser::def_entry("var", &attrs(&[("value", "40px + 2")])).parsed, DefValue::Number);
    let other = UIParser::def_entry("let", &attrs(&[("global", "1")]));
    assert_eq!(other.kind, DefKind::Other);
    assert!(other.is_global);
    assert_eq!(other.name, "");
    assert_eq!(other.value, "");
    assert_eq!(other.parsed, DefValue::Number);
}

#[test]
fn globals_first_writer_wins() {
    let mut globals: GlobalVarStore<f32, Rgba8> = GlobalVarStore::new();
    let first = UIParser::def_entry("const", &attrs(&[("name", "gap"), ("value", "4"), ("global", "true")]));
    assert!(register_global_def(&mut globals, &first, XmlVariableValue::NumberF32(4.0)));
    let second = UIParser::def_entry("var", &attrs(&[("name", "gap"), ("value", "9"), ("global", "true")]));
    assert!(!register_global_def(&mut globals, &second, XmlVariableValue::NumberF32(9.0)));
    assert_eq!(globals.get_f32("gap"), Some(4.0));
    assert!(!globals.set_value("gap", XmlVariableValue::NumberF32(1.0)));
}

#[test]
fn def_entries_fill_local_store() {
    let mut vars: VarStore<f32, Rgba8> = VarStore::new();
    let mut globals: GlobalVarStore<f32, Rgba8> = GlobalVarStore::new();
    let v = UIParser::def_entry("var", &attrs(&[("name", "title"), ("value", "./t.txt"), ("global", "yes")]));
    assert_eq!(apply_def_entry(&mut vars, &mut globals, &v, XmlVariableValue::String("./t.txt".to_string())), Ok(()));
    assert_eq!(vars.get_string_var("title"), Some("./t.txt"));
    assert!(vars.is_string_mutable("title"));
    assert!(!globals.is_defined("title"));
    let c = UIParser::def_entry("const", &attrs(&[("name", "flag"), ("value", "false"), ("global", "1")]));
    assert_eq!(apply_def_entry(&mut vars, &mut globals, &c, XmlVariableValue::Bool(false)), Ok(()));
    assert_eq!(vars.get_bool_var("flag"), Some(false));
    assert!(!vars.is_bool_mutable("flag"));
    assert_eq!(globals.get_bool("flag"), Some(false));
    let o = UIParser::def_entry("other", &attrs(&[("name", "zzz"), ("value", "3")]));
    assert_eq!(apply_def_entry(&mut vars, &mut globals, &o, XmlVariableValue::NumberF32(3.0)), Ok(()));
    assert!(!vars.has_value("zzz"));
}

#[test]
fn var_updates_are_classified() {
    let u = UIParser::var_update(&attrs(&[("name", "n"), ("value", " += 2px ")]));
    assert_eq!(u.name, "n");
    assert!(!u.force);
    assert_eq!(u.assign, VarAssign::Augmented(AugOp::Add));
    assert_eq!(u.operand, "2px");
    let f = UIParser::var_update(&attrs(&[("name", "c"), ("value", "== #FF0000")]));
    assert!(f.force);
    assert_eq!(f.assign, VarAssign::Color(Rgba8 { r: 255, g: 0, b: 0, a: 255 }));
    assert_eq!(f.operand, "#FF0000");
    let g = UIParser::var_update(&attrs(&[("value", "==+=3")]));
    assert!(g.force);
    assert_eq!(g.assign, VarAssign::Number);
    assert_eq!(g.operand, "+=3");
    assert_eq!(UIParser::var_update(&attrs(&[("value", "./a")])).assign, VarAssign::Path);
    assert_eq!(UIParser::var_update(&attrs(&[("value", "/a")])).assign, VarAssign::Number);
    assert_eq!(UIParser::var_update(&attrs(&[("value", "false")])).assign, VarAssign::Bool(false));
    assert_eq!(UIParser::var_update(&attrs(&[("value", "%=")])).operand, "");
}

#[test]
fn var_updates_respect_constants() {
    let mut vars: VarStore<f32, Rgba8> = VarStore::new();
    vars.define_f32_const("k", 1.0);
    vars.define_color_var("c", Rgba8 { r: 0, g: 0, b: 0, a: 0 });
    let plain = UIParser::var_update(&attrs(&[("name", "k"), ("value", "5")]));
    assert!(!apply_var_update(&mut vars, &plain, XmlVariableValue::NumberF32(5.0)));
    assert_eq!(vars.get_f32_var("k"), Some(1.0));
    let forced = UIParser::var_update(&attrs(&[("name", "k"), ("value", "== 5")]));
    assert!(apply_var_update(&mut vars, &forced, XmlVariableValue::NumberF32(5.0)));
    assert_eq!(vars.get_f32_var("k"), Some(5.0));
    assert!(!vars.is_mutable("k"));
    let col = UIParser::var_update(&attrs(&[("name", "c"), ("value", "#010203")]));
    assert!(apply_var_update(&mut vars, &col, XmlVariableValue::Color(Rgba8 { r: 1, g: 2, b: 3, a: 255 })));
    assert_eq!(vars.get_color_var("c"), Some(Rgba8 { r: 1, g: 2, b: 3, a: 255 }));
    let fresh = UIParser::var_update(&attrs(&[("name", "new"), ("value", "== true")]));
    assert!(apply_var_update(&mut vars, &fresh, XmlVariableValue::Bool(true)));
    assert!(vars.is_bool_mutable("new"));
}

#[test]
fn frame_start_numbers() {
    assert_eq!(jl_ui::ui::frame_start_of("$12.png"), 12);
    assert_eq!(jl_ui::ui::frame_start_of("x.png"), 0);
    assert_eq!(jl_ui::ui::frame_start_of("$x"), 0);
}

#[test]
fn global_var_declared_again_takes_the_new_value() {
    let mut globals: GlobalVarStore<f32, Rgba8> = GlobalVarStore::new();
    let first = UIParser::def_entry("var", &attrs(&[("name", "g"), ("value", "5"), ("global", "true")]));
    let mut a: VarStore<f32, Rgba8> = VarStore::new();
    assert_eq!(apply_def_entry(&mut a, &mut globals, &first, XmlVariableValue::NumberF32(5.0)), Ok(()));
    let again = UIParser::def_entry("var", &attrs(&[("name", "g"), ("value", "7"), ("global", "true")]));
    let mut b: VarStore<f32, Rgba8> = VarStore::new();
    assert_eq!(apply_def_entry(&mut b, &mut globals, &again, XmlVariableValue::NumberF32(7.0)), Ok(()));
    assert_eq!(globals.get_f32("g"), Some(7.0));
    assert_eq!(b.get_f32_var("g"), Some(7.0));
}

#[test]
fn global_const_declared_again_is_refused() {
    let mut globals: GlobalVarStore<f32, Rgba8> = GlobalVarStore::new();
    let first = UIParser::def_entry("const", &attrs(&[("name", "k"), ("value", "3"), ("global", "true")]));
    let mut a: VarStore<f32, Rgba8> = VarStore::new();
    assert_eq!(apply_def_entry(&mut a, &mut globals, &first, XmlVariableValue::NumberF32(3.0)), Ok(()));
    let again = UIParser::def_entry("const", &attrs(&[("name", "k"), ("value", "4"), ("global", "true")]));
    let mut b: VarStore<f32, Rgba8> = VarStore::new();
    assert_eq!(
        apply_def_entry(&mut b, &mut globals, &again, XmlVariableValue::NumberF32(4.0)),
        Err("Global constant 'k' cannot be redeclared".to_string())
    );
    assert_eq!(globals.get_f32("k"), Some(3.0));
    assert!(!b.has_value("k"));
    let over_var = UIParser::def_entry("var", &attrs(&[("name", "k"), ("value", "5"), ("global", "true")]));
    assert!(apply_def_entry(&mut b, &mut globals, &over_var, XmlVariableValue::NumberF32(5.0)).is_err());
}

#[test]
fn prescan_value_is_not_a_declaration() {
    let mut globals: GlobalVarStore<f32, Rgba8> = GlobalVarStore::new();
    let entry = UIParser::def_entry("const", &attrs(&[("name", "k"), ("value", "3"), ("global", "true")]));
    assert!(register_global_def(&mut globals, &entry, XmlVariableValue::NumberF32(3.0)));
    assert!(!globals.is_declared("k"));
    let mut a: VarStore<f32, Rgba8> = VarStore::new();
    assert_eq!(apply_def_entry(&mut a, &mut globals, &entry, XmlVariableValue::NumberF32(3.0)), Ok(()));
    assert!(globals.is_declared("k"));
}
