use jl_ui::expr::{parse_size_expr, parse_unit, tokenize, SizeAst, SizeLeaf, SizeUnit, Token};
use jl_ui::hex::{HexSupport, Rgba8};
use jl_ui::parser::{parse_bool_literal, PosSyntax, SizeSyntax, UIParser};
use jl_ui::types::{AlignX, AlignY, GradientType, ObjectFit, Physics2DEngine, SizeOp};

fn attrs(pairs: &[(&str, &str)]) -> Vec<(String, String)> {
    pairs.iter().map(|(k, v)| (k.to_string(), v.to_string())).collect()
}

fn lit(a: &SizeAst) -> (SizeLeaf, String) {
    match a {
        SizeAst::Lit(l, s) => (*l, s.clone()),
        _ => panic!("expected a literal, got {:?}", a),
    }
}

#[test]
fn validate_tag_accepts_known_tags() {
    assert!(UIParser::validate_tag("view").is_ok());
    assert!(UIParser::validate_tag("physics-container-3d").is_ok());
    assert!(UIParser::validate_tag("animation").is_ok());
}

#[test]
fn validate_tag_names_unknown_tag() {
    assert_eq!(UIParser::validate_tag("div"), Err("Unknown UI component tag: <div>".to_string()));
}

#[test]
fn raw_attr_takes_first_match() {
    let a = attrs(&[("id", "a"), ("id", "b")]);
    assert_eq!(UIParser::raw_attr(&a, "id"), Some("a".to_string()));
    assert_eq!(UIParser::raw_attr(&a, "x"), None);
}

#[test]
fn str_int_bool_readers() {
    let a = attrs(&[("w", " 12px "), ("n", "-7"), ("bad", "x1"), ("u", "99"), ("b1", "1"), ("b2", "TRUE"), ("t", "hi")]);
    assert_eq!(UIParser::get_i32(&a, "w", 5), 12);
    assert_eq!(UIParser::get_i32(&a, "n", 5), -7);
    assert_eq!(UIParser::get_i32(&a, "bad", 5), 5);
    assert_eq!(UIParser::get_i32(&a, "missing", 5), 5);
    assert_eq!(UIParser::get_u32(&a, "u", 1), 99);
    assert_eq!(UIParser::get_u32(&a, "n", 1), 1);
    assert!(UIParser::get_bool(&a, "b1", false));
    assert!(!UIParser::get_bool(&a, "b2", true));
    assert!(UIParser::get_bool(&a, "missing", true));
    assert_eq!(UIParser::get_str(&a, "t", "d"), "hi");
    assert_eq!(UIParser::get_str(&a, "missing", "d"), "d");
}

#[test]
fn align_readers() {
    let a = attrs(&[("alignX", "center"), ("alignY", "bottom"), ("ax2", "Right")]);
    assert_eq!(UIParser::get_align_x(&a, "alignX"), AlignX::Center);
    assert_eq!(UIParser::get_align_x(&a, "ax2"), AlignX::Left);
    assert_eq!(UIParser::get_align_y(&a, "alignY"), AlignY::Bottom);
    assert_eq!(UIParser::get_align_y(&a, "none"), AlignY::Top);
}

#[test]
fn enum_readers() {
    assert_eq!(UIParser::get_object_fit(&attrs(&[("object-fit", "cover")])), ObjectFit::Cover);
    assert_eq!(UIParser::get_object_fit(&attrs(&[])), ObjectFit::Warp);
    assert_eq!(UIParser::get_gradient_type(&attrs(&[("type", "radial")])), GradientType::Radial);
    assert_eq!(UIParser::get_gradient_type(&attrs(&[("type", "line")])), GradientType::Linear);
    assert_eq!(UIParser::get_physics_2d_engine(&attrs(&[("engine", "bevy")])), Physics2DEngine::Bevy);
    assert_eq!(UIParser::get_physics_2d_engine(&attrs(&[])), Physics2DEngine::Macroquad);
}

#[test]
fn defaults_of_layout_enums() {
    assert_eq!(ObjectFit::default(), ObjectFit::Warp);
    assert_eq!(GradientType::default(), GradientType::Linear);
    assert_eq!(AlignX::default(), AlignX::Left);
    assert_eq!(AlignY::default(), AlignY::Top);
    assert_eq!(Physics2DEngine::default(), Physics2DEngine::Macroquad);
}

#[test]
fn color_reader() {
    let a = attrs(&[("bg", "#0E141FCC")]);
    let d = Rgba8 { r: 1, g: 2, b: 3, a: 4 };
    assert_eq!(UIParser::get_color(&a, "bg", d), Rgba8 { r: 0x0E, g: 0x14, b: 0x1F, a: 0xCC });
    assert_eq!(UIParser::get_color(&a, "none", d), d);
}

#[test]
fn size_reader() {
    let a = attrs(&[("width", " auto "), ("height", "100vh")]);
    assert!(matches!(UIParser::get_size(&a, "width"), Some(SizeSyntax::Auto)));
    match UIParser::get_size(&a, "height") {
        Some(SizeSyntax::Expr(e)) => assert_eq!(lit(&e), (SizeLeaf::Vh, "100".to_string())),
        other => panic!("unexpected {:?}", other),
    }
    assert!(UIParser::get_size(&a, "depth").is_none());
}

#[test]
fn pos_reader() {
    let a = attrs(&[("x", "$"), ("y", "$ + 10px"), ("z", "$abc"), ("w", "24px")]);
    match UIParser::get_pos(&a, "x") {
        PosSyntax::Auto(e) => assert_eq!(lit(&e), (SizeLeaf::Px, "0".to_string())),
        other => panic!("unexpected {:?}", other),
    }
    match UIParser::get_pos(&a, "y") {
        PosSyntax::Auto(e) => assert_eq!(lit(&e), (SizeLeaf::Px, "10".to_string())),
        other => panic!("unexpected {:?}", other),
    }
    // `$` before a letter names a variable, not the parent alignment.
    assert!(matches!(UIParser::get_pos(&a, "z"), PosSyntax::Px(_)));
    match UIParser::get_pos(&a, "w") {
        PosSyntax::Px(e) => assert_eq!(lit(&e), (SizeLeaf::Px, "24".to_string())),
        other => panic!("unexpected {:?}", other),
    }
    match UIParser::get_pos(&a, "missing") {
        PosSyntax::Px(e) => assert_eq!(lit(&e), (SizeLeaf::Px, "0".to_string())),
        other => panic!("unexpected {:?}", other),
    }
}

#[test]
fn pos_reader_unicode_letter_after_dollar() {
    let a = attrs(&[("x", "$é")]);
    assert!(matches!(UIParser::get_pos(&a, "x"), PosSyntax::Px(_)));
}

#[test]
fn bool_literals() {
    assert_eq!(parse_bool_literal(" True "), Some(true));
    assert_eq!(parse_bool_literal("0"), Some(false));
    assert_eq!(parse_bool_literal("FALSE"), Some(false));
    assert_eq!(parse_bool_literal("yes"), None);
}

#[test]
fn hex_formats_upper_case() {
    let c = Rgba8 { r: 0x0B, g: 0x1E, b: 0x2E, a: 0xFF };
    assert_eq!(c.to_hex(), "#0B1E2EFF");
}

#[test]
fn hex_parses_six_and_eight_digits() {
    assert_eq!(Rgba8::from_hex("#132E39"), Rgba8 { r: 0x13, g: 0x2E, b: 0x39, a: 255 });
    assert_eq!(Rgba8::from_hex("##aabbcc80"), Rgba8 { r: 0xAA, g: 0xBB, b: 0xCC, a: 0x80 });
    assert_eq!(Rgba8::from_hex("TransParent"), Rgba8 { r: 0, g: 0, b: 0, a: 0 });
    assert_eq!(Rgba8::from_hex("#12345"), Rgba8 { r: 0, g: 0, b: 0, a: 0 });
    assert_eq!(Rgba8::from_hex("#12345G"), Rgba8 { r: 0, g: 0, b: 0, a: 0 });
}

#[test]
fn hex_round_trip() {
    let c = Rgba8 { r: 200, g: 7, b: 0, a: 128 };
    assert_eq!(Rgba8::from_hex(&c.to_hex()), c);
}

#[test]
fn tokens_of_expression() {
    let t = tokenize("(40px + 2%) - 2vh * -3");
    assert_eq!(t.len(), 9);
    assert!(matches!(&t[0], Token::LParen));
    assert!(matches!(&t[1], Token::Num(s, SizeUnit::Px) if s == "40"));
    assert!(matches!(&t[2], Token::Plus));
    assert!(matches!(&t[3], Token::Num(s, SizeUnit::Pct) if s == "2"));
    assert!(matches!(&t[4], Token::RParen));
    assert!(matches!(&t[5], Token::Minus));
    assert!(matches!(&t[6], Token::Num(s, SizeUnit::Vh) if s == "2"));
    assert!(matches!(&t[7], Token::Star));
    assert!(matches!(&t[8], Token::NegNum(s, SizeUnit::Px) if s == "3"));
}

#[test]
fn expression_precedence() {
    match parse_size_expr("50% - 220px * 2") {
        SizeAst::BinOp(l, SizeOp::Sub, r) => {
            assert_eq!(lit(&l), (SizeLeaf::Pct, "50".to_string()));
            match *r {
                SizeAst::BinOp(a, SizeOp::Mul, b) => {
                    assert_eq!(lit(&a), (SizeLeaf::Px, "220".to_string()));
                    assert_eq!(lit(&b), (SizeLeaf::Px, "2".to_string()));
                }
                other => panic!("unexpected {:?}", other),
            }
        }
        other => panic!("unexpected {:?}", other),
    }
}

#[test]
fn negative_literals() {
    assert_eq!(lit(&parse_size_expr("-20px")), (SizeLeaf::NegPx, "20".to_string()));
    match parse_size_expr("-5vw") {
        SizeAst::BinOp(l, SizeOp::Sub, r) => {
            assert_eq!(lit(&l), (SizeLeaf::Px, "0".to_string()));
            assert_eq!(lit(&r), (SizeLeaf::Vw, "5".to_string()));
        }
        other => panic!("unexpected {:?}", other),
    }
}

#[test]
fn empty_expression_is_zero() {
    assert_eq!(lit(&parse_size_expr("")), (SizeLeaf::Px, "0".to_string()));
}

#[test]
fn parenthesised_expression() {
    match parse_size_expr("(1 + 2) / 4deg") {
        SizeAst::BinOp(l, SizeOp::Div, r) => {
            assert!(matches!(*l, SizeAst::BinOp(_, SizeOp::Add, _)));
            assert_eq!(lit(&r), (SizeLeaf::Deg, "4".to_string()));
        }
        other => panic!("unexpected {:?}", other),
    }
}

#[test]
fn units_read_at_and_past_the_end() {
    let cs: Vec<char> = "10vw%".chars().collect();
    let mut i = 2;
    assert_eq!(parse_unit(&cs, &mut i), SizeUnit::Vw);
    assert_eq!(i, 4);
    assert_eq!(parse_unit(&cs, &mut i), SizeUnit::Pct);
    assert_eq!(i, 5);
    assert_eq!(parse_unit(&cs, &mut i), SizeUnit::Px);
    assert_eq!(i, 5);
    let mut far = 9;
    assert_eq!(parse_unit(&cs, &mut far), SizeUnit::Px);
    assert_eq!(far, 9);
}
