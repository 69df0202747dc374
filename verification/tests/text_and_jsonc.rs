use jl_ui::jsonc::{merge_comments, CommentAnchor, Jsonc};
use jl_ui::names::{contains_name, names_without};
use jl_ui::num::{parse_i32_range, parse_u32_range, push_decimal};
use jl_ui::text::{push_str, string_of, trimmed};

#[test]
fn strip_removes_line_comments() {
    let out = Jsonc::strip_jsonc_comments("{\"a\": 1 // one\n}");
    assert_eq!(out, "{\"a\": 1 \n}");
}

#[test]
fn strip_keeps_slashes_in_strings() {
    let text = "{\"url\": \"http://x\"} // c";
    assert_eq!(Jsonc::strip_jsonc_comments(text), "{\"url\": \"http://x\"} ");
}

#[test]
fn strip_handles_escaped_quote() {
    let text = "{\"a\": \"q\\\"//x\"}//tail\nnext";
    assert_eq!(Jsonc::strip_jsonc_comments(text), "{\"a\": \"q\\\"//x\"}\nnext");
}

#[test]
fn strip_comment_at_end_without_newline() {
    assert_eq!(Jsonc::strip_jsonc_comments("1 // end"), "1 ");
}

#[test]
fn strip_single_slash_kept() {
    assert_eq!(Jsonc::strip_jsonc_comments("a / b"), "a / b");
}

#[test]
fn strip_is_idempotent_on_example() {
    let once = Jsonc::strip_jsonc_comments("{\"k\": \"v//\" // c\n, \"n\": 2}");
    let twice = Jsonc::strip_jsonc_comments(&once);
    assert_eq!(once, twice);
}

#[test]
fn extract_left_anchor() {
    let mut j = Jsonc::init();
    let out = j.extract_comments("conf.jsonc", "{\n  \"a\": 1, // first\n}");
    assert_eq!(out, "{\n  \"a\": 1, \n}\n");
    let cs = j.comments_for("conf.jsonc").unwrap();
    assert_eq!(cs.len(), 1);
    assert_eq!(cs[0].line, 1);
    assert_eq!(cs[0].comment_content, "first");
    match &cs[0].anchor {
        CommentAnchor::Left(s) => assert_eq!(s, "\"a\": 1,"),
        _ => panic!("expected a left anchor"),
    }
}

#[test]
fn extract_below_and_above_anchors() {
    let mut j = Jsonc::init();
    let out = j.extract_comments("p", "// head\n{\n}\n// tail");
    assert_eq!(out, "\n{\n}\n\n");
    let cs = j.comments_for("p").unwrap();
    assert_eq!(cs.len(), 2);
    match &cs[0].anchor {
        CommentAnchor::Below(s) => assert_eq!(s, "{"),
        _ => panic!("expected a below anchor"),
    }
    match &cs[1].anchor {
        CommentAnchor::Above(s) => assert_eq!(s, "}"),
        _ => panic!("expected an above anchor"),
    }
    assert_eq!(cs[1].line, 3);
}

#[test]
fn extract_unanchored_comment_dropped() {
    let mut j = Jsonc::init();
    let out = j.extract_comments("solo", "// alone");
    assert_eq!(out, "");
    assert_eq!(j.comments_for("solo").map_or(0, |v| v.len()), 0);
    assert!(j.comments_for("never").is_none());
}

#[test]
fn extract_keeps_other_paths() {
    let mut j = Jsonc::init();
    j.extract_comments("a", "1 // x");
    j.extract_comments("b", "2 // y");
    j.extract_comments("a", "3 // z");
    assert_eq!(j.comments_for("a").unwrap().len(), 2);
    assert_eq!(j.comments_for("b").unwrap().len(), 1);
    assert_eq!(j.comments_for("a").unwrap()[1].comment_content, "z");
}

#[test]
fn trimmed_strips_unicode_whitespace() {
    assert_eq!(trimmed("\u{3000} hi \t\n"), "hi");
}

#[test]
fn string_of_and_push_str() {
    let mut s = string_of(&['a', 'b']);
    push_str(&mut s, "c");
    assert_eq!(s, "abc");
}

#[test]
fn decimal_digits() {
    let mut s = String::from("n=");
    push_decimal(&mut s, 4096);
    assert_eq!(s, "n=4096");
    let mut z = String::new();
    push_decimal(&mut z, 0);
    assert_eq!(z, "0");
}

#[test]
fn parse_numbers_like_str_parse() {
    let cs: Vec<char> = "x-42y".chars().collect();
    assert_eq!(parse_i32_range(&cs, 1, 4), Some(-42));
    let big: Vec<char> = "4294967296".chars().collect();
    assert_eq!(parse_u32_range(&big, 0, big.len()), None);
    let max: Vec<char> = "+4294967295".chars().collect();
    assert_eq!(parse_u32_range(&max, 0, max.len()), Some(4294967295));
    let empty: Vec<char> = Vec::new();
    assert_eq!(parse_u32_range(&empty, 0, 0), None);
    let min: Vec<char> = "-2147483648".chars().collect();
    assert_eq!(parse_i32_range(&min, 0, min.len()), Some(i32::MIN));
}

#[test]
fn names_helpers() {
    let a = vec!["x".to_string(), "y".to_string(), "z".to_string()];
    let b = vec!["y".to_string()];
    assert!(contains_name(&a, &"z".to_string()));
    assert!(!contains_name(&b, &"z".to_string()));
    assert_eq!(names_without(&a, &b), vec!["x".to_string(), "z".to_string()]);
}

#[test]
fn comments_are_put_back() {
    let mut j = Jsonc::init();
    j.extract_comments("c.jsonc", "{\n  // the name\n  \"name\": \"x\",\n  \"n\": 1 // count\n}");
    let json = vec![
        "{".to_string(),
        "  \"name\": \"x\",".to_string(),
        "  \"n\": 1".to_string(),
        "}".to_string(),
    ];
    let out = merge_comments(json, j.comments_for("c.jsonc").unwrap());
    assert_eq!(
        out,
        vec![
            "{".to_string(),
            "// the name".to_string(),
            "  \"name\": \"x\",".to_string(),
            "  \"n\": 1 // count".to_string(),
            "}".to_string(),
        ]
    );
}

#[test]
fn left_comment_goes_to_matching_line() {
    let mut j = Jsonc::init();
    j.extract_comments("d", "\"n\": 1, // count");
    let out = merge_comments(vec!["{".to_string(), "  \"n\": 1,".to_string()], j.comments_for("d").unwrap());
    assert_eq!(out, vec!["{".to_string(), "  \"n\": 1, // count".to_string()]);
    let none = merge_comments(vec!["{}".to_string()], j.comments_for("d").unwrap());
    assert_eq!(none, vec!["{}".to_string()]);
}

#[test]
fn strip_removes_block_comments() {
    let out = Jsonc::strip_jsonc_comments("[/* c */ 1]");
    assert_eq!(out, "[ 1]");
    assert_eq!(serde_json::from_str::<Vec<i32>>(&out).unwrap(), vec![1]);
    assert_eq!(Jsonc::strip_jsonc_comments("{/* a\nb */\"k\": 2}"), "{\n\"k\": 2}");
    assert_eq!(Jsonc::strip_jsonc_comments("1 /*/ still */ 2"), "1  2");
    assert_eq!(Jsonc::strip_jsonc_comments("\"/* kept */\" /* gone"), "\"/* kept */\" ");
    assert_eq!(Jsonc::strip_jsonc_comments("3 /**/"), "3 ");
}
