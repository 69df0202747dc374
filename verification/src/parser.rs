//! Attribute readers and tag checks of the XML schema parser.
use vstd::prelude::*;
use crate::hex::{spec_from_hex, HexSupport, Rgba8};
use crate::num::{parse_i32_range, parse_u32_range, spec_parse_i32, spec_parse_u32};
use crate::text::{
    ascii_lower, chars_eq, chars_of, lowered_range, push_str, str_is, trim,
    trim_bounds, trimmed,
};
use crate::types::{AlignX, AlignY, GradientType, ObjectFit, Physics2DEngine};
use crate::expr::{parse_size_expr, spec_size_expr, AstView, SizeAst, SizeLeaf};

verus! {

/// The tag names that the schema accepts as UI components.
pub open spec fn is_valid_tag(t: Seq<char>) -> bool {
    ||| t == "view"@
    ||| t == "scroll_view"@
    ||| t == "button"@
    ||| t == "slider"@
    ||| t == "switch"@
    ||| t == "label"@
    ||| t == "text_field"@
    ||| t == "texture"@
    ||| t == "texture-2d"@
    ||| t == "animated_texture"@
    ||| t == "animation"@
    ||| t == "progress_bar"@
    ||| t == "rect"@
    ||| t == "gradient"@
    ||| t == "physics-container-2d"@
    ||| t == "physics-container-3d"@
}

/// Position of the first attribute named `key`, or `attrs.len()`.
pub open spec fn attr_pos(attrs: Seq<(String, String)>, key: Seq<char>) -> int
    decreases attrs.len(),
{
    if attrs.len() == 0 {
        0
    } else if attrs[0].0@ == key {
        0
    } else {
        1 + attr_pos(attrs.drop_first(), key)
    }
}

/// The value of the first attribute named `key`, if any.
pub open spec fn attr_val(attrs: Seq<(String, String)>, key: Seq<char>) -> Option<Seq<char>> {
    let p = attr_pos(attrs, key);
    if 0 <= p < attrs.len() {
        Some(attrs[p].1@)
    } else {
        None
    }
}

pub(crate) proof fn lemma_attr_pos(attrs: Seq<(String, String)>, key: Seq<char>)
    ensures
        0 <= attr_pos(attrs, key) <= attrs.len(),
        forall|i: int| 0 <= i < attr_pos(attrs, key) ==> #[trigger] attrs[i].0@ != key,
        attr_pos(attrs, key) < attrs.len() ==> attrs[attr_pos(attrs, key)].0@ == key,
    decreases attrs.len(),
{
    if attrs.len() > 0 && attrs[0].0@ != key {
        let t = attrs.drop_first();
        lemma_attr_pos(t, key);
        assert forall|i: int| 0 <= i < attr_pos(attrs, key) implies #[trigger] attrs[i].0@ != key by {
            if i > 0 {
                assert(attrs[i] == t[i - 1]);
            }
        }
    }
}

proof fn lemma_attr_pos_unique(attrs: Seq<(String, String)>, key: Seq<char>, p: int)
    requires
        0 <= p <= attrs.len(),
        forall|i: int| 0 <= i < p ==> #[trigger] attrs[i].0@ != key,
        p < attrs.len() ==> attrs[p].0@ == key,
    ensures
        attr_pos(attrs, key) == p,
{
    lemma_attr_pos(attrs, key);
    let q = attr_pos(attrs, key);
    if q < p {
        assert(attrs[q].0@ != key);
    } else if q > p {
        assert(attrs[p].0@ != key);
    }
}

/// `s` without its trailing run of `"px"` (`trim_end_matches("px")`).
pub open spec fn strip_px(s: Seq<char>) -> Seq<char>
    decreases s.len(),
{
    if s.len() >= 2 && s[s.len() - 2] == 'p' && s[s.len() - 1] == 'x' {
        strip_px(s.take(s.len() - 2))
    } else {
        s
    }
}

/// End of `strip_px(cs[from..to])` inside `cs`.
fn strip_px_end(cs: &[char], from: usize, to: usize) -> (e: usize)
    requires
        from <= to <= cs@.len(),
    ensures
        from <= e <= to,
        cs@.subrange(from as int, e as int) == strip_px(cs@.subrange(from as int, to as int)),
{
    let mut e = to;
    while e - from >= 2 && cs[e - 2] == 'p' && cs[e - 1] == 'x'
        invariant
            from <= e <= to <= cs@.len(),
            strip_px(cs@.subrange(from as int, e as int)) == strip_px(cs@.subrange(from as int, to as int)),
        decreases e - from,
    {
        let ghost s = cs@.subrange(from as int, e as int);
        assert(s[s.len() - 2] == cs@[e - 2] && s[s.len() - 1] == cs@[e - 1]);
        assert(s.take(s.len() - 2) =~= cs@.subrange(from as int, e - 2));
        e = e - 2;
    }
    proof {
        let s = cs@.subrange(from as int, e as int);
        if s.len() >= 2 {
            assert(s[s.len() - 2] == cs@[e - 2] && s[s.len() - 1] == cs@[e - 1]);
        }
    }
    e
}

/// `c` is alphabetic in Unicode's sense (`char::is_alphabetic`).
pub uninterp spec fn spec_is_alphabetic(c: char) -> bool;

/// `char::is_alphabetic`.
#[verifier::external_body]
pub(crate) fn is_alphabetic(c: char) -> (r: bool)
    ensures
        r == spec_is_alphabetic(c),
{
    c.is_alphabetic()
}

/// A width or height as written: `auto` or an expression.
#[derive(Debug)]
pub enum SizeSyntax {
    Auto,
    Expr(SizeAst),
}

/// A position as written: from the parent origin, or parent-aligned with an offset.
#[derive(Debug)]
pub enum PosSyntax {
    Px(SizeAst),
    Auto(SizeAst),
}

/// What a [`SizeSyntax`] holds.
pub ghost enum SizeSyntaxView {
    Auto,
    Expr(AstView),
}

/// What a [`PosSyntax`] holds.
pub ghost enum PosSyntaxView {
    Px(AstView),
    Auto(AstView),
}

impl View for SizeSyntax {
    type V = SizeSyntaxView;

    open spec fn view(&self) -> SizeSyntaxView {
        match self {
            SizeSyntax::Auto => SizeSyntaxView::Auto,
            SizeSyntax::Expr(e) => SizeSyntaxView::Expr(e@),
        }
    }
}

impl View for PosSyntax {
    type V = PosSyntaxView;

    open spec fn view(&self) -> PosSyntaxView {
        match self {
            PosSyntax::Px(e) => PosSyntaxView::Px(e@),
            PosSyntax::Auto(e) => PosSyntaxView::Auto(e@),
        }
    }
}

/// What a size attribute value says: `auto` (after trimming) or an expression.
pub open spec fn spec_size(v: Seq<char>) -> SizeSyntaxView {
    if trim(v) == "auto"@ {
        SizeSyntaxView::Auto
    } else {
        SizeSyntaxView::Expr(spec_size_expr(trim(v)))
    }
}

/// What a position attribute value says: `auto` or `$` alone is parent-aligned
/// with no offset; `$` followed by something other than a letter or `_` is
/// parent-aligned with the rest as offset; anything else is from the origin.
pub open spec fn spec_pos(v: Seq<char>) -> PosSyntaxView {
    let t = trim(v);
    if t == "auto"@ || t == "$"@ {
        PosSyntaxView::Auto(AstView::Lit(SizeLeaf::Px, seq!['0']))
    } else if t.len() > 0 && t[0] == '$' && !(t.len() > 1 && (spec_is_alphabetic(t[1]) || t[1] == '_')) {
        PosSyntaxView::Auto(spec_size_expr(trim(t.drop_first())))
    } else {
        PosSyntaxView::Px(spec_size_expr(t))
    }
}

/// The schema parser. Its readers turn attribute lists, as (name, value)
/// pairs in document order, into component settings.
pub struct UIParser;

impl UIParser {
    /// Position of the first attribute named `key`, if any.
    fn find_attr(attrs: &[(String, String)], key: &str) -> (r: Option<usize>)
        ensures
            r matches Some(i) ==> i as int == attr_pos(attrs@, key@) && i < attrs@.len(),
            r is None ==> attr_pos(attrs@, key@) == attrs@.len(),
    {
        let k = String::from_str(key);
        let mut i: usize = 0;
        while i < attrs.len()
            invariant
                k@ == key@,
                i <= attrs@.len(),
                forall|j: int| 0 <= j < i ==> #[trigger] attrs@[j].0@ != key@,
            decreases attrs@.len() - i,
        {
            if attrs[i].0 == k {
                proof {
                    lemma_attr_pos_unique(attrs@, key@, i as int);
                }
                return Some(i);
            }
            i = i + 1;
        }
        proof {
            lemma_attr_pos_unique(attrs@, key@, attrs@.len() as int);
        }
        None
    }

    /// Accepts a known UI component tag; any other tag is an error naming it.
    pub fn validate_tag(tag: &str) -> (r: Result<(), String>)
        ensures
            r is Ok <==> is_valid_tag(tag@),
            r matches Err(m) ==> m@ == "Unknown UI component tag: <"@ + tag@ + ">"@,
    {
        if str_is(tag, "view") || str_is(tag, "scroll_view") || str_is(tag, "button") || str_is(tag, "slider")
            || str_is(tag, "switch") || str_is(tag, "label") || str_is(tag, "text_field") || str_is(
            tag,
            "texture",
        ) || str_is(tag, "texture-2d") || str_is(tag, "animated_texture") || str_is(tag, "animation")
            || str_is(tag, "progress_bar") || str_is(tag, "rect") || str_is(tag, "gradient") || str_is(
            tag,
            "physics-container-2d",
        ) || str_is(tag, "physics-container-3d") {
            Ok(())
        } else {
            let mut m = String::new();
            push_str(&mut m, "Unknown UI component tag: <");
            push_str(&mut m, tag);
            push_str(&mut m, ">");
            assert(m@ =~= "Unknown UI component tag: <"@ + tag@ + ">"@);
            Err(m)
        }
    }

    /// The raw value of the first attribute named `key`.
    pub fn raw_attr(attrs: &[(String, String)], key: &str) -> (r: Option<String>)
        ensures
            r is Some == attr_val(attrs@, key@) is Some,
            r matches Some(v) ==> v@ == attr_val(attrs@, key@)->0,
    {
        match Self::find_attr(attrs, key) {
            Some(i) => Some(attrs[i].1.clone()),
            None => None,
        }
    }

    /// The size attribute `key` (see [`spec_size`]), or `None` when it is missing.
    pub fn get_size(attrs: &[(String, String)], key: &str) -> (r: Option<SizeSyntax>)
        ensures
            r is Some == attr_val(attrs@, key@) is Some,
            r matches Some(sz) ==> sz@ == spec_size(attr_val(attrs@, key@)->0),
    {
        match Self::find_attr(attrs, key) {
            Some(i) => {
                let t = trimmed(attrs[i].1.as_str());
                if str_is(t.as_str(), "auto") {
                    Some(SizeSyntax::Auto)
                } else {
                    Some(SizeSyntax::Expr(parse_size_expr(t.as_str())))
                }
            },
            None => None,
        }
    }

    /// The position attribute `key` (see [`spec_pos`]); a missing attribute is `0px` from the origin.
    pub fn get_pos(attrs: &[(String, String)], key: &str) -> (r: PosSyntax)
        ensures
            r@ == match attr_val(attrs@, key@) {
                Some(v) => spec_pos(v),
                None => PosSyntaxView::Px(AstView::Lit(SizeLeaf::Px, seq!['0'])),
            },
    {
        match Self::find_attr(attrs, key) {
            Some(i) => {
                let t = trimmed(attrs[i].1.as_str());
                let cs = chars_of(t.as_str());
                if str_is(t.as_str(), "auto") || str_is(t.as_str(), "$") {
                    return PosSyntax::Auto(zero_lit());
                }
                if cs.len() > 0 && cs[0] == '$' && !(cs.len() > 1 && (is_alphabetic(cs[1]) || cs[1] == '_')) {
                    let n = cs.len();
                    let (lo, hi) = trim_bounds(cs.as_slice(), 1, n);
                    let mut rest = String::new();
                    crate::text::push_range(&mut rest, cs.as_slice(), lo, hi);
                    assert(cs@.subrange(1, n as int) =~= cs@.drop_first());
                    PosSyntax::Auto(parse_size_expr(rest.as_str()))
                } else {
                    PosSyntax::Px(parse_size_expr(t.as_str()))
                }
            },
            None => PosSyntax::Px(zero_lit()),
        }
    }

    /// Horizontal alignment: `"center"`, `"right"`, anything else left.
    pub fn get_align_x(attrs: &[(String, String)], key: &str) -> (r: AlignX)
        ensures
            r == match attr_val(attrs@, key@) {
                Some(v) => if v == "center"@ {
                    AlignX::Center
                } else if v == "right"@ {
                    AlignX::Right
                } else {
                    AlignX::Left
                },
                None => AlignX::Left,
            },
    {
        match Self::find_attr(attrs, key) {
            Some(i) => {
                let v = attrs[i].1.as_str();
                if str_is(v, "center") {
                    AlignX::Center
                } else if str_is(v, "right") {
                    AlignX::Right
                } else {
                    AlignX::Left
                }
            },
            None => AlignX::Left,
        }
    }

    /// Vertical alignment: `"center"`, `"bottom"`, anything else top.
    pub fn get_align_y(attrs: &[(String, String)], key: &str) -> (r: AlignY)
        ensures
            r == match attr_val(attrs@, key@) {
                Some(v) => if v == "center"@ {
                    AlignY::Center
                } else if v == "bottom"@ {
                    AlignY::Bottom
                } else {
                    AlignY::Top
                },
                None => AlignY::Top,
            },
    {
        match Self::find_attr(attrs, key) {
            Some(i) => {
                let v = attrs[i].1.as_str();
                if str_is(v, "center") {
                    AlignY::Center
                } else if str_is(v, "bottom") {
                    AlignY::Bottom
                } else {
                    AlignY::Top
                }
            },
            None => AlignY::Top,
        }
    }

    /// The attribute's value, or `default`.
    pub fn get_str(attrs: &[(String, String)], key: &str, default: &str) -> (r: String)
        ensures
            r@ == match attr_val(attrs@, key@) {
                Some(v) => v,
                None => default@,
            },
    {
        match Self::find_attr(attrs, key) {
            Some(i) => attrs[i].1.clone(),
            None => String::from_str(default),
        }
    }

    /// The attribute read as an `i32` (trimmed, trailing `"px"` removed), or
    /// `default` when it is missing or not a number.
    pub fn get_i32(attrs: &[(String, String)], key: &str, default: i32) -> (r: i32)
        ensures
            r == match attr_val(attrs@, key@) {
                Some(v) => match spec_parse_i32(strip_px(trim(v))) {
                    Some(n) => n,
                    None => default,
                },
                None => default,
            },
    {
        match Self::find_attr(attrs, key) {
            Some(i) => {
                let cs = chars_of(attrs[i].1.as_str());
                let n = cs.len();
                assert(cs@.subrange(0, n as int) == cs@);
                let (lo, hi) = trim_bounds(cs.as_slice(), 0, n);
                let e = strip_px_end(cs.as_slice(), lo, hi);
                match parse_i32_range(cs.as_slice(), lo, e) {
                    Some(v) => v,
                    None => default,
                }
            },
            None => default,
        }
    }

    /// The attribute read as a `u32` (trimmed, trailing `"px"` removed), or
    /// `default` when it is missing or not a number.
    pub fn get_u32(attrs: &[(String, String)], key: &str, default: u32) -> (r: u32)
        ensures
            r == match attr_val(attrs@, key@) {
                Some(v) => match spec_parse_u32(strip_px(trim(v))) {
                    Some(n) => n,
                    None => default,
                },
                None => default,
            },
    {
        match Self::find_attr(attrs, key) {
            Some(i) => {
                let cs = chars_of(attrs[i].1.as_str());
                let n = cs.len();
                assert(cs@.subrange(0, n as int) == cs@);
                let (lo, hi) = trim_bounds(cs.as_slice(), 0, n);
                let e = strip_px_end(cs.as_slice(), lo, hi);
                match parse_u32_range(cs.as_slice(), lo, e) {
                    Some(v) => v,
                    None => default,
                }
            },
            None => default,
        }
    }

    /// `true` for `"true"` and `"1"`, `false` for any other value, `default`
    /// when the attribute is missing.
    pub fn get_bool(attrs: &[(String, String)], key: &str, default: bool) -> (r: bool)
        ensures
            r == match attr_val(attrs@, key@) {
                Some(v) => v == "true"@ || v == "1"@,
                None => default,
            },
    {
        match Self::find_attr(attrs, key) {
            Some(i) => {
                let v = attrs[i].1.as_str();
                str_is(v, "true") || str_is(v, "1")
            },
            None => default,
        }
    }

    /// The attribute read as a hex colour (trimmed), or `default`.
    pub fn get_color(attrs: &[(String, String)], key: &str, default: Rgba8) -> (r: Rgba8)
        ensures
            r == match attr_val(attrs@, key@) {
                Some(v) => spec_from_hex(trim(v)),
                None => default,
            },
    {
        match Self::find_attr(attrs, key) {
            Some(i) => {
                let t = trimmed(attrs[i].1.as_str());
                <Rgba8 as HexSupport>::from_hex(t.as_str())
            },
            None => default,
        }
    }

    /// The `object-fit` attribute: `"cover"`, `"contain"`, anything else warp.
    pub fn get_object_fit(attrs: &[(String, String)]) -> (r: ObjectFit)
        ensures
            r == match attr_val(attrs@, "object-fit"@) {
                Some(v) => if v == "cover"@ {
                    ObjectFit::Cover
                } else if v == "contain"@ {
                    ObjectFit::Contain
                } else {
                    ObjectFit::Warp
                },
                None => ObjectFit::Warp,
            },
    {
        match Self::find_attr(attrs, "object-fit") {
            Some(i) => {
                let v = attrs[i].1.as_str();
                if str_is(v, "cover") {
                    ObjectFit::Cover
                } else if str_is(v, "contain") {
                    ObjectFit::Contain
                } else {
                    ObjectFit::Warp
                }
            },
            None => ObjectFit::Warp,
        }
    }

    /// The `type` attribute of a gradient: `"radial"`, anything else linear.
    pub fn get_gradient_type(attrs: &[(String, String)]) -> (r: GradientType)
        ensures
            r == match attr_val(attrs@, "type"@) {
                Some(v) => if v == "radial"@ {
                    GradientType::Radial
                } else {
                    GradientType::Linear
                },
                None => GradientType::Linear,
            },
    {
        match Self::find_attr(attrs, "type") {
            Some(i) => {
                if str_is(attrs[i].1.as_str(), "radial") {
                    GradientType::Radial
                } else {
                    GradientType::Linear
                }
            },
            None => GradientType::Linear,
        }
    }

    /// The `engine` attribute of a 2D physics container: `bevy` (trimmed, any
    /// ASCII case) or, by default, macroquad.
    pub fn get_physics_2d_engine(attrs: &[(String, String)]) -> (r: Physics2DEngine)
        ensures
            r == match attr_val(attrs@, "engine"@) {
                Some(v) => if trim(v).map_values(|c: char| ascii_lower(c)) == "bevy"@ {
                    Physics2DEngine::Bevy
                } else {
                    Physics2DEngine::Macroquad
                },
                None => Physics2DEngine::Macroquad,
            },
    {
        match Self::find_attr(attrs, "engine") {
            Some(i) => {
                let cs = chars_of(attrs[i].1.as_str());
                let n = cs.len();
                assert(cs@.subrange(0, n as int) == cs@);
                let (lo, hi) = trim_bounds(cs.as_slice(), 0, n);
                let low = lowered_range(cs.as_slice(), lo, hi, true);
                assert(low@ =~= trim(cs@).map_values(|c: char| ascii_lower(c)));
                let bevy = chars_of("bevy");
                if chars_eq(low.as_slice(), bevy.as_slice()) {
                    Physics2DEngine::Bevy
                } else {
                    Physics2DEngine::Macroquad
                }
            },
            None => Physics2DEngine::Macroquad,
        }
    }
}

fn zero_lit() -> (r: SizeAst)
    ensures
        r@ == AstView::Lit(SizeLeaf::Px, seq!['0']),
{
    let mut s = String::new();
    crate::text::push_char(&mut s, '0');
    SizeAst::Lit(SizeLeaf::Px, s)
}

/// What a boolean literal (trimmed, any ASCII case) stands for.
pub open spec fn spec_bool_literal(s: Seq<char>) -> Option<bool> {
    let l = trim(s).map_values(|c: char| ascii_lower(c));
    if l == "true"@ || l == "1"@ {
        Some(true)
    } else if l == "false"@ || l == "0"@ {
        Some(false)
    } else {
        None
    }
}

/// Reads `true`/`1` and `false`/`0`, trimmed and in any ASCII case.
pub fn parse_bool_literal(s: &str) -> (r: Option<bool>)
    ensures
        r == spec_bool_literal(s@),
{
    let cs = chars_of(s);
    let n = cs.len();
    assert(cs@.subrange(0, n as int) == cs@);
    let (lo, hi) = trim_bounds(cs.as_slice(), 0, n);
    let low = lowered_range(cs.as_slice(), lo, hi, true);
    assert(low@ =~= trim(s@).map_values(|c: char| ascii_lower(c)));
    let t = chars_of("true");
    let one = chars_of("1");
    let f = chars_of("false");
    let zero = chars_of("0");
    if chars_eq(low.as_slice(), t.as_slice()) || chars_eq(low.as_slice(), one.as_slice()) {
        Some(true)
    } else if chars_eq(low.as_slice(), f.as_slice()) || chars_eq(low.as_slice(), zero.as_slice()) {
        Some(false)
    } else {
        None
    }
}

} // verus!
