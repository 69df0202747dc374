//! Expansion of `$name` variable references in attribute values.
//!
//! A reference is `$` followed by a letter or `_`, then letters, digits, `_`
//! and `-`. It is replaced by the value of the variable of the schema, or
//! else the global one: numbers and colours are handed back as values for the
//! caller to write, strings as they are, booleans as `true`/`false`, and an
//! unknown name as `0px`. A `$` that starts no reference stays as it is.
use vstd::prelude::*;
use crate::parser::{is_alphabetic, spec_is_alphabetic};
use crate::text::{chars_of, push_range, push_str};
use crate::vars::{GlobalVarStore, ScopeView, VarStore};

verus! {

/// `c` is alphanumeric in Unicode's sense (`char::is_alphanumeric`).
pub uninterp spec fn spec_is_alphanumeric(c: char) -> bool;

/// `char::is_alphanumeric`.
#[verifier::external_body]
fn is_alphanumeric(c: char) -> (r: bool)
    ensures
        r == spec_is_alphanumeric(c),
{
    c.is_alphanumeric()
}

/// A piece of an expanded value.
#[derive(Debug)]
pub enum Piece<F, C> {
    /// A character copied from the value.
    Char(char),
    /// Text that a reference stands for.
    Text(String),
    /// A number that a reference stands for.
    Number(F),
    /// A colour that a reference stands for.
    Color(C),
}

/// What a [`Piece`] holds.
pub ghost enum PieceView<F, C> {
    Char(char),
    Text(Seq<char>),
    Number(F),
    Color(C),
}

impl<F, C> View for Piece<F, C> {
    type V = PieceView<F, C>;

    open spec fn view(&self) -> PieceView<F, C> {
        match self {
            Piece::Char(c) => PieceView::Char(*c),
            Piece::Text(s) => PieceView::Text(s@),
            Piece::Number(x) => PieceView::Number(*x),
            Piece::Color(x) => PieceView::Color(*x),
        }
    }
}

/// `c` may continue a variable name.
pub open spec fn is_name_char(c: char) -> bool {
    spec_is_alphanumeric(c) || c == '_' || c == '-'
}

/// A reference starts at `i`.
pub open spec fn starts_ref(s: Seq<char>, i: int) -> bool {
    0 <= i && i + 1 < s.len() && s[i] == '$' && (spec_is_alphabetic(s[i + 1]) || s[i + 1] == '_')
}

/// The end of the name that begins at `i`.
pub open spec fn name_end(s: Seq<char>, i: int) -> int
    decreases s.len() - i,
{
    if i < 0 || i >= s.len() || !is_name_char(s[i]) {
        i
    } else {
        name_end(s, i + 1)
    }
}

/// A name ends within the text, not before where it starts.
pub proof fn lemma_name_end(s: Seq<char>, i: int)
    requires
        0 <= i <= s.len(),
    ensures
        i <= name_end(s, i) <= s.len(),
    decreases s.len() - i,
{
    if i < s.len() && is_name_char(s[i]) {
        lemma_name_end(s, i + 1);
    }
}

/// `true` or `false`.
pub open spec fn bool_text(b: bool) -> Seq<char> {
    if b {
        seq!['t', 'r', 'u', 'e']
    } else {
        seq!['f', 'a', 'l', 's', 'e']
    }
}

/// What the variable `name` expands to: in the schema's variables, then the
/// global ones, each looked up as number, colour, string, boolean.
pub open spec fn lookup<F, C>(vars: ScopeView<F, C>, globals: ScopeView<F, C>, name: Seq<char>) -> PieceView<F, C> {
    if vars.f32s.contains_key(name) {
        PieceView::Number(vars.f32s[name])
    } else if vars.colors.contains_key(name) {
        PieceView::Color(vars.colors[name])
    } else if vars.strings.contains_key(name) {
        PieceView::Text(vars.strings[name])
    } else if vars.bools.contains_key(name) {
        PieceView::Text(bool_text(vars.bools[name]))
    } else if globals.f32s.contains_key(name) {
        PieceView::Number(globals.f32s[name])
    } else if globals.colors.contains_key(name) {
        PieceView::Color(globals.colors[name])
    } else if globals.strings.contains_key(name) {
        PieceView::Text(globals.strings[name])
    } else if globals.bools.contains_key(name) {
        PieceView::Text(bool_text(globals.bools[name]))
    } else {
        PieceView::Text(seq!['0', 'p', 'x'])
    }
}

/// The expansion of `s` from position `i` on.
pub open spec fn expand_from<F, C>(s: Seq<char>, i: int, vars: ScopeView<F, C>, globals: ScopeView<F, C>) -> Seq<PieceView<F, C>>
    decreases s.len() - i, 
{
    if i < 0 || i >= s.len() {
        Seq::empty()
    } else if starts_ref(s, i) {
        proof {
            lemma_name_end(s, i + 1);
        }
        let e = name_end(s, i + 1);
        seq![lookup(vars, globals, s.subrange(i + 1, e))] + expand_from(s, e, vars, globals)
    } else {
        seq![PieceView::Char(s[i])] + expand_from(s, i + 1, vars, globals)
    }
}

/// Expands the variable references of `s` (see the module description).
pub fn expand_vars<F: Copy, C: Copy>(s: &str, vars: &VarStore<F, C>, globals: &GlobalVarStore<F, C>) -> (r: Vec<Piece<F, C>>)
    ensures
        r@.map_values(|p: Piece<F, C>| p@) == expand_from(s@, 0, vars.view(), globals.view()),
{
    let cs = chars_of(s);
    let n = cs.len();
    let ghost vv = vars.view();
    let ghost gv = globals.view();
    let mut out: Vec<Piece<F, C>> = Vec::new();
    let mut i: usize = 0;
    while i < n
        invariant
            cs@ == s@,
            n == cs@.len(),
            i <= n,
            vv == vars.view(),
            gv == globals.view(),
            out@.map_values(|p: Piece<F, C>| p@) + expand_from(s@, i as int, vv, gv) == expand_from(s@, 0, vv, gv),
        decreases n - i,
    {
        let ghost before = out@.map_values(|p: Piece<F, C>| p@);
        if cs[i] == '$' && i + 1 < n && (is_alphabetic(cs[i + 1]) || cs[i + 1] == '_') {
            let start = i + 1;
            let mut e = start;
            while e < n && (is_alphanumeric(cs[e]) || cs[e] == '_' || cs[e] == '-')
                invariant
                    cs@ == s@,
                    n == cs@.len(),
                    start <= e <= n,
                    name_end(s@, e as int) == name_end(s@, start as int),
                decreases n - e,
            {
                e = e + 1;
            }
            proof {
                assert(starts_ref(s@, i as int));
            }
            let mut name = String::new();
            push_range(&mut name, cs.as_slice(), start, e);
            let piece = lookup_piece(name.as_str(), vars, globals);
            let ghost gp = piece;
            let ghost ov = out@;
            out.push(piece);
            proof {
                lemma_push_view(ov, gp);
                assert(name@ == s@.subrange(start as int, e as int));
                assert(seq![lookup(vv, gv, s@.subrange(start as int, e as int))] + expand_from(s@, e as int, vv, gv) == expand_from(s@, i as int, vv, gv));
                assert(before + expand_from(s@, i as int, vv, gv) == expand_from(s@, 0, vv, gv));
                lemma_push_then_append(before, lookup(vv, gv, s@.subrange(start as int, e as int)), expand_from(s@, e as int, vv, gv));
            }
            i = e;
        } else {
            proof {
                if starts_ref(s@, i as int) {
                    assert(cs@[i + 1] == s@[i + 1]);
                }
            }
            let c = cs[i];
            let pc: Piece<F, C> = Piece::Char(c);
            let ghost gpc = pc;
            let ghost ov = out@;
            out.push(pc);
            proof {
                lemma_push_view(ov, gpc);
                assert(c == s@[i as int]);
                lemma_push_then_append(before, PieceView::Char(s@[i as int]), expand_from(s@, i + 1, vv, gv));
            }
            i = i + 1;
        }
    }
    proof {
        assert(expand_from(s@, n as int, vv, gv) == Seq::<PieceView<F, C>>::empty());
        assert(out@.map_values(|p: Piece<F, C>| p@) + Seq::<PieceView<F, C>>::empty() =~= out@.map_values(|p: Piece<F, C>| p@));
    }
    out
}

/// The piece that the variable `name` stands for (see [`lookup`]).
fn lookup_piece<F: Copy, C: Copy>(name: &str, vars: &VarStore<F, C>, globals: &GlobalVarStore<F, C>) -> (r: Piece<F, C>)
    ensures
        r@ == lookup(vars.view(), globals.view(), name@),
{
    if let Some(v) = vars.get_f32_var(name) {
        return Piece::Number(v);
    }
    if let Some(c) = vars.get_color_var(name) {
        return Piece::Color(c);
    }
    if let Some(t) = vars.get_string_var(name) {
        return Piece::Text(String::from_str(t));
    }
    if let Some(b) = vars.get_bool_var(name) {
        return Piece::Text(bool_string(b));
    }
    if let Some(v) = globals.get_f32(name) {
        return Piece::Number(v);
    }
    if let Some(c) = globals.get_color(name) {
        return Piece::Color(c);
    }
    if let Some(t) = globals.get_string(name) {
        return Piece::Text(String::from_str(t));
    }
    if let Some(b) = globals.get_bool(name) {
        return Piece::Text(bool_string(b));
    }
    proof {
        reveal_strlit("0px");
    }
    let mut z = String::new();
    push_str(&mut z, "0px");
    assert(z@ == seq!['0', 'p', 'x']);
    Piece::Text(z)
}

fn bool_string(b: bool) -> (r: String)
    ensures
        r@ == bool_text(b),
{
    let mut s = String::new();
    if b {
        push_str(&mut s, "true");
        proof {
            reveal_strlit("true");
        }
    } else {
        push_str(&mut s, "false");
        proof {
            reveal_strlit("false");
        }
    }
    s
}

proof fn lemma_push_view<F, C>(s: Seq<Piece<F, C>>, p: Piece<F, C>)
    ensures
        s.push(p).map_values(|q: Piece<F, C>| q@) == s.map_values(|q: Piece<F, C>| q@).push(p@),
{
    assert(s.push(p).map_values(|q: Piece<F, C>| q@) =~= s.map_values(|q: Piece<F, C>| q@).push(p@));
}

proof fn lemma_push_then_append<T>(a: Seq<T>, x: T, b: Seq<T>)
    ensures
        a.push(x) + b == a + (seq![x] + b),
{
    assert(a.push(x) + b =~= a + (seq![x] + b));
}

/// A value that holds no reference is left as it is: every character is copied.
pub proof fn law_no_reference_unchanged<F, C>(s: Seq<char>, i: int, vars: ScopeView<F, C>, globals: ScopeView<F, C>)
    requires
        0 <= i <= s.len(),
        forall|k: int| 0 <= k < s.len() ==> !starts_ref(s, k),
    ensures
        expand_from(s, i, vars, globals).len() == s.len() - i,
        forall|k: int| 0 <= k < s.len() - i ==> #[trigger] expand_from(s, i, vars, globals)[k] == PieceView::<F, C>::Char(s[i + k]),
    decreases s.len() - i,
{
    if i < s.len() {
        assert(!starts_ref(s, i));
        law_no_reference_unchanged(s, i + 1, vars, globals);
        let rest = expand_from(s, i + 1, vars, globals);
        assert(expand_from(s, i, vars, globals) == seq![PieceView::<F, C>::Char(s[i])] + rest);
        lemma_cons_len(PieceView::<F, C>::Char(s[i]), rest);
        assert forall|k: int| 0 <= k < s.len() - i implies #[trigger] expand_from(s, i, vars, globals)[k] == PieceView::<F, C>::Char(s[i + k]) by {
            lemma_cons_index(PieceView::<F, C>::Char(s[i]), rest, k);
        }
    } else {
        assert(expand_from(s, i, vars, globals) == Seq::<PieceView<F, C>>::empty());
        lemma_empty_len::<PieceView<F, C>>();
    }
}

proof fn lemma_cons_index<T>(x: T, rest: Seq<T>, k: int)
    requires
        0 <= k < rest.len() + 1,
    ensures
        (seq![x] + rest)[k] == if k == 0 { x } else { rest[k - 1] },
{
}

proof fn lemma_cons_len<T>(x: T, rest: Seq<T>)
    ensures
        (seq![x] + rest).len() == rest.len() + 1,
{
}

proof fn lemma_empty_len<T>()
    ensures
        Seq::<T>::empty().len() == 0,
{
}

/// The text of a boolean reads back as that boolean.
pub proof fn lemma_bool_text_reads_back(b: bool)
    ensures
        crate::parser::spec_bool_literal(bool_text(b)) == Some(b),
{
    let t = bool_text(b);
    assert(crate::text::trim_start_idx(t) == 0);
    assert(t.skip(0) =~= t);
    assert(crate::text::trim_end_idx(t) == t.len());
    assert(t.take(t.len() as int) =~= t);
    assert(crate::text::trim(t) == t);
    assert(t.map_values(|c: char| crate::text::ascii_lower(c)) =~= t);
    reveal_strlit("true");
    reveal_strlit("false");
    reveal_strlit("1");
    reveal_strlit("0");
    if b {
        assert(t =~= "true"@);
    } else {
        assert(t =~= "false"@);
        assert(t != "true"@ && t != "1"@);
    }
}

/// A boolean variable expands to the literal that reads back as its value:
/// a `false` variable to `false`, a `true` one to `true`, whether it is found
/// among the schema's variables or, where the schema has no variable of that
/// name, among the global ones.
pub proof fn law_bool_expands_to_its_value<F, C>(vars: ScopeView<F, C>, globals: ScopeView<F, C>, name: Seq<char>)
    ensures
        vars.bools.contains_key(name) && !vars.f32s.contains_key(name) && !vars.colors.contains_key(name)
            && !vars.strings.contains_key(name) ==> (lookup(vars, globals, name) matches PieceView::Text(t)
            && crate::parser::spec_bool_literal(t) == Some(vars.bools[name])),
        !vars.f32s.contains_key(name) && !vars.colors.contains_key(name) && !vars.strings.contains_key(name)
            && !vars.bools.contains_key(name) && globals.bools.contains_key(name) && !globals.f32s.contains_key(name)
            && !globals.colors.contains_key(name) && !globals.strings.contains_key(name) ==> (lookup(vars, globals, name) matches PieceView::Text(t)
            && crate::parser::spec_bool_literal(t) == Some(globals.bools[name])),
{
    if vars.bools.contains_key(name) {
        lemma_bool_text_reads_back(vars.bools[name]);
    }
    if globals.bools.contains_key(name) {
        lemma_bool_text_reads_back(globals.bools[name]);
    }
}

} // verus!
