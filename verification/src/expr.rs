//! Size expressions of the schema (`"(40px + 2%) - 2vh"`): tokens and syntax
//! trees. Numbers are kept as the text of their literal; reading them as
//! numbers is left to the layout code that evaluates the trees.
use vstd::prelude::*;
use crate::text::push_range;
use crate::types::SizeOp;

verus! {

/// The unit after a number.
#[derive(Debug, Clone, Copy, PartialEq, Eq, Structural)]
pub enum SizeUnit {
    Px,
    Pct,
    Vw,
    Vh,
    Deg,
}

/// A token of a size expression.
#[derive(Debug)]
pub enum Token {
    /// A number (its digits and dots) with its unit.
    Num(String, SizeUnit),
    /// A number right after a `-` that cannot be a binary minus.
    NegNum(String, SizeUnit),
    Plus,
    Minus,
    Star,
    Slash,
    LParen,
    RParen,
}

/// What a [`Token`] holds, with the number text as a character sequence.
pub ghost enum TokenView {
    Num(Seq<char>, SizeUnit),
    NegNum(Seq<char>, SizeUnit),
    Plus,
    Minus,
    Star,
    Slash,
    LParen,
    RParen,
}

impl View for Token {
    type V = TokenView;

    open spec fn view(&self) -> TokenView {
        match self {
            Token::Num(s, u) => TokenView::Num(s@, *u),
            Token::NegNum(s, u) => TokenView::NegNum(s@, *u),
            Token::Plus => TokenView::Plus,
            Token::Minus => TokenView::Minus,
            Token::Star => TokenView::Star,
            Token::Slash => TokenView::Slash,
            Token::LParen => TokenView::LParen,
            Token::RParen => TokenView::RParen,
        }
    }
}

/// `c` may appear in a number literal.
pub open spec fn is_num_char(c: char) -> bool {
    ('0' <= c && c <= '9') || c == '.'
}

/// End of the run of number characters that starts at `i`.
pub open spec fn run_end(cs: Seq<char>, i: int) -> int
    decreases cs.len() - i,
{
    if i < 0 || i >= cs.len() || !is_num_char(cs[i]) {
        i
    } else {
        run_end(cs, i + 1)
    }
}

pub proof fn lemma_run_end(cs: Seq<char>, i: int)
    requires
        0 <= i <= cs.len(),
    ensures
        i <= run_end(cs, i) <= cs.len(),
    decreases cs.len() - i,
{
    if i < cs.len() && is_num_char(cs[i]) {
        lemma_run_end(cs, i + 1);
    }
}

/// The unit written at `i` and the position after it; a number without a
/// unit is in pixels.
pub open spec fn unit_at(cs: Seq<char>, i: int) -> (SizeUnit, int) {
    if i + 2 <= cs.len() && cs[i] == 'v' && cs[i + 1] == 'w' {
        (SizeUnit::Vw, i + 2)
    } else if i + 2 <= cs.len() && cs[i] == 'v' && cs[i + 1] == 'h' {
        (SizeUnit::Vh, i + 2)
    } else if i + 2 <= cs.len() && cs[i] == 'p' && cs[i + 1] == 'x' {
        (SizeUnit::Px, i + 2)
    } else if i + 3 <= cs.len() && cs[i] == 'd' && cs[i + 1] == 'e' && cs[i + 2] == 'g' {
        (SizeUnit::Deg, i + 3)
    } else if i < cs.len() && cs[i] == '%' {
        (SizeUnit::Pct, i + 1)
    } else {
        (SizeUnit::Px, i)
    }
}

/// Reads the unit at `*i` (see [`unit_at`]) and moves `*i` past it.
pub fn parse_unit(chars: &[char], i: &mut usize) -> (u: SizeUnit)
    ensures
        (u, *final(i) as int) == unit_at(chars@, *old(i) as int),
{
    let p = *i;
    let n = chars.len();
    let left: usize = if p <= n { n - p } else { 0 };
    if left >= 2 && chars[p] == 'v' && chars[p + 1] == 'w' {
        *i = p + 2;
        SizeUnit::Vw
    } else if left >= 2 && chars[p] == 'v' && chars[p + 1] == 'h' {
        *i = p + 2;
        SizeUnit::Vh
    } else if left >= 2 && chars[p] == 'p' && chars[p + 1] == 'x' {
        *i = p + 2;
        SizeUnit::Px
    } else if left >= 3 && chars[p] == 'd' && chars[p + 1] == 'e' && chars[p + 2] == 'g' {
        *i = p + 3;
        SizeUnit::Deg
    } else if left >= 1 && chars[p] == '%' {
        *i = p + 1;
        SizeUnit::Pct
    } else {
        SizeUnit::Px
    }
}

/// The tokens of `cs[i..]`; `unary` tells whether a `-` here would be a sign
/// (nothing before it, or an operator or `(`).
pub open spec fn tokens_from(cs: Seq<char>, i: int, unary: bool) -> Seq<TokenView>
    decreases cs.len() - i,
{
    if i < 0 || i >= cs.len() {
        Seq::empty()
    } else {
        let c = cs[i];
        if c == ' ' || c == '\t' || c == '\n' || c == '\r' {
            tokens_from(cs, i + 1, unary)
        } else if c == '+' {
            seq![TokenView::Plus] + tokens_from(cs, i + 1, true)
        } else if c == '*' {
            seq![TokenView::Star] + tokens_from(cs, i + 1, true)
        } else if c == '/' {
            seq![TokenView::Slash] + tokens_from(cs, i + 1, true)
        } else if c == '(' {
            seq![TokenView::LParen] + tokens_from(cs, i + 1, true)
        } else if c == ')' {
            seq![TokenView::RParen] + tokens_from(cs, i + 1, false)
        } else if c == '-' {
            if unary && i + 1 < cs.len() && is_num_char(cs[i + 1]) {
                let e = run_end(cs, i + 1);
                let (u, j) = unit_at(cs, e);
                proof {
                    lemma_run_end(cs, i + 1);
                }
                seq![TokenView::NegNum(cs.subrange(i + 1, e), u)] + tokens_from(cs, j, false)
            } else {
                seq![TokenView::Minus] + tokens_from(cs, i + 1, true)
            }
        } else if is_num_char(c) {
            let e = run_end(cs, i);
            let (u, j) = unit_at(cs, e);
            proof {
                lemma_run_end(cs, i + 1);
            }
            seq![TokenView::Num(cs.subrange(i, e), u)] + tokens_from(cs, j, false)
        } else {
            tokens_from(cs, i + 1, unary)
        }
    }
}

fn number_end(cs: &[char], i: usize) -> (e: usize)
    requires
        i <= cs@.len(),
    ensures
        e as int == run_end(cs@, i as int),
        i <= e <= cs@.len(),
{
    let mut e = i;
    while e < cs.len() && (('0' <= cs[e] && cs[e] <= '9') || cs[e] == '.')
        invariant
            i <= e <= cs@.len(),
            run_end(cs@, e as int) == run_end(cs@, i as int),
        decreases cs@.len() - e,
    {
        e = e + 1;
    }
    e
}

fn text_of(cs: &[char], from: usize, to: usize) -> (s: String)
    requires
        from <= to <= cs@.len(),
    ensures
        s@ == cs@.subrange(from as int, to as int),
{
    let mut s = String::new();
    push_range(&mut s, cs, from, to);
    s
}

/// Splits a size expression into tokens; characters that belong to no token
/// are skipped.
pub fn tokenize(s: &str) -> (r: Vec<Token>)
    ensures
        r@.map_values(|t: Token| t@) == tokens_from(s@, 0, true),
{
    let cs = crate::text::chars_of(s);
    let mut tokens: Vec<Token> = Vec::new();
    let mut i: usize = 0;
    let mut unary = true;
    while i < cs.len()
        invariant
            i <= cs@.len(),
            cs@ == s@,
            tokens@.map_values(|t: Token| t@) + tokens_from(cs@, i as int, unary) == tokens_from(cs@, 0, true),
        decreases cs@.len() - i,
    {
        let ghost before = tokens@.map_values(|t: Token| t@);
        let ghost old_i = i as int;
        let ghost old_unary = unary;
        let c = cs[i];
        let mut pushed: Option<Token> = None;
        if c == ' ' || c == '\t' || c == '\n' || c == '\r' {
            i = i + 1;
        } else if c == '+' {
            pushed = Some(Token::Plus);
            unary = true;
            i = i + 1;
        } else if c == '*' {
            pushed = Some(Token::Star);
            unary = true;
            i = i + 1;
        } else if c == '/' {
            pushed = Some(Token::Slash);
            unary = true;
            i = i + 1;
        } else if c == '(' {
            pushed = Some(Token::LParen);
            unary = true;
            i = i + 1;
        } else if c == ')' {
            pushed = Some(Token::RParen);
            unary = false;
            i = i + 1;
        } else if c == '-' {
            if unary && i + 1 < cs.len() && (('0' <= cs[i + 1] && cs[i + 1] <= '9') || cs[i + 1] == '.') {
                let e = number_end(cs.as_slice(), i + 1);
                let text = text_of(cs.as_slice(), i + 1, e);
                let mut j = e;
                let u = parse_unit(cs.as_slice(), &mut j);
                pushed = Some(Token::NegNum(text, u));
                unary = false;
                i = j;
            } else {
                pushed = Some(Token::Minus);
                unary = true;
                i = i + 1;
            }
        } else if ('0' <= c && c <= '9') || c == '.' {
            let e = number_end(cs.as_slice(), i);
            let text = text_of(cs.as_slice(), i, e);
            let mut j = e;
            let u = parse_unit(cs.as_slice(), &mut j);
            pushed = Some(Token::Num(text, u));
            unary = false;
            i = j;
        } else {
            i = i + 1;
        }
        match pushed {
            Some(t) => {
                let ghost tv = t@;
                tokens.push(t);
                proof {
                    assert(tokens_from(cs@, old_i, old_unary) == seq![tv] + tokens_from(cs@, i as int, unary));
                    assert(tokens@.map_values(|t: Token| t@) =~= before.push(tv));
                    assert(before.push(tv) + tokens_from(cs@, i as int, unary) =~= before + (seq![tv]
                        + tokens_from(cs@, i as int, unary)));
                }
            },
            None => {},
        }
    }
    assert(tokens_from(cs@, i as int, unary) =~= Seq::<TokenView>::empty());
    assert(tokens@.map_values(|t: Token| t@) =~= tokens@.map_values(|t: Token| t@) + Seq::<TokenView>::empty());
    tokens
}

} // verus!

verus! {

/// A literal leaf of a size expression.
#[derive(Debug, Clone, Copy, PartialEq, Eq, Structural)]
pub enum SizeLeaf {
    /// Pixels from the parent origin (`40px`, or a bare number).
    Px,
    /// Pixels from the opposite side (`-20px` → parent dimension − 20).
    NegPx,
    /// Percent of the parent dimension.
    Pct,
    /// Percent of the viewport width.
    Vw,
    /// Percent of the viewport height.
    Vh,
    /// Degrees, taken as the raw value.
    Deg,
}

/// The syntax tree of a size expression; literals keep their number text.
#[derive(Debug)]
pub enum SizeAst {
    Lit(SizeLeaf, String),
    BinOp(Box<SizeAst>, SizeOp, Box<SizeAst>),
}

/// What a [`SizeAst`] holds, with literal texts as character sequences.
pub ghost enum AstView {
    Lit(SizeLeaf, Seq<char>),
    BinOp(Box<AstView>, SizeOp, Box<AstView>),
}

/// The view of a syntax tree.
pub open spec fn ast_view(a: SizeAst) -> AstView
    decreases a,
{
    match a {
        SizeAst::Lit(l, s) => AstView::Lit(l, s@),
        SizeAst::BinOp(l, op, r) => AstView::BinOp(Box::new(ast_view(*l)), op, Box::new(ast_view(*r))),
    }
}

impl View for SizeAst {
    type V = AstView;

    open spec fn view(&self) -> AstView {
        ast_view(*self)
    }
}

/// The literal `0px` that stands for a missing operand.
pub open spec fn zero_ast() -> AstView {
    AstView::Lit(SizeLeaf::Px, seq!['0'])
}

/// The leaf kind of a non-negated number in `u`.
pub open spec fn unit_leaf(u: SizeUnit) -> SizeLeaf {
    match u {
        SizeUnit::Px => SizeLeaf::Px,
        SizeUnit::Pct => SizeLeaf::Pct,
        SizeUnit::Vw => SizeLeaf::Vw,
        SizeUnit::Vh => SizeLeaf::Vh,
        SizeUnit::Deg => SizeLeaf::Deg,
    }
}

/// The tree of a negated number: pixels count from the opposite side, other
/// units are subtracted from zero.
pub open spec fn neg_ast(v: Seq<char>, u: SizeUnit) -> AstView {
    match u {
        SizeUnit::Px => AstView::Lit(SizeLeaf::NegPx, v),
        _ => AstView::BinOp(Box::new(zero_ast()), SizeOp::Sub, Box::new(AstView::Lit(unit_leaf(u), v))),
    }
}

/// `p` kept within `[lo, hi]`.
pub open spec fn clamp(p: int, lo: int, hi: int) -> int {
    if p < lo {
        lo
    } else if p > hi {
        hi
    } else {
        p
    }
}

/// A factor at `pos`: a parenthesised expression (the `)` may be missing), a
/// negated factor, a number, or — when there is none — zero, consuming nothing.
pub open spec fn p_factor(t: Seq<TokenView>, pos: int) -> (AstView, int)
    decreases t.len() - pos, 0int,
{
    if pos < 0 || pos >= t.len() {
        (zero_ast(), pos)
    } else {
        match t[pos] {
            TokenView::LParen => {
                let (e, p0) = p_expr(t, pos + 1);
                let p = clamp(p0, pos + 1, t.len() as int);
                if p < t.len() && t[p] is RParen {
                    (e, p + 1)
                } else {
                    (e, p)
                }
            },
            TokenView::Minus => {
                let (inner, p) = p_factor(t, pos + 1);
                (AstView::BinOp(Box::new(zero_ast()), SizeOp::Sub, Box::new(inner)), p)
            },
            TokenView::Plus => p_factor(t, pos + 1),
            TokenView::NegNum(v, u) => (neg_ast(v, u), pos + 1),
            TokenView::Num(v, u) => (AstView::Lit(unit_leaf(u), v), pos + 1),
            _ => (zero_ast(), pos),
        }
    }
}

/// `*` and `/` factors following the term `left` at `pos`.
pub open spec fn term_tail(t: Seq<TokenView>, left: AstView, pos: int) -> (AstView, int)
    decreases t.len() - pos, 1int,
{
    if 0 <= pos < t.len() && (t[pos] is Star || t[pos] is Slash) {
        let op = if t[pos] is Star { SizeOp::Mul } else { SizeOp::Div };
        let (r, p) = p_factor(t, pos + 1);
        term_tail(t, AstView::BinOp(Box::new(left), op, Box::new(r)), clamp(p, pos + 1, t.len() as int))
    } else {
        (left, pos)
    }
}

/// A term at `pos`: factors joined by `*` and `/`, left-associative.
pub open spec fn p_term(t: Seq<TokenView>, pos: int) -> (AstView, int)
    decreases t.len() - pos, 2int,
{
    let (l, p) = p_factor(t, pos);
    if 0 <= pos <= t.len() {
        term_tail(t, l, clamp(p, pos, t.len() as int))
    } else {
        (l, p)
    }
}

/// `+` and `-` terms following the expression `left` at `pos`.
pub open spec fn expr_tail(t: Seq<TokenView>, left: AstView, pos: int) -> (AstView, int)
    decreases t.len() - pos, 3int,
{
    if 0 <= pos < t.len() && (t[pos] is Plus || t[pos] is Minus) {
        let op = if t[pos] is Plus { SizeOp::Add } else { SizeOp::Sub };
        let (r, p) = p_term(t, pos + 1);
        expr_tail(t, AstView::BinOp(Box::new(left), op, Box::new(r)), clamp(p, pos + 1, t.len() as int))
    } else {
        (left, pos)
    }
}

/// An expression at `pos`: terms joined by `+` and `-`, left-associative.
pub open spec fn p_expr(t: Seq<TokenView>, pos: int) -> (AstView, int)
    decreases t.len() - pos, 4int,
{
    let (l, p) = p_term(t, pos);
    if 0 <= pos <= t.len() {
        expr_tail(t, l, clamp(p, pos, t.len() as int))
    } else {
        (l, p)
    }
}

fn zero_node() -> (r: SizeAst)
    ensures
        r@ == zero_ast(),
{
    let mut s = String::new();
    crate::text::push_char(&mut s, '0');
    SizeAst::Lit(SizeLeaf::Px, s)
}

fn copy_text(s: &String) -> (r: String)
    ensures
        r@ == s@,
{
    s.clone()
}

fn leaf_of(u: SizeUnit) -> (l: SizeLeaf)
    ensures
        l == unit_leaf(u),
{
    match u {
        SizeUnit::Px => SizeLeaf::Px,
        SizeUnit::Pct => SizeLeaf::Pct,
        SizeUnit::Vw => SizeLeaf::Vw,
        SizeUnit::Vh => SizeLeaf::Vh,
        SizeUnit::Deg => SizeLeaf::Deg,
    }
}

fn parse_factor(tokens: &[Token], pos: usize) -> (r: (SizeAst, usize))
    requires
        pos <= tokens@.len(),
    ensures
        (r.0@, r.1 as int) == p_factor(tokens@.map_values(|t: Token| t@), pos as int),
        pos <= r.1 <= tokens@.len(),
    decreases tokens@.len() - pos, 0int,
{
    let ghost tv = tokens@.map_values(|t: Token| t@);
    if pos >= tokens.len() {
        return (zero_node(), pos);
    }
    assert(tv[pos as int] == tokens@[pos as int]@);
    match &tokens[pos] {
        Token::LParen => {
            let (e, p) = parse_expr(tokens, pos + 1);
            if p < tokens.len() && matches!(tokens[p], Token::RParen) {
                assert(tv[p as int] == tokens@[p as int]@);
                (e, p + 1)
            } else {
                proof {
                    if p < tokens.len() {
                        assert(tv[p as int] == tokens@[p as int]@);
                    }
                }
                (e, p)
            }
        },
        Token::Minus => {
            let (inner, p) = parse_factor(tokens, pos + 1);
            let node = SizeAst::BinOp(Box::new(zero_node()), SizeOp::Sub, Box::new(inner));
            assert(node@ == AstView::BinOp(Box::new(zero_ast()), SizeOp::Sub, Box::new(inner@)));
            (node, p)
        },
        Token::Plus => parse_factor(tokens, pos + 1),
        Token::NegNum(v, u) => {
            let text = copy_text(v);
            let node = match u {
                SizeUnit::Px => SizeAst::Lit(SizeLeaf::NegPx, text),
                _ => {
                    let lit = SizeAst::Lit(leaf_of(*u), text);
                    assert(lit@ == AstView::Lit(unit_leaf(*u), v@));
                    SizeAst::BinOp(Box::new(zero_node()), SizeOp::Sub, Box::new(lit))
                },
            };
            assert(node@ == neg_ast(v@, *u));
            (node, pos + 1)
        },
        Token::Num(v, u) => {
            let node = SizeAst::Lit(leaf_of(*u), copy_text(v));
            assert(node@ == AstView::Lit(unit_leaf(*u), v@));
            (node, pos + 1)
        },
        _ => (zero_node(), pos),
    }
}

fn term_rest(tokens: &[Token], left: SizeAst, pos: usize) -> (r: (SizeAst, usize))
    requires
        pos <= tokens@.len(),
    ensures
        (r.0@, r.1 as int) == term_tail(tokens@.map_values(|t: Token| t@), left@, pos as int),
        pos <= r.1 <= tokens@.len(),
    decreases tokens@.len() - pos, 1int,
{
    let ghost tv = tokens@.map_values(|t: Token| t@);
    if pos < tokens.len() {
        assert(tv[pos as int] == tokens@[pos as int]@);
        let op = match tokens[pos] {
            Token::Star => Some(SizeOp::Mul),
            Token::Slash => Some(SizeOp::Div),
            _ => None,
        };
        match op {
            Some(op) => {
                let (r, p) = parse_factor(tokens, pos + 1);
                term_rest(tokens, SizeAst::BinOp(Box::new(left), op, Box::new(r)), p)
            },
            None => (left, pos),
        }
    } else {
        (left, pos)
    }
}

fn parse_term(tokens: &[Token], pos: usize) -> (r: (SizeAst, usize))
    requires
        pos <= tokens@.len(),
    ensures
        (r.0@, r.1 as int) == p_term(tokens@.map_values(|t: Token| t@), pos as int),
        pos <= r.1 <= tokens@.len(),
    decreases tokens@.len() - pos, 2int,
{
    let (l, p) = parse_factor(tokens, pos);
    term_rest(tokens, l, p)
}

fn expr_rest(tokens: &[Token], left: SizeAst, pos: usize) -> (r: (SizeAst, usize))
    requires
        pos <= tokens@.len(),
    ensures
        (r.0@, r.1 as int) == expr_tail(tokens@.map_values(|t: Token| t@), left@, pos as int),
        pos <= r.1 <= tokens@.len(),
    decreases tokens@.len() - pos, 3int,
{
    let ghost tv = tokens@.map_values(|t: Token| t@);
    if pos < tokens.len() {
        assert(tv[pos as int] == tokens@[pos as int]@);
        let op = match tokens[pos] {
            Token::Plus => Some(SizeOp::Add),
            Token::Minus => Some(SizeOp::Sub),
            _ => None,
        };
        match op {
            Some(op) => {
                let (r, p) = parse_term(tokens, pos + 1);
                expr_rest(tokens, SizeAst::BinOp(Box::new(left), op, Box::new(r)), p)
            },
            None => (left, pos),
        }
    } else {
        (left, pos)
    }
}

/// Parses the tokens from `pos` as an expression; returns the tree and the
/// position after it.
pub fn parse_expr(tokens: &[Token], pos: usize) -> (r: (SizeAst, usize))
    requires
        pos <= tokens@.len(),
    ensures
        (r.0@, r.1 as int) == p_expr(tokens@.map_values(|t: Token| t@), pos as int),
        pos <= r.1 <= tokens@.len(),
    decreases tokens@.len() - pos, 4int,
{
    let (l, p) = parse_term(tokens, pos);
    expr_rest(tokens, l, p)
}

/// The tree of a size expression string.
pub open spec fn spec_size_expr(s: Seq<char>) -> AstView {
    p_expr(tokens_from(s, 0, true), 0).0
}

/// Parses a size expression (`"(40px + 2%) - 2vh"`) into its tree.
pub fn parse_size_expr(s: &str) -> (r: SizeAst)
    ensures
        r@ == spec_size_expr(s@),
{
    let tokens = tokenize(s);
    let (e, _) = parse_expr(tokens.as_slice(), 0);
    e
}

/// The operator that an operator token stands for.
pub open spec fn token_op(o: TokenView) -> SizeOp {
    match o {
        TokenView::Plus => SizeOp::Add,
        TokenView::Minus => SizeOp::Sub,
        TokenView::Star => SizeOp::Mul,
        _ => SizeOp::Div,
    }
}

/// `o` is `+` or `-`.
pub open spec fn is_additive(o: TokenView) -> bool {
    o is Plus || o is Minus
}

/// A number token as a leaf of the tree.
pub open spec fn num_leaf(v: Seq<char>, u: SizeUnit) -> AstView {
    AstView::Lit(unit_leaf(u), v)
}

/// `x o y`, as a node of the tree.
pub open spec fn node(x: AstView, o: TokenView, y: AstView) -> AstView {
    AstView::BinOp(Box::new(x), token_op(o), Box::new(y))
}

/// Two operators over three numbers, `a o1 b o2 c`, group as arithmetic does:
/// `*` and `/` bind tighter than `+` and `-`, and operators of the same
/// strength group from the left (`a - b - c` is `(a - b) - c`, so the right
/// operand of `-` is a single term). The whole input is read.
pub proof fn law_precedence_and_associativity(
    a: Seq<char>,
    ua: SizeUnit,
    o1: TokenView,
    b: Seq<char>,
    ub: SizeUnit,
    o2: TokenView,
    c: Seq<char>,
    uc: SizeUnit,
)
    requires
        o1 is Plus || o1 is Minus || o1 is Star || o1 is Slash,
        o2 is Plus || o2 is Minus || o2 is Star || o2 is Slash,
    ensures
        ({
            let t = seq![TokenView::Num(a, ua), o1, TokenView::Num(b, ub), o2, TokenView::Num(c, uc)];
            let (la, lb, lc) = (num_leaf(a, ua), num_leaf(b, ub), num_leaf(c, uc));
            p_expr(t, 0) == (if is_additive(o1) && !is_additive(o2) {
                node(la, o1, node(lb, o2, lc))
            } else {
                node(node(la, o1, lb), o2, lc)
            }, 5int)
        }),
{
    let t = seq![TokenView::Num(a, ua), o1, TokenView::Num(b, ub), o2, TokenView::Num(c, uc)];
    let (la, lb, lc) = (num_leaf(a, ua), num_leaf(b, ub), num_leaf(c, uc));
    assert(p_factor(t, 0) == (la, 1int));
    assert(p_factor(t, 2) == (lb, 3int));
    assert(p_factor(t, 4) == (lc, 5int));
    assert(term_tail(t, lc, 5) == (lc, 5int));
    assert(p_term(t, 4) == (lc, 5int));
    if is_additive(o2) {
        assert(term_tail(t, lb, 3) == (lb, 3int));
        assert(p_term(t, 2) == (lb, 3int));
    } else {
        assert(term_tail(t, node(lb, o2, lc), 5) == (node(lb, o2, lc), 5int));
        assert(term_tail(t, lb, 3) == (node(lb, o2, lc), 5int));
        assert(p_term(t, 2) == (node(lb, o2, lc), 5int));
        assert(term_tail(t, node(la, o1, lb), 3) == term_tail(t, node(node(la, o1, lb), o2, lc), 5));
    }
    if is_additive(o1) {
        assert(term_tail(t, la, 1) == (la, 1int));
        assert(p_term(t, 0) == (la, 1int));
        if is_additive(o2) {
            let x = node(la, o1, lb);
            assert(expr_tail(t, node(x, o2, lc), 5) == (node(x, o2, lc), 5int));
            assert(expr_tail(t, x, 3) == (node(x, o2, lc), 5int));
        } else {
            let x = node(la, o1, node(lb, o2, lc));
            assert(expr_tail(t, x, 5) == (x, 5int));
        }
        assert(expr_tail(t, la, 1) == p_expr(t, 0));
    } else {
        let x = node(la, o1, lb);
        assert(term_tail(t, x, 3) == if is_additive(o2) { (x, 3int) } else { (node(x, o2, lc), 5int) });
        assert(term_tail(t, la, 1) == term_tail(t, x, 3));
        assert(p_term(t, 0) == term_tail(t, x, 3));
        if is_additive(o2) {
            assert(expr_tail(t, node(x, o2, lc), 5) == (node(x, o2, lc), 5int));
            assert(expr_tail(t, x, 3) == (node(x, o2, lc), 5int));
        } else {
            assert(expr_tail(t, node(x, o2, lc), 5) == (node(x, o2, lc), 5int));
        }
    }
}

} // verus!
