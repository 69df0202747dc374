//! JSONC support: comment stripping and comment bookkeeping.
use vstd::prelude::*;
use crate::text::{
    chars_of, line_ranges, lines_of, matches_at, push_char, push_range, push_str, trim, trim_bounds,
};

verus! {

/// Where the scanner of [`Jsonc::strip_jsonc_comments`] stands.
#[derive(PartialEq, Eq, Structural, Clone, Copy, Debug)]
pub enum ScanState {
    /// Outside strings and comments.
    Code,
    /// Inside a string literal.
    Str,
    /// Inside a string literal, right after a backslash.
    Esc,
    /// Inside a `//` comment.
    Comment,
    /// Right after the `/` that opens a `/* */` comment, at its `*`.
    BlockOpen,
    /// Inside a `/* */` comment.
    Block,
    /// At the `/` that closes a `/* */` comment.
    BlockClose,
}

/// The text that the comment stripper emits for `s`, starting in state `st`.
pub open spec fn strip_spec(s: Seq<char>, st: ScanState) -> Seq<char>
    decreases s.len(),
{
    if s.len() == 0 {
        Seq::empty()
    } else {
        let c = s[0];
        let t = s.drop_first();
        match st {
            ScanState::Esc => seq![c] + strip_spec(t, ScanState::Str),
            ScanState::Str => if c == '\\' {
                seq![c] + strip_spec(t, ScanState::Esc)
            } else if c == '"' {
                seq![c] + strip_spec(t, ScanState::Code)
            } else {
                seq![c] + strip_spec(t, ScanState::Str)
            },
            ScanState::Comment => if c == '\n' {
                seq!['\n'] + strip_spec(t, ScanState::Code)
            } else {
                strip_spec(t, ScanState::Comment)
            },
            ScanState::BlockOpen => strip_spec(t, ScanState::Block),
            ScanState::Block => if c == '*' && t.len() > 0 && t[0] == '/' {
                strip_spec(t, ScanState::BlockClose)
            } else if c == '\n' {
                seq!['\n'] + strip_spec(t, ScanState::Block)
            } else {
                strip_spec(t, ScanState::Block)
            },
            ScanState::BlockClose => strip_spec(t, ScanState::Code),
            ScanState::Code => if c == '"' {
                seq![c] + strip_spec(t, ScanState::Str)
            } else if c == '/' && t.len() > 0 && t[0] == '/' {
                strip_spec(t, ScanState::Comment)
            } else if c == '/' && t.len() > 0 && t[0] == '*' {
                strip_spec(t, ScanState::BlockOpen)
            } else {
                seq![c] + strip_spec(t, ScanState::Code)
            },
        }
    }
}

/// JSON text of a JSONC document: outside string literals, `//` comments are
/// removed up to (not including) the end of their line, and `/* */` comments
/// are removed but for the line breaks inside them, so that the text keeps
/// its lines. A block comment that is never closed runs to the end.
pub open spec fn spec_strip_jsonc(s: Seq<char>) -> Seq<char> {
    strip_spec(s, ScanState::Code)
}

/// The state in which a second pass over the output of a pass started in `st` begins.
pub open spec fn replay_state(st: ScanState) -> ScanState {
    match st {
        ScanState::Esc => ScanState::Esc,
        ScanState::Str => ScanState::Str,
        _ => ScanState::Code,
    }
}

proof fn lemma_strip_first_code(t: Seq<char>)
    requires
        t.len() > 0,
        t[0] != '/',
    ensures
        strip_spec(t, ScanState::Code).len() > 0,
        strip_spec(t, ScanState::Code)[0] == t[0],
{
}

proof fn lemma_strip_idempotent_from(s: Seq<char>, st: ScanState)
    ensures
        strip_spec(strip_spec(s, st), replay_state(st)) == strip_spec(s, st),
    decreases s.len(),
{
    if s.len() == 0 {
        return;
    }
    let c = s[0];
    let t = s.drop_first();
    let out = strip_spec(s, st);
    match st {
        ScanState::Esc => {
            lemma_strip_idempotent_from(t, ScanState::Str);
            let r = strip_spec(t, ScanState::Str);
            assert((seq![c] + r).drop_first() =~= r);
        },
        ScanState::Str => {
            let nst = if c == '\\' {
                ScanState::Esc
            } else if c == '"' {
                ScanState::Code
            } else {
                ScanState::Str
            };
            lemma_strip_idempotent_from(t, nst);
            let r = strip_spec(t, nst);
            assert((seq![c] + r).drop_first() =~= r);
        },
        ScanState::Comment => {
            if c == '\n' {
                lemma_strip_idempotent_from(t, ScanState::Code);
                let r = strip_spec(t, ScanState::Code);
                assert((seq!['\n'] + r).drop_first() =~= r);
                if r.len() > 0 {
                    assert((seq!['\n'] + r)[0] == '\n');
                }
            } else {
                lemma_strip_idempotent_from(t, ScanState::Comment);
            }
        },
        ScanState::BlockOpen => {
            lemma_strip_idempotent_from(t, ScanState::Block);
        },
        ScanState::BlockClose => {
            lemma_strip_idempotent_from(t, ScanState::Code);
        },
        ScanState::Block => {
            if c == '*' && t.len() > 0 && t[0] == '/' {
                lemma_strip_idempotent_from(t, ScanState::BlockClose);
            } else if c == '\n' {
                lemma_strip_idempotent_from(t, ScanState::Block);
                let r = strip_spec(t, ScanState::Block);
                assert((seq!['\n'] + r).drop_first() =~= r);
            } else {
                lemma_strip_idempotent_from(t, ScanState::Block);
            }
        },
        ScanState::Code => {
            if c == '"' {
                lemma_strip_idempotent_from(t, ScanState::Str);
                let r = strip_spec(t, ScanState::Str);
                assert((seq![c] + r).drop_first() =~= r);
            } else if c == '/' && t.len() > 0 && t[0] == '/' {
                lemma_strip_idempotent_from(t, ScanState::Comment);
            } else if c == '/' && t.len() > 0 && t[0] == '*' {
                lemma_strip_idempotent_from(t, ScanState::BlockOpen);
            } else {
                lemma_strip_idempotent_from(t, ScanState::Code);
                let r = strip_spec(t, ScanState::Code);
                assert((seq![c] + r).drop_first() =~= r);
                if c == '/' && r.len() > 0 {
                    lemma_strip_first_code(t);
                    assert((seq![c] + r).drop_first()[0] != '/');
                    assert((seq![c] + r).drop_first()[0] != '*');
                }
            }
        },
    }
}

/// Stripping comments twice gives what stripping once gives: the output of
/// [`Jsonc::strip_jsonc_comments`] holds no comment left to strip.
pub proof fn law_strip_idempotent(s: Seq<char>)
    ensures
        spec_strip_jsonc(spec_strip_jsonc(s)) == spec_strip_jsonc(s),
{
    lemma_strip_idempotent_from(s, ScanState::Code);
}

/// Text without any `/` passes through the comment stripper unchanged.
pub proof fn law_strip_without_slash(s: Seq<char>, st: ScanState)
    requires
        forall|i: int| 0 <= i < s.len() ==> s[i] != '/',
        st == ScanState::Code || st == ScanState::Str || st == ScanState::Esc,
    ensures
        strip_spec(s, st) == s,
    decreases s.len(),
{
    if s.len() > 0 {
        let t = s.drop_first();
        assert forall|i: int| 0 <= i < t.len() implies t[i] != '/' by {
            assert(t[i] == s[i + 1]);
        }
        let c = s[0];
        let nst = match st {
            ScanState::Esc => ScanState::Str,
            ScanState::Str => if c == '\\' {
                ScanState::Esc
            } else if c == '"' {
                ScanState::Code
            } else {
                ScanState::Str
            },
            _ => if c == '"' {
                ScanState::Str
            } else {
                ScanState::Code
            },
        };
        law_strip_without_slash(t, nst);
        assert(seq![c] + t =~= s);
    }
}

/// Anchor of a comment: the code it belongs to.
#[derive(Clone, Debug)]
pub enum CommentAnchor {
    /// Code to the left of the comment on its own line.
    Left(String),
    /// The (trimmed) line below the comment.
    Below(String),
    /// The (trimmed) line above the comment.
    Above(String),
}

/// A comment taken out of a JSONC file.
#[derive(Clone, Debug)]
pub struct JsoncComment {
    /// Zero-based line number of the comment.
    pub line: usize,
    /// The comment text, without `//` and surrounding white space.
    pub comment_content: String,
    /// What the comment is attached to.
    pub anchor: CommentAnchor,
}

/// What a [`CommentAnchor`] says, over character sequences.
pub ghost enum AnchorView {
    Left(Seq<char>),
    Below(Seq<char>),
    Above(Seq<char>),
}

impl View for CommentAnchor {
    type V = AnchorView;

    open spec fn view(&self) -> AnchorView {
        match self {
            CommentAnchor::Left(s) => AnchorView::Left(s@),
            CommentAnchor::Below(s) => AnchorView::Below(s@),
            CommentAnchor::Above(s) => AnchorView::Above(s@),
        }
    }
}

/// What a [`JsoncComment`] says, over character sequences.
pub ghost struct CommentView {
    pub line: nat,
    pub content: Seq<char>,
    pub anchor: AnchorView,
}

impl View for JsoncComment {
    type V = CommentView;

    open spec fn view(&self) -> CommentView {
        CommentView { line: self.line as nat, content: self.comment_content@, anchor: self.anchor@ }
    }
}

/// Position of the first `"//"` in `l` (`str::find`), or `l.len()`.
pub open spec fn find_pair(l: Seq<char>) -> int
    decreases l.len(),
{
    if l.len() < 2 {
        l.len() as int
    } else if l[0] == '/' && l[1] == '/' {
        0
    } else {
        1 + find_pair(l.drop_first())
    }
}

/// `s` without its leading run of `"//"` (`str::trim_start_matches("//")`).
pub open spec fn strip_slashes(s: Seq<char>) -> Seq<char>
    decreases s.len(),
{
    if s.len() >= 2 && s[0] == '/' && s[1] == '/' {
        strip_slashes(s.skip(2))
    } else {
        s
    }
}

/// The anchor of the comment on line `i` of `lines`, if the comment is kept.
pub open spec fn line_anchor(lines: Seq<Seq<char>>, i: int) -> Option<AnchorView> {
    let l = lines[i];
    let left = trim(l.take(find_pair(l)));
    if left.len() > 0 {
        Some(AnchorView::Left(left))
    } else if i + 1 < lines.len() {
        let below = trim(lines[i + 1]);
        if below.len() > 0 {
            Some(AnchorView::Below(below))
        } else if i > 0 {
            Some(AnchorView::Above(trim(lines[i - 1])))
        } else {
            None
        }
    } else if i > 0 {
        Some(AnchorView::Above(trim(lines[i - 1])))
    } else {
        None
    }
}

/// What comment extraction emits for line `i`: the line itself when it has no
/// `"//"`, the code left of the comment when the comment is kept, nothing else.
pub open spec fn line_output(lines: Seq<Seq<char>>, i: int) -> Seq<char> {
    let l = lines[i];
    let k = find_pair(l);
    if k >= l.len() {
        l.push('\n')
    } else if line_anchor(lines, i) is Some {
        l.take(k).push('\n')
    } else {
        Seq::empty()
    }
}

/// The comment recorded for line `i`, if any.
pub open spec fn line_comment(lines: Seq<Seq<char>>, i: int) -> Option<CommentView> {
    let l = lines[i];
    let k = find_pair(l);
    if k < l.len() && line_anchor(lines, i) is Some {
        Some(
            CommentView {
                line: i as nat,
                content: trim(strip_slashes(l.skip(k))),
                anchor: line_anchor(lines, i)->0,
            },
        )
    } else {
        None
    }
}

/// Output of comment extraction over the first `n` lines.
pub open spec fn extract_output(lines: Seq<Seq<char>>, n: int) -> Seq<char>
    decreases n,
{
    if n <= 0 {
        Seq::empty()
    } else {
        extract_output(lines, n - 1) + line_output(lines, n - 1)
    }
}

/// Comments found by comment extraction over the first `n` lines, in line order.
pub open spec fn extract_found(lines: Seq<Seq<char>>, n: int) -> Seq<CommentView>
    decreases n,
{
    if n <= 0 {
        Seq::empty()
    } else {
        match line_comment(lines, n - 1) {
            Some(c) => extract_found(lines, n - 1).push(c),
            None => extract_found(lines, n - 1),
        }
    }
}

proof fn lemma_find_pair(l: Seq<char>)
    ensures
        0 <= find_pair(l) <= l.len(),
        find_pair(l) < l.len() ==> find_pair(l) + 1 < l.len() && l[find_pair(l)] == '/' && l[
            find_pair(l) + 1] == '/',
        forall|j: int| 0 <= j < find_pair(l) && j + 1 < l.len() ==> !(#[trigger] l[j] == '/' && l[j + 1] == '/'),
    decreases l.len(),
{
    if l.len() >= 2 && !(l[0] == '/' && l[1] == '/') {
        let t = l.drop_first();
        lemma_find_pair(t);
        assert forall|j: int| 0 <= j < find_pair(l) && j + 1 < l.len() implies !(#[trigger] l[j] == '/' && l[j + 1] == '/') by {
            if j > 0 {
                assert(l[j] == t[j - 1] && l[j + 1] == t[j]);
            }
        }
    }
}

proof fn lemma_find_pair_unique(l: Seq<char>, p: int)
    requires
        0 <= p <= l.len(),
        p < l.len() ==> p + 1 < l.len() && l[p] == '/' && l[p + 1] == '/',
        p == l.len() ==> forall|j: int| 0 <= j && j + 1 < l.len() ==> !(#[trigger] l[j] == '/' && l[j + 1] == '/'),
        forall|j: int| 0 <= j < p && j + 1 < l.len() ==> !(#[trigger] l[j] == '/' && l[j + 1] == '/'),
    ensures
        find_pair(l) == p,
{
    lemma_find_pair(l);
    let q = find_pair(l);
    if q < p {
        assert(l[q] == '/' && l[q + 1] == '/');
    } else if q > p {
        assert(l[p] == '/' && l[p + 1] == '/');
    }
}

/// First `"//"` in `cs[from..to]`: its position, or `to`.
fn find_pair_in(cs: &[char], from: usize, to: usize) -> (p: usize)
    requires
        from <= to <= cs@.len(),
    ensures
        from <= p <= to,
        p - from == find_pair(cs@.subrange(from as int, to as int)),
{
    let ghost l = cs@.subrange(from as int, to as int);
    let mut p = from;
    while to - p > 1 && !(cs[p] == '/' && cs[p + 1] == '/')
        invariant
            from <= p <= to <= cs@.len(),
            forall|j: int| from <= j < p && j + 1 < to ==> !(#[trigger] cs@[j] == '/' && cs@[j + 1] == '/'),
        decreases to - p,
    {
        p = p + 1;
    }
    let r = if to - p > 1 { p } else { to };
    proof {
        assert forall|j: int| 0 <= j < r - from && j + 1 < l.len() implies !(#[trigger] l[j] == '/' && l[j + 1] == '/') by {
            assert(l[j] == cs@[from + j] && l[j + 1] == cs@[from + j + 1]);
        }
        if r < to {
            assert(l[r - from] == cs@[r as int] && l[r - from + 1] == cs@[r + 1]);
        }
        lemma_find_pair_unique(l, r - from);
    }
    r
}

/// Start of `strip_slashes(cs[from..to])` inside `cs`.
fn skip_slashes(cs: &[char], from: usize, to: usize) -> (j: usize)
    requires
        from <= to <= cs@.len(),
    ensures
        from <= j <= to,
        cs@.subrange(j as int, to as int) == strip_slashes(cs@.subrange(from as int, to as int)),
{
    let mut j = from;
    while to - j > 1 && cs[j] == '/' && cs[j + 1] == '/'
        invariant
            from <= j <= to <= cs@.len(),
            strip_slashes(cs@.subrange(j as int, to as int)) == strip_slashes(
                cs@.subrange(from as int, to as int),
            ),
        decreases to - j,
    {
        assert(cs@.subrange(j as int, to as int).skip(2) =~= cs@.subrange(j + 2, to as int));
        j = j + 2;
    }
    j
}

fn string_range(cs: &[char], from: usize, to: usize) -> (s: String)
    requires
        from <= to <= cs@.len(),
    ensures
        s@ == cs@.subrange(from as int, to as int),
{
    let mut s = String::new();
    push_range(&mut s, cs, from, to);
    s
}

/// Store of the comments of JSONC files, keyed by file path.
pub struct Jsonc {
    comments: Vec<(String, Vec<JsoncComment>)>,
}

impl Jsonc {
    /// No path has two entries.
    #[verifier::type_invariant]
    closed spec fn keys_distinct(self) -> bool {
        forall|i: int, j: int|
            0 <= i < j < self.comments@.len() ==> #[trigger] self.comments@[i].0@ != #[trigger] self.comments@[j].0@
    }

    /// The comments recorded for `path`, oldest first.
    pub closed spec fn comments_of(self, path: Seq<char>) -> Seq<CommentView> {
        if exists|i: int| 0 <= i < self.comments@.len() && #[trigger] self.comments@[i].0@ == path {
            let i = choose|i: int| 0 <= i < self.comments@.len() && #[trigger] self.comments@[i].0@ == path;
            self.comments@[i].1@.map_values(|c: JsoncComment| c@)
        } else {
            Seq::empty()
        }
    }

    proof fn lemma_comments_of_at(self, i: int)
        requires
            self.keys_distinct(),
            0 <= i < self.comments@.len(),
        ensures
            self.comments_of(self.comments@[i].0@) == self.comments@[i].1@.map_values(|c: JsoncComment| c@),
    {
        let p = self.comments@[i].0@;
        assert(exists|i: int| 0 <= i < self.comments@.len() && #[trigger] self.comments@[i].0@ == p);
        let j = choose|j: int| 0 <= j < self.comments@.len() && #[trigger] self.comments@[j].0@ == p;
        if j != i {
            if j < i {
                assert(self.comments@[j].0@ != self.comments@[i].0@);
            } else {
                assert(self.comments@[i].0@ != self.comments@[j].0@);
            }
        }
    }

    /// An empty store.
    pub fn init() -> (r: Self)
        ensures
            forall|p: Seq<char>| #[trigger] r.comments_of(p) == Seq::<CommentView>::empty(),
    {
        Jsonc { comments: Vec::new() }
    }

    /// Index of the entry of `path`, if there is one.
    fn entry_index(&self, path: &String) -> (r: Option<usize>)
        ensures
            r matches Some(i) ==> i < self.comments@.len() && self.comments@[i as int].0@ == path@,
            r is None ==> forall|i: int| 0 <= i < self.comments@.len() ==> #[trigger] self.comments@[i].0@ != path@,
    {
        let mut i: usize = 0;
        while i < self.comments.len()
            invariant
                i <= self.comments@.len(),
                forall|k: int| 0 <= k < i ==> #[trigger] self.comments@[k].0@ != path@,
            decreases self.comments@.len() - i,
        {
            if self.comments[i].0 == *path {
                return Some(i);
            }
            i = i + 1;
        }
        None
    }

    /// Takes the comments out of a JSONC text: returns the text without the
    /// comments that could be anchored, and records those comments under `path`.
    ///
    /// A line with `"//"` whose comment has no anchor (no code on its left, no
    /// non-empty line below and no line above) is left out of the output.
    pub fn extract_comments(&mut self, path: &str, text: &str) -> (out: String)
        ensures
            out@ == extract_output(lines_of(text@), lines_of(text@).len() as int),
            final(self).comments_of(path@) == old(self).comments_of(path@) + extract_found(
                lines_of(text@),
                lines_of(text@).len() as int,
            ),
            forall|p: Seq<char>| p != path@ ==> #[trigger] final(self).comments_of(p) == old(self).comments_of(p),
    {
        let cs = chars_of(text);
        let ranges = line_ranges(cs.as_slice());
        let ghost lines = lines_of(text@);
        let n = ranges.len();
        let mut out = String::new();
        let mut found: Vec<JsoncComment> = Vec::new();
        let mut i: usize = 0;
        while i < n
            invariant
                n == ranges@.len() == lines.len(),
                lines == lines_of(cs@),
                i <= n,
                forall|j: int| 0 <= j < n ==> {
                    &&& (#[trigger] ranges@[j]).0 <= ranges@[j].1 <= cs@.len()
                    &&& cs@.subrange(ranges@[j].0 as int, ranges@[j].1 as int) == lines[j]
                },
                out@ == extract_output(lines, i as int),
                found@.map_values(|c: JsoncComment| c@) == extract_found(lines, i as int),
            decreases n - i,
        {
            let (a, b) = ranges[i];
            let ghost l = lines[i as int];
            let k = find_pair_in(cs.as_slice(), a, b);
            let ghost old_found = found@;
            if k == b {
                push_range(&mut out, cs.as_slice(), a, b);
                push_char(&mut out, '\n');
            } else {
                proof {
                    assert(l.take(k - a) =~= cs@.subrange(a as int, k as int));
                }
                let (lo, hi) = trim_bounds(cs.as_slice(), a, k);
                let anchor: Option<CommentAnchor> = if lo < hi {
                    Some(CommentAnchor::Left(string_range(cs.as_slice(), lo, hi)))
                } else if i + 1 < n {
                    let (na, nb) = ranges[i + 1];
                    let (bl, bh) = trim_bounds(cs.as_slice(), na, nb);
                    if bl < bh {
                        Some(CommentAnchor::Below(string_range(cs.as_slice(), bl, bh)))
                    } else if i > 0 {
                        let (pa, pb) = ranges[i - 1];
                        let (al, ah) = trim_bounds(cs.as_slice(), pa, pb);
                        Some(CommentAnchor::Above(string_range(cs.as_slice(), al, ah)))
                    } else {
                        None
                    }
                } else if i > 0 {
                    let (pa, pb) = ranges[i - 1];
                    let (al, ah) = trim_bounds(cs.as_slice(), pa, pb);
                    Some(CommentAnchor::Above(string_range(cs.as_slice(), al, ah)))
                } else {
                    None
                };
                proof {
                    assert(anchor is Some <==> line_anchor(lines, i as int) is Some);
                    assert(anchor matches Some(x) ==> x@ == line_anchor(lines, i as int)->0);
                }
                match anchor {
                    Some(anchor) => {
                        let j = skip_slashes(cs.as_slice(), k, b);
                        let (cl, ch) = trim_bounds(cs.as_slice(), j, b);
                        proof {
                            assert(l.skip(k - a) =~= cs@.subrange(k as int, b as int));
                        }
                        found.push(
                            JsoncComment {
                                line: i,
                                comment_content: string_range(cs.as_slice(), cl, ch),
                                anchor,
                            },
                        );
                        push_range(&mut out, cs.as_slice(), a, k);
                        push_char(&mut out, '\n');
                    },
                    None => {},
                }
            }
            proof {
                let f = |c: JsoncComment| c@;
                if found@.len() > old_found.len() {
                    assert(found@.map_values(f) =~= old_found.map_values(f).push(found@.last()@));
                } else {
                    assert(found@ == old_found);
                }
            }
            i = i + 1;
        }
        self.record(path, found);
        out
    }

    /// Appends `found` to the comments recorded for `path`.
    fn record(&mut self, path: &str, found: Vec<JsoncComment>)
        ensures
            final(self).comments_of(path@) == old(self).comments_of(path@) + found@.map_values(
                |c: JsoncComment| c@,
            ),
            forall|p: Seq<char>| p != path@ ==> #[trigger] final(self).comments_of(p) == old(self).comments_of(p),
    {
        proof {
            use_type_invariant(&*self);
        }
        let key = String::from_str(path);
        let ghost found_before = found;
        let mut found = found;
        let ghost before = *self;
        let idx = self.entry_index(&key);
        let mut comments: Vec<(String, Vec<JsoncComment>)> = Vec::new();
        std::mem::swap(&mut comments, &mut self.comments);
        match idx {
            Some(idx) => {
                let (k, mut v) = comments.remove(idx);
                v.append(&mut found);
                comments.insert(idx, (k, v));
            },
            None => {
                comments.push((key, found));
            },
        }
        let ghost newc = comments@;
        proof {
            let oldc = before.comments@;
            match idx {
                Some(ix) => {
                    assert(newc.len() == oldc.len());
                    assert forall|t: int| 0 <= t < newc.len() implies #[trigger] newc[t].0@ == oldc[t].0@ by {
                        if t == ix {} else {}
                    }
                },
                None => {
                    assert(newc == oldc.push((key, found_before)));
                },
            }
        }
        self.comments = comments;
        proof {
            let f = |c: JsoncComment| c@;
            let oldc = before.comments@;
            match idx {
                Some(ix) => {
                    before.lemma_comments_of_at(ix as int);
                    self.lemma_comments_of_at(ix as int);
                    assert(newc[ix as int].1@.map_values(f) =~= oldc[ix as int].1@.map_values(f) + found_before@.map_values(f));
                    assert forall|p: Seq<char>| p != path@ implies #[trigger] self.comments_of(p) == before.comments_of(p) by {
                        if exists|t: int| 0 <= t < oldc.len() && #[trigger] oldc[t].0@ == p {
                            let t = choose|t: int| 0 <= t < oldc.len() && #[trigger] oldc[t].0@ == p;
                            before.lemma_comments_of_at(t);
                            self.lemma_comments_of_at(t);
                        } else {
                            assert forall|t: int| 0 <= t < newc.len() implies #[trigger] newc[t].0@ != p by {
                                assert(newc[t].0@ == oldc[t].0@);
                            }
                        }
                    }
                },
                None => {
                    self.lemma_comments_of_at(oldc.len() as int);
                    assert(before.comments_of(path@) == Seq::<CommentView>::empty());
                    assert(Seq::<CommentView>::empty() + found_before@.map_values(f) =~= found_before@.map_values(f));
                    assert forall|p: Seq<char>| p != path@ implies #[trigger] self.comments_of(p) == before.comments_of(p) by {
                        if exists|t: int| 0 <= t < oldc.len() && #[trigger] oldc[t].0@ == p {
                            let t = choose|t: int| 0 <= t < oldc.len() && #[trigger] oldc[t].0@ == p;
                            before.lemma_comments_of_at(t);
                            self.lemma_comments_of_at(t);
                        } else {
                            assert forall|t: int| 0 <= t < newc.len() implies #[trigger] newc[t].0@ != p by {
                                if t < oldc.len() {
                                    assert(newc[t] == oldc[t]);
                                }
                            }
                        }
                    }
                },
            }
        }
    }

    /// The comments recorded for `path`, oldest first, if any were recorded.
    pub fn comments_for(&self, path: &str) -> (r: Option<&Vec<JsoncComment>>)
        ensures
            r matches Some(v) ==> v@.map_values(|c: JsoncComment| c@) == self.comments_of(path@),
            r is None ==> self.comments_of(path@) == Seq::<CommentView>::empty(),
    {
        proof {
            use_type_invariant(self);
        }
        let key = String::from_str(path);
        match self.entry_index(&key) {
            Some(i) => {
                proof {
                    self.lemma_comments_of_at(i as int);
                }
                Some(&self.comments[i].1)
            },
            None => None,
        }
    }

    /// Strips all comments from a JSONC string, returning clean JSON text.
    pub fn strip_jsonc_comments(text: &str) -> (out: String)
        ensures
            out@ == spec_strip_jsonc(text@),
    {
        let cs = chars_of(text);
        let mut out = String::new();
        let mut st = ScanState::Code;
        let mut i: usize = 0;
        assert(cs@.skip(0) =~= cs@);
        assert(out@ + strip_spec(cs@, st) =~= strip_spec(cs@, st));
        while i < cs.len()
            invariant
                i <= cs@.len(),
                out@ + strip_spec(cs@.skip(i as int), st) == spec_strip_jsonc(text@),
                cs@ == text@,
            decreases cs@.len() - i,
        {
            let ghost rest = cs@.skip(i as int);
            let ghost old_out = out@;
            let ghost old_st = st;
            assert(rest.drop_first() =~= cs@.skip(i + 1));
            let c = cs[i];
            match st {
                ScanState::Esc => {
                    push_char(&mut out, c);
                    st = ScanState::Str;
                },
                ScanState::Str => {
                    push_char(&mut out, c);
                    if c == '\\' {
                        st = ScanState::Esc;
                    } else if c == '"' {
                        st = ScanState::Code;
                    }
                },
                ScanState::Comment => {
                    if c == '\n' {
                        push_char(&mut out, '\n');
                        st = ScanState::Code;
                    }
                },
                ScanState::BlockOpen => {
                    st = ScanState::Block;
                },
                ScanState::Block => {
                    if c == '*' && i + 1 < cs.len() && cs[i + 1] == '/' {
                        st = ScanState::BlockClose;
                    } else if c == '\n' {
                        push_char(&mut out, '\n');
                    }
                },
                ScanState::BlockClose => {
                    st = ScanState::Code;
                },
                ScanState::Code => {
                    if c == '"' {
                        push_char(&mut out, c);
                        st = ScanState::Str;
                    } else if c == '/' && i + 1 < cs.len() && cs[i + 1] == '/' {
                        st = ScanState::Comment;
                    } else if c == '/' && i + 1 < cs.len() && cs[i + 1] == '*' {
                        st = ScanState::BlockOpen;
                    } else {
                        push_char(&mut out, c);
                    }
                },
            }
            proof {
                let r = strip_spec(cs@.skip(i + 1), st);
                if out@.len() > old_out.len() {
                    assert(old_out + strip_spec(rest, old_st) == out@ + r) by {
                        assert(old_out + (seq![c] + r) =~= old_out.push(c) + r);
                    }
                }
            }
            i = i + 1;
        }
        assert(cs@.skip(i as int) =~= Seq::<char>::empty());
        assert(out@ + Seq::<char>::empty() =~= out@);
        out
    }
}

/// `p` occurs in `s` (`str::contains`).
pub open spec fn has_sub(s: Seq<char>, p: Seq<char>) -> bool {
    exists|i: int| 0 <= i && i + p.len() <= s.len() && #[trigger] s.subrange(i, i + p.len()) == p
}

/// Index of the first line in which `p` occurs, or `lines.len()`.
pub open spec fn first_with(lines: Seq<Seq<char>>, p: Seq<char>) -> int
    decreases lines.len(),
{
    if lines.len() == 0 {
        0
    } else if has_sub(lines[0], p) {
        0
    } else {
        1 + first_with(lines.drop_first(), p)
    }
}

proof fn lemma_first_with(lines: Seq<Seq<char>>, p: Seq<char>)
    ensures
        0 <= first_with(lines, p) <= lines.len(),
        forall|k: int| 0 <= k < first_with(lines, p) ==> !has_sub(#[trigger] lines[k], p),
        first_with(lines, p) < lines.len() ==> has_sub(lines[first_with(lines, p)], p),
    decreases lines.len(),
{
    if lines.len() > 0 && !has_sub(lines[0], p) {
        lemma_first_with(lines.drop_first(), p);
        assert forall|k: int| 0 <= k < first_with(lines, p) implies !has_sub(#[trigger] lines[k], p) by {
            if k > 0 {
                assert(lines[k] == lines.drop_first()[k - 1]);
            }
        }
    }
}

proof fn lemma_first_with_unique(lines: Seq<Seq<char>>, p: Seq<char>, i: int)
    requires
        0 <= i <= lines.len(),
        forall|k: int| 0 <= k < i ==> !has_sub(#[trigger] lines[k], p),
        i < lines.len() ==> has_sub(lines[i], p),
    ensures
        first_with(lines, p) == i,
{
    lemma_first_with(lines, p);
    let f = first_with(lines, p);
    if f < i {
        assert(!has_sub(lines[f], p));
    } else if f > i {
        assert(!has_sub(lines[i], p));
    }
}

/// The lines after one comment is put back: a left comment at the end of the
/// first line holding its code, a comment above or below as a line of its
/// own before the first line holding its anchor. Without such a line, nothing changes.
pub open spec fn merge_one(lines: Seq<Seq<char>>, c: CommentView) -> Seq<Seq<char>> {
    match c.anchor {
        AnchorView::Left(code) => {
            let i = first_with(lines, code);
            if i < lines.len() {
                lines.update(i, lines[i] + seq![' ', '/', '/', ' '] + c.content)
            } else {
                lines
            }
        },
        AnchorView::Below(code) => {
            let i = first_with(lines, code);
            if i < lines.len() {
                lines.insert(i, seq!['/', '/', ' '] + c.content)
            } else {
                lines
            }
        },
        AnchorView::Above(code) => {
            let i = first_with(lines, code);
            if i < lines.len() {
                lines.insert(i, seq!['/', '/', ' '] + c.content)
            } else {
                lines
            }
        },
    }
}

/// The lines after the comments are put back, one after the other.
pub open spec fn merged(lines: Seq<Seq<char>>, cs: Seq<CommentView>) -> Seq<Seq<char>>
    decreases cs.len(),
{
    if cs.len() == 0 {
        lines
    } else {
        merge_one(merged(lines, cs.drop_last()), cs.last())
    }
}

/// Whether `p` occurs in `s`.
fn contains_chars(s: &[char], p: &[char]) -> (r: bool)
    ensures
        r == has_sub(s@, p@),
{
    let n = s.len();
    let m = p.len();
    if m > n {
        return false;
    }
    let mut i: usize = 0;
    loop
        invariant
            n == s@.len(),
            m == p@.len(),
            m <= n,
            i <= n - m,
            forall|j: int| 0 <= j < i ==> #[trigger] s@.subrange(j, j + m) != p@,
        decreases n - m - i,
    {
        let here = matches_at(s, i, p);
        assert(s@.skip(i as int).take(m as int) =~= s@.subrange(i as int, i + m));
        if here {
            assert(has_sub(s@, p@));
            return true;
        }
        if i == n - m {
            return false;
        }
        i = i + 1;
    }
}

/// Whether `p` occurs in `line`.
fn line_has(line: &String, p: &[char]) -> (r: bool)
    ensures
        r == has_sub(line@, p@),
{
    let cs = chars_of(line.as_str());
    contains_chars(cs.as_slice(), p)
}

/// Index of the first line in which `p` occurs, or the number of lines.
fn find_line(lines: &Vec<String>, p: &[char]) -> (r: usize)
    ensures
        r == first_with(lines@.map_values(|l: String| l@), p@),
{
    let ghost ls = lines@.map_values(|l: String| l@);
    let mut i: usize = 0;
    while i < lines.len()
        invariant
            ls == lines@.map_values(|l: String| l@),
            i <= lines@.len(),
            forall|k: int| 0 <= k < i ==> !has_sub(#[trigger] ls[k], p@),
        decreases lines@.len() - i,
    {
        if line_has(&lines[i], p) {
            proof {
                lemma_first_with_unique(ls, p@, i as int);
            }
            return i;
        }
        i = i + 1;
    }
    proof {
        lemma_first_with_unique(ls, p@, i as int);
    }
    i
}

/// Puts one comment back into the lines (see [`merge_one`]).
fn merge_comment(lines: &mut Vec<String>, c: &JsoncComment)
    ensures
        final(lines)@.map_values(|l: String| l@) == merge_one(old(lines)@.map_values(|l: String| l@), c@),
{
    let ghost ls = lines@.map_values(|l: String| l@);
    let (code, left) = match &c.anchor {
        CommentAnchor::Left(s) => (s, true),
        CommentAnchor::Below(s) => (s, false),
        CommentAnchor::Above(s) => (s, false),
    };
    let pc = chars_of(code.as_str());
    let i = find_line(lines, pc.as_slice());
    proof {
        lemma_first_with(ls, code@);
    }
    if i < lines.len() {
        if left {
            let mut l = lines[i].clone();
            push_str(&mut l, " // ");
            push_str(&mut l, c.comment_content.as_str());
            proof {
                reveal_strlit(" // ");
            }
            let ghost lv = l@;
            assert(lv == ls[i as int] + seq![' ', '/', '/', ' '] + c.comment_content@);
            lines.set(i, l);
            assert(lines@.map_values(|x: String| x@) =~= ls.update(i as int, ls[i as int] + seq![' ', '/', '/', ' '] + c.comment_content@));
        } else {
            let mut l = String::new();
            push_str(&mut l, "// ");
            push_str(&mut l, c.comment_content.as_str());
            proof {
                reveal_strlit("// ");
            }
            let ghost lv = l@;
            assert(lv == seq!['/', '/', ' '] + c.comment_content@);
            lines.insert(i, l);
            assert(lines@.map_values(|x: String| x@) =~= ls.insert(i as int, seq!['/', '/', ' '] + c.comment_content@));
        }
    }
}

/// Puts the comments back into the lines of a JSON text, in order (see
/// [`merged`]): what writing a JSONC file does to keep its comments.
pub fn merge_comments(lines: Vec<String>, comments: &Vec<JsoncComment>) -> (r: Vec<String>)
    ensures
        r@.map_values(|l: String| l@) == merged(
            lines@.map_values(|l: String| l@),
            comments@.map_values(|c: JsoncComment| c@),
        ),
{
    let ghost l0 = lines@.map_values(|l: String| l@);
    let ghost cs = comments@.map_values(|c: JsoncComment| c@);
    let mut out = lines;
    let mut k: usize = 0;
    while k < comments.len()
        invariant
            k <= comments@.len(),
            cs == comments@.map_values(|c: JsoncComment| c@),
            out@.map_values(|l: String| l@) == merged(l0, cs.take(k as int)),
        decreases comments@.len() - k,
    {
        merge_comment(&mut out, &comments[k]);
        proof {
            assert(cs.take(k + 1).drop_last() =~= cs.take(k as int));
            assert(cs.take(k + 1).last() == comments@[k as int]@);
        }
        k = k + 1;
    }
    assert(cs.take(comments@.len() as int) =~= cs);
    out
}

} // verus!
