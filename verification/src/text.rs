//! Character-level helpers shared by the parsers of this crate.
use vstd::prelude::*;

verus! {

/// The characters of `s`, in order.
pub fn chars_of(s: &str) -> (out: Vec<char>)
    ensures
        out@ == s@,
{
    broadcast use vstd::string::group_string_axioms;

    let mut out: Vec<char> = Vec::new();
    for c in it: s.chars()
        invariant
            it.seq() == s@,
            out@ == s@.take(it.index() as int),
    {
        out.push(c);
        assert(s@.take(it.index() + 1) == s@.take(it.index() as int).push(c));
    }
    out
}

/// Appends `c` to `s` (std `String::push`).
#[verifier::external_body]
pub(crate) fn push_char(s: &mut String, c: char)
    ensures
        final(s)@ == old(s)@.push(c),
{
    s.push(c);
}

/// A string holding exactly the characters of `cs`.
pub fn string_of(cs: &[char]) -> (out: String)
    ensures
        out@ == cs@,
{
    let mut out = String::new();
    let mut i: usize = 0;
    while i < cs.len()
        invariant
            i <= cs@.len(),
            out@ == cs@.take(i as int),
        decreases cs@.len() - i,
    {
        push_char(&mut out, cs[i]);
        assert(cs@.take(i + 1) == cs@.take(i as int).push(cs@[i as int]));
        i = i + 1;
    }
    assert(cs@.take(cs@.len() as int) == cs@);
    out
}

/// Appends every character of `cs[from..to]` to `out`.
pub fn push_range(out: &mut String, cs: &[char], from: usize, to: usize)
    requires
        from <= to <= cs@.len(),
    ensures
        final(out)@ == old(out)@ + cs@.subrange(from as int, to as int),
{
    let mut i = from;
    while i < to
        invariant
            from <= i <= to <= cs@.len(),
            out@ == old(out)@ + cs@.subrange(from as int, i as int),
        decreases to - i,
    {
        push_char(out, cs[i]);
        assert(cs@.subrange(from as int, i + 1) == cs@.subrange(from as int, i as int).push(cs@[i as int]));
        i = i + 1;
    }
}

/// Appends the characters of `s` to `out`.
pub fn push_str(out: &mut String, s: &str)
    ensures
        final(out)@ == old(out)@ + s@,
{
    let cs = chars_of(s);
    let n = cs.len();
    push_range(out, cs.as_slice(), 0, n);
    assert(cs@.subrange(0, n as int) == cs@);
}

/// Whether two character sequences are equal, compared element by element.
pub fn chars_eq(a: &[char], b: &[char]) -> (r: bool)
    ensures
        r == (a@ == b@),
{
    if a.len() != b.len() {
        return false;
    }
    let mut i: usize = 0;
    while i < a.len()
        invariant
            a@.len() == b@.len(),
            i <= a@.len(),
            forall|k: int| 0 <= k < i ==> a@[k] == b@[k],
        decreases a@.len() - i,
    {
        if a[i] != b[i] {
            return false;
        }
        i = i + 1;
    }
    assert(a@ =~= b@);
    true
}

/// Whether `s` holds exactly the characters of the literal `lit`.
pub fn str_is(s: &str, lit: &str) -> (r: bool)
    ensures
        r == (s@ == lit@),
{
    let a = chars_of(s);
    let b = chars_of(lit);
    chars_eq(a.as_slice(), b.as_slice())
}

/// `p` is a prefix of `s`.
pub open spec fn has_prefix(s: Seq<char>, p: Seq<char>) -> bool {
    p.len() <= s.len() && s.take(p.len() as int) == p
}

/// Whether `cs[at..]` begins with `p`.
pub fn matches_at(cs: &[char], at: usize, p: &[char]) -> (r: bool)
    requires
        at <= cs@.len(),
    ensures
        r == has_prefix(cs@.skip(at as int), p@),
{
    if p.len() > cs.len() - at {
        return false;
    }
    let mut k: usize = 0;
    while k < p.len()
        invariant
            at + p@.len() <= cs@.len(),
            cs@.len() == cs.len(),
            k <= p@.len(),
            forall|j: int| 0 <= j < k ==> cs@[at + j] == p@[j],
        decreases p@.len() - k,
    {
        if cs[at + k] != p[k] {
            assert(cs@.skip(at as int).take(p@.len() as int)[k as int] != p@[k as int]);
            return false;
        }
        k = k + 1;
    }
    assert(cs@.skip(at as int).take(p@.len() as int) =~= p@);
    true
}

/// The white-space characters of Unicode (the `White_Space` property), which
/// `char::is_whitespace` and `str::trim` go by.
pub open spec fn is_ws(c: char) -> bool {
    ||| ('\u{9}' <= c && c <= '\u{d}')
    ||| c == ' '
    ||| c == '\u{85}'
    ||| c == '\u{a0}'
    ||| c == '\u{1680}'
    ||| ('\u{2000}' <= c && c <= '\u{200a}')
    ||| c == '\u{2028}'
    ||| c == '\u{2029}'
    ||| c == '\u{202f}'
    ||| c == '\u{205f}'
    ||| c == '\u{3000}'
}

/// Executable form of [`is_ws`].
pub fn is_ws_char(c: char) -> (r: bool)
    ensures
        r == is_ws(c),
{
    ('\u{9}' <= c && c <= '\u{d}') || c == ' ' || c == '\u{85}' || c == '\u{a0}' || c == '\u{1680}'
        || ('\u{2000}' <= c && c <= '\u{200a}') || c == '\u{2028}' || c == '\u{2029}'
        || c == '\u{202f}' || c == '\u{205f}' || c == '\u{3000}'
}

/// Index of the first character of `s` that is not white space (or `s.len()`).
pub open spec fn trim_start_idx(s: Seq<char>) -> int
    decreases s.len(),
{
    if s.len() == 0 || !is_ws(s[0]) {
        0
    } else {
        1 + trim_start_idx(s.drop_first())
    }
}

/// One past the last character of `s` that is not white space (or 0).
pub open spec fn trim_end_idx(s: Seq<char>) -> int
    decreases s.len(),
{
    if s.len() == 0 || !is_ws(s.last()) {
        s.len() as int
    } else {
        trim_end_idx(s.drop_last())
    }
}

/// `s` without leading white space (`str::trim_start`).
pub open spec fn trim_start(s: Seq<char>) -> Seq<char> {
    s.skip(trim_start_idx(s))
}

/// `s` without trailing white space (`str::trim_end`).
pub open spec fn trim_end(s: Seq<char>) -> Seq<char> {
    s.take(trim_end_idx(s))
}

/// `s` without leading and trailing white space (`str::trim`).
pub open spec fn trim(s: Seq<char>) -> Seq<char> {
    trim_end(trim_start(s))
}

proof fn lemma_trim_start_idx(s: Seq<char>)
    ensures
        0 <= trim_start_idx(s) <= s.len(),
        forall|k: int| 0 <= k < trim_start_idx(s) ==> is_ws(#[trigger] s[k]),
        trim_start_idx(s) < s.len() ==> !is_ws(s[trim_start_idx(s)]),
    decreases s.len(),
{
    if s.len() > 0 && is_ws(s[0]) {
        lemma_trim_start_idx(s.drop_first());
        assert forall|k: int| 0 <= k < trim_start_idx(s) implies is_ws(#[trigger] s[k]) by {
            if k > 0 {
                assert(s[k] == s.drop_first()[k - 1]);
            }
        }
    }
}

proof fn lemma_trim_end_idx(s: Seq<char>)
    ensures
        0 <= trim_end_idx(s) <= s.len(),
        forall|k: int| trim_end_idx(s) <= k < s.len() ==> is_ws(#[trigger] s[k]),
        trim_end_idx(s) > 0 ==> !is_ws(s[trim_end_idx(s) - 1]),
    decreases s.len(),
{
    if s.len() > 0 && is_ws(s.last()) {
        lemma_trim_end_idx(s.drop_last());
        assert forall|k: int| trim_end_idx(s) <= k < s.len() implies is_ws(#[trigger] s[k]) by {
            if k < s.len() - 1 {
                assert(s[k] == s.drop_last()[k]);
            }
        }
    }
}

/// Characterises `trim_start_idx` by its defining properties.
proof fn lemma_trim_start_unique(s: Seq<char>, i: int)
    requires
        0 <= i <= s.len(),
        forall|k: int| 0 <= k < i ==> is_ws(#[trigger] s[k]),
        i < s.len() ==> !is_ws(s[i]),
    ensures
        trim_start_idx(s) == i,
{
    lemma_trim_start_idx(s);
    let t = trim_start_idx(s);
    if t < i {
        assert(is_ws(s[t]));
    } else if t > i {
        assert(is_ws(s[i]));
    }
}

/// Characterises `trim_end_idx` by its defining properties.
proof fn lemma_trim_end_unique(s: Seq<char>, j: int)
    requires
        0 <= j <= s.len(),
        forall|k: int| j <= k < s.len() ==> is_ws(#[trigger] s[k]),
        j > 0 ==> !is_ws(s[j - 1]),
    ensures
        trim_end_idx(s) == j,
{
    lemma_trim_end_idx(s);
    let t = trim_end_idx(s);
    if t < j {
        assert(is_ws(s[j - 1]));
    } else if t > j {
        assert(is_ws(s[t - 1]));
    }
}

/// Trimming twice is trimming once.
pub proof fn lemma_trim_idempotent(s: Seq<char>)
    ensures
        trim(trim(s)) == trim(s),
{
    lemma_trim_start_idx(s);
    let t = trim_start(s);
    lemma_trim_end_idx(t);
    let u = trim(s);
    if u.len() > 0 {
        assert(u[0] == t[0]);
        assert(t[0] == s[trim_start_idx(s)]);
        assert(u[u.len() - 1] == t[trim_end_idx(t) - 1]);
    }
    lemma_trim_start_unique(u, 0);
    assert(trim_start(u) =~= u);
    lemma_trim_end_unique(u, u.len() as int);
    assert(trim_end(u) =~= u);
}

/// The bounds `[lo, hi)` of `trim(cs[from..to])` inside `cs`.
pub fn trim_bounds(cs: &[char], from: usize, to: usize) -> (r: (usize, usize))
    requires
        from <= to <= cs@.len(),
    ensures
        from <= r.0 <= r.1 <= to,
        cs@.subrange(r.0 as int, r.1 as int) == trim(cs@.subrange(from as int, to as int)),
{
    let ghost s = cs@.subrange(from as int, to as int);
    let mut lo = from;
    while lo < to && is_ws_char(cs[lo])
        invariant
            from <= lo <= to <= cs@.len(),
            forall|k: int| from <= k < lo ==> is_ws(#[trigger] cs@[k]),
        decreases to - lo,
    {
        lo = lo + 1;
    }
    proof {
        assert forall|k: int| 0 <= k < lo - from implies is_ws(#[trigger] s[k]) by {
            assert(s[k] == cs@[from + k]);
        }
        if lo < to {
            assert(s[lo - from] == cs@[lo as int]);
        }
        lemma_trim_start_unique(s, lo - from);
    }
    let mut hi = to;
    while hi > lo && is_ws_char(cs[hi - 1])
        invariant
            from <= lo <= hi <= to <= cs@.len(),
            forall|k: int| hi <= k < to ==> is_ws(#[trigger] cs@[k]),
        decreases hi - lo,
    {
        hi = hi - 1;
    }
    proof {
        let t = trim_start(s);
        assert(t == cs@.subrange(lo as int, to as int));
        assert forall|k: int| hi - lo <= k < t.len() implies is_ws(#[trigger] t[k]) by {
            assert(t[k] == cs@[lo + k]);
        }
        if hi > lo {
            assert(t[hi - lo - 1] == cs@[hi - 1]);
        }
        lemma_trim_end_unique(t, hi - lo);
        assert(trim_end(t) =~= cs@.subrange(lo as int, hi as int));
    }
    (lo, hi)
}

/// `str::trim`, returning an owned string.
pub fn trimmed(s: &str) -> (out: String)
    ensures
        out@ == trim(s@),
{
    let cs = chars_of(s);
    let n = cs.len();
    let (lo, hi) = trim_bounds(cs.as_slice(), 0, n);
    assert(cs@.subrange(0, n as int) == cs@);
    let mut out = String::new();
    push_range(&mut out, cs.as_slice(), lo, hi);
    out
}

} // verus!

verus! {

/// Index of the first `c` in `s`, or `s.len()` when there is none.
pub open spec fn index_of_char(s: Seq<char>, c: char) -> int
    decreases s.len(),
{
    if s.len() == 0 {
        0
    } else if s[0] == c {
        0
    } else {
        1 + index_of_char(s.drop_first(), c)
    }
}

pub proof fn lemma_index_of_char(s: Seq<char>, c: char)
    ensures
        0 <= index_of_char(s, c) <= s.len(),
        forall|k: int| 0 <= k < index_of_char(s, c) ==> #[trigger] s[k] != c,
        index_of_char(s, c) < s.len() ==> s[index_of_char(s, c)] == c,
    decreases s.len(),
{
    if s.len() > 0 && s[0] != c {
        lemma_index_of_char(s.drop_first(), c);
        assert forall|k: int| 0 <= k < index_of_char(s, c) implies #[trigger] s[k] != c by {
            if k > 0 {
                assert(s[k] == s.drop_first()[k - 1]);
            }
        }
    }
}

/// `index_of_char` is the first position holding `c`.
pub proof fn lemma_index_of_char_unique(s: Seq<char>, c: char, p: int)
    requires
        0 <= p <= s.len(),
        forall|k: int| 0 <= k < p ==> #[trigger] s[k] != c,
        p < s.len() ==> s[p] == c,
    ensures
        index_of_char(s, c) == p,
{
    lemma_index_of_char(s, c);
    let q = index_of_char(s, c);
    if q < p {
        assert(s[q] != c);
    } else if q > p {
        assert(s[p] != c);
    }
}

/// First position `p` in `cs[from..to]` with `cs[p] == c`, or `to`.
pub fn find_char(cs: &[char], from: usize, to: usize, c: char) -> (p: usize)
    requires
        from <= to <= cs@.len(),
    ensures
        from <= p <= to,
        p - from == index_of_char(cs@.subrange(from as int, to as int), c),
{
    let mut p = from;
    while p < to && cs[p] != c
        invariant
            from <= p <= to <= cs@.len(),
            forall|k: int| from <= k < p ==> #[trigger] cs@[k] != c,
        decreases to - p,
    {
        p = p + 1;
    }
    proof {
        let s = cs@.subrange(from as int, to as int);
        assert forall|k: int| 0 <= k < p - from implies #[trigger] s[k] != c by {
            assert(s[k] == cs@[from + k]);
        }
        if p < to {
            assert(s[p - from] == cs@[p as int]);
        }
        lemma_index_of_char_unique(s, c, p - from);
    }
    p
}

} // verus!

verus! {

/// A line as `str::lines` yields it: without its `'\n'` and, when the line
/// ended with `"\r\n"`, without the `'\r'`.
pub open spec fn line_body(s: Seq<char>, k: int) -> Seq<char> {
    if k < s.len() && k > 0 && s[k - 1] == '\r' {
        s.take(k - 1)
    } else {
        s.take(k)
    }
}

/// The lines of `s` (`str::lines`): split at `'\n'`, a `'\r'` before the `'\n'`
/// dropped, and no empty last line after a final line ending.
pub open spec fn lines_of(s: Seq<char>) -> Seq<Seq<char>>
    decreases s.len(),
{
    if s.len() == 0 {
        Seq::empty()
    } else {
        let k = index_of_char(s, '\n');
        proof {
            lemma_index_of_char(s, '\n');
        }
        if k >= s.len() {
            seq![s]
        } else {
            seq![line_body(s, k)] + lines_of(s.skip(k + 1))
        }
    }
}

/// The bounds `(start, end)` inside `cs` of each line of `cs` (see [`lines_of`]).
pub fn line_ranges(cs: &[char]) -> (r: Vec<(usize, usize)>)
    ensures
        r@.len() == lines_of(cs@).len(),
        forall|i: int| 0 <= i < r@.len() ==> {
            &&& (#[trigger] r@[i]).0 <= r@[i].1 <= cs@.len()
            &&& cs@.subrange(r@[i].0 as int, r@[i].1 as int) == lines_of(cs@)[i]
        },
{
    let mut r: Vec<(usize, usize)> = Vec::new();
    let n = cs.len();
    let mut start: usize = 0;
    assert(cs@.skip(0) =~= cs@);
    while start < n
        invariant
            n == cs@.len(),
            start <= n,
            lines_of(cs@) == r@.map_values(|b: (usize, usize)| cs@.subrange(b.0 as int, b.1 as int))
                + lines_of(cs@.skip(start as int)),
            forall|i: int| 0 <= i < r@.len() ==> (#[trigger] r@[i]).0 <= r@[i].1 <= n,
        decreases n - start,
    {
        let ghost rest = cs@.skip(start as int);
        let p = find_char(cs, start, n, '\n');
        assert(cs@.subrange(start as int, n as int) =~= rest);
        let ghost old_r = r@;
        if p == n {
            r.push((start, n));
            proof {
                assert(rest.len() > 0);
                assert(lines_of(rest) == seq![rest]);
                assert(cs@.skip(n as int) =~= Seq::<char>::empty());
                assert(r@.map_values(|b: (usize, usize)| cs@.subrange(b.0 as int, b.1 as int))
                    =~= old_r.map_values(|b: (usize, usize)| cs@.subrange(b.0 as int, b.1 as int)).push(rest));
            }
            start = n;
        } else {
            let end = if p > start && cs[p - 1] == '\r' { p - 1 } else { p };
            r.push((start, end));
            proof {
                let k = p - start;
                if k > 0 {
                    assert(rest[k - 1] == cs@[p - 1]);
                }
                assert(line_body(rest, k) =~= cs@.subrange(start as int, end as int));
                assert(rest.skip(k + 1) =~= cs@.skip(p + 1));
                assert(r@.map_values(|b: (usize, usize)| cs@.subrange(b.0 as int, b.1 as int))
                    =~= old_r.map_values(|b: (usize, usize)| cs@.subrange(b.0 as int, b.1 as int))
                        .push(line_body(rest, k)));
                assert(lines_of(rest) == seq![line_body(rest, k)] + lines_of(rest.skip(k + 1)));
            }
            start = p + 1;
        }
    }
    proof {
        assert(cs@.skip(start as int) =~= Seq::<char>::empty());
        let m = r@.map_values(|b: (usize, usize)| cs@.subrange(b.0 as int, b.1 as int));
        assert(lines_of(cs@) =~= m);
        assert forall|i: int| 0 <= i < r@.len() implies cs@.subrange((#[trigger] r@[i]).0 as int, r@[i].1 as int)
            == lines_of(cs@)[i] by {
            assert(m[i] == cs@.subrange(r@[i].0 as int, r@[i].1 as int));
        }
    }
    r
}

} // verus!

verus! {

/// The pieces of `s` between occurrences of `sep` (`str::split` with a
/// character): `n` separators give `n + 1` pieces, empty ones included.
pub open spec fn split_spec(s: Seq<char>, sep: char) -> Seq<Seq<char>>
    decreases s.len(),
{
    let k = index_of_char(s, sep);
    proof {
        lemma_index_of_char(s, sep);
    }
    if k >= s.len() {
        seq![s]
    } else {
        seq![s.take(k)] + split_spec(s.skip(k + 1), sep)
    }
}

/// Bounds inside `cs` of the pieces of `cs[from..to]` split at `sep`.
pub fn split_ranges(cs: &[char], from: usize, to: usize, sep: char) -> (r: Vec<(usize, usize)>)
    requires
        from <= to <= cs@.len(),
    ensures
        r@.len() == split_spec(cs@.subrange(from as int, to as int), sep).len(),
        forall|i: int| 0 <= i < r@.len() ==> {
            &&& from <= (#[trigger] r@[i]).0 <= r@[i].1 <= to
            &&& cs@.subrange(r@[i].0 as int, r@[i].1 as int) == split_spec(
                cs@.subrange(from as int, to as int),
                sep,
            )[i]
        },
{
    let mut r: Vec<(usize, usize)> = Vec::new();
    let mut start = from;
    let ghost whole = cs@.subrange(from as int, to as int);
    loop
        invariant
            from <= start <= to <= cs@.len(),
            whole == cs@.subrange(from as int, to as int),
            split_spec(whole, sep) == r@.map_values(
                |b: (usize, usize)| cs@.subrange(b.0 as int, b.1 as int),
            ) + split_spec(cs@.subrange(start as int, to as int), sep),
            forall|i: int| 0 <= i < r@.len() ==> from <= (#[trigger] r@[i]).0 <= r@[i].1 <= to,
        decreases to - start,
    {
        let ghost rest = cs@.subrange(start as int, to as int);
        let ghost old_r = r@;
        let p = find_char(cs, start, to, sep);
        r.push((start, p));
        proof {
            assert(rest.take(p - start) =~= cs@.subrange(start as int, p as int));
            assert(r@.map_values(|b: (usize, usize)| cs@.subrange(b.0 as int, b.1 as int))
                =~= old_r.map_values(|b: (usize, usize)| cs@.subrange(b.0 as int, b.1 as int)).push(
                cs@.subrange(start as int, p as int),
            ));
        }
        if p == to {
            proof {
                assert(rest.take(p - start) =~= rest);
                assert(split_spec(rest, sep) == seq![rest]);
                let m = r@.map_values(|b: (usize, usize)| cs@.subrange(b.0 as int, b.1 as int));
                assert(split_spec(whole, sep) =~= m);
                assert forall|i: int| 0 <= i < r@.len() implies cs@.subrange(
                    (#[trigger] r@[i]).0 as int,
                    r@[i].1 as int,
                ) == split_spec(whole, sep)[i] by {
                    assert(m[i] == cs@.subrange(r@[i].0 as int, r@[i].1 as int));
                }
            }
            return r;
        }
        proof {
            assert(rest.skip(p - start + 1) =~= cs@.subrange(p + 1, to as int));
            assert(split_spec(rest, sep) == seq![rest.take(p - start)] + split_spec(
                rest.skip(p - start + 1),
                sep,
            ));
        }
        start = p + 1;
    }
}

/// Lower-casing for matching against ASCII names: ASCII capitals and the
/// Kelvin sign (whose lower case is `'k'`) are the only characters whose
/// lower case is ASCII while they differ from it.
pub open spec fn name_lower(c: char) -> char {
    if 'A' <= c && c <= 'Z' {
        ((c as u32) + 32) as char
    } else if c == '\u{212A}' {
        'k'
    } else {
        c
    }
}

/// Executable form of [`name_lower`].
pub fn name_lower_char(c: char) -> (r: char)
    ensures
        r == name_lower(c),
{
    if 'A' <= c && c <= 'Z' {
        let v: u8 = (c as u8) + 32;
        v as char
    } else if c == '\u{212A}' {
        'k'
    } else {
        c
    }
}

/// ASCII lower case of a character (`char::to_ascii_lowercase`).
pub open spec fn ascii_lower(c: char) -> char {
    if 'A' <= c && c <= 'Z' {
        ((c as u32) + 32) as char
    } else {
        c
    }
}

/// Executable form of [`ascii_lower`].
pub fn ascii_lower_char(c: char) -> (r: char)
    ensures
        r == ascii_lower(c),
{
    if 'A' <= c && c <= 'Z' {
        let v: u8 = (c as u8) + 32;
        v as char
    } else {
        c
    }
}

/// `cs[from..to]` with every character passed through `f`.
pub fn lowered_range(cs: &[char], from: usize, to: usize, ascii_only: bool) -> (r: Vec<char>)
    requires
        from <= to <= cs@.len(),
    ensures
        r@ == cs@.subrange(from as int, to as int).map_values(
            |c: char| if ascii_only { ascii_lower(c) } else { name_lower(c) },
        ),
{
    let mut r: Vec<char> = Vec::new();
    let mut i = from;
    while i < to
        invariant
            from <= i <= to <= cs@.len(),
            r@ == cs@.subrange(from as int, i as int).map_values(
                |c: char| if ascii_only { ascii_lower(c) } else { name_lower(c) },
            ),
        decreases to - i,
    {
        let c = if ascii_only { ascii_lower_char(cs[i]) } else { name_lower_char(cs[i]) };
        r.push(c);
        assert(cs@.subrange(from as int, i + 1) =~= cs@.subrange(from as int, i as int).push(cs@[i as int]));
        i = i + 1;
    }
    r
}

/// Position of the last `.` in `s`, or -1 where there is none.
pub open spec fn last_dot(s: Seq<char>) -> int
    decreases s.len(),
{
    if s.len() == 0 {
        -1
    } else if s.last() == '.' {
        s.len() - 1
    } else {
        last_dot(s.drop_last())
    }
}

pub proof fn lemma_last_dot(s: Seq<char>)
    ensures
        -1 <= last_dot(s) < s.len(),
        last_dot(s) >= 0 ==> s[last_dot(s)] == '.',
        forall|k: int| last_dot(s) < k < s.len() ==> s[k] != '.',
    decreases s.len(),
{
    if s.len() > 0 && s.last() != '.' {
        lemma_last_dot(s.drop_last());
        assert forall|k: int| last_dot(s) < k < s.len() implies s[k] != '.' by {
            if k < s.len() - 1 {
                assert(s[k] == s.drop_last()[k]);
            }
        }
    }
}

/// Where a file name has an extension (std's rule for `Path::extension`:
/// after the last `.`, where that dot is not the name's first character),
/// the position of that dot.
pub fn extension_dot(cs: &[char]) -> (r: Option<usize>)
    ensures
        match r {
            Some(d) => d == last_dot(cs@) && d > 0,
            None => last_dot(cs@) <= 0,
        },
{
    let n = cs.len();
    let mut i: usize = n;
    while i > 0 && cs[i - 1] != '.'
        invariant
            i <= n,
            n == cs@.len(),
            forall|k: int| i <= k < n ==> cs@[k] != '.',
        decreases i,
    {
        i = i - 1;
    }
    proof {
        lemma_last_dot(cs@);
        let d = last_dot(cs@);
        if i > 0 {
            assert(d == i - 1) by {
                if d < i - 1 {
                    assert(cs@[i - 1] == '.');
                }
            }
        } else {
            assert(d == -1) by {
                if d >= 0 {
                    assert(cs@[d] == '.');
                }
            }
        }
    }
    if i <= 1 {
        None
    } else {
        Some(i - 1)
    }
}

} // verus!
