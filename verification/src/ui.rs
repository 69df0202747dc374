//! Small rules of the UI runtime: class queries, asset paths, frame file
//! names, and schema ids that occur twice.
use vstd::prelude::*;
use crate::num::{decimal, is_digit, parse_u32_range, push_decimal, spec_parse_u32};
use crate::text::{
    chars_of, find_char, index_of_char, is_ws, is_ws_char, lemma_index_of_char, matches_at,
    push_char, push_range, push_str,
};

verus! {

/// A character that separates the classes of a `class` attribute.
pub open spec fn is_class_sep(c: char) -> bool {
    is_ws(c) || c == ','
}

/// `q` stands in `s` at `i` as a whole class: bounded by separators or the ends.
pub open spec fn class_at(s: Seq<char>, q: Seq<char>, i: int) -> bool {
    &&& 0 <= i
    &&& i + q.len() <= s.len()
    &&& s.subrange(i, i + q.len()) == q
    &&& (i == 0 || is_class_sep(s[i - 1]))
    &&& (i + q.len() == s.len() || is_class_sep(s[i + q.len()]))
}

/// `q` is one of the classes listed in `s`, which separates them by
/// whitespace or commas.
pub open spec fn spec_class_matches(s: Seq<char>, q: Seq<char>) -> bool {
    &&& q.len() > 0
    &&& forall|k: int| 0 <= k < q.len() ==> !is_class_sep(#[trigger] q[k])
    &&& exists|i: int| class_at(s, q, i)
}

/// Whether `query` is one of the classes of `class_name`.
pub fn class_matches(class_name: &str, query: &str) -> (r: bool)
    ensures
        r == spec_class_matches(class_name@, query@),
{
    let s = chars_of(class_name);
    let q = chars_of(query);
    let m = q.len();
    if m == 0 {
        return false;
    }
    let mut k: usize = 0;
    while k < m
        invariant
            q@ == query@,
            m == q@.len(),
            k <= m,
            forall|j: int| 0 <= j < k ==> !is_class_sep(#[trigger] q@[j]),
        decreases m - k,
    {
        if is_ws_char(q[k]) || q[k] == ',' {
            return false;
        }
        k = k + 1;
    }
    let n = s.len();
    if m > n {
        proof {
            assert forall|i: int| !class_at(s@, q@, i) by {}
        }
        return false;
    }
    let mut i: usize = 0;
    while i <= n - m
        invariant
            s@ == class_name@,
            q@ == query@,
            m == q@.len(),
            n == s@.len(),
            0 < m <= n,
            forall|j: int| 0 <= j < m ==> !is_class_sep(#[trigger] q@[j]),
            forall|j: int| 0 <= j < i ==> !class_at(s@, q@, j),
        decreases n - m + 1 - i,
    {
        let left = i == 0 || is_ws_char(s[i - 1]) || s[i - 1] == ',';
        let right = i + m == n || is_ws_char(s[i + m]) || s[i + m] == ',';
        let here = matches_at(s.as_slice(), i, q.as_slice());
        assert(s@.skip(i as int).take(m as int) =~= s@.subrange(i as int, i + m));
        if left && right && here {
            assert(class_at(s@, q@, i as int));
            return true;
        }
        i = i + 1;
    }
    proof {
        assert forall|j: int| !class_at(s@, q@, j) by {
            if j > n - m {
                assert(!(j + q@.len() <= s@.len()));
            }
        }
    }
    false
}

/// `src` without a leading `@/`, the mark of a path from the project root.
pub open spec fn spec_asset_path(src: Seq<char>) -> Seq<char> {
    if src.len() >= 2 && src[0] == '@' && src[1] == '/' {
        src.skip(2)
    } else {
        src
    }
}

/// Strips the `@/` project-root prefix, leaving a relative path.
pub fn resolve_asset_path(src: &str) -> (r: String)
    ensures
        r@ == spec_asset_path(src@),
{
    let cs = chars_of(src);
    let n = cs.len();
    let from: usize = if n >= 2 && cs[0] == '@' && cs[1] == '/' { 2 } else { 0 };
    let mut out = String::new();
    push_range(&mut out, cs.as_slice(), from, n);
    assert(out@ =~= spec_asset_path(src@));
    out
}

/// Number of ASCII digits at the start of `s`.
pub open spec fn leading_digits(s: Seq<char>) -> int
    decreases s.len(),
{
    if s.len() == 0 || !is_digit(s[0]) {
        0
    } else {
        1 + leading_digits(s.drop_first())
    }
}

proof fn lemma_leading_digits(s: Seq<char>)
    ensures
        0 <= leading_digits(s) <= s.len(),
        forall|k: int| 0 <= k < leading_digits(s) ==> is_digit(#[trigger] s[k]),
        leading_digits(s) < s.len() ==> !is_digit(s[leading_digits(s)]),
    decreases s.len(),
{
    if s.len() > 0 && is_digit(s[0]) {
        lemma_leading_digits(s.drop_first());
        assert forall|k: int| 0 <= k < leading_digits(s) implies is_digit(#[trigger] s[k]) by {
            if k > 0 {
                assert(s[k] == s.drop_first()[k - 1]);
            }
        }
    }
}

proof fn lemma_leading_digits_unique(s: Seq<char>, p: int)
    requires
        0 <= p <= s.len(),
        forall|k: int| 0 <= k < p ==> is_digit(#[trigger] s[k]),
        p < s.len() ==> !is_digit(s[p]),
    ensures
        leading_digits(s) == p,
{
    lemma_leading_digits(s);
    let q = leading_digits(s);
    if q < p {
        assert(is_digit(s[q]));
    } else if q > p {
        assert(is_digit(s[p]));
    }
}

/// The number written after the `$` of a frame format (`0` where there is none
/// or it does not fit a `u32`).
pub open spec fn frame_start(format: Seq<char>) -> nat {
    let pos = index_of_char(format, '$');
    let rest = format.skip(pos + 1);
    if pos >= format.len() {
        0
    } else {
        match spec_parse_u32(rest.take(leading_digits(rest))) {
            Some(v) => v as nat,
            None => 0,
        }
    }
}

/// The number written after the first `$` of a frame format (`0` where
/// there is none): the index of the first frame.
pub fn frame_start_of(format: &str) -> (r: u32)
    ensures
        r == frame_start(format@),
{
    let cs = chars_of(format);
    let n = cs.len();
    let pos = find_char(cs.as_slice(), 0, n, '$');
    proof {
        assert(cs@.subrange(0, n as int) =~= cs@);
        lemma_index_of_char(cs@, '$');
    }
    let from = if pos < n { pos + 1 } else { n };
    let mut e = from;
    while e < n && '0' <= cs[e] && cs[e] <= '9'
        invariant
            cs@ == format@,
            n == cs@.len(),
            pos <= n,
            from == if pos < n { pos + 1 } else { n as int },
            from <= e <= n,
            forall|k: int| from <= k < e ==> is_digit(#[trigger] cs@[k]),
        decreases n - e,
    {
        e = e + 1;
    }
    let ghost rest = format@.skip(pos + 1);
    proof {
        if pos < n {
            assert forall|k: int| 0 <= k < e - from implies is_digit(#[trigger] rest[k]) by {
                assert(rest[k] == cs@[from + k]);
            }
            if e < n {
                assert(rest[e - from] == cs@[e as int]);
            }
            lemma_leading_digits_unique(rest, e - from);
            assert(rest.take(e - from) =~= cs@.subrange(from as int, e as int));
        }
    }
    if pos == n {
        return 0;
    }
    match parse_u32_range(cs.as_slice(), from, e) {
        Some(v) => v,
        None => 0,
    }
}

/// The file name of frame `i`: the number after the first `$` is the index of
/// the first frame, and `$` with that number is replaced by `start + i`.
pub open spec fn spec_frame_name(format: Seq<char>, i: nat) -> Seq<char> {
    let pos = index_of_char(format, '$');
    if pos >= format.len() {
        format
    } else {
        let rest = format.skip(pos + 1);
        format.take(pos) + decimal(frame_start(format) + i) + rest.skip(leading_digits(rest))
    }
}

/// Expands a frame format for frame `i`: `"$0.png"` with `i = 3` gives
/// `"3.png"`, `"$1.png"` gives `"4.png"`.
pub fn expand_frame_format(format: &str, i: u32) -> (r: String)
    requires
        index_of_char(format@, '$') < format@.len() ==> frame_start(format@) + i <= u32::MAX,
    ensures
        r@ == spec_frame_name(format@, i as nat),
{
    let cs = chars_of(format);
    let n = cs.len();
    let pos = find_char(cs.as_slice(), 0, n, '$');
    proof {
        assert(cs@.subrange(0, n as int) =~= cs@);
        lemma_index_of_char(cs@, '$');
    }
    let mut out = String::new();
    if pos == n {
        push_range(&mut out, cs.as_slice(), 0, n);
        assert(out@ =~= format@);
        return out;
    }
    let mut e = pos + 1;
    while e < n && '0' <= cs[e] && cs[e] <= '9'
        invariant
            cs@ == format@,
            n == cs@.len(),
            pos < n,
            pos + 1 <= e <= n,
            forall|k: int| pos + 1 <= k < e ==> is_digit(#[trigger] cs@[k]),
        decreases n - e,
    {
        e = e + 1;
    }
    let ghost rest = format@.skip(pos + 1);
    proof {
        assert forall|k: int| 0 <= k < e - pos - 1 implies is_digit(#[trigger] rest[k]) by {
            assert(rest[k] == cs@[pos + 1 + k]);
        }
        if e < n {
            assert(rest[e - pos - 1] == cs@[e as int]);
        }
        lemma_leading_digits_unique(rest, e - pos - 1);
        assert(rest.take(e - pos - 1) =~= cs@.subrange(pos + 1, e as int));
    }
    let start: u32 = match parse_u32_range(cs.as_slice(), pos + 1, e) {
        Some(v) => v,
        None => 0,
    };
    push_range(&mut out, cs.as_slice(), 0, pos);
    push_decimal(&mut out, start + i);
    push_range(&mut out, cs.as_slice(), e, n);
    proof {
        assert(cs@.subrange(0, pos as int) =~= format@.take(pos as int));
        assert(cs@.subrange(e as int, n as int) =~= rest.skip(leading_digits(rest)));
    }
    out
}

/// The first id that occurs twice, in the order given (`HashSet::insert`
/// refusing a second copy).
pub fn first_duplicate_id(ids: &Vec<String>) -> (r: Option<usize>)
    ensures
        r matches Some(i) ==> {
            &&& i < ids@.len()
            &&& exists|j: int| 0 <= j < i && #[trigger] ids@[j]@ == ids@[i as int]@
            &&& forall|i2: int, j2: int| 0 <= j2 < i2 < i ==> ids@[j2]@ != ids@[i2]@
        },
        r is None ==> forall|i2: int, j2: int| 0 <= j2 < i2 < ids@.len() ==> ids@[j2]@ != ids@[i2]@,
{
    let n = ids.len();
    let mut i: usize = 0;
    while i < n
        invariant
            n == ids@.len(),
            i <= n,
            forall|i2: int, j2: int| 0 <= j2 < i2 < i ==> ids@[j2]@ != ids@[i2]@,
        decreases n - i,
    {
        let mut j: usize = 0;
        while j < i
            invariant
                n == ids@.len(),
                j <= i < n,
                forall|i2: int, j2: int| 0 <= j2 < i2 < i ==> ids@[j2]@ != ids@[i2]@,
                forall|j2: int| 0 <= j2 < j ==> ids@[j2]@ != ids@[i as int]@,
            decreases i - j,
        {
            if ids[j] == ids[i] {
                return Some(i);
            }
            j = j + 1;
        }
        i = i + 1;
    }
    None
}

/// `p` without every leading `./`, then without every leading `/`
/// (`trim_start_matches("./").trim_start_matches('/')`).
pub open spec fn spec_frames_subdir(p: Seq<char>) -> Seq<char>
    decreases p.len(),
{
    if p.len() >= 2 && p[0] == '.' && p[1] == '/' {
        spec_frames_subdir(p.skip(2))
    } else {
        strip_slashes_front(p)
    }
}

/// `p` without every leading `/`.
pub open spec fn strip_slashes_front(p: Seq<char>) -> Seq<char>
    decreases p.len(),
{
    if p.len() >= 1 && p[0] == '/' {
        strip_slashes_front(p.skip(1))
    } else {
        p
    }
}

/// The frames folder named in an animation's `conf.jsonc`, relative to the
/// folder of that file.
pub fn frames_subdir(path: &str) -> (r: String)
    ensures
        r@ == spec_frames_subdir(path@),
{
    let cs = chars_of(path);
    let n = cs.len();
    let mut i: usize = 0;
    assert(cs@.skip(0) =~= cs@);
    while i < n && n - i >= 2 && cs[i] == '.' && cs[i + 1] == '/'
        invariant
            cs@ == path@,
            n == cs@.len(),
            i <= n,
            spec_frames_subdir(cs@.skip(i as int)) == spec_frames_subdir(path@),
        decreases n - i,
    {
        assert(cs@.skip(i as int).skip(2) =~= cs@.skip(i + 2));
        i = i + 2;
    }
    assert(spec_frames_subdir(cs@.skip(i as int)) == strip_slashes_front(cs@.skip(i as int)));
    while i < n && cs[i] == '/'
        invariant
            cs@ == path@,
            n == cs@.len(),
            i <= n,
            strip_slashes_front(cs@.skip(i as int)) == spec_frames_subdir(path@),
        decreases n - i,
    {
        assert(cs@.skip(i as int).skip(1) =~= cs@.skip(i + 1));
        i = i + 1;
    }
    let mut out = String::new();
    push_range(&mut out, cs.as_slice(), i, n);
    assert(cs@.subrange(i as int, n as int) =~= cs@.skip(i as int));
    out
}

/// `folder/sub/name`, or `folder/name` where `sub` is empty.
pub open spec fn spec_frame_path(folder: Seq<char>, sub: Seq<char>, name: Seq<char>) -> Seq<char> {
    if sub.len() == 0 {
        folder + seq!['/'] + name
    } else {
        folder + seq!['/'] + sub + seq!['/'] + name
    }
}

/// Where the file of one animation frame lies.
pub fn anim_frame_path(folder: &str, sub: &str, name: &str) -> (r: String)
    ensures
        r@ == spec_frame_path(folder@, sub@, name@),
{
    let mut out = String::new();
    push_str(&mut out, folder);
    push_char(&mut out, '/');
    let subs = chars_of(sub);
    if subs.len() > 0 {
        push_str(&mut out, sub);
        push_char(&mut out, '/');
    }
    push_str(&mut out, name);
    assert(out@ =~= spec_frame_path(folder@, sub@, name@));
    out
}

/// The key under which frame `i` of the animation `src` is cached: `src/frame_i`.
pub open spec fn spec_frame_key(src: Seq<char>, i: nat) -> Seq<char> {
    src + seq!['/', 'f', 'r', 'a', 'm', 'e', '_'] + decimal(i)
}

/// The cache key of frame `i` of the animation `src`.
pub fn anim_cache_key(src: &str, i: u32) -> (r: String)
    ensures
        r@ == spec_frame_key(src@, i as nat),
{
    let mut out = String::new();
    push_str(&mut out, src);
    push_char(&mut out, '/');
    push_char(&mut out, 'f');
    push_char(&mut out, 'r');
    push_char(&mut out, 'a');
    push_char(&mut out, 'm');
    push_char(&mut out, 'e');
    push_char(&mut out, '_');
    push_decimal(&mut out, i);
    assert(out@ =~= spec_frame_key(src@, i as nat));
    out
}

} // verus!
