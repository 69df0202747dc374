//! Decimal integers as `str::parse` reads them.
use vstd::prelude::*;

verus! {

/// `c` is an ASCII decimal digit.
pub open spec fn is_digit(c: char) -> bool {
    '0' <= c && c <= '9'
}

/// All characters of `s` are ASCII decimal digits.
pub open spec fn all_digits(s: Seq<char>) -> bool {
    forall|i: int| 0 <= i < s.len() ==> is_digit(#[trigger] s[i])
}

/// The value of the decimal digits `s`.
pub open spec fn digits_val(s: Seq<char>) -> int
    decreases s.len(),
{
    if s.len() == 0 {
        0
    } else {
        digits_val(s.drop_last()) * 10 + (s.last() as int - 48)
    }
}

proof fn lemma_digits_nonneg(s: Seq<char>)
    requires
        all_digits(s),
    ensures
        0 <= digits_val(s),
    decreases s.len(),
{
    if s.len() > 0 {
        let t = s.drop_last();
        assert forall|i: int| 0 <= i < t.len() implies is_digit(#[trigger] t[i]) by {
            assert(t[i] == s[i]);
        }
        lemma_digits_nonneg(t);
        assert(is_digit(s[s.len() - 1]));
    }
}

proof fn lemma_digits_prefix(s: Seq<char>, i: int)
    requires
        all_digits(s),
        0 <= i <= s.len(),
    ensures
        digits_val(s.take(i)) <= digits_val(s),
        0 <= digits_val(s.take(i)),
    decreases s.len() - i,
{
    if i < s.len() {
        lemma_digits_prefix(s, i + 1);
        assert(s.take(i + 1).drop_last() =~= s.take(i));
        assert(is_digit(s[i]));
    } else {
        assert(s.take(i) =~= s);
        lemma_digits_nonneg(s);
    }
}

/// What `str::parse::<i32>` gives for `s`: an optional sign, then at least
/// one digit and nothing else, within the range of `i32`.
pub open spec fn spec_parse_i32(s: Seq<char>) -> Option<i32> {
    let neg = s.len() > 0 && s[0] == '-';
    let ds = if s.len() > 0 && (s[0] == '-' || s[0] == '+') { s.drop_first() } else { s };
    let v = if neg { -digits_val(ds) } else { digits_val(ds) };
    if ds.len() == 0 || !all_digits(ds) || v < i32::MIN || v > i32::MAX {
        None
    } else {
        Some(v as i32)
    }
}

/// What `str::parse::<u32>` gives for `s`: an optional `'+'`, then at least
/// one digit and nothing else, within the range of `u32`.
pub open spec fn spec_parse_u32(s: Seq<char>) -> Option<u32> {
    let ds = if s.len() > 0 && s[0] == '+' { s.drop_first() } else { s };
    if ds.len() == 0 || !all_digits(ds) || digits_val(ds) > u32::MAX {
        None
    } else {
        Some(digits_val(ds) as u32)
    }
}

/// The value of the digits `cs[from..to]` when it is at most `limit`.
fn digits_upto(cs: &[char], from: usize, to: usize, limit: u64) -> (r: Option<u64>)
    requires
        from <= to <= cs@.len(),
        all_digits(cs@.subrange(from as int, to as int)),
        limit <= u32::MAX + 1,
    ensures
        r matches Some(v) ==> v as int == digits_val(cs@.subrange(from as int, to as int)) && v <= limit,
        r is None ==> digits_val(cs@.subrange(from as int, to as int)) > limit,
{
    let ghost s = cs@.subrange(from as int, to as int);
    let mut v: u64 = 0;
    let mut i = from;
    while i < to
        invariant
            from <= i <= to <= cs@.len(),
            s == cs@.subrange(from as int, to as int),
            all_digits(s),
            limit <= u32::MAX + 1,
            v as int == digits_val(s.take(i - from)),
            v <= limit,
        decreases to - i,
    {
        assert(is_digit(s[i - from]));
        assert(s.take(i - from + 1).drop_last() =~= s.take(i - from));
        let d = (cs[i] as u32 - 48) as u64;
        v = v * 10 + d;
        i = i + 1;
        if v > limit {
            proof {
                lemma_digits_prefix(s, i - from);
            }
            return None;
        }
    }
    assert(s.take(to - from) =~= s);
    Some(v)
}

fn check_digits(cs: &[char], from: usize, to: usize) -> (r: bool)
    requires
        from <= to <= cs@.len(),
    ensures
        r == all_digits(cs@.subrange(from as int, to as int)),
{
    let mut i = from;
    while i < to
        invariant
            from <= i <= to <= cs@.len(),
            forall|k: int| from <= k < i ==> is_digit(#[trigger] cs@[k]),
        decreases to - i,
    {
        if !('0' <= cs[i] && cs[i] <= '9') {
            assert(!is_digit(cs@.subrange(from as int, to as int)[i - from]));
            return false;
        }
        i = i + 1;
    }
    assert forall|k: int| 0 <= k < to - from implies is_digit(#[trigger] cs@.subrange(from as int, to as int)[k]) by {
        assert(cs@.subrange(from as int, to as int)[k] == cs@[from + k]);
    }
    true
}

/// `str::parse::<i32>` on `cs[from..to]`.
pub fn parse_i32_range(cs: &[char], from: usize, to: usize) -> (r: Option<i32>)
    requires
        from <= to <= cs@.len(),
    ensures
        r == spec_parse_i32(cs@.subrange(from as int, to as int)),
{
    let ghost s = cs@.subrange(from as int, to as int);
    let neg = from < to && cs[from] == '-';
    let start = if from < to && (cs[from] == '-' || cs[from] == '+') { from + 1 } else { from };
    proof {
        if from < to {
            assert(s[0] == cs@[from as int]);
        }
        if start == from + 1 {
            assert(s.drop_first() =~= cs@.subrange(start as int, to as int));
        }
    }
    if start == to || !check_digits(cs, start, to) {
        return None;
    }
    let limit: u64 = if neg { 2147483648 } else { 2147483647 };
    match digits_upto(cs, start, to, limit) {
        Some(v) => {
            if neg {
                Some((0 - (v as i64)) as i32)
            } else {
                Some(v as i32)
            }
        },
        None => None,
    }
}

/// `str::parse::<u32>` on `cs[from..to]`.
pub fn parse_u32_range(cs: &[char], from: usize, to: usize) -> (r: Option<u32>)
    requires
        from <= to <= cs@.len(),
    ensures
        r == spec_parse_u32(cs@.subrange(from as int, to as int)),
{
    let ghost s = cs@.subrange(from as int, to as int);
    let start = if from < to && cs[from] == '+' { from + 1 } else { from };
    proof {
        if from < to {
            assert(s[0] == cs@[from as int]);
        }
        if start == from + 1 {
            assert(s.drop_first() =~= cs@.subrange(start as int, to as int));
        }
    }
    if start == to || !check_digits(cs, start, to) {
        return None;
    }
    match digits_upto(cs, start, to, 4294967295) {
        Some(v) => Some(v as u32),
        None => None,
    }
}

/// Decimal digits of `v` (`u32` formatting).
pub open spec fn decimal(v: nat) -> Seq<char>
    decreases v,
{
    if v < 10 {
        seq![(48 + v) as char]
    } else {
        decimal(v / 10).push((48 + v % 10) as char)
    }
}

/// Appends the decimal digits of `v` to `s`.
pub fn push_decimal(s: &mut String, v: u32)
    ensures
        final(s)@ == old(s)@ + decimal(v as nat),
    decreases v,
{
    if v >= 10 {
        push_decimal(s, v / 10);
    }
    let d: u8 = (v % 10) as u8;
    crate::text::push_char(s, ((48 + d) as u8) as char);
    assert(final(s)@ =~= old(s)@ + decimal(v as nat));
}

} // verus!
