//! Colours as `#RRGGBBAA` hex strings.
use vstd::prelude::*;
use crate::text::{ascii_lower, ascii_lower_char, chars_of, push_char};

verus! {

/// A colour with 8-bit red, green, blue and alpha channels.
#[derive(Clone, Copy, PartialEq, Eq, Structural, Debug)]
pub struct Rgba8 {
    pub r: u8,
    pub g: u8,
    pub b: u8,
    pub a: u8,
}

/// Conversion of colours to and from hex strings.
pub trait HexSupport: Sized {
    /// `#RRGGBBAA`, upper-case digits.
    fn to_hex(&self) -> String;

    /// Parses `#RRGGBB`, `#RRGGBBAA` or `transparent` (any case); anything
    /// else gives the transparent black colour.
    fn from_hex(hex: &str) -> Self;
}

/// The upper-case hex digit of `n < 16`.
pub open spec fn hex_digit(n: int) -> char {
    if n < 10 {
        (48 + n) as char
    } else {
        (55 + n) as char
    }
}

/// `c` is an ASCII hex digit (`char::is_ascii_hexdigit`).
pub open spec fn is_hex_digit(c: char) -> bool {
    ('0' <= c && c <= '9') || ('a' <= c && c <= 'f') || ('A' <= c && c <= 'F')
}

/// The value of the hex digit `c`.
pub open spec fn hex_val(c: char) -> int {
    if '0' <= c && c <= '9' {
        c as int - 48
    } else if 'a' <= c && c <= 'f' {
        c as int - 87
    } else {
        c as int - 55
    }
}

/// The byte spelt by the hex digits `hi` and `lo`.
pub open spec fn hex_byte(hi: char, lo: char) -> int {
    hex_val(hi) * 16 + hex_val(lo)
}

/// The two hex digits of `v`.
pub open spec fn byte_hex(v: u8) -> Seq<char> {
    seq![hex_digit(v as int / 16), hex_digit(v as int % 16)]
}

/// The hex string of a colour: `#RRGGBBAA`.
pub open spec fn spec_to_hex(c: Rgba8) -> Seq<char> {
    seq!['#'] + byte_hex(c.r) + byte_hex(c.g) + byte_hex(c.b) + byte_hex(c.a)
}

/// `s` without its leading `'#'` characters (`trim_start_matches('#')`).
pub open spec fn strip_hashes(s: Seq<char>) -> Seq<char>
    decreases s.len(),
{
    if s.len() > 0 && s[0] == '#' {
        strip_hashes(s.drop_first())
    } else {
        s
    }
}

/// `s` spells `transparent`, ignoring ASCII case.
pub open spec fn is_transparent_word(s: Seq<char>) -> bool {
    s.map_values(|c: char| ascii_lower(c)) == seq!['t', 'r', 'a', 'n', 's', 'p', 'a', 'r', 'e', 'n', 't']
}

/// The colour that a hex string stands for.
pub open spec fn spec_from_hex(s: Seq<char>) -> Rgba8 {
    let h = strip_hashes(s);
    if is_transparent_word(s) || h.len() < 6 || exists|i: int| 0 <= i < h.len() && !is_hex_digit(#[trigger] h[i]) {
        Rgba8 { r: 0, g: 0, b: 0, a: 0 }
    } else {
        Rgba8 {
            r: hex_byte(h[0], h[1]) as u8,
            g: hex_byte(h[2], h[3]) as u8,
            b: hex_byte(h[4], h[5]) as u8,
            a: if h.len() >= 8 { hex_byte(h[6], h[7]) as u8 } else { 255 },
        }
    }
}

fn hex_digit_of(n: u8) -> (c: char)
    requires
        n < 16,
    ensures
        c == hex_digit(n as int),
{
    if n < 10 {
        ((48 + n) as u8) as char
    } else {
        ((55 + n) as u8) as char
    }
}

fn hex_val_of(c: char) -> (v: u8)
    requires
        is_hex_digit(c),
    ensures
        v as int == hex_val(c),
        v < 16,
{
    if '0' <= c && c <= '9' {
        ((c as u32) - 48) as u8
    } else if 'a' <= c && c <= 'f' {
        ((c as u32) - 87) as u8
    } else {
        ((c as u32) - 55) as u8
    }
}

fn push_byte(s: &mut String, v: u8)
    ensures
        final(s)@ == old(s)@ + byte_hex(v),
{
    push_char(s, hex_digit_of(v / 16));
    push_char(s, hex_digit_of(v % 16));
    assert(final(s)@ =~= old(s)@ + byte_hex(v));
}

fn byte_at(h: &[char], i: usize) -> (v: u8)
    requires
        i + 1 < h@.len(),
        is_hex_digit(h@[i as int]),
        is_hex_digit(h@[i + 1]),
    ensures
        v as int == hex_byte(h@[i as int], h@[i + 1]),
{
    let hi = hex_val_of(h[i]);
    let lo = hex_val_of(h[i + 1]);
    hi * 16 + lo
}

impl HexSupport for Rgba8 {
    fn to_hex(&self) -> (s: String)
        ensures
            s@ == spec_to_hex(*self),
    {
        let mut s = String::new();
        push_char(&mut s, '#');
        push_byte(&mut s, self.r);
        push_byte(&mut s, self.g);
        push_byte(&mut s, self.b);
        push_byte(&mut s, self.a);
        assert(s@ =~= spec_to_hex(*self));
        s
    }

    fn from_hex(hex: &str) -> (c: Self)
        ensures
            c == spec_from_hex(hex@),
    {
        let cs = chars_of(hex);
        let zero = Rgba8 { r: 0, g: 0, b: 0, a: 0 };
        let word = ['t', 'r', 'a', 'n', 's', 'p', 'a', 'r', 'e', 'n', 't'];
        if cs.len() == 11 {
            let mut i: usize = 0;
            let mut same = true;
            while i < 11
                invariant
                    cs@.len() == 11,
                    i <= 11,
                    word@ == seq!['t', 'r', 'a', 'n', 's', 'p', 'a', 'r', 'e', 'n', 't'],
                    same == forall|k: int| 0 <= k < i ==> ascii_lower(cs@[k]) == word@[k],
                decreases 11 - i,
            {
                if ascii_lower_char(cs[i]) != word[i] {
                    same = false;
                }
                i = i + 1;
            }
            if same {
                assert(cs@.map_values(|c: char| ascii_lower(c)) =~= word@);
                return zero;
            }
            assert(!is_transparent_word(hex@)) by {
                if is_transparent_word(hex@) {
                    let k = choose|k: int| 0 <= k < 11 && ascii_lower(cs@[k]) != word@[k];
                    assert(cs@.map_values(|c: char| ascii_lower(c))[k] == ascii_lower(cs@[k]));
                }
            }
        } else {
            assert(!is_transparent_word(hex@)) by {
                if is_transparent_word(hex@) {
                    assert(cs@.map_values(|c: char| ascii_lower(c)).len() == cs@.len());
                }
            }
        }
        let mut start: usize = 0;
        assert(cs@.skip(0) =~= cs@);
        while start < cs.len() && cs[start] == '#'
            invariant
                start <= cs@.len(),
                strip_hashes(cs@.skip(start as int)) == strip_hashes(hex@),
                cs@ == hex@,
            decreases cs@.len() - start,
        {
            assert(cs@.skip(start as int).drop_first() =~= cs@.skip(start + 1));
            start = start + 1;
        }
        let ghost h = strip_hashes(hex@);
        assert(cs@.skip(start as int) == h) by {
            assert(cs@.skip(0) =~= cs@);
        }
        let n = cs.len() - start;
        assert(h.len() == n);
        if n < 6 {
            return zero;
        }
        let mut k: usize = start;
        while k < cs.len()
            invariant
                start <= k <= cs@.len(),
                cs@.skip(start as int) == h,
                h == strip_hashes(hex@),
                !is_transparent_word(hex@),
                forall|j: int| start <= j < k ==> is_hex_digit(#[trigger] cs@[j]),
            decreases cs@.len() - k,
        {
            let c = cs[k];
            if !(('0' <= c && c <= '9') || ('a' <= c && c <= 'f') || ('A' <= c && c <= 'F')) {
                assert(!is_hex_digit(h[k - start]));
                return Rgba8 { r: 0, g: 0, b: 0, a: 0 };
            }
            k = k + 1;
        }
        assert forall|i: int| 0 <= i < h.len() implies is_hex_digit(#[trigger] h[i]) by {
            assert(h[i] == cs@[start + i]);
        }
        assert(h[0] == cs@[start as int] && h[1] == cs@[start + 1] && h[2] == cs@[start + 2]);
        assert(h[3] == cs@[start + 3] && h[4] == cs@[start + 4] && h[5] == cs@[start + 5]);
        let r = byte_at(cs.as_slice(), start);
        let g = byte_at(cs.as_slice(), start + 2);
        let b = byte_at(cs.as_slice(), start + 4);
        let a = if n >= 8 {
            assert(h[6] == cs@[start + 6] && h[7] == cs@[start + 7]);
            byte_at(cs.as_slice(), start + 6)
        } else {
            255
        };
        Rgba8 { r, g, b, a }
    }
}

proof fn lemma_byte_roundtrip(v: u8)
    ensures
        is_hex_digit(byte_hex(v)[0]),
        is_hex_digit(byte_hex(v)[1]),
        hex_byte(byte_hex(v)[0], byte_hex(v)[1]) == v as int,
{
    let hi = v as int / 16;
    let lo = v as int % 16;
    assert(hi < 16);
}

/// Reading back the hex string of a colour gives the colour.
pub proof fn law_hex_roundtrip(c: Rgba8)
    ensures
        spec_from_hex(spec_to_hex(c)) == c,
{
    let s = spec_to_hex(c);
    assert(s.drop_first() =~= byte_hex(c.r) + byte_hex(c.g) + byte_hex(c.b) + byte_hex(c.a));
    let h = s.drop_first();
    assert(strip_hashes(h) == h);
    assert(strip_hashes(s) == h);
    lemma_byte_roundtrip(c.r);
    lemma_byte_roundtrip(c.g);
    lemma_byte_roundtrip(c.b);
    lemma_byte_roundtrip(c.a);
    assert forall|i: int| 0 <= i < h.len() implies is_hex_digit(#[trigger] h[i]) by {
        if i < 2 {
            assert(h[i] == byte_hex(c.r)[i]);
        } else if i < 4 {
            assert(h[i] == byte_hex(c.g)[i - 2]);
        } else if i < 6 {
            assert(h[i] == byte_hex(c.b)[i - 4]);
        } else {
            assert(h[i] == byte_hex(c.a)[i - 6]);
        }
    }
    assert(!is_transparent_word(s)) by {
        assert(s.map_values(|ch: char| ascii_lower(ch))[0] == '#');
    }
}

} // verus!
