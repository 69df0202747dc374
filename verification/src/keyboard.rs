//! Keyboard bindings: parsing of binding strings and the per-frame action state.
use vstd::prelude::*;
use crate::text::{
    chars_eq, chars_of, lowered_range, name_lower, split_ranges, split_spec, trim, trim_bounds,
};
use crate::names::{contains_name, name_set, names_without};

verus! {

/// A physical key that a binding can name.
#[derive(Clone, Copy, PartialEq, Eq, Structural, Debug, Hash)]
pub enum Key {
    LeftControl,
    RightControl,
    LeftShift,
    RightShift,
    LeftAlt,
    RightAlt,
    LeftSuper,
    RightSuper,
    Up,
    Down,
    Left,
    Right,
    Enter,
    Space,
    Escape,
    Tab,
    Backspace,
    Delete,
    Insert,
    Home,
    End,
    PageUp,
    PageDown,
    CapsLock,
    Pause,
    PrintScreen,
    F1,
    F2,
    F3,
    F4,
    F5,
    F6,
    F7,
    F8,
    F9,
    F10,
    F11,
    F12,
    A,
    B,
    C,
    D,
    E,
    F,
    G,
    H,
    I,
    J,
    K,
    L,
    M,
    N,
    O,
    P,
    Q,
    R,
    S,
    T,
    U,
    V,
    W,
    X,
    Y,
    Z,
    Key0,
    Key1,
    Key2,
    Key3,
    Key4,
    Key5,
    Key6,
    Key7,
    Key8,
    Key9,
}

impl DeepView for Key {
    type V = Key;

    open spec fn deep_view(&self) -> Key {
        *self
    }
}

/// One or more keys treated as equivalent: any of them being down satisfies the group.
pub type KeyGroup = Vec<Key>;

/// Key groups that must all be down at once (`"Ctrl+S"`).
pub type Combo = Vec<KeyGroup>;

/// The combos of one action, any of which triggers it (`"W|ArrowUp"`).
pub type Alternatives = Vec<Combo>;

/// The key of a single-character name (letters and digits).
pub open spec fn char_key_code(c: char) -> Option<Key> {
    if c == 'a' {
        Some(Key::A)
    } else if c == 'b' {
        Some(Key::B)
    } else if c == 'c' {
        Some(Key::C)
    } else if c == 'd' {
        Some(Key::D)
    } else if c == 'e' {
        Some(Key::E)
    } else if c == 'f' {
        Some(Key::F)
    } else if c == 'g' {
        Some(Key::G)
    } else if c == 'h' {
        Some(Key::H)
    } else if c == 'i' {
        Some(Key::I)
    } else if c == 'j' {
        Some(Key::J)
    } else if c == 'k' {
        Some(Key::K)
    } else if c == 'l' {
        Some(Key::L)
    } else if c == 'm' {
        Some(Key::M)
    } else if c == 'n' {
        Some(Key::N)
    } else if c == 'o' {
        Some(Key::O)
    } else if c == 'p' {
        Some(Key::P)
    } else if c == 'q' {
        Some(Key::Q)
    } else if c == 'r' {
        Some(Key::R)
    } else if c == 's' {
        Some(Key::S)
    } else if c == 't' {
        Some(Key::T)
    } else if c == 'u' {
        Some(Key::U)
    } else if c == 'v' {
        Some(Key::V)
    } else if c == 'w' {
        Some(Key::W)
    } else if c == 'x' {
        Some(Key::X)
    } else if c == 'y' {
        Some(Key::Y)
    } else if c == 'z' {
        Some(Key::Z)
    } else if c == '0' {
        Some(Key::Key0)
    } else if c == '1' {
        Some(Key::Key1)
    } else if c == '2' {
        Some(Key::Key2)
    } else if c == '3' {
        Some(Key::Key3)
    } else if c == '4' {
        Some(Key::Key4)
    } else if c == '5' {
        Some(Key::Key5)
    } else if c == '6' {
        Some(Key::Key6)
    } else if c == '7' {
        Some(Key::Key7)
    } else if c == '8' {
        Some(Key::Key8)
    } else if c == '9' {
        Some(Key::Key9)
    } else {
        None
    }
}

/// The keys of a single-character key name, or none.
pub open spec fn char_key(n: Seq<char>) -> Seq<Key> {
    if n.len() == 1 && char_key_code(n[0]) is Some {
        seq![char_key_code(n[0])->0]
    } else {
        Seq::empty()
    }
}

/// The keys that an already lower-cased key name stands for; empty for an unknown name.
pub open spec fn key_group(n: Seq<char>) -> Seq<Key> {
    if n == seq!['c', 't', 'r', 'l'] || n == seq!['c', 'o', 'n', 't', 'r', 'o', 'l'] {
        seq![Key::LeftControl, Key::RightControl]
    } else if n == seq!['s', 'h', 'i', 'f', 't'] {
        seq![Key::LeftShift, Key::RightShift]
    } else if n == seq!['a', 'l', 't'] {
        seq![Key::LeftAlt, Key::RightAlt]
    } else if n == seq!['s', 'u', 'p', 'e', 'r'] || n == seq!['w', 'i', 'n'] || n == seq!['c', 'm', 'd'] || n == seq!['m', 'e', 't', 'a'] {
        seq![Key::LeftSuper, Key::RightSuper]
    } else if n == seq!['l', 'e', 'f', 't', 'c', 't', 'r', 'l'] || n == seq!['l', 'e', 'f', 't', 'c', 'o', 'n', 't', 'r', 'o', 'l'] {
        seq![Key::LeftControl]
    } else if n == seq!['r', 'i', 'g', 'h', 't', 'c', 't', 'r', 'l'] || n == seq!['r', 'i', 'g', 'h', 't', 'c', 'o', 'n', 't', 'r', 'o', 'l'] {
        seq![Key::RightControl]
    } else if n == seq!['l', 'e', 'f', 't', 's', 'h', 'i', 'f', 't'] {
        seq![Key::LeftShift]
    } else if n == seq!['r', 'i', 'g', 'h', 't', 's', 'h', 'i', 'f', 't'] {
        seq![Key::RightShift]
    } else if n == seq!['l', 'e', 'f', 't', 'a', 'l', 't'] {
        seq![Key::LeftAlt]
    } else if n == seq!['r', 'i', 'g', 'h', 't', 'a', 'l', 't'] {
        seq![Key::RightAlt]
    } else if n == seq!['a', 'r', 'r', 'o', 'w', 'u', 'p'] || n == seq!['u', 'p'] {
        seq![Key::Up]
    } else if n == seq!['a', 'r', 'r', 'o', 'w', 'd', 'o', 'w', 'n'] || n == seq!['d', 'o', 'w', 'n'] {
        seq![Key::Down]
    } else if n == seq!['a', 'r', 'r', 'o', 'w', 'l', 'e', 'f', 't'] || n == seq!['l', 'e', 'f', 't'] {
        seq![Key::Left]
    } else if n == seq!['a', 'r', 'r', 'o', 'w', 'r', 'i', 'g', 'h', 't'] || n == seq!['r', 'i', 'g', 'h', 't'] {
        seq![Key::Right]
    } else if n == seq!['e', 'n', 't', 'e', 'r'] || n == seq!['r', 'e', 't', 'u', 'r', 'n'] {
        seq![Key::Enter]
    } else if n == seq!['s', 'p', 'a', 'c', 'e'] {
        seq![Key::Space]
    } else if n == seq!['e', 's', 'c', 'a', 'p', 'e'] || n == seq!['e', 's', 'c'] {
        seq![Key::Escape]
    } else if n == seq!['t', 'a', 'b'] {
        seq![Key::Tab]
    } else if n == seq!['b', 'a', 'c', 'k', 's', 'p', 'a', 'c', 'e'] {
        seq![Key::Backspace]
    } else if n == seq!['d', 'e', 'l', 'e', 't', 'e'] || n == seq!['d', 'e', 'l'] {
        seq![Key::Delete]
    } else if n == seq!['i', 'n', 's', 'e', 'r', 't'] || n == seq!['i', 'n', 's'] {
        seq![Key::Insert]
    } else if n == seq!['h', 'o', 'm', 'e'] {
        seq![Key::Home]
    } else if n == seq!['e', 'n', 'd'] {
        seq![Key::End]
    } else if n == seq!['p', 'a', 'g', 'e', 'u', 'p'] {
        seq![Key::PageUp]
    } else if n == seq!['p', 'a', 'g', 'e', 'd', 'o', 'w', 'n'] {
        seq![Key::PageDown]
    } else if n == seq!['c', 'a', 'p', 's', 'l', 'o', 'c', 'k'] {
        seq![Key::CapsLock]
    } else if n == seq!['p', 'a', 'u', 's', 'e'] {
        seq![Key::Pause]
    } else if n == seq!['p', 'r', 'i', 'n', 't', 's', 'c', 'r', 'e', 'e', 'n'] {
        seq![Key::PrintScreen]
    } else if n == seq!['f', '1'] {
        seq![Key::F1]
    } else if n == seq!['f', '2'] {
        seq![Key::F2]
    } else if n == seq!['f', '3'] {
        seq![Key::F3]
    } else if n == seq!['f', '4'] {
        seq![Key::F4]
    } else if n == seq!['f', '5'] {
        seq![Key::F5]
    } else if n == seq!['f', '6'] {
        seq![Key::F6]
    } else if n == seq!['f', '7'] {
        seq![Key::F7]
    } else if n == seq!['f', '8'] {
        seq![Key::F8]
    } else if n == seq!['f', '9'] {
        seq![Key::F9]
    } else if n == seq!['f', '1', '0'] {
        seq![Key::F10]
    } else if n == seq!['f', '1', '1'] {
        seq![Key::F11]
    } else if n == seq!['f', '1', '2'] {
        seq![Key::F12]
    } else {
        char_key(n)
    }
}

/// The keys that a key name stands for, compared case-insensitively.
pub open spec fn spec_parse_key_group(name: Seq<char>) -> Seq<Key> {
    key_group(name.map_values(|c: char| name_lower(c)))
}

fn char_key_code_of(c: char) -> (r: Option<Key>)
    ensures
        r == char_key_code(c),
{
    if c == 'a' {
        Some(Key::A)
    } else if c == 'b' {
        Some(Key::B)
    } else if c == 'c' {
        Some(Key::C)
    } else if c == 'd' {
        Some(Key::D)
    } else if c == 'e' {
        Some(Key::E)
    } else if c == 'f' {
        Some(Key::F)
    } else if c == 'g' {
        Some(Key::G)
    } else if c == 'h' {
        Some(Key::H)
    } else if c == 'i' {
        Some(Key::I)
    } else if c == 'j' {
        Some(Key::J)
    } else if c == 'k' {
        Some(Key::K)
    } else if c == 'l' {
        Some(Key::L)
    } else if c == 'm' {
        Some(Key::M)
    } else if c == 'n' {
        Some(Key::N)
    } else if c == 'o' {
        Some(Key::O)
    } else if c == 'p' {
        Some(Key::P)
    } else if c == 'q' {
        Some(Key::Q)
    } else if c == 'r' {
        Some(Key::R)
    } else if c == 's' {
        Some(Key::S)
    } else if c == 't' {
        Some(Key::T)
    } else if c == 'u' {
        Some(Key::U)
    } else if c == 'v' {
        Some(Key::V)
    } else if c == 'w' {
        Some(Key::W)
    } else if c == 'x' {
        Some(Key::X)
    } else if c == 'y' {
        Some(Key::Y)
    } else if c == 'z' {
        Some(Key::Z)
    } else if c == '0' {
        Some(Key::Key0)
    } else if c == '1' {
        Some(Key::Key1)
    } else if c == '2' {
        Some(Key::Key2)
    } else if c == '3' {
        Some(Key::Key3)
    } else if c == '4' {
        Some(Key::Key4)
    } else if c == '5' {
        Some(Key::Key5)
    } else if c == '6' {
        Some(Key::Key6)
    } else if c == '7' {
        Some(Key::Key7)
    } else if c == '8' {
        Some(Key::Key8)
    } else if c == '9' {
        Some(Key::Key9)
    } else {
        None
    }
}


fn char_key_of(n: &[char]) -> (r: Vec<Key>)
    ensures
        r@ == char_key(n@),
{
    if n.len() == 1 {
        match char_key_code_of(n[0]) {
            Some(k) => vec![k],
            None => Vec::new(),
        }
    } else {
        Vec::new()
    }
}

fn key_group_of(n: &[char]) -> (r: Vec<Key>)
    ensures
        r@ == key_group(n@),
{
    if chars_eq(n, &['c', 't', 'r', 'l']) || chars_eq(n, &['c', 'o', 'n', 't', 'r', 'o', 'l']) {
        vec![Key::LeftControl, Key::RightControl]
    } else if chars_eq(n, &['s', 'h', 'i', 'f', 't']) {
        vec![Key::LeftShift, Key::RightShift]
    } else if chars_eq(n, &['a', 'l', 't']) {
        vec![Key::LeftAlt, Key::RightAlt]
    } else if chars_eq(n, &['s', 'u', 'p', 'e', 'r']) || chars_eq(n, &['w', 'i', 'n']) || chars_eq(n, &['c', 'm', 'd']) || chars_eq(n, &['m', 'e', 't', 'a']) {
        vec![Key::LeftSuper, Key::RightSuper]
    } else if chars_eq(n, &['l', 'e', 'f', 't', 'c', 't', 'r', 'l']) || chars_eq(n, &['l', 'e', 'f', 't', 'c', 'o', 'n', 't', 'r', 'o', 'l']) {
        vec![Key::LeftControl]
    } else if chars_eq(n, &['r', 'i', 'g', 'h', 't', 'c', 't', 'r', 'l']) || chars_eq(n, &['r', 'i', 'g', 'h', 't', 'c', 'o', 'n', 't', 'r', 'o', 'l']) {
        vec![Key::RightControl]
    } else if chars_eq(n, &['l', 'e', 'f', 't', 's', 'h', 'i', 'f', 't']) {
        vec![Key::LeftShift]
    } else if chars_eq(n, &['r', 'i', 'g', 'h', 't', 's', 'h', 'i', 'f', 't']) {
        vec![Key::RightShift]
    } else if chars_eq(n, &['l', 'e', 'f', 't', 'a', 'l', 't']) {
        vec![Key::LeftAlt]
    } else if chars_eq(n, &['r', 'i', 'g', 'h', 't', 'a', 'l', 't']) {
        vec![Key::RightAlt]
    } else if chars_eq(n, &['a', 'r', 'r', 'o', 'w', 'u', 'p']) || chars_eq(n, &['u', 'p']) {
        vec![Key::Up]
    } else if chars_eq(n, &['a', 'r', 'r', 'o', 'w', 'd', 'o', 'w', 'n']) || chars_eq(n, &['d', 'o', 'w', 'n']) {
        vec![Key::Down]
    } else if chars_eq(n, &['a', 'r', 'r', 'o', 'w', 'l', 'e', 'f', 't']) || chars_eq(n, &['l', 'e', 'f', 't']) {
        vec![Key::Left]
    } else if chars_eq(n, &['a', 'r', 'r', 'o', 'w', 'r', 'i', 'g', 'h', 't']) || chars_eq(n, &['r', 'i', 'g', 'h', 't']) {
        vec![Key::Right]
    } else if chars_eq(n, &['e', 'n', 't', 'e', 'r']) || chars_eq(n, &['r', 'e', 't', 'u', 'r', 'n']) {
        vec![Key::Enter]
    } else if chars_eq(n, &['s', 'p', 'a', 'c', 'e']) {
        vec![Key::Space]
    } else if chars_eq(n, &['e', 's', 'c', 'a', 'p', 'e']) || chars_eq(n, &['e', 's', 'c']) {
        vec![Key::Escape]
    } else if chars_eq(n, &['t', 'a', 'b']) {
        vec![Key::Tab]
    } else if chars_eq(n, &['b', 'a', 'c', 'k', 's', 'p', 'a', 'c', 'e']) {
        vec![Key::Backspace]
    } else if chars_eq(n, &['d', 'e', 'l', 'e', 't', 'e']) || chars_eq(n, &['d', 'e', 'l']) {
        vec![Key::Delete]
    } else if chars_eq(n, &['i', 'n', 's', 'e', 'r', 't']) || chars_eq(n, &['i', 'n', 's']) {
        vec![Key::Insert]
    } else if chars_eq(n, &['h', 'o', 'm', 'e']) {
        vec![Key::Home]
    } else if chars_eq(n, &['e', 'n', 'd']) {
        vec![Key::End]
    } else if chars_eq(n, &['p', 'a', 'g', 'e', 'u', 'p']) {
        vec![Key::PageUp]
    } else if chars_eq(n, &['p', 'a', 'g', 'e', 'd', 'o', 'w', 'n']) {
        vec![Key::PageDown]
    } else if chars_eq(n, &['c', 'a', 'p', 's', 'l', 'o', 'c', 'k']) {
        vec![Key::CapsLock]
    } else if chars_eq(n, &['p', 'a', 'u', 's', 'e']) {
        vec![Key::Pause]
    } else if chars_eq(n, &['p', 'r', 'i', 'n', 't', 's', 'c', 'r', 'e', 'e', 'n']) {
        vec![Key::PrintScreen]
    } else if chars_eq(n, &['f', '1']) {
        vec![Key::F1]
    } else if chars_eq(n, &['f', '2']) {
        vec![Key::F2]
    } else if chars_eq(n, &['f', '3']) {
        vec![Key::F3]
    } else if chars_eq(n, &['f', '4']) {
        vec![Key::F4]
    } else if chars_eq(n, &['f', '5']) {
        vec![Key::F5]
    } else if chars_eq(n, &['f', '6']) {
        vec![Key::F6]
    } else if chars_eq(n, &['f', '7']) {
        vec![Key::F7]
    } else if chars_eq(n, &['f', '8']) {
        vec![Key::F8]
    } else if chars_eq(n, &['f', '9']) {
        vec![Key::F9]
    } else if chars_eq(n, &['f', '1', '0']) {
        vec![Key::F10]
    } else if chars_eq(n, &['f', '1', '1']) {
        vec![Key::F11]
    } else if chars_eq(n, &['f', '1', '2']) {
        vec![Key::F12]
    } else {
        char_key_of(n)
    }
}

/// The non-empty elements of `s`, in order.
pub open spec fn keep_nonempty<T>(s: Seq<Seq<T>>) -> Seq<Seq<T>>
    decreases s.len(),
{
    if s.len() == 0 {
        Seq::empty()
    } else if s.last().len() > 0 {
        keep_nonempty(s.drop_last()).push(s.last())
    } else {
        keep_nonempty(s.drop_last())
    }
}

/// The combo of one alternative (`"Ctrl+S"`): its `+`-separated key names,
/// each trimmed and looked up; unknown names are left out.
pub open spec fn combo_spec(alt: Seq<char>) -> Seq<Seq<Key>> {
    keep_nonempty(split_spec(trim(alt), '+').map_values(|p: Seq<char>| spec_parse_key_group(trim(p))))
}

/// The alternatives of a binding string (`"W|ArrowUp"`): its `|`-separated
/// combos; combos in which no key name was known are left out.
pub open spec fn binding_spec(bind: Seq<char>) -> Seq<Seq<Seq<Key>>> {
    keep_nonempty(split_spec(bind, '|').map_values(|alt: Seq<char>| combo_spec(alt)))
}

/// Maps a key-name string to the keys it stands for; modifier aliases such as
/// `"Ctrl"` stand for both the left and the right key. Unknown names give no key.
pub fn parse_key_group(key_str: &str) -> (r: KeyGroup)
    ensures
        r@ == spec_parse_key_group(key_str@),
{
    let cs = chars_of(key_str);
    let n = cs.len();
    assert(cs@.subrange(0, n as int) == cs@);
    group_in(cs.as_slice(), 0, n)
}

/// The key of a one-character name (a letter or a digit), or none.
pub fn parse_char_key(s: &str) -> (r: KeyGroup)
    ensures
        r@ == char_key(s@.map_values(|c: char| crate::text::ascii_lower(c))),
{
    let cs = chars_of(s);
    let n = cs.len();
    let low = lowered_range(cs.as_slice(), 0, n, true);
    assert(cs@.subrange(0, n as int) == cs@);
    assert(low@ =~= s@.map_values(|c: char| crate::text::ascii_lower(c)));
    char_key_of(low.as_slice())
}

fn group_in(cs: &[char], from: usize, to: usize) -> (r: Vec<Key>)
    requires
        from <= to <= cs@.len(),
    ensures
        r@ == spec_parse_key_group(cs@.subrange(from as int, to as int)),
{
    let low = lowered_range(cs, from, to, false);
    assert(low@ =~= cs@.subrange(from as int, to as int).map_values(|c: char| name_lower(c)));
    key_group_of(low.as_slice())
}

fn combo_in(cs: &[char], from: usize, to: usize) -> (r: Combo)
    requires
        from <= to <= cs@.len(),
    ensures
        r.deep_view() == combo_spec(cs@.subrange(from as int, to as int)),
{
    let (lo, hi) = trim_bounds(cs, from, to);
    let pieces = split_ranges(cs, lo, hi, '+');
    let ghost parts = split_spec(cs@.subrange(lo as int, hi as int), '+').map_values(
        |p: Seq<char>| spec_parse_key_group(trim(p)),
    );
    let mut r: Combo = Vec::new();
    let mut i: usize = 0;
    while i < pieces.len()
        invariant
            lo <= hi <= cs@.len(),
            i <= pieces@.len(),
            parts.len() == pieces@.len(),
            parts == split_spec(cs@.subrange(lo as int, hi as int), '+').map_values(
                |p: Seq<char>| spec_parse_key_group(trim(p)),
            ),
            forall|j: int| 0 <= j < pieces@.len() ==> {
                &&& lo <= (#[trigger] pieces@[j]).0 <= pieces@[j].1 <= hi
                &&& cs@.subrange(pieces@[j].0 as int, pieces@[j].1 as int) == split_spec(
                    cs@.subrange(lo as int, hi as int),
                    '+',
                )[j]
            },
            r.deep_view() == keep_nonempty(parts.take(i as int)),
        decreases pieces@.len() - i,
    {
        let (a, b) = pieces[i];
        let (ta, tb) = trim_bounds(cs, a, b);
        let g = group_in(cs, ta, tb);
        let ghost old_r = r.deep_view();
        assert(g.deep_view() =~= g@);
        assert(parts[i as int] == g@);
        assert(parts.take(i + 1).drop_last() =~= parts.take(i as int));
        if g.len() > 0 {
            r.push(g);
            assert(r.deep_view() =~= old_r.push(g@));
        }
        i = i + 1;
    }
    assert(parts.take(pieces@.len() as int) =~= parts);
    r
}

/// Parses a binding string into its alternatives (see [`binding_spec`]).
pub fn parse_binding(bind: &str) -> (r: Alternatives)
    ensures
        r.deep_view() == binding_spec(bind@),
{
    let cs = chars_of(bind);
    let n = cs.len();
    assert(cs@.subrange(0, n as int) == cs@);
    let pieces = split_ranges(cs.as_slice(), 0, n, '|');
    let ghost parts = split_spec(cs@, '|').map_values(|alt: Seq<char>| combo_spec(alt));
    let mut r: Alternatives = Vec::new();
    let mut i: usize = 0;
    while i < pieces.len()
        invariant
            n == cs@.len(),
            cs@ == bind@,
            i <= pieces@.len(),
            parts.len() == pieces@.len(),
            parts == split_spec(cs@, '|').map_values(|alt: Seq<char>| combo_spec(alt)),
            forall|j: int| 0 <= j < pieces@.len() ==> {
                &&& 0 <= (#[trigger] pieces@[j]).0 <= pieces@[j].1 <= n
                &&& cs@.subrange(pieces@[j].0 as int, pieces@[j].1 as int) == split_spec(cs@, '|')[j]
            },
            r.deep_view() == keep_nonempty(parts.take(i as int)),
        decreases pieces@.len() - i,
    {
        let (a, b) = pieces[i];
        let c = combo_in(cs.as_slice(), a, b);
        let ghost old_r = r.deep_view();
        assert(parts[i as int] == c.deep_view());
        assert(parts.take(i + 1).drop_last() =~= parts.take(i as int));
        if c.len() > 0 {
            r.push(c);
            assert(r.deep_view() =~= old_r.push(c.deep_view()));
        }
        i = i + 1;
    }
    assert(parts.take(pieces@.len() as int) =~= parts);
    r
}

} // verus!

verus! {

/// Some key of group `g` is down.
pub open spec fn group_down(g: Seq<Key>, down: Seq<Key>) -> bool {
    exists|j: int| 0 <= j < g.len() && down.contains(#[trigger] g[j])
}

/// Every group of `c` has a key down.
pub open spec fn combo_down(c: Seq<Seq<Key>>, down: Seq<Key>) -> bool {
    forall|j: int| 0 <= j < c.len() ==> group_down(#[trigger] c[j], down)
}

/// Combo `c` names a key of group `g`.
pub open spec fn shares_key(c: Seq<Seq<Key>>, g: Seq<Key>) -> bool {
    exists|j: int, k: int| 0 <= j < c.len() && 0 <= k < c[j].len() && g.contains(#[trigger] c[j][k])
}

/// A combo of more than one group, registered for any action, that names a
/// key of `g` is fully down.
pub open spec fn blocked(binds: Seq<Seq<Seq<Seq<Key>>>>, g: Seq<Key>, down: Seq<Key>) -> bool {
    exists|a: int, c: int|
        0 <= a < binds.len() && 0 <= c < binds[a].len() && (#[trigger] binds[a][c]).len() > 1
            && shares_key(binds[a][c], g) && combo_down(binds[a][c], down)
}

/// Combo `c` triggers its action: it is down, and if it is a single group it
/// is not overruled by a longer combo that is down.
pub open spec fn combo_fires(binds: Seq<Seq<Seq<Seq<Key>>>>, c: Seq<Seq<Key>>, down: Seq<Key>) -> bool {
    combo_down(c, down) && !(c.len() == 1 && blocked(binds, c[0], down))
}

/// Action `a` (by index into `binds`) is held while the keys `down` are down.
pub open spec fn action_down(binds: Seq<Seq<Seq<Seq<Key>>>>, a: int, down: Seq<Key>) -> bool {
    exists|c: int| 0 <= c < binds[a].len() && combo_fires(binds, #[trigger] binds[a][c], down)
}

fn key_in(down: &[Key], k: Key) -> (r: bool)
    ensures
        r == down@.contains(k),
{
    let mut i: usize = 0;
    while i < down.len()
        invariant
            i <= down@.len(),
            forall|j: int| 0 <= j < i ==> down@[j] != k,
        decreases down@.len() - i,
    {
        if down[i] == k {
            return true;
        }
        i = i + 1;
    }
    false
}

fn group_is_down(g: &Vec<Key>, down: &[Key]) -> (r: bool)
    ensures
        r == group_down(g@, down@),
{
    let mut j: usize = 0;
    while j < g.len()
        invariant
            j <= g@.len(),
            forall|t: int| 0 <= t < j ==> !down@.contains(#[trigger] g@[t]),
        decreases g@.len() - j,
    {
        if key_in(down, g[j]) {
            return true;
        }
        j = j + 1;
    }
    false
}

fn combo_is_down(c: &Vec<Vec<Key>>, down: &[Key]) -> (r: bool)
    ensures
        r == combo_down(c.deep_view(), down@),
{
    let ghost cv = c.deep_view();
    let mut j: usize = 0;
    while j < c.len()
        invariant
            j <= c@.len(),
            cv == c.deep_view(),
            forall|t: int| 0 <= t < j ==> group_down(#[trigger] cv[t], down@),
        decreases c@.len() - j,
    {
        assert(cv[j as int] =~= c@[j as int]@);
        if !group_is_down(&c[j], down) {
            return false;
        }
        j = j + 1;
    }
    true
}

fn combo_shares(c: &Vec<Vec<Key>>, g: &Vec<Key>) -> (r: bool)
    ensures
        r == shares_key(c.deep_view(), g@),
{
    let ghost cv = c.deep_view();
    let mut j: usize = 0;
    while j < c.len()
        invariant
            j <= c@.len(),
            cv == c.deep_view(),
            forall|t: int, k: int| 0 <= t < j && 0 <= k < cv[t].len() ==> !g@.contains(#[trigger] cv[t][k]),
        decreases c@.len() - j,
    {
        assert(cv[j as int] =~= c@[j as int]@);
        let mut k: usize = 0;
        while k < c[j].len()
            invariant
                j < c@.len(),
                k <= c@[j as int]@.len(),
                cv == c.deep_view(),
                cv[j as int] == c@[j as int]@,
                forall|t: int, u: int| 0 <= t < j && 0 <= u < cv[t].len() ==> !g@.contains(#[trigger] cv[t][u]),
                forall|u: int| 0 <= u < k ==> !g@.contains(#[trigger] cv[j as int][u]),
            decreases c@[j as int]@.len() - k,
        {
            if key_in(g.as_slice(), c[j][k]) {
                assert(g@.contains(cv[j as int][k as int]));
                return true;
            }
            k = k + 1;
        }
        j = j + 1;
    }
    false
}

/// Keyboard input manager: named actions bound to keys, with the actions
/// held, newly pressed and newly released as of the last [`KeyboardManager::update`].
///
/// Bindings support alternatives (`"W|ArrowUp"`), combos (`"Ctrl+S"`) and
/// single keys (`"Ctrl"`); a single-key binding is suppressed while a longer
/// registered combo that shares its key is fully held.
pub struct KeyboardManager {
    keybinds: Vec<(String, Alternatives)>,
    raw_keybinds: Vec<(String, String)>,
    held_cache: Vec<String>,
    pressed_cache: Vec<String>,
    released_cache: Vec<String>,
}

/// The action names of `raw` are pairwise distinct.
pub open spec fn distinct_actions(raw: Seq<(String, String)>) -> bool {
    forall|i: int, j: int| 0 <= i < j < raw.len() ==> #[trigger] raw[i].0@ != #[trigger] raw[j].0@
}

/// The parsed bindings of `raw`, in order.
pub open spec fn parsed_bindings(raw: Seq<(String, String)>) -> Seq<Seq<Seq<Seq<Key>>>> {
    raw.map_values(|e: (String, String)| binding_spec(e.1@))
}

/// The action names of `raw` that are held while `down` is down.
pub open spec fn held_actions(raw: Seq<(String, String)>, down: Seq<Key>) -> Set<Seq<char>> {
    Set::new(
        |x: Seq<char>|
            exists|i: int| 0 <= i < raw.len() && #[trigger] raw[i].0@ == x && action_down(parsed_bindings(raw), i, down),
    )
}

/// The binding string of `action` in `raw`, if it has one.
pub open spec fn binding_of(raw: Seq<(String, String)>, action: Seq<char>) -> Option<Seq<char>> {
    if exists|i: int| 0 <= i < raw.len() && #[trigger] raw[i].0@ == action {
        let i = choose|i: int| 0 <= i < raw.len() && #[trigger] raw[i].0@ == action;
        Some(raw[i].1@)
    } else {
        None
    }
}

/// Position of the entry of `key` in `raw`, if any.
fn action_index(raw: &Vec<(String, String)>, key: &String) -> (r: Option<usize>)
    ensures
        r matches Some(i) ==> i < raw@.len() && raw@[i as int].0@ == key@,
        r is None ==> forall|k: int| 0 <= k < raw@.len() ==> (#[trigger] raw@[k]).0@ != key@,
{
    let mut i: usize = 0;
    while i < raw.len()
        invariant
            i <= raw@.len(),
            forall|k: int| 0 <= k < i ==> (#[trigger] raw@[k]).0@ != key@,
        decreases raw@.len() - i,
    {
        if raw[i].0 == *key {
            return Some(i);
        }
        i = i + 1;
    }
    None
}

impl KeyboardManager {
    #[verifier::type_invariant]
    closed spec fn wf(self) -> bool {
        &&& distinct_actions(self.raw_keybinds@)
        &&& self.keybinds@.len() == self.raw_keybinds@.len()
        &&& forall|i: int| 0 <= i < self.keybinds@.len() ==> {
            &&& (#[trigger] self.keybinds@[i]).0@ == self.raw_keybinds@[i].0@
            &&& self.keybinds@[i].1.deep_view() == binding_spec(self.raw_keybinds@[i].1@)
        }
    }

    /// The raw bindings: (action, binding string) entries with distinct actions.
    pub closed spec fn raw(self) -> Seq<(String, String)> {
        self.raw_keybinds@
    }

    /// Actions held at the last update.
    pub closed spec fn held(self) -> Set<Seq<char>> {
        name_set(self.held_cache@)
    }

    /// Actions that became held at the last update.
    pub closed spec fn pressed(self) -> Set<Seq<char>> {
        name_set(self.pressed_cache@)
    }

    /// Actions that stopped being held at the last update.
    pub closed spec fn released(self) -> Set<Seq<char>> {
        name_set(self.released_cache@)
    }

    fn parse_keybinds(raw: &Vec<(String, String)>) -> (r: Vec<(String, Alternatives)>)
        ensures
            r@.len() == raw@.len(),
            forall|i: int| 0 <= i < r@.len() ==> {
                &&& (#[trigger] r@[i]).0@ == raw@[i].0@
                &&& r@[i].1.deep_view() == binding_spec(raw@[i].1@)
            },
    {
        let mut r: Vec<(String, Alternatives)> = Vec::new();
        let mut i: usize = 0;
        while i < raw.len()
            invariant
                i <= raw@.len(),
                r@.len() == i,
                forall|k: int| 0 <= k < i ==> {
                    &&& (#[trigger] r@[k]).0@ == raw@[k].0@
                    &&& r@[k].1.deep_view() == binding_spec(raw@[k].1@)
                },
            decreases raw@.len() - i,
        {
            let alts = parse_binding(raw[i].1.as_str());
            r.push((raw[i].0.clone(), alts));
            i = i + 1;
        }
        r
    }

    /// Creates the manager from (action, binding string) entries.
    pub fn init(keybinds: Vec<(String, String)>) -> (r: Self)
        requires
            distinct_actions(keybinds@),
        ensures
            r.raw() == keybinds@,
            r.held() == Set::<Seq<char>>::empty(),
            r.pressed() == Set::<Seq<char>>::empty(),
            r.released() == Set::<Seq<char>>::empty(),
    {
        let parsed = Self::parse_keybinds(&keybinds);
        let r = KeyboardManager {
            keybinds: parsed,
            raw_keybinds: keybinds,
            held_cache: Vec::new(),
            pressed_cache: Vec::new(),
            released_cache: Vec::new(),
        };
        assert(name_set(Seq::<String>::empty()) =~= Set::<Seq<char>>::empty());
        r
    }

    fn blocked_exec(&self, g: &Vec<Key>, down: &[Key]) -> (r: bool)
        ensures
            r == blocked(parsed_bindings(self.raw()), g@, down@),
    {
        proof {
            use_type_invariant(self);
        }
        let ghost binds = parsed_bindings(self.raw());
        let mut a: usize = 0;
        while a < self.keybinds.len()
            invariant
                a <= self.keybinds@.len(),
                binds == parsed_bindings(self.raw()),
                binds.len() == self.keybinds@.len(),
                forall|t: int| 0 <= t < self.keybinds@.len() ==> #[trigger] binds[t] == self.keybinds@[t].1.deep_view(),
                forall|t: int, c: int|
                    0 <= t < a && 0 <= c < binds[t].len() ==> !((#[trigger] binds[t][c]).len() > 1
                        && shares_key(binds[t][c], g@) && combo_down(binds[t][c], down@)),
            decreases self.keybinds@.len() - a,
        {
            let alts = &self.keybinds[a].1;
            assert(binds[a as int] == alts.deep_view());
            let mut c: usize = 0;
            while c < alts.len()
                invariant
                    a < self.keybinds@.len(),
                    a < binds.len(),
                    binds == parsed_bindings(self.raw()),
                    c <= alts@.len(),
                    binds[a as int] == alts.deep_view(),
                    forall|t: int, u: int|
                        0 <= t < a && 0 <= u < binds[t].len() ==> !((#[trigger] binds[t][u]).len() > 1
                            && shares_key(binds[t][u], g@) && combo_down(binds[t][u], down@)),
                    forall|u: int|
                        0 <= u < c ==> !((#[trigger] binds[a as int][u]).len() > 1 && shares_key(binds[a as int][u], g@)
                            && combo_down(binds[a as int][u], down@)),
                decreases alts@.len() - c,
            {
                let combo = &alts[c];
                assert(binds[a as int][c as int] == combo.deep_view());
                if combo.len() > 1 && combo_shares(combo, g) && combo_is_down(combo, down) {
                    assert(binds[a as int][c as int].len() > 1 && shares_key(binds[a as int][c as int], g@)
                        && combo_down(binds[a as int][c as int], down@));
                    assert(blocked(binds, g@, down@));
                    return true;
                }
                c = c + 1;
            }
            a = a + 1;
        }
        false
    }

    fn eval_held(&self, a: usize, down: &[Key]) -> (r: bool)
        requires
            a < self.raw().len(),
        ensures
            r == action_down(parsed_bindings(self.raw()), a as int, down@),
    {
        proof {
            use_type_invariant(self);
        }
        let ghost binds = parsed_bindings(self.raw());
        let alts = &self.keybinds[a].1;
        assert(binds[a as int] == alts.deep_view());
        let mut c: usize = 0;
        while c < alts.len()
            invariant
                c <= alts@.len(),
                binds == parsed_bindings(self.raw()),
                binds[a as int] == alts.deep_view(),
                a < binds.len(),
                forall|u: int| 0 <= u < c ==> !combo_fires(binds, #[trigger] binds[a as int][u], down@),
            decreases alts@.len() - c,
        {
            let combo = &alts[c];
            assert(binds[a as int][c as int] == combo.deep_view());
            if combo_is_down(combo, down) {
                let single_blocked = if combo.len() == 1 {
                    assert(combo.deep_view()[0] =~= combo@[0]@);
                    self.blocked_exec(&combo[0], down)
                } else {
                    false
                };
                if !single_blocked {
                    return true;
                }
            }
            c = c + 1;
        }
        false
    }

    /// Samples the keyboard: `down` holds the keys that are down this frame.
    /// Call once at the start of every frame, before querying actions.
    pub fn update(&mut self, down: &[Key])
        ensures
            final(self).raw() == old(self).raw(),
            final(self).held() == held_actions(old(self).raw(), down@),
            final(self).pressed() == final(self).held().difference(old(self).held()),
            final(self).released() == old(self).held().difference(final(self).held()),
    {
        proof {
            use_type_invariant(&*self);
        }
        let ghost raw = self.raw();
        let mut now: Vec<String> = Vec::new();
        let mut i: usize = 0;
        while i < self.keybinds.len()
            invariant
                i <= self.keybinds@.len(),
                raw == self.raw(),
                self.keybinds@.len() == raw.len(),
                forall|t: int| 0 <= t < raw.len() ==> (#[trigger] self.keybinds@[t]).0@ == raw[t].0@,
                name_set(now@) == Set::new(
                    |x: Seq<char>|
                        exists|t: int| 0 <= t < i && #[trigger] raw[t].0@ == x && action_down(parsed_bindings(raw), t, down@),
                ),
            decreases self.keybinds@.len() - i,
        {
            let ghost old_now = now@;
            let h = self.eval_held(i, down);
            if h {
                now.push(self.keybinds[i].0.clone());
            }
            proof {
                let s_old = Set::new(
                    |x: Seq<char>|
                        exists|t: int| 0 <= t < i && #[trigger] raw[t].0@ == x && action_down(parsed_bindings(raw), t, down@),
                );
                let s_new = Set::new(
                    |x: Seq<char>|
                        exists|t: int| 0 <= t < i + 1 && #[trigger] raw[t].0@ == x && action_down(parsed_bindings(raw), t, down@),
                );
                assert forall|x: Seq<char>| name_set(now@).contains(x) <==> s_new.contains(x) by {
                    if name_set(now@).contains(x) {
                        let k = choose|k: int| 0 <= k < now@.len() && #[trigger] now@[k]@ == x;
                        if k < old_now.len() {
                            assert(old_now[k] == now@[k]);
                            assert(name_set(old_now).contains(x));
                            assert(s_old.contains(x));
                        } else {
                            assert(raw[i as int].0@ == x);
                        }
                    }
                    if s_new.contains(x) {
                        let t = choose|t: int| 0 <= t < i + 1 && #[trigger] raw[t].0@ == x && action_down(parsed_bindings(raw), t, down@);
                        if t < i {
                            assert(s_old.contains(x));
                            let k = choose|k: int| 0 <= k < old_now.len() && #[trigger] old_now[k]@ == x;
                            assert(now@[k] == old_now[k]);
                        } else {
                            assert(now@[old_now.len() as int]@ == x);
                        }
                    }
                }
                assert(name_set(now@) =~= s_new);
            }
            i = i + 1;
        }
        assert(name_set(now@) =~= held_actions(raw, down@));
        let pressed = names_without(&now, &self.held_cache);
        let released = names_without(&self.held_cache, &now);
        self.pressed_cache = pressed;
        self.released_cache = released;
        self.held_cache = now;
    }

    /// Whether the action was held at the last update.
    pub fn action_held(&self, action: &str) -> (r: bool)
        ensures
            r == self.held().contains(action@),
    {
        contains_name(&self.held_cache, &String::from_str(action))
    }

    /// Whether the action became held at the last update.
    pub fn action_pressed(&self, action: &str) -> (r: bool)
        ensures
            r == self.pressed().contains(action@),
    {
        contains_name(&self.pressed_cache, &String::from_str(action))
    }

    /// Whether the action stopped being held at the last update.
    pub fn action_released(&self, action: &str) -> (r: bool)
        ensures
            r == self.released().contains(action@),
    {
        contains_name(&self.released_cache, &String::from_str(action))
    }

    /// Replaces all bindings and clears the action state.
    pub fn update_keybinds(&mut self, keybinds: Vec<(String, String)>)
        requires
            distinct_actions(keybinds@),
        ensures
            final(self).raw() == keybinds@,
            final(self).held() == Set::<Seq<char>>::empty(),
            final(self).pressed() == Set::<Seq<char>>::empty(),
            final(self).released() == Set::<Seq<char>>::empty(),
    {
        let parsed = Self::parse_keybinds(&keybinds);
        let mut fresh = KeyboardManager {
            keybinds: parsed,
            raw_keybinds: keybinds,
            held_cache: Vec::new(),
            pressed_cache: Vec::new(),
            released_cache: Vec::new(),
        };
        std::mem::swap(self, &mut fresh);
        assert(name_set(Seq::<String>::empty()) =~= Set::<Seq<char>>::empty());
    }

    /// The raw bindings: (action, binding string) entries.
    pub fn get_keybinds(&self) -> (r: &Vec<(String, String)>)
        ensures
            r@ == self.raw(),
    {
        &self.raw_keybinds
    }

    /// A copy of the raw bindings, for persistence.
    pub fn clone_keybinds(&self) -> (r: Vec<(String, String)>)
        ensures
            r@.len() == self.raw().len(),
            forall|i: int| 0 <= i < r@.len() ==> (#[trigger] r@[i]).0@ == self.raw()[i].0@ && r@[i].1@ == self.raw()[i].1@,
    {
        let mut r: Vec<(String, String)> = Vec::new();
        let mut i: usize = 0;
        while i < self.raw_keybinds.len()
            invariant
                i <= self.raw_keybinds@.len(),
                r@.len() == i,
                forall|k: int| 0 <= k < i ==> (#[trigger] r@[k]).0@ == self.raw()[k].0@ && r@[k].1@ == self.raw()[k].1@,
            decreases self.raw_keybinds@.len() - i,
        {
            r.push((self.raw_keybinds[i].0.clone(), self.raw_keybinds[i].1.clone()));
            i = i + 1;
        }
        r
    }

    /// Binds `action` to `binding` (replacing an earlier binding of the
    /// action) and clears the action state.
    pub fn set_keybind(&mut self, action: &str, binding: &str)
        ensures
            binding_of(final(self).raw(), action@) == Some(binding@),
            forall|a: Seq<char>| a != action@ ==> #[trigger] binding_of(final(self).raw(), a) == binding_of(old(self).raw(), a),
            final(self).held() == Set::<Seq<char>>::empty(),
            final(self).pressed() == Set::<Seq<char>>::empty(),
            final(self).released() == Set::<Seq<char>>::empty(),
    {
        proof {
            use_type_invariant(&*self);
        }
        let ghost old_raw = self.raw();
        let mut raw = self.clone_keybinds();
        let key = String::from_str(action);
        let idx = action_index(&raw, &key);
        let found = idx.is_some();
        let i: usize = match idx {
            Some(k) => k,
            None => 0,
        };
        let ghost mid = raw@;
        if found {
            raw.set(i, (key, String::from_str(binding)));
        } else {
            raw.push((key, String::from_str(binding)));
        }
        proof {
            assert(distinct_actions(old_raw));
            let n = raw@;
            assert forall|p: int, q: int| 0 <= p < q < n.len() implies #[trigger] n[p].0@ != #[trigger] n[q].0@ by {
                if found {
                    if p != i && q != i {
                        assert(n[p].0@ == old_raw[p].0@ && n[q].0@ == old_raw[q].0@);
                    } else if p == i {
                        assert(n[q].0@ == old_raw[q].0@);
                        assert(old_raw[p].0@ == action@);
                    } else {
                        assert(n[p].0@ == old_raw[p].0@);
                        assert(old_raw[q].0@ == action@);
                    }
                } else {
                    if q < old_raw.len() {
                        assert(n[p].0@ == old_raw[p].0@ && n[q].0@ == old_raw[q].0@);
                    } else {
                        assert(n[p].0@ == old_raw[p].0@);
                    }
                }
            }
            let t = if found { i as int } else { old_raw.len() as int };
            assert(n[t].0@ == action@ && n[t].1@ == binding@);
            assert forall|a: Seq<char>| a != action@ implies #[trigger] binding_of(n, a) == binding_of(old_raw, a) by {
                if exists|k: int| 0 <= k < old_raw.len() && #[trigger] old_raw[k].0@ == a {
                    let k = choose|k: int| 0 <= k < old_raw.len() && #[trigger] old_raw[k].0@ == a;
                    assert(n[k].0@ == a);
                    let k2 = choose|k2: int| 0 <= k2 < n.len() && #[trigger] n[k2].0@ == a;
                    if k2 != k {
                        if k2 < k {
                            assert(n[k2].0@ != n[k].0@);
                        } else {
                            assert(n[k].0@ != n[k2].0@);
                        }
                    }
                    let k3 = choose|k3: int| 0 <= k3 < old_raw.len() && #[trigger] old_raw[k3].0@ == a;
                    if k3 != k {
                        if k3 < k {
                            assert(old_raw[k3].0@ != old_raw[k].0@);
                        } else {
                            assert(old_raw[k].0@ != old_raw[k3].0@);
                        }
                    }
                } else {
                    assert forall|k: int| 0 <= k < n.len() implies #[trigger] n[k].0@ != a by {
                        if k < old_raw.len() && k != t {
                            assert(n[k].0@ == old_raw[k].0@);
                        }
                    }
                }
            }
            let k2 = choose|k2: int| 0 <= k2 < n.len() && #[trigger] n[k2].0@ == action@;
            if k2 != t {
                if k2 < t {
                    assert(n[k2].0@ != n[t].0@);
                } else {
                    assert(n[t].0@ != n[k2].0@);
                }
            }
        }
        self.update_keybinds(raw);
    }

    /// Whether `action` has a binding.
    pub fn is_keybind_valid(&self, action: &str) -> (r: bool)
        ensures
            r == (binding_of(self.raw(), action@) is Some),
    {
        proof {
            use_type_invariant(self);
        }
        let key = String::from_str(action);
        let mut i: usize = 0;
        while i < self.keybinds.len()
            invariant
                key@ == action@,
                i <= self.keybinds@.len(),
                self.keybinds@.len() == self.raw().len(),
                forall|t: int| 0 <= t < self.keybinds@.len() ==> (#[trigger] self.keybinds@[t]).0@ == self.raw()[t].0@,
                forall|t: int| 0 <= t < i ==> (#[trigger] self.raw()[t]).0@ != action@,
            decreases self.keybinds@.len() - i,
        {
            if self.keybinds[i].0 == key {
                assert(self.raw()[i as int].0@ == action@);
                return true;
            }
            i = i + 1;
        }
        false
    }
}

/// After an update, no action is both newly pressed and newly released, and
/// every newly pressed action is held.
pub proof fn law_pressed_released(before: KeyboardManager, after: KeyboardManager)
    requires
        after.pressed() == after.held().difference(before.held()),
        after.released() == before.held().difference(after.held()),
    ensures
        after.pressed().disjoint(after.released()),
        after.pressed().subset_of(after.held()),
        after.released().disjoint(after.held()),
{
}

/// `n` (lower-cased) is a name of the single key `k`: its name as written on
/// the keyboard or in the web's key names (`ArrowDown`), and the usual short
/// forms (`Down`, `Esc`, `Del`); a letter or digit names its own key. The two
/// super keys have no name of their own.
pub open spec fn names_key(k: Key, n: Seq<char>) -> bool {
    match k {
        Key::LeftControl => n == seq!['l', 'e', 'f', 't', 'c', 't', 'r', 'l'] || n == seq!['l', 'e', 'f', 't', 'c', 'o', 'n', 't', 'r', 'o', 'l'],
        Key::RightControl => n == seq!['r', 'i', 'g', 'h', 't', 'c', 't', 'r', 'l'] || n == seq!['r', 'i', 'g', 'h', 't', 'c', 'o', 'n', 't', 'r', 'o', 'l'],
        Key::LeftShift => n == seq!['l', 'e', 'f', 't', 's', 'h', 'i', 'f', 't'],
        Key::RightShift => n == seq!['r', 'i', 'g', 'h', 't', 's', 'h', 'i', 'f', 't'],
        Key::LeftAlt => n == seq!['l', 'e', 'f', 't', 'a', 'l', 't'],
        Key::RightAlt => n == seq!['r', 'i', 'g', 'h', 't', 'a', 'l', 't'],
        Key::Up => n == seq!['a', 'r', 'r', 'o', 'w', 'u', 'p'] || n == seq!['u', 'p'],
        Key::Down => n == seq!['a', 'r', 'r', 'o', 'w', 'd', 'o', 'w', 'n'] || n == seq!['d', 'o', 'w', 'n'],
        Key::Left => n == seq!['a', 'r', 'r', 'o', 'w', 'l', 'e', 'f', 't'] || n == seq!['l', 'e', 'f', 't'],
        Key::Right => n == seq!['a', 'r', 'r', 'o', 'w', 'r', 'i', 'g', 'h', 't'] || n == seq!['r', 'i', 'g', 'h', 't'],
        Key::Enter => n == seq!['e', 'n', 't', 'e', 'r'] || n == seq!['r', 'e', 't', 'u', 'r', 'n'],
        Key::Space => n == seq!['s', 'p', 'a', 'c', 'e'],
        Key::Escape => n == seq!['e', 's', 'c', 'a', 'p', 'e'] || n == seq!['e', 's', 'c'],
        Key::Tab => n == seq!['t', 'a', 'b'],
        Key::Backspace => n == seq!['b', 'a', 'c', 'k', 's', 'p', 'a', 'c', 'e'],
        Key::Delete => n == seq!['d', 'e', 'l', 'e', 't', 'e'] || n == seq!['d', 'e', 'l'],
        Key::Insert => n == seq!['i', 'n', 's', 'e', 'r', 't'] || n == seq!['i', 'n', 's'],
        Key::Home => n == seq!['h', 'o', 'm', 'e'],
        Key::End => n == seq!['e', 'n', 'd'],
        Key::PageUp => n == seq!['p', 'a', 'g', 'e', 'u', 'p'],
        Key::PageDown => n == seq!['p', 'a', 'g', 'e', 'd', 'o', 'w', 'n'],
        Key::CapsLock => n == seq!['c', 'a', 'p', 's', 'l', 'o', 'c', 'k'],
        Key::Pause => n == seq!['p', 'a', 'u', 's', 'e'],
        Key::PrintScreen => n == seq!['p', 'r', 'i', 'n', 't', 's', 'c', 'r', 'e', 'e', 'n'],
        Key::F1 => n == seq!['f', '1'],
        Key::F2 => n == seq!['f', '2'],
        Key::F3 => n == seq!['f', '3'],
        Key::F4 => n == seq!['f', '4'],
        Key::F5 => n == seq!['f', '5'],
        Key::F6 => n == seq!['f', '6'],
        Key::F7 => n == seq!['f', '7'],
        Key::F8 => n == seq!['f', '8'],
        Key::F9 => n == seq!['f', '9'],
        Key::F10 => n == seq!['f', '1', '0'],
        Key::F11 => n == seq!['f', '1', '1'],
        Key::F12 => n == seq!['f', '1', '2'],
        Key::A => n == seq!['a'],
        Key::B => n == seq!['b'],
        Key::C => n == seq!['c'],
        Key::D => n == seq!['d'],
        Key::E => n == seq!['e'],
        Key::F => n == seq!['f'],
        Key::G => n == seq!['g'],
        Key::H => n == seq!['h'],
        Key::I => n == seq!['i'],
        Key::J => n == seq!['j'],
        Key::K => n == seq!['k'],
        Key::L => n == seq!['l'],
        Key::M => n == seq!['m'],
        Key::N => n == seq!['n'],
        Key::O => n == seq!['o'],
        Key::P => n == seq!['p'],
        Key::Q => n == seq!['q'],
        Key::R => n == seq!['r'],
        Key::S => n == seq!['s'],
        Key::T => n == seq!['t'],
        Key::U => n == seq!['u'],
        Key::V => n == seq!['v'],
        Key::W => n == seq!['w'],
        Key::X => n == seq!['x'],
        Key::Y => n == seq!['y'],
        Key::Z => n == seq!['z'],
        Key::Key0 => n == seq!['0'],
        Key::Key1 => n == seq!['1'],
        Key::Key2 => n == seq!['2'],
        Key::Key3 => n == seq!['3'],
        Key::Key4 => n == seq!['4'],
        Key::Key5 => n == seq!['5'],
        Key::Key6 => n == seq!['6'],
        Key::Key7 => n == seq!['7'],
        Key::Key8 => n == seq!['8'],
        Key::Key9 => n == seq!['9'],
        Key::LeftSuper => false,
        Key::RightSuper => false,
    }
}

proof fn lemma_single_group_named(n: Seq<char>)
    ensures
        key_group(n).len() == 1 ==> names_key(key_group(n)[0], n),
{
    if n.len() == 1 {
        assert(n == seq![n[0]]);
    }
}

/// Every name stands for the key it names, and for no other: the keys of a
/// (lower-cased) name are exactly the one key `k` if and only if the name is
/// one of `k`'s names. So `"down"` and `"arrowdown"` give the down arrow, and
/// no name but `"up"` and `"arrowup"` gives the up arrow. (Names are compared
/// in any case, see [`spec_parse_key_group`].)
#[verifier::rlimit(100)]
pub proof fn law_names_mean_their_keys(k: Key, n: Seq<char>)
    ensures
        key_group(n) == seq![k] <==> names_key(k, n),
{
    lemma_single_group_named(n);
    assert(seq![k][0] == k);
    match k {
        Key::LeftControl => {
            if n == seq!['l', 'e', 'f', 't', 'c', 't', 'r', 'l'] {
                assert(n.len() == 8 && n[0] == 'l');
                assert(key_group(n) == seq![k]);
            }
            if n == seq!['l', 'e', 'f', 't', 'c', 'o', 'n', 't', 'r', 'o', 'l'] {
                assert(n.len() == 11 && n[0] == 'l');
                assert(key_group(n) == seq![k]);
            }
        },
        Key::RightControl => {
            if n == seq!['r', 'i', 'g', 'h', 't', 'c', 't', 'r', 'l'] {
                assert(n.len() == 9 && n[0] == 'r');
                assert(key_group(n) == seq![k]);
            }
            if n == seq!['r', 'i', 'g', 'h', 't', 'c', 'o', 'n', 't', 'r', 'o', 'l'] {
                assert(n.len() == 12 && n[0] == 'r');
                assert(key_group(n) == seq![k]);
            }
        },
        Key::LeftShift => {
            if n == seq!['l', 'e', 'f', 't', 's', 'h', 'i', 'f', 't'] {
                assert(n.len() == 9 && n[0] == 'l');
                assert(key_group(n) == seq![k]);
            }
        },
        Key::RightShift => {
            if n == seq!['r', 'i', 'g', 'h', 't', 's', 'h', 'i', 'f', 't'] {
                assert(n.len() == 10 && n[0] == 'r');
                assert(key_group(n) == seq![k]);
            }
        },
        Key::LeftAlt => {
            if n == seq!['l', 'e', 'f', 't', 'a', 'l', 't'] {
                assert(n.len() == 7 && n[0] == 'l');
                assert(key_group(n) == seq![k]);
            }
        },
        Key::RightAlt => {
            if n == seq!['r', 'i', 'g', 'h', 't', 'a', 'l', 't'] {
                assert(n.len() == 8 && n[0] == 'r');
                assert(key_group(n) == seq![k]);
            }
        },
        Key::Up => {
            if n == seq!['a', 'r', 'r', 'o', 'w', 'u', 'p'] {
                assert(n.len() == 7 && n[0] == 'a');
                assert(key_group(n) == seq![k]);
            }
            if n == seq!['u', 'p'] {
                assert(n.len() == 2 && n[0] == 'u');
                assert(key_group(n) == seq![k]);
            }
        },
        Key::Down => {
            if n == seq!['a', 'r', 'r', 'o', 'w', 'd', 'o', 'w', 'n'] {
                assert(n.len() == 9 && n[0] == 'a');
                assert(key_group(n) == seq![k]);
            }
            if n == seq!['d', 'o', 'w', 'n'] {
                assert(n.len() == 4 && n[0] == 'd');
                assert(key_group(n) == seq![k]);
            }
        },
        Key::Left => {
            if n == seq!['a', 'r', 'r', 'o', 'w', 'l', 'e', 'f', 't'] {
                assert(n.len() == 9 && n[0] == 'a');
                assert(key_group(n) == seq![k]);
            }
            if n == seq!['l', 'e', 'f', 't'] {
                assert(n.len() == 4 && n[0] == 'l');
                assert(key_group(n) == seq![k]);
            }
        },
        Key::Right => {
            if n == seq!['a', 'r', 'r', 'o', 'w', 'r', 'i', 'g', 'h', 't'] {
                assert(n.len() == 10 && n[0] == 'a');
                assert(key_group(n) == seq![k]);
            }
            if n == seq!['r', 'i', 'g', 'h', 't'] {
                assert(n.len() == 5 && n[0] == 'r');
                assert(key_group(n) == seq![k]);
            }
        },
        Key::Enter => {
            if n == seq!['e', 'n', 't', 'e', 'r'] {
                assert(n.len() == 5 && n[0] == 'e');
                assert(key_group(n) == seq![k]);
            }
            if n == seq!['r', 'e', 't', 'u', 'r', 'n'] {
                assert(n.len() == 6 && n[0] == 'r');
                assert(key_group(n) == seq![k]);
            }
        },
        Key::Space => {
            if n == seq!['s', 'p', 'a', 'c', 'e'] {
                assert(n.len() == 5 && n[0] == 's');
                assert(key_group(n) == seq![k]);
            }
        },
        Key::Escape => {
            if n == seq!['e', 's', 'c', 'a', 'p', 'e'] {
                assert(n.len() == 6 && n[0] == 'e');
                assert(key_group(n) == seq![k]);
            }
            if n == seq!['e', 's', 'c'] {
                assert(n.len() == 3 && n[0] == 'e');
                assert(key_group(n) == seq![k]);
            }
        },
        Key::Tab => {
            if n == seq!['t', 'a', 'b'] {
                assert(n.len() == 3 && n[0] == 't');
                assert(key_group(n) == seq![k]);
            }
        },
        Key::Backspace => {
            if n == seq!['b', 'a', 'c', 'k', 's', 'p', 'a', 'c', 'e'] {
                assert(n.len() == 9 && n[0] == 'b');
                assert(key_group(n) == seq![k]);
            }
        },
        Key::Delete => {
            if n == seq!['d', 'e', 'l', 'e', 't', 'e'] {
                assert(n.len() == 6 && n[0] == 'd');
                assert(key_group(n) == seq![k]);
            }
            if n == seq!['d', 'e', 'l'] {
                assert(n.len() == 3 && n[0] == 'd');
                assert(key_group(n) == seq![k]);
            }
        },
        Key::Insert => {
            if n == seq!['i', 'n', 's', 'e', 'r', 't'] {
                assert(n.len() == 6 && n[0] == 'i');
                assert(key_group(n) == seq![k]);
            }
            if n == seq!['i', 'n', 's'] {
                assert(n.len() == 3 && n[0] == 'i');
                assert(key_group(n) == seq![k]);
            }
        },
        Key::Home => {
            if n == seq!['h', 'o', 'm', 'e'] {
                assert(n.len() == 4 && n[0] == 'h');
                assert(key_group(n) == seq![k]);
            }
        },
        Key::End => {
            if n == seq!['e', 'n', 'd'] {
                assert(n.len() == 3 && n[0] == 'e');
                assert(key_group(n) == seq![k]);
            }
        },
        Key::PageUp => {
            if n == seq!['p', 'a', 'g', 'e', 'u', 'p'] {
                assert(n.len() == 6 && n[0] == 'p');
                assert(key_group(n) == seq![k]);
            }
        },
        Key::PageDown => {
            if n == seq!['p', 'a', 'g', 'e', 'd', 'o', 'w', 'n'] {
                assert(n.len() == 8 && n[0] == 'p');
                assert(key_group(n) == seq![k]);
            }
        },
        Key::CapsLock => {
            if n == seq!['c', 'a', 'p', 's', 'l', 'o', 'c', 'k'] {
                assert(n.len() == 8 && n[0] == 'c');
                assert(key_group(n) == seq![k]);
            }
        },
        Key::Pause => {
            if n == seq!['p', 'a', 'u', 's', 'e'] {
                assert(n.len() == 5 && n[0] == 'p');
                assert(key_group(n) == seq![k]);
            }
        },
        Key::PrintScreen => {
            if n == seq!['p', 'r', 'i', 'n', 't', 's', 'c', 'r', 'e', 'e', 'n'] {
                assert(n.len() == 11 && n[0] == 'p');
                assert(key_group(n) == seq![k]);
            }
        },
        Key::F1 => {
            if n == seq!['f', '1'] {
                assert(n.len() == 2 && n[0] == 'f');
                assert(key_group(n) == seq![k]);
            }
        },
        Key::F2 => {
            if n == seq!['f', '2'] {
                assert(n.len() == 2 && n[0] == 'f');
                assert(key_group(n) == seq![k]);
            }
        },
        Key::F3 => {
            if n == seq!['f', '3'] {
                assert(n.len() == 2 && n[0] == 'f');
                assert(key_group(n) == seq![k]);
            }
        },
        Key::F4 => {
            if n == seq!['f', '4'] {
                assert(n.len() == 2 && n[0] == 'f');
                assert(key_group(n) == seq![k]);
            }
        },
        Key::F5 => {
            if n == seq!['f', '5'] {
                assert(n.len() == 2 && n[0] == 'f');
                assert(key_group(n) == seq![k]);
            }
        },
        Key::F6 => {
            if n == seq!['f', '6'] {
                assert(n.len() == 2 && n[0] == 'f');
                assert(key_group(n) == seq![k]);
            }
        },
        Key::F7 => {
            if n == seq!['f', '7'] {
                assert(n.len() == 2 && n[0] == 'f');
                assert(key_group(n) == seq![k]);
            }
        },
        Key::F8 => {
            if n == seq!['f', '8'] {
                assert(n.len() == 2 && n[0] == 'f');
                assert(key_group(n) == seq![k]);
            }
        },
        Key::F9 => {
            if n == seq!['f', '9'] {
                assert(n.len() == 2 && n[0] == 'f');
                assert(key_group(n) == seq![k]);
            }
        },
        Key::F10 => {
            if n == seq!['f', '1', '0'] {
                assert(n.len() == 3 && n[0] == 'f');
                assert(key_group(n) == seq![k]);
            }
        },
        Key::F11 => {
            if n == seq!['f', '1', '1'] {
                assert(n.len() == 3 && n[0] == 'f');
                assert(key_group(n) == seq![k]);
            }
        },
        Key::F12 => {
            if n == seq!['f', '1', '2'] {
                assert(n.len() == 3 && n[0] == 'f');
                assert(key_group(n) == seq![k]);
            }
        },
        Key::A => {
            if n == seq!['a'] {
                assert(n.len() == 1 && n[0] == 'a');
                assert(key_group(n) == seq![k]);
            }
        },
        Key::B => {
            if n == seq!['b'] {
                assert(n.len() == 1 && n[0] == 'b');
                assert(key_group(n) == seq![k]);
            }
        },
        Key::C => {
            if n == seq!['c'] {
                assert(n.len() == 1 && n[0] == 'c');
                assert(key_group(n) == seq![k]);
            }
        },
        Key::D => {
            if n == seq!['d'] {
                assert(n.len() == 1 && n[0] == 'd');
                assert(key_group(n) == seq![k]);
            }
        },
        Key::E => {
            if n == seq!['e'] {
                assert(n.len() == 1 && n[0] == 'e');
                assert(key_group(n) == seq![k]);
            }
        },
        Key::F => {
            if n == seq!['f'] {
                assert(n.len() == 1 && n[0] == 'f');
                assert(key_group(n) == seq![k]);
            }
        },
        Key::G => {
            if n == seq!['g'] {
                assert(n.len() == 1 && n[0] == 'g');
                assert(key_group(n) == seq![k]);
            }
        },
        Key::H => {
            if n == seq!['h'] {
                assert(n.len() == 1 && n[0] == 'h');
                assert(key_group(n) == seq![k]);
            }
        },
        Key::I => {
            if n == seq!['i'] {
                assert(n.len() == 1 && n[0] == 'i');
                assert(key_group(n) == seq![k]);
            }
        },
        Key::J => {
            if n == seq!['j'] {
                assert(n.len() == 1 && n[0] == 'j');
                assert(key_group(n) == seq![k]);
            }
        },
        Key::K => {
            if n == seq!['k'] {
                assert(n.len() == 1 && n[0] == 'k');
                assert(key_group(n) == seq![k]);
            }
        },
        Key::L => {
            if n == seq!['l'] {
                assert(n.len() == 1 && n[0] == 'l');
                assert(key_group(n) == seq![k]);
            }
        },
        Key::M => {
            if n == seq!['m'] {
                assert(n.len() == 1 && n[0] == 'm');
                assert(key_group(n) == seq![k]);
            }
        },
        Key::N => {
            if n == seq!['n'] {
                assert(n.len() == 1 && n[0] == 'n');
                assert(key_group(n) == seq![k]);
            }
        },
        Key::O => {
            if n == seq!['o'] {
                assert(n.len() == 1 && n[0] == 'o');
                assert(key_group(n) == seq![k]);
            }
        },
        Key::P => {
            if n == seq!['p'] {
                assert(n.len() == 1 && n[0] == 'p');
                assert(key_group(n) == seq![k]);
            }
        },
        Key::Q => {
            if n == seq!['q'] {
                assert(n.len() == 1 && n[0] == 'q');
                assert(key_group(n) == seq![k]);
            }
        },
        Key::R => {
            if n == seq!['r'] {
                assert(n.len() == 1 && n[0] == 'r');
                assert(key_group(n) == seq![k]);
            }
        },
        Key::S => {
            if n == seq!['s'] {
                assert(n.len() == 1 && n[0] == 's');
                assert(key_group(n) == seq![k]);
            }
        },
        Key::T => {
            if n == seq!['t'] {
                assert(n.len() == 1 && n[0] == 't');
                assert(key_group(n) == seq![k]);
            }
        },
        Key::U => {
            if n == seq!['u'] {
                assert(n.len() == 1 && n[0] == 'u');
                assert(key_group(n) == seq![k]);
            }
        },
        Key::V => {
            if n == seq!['v'] {
                assert(n.len() == 1 && n[0] == 'v');
                assert(key_group(n) == seq![k]);
            }
        },
        Key::W => {
            if n == seq!['w'] {
                assert(n.len() == 1 && n[0] == 'w');
                assert(key_group(n) == seq![k]);
            }
        },
        Key::X => {
            if n == seq!['x'] {
                assert(n.len() == 1 && n[0] == 'x');
                assert(key_group(n) == seq![k]);
            }
        },
        Key::Y => {
            if n == seq!['y'] {
                assert(n.len() == 1 && n[0] == 'y');
                assert(key_group(n) == seq![k]);
            }
        },
        Key::Z => {
            if n == seq!['z'] {
                assert(n.len() == 1 && n[0] == 'z');
                assert(key_group(n) == seq![k]);
            }
        },
        Key::Key0 => {
            if n == seq!['0'] {
                assert(n.len() == 1 && n[0] == '0');
                assert(key_group(n) == seq![k]);
            }
        },
        Key::Key1 => {
            if n == seq!['1'] {
                assert(n.len() == 1 && n[0] == '1');
                assert(key_group(n) == seq![k]);
            }
        },
        Key::Key2 => {
            if n == seq!['2'] {
                assert(n.len() == 1 && n[0] == '2');
                assert(key_group(n) == seq![k]);
            }
        },
        Key::Key3 => {
            if n == seq!['3'] {
                assert(n.len() == 1 && n[0] == '3');
                assert(key_group(n) == seq![k]);
            }
        },
        Key::Key4 => {
            if n == seq!['4'] {
                assert(n.len() == 1 && n[0] == '4');
                assert(key_group(n) == seq![k]);
            }
        },
        Key::Key5 => {
            if n == seq!['5'] {
                assert(n.len() == 1 && n[0] == '5');
                assert(key_group(n) == seq![k]);
            }
        },
        Key::Key6 => {
            if n == seq!['6'] {
                assert(n.len() == 1 && n[0] == '6');
                assert(key_group(n) == seq![k]);
            }
        },
        Key::Key7 => {
            if n == seq!['7'] {
                assert(n.len() == 1 && n[0] == '7');
                assert(key_group(n) == seq![k]);
            }
        },
        Key::Key8 => {
            if n == seq!['8'] {
                assert(n.len() == 1 && n[0] == '8');
                assert(key_group(n) == seq![k]);
            }
        },
        Key::Key9 => {
            if n == seq!['9'] {
                assert(n.len() == 1 && n[0] == '9');
                assert(key_group(n) == seq![k]);
            }
        },
        Key::LeftSuper => {
        },
        Key::RightSuper => {
        },
    }
}

/// The modifier names `ctrl`/`control`, `shift`, `alt` and
/// `super`/`win`/`cmd`/`meta` stand for the left and the right key together.
pub proof fn law_modifier_names()
    ensures
        key_group(seq!['c', 't', 'r', 'l']) == seq![Key::LeftControl, Key::RightControl],
        key_group(seq!['c', 'o', 'n', 't', 'r', 'o', 'l']) == seq![Key::LeftControl, Key::RightControl],
        key_group(seq!['s', 'h', 'i', 'f', 't']) == seq![Key::LeftShift, Key::RightShift],
        key_group(seq!['a', 'l', 't']) == seq![Key::LeftAlt, Key::RightAlt],
        key_group(seq!['s', 'u', 'p', 'e', 'r']) == seq![Key::LeftSuper, Key::RightSuper],
        key_group(seq!['w', 'i', 'n']) == seq![Key::LeftSuper, Key::RightSuper],
        key_group(seq!['c', 'm', 'd']) == seq![Key::LeftSuper, Key::RightSuper],
        key_group(seq!['m', 'e', 't', 'a']) == seq![Key::LeftSuper, Key::RightSuper],
{
}

} // verus!
