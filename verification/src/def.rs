//! The entries of a schema's `<def>` block: `<var name=".." value=".." />` and
//! `<const .. />`, optionally marked `global="true"`.
use vstd::prelude::*;
use crate::hex::{is_transparent_word, spec_from_hex, HexSupport, Rgba8};
use crate::parser::{attr_val, spec_bool_literal, parse_bool_literal, UIParser};
use crate::text::{ascii_lower, chars_eq, chars_of, has_prefix, lowered_range, push_str, trim, trimmed};
use crate::vars::{aug_op_spec, global_is_variable, kind_flag, AugOp, GlobalVarStore, ScopeView, VarStore, XmlVariableValue};

verus! {

/// What a `<def>` entry declares.
#[derive(Clone, Copy, PartialEq, Eq, Structural, Debug)]
pub enum DefKind {
    /// `<var>`: a mutable variable.
    Var,
    /// `<const>`: a constant.
    Const,
    /// Any other tag; it declares nothing in the schema.
    Other,
}

/// How the value of a `<def>` entry reads.
#[derive(Clone, Copy, PartialEq, Eq, Structural, Debug)]
pub enum DefValue {
    /// `#...` or `transparent`: a colour.
    Color(Rgba8),
    /// A boolean literal.
    Bool(bool),
    /// A path (`@/`, `./`, `../` or `/` first): a string, after variable expansion.
    Path,
    /// Anything else: a size expression, after variable expansion.
    Number,
}

/// The kind that a tag declares.
pub open spec fn def_kind(tag: Seq<char>) -> DefKind {
    if tag == seq!['v', 'a', 'r'] {
        DefKind::Var
    } else if tag == seq!['c', 'o', 'n', 's', 't'] {
        DefKind::Const
    } else {
        DefKind::Other
    }
}

/// How the trimmed value `t` reads.
pub open spec fn def_value(t: Seq<char>) -> DefValue {
    if (t.len() > 0 && t[0] == '#') || is_transparent_word(t) {
        DefValue::Color(spec_from_hex(t))
    } else if spec_bool_literal(t) is Some {
        DefValue::Bool(spec_bool_literal(t)->0)
    } else if has_prefix(t, seq!['@', '/']) || has_prefix(t, seq!['.', '/']) || has_prefix(t, seq!['.', '.', '/'])
        || has_prefix(t, seq!['/']) {
        DefValue::Path
    } else {
        DefValue::Number
    }
}

/// The `global` attribute says yes: `true` in any ASCII case, or `1`, trimmed.
pub open spec fn global_flag(v: Option<Seq<char>>) -> bool {
    match v {
        Some(s) => trim(s).map_values(|c: char| ascii_lower(c)) == seq!['t', 'r', 'u', 'e'] || trim(s) == seq!['1'],
        None => false,
    }
}

/// One entry of a `<def>` block, read.
#[derive(Debug)]
pub struct DefEntry {
    /// The `name` attribute (empty where missing).
    pub name: String,
    /// The `value` attribute, trimmed (empty where missing).
    pub value: String,
    /// What the tag declares.
    pub kind: DefKind,
    /// Whether the entry is also a global variable.
    pub is_global: bool,
    /// How the value reads.
    pub parsed: DefValue,
}

impl UIParser {
    /// Reads a `<def>` entry from its tag and attributes.
    pub fn def_entry(tag: &str, attrs: &[(String, String)]) -> (r: DefEntry)
        ensures
            r.name@ == match attr_val(attrs@, "name"@) {
                Some(v) => v,
                None => Seq::<char>::empty(),
            },
            r.value@ == trim(match attr_val(attrs@, "value"@) {
                Some(v) => v,
                None => Seq::<char>::empty(),
            }),
            r.kind == def_kind(tag@),
            r.is_global == global_flag(attr_val(attrs@, "global"@)),
            r.parsed == def_value(r.value@),
    {
        let name = match UIParser::raw_attr(attrs, "name") {
            Some(v) => v,
            None => String::new(),
        };
        let raw = match UIParser::raw_attr(attrs, "value") {
            Some(v) => v,
            None => String::new(),
        };
        let value = trimmed(raw.as_str());
        let is_global = match UIParser::raw_attr(attrs, "global") {
            Some(g) => says_yes(g.as_str()),
            None => false,
        };
        let kind = if chars_eq(chars_of(tag).as_slice(), &['v', 'a', 'r']) {
            DefKind::Var
        } else if chars_eq(chars_of(tag).as_slice(), &['c', 'o', 'n', 's', 't']) {
            DefKind::Const
        } else {
            DefKind::Other
        };
        let parsed = read_def_value(value.as_str());
        proof {
            reveal_strlit("name");
            reveal_strlit("value");
            reveal_strlit("global");
        }
        DefEntry { name, value, kind, is_global, parsed }
    }
}

/// Whether a `global` attribute value says yes (see [`global_flag`]).
fn says_yes(g: &str) -> (r: bool)
    ensures
        r == global_flag(Some(g@)),
{
    let t = trimmed(g);
    let tc = chars_of(t.as_str());
    let n = tc.len();
    let low = lowered_range(tc.as_slice(), 0, n, true);
    assert(tc@.subrange(0, n as int) =~= tc@);
    assert(low@ =~= trim(g@).map_values(|c: char| ascii_lower(c)));
    let yes = chars_eq(low.as_slice(), &['t', 'r', 'u', 'e']);
    let one_word = ['1'];
    assert(one_word@ =~= seq!['1']);
    assert(tc@ == trim(g@));
    let one = chars_eq(tc.as_slice(), &one_word);
    assert(yes == (trim(g@).map_values(|c: char| ascii_lower(c)) == seq!['t', 'r', 'u', 'e']));
    assert(one == (trim(g@) == seq!['1']));
    yes || one
}

/// How the trimmed value `t` reads (see [`def_value`]).
fn read_def_value(t: &str) -> (r: DefValue)
    ensures
        r == def_value(t@),
{
    let cs = chars_of(t);
    let n = cs.len();
    let low = lowered_range(cs.as_slice(), 0, n, true);
    assert(cs@.subrange(0, n as int) =~= cs@);
    assert(low@ =~= t@.map_values(|c: char| ascii_lower(c)));
    let word = chars_eq(low.as_slice(), &['t', 'r', 'a', 'n', 's', 'p', 'a', 'r', 'e', 'n', 't']);
    assert(word == is_transparent_word(t@));
    if (n > 0 && cs[0] == '#') || word {
        return DefValue::Color(Rgba8::from_hex(t));
    }
    match parse_bool_literal(t) {
        Some(b) => {
            return DefValue::Bool(b);
        },
        None => {},
    }
    let path = (n >= 2 && cs[0] == '@' && cs[1] == '/') || (n >= 2 && cs[0] == '.' && cs[1] == '/') || (n >= 3
        && cs[0] == '.' && cs[1] == '.' && cs[2] == '/') || (n >= 1 && cs[0] == '/');
    proof {
        if n >= 2 {
            assert(cs@.take(2) =~= seq![cs@[0], cs@[1]]);
        }
        if n >= 3 {
            assert(cs@.take(3) =~= seq![cs@[0], cs@[1], cs@[2]]);
        }
        if n >= 1 {
            assert(cs@.take(1) =~= seq![cs@[0]]);
        }
    }
    if path {
        DefValue::Path
    } else {
        DefValue::Number
    }
}

/// Registers a global entry that no earlier file registered: the first
/// writer wins. `value` is what the entry's value reads to.
pub fn register_global_def<F: Copy, C: Copy>(globals: &mut GlobalVarStore<F, C>, entry: &DefEntry, value: XmlVariableValue<F, C>) -> (r: bool)
    ensures
        r == (entry.is_global && !(old(globals).view().mutable.contains_key(entry.name@)
            || old(globals).view().color_mutable.contains_key(entry.name@)
            || old(globals).view().string_mutable.contains_key(entry.name@)
            || old(globals).view().bool_mutable.contains_key(entry.name@))),
        final(globals).view() == if r {
            old(globals).view().defined(entry.name@, value@, entry.kind != DefKind::Const)
        } else {
            old(globals).view()
        },
{
    if entry.is_global && !globals.is_defined(entry.name.as_str()) {
        let is_mutable = match entry.kind {
            DefKind::Const => false,
            _ => true,
        };
        globals.define_value(entry.name.as_str(), value, is_mutable);
        true
    } else {
        false
    }
}

/// The message that refuses a global constant declared a second time.
pub open spec fn redeclared_msg(name: Seq<char>) -> Seq<char> {
    "Global constant '"@ + name + "' cannot be redeclared"@
}

/// A global entry that a schema read in full declared before may not be
/// declared again where either declaration is a constant.
pub open spec fn def_refused<F, C>(globals: ScopeView<F, C>, declared: Set<Seq<char>>, entry: DefEntry) -> bool {
    &&& entry.is_global
    &&& declared.contains(entry.name@)
    &&& (entry.kind == DefKind::Const || !global_is_variable(globals, entry.name@))
}

/// Applies a `<def>` entry of a schema being read in full. A global entry
/// sets the shared value (a global variable declared again takes the new
/// value) and is recorded as declared; declaring a global constant again, or
/// a constant over an earlier global, is refused with an error and changes
/// nothing. The entry also defines the schema's own variable or constant.
/// `value` is what the entry's value reads to.
pub fn apply_def_entry<F: Copy, C: Copy>(
    vars: &mut VarStore<F, C>,
    globals: &mut GlobalVarStore<F, C>,
    entry: &DefEntry,
    value: XmlVariableValue<F, C>,
) -> (r: Result<(), String>)
    ensures
        ({
            let refused = def_refused(old(globals).view(), old(globals).declared(), *entry);
            let shared = entry.is_global && !refused;
            &&& (r is Err) == refused
            &&& r matches Err(m) ==> m@ == redeclared_msg(entry.name@)
            &&& final(globals).view() == if shared {
                old(globals).view().defined(entry.name@, value@, entry.kind != DefKind::Const)
            } else {
                old(globals).view()
            }
            &&& final(globals).declared() == if shared {
                old(globals).declared().insert(entry.name@)
            } else {
                old(globals).declared()
            }
            &&& final(vars).view() == if refused {
                old(vars).view()
            } else {
                match entry.kind {
                    DefKind::Var => old(vars).view().defined(entry.name@, value@, true),
                    DefKind::Const => old(vars).view().defined(entry.name@, value@, false),
                    DefKind::Other => old(vars).view(),
                }
            }
        }),
{
    let is_const = match entry.kind {
        DefKind::Const => true,
        _ => false,
    };
    if entry.is_global {
        let name = entry.name.as_str();
        if globals.is_declared(name) && (is_const || !globals.is_variable(name)) {
            let mut m = String::new();
            push_str(&mut m, "Global constant '");
            push_str(&mut m, name);
            push_str(&mut m, "' cannot be redeclared");
            return Err(m);
        }
        globals.define_value(name, value.duplicate(), !is_const);
        globals.mark_declared(name);
    }
    match entry.kind {
        DefKind::Var => vars.define_value(entry.name.as_str(), value, true),
        DefKind::Const => vars.define_value(entry.name.as_str(), value, false),
        DefKind::Other => {},
    }
    Ok(())
}

/// What a `<var name=".." value=".." />` inside the UI tree does to the variable.
#[derive(Clone, Copy, PartialEq, Eq, Structural, Debug)]
pub enum VarAssign {
    /// `#...`: a colour.
    Color(Rgba8),
    /// A boolean literal.
    Bool(bool),
    /// `@/`, `./` or `../` first: a string, after variable expansion.
    Path,
    /// `+=`, `-=`, `*=`, `/=` or `%=`: arithmetic on the number.
    Augmented(AugOp),
    /// Anything else: a size expression, after variable expansion.
    Number,
}

/// A variable update read from a `<var>` element inside the UI tree.
#[derive(Debug)]
pub struct VarUpdate {
    /// The variable's name (empty where missing).
    pub name: String,
    /// `==` first: the value is set even on a constant.
    pub force: bool,
    /// What the update does.
    pub assign: VarAssign,
    /// The text that the new value is read from: the value without `==` or
    /// the operator, trimmed.
    pub operand: String,
}

/// `t` starts like a path.
pub open spec fn path_like(t: Seq<char>) -> bool {
    has_prefix(t, seq!['@', '/']) || has_prefix(t, seq!['.', '/']) || has_prefix(t, seq!['.', '.', '/'])
}

/// The augmented operator that `t` starts with, if any.
pub open spec fn aug_prefix(t: Seq<char>) -> Option<AugOp> {
    if t.len() >= 2 {
        aug_op_spec(t.take(2))
    } else {
        None
    }
}

/// What the trimmed text `t` assigns; with `force`, no augmented operator is looked for.
pub open spec fn assign_kind(t: Seq<char>, force: bool) -> VarAssign {
    if t.len() > 0 && t[0] == '#' {
        VarAssign::Color(spec_from_hex(t))
    } else if spec_bool_literal(t) is Some {
        VarAssign::Bool(spec_bool_literal(t)->0)
    } else if path_like(t) {
        VarAssign::Path
    } else if !force && aug_prefix(t) is Some {
        VarAssign::Augmented(aug_prefix(t)->0)
    } else {
        VarAssign::Number
    }
}

/// Reads the trimmed value `t` of an update (see [`assign_kind`]).
fn read_update(t: &str, force: bool) -> (r: (VarAssign, String))
    ensures
        r.0 == assign_kind(t@, force),
        r.1@ == match r.0 {
            VarAssign::Augmented(_) => trim(t@.skip(2)),
            _ => t@,
        },
{
    let cs = chars_of(t);
    let n = cs.len();
    if n > 0 && cs[0] == '#' {
        return (VarAssign::Color(Rgba8::from_hex(t)), String::from_str(t));
    }
    match parse_bool_literal(t) {
        Some(b) => {
            return (VarAssign::Bool(b), String::from_str(t));
        },
        None => {},
    }
    let path = (n >= 2 && cs[0] == '@' && cs[1] == '/') || (n >= 2 && cs[0] == '.' && cs[1] == '/') || (n >= 3
        && cs[0] == '.' && cs[1] == '.' && cs[2] == '/');
    proof {
        if n >= 2 {
            assert(cs@.take(2) =~= seq![cs@[0], cs@[1]]);
        }
        if n >= 3 {
            assert(cs@.take(3) =~= seq![cs@[0], cs@[1], cs@[2]]);
        }
    }
    if path {
        return (VarAssign::Path, String::from_str(t));
    }
    if !force && n >= 2 {
        let mut op = String::new();
        crate::text::push_range(&mut op, cs.as_slice(), 0, 2);
        assert(op@ =~= t@.take(2));
        match AugOp::from_op(op.as_str()) {
            Some(o) => {
                let mut rest = String::new();
                crate::text::push_range(&mut rest, cs.as_slice(), 2, n);
                assert(rest@ =~= t@.skip(2));
                return (VarAssign::Augmented(o), trimmed(rest.as_str()));
            },
            None => {},
        }
    }
    (VarAssign::Number, String::from_str(t))
}

impl UIParser {
    /// Reads a `<var>` update from its attributes.
    pub fn var_update(attrs: &[(String, String)]) -> (r: VarUpdate)
        ensures
            ({
                let v = trim(match attr_val(attrs@, "value"@) {
                    Some(x) => x,
                    None => Seq::<char>::empty(),
                });
                let force = has_prefix(v, seq!['=', '=']);
                let t = if force { trim(v.skip(2)) } else { v };
                &&& r.name@ == match attr_val(attrs@, "name"@) {
                    Some(x) => x,
                    None => Seq::<char>::empty(),
                }
                &&& r.force == force
                &&& r.assign == assign_kind(t, force)
                &&& r.operand@ == match r.assign {
                    VarAssign::Augmented(_) => trim(t.skip(2)),
                    _ => t,
                }
            }),
    {
        let name = match UIParser::raw_attr(attrs, "name") {
            Some(v) => v,
            None => String::new(),
        };
        let raw = match UIParser::raw_attr(attrs, "value") {
            Some(v) => v,
            None => String::new(),
        };
        let v = trimmed(raw.as_str());
        let cs = chars_of(v.as_str());
        let n = cs.len();
        let force = n >= 2 && cs[0] == '=' && cs[1] == '=';
        proof {
            reveal_strlit("name");
            reveal_strlit("value");
            if n >= 2 {
                assert(cs@.take(2) =~= seq![cs@[0], cs@[1]]);
            }
        }
        let t = if force {
            let mut rest = String::new();
            crate::text::push_range(&mut rest, cs.as_slice(), 2, n);
            assert(rest@ =~= v@.skip(2));
            trimmed(rest.as_str())
        } else {
            v
        };
        let (assign, operand) = read_update(t.as_str(), force);
        VarUpdate { name, force, assign, operand }
    }
}

/// Applies an update that is not augmented: with `force` the value is set
/// even on a constant; otherwise only where the name is mutable for the
/// value's kind. `value` is what the operand reads to.
pub fn apply_var_update<F: Copy, C: Copy>(vars: &mut VarStore<F, C>, u: &VarUpdate, value: XmlVariableValue<F, C>) -> (r: bool)
    ensures
        u.force ==> r && final(vars).view() == old(vars).view().forced(u.name@, value@),
        !u.force ==> r == kind_flag(old(vars).view(), u.name@, value@) && final(vars).view() == if r {
            old(vars).view().defined(u.name@, value@, true)
        } else {
            old(vars).view()
        },
{
    let name = u.name.as_str();
    if u.force {
        vars.force_value(name, value);
        return true;
    }
    let allowed = match &value {
        XmlVariableValue::Color(_) => vars.is_color_mutable(name),
        XmlVariableValue::String(_) => vars.is_string_mutable(name),
        XmlVariableValue::Bool(_) => vars.is_bool_mutable(name),
        _ => vars.is_mutable(name),
    };
    if allowed {
        vars.define_value(name, value, true);
    }
    allowed
}

} // verus!
