//! XML variables: the `<var>`/`<const>` entries of a schema's `<def>` block.
//!
//! Number and colour values are carried with the value types `F` and `C`
//! chosen by the caller; the store decides which writes are allowed.
use vstd::prelude::*;
use crate::names::{contains_name, name_set};
use crate::table::Table;

verus! {

/// A value held by an XML variable.
#[derive(Debug)]
pub enum XmlVariableValue<F, C> {
    NumberF32(F),
    NumberI32(i32),
    NumberUsize(usize),
    NumberU32(u32),
    Color(C),
    String(String),
    Bool(bool),
}

/// What an [`XmlVariableValue`] holds, with strings as character sequences.
pub ghost enum XmlValueView<F, C> {
    NumberF32(F),
    NumberI32(i32),
    NumberUsize(usize),
    NumberU32(u32),
    Color(C),
    String(Seq<char>),
    Bool(bool),
}

impl<F, C> View for XmlVariableValue<F, C> {
    type V = XmlValueView<F, C>;

    open spec fn view(&self) -> XmlValueView<F, C> {
        match self {
            XmlVariableValue::NumberF32(v) => XmlValueView::NumberF32(*v),
            XmlVariableValue::NumberI32(v) => XmlValueView::NumberI32(*v),
            XmlVariableValue::NumberUsize(v) => XmlValueView::NumberUsize(*v),
            XmlVariableValue::NumberU32(v) => XmlValueView::NumberU32(*v),
            XmlVariableValue::Color(v) => XmlValueView::Color(*v),
            XmlVariableValue::String(v) => XmlValueView::String(v@),
            XmlVariableValue::Bool(v) => XmlValueView::Bool(*v),
        }
    }
}

/// The two values are of the same variant.
pub open spec fn same_kind<F, C>(a: XmlValueView<F, C>, b: XmlValueView<F, C>) -> bool {
    match (a, b) {
        (XmlValueView::NumberF32(_), XmlValueView::NumberF32(_)) => true,
        (XmlValueView::NumberI32(_), XmlValueView::NumberI32(_)) => true,
        (XmlValueView::NumberUsize(_), XmlValueView::NumberUsize(_)) => true,
        (XmlValueView::NumberU32(_), XmlValueView::NumberU32(_)) => true,
        (XmlValueView::Color(_), XmlValueView::Color(_)) => true,
        (XmlValueView::String(_), XmlValueView::String(_)) => true,
        (XmlValueView::Bool(_), XmlValueView::Bool(_)) => true,
        _ => false,
    }
}

impl<F: Copy, C: Copy> XmlVariableValue<F, C> {
    /// Whether `self` and `other` are of the same variant.
    pub fn same_kind(&self, other: &Self) -> (r: bool)
        ensures
            r == same_kind(self@, other@),
    {
        match (self, other) {
            (XmlVariableValue::NumberF32(_), XmlVariableValue::NumberF32(_)) => true,
            (XmlVariableValue::NumberI32(_), XmlVariableValue::NumberI32(_)) => true,
            (XmlVariableValue::NumberUsize(_), XmlVariableValue::NumberUsize(_)) => true,
            (XmlVariableValue::NumberU32(_), XmlVariableValue::NumberU32(_)) => true,
            (XmlVariableValue::Color(_), XmlVariableValue::Color(_)) => true,
            (XmlVariableValue::String(_), XmlVariableValue::String(_)) => true,
            (XmlVariableValue::Bool(_), XmlVariableValue::Bool(_)) => true,
            _ => false,
        }
    }

    /// A copy of the value.
    pub fn duplicate(&self) -> (r: Self)
        ensures
            r@ == self@,
    {
        match self {
            XmlVariableValue::NumberF32(v) => XmlVariableValue::NumberF32(*v),
            XmlVariableValue::NumberI32(v) => XmlVariableValue::NumberI32(*v),
            XmlVariableValue::NumberUsize(v) => XmlVariableValue::NumberUsize(*v),
            XmlVariableValue::NumberU32(v) => XmlVariableValue::NumberU32(*v),
            XmlVariableValue::Color(v) => XmlVariableValue::Color(*v),
            XmlVariableValue::String(v) => XmlVariableValue::String(v.clone()),
            XmlVariableValue::Bool(v) => XmlVariableValue::Bool(*v),
        }
    }
}

/// An augmented assignment operator.
#[derive(PartialEq, Eq, Structural, Clone, Copy, Debug)]
pub enum AugOp {
    /// `+=`
    Add,
    /// `-=`
    Sub,
    /// `*=`
    Mul,
    /// `/=`
    Div,
    /// `%=`
    Rem,
}

/// The augmented operator that `op` spells, if any.
pub open spec fn aug_op_spec(op: Seq<char>) -> Option<AugOp> {
    if op == seq!['+', '='] {
        Some(AugOp::Add)
    } else if op == seq!['-', '='] {
        Some(AugOp::Sub)
    } else if op == seq!['*', '='] {
        Some(AugOp::Mul)
    } else if op == seq!['/', '='] {
        Some(AugOp::Div)
    } else if op == seq!['%', '='] {
        Some(AugOp::Rem)
    } else {
        None
    }
}

impl AugOp {
    /// The operator spelt `op`, if any.
    pub fn from_op(op: &str) -> (r: Option<AugOp>)
        ensures
            r == aug_op_spec(op@),
    {
        let cs = crate::text::chars_of(op);
        if crate::text::chars_eq(cs.as_slice(), &['+', '=']) {
            Some(AugOp::Add)
        } else if crate::text::chars_eq(cs.as_slice(), &['-', '=']) {
            Some(AugOp::Sub)
        } else if crate::text::chars_eq(cs.as_slice(), &['*', '=']) {
            Some(AugOp::Mul)
        } else if crate::text::chars_eq(cs.as_slice(), &['/', '=']) {
            Some(AugOp::Div)
        } else if crate::text::chars_eq(cs.as_slice(), &['%', '=']) {
            Some(AugOp::Rem)
        } else {
            None
        }
    }
}

/// The value tables of one variable scope.
///
/// Numbers of the four kinds share one mutability flag per name; colours,
/// strings and booleans have a flag table each.
pub struct Scope<F, C> {
    f32_values: Table<F>,
    i32_values: Table<i32>,
    usize_values: Table<usize>,
    u32_values: Table<u32>,
    mutable: Table<bool>,
    color_values: Table<C>,
    color_mutable: Table<bool>,
    string_values: Table<String>,
    string_mutable: Table<bool>,
    bool_values: Table<bool>,
    bool_mutable: Table<bool>,
}

/// The contents of a [`Scope`], as maps from names.
pub ghost struct ScopeView<F, C> {
    pub f32s: Map<Seq<char>, F>,
    pub i32s: Map<Seq<char>, i32>,
    pub usizes: Map<Seq<char>, usize>,
    pub u32s: Map<Seq<char>, u32>,
    pub mutable: Map<Seq<char>, bool>,
    pub colors: Map<Seq<char>, C>,
    pub color_mutable: Map<Seq<char>, bool>,
    pub strings: Map<Seq<char>, Seq<char>>,
    pub string_mutable: Map<Seq<char>, bool>,
    pub bools: Map<Seq<char>, bool>,
    pub bool_mutable: Map<Seq<char>, bool>,
}

/// The flag of `name` in `m`, `false` when it has none (`get().copied().unwrap_or(false)`).
pub open spec fn flag(m: Map<Seq<char>, bool>, name: Seq<char>) -> bool {
    m.contains_key(name) && m[name]
}

/// The flags with `name` mutable unless it already has a flag.
pub open spec fn flag_kept(m: Map<Seq<char>, bool>, name: Seq<char>) -> Map<Seq<char>, bool> {
    if m.contains_key(name) {
        m
    } else {
        m.insert(name, true)
    }
}

impl<F, C> ScopeView<F, C> {
    /// An empty scope.
    pub open spec fn empty() -> Self {
        ScopeView {
            f32s: Map::empty(),
            i32s: Map::empty(),
            usizes: Map::empty(),
            u32s: Map::empty(),
            mutable: Map::empty(),
            colors: Map::empty(),
            color_mutable: Map::empty(),
            strings: Map::empty(),
            string_mutable: Map::empty(),
            bools: Map::empty(),
            bool_mutable: Map::empty(),
        }
    }

    /// Some table holds a value for `name`.
    pub open spec fn has_value(self, n: Seq<char>) -> bool {
        self.f32s.contains_key(n) || self.i32s.contains_key(n) || self.usizes.contains_key(n)
            || self.u32s.contains_key(n) || self.colors.contains_key(n) || self.strings.contains_key(n)
            || self.bools.contains_key(n)
    }

    /// The value of `name`, looked up in the order f32, i32, usize, u32, colour, string, bool.
    pub open spec fn value_of(self, n: Seq<char>) -> Option<XmlValueView<F, C>> {
        if self.f32s.contains_key(n) {
            Some(XmlValueView::NumberF32(self.f32s[n]))
        } else if self.i32s.contains_key(n) {
            Some(XmlValueView::NumberI32(self.i32s[n]))
        } else if self.usizes.contains_key(n) {
            Some(XmlValueView::NumberUsize(self.usizes[n]))
        } else if self.u32s.contains_key(n) {
            Some(XmlValueView::NumberU32(self.u32s[n]))
        } else if self.colors.contains_key(n) {
            Some(XmlValueView::Color(self.colors[n]))
        } else if self.strings.contains_key(n) {
            Some(XmlValueView::String(self.strings[n]))
        } else if self.bools.contains_key(n) {
            Some(XmlValueView::Bool(self.bools[n]))
        } else {
            None
        }
    }

    /// Whether writing a value of the kind of `v` to `name` is allowed: the
    /// name is mutable for that kind and already holds a value of that kind.
    pub open spec fn may_set(self, n: Seq<char>, v: XmlValueView<F, C>) -> bool {
        match v {
            XmlValueView::NumberF32(_) => flag(self.mutable, n) && self.f32s.contains_key(n),
            XmlValueView::NumberI32(_) => flag(self.mutable, n) && self.i32s.contains_key(n),
            XmlValueView::NumberUsize(_) => flag(self.mutable, n) && self.usizes.contains_key(n),
            XmlValueView::NumberU32(_) => flag(self.mutable, n) && self.u32s.contains_key(n),
            XmlValueView::Color(_) => flag(self.color_mutable, n) && self.colors.contains_key(n),
            XmlValueView::String(_) => flag(self.string_mutable, n) && self.strings.contains_key(n),
            XmlValueView::Bool(_) => flag(self.bool_mutable, n) && self.bools.contains_key(n),
        }
    }

    /// The scope after `name` is defined to hold `v`, with the mutability
    /// flag of its kind set to `is_mutable`.
    pub open spec fn defined(self, n: Seq<char>, v: XmlValueView<F, C>, is_mutable: bool) -> Self {
        match v {
            XmlValueView::NumberF32(x) => ScopeView { f32s: self.f32s.insert(n, x), mutable: self.mutable.insert(n, is_mutable), ..self },
            XmlValueView::NumberI32(x) => ScopeView { i32s: self.i32s.insert(n, x), mutable: self.mutable.insert(n, is_mutable), ..self },
            XmlValueView::NumberUsize(x) => ScopeView { usizes: self.usizes.insert(n, x), mutable: self.mutable.insert(n, is_mutable), ..self },
            XmlValueView::NumberU32(x) => ScopeView { u32s: self.u32s.insert(n, x), mutable: self.mutable.insert(n, is_mutable), ..self },
            XmlValueView::Color(x) => ScopeView { colors: self.colors.insert(n, x), color_mutable: self.color_mutable.insert(n, is_mutable), ..self },
            XmlValueView::String(x) => ScopeView { strings: self.strings.insert(n, x), string_mutable: self.string_mutable.insert(n, is_mutable), ..self },
            XmlValueView::Bool(x) => ScopeView { bools: self.bools.insert(n, x), bool_mutable: self.bool_mutable.insert(n, is_mutable), ..self },
        }
    }

    /// The scope after `name` is set to `v` whether or not it is a constant;
    /// a name without a flag of that kind becomes mutable.
    pub open spec fn forced(self, n: Seq<char>, v: XmlValueView<F, C>) -> Self {
        match v {
            XmlValueView::NumberF32(x) => ScopeView { f32s: self.f32s.insert(n, x), mutable: flag_kept(self.mutable, n), ..self },
            XmlValueView::NumberI32(x) => ScopeView { i32s: self.i32s.insert(n, x), mutable: flag_kept(self.mutable, n), ..self },
            XmlValueView::NumberUsize(x) => ScopeView { usizes: self.usizes.insert(n, x), mutable: flag_kept(self.mutable, n), ..self },
            XmlValueView::NumberU32(x) => ScopeView { u32s: self.u32s.insert(n, x), mutable: flag_kept(self.mutable, n), ..self },
            XmlValueView::Color(x) => ScopeView { colors: self.colors.insert(n, x), color_mutable: flag_kept(self.color_mutable, n), ..self },
            XmlValueView::String(x) => ScopeView { strings: self.strings.insert(n, x), string_mutable: flag_kept(self.string_mutable, n), ..self },
            XmlValueView::Bool(x) => ScopeView { bools: self.bools.insert(n, x), bool_mutable: flag_kept(self.bool_mutable, n), ..self },
        }
    }

    /// The scope with `v` written to the table of its kind.
    pub open spec fn with_value(self, n: Seq<char>, v: XmlValueView<F, C>) -> Self {
        match v {
            XmlValueView::NumberF32(x) => ScopeView { f32s: self.f32s.insert(n, x), ..self },
            XmlValueView::NumberI32(x) => ScopeView { i32s: self.i32s.insert(n, x), ..self },
            XmlValueView::NumberUsize(x) => ScopeView { usizes: self.usizes.insert(n, x), ..self },
            XmlValueView::NumberU32(x) => ScopeView { u32s: self.u32s.insert(n, x), ..self },
            XmlValueView::Color(x) => ScopeView { colors: self.colors.insert(n, x), ..self },
            XmlValueView::String(x) => ScopeView { strings: self.strings.insert(n, x), ..self },
            XmlValueView::Bool(x) => ScopeView { bools: self.bools.insert(n, x), ..self },
        }
    }
}

impl<F: Copy, C: Copy> Scope<F, C> {
    /// The contents of the scope.
    pub closed spec fn view(&self) -> ScopeView<F, C> {
        ScopeView {
            f32s: self.f32_values.view(),
            i32s: self.i32_values.view(),
            usizes: self.usize_values.view(),
            u32s: self.u32_values.view(),
            mutable: self.mutable.view(),
            colors: self.color_values.view(),
            color_mutable: self.color_mutable.view(),
            strings: self.string_values.view().map_values(|s: String| s@),
            string_mutable: self.string_mutable.view(),
            bools: self.bool_values.view(),
            bool_mutable: self.bool_mutable.view(),
        }
    }

    /// An empty scope.
    pub fn new() -> (r: Self)
        ensures
            r.view() == ScopeView::<F, C>::empty(),
    {
        let r = Scope {
            f32_values: Table::new(),
            i32_values: Table::new(),
            usize_values: Table::new(),
            u32_values: Table::new(),
            mutable: Table::new(),
            color_values: Table::new(),
            color_mutable: Table::new(),
            string_values: Table::new(),
            string_mutable: Table::new(),
            bool_values: Table::new(),
            bool_mutable: Table::new(),
        };
        assert(r.view().strings =~= Map::<Seq<char>, Seq<char>>::empty());
        r
    }

    fn flag_of(t: &Table<bool>, name: &str) -> (r: bool)
        ensures
            r == flag(t.view(), name@),
    {
        match t.get(name) {
            Some(b) => *b,
            None => false,
        }
    }


    /// Defines `name` to hold `value`, with the flag of its kind set to `is_mutable`.
    pub fn define_value(&mut self, name: &str, value: XmlVariableValue<F, C>, is_mutable: bool)
        ensures
            final(self).view() == old(self).view().defined(name@, value@, is_mutable),
    {
        match value {
            XmlVariableValue::NumberF32(x) => self.define_f32(name, x, is_mutable),
            XmlVariableValue::NumberI32(x) => self.define_i32(name, x, is_mutable),
            XmlVariableValue::NumberUsize(x) => self.define_usize(name, x, is_mutable),
            XmlVariableValue::NumberU32(x) => self.define_u32(name, x, is_mutable),
            XmlVariableValue::Color(x) => self.define_color(name, x, is_mutable),
            XmlVariableValue::String(x) => self.define_string(name, x.as_str(), is_mutable),
            XmlVariableValue::Bool(x) => self.define_bool(name, x, is_mutable),
        }
    }

    /// Sets `name` to `value` whether or not it is a constant.
    pub fn force_value(&mut self, name: &str, value: XmlVariableValue<F, C>)
        ensures
            final(self).view() == old(self).view().forced(name@, value@),
    {
        match value {
            XmlVariableValue::NumberF32(x) => self.force_set_f32(name, x),
            XmlVariableValue::NumberI32(x) => self.force_set_i32(name, x),
            XmlVariableValue::NumberUsize(x) => self.force_set_usize(name, x),
            XmlVariableValue::NumberU32(x) => self.force_set_u32(name, x),
            XmlVariableValue::Color(x) => self.force_set_color(name, x),
            XmlVariableValue::String(x) => self.force_set_string(name, x.as_str()),
            XmlVariableValue::Bool(x) => self.force_set_bool(name, x),
        }
    }

    /// Sets the f32 value of `name` and its mutability flag.
    pub fn define_f32(&mut self, name: &str, value: F, is_mutable: bool)
        ensures
            final(self).view() == (ScopeView {
                f32s: old(self).view().f32s.insert(name@, value),
                mutable: old(self).view().mutable.insert(name@, is_mutable),
                ..old(self).view()
            }),
    {
        let ghost v0 = self.view();
        self.f32_values.insert(name, value);
        self.mutable.insert(name, is_mutable);
        assert(self.view().strings =~= v0.strings);
    }

    /// Sets the f32 value of `name`; a name without a mutability flag becomes mutable.
    pub fn force_set_f32(&mut self, name: &str, value: F)
        ensures
            final(self).view() == (ScopeView {
                f32s: old(self).view().f32s.insert(name@, value),
                mutable: if old(self).view().mutable.contains_key(name@) {
                    old(self).view().mutable
                } else {
                    old(self).view().mutable.insert(name@, true)
                },
                ..old(self).view()
            }),
    {
        let ghost v0 = self.view();
        self.f32_values.insert(name, value);
        self.mutable.insert_if_absent(name, true);
        assert(self.view().strings =~= v0.strings);
    }

    /// The f32 value of `name`, if any.
    pub fn get_f32(&self, name: &str) -> (r: Option<F>)
        ensures
            r == (if self.view().f32s.contains_key(name@) {
                Some(self.view().f32s[name@])
            } else {
                None
            }),
    {
        match self.f32_values.get(name) {
            Some(v) => Some(*v),
            None => None,
        }
    }


    /// Sets the i32 value of `name` and its mutability flag.
    pub fn define_i32(&mut self, name: &str, value: i32, is_mutable: bool)
        ensures
            final(self).view() == (ScopeView {
                i32s: old(self).view().i32s.insert(name@, value),
                mutable: old(self).view().mutable.insert(name@, is_mutable),
                ..old(self).view()
            }),
    {
        let ghost v0 = self.view();
        self.i32_values.insert(name, value);
        self.mutable.insert(name, is_mutable);
        assert(self.view().strings =~= v0.strings);
    }

    /// Sets the i32 value of `name`; a name without a mutability flag becomes mutable.
    pub fn force_set_i32(&mut self, name: &str, value: i32)
        ensures
            final(self).view() == (ScopeView {
                i32s: old(self).view().i32s.insert(name@, value),
                mutable: if old(self).view().mutable.contains_key(name@) {
                    old(self).view().mutable
                } else {
                    old(self).view().mutable.insert(name@, true)
                },
                ..old(self).view()
            }),
    {
        let ghost v0 = self.view();
        self.i32_values.insert(name, value);
        self.mutable.insert_if_absent(name, true);
        assert(self.view().strings =~= v0.strings);
    }

    /// The i32 value of `name`, if any.
    pub fn get_i32(&self, name: &str) -> (r: Option<i32>)
        ensures
            r == (if self.view().i32s.contains_key(name@) {
                Some(self.view().i32s[name@])
            } else {
                None
            }),
    {
        match self.i32_values.get(name) {
            Some(v) => Some(*v),
            None => None,
        }
    }


    /// Sets the usize value of `name` and its mutability flag.
    pub fn define_usize(&mut self, name: &str, value: usize, is_mutable: bool)
        ensures
            final(self).view() == (ScopeView {
                usizes: old(self).view().usizes.insert(name@, value),
                mutable: old(self).view().mutable.insert(name@, is_mutable),
                ..old(self).view()
            }),
    {
        let ghost v0 = self.view();
        self.usize_values.insert(name, value);
        self.mutable.insert(name, is_mutable);
        assert(self.view().strings =~= v0.strings);
    }

    /// Sets the usize value of `name`; a name without a mutability flag becomes mutable.
    pub fn force_set_usize(&mut self, name: &str, value: usize)
        ensures
            final(self).view() == (ScopeView {
                usizes: old(self).view().usizes.insert(name@, value),
                mutable: if old(self).view().mutable.contains_key(name@) {
                    old(self).view().mutable
                } else {
                    old(self).view().mutable.insert(name@, true)
                },
                ..old(self).view()
            }),
    {
        let ghost v0 = self.view();
        self.usize_values.insert(name, value);
        self.mutable.insert_if_absent(name, true);
        assert(self.view().strings =~= v0.strings);
    }

    /// The usize value of `name`, if any.
    pub fn get_usize(&self, name: &str) -> (r: Option<usize>)
        ensures
            r == (if self.view().usizes.contains_key(name@) {
                Some(self.view().usizes[name@])
            } else {
                None
            }),
    {
        match self.usize_values.get(name) {
            Some(v) => Some(*v),
            None => None,
        }
    }


    /// Sets the u32 value of `name` and its mutability flag.
    pub fn define_u32(&mut self, name: &str, value: u32, is_mutable: bool)
        ensures
            final(self).view() == (ScopeView {
                u32s: old(self).view().u32s.insert(name@, value),
                mutable: old(self).view().mutable.insert(name@, is_mutable),
                ..old(self).view()
            }),
    {
        let ghost v0 = self.view();
        self.u32_values.insert(name, value);
        self.mutable.insert(name, is_mutable);
        assert(self.view().strings =~= v0.strings);
    }

    /// Sets the u32 value of `name`; a name without a mutability flag becomes mutable.
    pub fn force_set_u32(&mut self, name: &str, value: u32)
        ensures
            final(self).view() == (ScopeView {
                u32s: old(self).view().u32s.insert(name@, value),
                mutable: if old(self).view().mutable.contains_key(name@) {
                    old(self).view().mutable
                } else {
                    old(self).view().mutable.insert(name@, true)
                },
                ..old(self).view()
            }),
    {
        let ghost v0 = self.view();
        self.u32_values.insert(name, value);
        self.mutable.insert_if_absent(name, true);
        assert(self.view().strings =~= v0.strings);
    }

    /// The u32 value of `name`, if any.
    pub fn get_u32(&self, name: &str) -> (r: Option<u32>)
        ensures
            r == (if self.view().u32s.contains_key(name@) {
                Some(self.view().u32s[name@])
            } else {
                None
            }),
    {
        match self.u32_values.get(name) {
            Some(v) => Some(*v),
            None => None,
        }
    }


    /// Sets the color value of `name` and its mutability flag.
    pub fn define_color(&mut self, name: &str, value: C, is_mutable: bool)
        ensures
            final(self).view() == (ScopeView {
                colors: old(self).view().colors.insert(name@, value),
                color_mutable: old(self).view().color_mutable.insert(name@, is_mutable),
                ..old(self).view()
            }),
    {
        let ghost v0 = self.view();
        self.color_values.insert(name, value);
        self.color_mutable.insert(name, is_mutable);
        assert(self.view().strings =~= v0.strings);
    }

    /// Sets the color value of `name`; a name without a mutability flag becomes mutable.
    pub fn force_set_color(&mut self, name: &str, value: C)
        ensures
            final(self).view() == (ScopeView {
                colors: old(self).view().colors.insert(name@, value),
                color_mutable: if old(self).view().color_mutable.contains_key(name@) {
                    old(self).view().color_mutable
                } else {
                    old(self).view().color_mutable.insert(name@, true)
                },
                ..old(self).view()
            }),
    {
        let ghost v0 = self.view();
        self.color_values.insert(name, value);
        self.color_mutable.insert_if_absent(name, true);
        assert(self.view().strings =~= v0.strings);
    }

    /// The color value of `name`, if any.
    pub fn get_color(&self, name: &str) -> (r: Option<C>)
        ensures
            r == (if self.view().colors.contains_key(name@) {
                Some(self.view().colors[name@])
            } else {
                None
            }),
    {
        match self.color_values.get(name) {
            Some(v) => Some(*v),
            None => None,
        }
    }


    /// Sets the bool value of `name` and its mutability flag.
    pub fn define_bool(&mut self, name: &str, value: bool, is_mutable: bool)
        ensures
            final(self).view() == (ScopeView {
                bools: old(self).view().bools.insert(name@, value),
                bool_mutable: old(self).view().bool_mutable.insert(name@, is_mutable),
                ..old(self).view()
            }),
    {
        let ghost v0 = self.view();
        self.bool_values.insert(name, value);
        self.bool_mutable.insert(name, is_mutable);
        assert(self.view().strings =~= v0.strings);
    }

    /// Sets the bool value of `name`; a name without a mutability flag becomes mutable.
    pub fn force_set_bool(&mut self, name: &str, value: bool)
        ensures
            final(self).view() == (ScopeView {
                bools: old(self).view().bools.insert(name@, value),
                bool_mutable: if old(self).view().bool_mutable.contains_key(name@) {
                    old(self).view().bool_mutable
                } else {
                    old(self).view().bool_mutable.insert(name@, true)
                },
                ..old(self).view()
            }),
    {
        let ghost v0 = self.view();
        self.bool_values.insert(name, value);
        self.bool_mutable.insert_if_absent(name, true);
        assert(self.view().strings =~= v0.strings);
    }

    /// The bool value of `name`, if any.
    pub fn get_bool(&self, name: &str) -> (r: Option<bool>)
        ensures
            r == (if self.view().bools.contains_key(name@) {
                Some(self.view().bools[name@])
            } else {
                None
            }),
    {
        match self.bool_values.get(name) {
            Some(v) => Some(*v),
            None => None,
        }
    }


    /// Sets the string value of `name` and its mutability flag.
    pub fn define_string(&mut self, name: &str, value: &str, is_mutable: bool)
        ensures
            final(self).view() == (ScopeView {
                strings: old(self).view().strings.insert(name@, value@),
                string_mutable: old(self).view().string_mutable.insert(name@, is_mutable),
                ..old(self).view()
            }),
    {
        let ghost v0 = self.view();
        self.string_values.insert(name, String::from_str(value));
        self.string_mutable.insert(name, is_mutable);
        assert(self.view().strings =~= v0.strings.insert(name@, value@));
    }

    /// Sets the string value of `name`; a name without a mutability flag becomes mutable.
    pub fn force_set_string(&mut self, name: &str, value: &str)
        ensures
            final(self).view() == (ScopeView {
                strings: old(self).view().strings.insert(name@, value@),
                string_mutable: if old(self).view().string_mutable.contains_key(name@) {
                    old(self).view().string_mutable
                } else {
                    old(self).view().string_mutable.insert(name@, true)
                },
                ..old(self).view()
            }),
    {
        let ghost v0 = self.view();
        self.string_values.insert(name, String::from_str(value));
        self.string_mutable.insert_if_absent(name, true);
        assert(self.view().strings =~= v0.strings.insert(name@, value@));
    }

    /// The string value of `name`, if any.
    pub fn get_string(&self, name: &str) -> (r: Option<&str>)
        ensures
            r is Some == self.view().strings.contains_key(name@),
            r matches Some(s) ==> s@ == self.view().strings[name@],
    {
        match self.string_values.get(name) {
            Some(v) => Some(v.as_str()),
            None => None,
        }
    }

    /// The flag of `name` in the shared number table.
    pub fn is_mutable(&self, name: &str) -> (r: bool)
        ensures
            r == flag(self.view().mutable, name@),
    {
        Self::flag_of(&self.mutable, name)
    }

    /// The flag of `name` in the colour table.
    pub fn is_color_mutable(&self, name: &str) -> (r: bool)
        ensures
            r == flag(self.view().color_mutable, name@),
    {
        Self::flag_of(&self.color_mutable, name)
    }

    /// The flag of `name` in the string table.
    pub fn is_string_mutable(&self, name: &str) -> (r: bool)
        ensures
            r == flag(self.view().string_mutable, name@),
    {
        Self::flag_of(&self.string_mutable, name)
    }

    /// The flag of `name` in the boolean table.
    pub fn is_bool_mutable(&self, name: &str) -> (r: bool)
        ensures
            r == flag(self.view().bool_mutable, name@),
    {
        Self::flag_of(&self.bool_mutable, name)
    }

    /// Whether some mutability table knows `name`.
    pub fn is_defined(&self, name: &str) -> (r: bool)
        ensures
            r == (self.view().mutable.contains_key(name@) || self.view().color_mutable.contains_key(name@)
                || self.view().string_mutable.contains_key(name@) || self.view().bool_mutable.contains_key(
                name@,
            )),
    {
        self.mutable.contains(name) || self.color_mutable.contains(name) || self.string_mutable.contains(name)
            || self.bool_mutable.contains(name)
    }

    /// Takes the f32, colour, string and boolean entries (values and flags)
    /// of `other` into this scope, `other` winning where both have a name.
    /// The i32, usize and u32 tables are not taken.
    pub fn absorb_from(&mut self, other: Scope<F, C>)
        ensures
            final(self).view() == (ScopeView {
                f32s: old(self).view().f32s.union_prefer_right(other.view().f32s),
                mutable: old(self).view().mutable.union_prefer_right(other.view().mutable),
                colors: old(self).view().colors.union_prefer_right(other.view().colors),
                color_mutable: old(self).view().color_mutable.union_prefer_right(other.view().color_mutable),
                strings: old(self).view().strings.union_prefer_right(other.view().strings),
                string_mutable: old(self).view().string_mutable.union_prefer_right(other.view().string_mutable),
                bools: old(self).view().bools.union_prefer_right(other.view().bools),
                bool_mutable: old(self).view().bool_mutable.union_prefer_right(other.view().bool_mutable),
                ..old(self).view()
            }),
    {
        let ghost v0 = self.view();
        let ghost ov = other.view();
        let ghost os = other.string_values.view();
        let Scope {
            f32_values,
            mutable,
            color_values,
            color_mutable,
            string_values,
            string_mutable,
            bool_values,
            bool_mutable,
            ..
        } = other;
        self.f32_values.absorb(f32_values);
        self.mutable.absorb(mutable);
        self.color_values.absorb(color_values);
        self.color_mutable.absorb(color_mutable);
        let ghost s0 = self.string_values.view();
        self.string_values.absorb(string_values);
        self.string_mutable.absorb(string_mutable);
        self.bool_values.absorb(bool_values);
        self.bool_mutable.absorb(bool_mutable);
        assert(self.view().strings =~= v0.strings.union_prefer_right(ov.strings));
    }

    /// First half of an augmented assignment (`name op= rhs`): `None` when
    /// `name` is not a mutable number or `op` is not an augmented operator;
    /// otherwise the operator and the current f32 value. Before `op` is
    /// looked at, a mutable name without an f32 value gets `zero`.
    pub fn augmented_begin(&mut self, name: &str, op: &str, zero: F) -> (r: Option<(AugOp, F)>)
        ensures
            !flag(old(self).view().mutable, name@) ==> r is None && final(self).view() == old(self).view(),
            flag(old(self).view().mutable, name@) ==> {
                let f = if old(self).view().f32s.contains_key(name@) {
                    old(self).view().f32s
                } else {
                    old(self).view().f32s.insert(name@, zero)
                };
                &&& final(self).view() == (ScopeView { f32s: f, ..old(self).view() })
                &&& r == match aug_op_spec(op@) {
                    Some(o) => Some((o, f[name@])),
                    None => None,
                }
            },
    {
        if !self.is_mutable(name) {
            return None;
        }
        let ghost v0 = self.view();
        self.f32_values.insert_if_absent(name, zero);
        assert(self.view().strings =~= v0.strings);
        let cur = match self.f32_values.get(name) {
            Some(v) => *v,
            None => zero,
        };
        match AugOp::from_op(op) {
            Some(o) => Some((o, cur)),
            None => None,
        }
    }

    /// Whether any table holds a value for `name`.
    pub fn has_value(&self, name: &str) -> (r: bool)
        ensures
            r == self.view().has_value(name@),
    {
        self.f32_values.contains(name) || self.i32_values.contains(name) || self.usize_values.contains(name)
            || self.u32_values.contains(name) || self.color_values.contains(name)
            || self.string_values.contains(name) || self.bool_values.contains(name)
    }

    /// The value of `name` (see [`ScopeView::value_of`]).
    pub fn get_value(&self, name: &str) -> (r: Option<XmlVariableValue<F, C>>)
        ensures
            r is Some == self.view().value_of(name@) is Some,
            r matches Some(v) ==> v@ == self.view().value_of(name@)->0,
    {
        if let Some(v) = self.f32_values.get(name) {
            return Some(XmlVariableValue::NumberF32(*v));
        }
        if let Some(v) = self.i32_values.get(name) {
            return Some(XmlVariableValue::NumberI32(*v));
        }
        if let Some(v) = self.usize_values.get(name) {
            return Some(XmlVariableValue::NumberUsize(*v));
        }
        if let Some(v) = self.u32_values.get(name) {
            return Some(XmlVariableValue::NumberU32(*v));
        }
        if let Some(v) = self.color_values.get(name) {
            return Some(XmlVariableValue::Color(*v));
        }
        if let Some(v) = self.string_values.get(name) {
            return Some(XmlVariableValue::String(v.clone()));
        }
        if let Some(v) = self.bool_values.get(name) {
            return Some(XmlVariableValue::Bool(*v));
        }
        None
    }

    /// Writes `value` to `name` if the scope allows it (see [`ScopeView::may_set`]).
    pub fn set_value(&mut self, name: &str, value: XmlVariableValue<F, C>) -> (r: bool)
        ensures
            r == old(self).view().may_set(name@, value@),
            final(self).view() == if r {
                old(self).view().with_value(name@, value@)
            } else {
                old(self).view()
            },
    {
        let ghost v0 = self.view();
        match value {
            XmlVariableValue::NumberF32(v) => {
                if !Self::flag_of(&self.mutable, name) || !self.f32_values.contains(name) {
                    return false;
                }
                self.f32_values.insert(name, v);
            },
            XmlVariableValue::NumberI32(v) => {
                if !Self::flag_of(&self.mutable, name) || !self.i32_values.contains(name) {
                    return false;
                }
                self.i32_values.insert(name, v);
            },
            XmlVariableValue::NumberUsize(v) => {
                if !Self::flag_of(&self.mutable, name) || !self.usize_values.contains(name) {
                    return false;
                }
                self.usize_values.insert(name, v);
            },
            XmlVariableValue::NumberU32(v) => {
                if !Self::flag_of(&self.mutable, name) || !self.u32_values.contains(name) {
                    return false;
                }
                self.u32_values.insert(name, v);
            },
            XmlVariableValue::Color(v) => {
                if !Self::flag_of(&self.color_mutable, name) || !self.color_values.contains(name) {
                    return false;
                }
                self.color_values.insert(name, v);
            },
            XmlVariableValue::String(v) => {
                if !Self::flag_of(&self.string_mutable, name) || !self.string_values.contains(name) {
                    return false;
                }
                let ghost sv = v@;
                self.string_values.insert(name, v);
                assert(self.view().strings =~= v0.strings.insert(name@, sv));
            },
            XmlVariableValue::Bool(v) => {
                if !Self::flag_of(&self.bool_mutable, name) || !self.bool_values.contains(name) {
                    return false;
                }
                self.bool_values.insert(name, v);
            },
        }
        assert(self.view() == v0.with_value(name@, value@));
        true
    }
}


/// Variables of one schema: the `<var>` (mutable) and `<const>` entries of its `<def>` block.
pub struct VarStore<F, C> {
    scope: Scope<F, C>,
}

impl<F: Copy, C: Copy> VarStore<F, C> {
    /// An empty store.
    pub fn new() -> (r: Self)
        ensures
            r.view() == ScopeView::<F, C>::empty(),
    {
        VarStore { scope: Scope::new() }
    }

    /// The variables of this store.
    pub closed spec fn view(&self) -> ScopeView<F, C> {
        self.scope.view()
    }

    /// Whether any table holds a value for `name`.
    pub fn has_value(&self, name: &str) -> (r: bool)
        ensures
            r == self.view().has_value(name@),
    {
        self.scope.has_value(name)
    }

    /// The value of `name`, looked up in the order f32, i32, usize, u32, colour, string, bool.
    pub fn get_value(&self, name: &str) -> (r: Option<XmlVariableValue<F, C>>)
        ensures
            r is Some == self.view().value_of(name@) is Some,
            r matches Some(v) ==> v@ == self.view().value_of(name@)->0,
    {
        self.scope.get_value(name)
    }

    /// Writes `value` to `name` when `name` is a mutable variable that already
    /// holds a value of that kind; constants are never changed.
    pub fn set_value(&mut self, name: &str, value: XmlVariableValue<F, C>) -> (r: bool)
        ensures
            r == old(self).view().may_set(name@, value@),
            final(self).view() == if r {
                old(self).view().with_value(name@, value@)
            } else {
                old(self).view()
            },
    {
        self.scope.set_value(name, value)
    }

    /// Sets `name` to `value` whether or not it is a constant (the `==` assignment).
    pub fn force_value(&mut self, name: &str, value: XmlVariableValue<F, C>)
        ensures
            final(self).view() == old(self).view().forced(name@, value@),
    {
        self.scope.force_value(name, value);
    }

    /// Defines `name` to hold `value`: a variable when `is_mutable`, else a constant.
    pub fn define_value(&mut self, name: &str, value: XmlVariableValue<F, C>, is_mutable: bool)
        ensures
            final(self).view() == old(self).view().defined(name@, value@, is_mutable),
    {
        self.scope.define_value(name, value, is_mutable);
    }

    /// Defines `name` as a mutable f32 variable holding `value`.
    pub fn define_f32_var(&mut self, name: &str, value: F)
        ensures
            final(self).view() == (ScopeView {
                f32s: old(self).view().f32s.insert(name@, value),
                mutable: old(self).view().mutable.insert(name@, true),
                ..old(self).view()
            }),
    {
        self.scope.define_f32(name, value, true);
    }

    /// Defines `name` as a constant f32 variable holding `value`.
    pub fn define_f32_const(&mut self, name: &str, value: F)
        ensures
            final(self).view() == (ScopeView {
                f32s: old(self).view().f32s.insert(name@, value),
                mutable: old(self).view().mutable.insert(name@, false),
                ..old(self).view()
            }),
    {
        self.scope.define_f32(name, value, false);
    }

    /// The f32 value of `name`, if any.
    pub fn get_f32_var(&self, name: &str) -> (r: Option<F>)
        ensures
            r == (if self.view().f32s.contains_key(name@) {
                Some(self.view().f32s[name@])
            } else {
                None
            }),
    {
        self.scope.get_f32(name)
    }

    /// Sets the f32 value of `name` whether or not it is a constant (the `==`
    /// assignment); a name without a mutability flag becomes mutable.
    pub fn force_set_f32(&mut self, name: &str, value: F)
        ensures
            final(self).view() == (ScopeView {
                f32s: old(self).view().f32s.insert(name@, value),
                mutable: if old(self).view().mutable.contains_key(name@) {
                    old(self).view().mutable
                } else {
                    old(self).view().mutable.insert(name@, true)
                },
                ..old(self).view()
            }),
    {
        self.scope.force_set_f32(name, value);
    }

    /// Defines `name` as a mutable i32 variable holding `value`.
    pub fn define_i32_var(&mut self, name: &str, value: i32)
        ensures
            final(self).view() == (ScopeView {
                i32s: old(self).view().i32s.insert(name@, value),
                mutable: old(self).view().mutable.insert(name@, true),
                ..old(self).view()
            }),
    {
        self.scope.define_i32(name, value, true);
    }

    /// Defines `name` as a constant i32 variable holding `value`.
    pub fn define_i32_const(&mut self, name: &str, value: i32)
        ensures
            final(self).view() == (ScopeView {
                i32s: old(self).view().i32s.insert(name@, value),
                mutable: old(self).view().mutable.insert(name@, false),
                ..old(self).view()
            }),
    {
        self.scope.define_i32(name, value, false);
    }

    /// The i32 value of `name`, if any.
    pub fn get_i32_var(&self, name: &str) -> (r: Option<i32>)
        ensures
            r == (if self.view().i32s.contains_key(name@) {
                Some(self.view().i32s[name@])
            } else {
                None
            }),
    {
        self.scope.get_i32(name)
    }

    /// Sets the i32 value of `name` whether or not it is a constant (the `==`
    /// assignment); a name without a mutability flag becomes mutable.
    pub fn force_set_i32(&mut self, name: &str, value: i32)
        ensures
            final(self).view() == (ScopeView {
                i32s: old(self).view().i32s.insert(name@, value),
                mutable: if old(self).view().mutable.contains_key(name@) {
                    old(self).view().mutable
                } else {
                    old(self).view().mutable.insert(name@, true)
                },
                ..old(self).view()
            }),
    {
        self.scope.force_set_i32(name, value);
    }

    /// Defines `name` as a mutable usize variable holding `value`.
    pub fn define_usize_var(&mut self, name: &str, value: usize)
        ensures
            final(self).view() == (ScopeView {
                usizes: old(self).view().usizes.insert(name@, value),
                mutable: old(self).view().mutable.insert(name@, true),
                ..old(self).view()
            }),
    {
        self.scope.define_usize(name, value, true);
    }

    /// Defines `name` as a constant usize variable holding `value`.
    pub fn define_usize_const(&mut self, name: &str, value: usize)
        ensures
            final(self).view() == (ScopeView {
                usizes: old(self).view().usizes.insert(name@, value),
                mutable: old(self).view().mutable.insert(name@, false),
                ..old(self).view()
            }),
    {
        self.scope.define_usize(name, value, false);
    }

    /// The usize value of `name`, if any.
    pub fn get_usize_var(&self, name: &str) -> (r: Option<usize>)
        ensures
            r == (if self.view().usizes.contains_key(name@) {
                Some(self.view().usizes[name@])
            } else {
                None
            }),
    {
        self.scope.get_usize(name)
    }

    /// Sets the usize value of `name` whether or not it is a constant (the `==`
    /// assignment); a name without a mutability flag becomes mutable.
    pub fn force_set_usize(&mut self, name: &str, value: usize)
        ensures
            final(self).view() == (ScopeView {
                usizes: old(self).view().usizes.insert(name@, value),
                mutable: if old(self).view().mutable.contains_key(name@) {
                    old(self).view().mutable
                } else {
                    old(self).view().mutable.insert(name@, true)
                },
                ..old(self).view()
            }),
    {
        self.scope.force_set_usize(name, value);
    }

    /// Defines `name` as a mutable u32 variable holding `value`.
    pub fn define_u32_var(&mut self, name: &str, value: u32)
        ensures
            final(self).view() == (ScopeView {
                u32s: old(self).view().u32s.insert(name@, value),
                mutable: old(self).view().mutable.insert(name@, true),
                ..old(self).view()
            }),
    {
        self.scope.define_u32(name, value, true);
    }

    /// Defines `name` as a constant u32 variable holding `value`.
    pub fn define_u32_const(&mut self, name: &str, value: u32)
        ensures
            final(self).view() == (ScopeView {
                u32s: old(self).view().u32s.insert(name@, value),
                mutable: old(self).view().mutable.insert(name@, false),
                ..old(self).view()
            }),
    {
        self.scope.define_u32(name, value, false);
    }

    /// The u32 value of `name`, if any.
    pub fn get_u32_var(&self, name: &str) -> (r: Option<u32>)
        ensures
            r == (if self.view().u32s.contains_key(name@) {
                Some(self.view().u32s[name@])
            } else {
                None
            }),
    {
        self.scope.get_u32(name)
    }

    /// Sets the u32 value of `name` whether or not it is a constant (the `==`
    /// assignment); a name without a mutability flag becomes mutable.
    pub fn force_set_u32(&mut self, name: &str, value: u32)
        ensures
            final(self).view() == (ScopeView {
                u32s: old(self).view().u32s.insert(name@, value),
                mutable: if old(self).view().mutable.contains_key(name@) {
                    old(self).view().mutable
                } else {
                    old(self).view().mutable.insert(name@, true)
                },
                ..old(self).view()
            }),
    {
        self.scope.force_set_u32(name, value);
    }

    /// Defines `name` as a mutable color variable holding `value`.
    pub fn define_color_var(&mut self, name: &str, value: C)
        ensures
            final(self).view() == (ScopeView {
                colors: old(self).view().colors.insert(name@, value),
                color_mutable: old(self).view().color_mutable.insert(name@, true),
                ..old(self).view()
            }),
    {
        self.scope.define_color(name, value, true);
    }

    /// Defines `name` as a constant color variable holding `value`.
    pub fn define_color_const(&mut self, name: &str, value: C)
        ensures
            final(self).view() == (ScopeView {
                colors: old(self).view().colors.insert(name@, value),
                color_mutable: old(self).view().color_mutable.insert(name@, false),
                ..old(self).view()
            }),
    {
        self.scope.define_color(name, value, false);
    }

    /// The color value of `name`, if any.
    pub fn get_color_var(&self, name: &str) -> (r: Option<C>)
        ensures
            r == (if self.view().colors.contains_key(name@) {
                Some(self.view().colors[name@])
            } else {
                None
            }),
    {
        self.scope.get_color(name)
    }

    /// Sets the color value of `name` whether or not it is a constant (the `==`
    /// assignment); a name without a mutability flag becomes mutable.
    pub fn force_set_color(&mut self, name: &str, value: C)
        ensures
            final(self).view() == (ScopeView {
                colors: old(self).view().colors.insert(name@, value),
                color_mutable: if old(self).view().color_mutable.contains_key(name@) {
                    old(self).view().color_mutable
                } else {
                    old(self).view().color_mutable.insert(name@, true)
                },
                ..old(self).view()
            }),
    {
        self.scope.force_set_color(name, value);
    }

    /// Defines `name` as a mutable bool variable holding `value`.
    pub fn define_bool_var(&mut self, name: &str, value: bool)
        ensures
            final(self).view() == (ScopeView {
                bools: old(self).view().bools.insert(name@, value),
                bool_mutable: old(self).view().bool_mutable.insert(name@, true),
                ..old(self).view()
            }),
    {
        self.scope.define_bool(name, value, true);
    }

    /// Defines `name` as a constant bool variable holding `value`.
    pub fn define_bool_const(&mut self, name: &str, value: bool)
        ensures
            final(self).view() == (ScopeView {
                bools: old(self).view().bools.insert(name@, value),
                bool_mutable: old(self).view().bool_mutable.insert(name@, false),
                ..old(self).view()
            }),
    {
        self.scope.define_bool(name, value, false);
    }

    /// The bool value of `name`, if any.
    pub fn get_bool_var(&self, name: &str) -> (r: Option<bool>)
        ensures
            r == (if self.view().bools.contains_key(name@) {
                Some(self.view().bools[name@])
            } else {
                None
            }),
    {
        self.scope.get_bool(name)
    }

    /// Sets the bool value of `name` whether or not it is a constant (the `==`
    /// assignment); a name without a mutability flag becomes mutable.
    pub fn force_set_bool(&mut self, name: &str, value: bool)
        ensures
            final(self).view() == (ScopeView {
                bools: old(self).view().bools.insert(name@, value),
                bool_mutable: if old(self).view().bool_mutable.contains_key(name@) {
                    old(self).view().bool_mutable
                } else {
                    old(self).view().bool_mutable.insert(name@, true)
                },
                ..old(self).view()
            }),
    {
        self.scope.force_set_bool(name, value);
    }

    /// Defines `name` as a mutable string variable holding `value`.
    pub fn define_string_var(&mut self, name: &str, value: &str)
        ensures
            final(self).view() == (ScopeView {
                strings: old(self).view().strings.insert(name@, value@),
                string_mutable: old(self).view().string_mutable.insert(name@, true),
                ..old(self).view()
            }),
    {
        self.scope.define_string(name, value, true);
    }

    /// Defines `name` as a constant string variable holding `value`.
    pub fn define_string_const(&mut self, name: &str, value: &str)
        ensures
            final(self).view() == (ScopeView {
                strings: old(self).view().strings.insert(name@, value@),
                string_mutable: old(self).view().string_mutable.insert(name@, false),
                ..old(self).view()
            }),
    {
        self.scope.define_string(name, value, false);
    }

    /// The string value of `name`, if any.
    pub fn get_string_var(&self, name: &str) -> (r: Option<&str>)
        ensures
            r is Some == self.view().strings.contains_key(name@),
            r matches Some(s) ==> s@ == self.view().strings[name@],
    {
        self.scope.get_string(name)
    }

    /// Sets the string value of `name` whether or not it is a constant (the `==`
    /// assignment); a name without a mutability flag becomes mutable.
    pub fn force_set_string(&mut self, name: &str, value: &str)
        ensures
            final(self).view() == (ScopeView {
                strings: old(self).view().strings.insert(name@, value@),
                string_mutable: if old(self).view().string_mutable.contains_key(name@) {
                    old(self).view().string_mutable
                } else {
                    old(self).view().string_mutable.insert(name@, true)
                },
                ..old(self).view()
            }),
    {
        self.scope.force_set_string(name, value);
    }

    /// Whether `name` is mutable in the `mutable` flags.
    pub fn is_mutable(&self, name: &str) -> (r: bool)
        ensures
            r == flag(self.view().mutable, name@),
    {
        self.scope.is_mutable(name)
    }

    /// Whether `name` is mutable in the `color_mutable` flags.
    pub fn is_color_mutable(&self, name: &str) -> (r: bool)
        ensures
            r == flag(self.view().color_mutable, name@),
    {
        self.scope.is_color_mutable(name)
    }

    /// Whether `name` is mutable in the `string_mutable` flags.
    pub fn is_string_mutable(&self, name: &str) -> (r: bool)
        ensures
            r == flag(self.view().string_mutable, name@),
    {
        self.scope.is_string_mutable(name)
    }

    /// Whether `name` is mutable in the `bool_mutable` flags.
    pub fn is_bool_mutable(&self, name: &str) -> (r: bool)
        ensures
            r == flag(self.view().bool_mutable, name@),
    {
        self.scope.is_bool_mutable(name)
    }

    /// First half of an augmented assignment (see [`Scope::augmented_begin`]):
    /// the caller computes the new value and writes it with `force_set_f32`.
    pub fn augmented_begin(&mut self, name: &str, op: &str, zero: F) -> (r: Option<(AugOp, F)>)
        ensures
            !flag(old(self).view().mutable, name@) ==> r is None && final(self).view() == old(self).view(),
            flag(old(self).view().mutable, name@) ==> {
                let f = if old(self).view().f32s.contains_key(name@) {
                    old(self).view().f32s
                } else {
                    old(self).view().f32s.insert(name@, zero)
                };
                &&& final(self).view() == (ScopeView { f32s: f, ..old(self).view() })
                &&& r == match aug_op_spec(op@) {
                    Some(o) => Some((o, f[name@])),
                    None => None,
                }
            },
    {
        self.scope.augmented_begin(name, op, zero)
    }

    /// Merges the variables of an included schema into this scope (see [`Scope::absorb_from`]).
    pub fn absorb_from(&mut self, other: VarStore<F, C>)
        ensures
            final(self).view() == (ScopeView {
                f32s: old(self).view().f32s.union_prefer_right(other.view().f32s),
                mutable: old(self).view().mutable.union_prefer_right(other.view().mutable),
                colors: old(self).view().colors.union_prefer_right(other.view().colors),
                color_mutable: old(self).view().color_mutable.union_prefer_right(other.view().color_mutable),
                strings: old(self).view().strings.union_prefer_right(other.view().strings),
                string_mutable: old(self).view().string_mutable.union_prefer_right(other.view().string_mutable),
                bools: old(self).view().bools.union_prefer_right(other.view().bools),
                bool_mutable: old(self).view().bool_mutable.union_prefer_right(other.view().bool_mutable),
                ..old(self).view()
            }),
    {
        self.scope.absorb_from(other.scope);
    }
}

/// `name` is a mutable variable in one of the tables of `v`.
pub open spec fn global_is_variable<F, C>(v: ScopeView<F, C>, name: Seq<char>) -> bool {
    flag(v.mutable, name) || flag(v.color_mutable, name) || flag(v.string_mutable, name) || flag(v.bool_mutable, name)
}

/// Variables shared by all schemas: the `<def>` entries marked `global="true"`.
/// Besides the values, the store records which globals a schema has declared
/// when it was read in full (a pre-scan fills in values without declaring).
pub struct GlobalVarStore<F, C> {
    scope: Scope<F, C>,
    declared: Vec<String>,
}

impl<F: Copy, C: Copy> GlobalVarStore<F, C> {
    /// An empty store.
    pub fn new() -> (r: Self)
        ensures
            r.view() == ScopeView::<F, C>::empty(),
            r.declared() == Set::<Seq<char>>::empty(),
    {
        let r = GlobalVarStore { scope: Scope::new(), declared: Vec::new() };
        assert(r.declared() =~= Set::<Seq<char>>::empty());
        r
    }

    /// The globals that a schema read in full has declared.
    pub closed spec fn declared(&self) -> Set<Seq<char>> {
        name_set(self.declared@)
    }

    /// Whether a schema read in full has declared the global `name`.
    pub fn is_declared(&self, name: &str) -> (r: bool)
        ensures
            r == self.declared().contains(name@),
    {
        let n = String::from_str(name);
        contains_name(&self.declared, &n)
    }

    /// Whether `name` is a mutable global in any of the tables (see [`global_is_variable`]).
    pub fn is_variable(&self, name: &str) -> (r: bool)
        ensures
            r == global_is_variable(self.view(), name@),
    {
        self.scope.is_mutable(name) || self.scope.is_color_mutable(name) || self.scope.is_string_mutable(name)
            || self.scope.is_bool_mutable(name)
    }

    /// Records that a schema has declared the global `name`.
    pub fn mark_declared(&mut self, name: &str)
        ensures
            final(self).view() == old(self).view(),
            final(self).declared() == old(self).declared().insert(name@),
    {
        let ghost d0 = self.declared@;
        self.declared.push(String::from_str(name));
        proof {
            assert forall|x: Seq<char>| #[trigger] self.declared().contains(x) <==> name_set(d0).insert(name@).contains(x) by {
                if name_set(d0).contains(x) && x != name@ {
                    let i = choose|i: int| 0 <= i < d0.len() && #[trigger] d0[i]@ == x;
                    assert(self.declared@[i]@ == x);
                }
                if x == name@ {
                    assert(self.declared@[d0.len() as int]@ == x);
                }
                if self.declared().contains(x) {
                    let i = choose|i: int| 0 <= i < self.declared@.len() && #[trigger] self.declared@[i]@ == x;
                    if i < d0.len() {
                        assert(d0[i]@ == x);
                    }
                }
            }
            assert(self.declared() =~= name_set(d0).insert(name@));
        }
    }

    /// The variables of this store.
    pub closed spec fn view(&self) -> ScopeView<F, C> {
        self.scope.view()
    }

    /// Whether any table holds a value for `name`.
    pub fn has_value(&self, name: &str) -> (r: bool)
        ensures
            r == self.view().has_value(name@),
    {
        self.scope.has_value(name)
    }

    /// The value of `name`, looked up in the order f32, i32, usize, u32, colour, string, bool.
    pub fn get_value(&self, name: &str) -> (r: Option<XmlVariableValue<F, C>>)
        ensures
            r is Some == self.view().value_of(name@) is Some,
            r matches Some(v) ==> v@ == self.view().value_of(name@)->0,
    {
        self.scope.get_value(name)
    }

    /// Writes `value` to `name` when `name` is a mutable variable that already
    /// holds a value of that kind; constants are never changed.
    pub fn set_value(&mut self, name: &str, value: XmlVariableValue<F, C>) -> (r: bool)
        ensures
            r == old(self).view().may_set(name@, value@),
            final(self).view() == if r {
                old(self).view().with_value(name@, value@)
            } else {
                old(self).view()
            },
            final(self).declared() == old(self).declared(),
    {
        self.scope.set_value(name, value)
    }

    /// Whether `name` has been registered under any kind.
    pub fn is_defined(&self, name: &str) -> (r: bool)
        ensures
            r == (self.view().mutable.contains_key(name@) || self.view().color_mutable.contains_key(name@)
                || self.view().string_mutable.contains_key(name@) || self.view().bool_mutable.contains_key(
                name@,
            )),
    {
        self.scope.is_defined(name)
    }

    /// Registers `name` as holding `value`, mutable or not.
    pub fn define_value(&mut self, name: &str, value: XmlVariableValue<F, C>, is_mutable: bool)
        ensures
            final(self).view() == old(self).view().defined(name@, value@, is_mutable),
            final(self).declared() == old(self).declared(),
    {
        self.scope.define_value(name, value, is_mutable);
    }

    /// Registers `name` as a f32 variable holding `value`, mutable or not.
    pub fn define_f32(&mut self, name: &str, value: F, is_mutable: bool)
        ensures
            final(self).view() == (ScopeView {
                f32s: old(self).view().f32s.insert(name@, value),
                mutable: old(self).view().mutable.insert(name@, is_mutable),
                ..old(self).view()
            }),
    {
        self.scope.define_f32(name, value, is_mutable);
    }

    /// The f32 value of `name`, if any.
    pub fn get_f32(&self, name: &str) -> (r: Option<F>)
        ensures
            r == (if self.view().f32s.contains_key(name@) {
                Some(self.view().f32s[name@])
            } else {
                None
            }),
    {
        self.scope.get_f32(name)
    }

    /// Registers `name` as a i32 variable holding `value`, mutable or not.
    pub fn define_i32(&mut self, name: &str, value: i32, is_mutable: bool)
        ensures
            final(self).view() == (ScopeView {
                i32s: old(self).view().i32s.insert(name@, value),
                mutable: old(self).view().mutable.insert(name@, is_mutable),
                ..old(self).view()
            }),
    {
        self.scope.define_i32(name, value, is_mutable);
    }

    /// The i32 value of `name`, if any.
    pub fn get_i32(&self, name: &str) -> (r: Option<i32>)
        ensures
            r == (if self.view().i32s.contains_key(name@) {
                Some(self.view().i32s[name@])
            } else {
                None
            }),
    {
        self.scope.get_i32(name)
    }

    /// Registers `name` as a usize variable holding `value`, mutable or not.
    pub fn define_usize(&mut self, name: &str, value: usize, is_mutable: bool)
        ensures
            final(self).view() == (ScopeView {
                usizes: old(self).view().usizes.insert(name@, value),
                mutable: old(self).view().mutable.insert(name@, is_mutable),
                ..old(self).view()
            }),
    {
        self.scope.define_usize(name, value, is_mutable);
    }

    /// The usize value of `name`, if any.
    pub fn get_usize(&self, name: &str) -> (r: Option<usize>)
        ensures
            r == (if self.view().usizes.contains_key(name@) {
                Some(self.view().usizes[name@])
            } else {
                None
            }),
    {
        self.scope.get_usize(name)
    }

    /// Registers `name` as a u32 variable holding `value`, mutable or not.
    pub fn define_u32(&mut self, name: &str, value: u32, is_mutable: bool)
        ensures
            final(self).view() == (ScopeView {
                u32s: old(self).view().u32s.insert(name@, value),
                mutable: old(self).view().mutable.insert(name@, is_mutable),
                ..old(self).view()
            }),
    {
        self.scope.define_u32(name, value, is_mutable);
    }

    /// The u32 value of `name`, if any.
    pub fn get_u32(&self, name: &str) -> (r: Option<u32>)
        ensures
            r == (if self.view().u32s.contains_key(name@) {
                Some(self.view().u32s[name@])
            } else {
                None
            }),
    {
        self.scope.get_u32(name)
    }

    /// Registers `name` as a color variable holding `value`, mutable or not.
    pub fn define_color(&mut self, name: &str, value: C, is_mutable: bool)
        ensures
            final(self).view() == (ScopeView {
                colors: old(self).view().colors.insert(name@, value),
                color_mutable: old(self).view().color_mutable.insert(name@, is_mutable),
                ..old(self).view()
            }),
    {
        self.scope.define_color(name, value, is_mutable);
    }

    /// The color value of `name`, if any.
    pub fn get_color(&self, name: &str) -> (r: Option<C>)
        ensures
            r == (if self.view().colors.contains_key(name@) {
                Some(self.view().colors[name@])
            } else {
                None
            }),
    {
        self.scope.get_color(name)
    }

    /// Registers `name` as a bool variable holding `value`, mutable or not.
    pub fn define_bool(&mut self, name: &str, value: bool, is_mutable: bool)
        ensures
            final(self).view() == (ScopeView {
                bools: old(self).view().bools.insert(name@, value),
                bool_mutable: old(self).view().bool_mutable.insert(name@, is_mutable),
                ..old(self).view()
            }),
    {
        self.scope.define_bool(name, value, is_mutable);
    }

    /// The bool value of `name`, if any.
    pub fn get_bool(&self, name: &str) -> (r: Option<bool>)
        ensures
            r == (if self.view().bools.contains_key(name@) {
                Some(self.view().bools[name@])
            } else {
                None
            }),
    {
        self.scope.get_bool(name)
    }

    /// Registers `name` as a string variable holding `value`, mutable or not.
    pub fn define_string(&mut self, name: &str, value: &str, is_mutable: bool)
        ensures
            final(self).view() == (ScopeView {
                strings: old(self).view().strings.insert(name@, value@),
                string_mutable: old(self).view().string_mutable.insert(name@, is_mutable),
                ..old(self).view()
            }),
    {
        self.scope.define_string(name, value, is_mutable);
    }

    /// The string value of `name`, if any.
    pub fn get_string(&self, name: &str) -> (r: Option<&str>)
        ensures
            r is Some == self.view().strings.contains_key(name@),
            r matches Some(s) ==> s@ == self.view().strings[name@],
    {
        self.scope.get_string(name)
    }
}

/// The mutability flag that governs writes of the kind of `v` to `name`.
pub open spec fn kind_flag<F, C>(s: ScopeView<F, C>, n: Seq<char>, v: XmlValueView<F, C>) -> bool {
    match v {
        XmlValueView::Color(_) => flag(s.color_mutable, n),
        XmlValueView::String(_) => flag(s.string_mutable, n),
        XmlValueView::Bool(_) => flag(s.bool_mutable, n),
        _ => flag(s.mutable, n),
    }
}

/// A constant is never written: a write of a kind whose flag for the name
/// is not set is refused.
pub proof fn law_constant_refused<F, C>(s: ScopeView<F, C>, n: Seq<char>, v: XmlValueView<F, C>)
    requires
        !kind_flag(s, n, v),
    ensures
        !s.may_set(n, v),
{
}

/// What a write stores is what a read gives back, where the table of the
/// written kind is the first that the read looks in for that name.
pub proof fn law_write_read_back<F, C>(s: ScopeView<F, C>, n: Seq<char>, v: XmlValueView<F, C>)
    requires
        s.may_set(n, v),
        same_kind(s.value_of(n)->0, v),
    ensures
        s.with_value(n, v).value_of(n) == Some(v),
{
}

/// A write changes the value of no other name.
pub proof fn law_write_is_local<F, C>(s: ScopeView<F, C>, n: Seq<char>, v: XmlValueView<F, C>, other: Seq<char>)
    requires
        other != n,
    ensures
        s.with_value(n, v).value_of(other) == s.value_of(other),
{
}

/// How `op` is written in a `<var>` update: `+=`, `-=`, `*=`, `/=`, `%=`.
pub open spec fn aug_spelling(op: AugOp) -> Seq<char> {
    match op {
        AugOp::Add => seq!['+', '='],
        AugOp::Sub => seq!['-', '='],
        AugOp::Mul => seq!['*', '='],
        AugOp::Div => seq!['/', '='],
        AugOp::Rem => seq!['%', '='],
    }
}

/// Each operator text reads as its own operation and as no other: `op` is
/// read as `o` exactly when it is `o`'s spelling, so two texts that are read
/// as the same operation are the same text.
pub proof fn law_aug_spellings(op: Seq<char>, o: AugOp, other: Seq<char>)
    ensures
        aug_op_spec(op) == Some(o) <==> op == aug_spelling(o),
        aug_op_spec(op) is Some && aug_op_spec(op) == aug_op_spec(other) ==> op == other,
{
    if op.len() == 2 {
        assert(op == seq![op[0], op[1]]);
    }
    if other.len() == 2 {
        assert(other == seq![other[0], other[1]]);
    }
}

} // verus!
