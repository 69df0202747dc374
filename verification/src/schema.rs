//! Loaded schemas, the schema history, and the variables that belong to them.
//!
//! A schema is a loaded XML file, known by its id (its path relative to the
//! UI folder, with `/` as separator). Each schema has its own `<def>`
//! variables; global variables are shared by all of them. The active schema
//! is the last entry of the history, and its variables are the local ones.
//! Schema-scoped variables are declared once, with an initial value that
//! every schema starts from and a reset value that a schema takes whenever
//! it becomes active.
use vstd::prelude::*;
use crate::table::Table;
use crate::text::{ascii_lower, chars_eq, chars_of, extension_dot, last_dot, lemma_last_dot, lowered_range, push_char};
use crate::vars::{
    same_kind, GlobalVarStore, ScopeView, VarStore, XmlValueView, XmlVariableValue,
};

verus! {

/// The longest the schema history grows.
pub const MAX_HISTORY: usize = 10;

/// `id` with every `\` turned into `/`.
pub open spec fn normalized(id: Seq<char>) -> Seq<char> {
    Seq::new(id.len(), |i: int| if id[i] == '\\' { '/' } else { id[i] })
}

/// Writes a schema id with `/` as separator (`str::replace('\\', "/")`).
pub fn normalize_schema_id(id: &str) -> (r: String)
    ensures
        r@ == normalized(id@),
{
    let cs = chars_of(id);
    let mut out = String::new();
    let mut i: usize = 0;
    while i < cs.len()
        invariant
            cs@ == id@,
            i <= cs@.len(),
            out@ == normalized(id@).take(i as int),
        decreases cs@.len() - i,
    {
        let c = if cs[i] == '\\' { '/' } else { cs[i] };
        push_char(&mut out, c);
        assert(normalized(id@).take(i + 1) == normalized(id@).take(i as int).push(c));
        i = i + 1;
    }
    assert(normalized(id@).take(cs@.len() as int) == normalized(id@));
    out
}

/// The history after `id` becomes active: the oldest entry leaves when the
/// history is full.
pub open spec fn push_capped(h: Seq<Seq<char>>, id: Seq<char>) -> Seq<Seq<char>> {
    if h.len() >= MAX_HISTORY {
        h.drop_first().push(id)
    } else {
        h.push(id)
    }
}

/// The values of a table of variable values.
pub open spec fn values_of<F, C>(m: Map<Seq<char>, XmlVariableValue<F, C>>) -> Map<Seq<char>, XmlValueView<F, C>> {
    m.map_values(|v: XmlVariableValue<F, C>| v@)
}

/// The initial value of each declared schema variable.
pub open spec fn initial_values<F, C>(specs: Map<Seq<char>, (XmlValueView<F, C>, XmlValueView<F, C>)>) -> Map<Seq<char>, XmlValueView<F, C>> {
    specs.map_values(|p: (XmlValueView<F, C>, XmlValueView<F, C>)| p.0)
}

/// The reset value of each declared schema variable.
pub open spec fn reset_values<F, C>(specs: Map<Seq<char>, (XmlValueView<F, C>, XmlValueView<F, C>)>) -> Map<Seq<char>, XmlValueView<F, C>> {
    specs.map_values(|p: (XmlValueView<F, C>, XmlValueView<F, C>)| p.1)
}

/// What a [`SchemaState`] holds.
pub ghost struct SchemaStateView<F, C> {
    /// The variables of each loaded schema, by schema id.
    pub schemas: Map<Seq<char>, ScopeView<F, C>>,
    /// The ids of the schemas used, oldest first; the last is the active one.
    pub history: Seq<Seq<char>>,
    /// The global variables.
    pub globals: ScopeView<F, C>,
    /// The globals that a schema read in full has declared.
    pub declared_globals: Set<Seq<char>>,
    /// Each declared schema variable with its initial and reset value.
    pub var_specs: Map<Seq<char>, (XmlValueView<F, C>, XmlValueView<F, C>)>,
    /// The schema variables of each schema, by schema id.
    pub var_values: Map<Seq<char>, Map<Seq<char>, XmlValueView<F, C>>>,
}

impl<F, C> SchemaStateView<F, C> {
    /// Every schema in the history, the active one among them, is loaded.
    pub open spec fn history_loaded(self) -> bool {
        forall|k: int| 0 <= k < self.history.len() ==> self.schemas.contains_key(#[trigger] self.history[k])
    }

    /// The id of the active schema.
    pub open spec fn active(self) -> Option<Seq<char>> {
        if self.history.len() > 0 {
            Some(self.history.last())
        } else {
            None
        }
    }

    /// The local variables: those of the active schema.
    pub open spec fn locals(self) -> Option<ScopeView<F, C>> {
        match self.active() {
            Some(a) => if self.schemas.contains_key(a) {
                Some(self.schemas[a])
            } else {
                None
            },
            None => None,
        }
    }

    /// The schema variables of `id`, none where it has no entry yet.
    pub open spec fn values_in(self, id: Seq<char>) -> Map<Seq<char>, XmlValueView<F, C>> {
        if self.var_values.contains_key(id) {
            self.var_values[id]
        } else {
            Map::empty()
        }
    }

    /// The value of variable `name`: the active schema's own first, then the global one.
    pub open spec fn variable(self, name: Seq<char>) -> Option<XmlValueView<F, C>> {
        match self.locals() {
            Some(l) => if l.value_of(name) is Some {
                l.value_of(name)
            } else {
                self.globals.value_of(name)
            },
            None => self.globals.value_of(name),
        }
    }

    /// The state after schema `id` becomes active: its schema variables take
    /// their reset values and it joins the history.
    pub open spec fn activated(self, id: Seq<char>) -> Self {
        SchemaStateView {
            history: push_capped(self.history, id),
            var_values: self.var_values.insert(id, self.values_in(id).union_prefer_right(reset_values(self.var_specs))),
            ..self
        }
    }

    /// What using schema `schema_id` answers, and the state after it: an id
    /// is normalized first; the active schema is left as it is, a loaded one
    /// becomes active, and an unknown one changes nothing.
    pub open spec fn used(self, schema_id: Seq<char>) -> (UseSchema, Self) {
        let id = normalized(schema_id);
        if self.active() == Some(id) {
            (UseSchema::AlreadyActive, self)
        } else if self.schemas.contains_key(id) {
            (UseSchema::Activated, self.activated(id))
        } else {
            (UseSchema::NotFound, self)
        }
    }

    /// Whether schema `schema_id` can be registered, and the state after
    /// registering it with the variables `vars`: a loaded id (normalized) is
    /// refused; a new one is added with the initial value of every schema
    /// variable it lacks.
    pub open spec fn registered(self, schema_id: Seq<char>, vars: ScopeView<F, C>) -> (bool, Self) {
        let id = normalized(schema_id);
        if self.schemas.contains_key(id) {
            (false, self)
        } else {
            (true, SchemaStateView {
                schemas: self.schemas.insert(id, vars),
                var_values: self.var_values.insert(
                    id,
                    initial_values(self.var_specs).union_prefer_right(self.values_in(id)),
                ),
                ..self
            })
        }
    }

    /// The state after schema variable `name` is declared with `initial` and `reset`.
    pub open spec fn declared(self, name: Seq<char>, initial: XmlValueView<F, C>, reset: XmlValueView<F, C>) -> Self {
        SchemaStateView {
            var_specs: self.var_specs.insert(name, (initial, reset)),
            var_values: with_in_all(self.var_values, self.schemas.dom(), name, initial),
            ..self
        }
    }

    /// The state after schema variable `name` of the active schema is set to `v`.
    pub open spec fn with_schema_var(self, name: Seq<char>, v: XmlValueView<F, C>) -> Self {
        SchemaStateView {
            var_values: self.var_values.insert(self.active()->0, self.values_in(self.active()->0).insert(name, v)),
            ..self
        }
    }

    /// The value of variable `name` as seen from schema `id`.
    pub open spec fn variable_in(self, id: Seq<char>, name: Seq<char>) -> Option<XmlValueView<F, C>> {
        if self.schemas.contains_key(id) && self.schemas[id].value_of(name) is Some {
            self.schemas[id].value_of(name)
        } else {
            self.globals.value_of(name)
        }
    }
}

/// The schema side of the UI: loaded schemas with their variables, the
/// history, the global variables and the schema-scoped variables.
pub struct SchemaState<F, C> {
    registry: Registry<F, C>,
    globals: GlobalVarStore<F, C>,
    var_specs: Table<(XmlVariableValue<F, C>, XmlVariableValue<F, C>)>,
    var_values: Table<Table<XmlVariableValue<F, C>>>,
}

/// The loaded schemas and the history of the schemas used; every id in the
/// history is a loaded schema.
struct Registry<F, C> {
    schemas: Table<VarStore<F, C>>,
    history: SchemaHistory,
}

impl<F, C> Registry<F, C> {
    #[verifier::type_invariant]
    closed spec fn loaded_history(self) -> bool {
        forall|k: int| 0 <= k < self.history.view().len()
            ==> self.schemas.view().contains_key(#[trigger] self.history.view()[k])
    }
}

impl<F: Copy, C: Copy> SchemaState<F, C> {
    /// What the state holds.
    pub closed spec fn view(&self) -> SchemaStateView<F, C> {
        SchemaStateView {
            schemas: self.registry.schemas.view().map_values(|v: VarStore<F, C>| v.view()),
            history: self.registry.history.view(),
            globals: self.globals.view(),
            declared_globals: self.globals.declared(),
            var_specs: self.var_specs.view().map_values(
                |p: (XmlVariableValue<F, C>, XmlVariableValue<F, C>)| (p.0@, p.1@),
            ),
            var_values: self.var_values.view().map_values(
                |t: Table<XmlVariableValue<F, C>>| values_of(t.view()),
            ),
        }
    }

    /// No schema, no history, no variables.
    pub fn new() -> (r: Self)
        ensures
            r.view() == (SchemaStateView::<F, C> {
                schemas: Map::empty(),
                history: Seq::empty(),
                globals: ScopeView::empty(),
                declared_globals: Set::empty(),
                var_specs: Map::empty(),
                var_values: Map::empty(),
            }),
    {
        let r = SchemaState {
            registry: Registry { schemas: Table::new(), history: SchemaHistory::new() },
            globals: GlobalVarStore::new(),
            var_specs: Table::new(),
            var_values: Table::new(),
        };
        proof {
            assert(r.view().schemas =~= Map::empty());
            assert(r.view().history =~= Seq::empty());
            assert(r.view().var_specs =~= Map::empty());
            assert(r.view().var_values =~= Map::empty());
        }
        r
    }

    /// Whether a schema with this id is loaded.
    pub fn has_schema_id(&self, schema_id: &str) -> (r: bool)
        ensures
            r == self.view().schemas.contains_key(schema_id@),
    {
        self.registry.schemas.contains(schema_id)
    }

    /// The id of the active schema: the last entry of the history.
    pub fn get_active_schema(&self) -> (r: Option<String>)
        ensures
            r is Some == self.view().active() is Some,
            r matches Some(s) ==> s@ == self.view().active()->0,
    {
        self.registry.history.last()
    }

    /// The ids of the schemas used, oldest first.
    pub fn get_schema_history(&self) -> (r: Vec<String>)
        ensures
            r@.map_values(|s: String| s@) == self.view().history,
            r@.len() <= MAX_HISTORY,
    {
        self.registry.history.to_vec()
    }
}

/// The ids of the schemas used, oldest first, at most [`MAX_HISTORY`] of them.
pub struct SchemaHistory {
    ids: Vec<String>,
}

impl SchemaHistory {
    #[verifier::type_invariant]
    closed spec fn bounded(self) -> bool {
        self.ids@.len() <= MAX_HISTORY
    }

    /// The ids, oldest first.
    pub closed spec fn view(&self) -> Seq<Seq<char>> {
        self.ids@.map_values(|s: String| s@)
    }

    /// An empty history.
    pub fn new() -> (r: Self)
        ensures
            r.view() == Seq::<Seq<char>>::empty(),
    {
        let r = SchemaHistory { ids: Vec::new() };
        assert(r.view() =~= Seq::<Seq<char>>::empty());
        r
    }

    /// Number of entries; never more than [`MAX_HISTORY`].
    pub fn len(&self) -> (r: usize)
        ensures
            r == self.view().len(),
            r <= MAX_HISTORY,
    {
        proof {
            use_type_invariant(self);
        }
        self.ids.len()
    }

    /// The `i`-th entry, oldest first.
    pub fn get(&self, i: usize) -> (r: String)
        requires
            i < self.view().len(),
        ensures
            r@ == self.view()[i as int],
    {
        self.ids[i].clone()
    }

    /// The newest entry.
    pub fn last(&self) -> (r: Option<String>)
        ensures
            r is Some == (self.view().len() > 0),
            r matches Some(s) ==> s@ == self.view().last(),
    {
        let n = self.ids.len();
        if n == 0 {
            None
        } else {
            Some(self.ids[n - 1].clone())
        }
    }

    /// The entries as a vector, oldest first.
    pub fn to_vec(&self) -> (r: Vec<String>)
        ensures
            r@.map_values(|s: String| s@) == self.view(),
            r@.len() <= MAX_HISTORY,
    {
        proof {
            use_type_invariant(self);
        }
        let mut r: Vec<String> = Vec::new();
        let mut i: usize = 0;
        while i < self.ids.len()
            invariant
                i <= self.ids@.len(),
                r@.len() == i,
                forall|k: int| 0 <= k < i ==> #[trigger] r@[k]@ == self.ids@[k]@,
            decreases self.ids@.len() - i,
        {
            r.push(self.ids[i].clone());
            i = i + 1;
        }
        assert(r@.map_values(|s: String| s@) =~= self.view());
        r
    }

    /// Makes `id` the newest entry; the oldest leaves when the history is full.
    pub fn push(&mut self, id: String)
        ensures
            final(self).view() == push_capped(old(self).view(), id@),
    {
        proof {
            use_type_invariant(&*self);
        }
        let mut ids: Vec<String> = Vec::new();
        std::mem::swap(&mut ids, &mut self.ids);
        let ghost v0 = ids@.map_values(|s: String| s@);
        if ids.len() >= MAX_HISTORY {
            ids.remove(0);
            assert(ids@.map_values(|s: String| s@) =~= v0.drop_first());
        }
        let ghost v1 = ids@.map_values(|s: String| s@);
        ids.push(id);
        assert(ids@.map_values(|s: String| s@) =~= v1.push(id@));
        self.ids = ids;
    }

    /// Forgets every entry.
    pub fn clear(&mut self)
        ensures
            final(self).view() == Seq::<Seq<char>>::empty(),
    {
        self.ids = Vec::new();
        assert(self.view() =~= Seq::<Seq<char>>::empty());
    }
}

/// The names among the first `i` of `keys`.
pub open spec fn first_keys(keys: Seq<Seq<char>>, i: int) -> Set<Seq<char>> {
    Set::new(|k: Seq<char>| exists|j: int| 0 <= j < i && #[trigger] keys[j] == k)
}

impl<F: Copy, C: Copy> SchemaState<F, C> {
    /// Gives every declared schema variable of `t` its reset value, or, when
    /// `reset` is false, its initial value where `t` has none yet.
    fn apply_specs(&self, t: &mut Table<XmlVariableValue<F, C>>, reset: bool)
        ensures
            values_of(final(t).view()) == if reset {
                values_of(old(t).view()).union_prefer_right(reset_values(self.view().var_specs))
            } else {
                initial_values(self.view().var_specs).union_prefer_right(values_of(old(t).view()))
            },
    {
        let ghost specs = self.view().var_specs;
        let ghost keys = self.var_specs.keys();
        let ghost t0 = values_of(t.view());
        let n = self.var_specs.len();
        let mut i: usize = 0;
        while i < n
            invariant
                n == keys.len(),
                keys == self.var_specs.keys(),
                specs == self.view().var_specs,
                i <= n,
                values_of(t.view()) == if reset {
                    t0.union_prefer_right(reset_values(specs).restrict(first_keys(keys, i as int)))
                } else {
                    initial_values(specs).restrict(first_keys(keys, i as int)).union_prefer_right(t0)
                },
            decreases n - i,
        {
            let (name, p) = self.var_specs.entry(i);
            let ghost before = values_of(t.view());
            let ghost k = name@;
            assert(specs.contains_key(k) && specs[k] == (p.0@, p.1@));
            let ghost tv = t.view();
            if reset {
                let v = p.1.duplicate();
                t.insert(name.as_str(), v);
                assert(values_of(t.view()) =~= before.insert(k, p.1@));
            } else {
                let v = p.0.duplicate();
                t.insert_if_absent(name.as_str(), v);
                proof {
                    if tv.contains_key(k) {
                        assert(values_of(t.view()) =~= before);
                    } else {
                        assert(values_of(t.view()) =~= before.insert(k, p.0@));
                    }
                }
            }
            proof {
                assert(keys[i as int] == k);
                let s0 = first_keys(keys, i as int);
                let s1 = first_keys(keys, i + 1);
                assert forall|x: Seq<char>| #[trigger] s1.contains(x) <==> (s0.contains(x) || x == k) by {
                    if s1.contains(x) {
                        let j = choose|j: int| 0 <= j < i + 1 && #[trigger] keys[j] == x;
                        if j < i {
                            assert(s0.contains(x));
                        }
                    }
                    if s0.contains(x) {
                        let j = choose|j: int| 0 <= j < i && #[trigger] keys[j] == x;
                        assert(keys[j] == x);
                    }
                    if x == k {
                        assert(keys[i as int] == x);
                    }
                }
                if reset {
                    assert(values_of(t.view()) =~= t0.union_prefer_right(reset_values(specs).restrict(s1)));
                } else {
                    let init = initial_values(specs);
                    assert(init.contains_key(k) && init[k] == p.0@);
                    assert(before.contains_key(k) == tv.contains_key(k));
                    assert(values_of(t.view()) =~= init.restrict(s1).union_prefer_right(t0));
                }
            }
            i = i + 1;
        }
        proof {
            self.var_specs.lemma_keys();
            let s = first_keys(keys, n as int);
            assert forall|x: Seq<char>| #[trigger] s.contains(x) <==> specs.contains_key(x) by {
                if s.contains(x) {
                    let j = choose|j: int| 0 <= j < n && #[trigger] keys[j] == x;
                    assert(keys.contains(x));
                }
                if specs.contains_key(x) {
                    assert(self.var_specs.view().contains_key(x));
                    assert(keys.contains(x));
                    let j = choose|j: int| 0 <= j < keys.len() && keys[j] == x;
                    assert(keys[j] == x);
                }
            }
            assert(reset_values(specs).restrict(s) =~= reset_values(specs));
            assert(initial_values(specs).restrict(s) =~= initial_values(specs));
        }
    }

    /// Fills in (or, with `reset`, resets) the schema variables of `schema_id`.
    fn prepare_values(&mut self, schema_id: &str, reset: bool)
        ensures
            final(self).view() == (SchemaStateView {
                var_values: old(self).view().var_values.insert(
                    schema_id@,
                    if reset {
                        old(self).view().values_in(schema_id@).union_prefer_right(reset_values(old(self).view().var_specs))
                    } else {
                        initial_values(old(self).view().var_specs).union_prefer_right(old(self).view().values_in(schema_id@))
                    },
                ),
                ..old(self).view()
            }),
    {
        let ghost v0 = self.view();
        let mut t = match self.var_values.remove(schema_id) {
            Some(t) => t,
            None => Table::new(),
        };
        assert(values_of(t.view()) =~= v0.values_in(schema_id@));
        self.apply_specs(&mut t, reset);
        self.var_values.insert(schema_id, t);
        proof {
            assert(self.view().var_values =~= v0.var_values.insert(schema_id@, values_of(t.view())));
        }
    }
}

/// The schema variables after `name` is given `v` in every schema of `ids`.
pub open spec fn with_in_all<F, C>(
    vals: Map<Seq<char>, Map<Seq<char>, XmlValueView<F, C>>>,
    ids: Set<Seq<char>>,
    name: Seq<char>,
    v: XmlValueView<F, C>,
) -> Map<Seq<char>, Map<Seq<char>, XmlValueView<F, C>>> {
    Map::new(
        |id: Seq<char>| vals.contains_key(id) || ids.contains(id),
        |id: Seq<char>|
            if ids.contains(id) {
                (if vals.contains_key(id) {
                    vals[id]
                } else {
                    Map::empty()
                }).insert(name, v)
            } else {
                vals[id]
            },
    )
}

/// What [`SchemaState::use_schema`] did.
#[derive(PartialEq, Eq, Structural, Clone, Copy, Debug)]
pub enum UseSchema {
    /// The schema was already the active one; nothing changed.
    AlreadyActive,
    /// The schema became the active one.
    Activated,
    /// No schema has that id; nothing changed.
    NotFound,
}

/// Why [`SchemaState::move_back_schema`] did not move.
#[derive(PartialEq, Eq, Structural, Clone, Copy, Debug)]
pub enum MoveBackError {
    /// The amount was zero or positive.
    NotNegative,
    /// The history is empty.
    NoHistory,
    /// The history holds fewer entries than the amount asks to go back.
    OutOfBounds,
}

impl<F: Copy, C: Copy> SchemaState<F, C> {
    /// Gives `name` the value `v` in the schema variables of every loaded schema.
    fn set_in_all(&mut self, name: &str, v: &XmlVariableValue<F, C>)
        ensures
            final(self).view() == (SchemaStateView {
                var_values: with_in_all(old(self).view().var_values, old(self).view().schemas.dom(), name@, v@),
                ..old(self).view()
            }),
    {
        let ghost v0 = self.view();
        let ghost keys = self.registry.schemas.keys();
        let n = self.registry.schemas.len();
        let mut i: usize = 0;
        assert(with_in_all(v0.var_values, first_keys(keys, 0), name@, v@) =~= v0.var_values);
        while i < n
            invariant
                n == keys.len(),
                keys == self.registry.schemas.keys(),
                i <= n,
                self.view() == (SchemaStateView {
                    var_values: with_in_all(v0.var_values, first_keys(keys, i as int), name@, v@),
                    ..v0
                }),
            decreases n - i,
        {
            let id = self.registry.schemas.entry(i).0.clone();
            let ghost k = id@;
            assert(keys[i as int] == k);
            let ghost before = self.view();
            let mut t = match self.var_values.remove(id.as_str()) {
                Some(t) => t,
                None => Table::new(),
            };
            assert(values_of(t.view()) =~= before.values_in(k));
            t.insert(name, v.duplicate());
            assert(values_of(t.view()) =~= before.values_in(k).insert(name@, v@));
            self.var_values.insert(id.as_str(), t);
            proof {
                let s0 = first_keys(keys, i as int);
                let s1 = first_keys(keys, i + 1);
                assert forall|x: Seq<char>| #[trigger] s1.contains(x) <==> (s0.contains(x) || x == k) by {
                    if s1.contains(x) {
                        let j = choose|j: int| 0 <= j < i + 1 && #[trigger] keys[j] == x;
                        if j < i {
                            assert(s0.contains(x));
                        }
                    }
                    if s0.contains(x) {
                        let j = choose|j: int| 0 <= j < i && #[trigger] keys[j] == x;
                        assert(keys[j] == x);
                    }
                }
                let inner_exp = (if v0.var_values.contains_key(k) {
                    v0.var_values[k]
                } else {
                    Map::empty()
                }).insert(name@, v@);
                assert(before.values_in(k).insert(name@, v@) =~= inner_exp);
                assert(self.view().var_values =~= before.var_values.insert(k, inner_exp));
                let w1 = with_in_all(v0.var_values, s1, name@, v@);
                assert forall|x: Seq<char>| #[trigger] w1.contains_key(x) implies w1[x] == before.var_values.insert(k, inner_exp)[x] by {
                    if x != k {
                        if s1.contains(x) {
                            assert(s0.contains(x));
                        }
                    }
                }
                assert(self.view().var_values =~= w1);
            }
            i = i + 1;
        }
        proof {
            self.registry.schemas.lemma_keys();
            let s = first_keys(keys, n as int);
            assert forall|x: Seq<char>| #[trigger] s.contains(x) <==> v0.schemas.dom().contains(x) by {
                if s.contains(x) {
                    let j = choose|j: int| 0 <= j < n && #[trigger] keys[j] == x;
                    assert(keys.contains(x));
                }
                if v0.schemas.dom().contains(x) {
                    assert(self.registry.schemas.view().contains_key(x));
                    assert(keys.contains(x));
                    let j = choose|j: int| 0 <= j < keys.len() && keys[j] == x;
                    assert(keys[j] == x);
                }
            }
            assert(s =~= v0.schemas.dom());
        }
    }

    /// Declares the schema variable `name`, which starts at `initial` in every
    /// schema and takes `reset` whenever a schema becomes active. Refused,
    /// with nothing changed, when the two values are of different kinds.
    pub fn define_schema_variable(
        &mut self,
        name: &str,
        initial: XmlVariableValue<F, C>,
        reset: XmlVariableValue<F, C>,
    ) -> (r: bool)
        ensures
            r == same_kind(initial@, reset@),
            final(self).view() == if r {
                old(self).view().declared(name@, initial@, reset@)
            } else {
                old(self).view()
            },
            final(self).view().history_loaded(),
            r && final(self).view().active() is Some ==> final(self).view().values_in(
                final(self).view().active()->0,
            ).contains_key(name@) && final(self).view().values_in(final(self).view().active()->0)[name@]
                == initial@,
    {
        proof {
            use_type_invariant(&self.registry);
            assert(self.view().history_loaded());
        }
        if !initial.same_kind(&reset) {
            return false;
        }
        let ghost v0 = self.view();
        let first = initial.duplicate();
        self.var_specs.insert(name, (initial, reset));
        assert(self.view().var_specs =~= v0.var_specs.insert(name@, (first@, reset@)));
        self.set_in_all(name, &first);
        true
    }

    /// Sets the schema variable `name` in the active schema. Refused, with
    /// nothing changed, when no schema is active, `name` is not declared, or
    /// `value` is not of the declared kind.
    pub fn set_schema_variable(&mut self, name: &str, value: XmlVariableValue<F, C>) -> (r: bool)
        ensures
            r == (old(self).view().active() is Some && old(self).view().var_specs.contains_key(name@)
                && same_kind(old(self).view().var_specs[name@].0, value@)),
            final(self).view() == if r {
                old(self).view().with_schema_var(name@, value@)
            } else {
                old(self).view()
            },
    {
        let active = match self.registry.history.last() {
            Some(a) => a,
            None => return false,
        };
        let ok = match self.var_specs.get(name) {
            Some(p) => p.0.same_kind(&value),
            None => false,
        };
        if !ok {
            return false;
        }
        let ghost v0 = self.view();
        let mut t = match self.var_values.remove(active.as_str()) {
            Some(t) => t,
            None => Table::new(),
        };
        assert(values_of(t.view()) =~= v0.values_in(active@));
        let ghost vv = value@;
        t.insert(name, value);
        assert(values_of(t.view()) =~= v0.values_in(active@).insert(name@, vv));
        self.var_values.insert(active.as_str(), t);
        assert(self.view().var_values =~= v0.var_values.insert(active@, v0.values_in(active@).insert(name@, vv)));
        true
    }

    /// The value of the schema variable `name` in the active schema.
    pub fn schema_variable(&self, name: &str) -> (r: Option<XmlVariableValue<F, C>>)
        ensures
            r is Some == (self.view().active() is Some && self.view().values_in(self.view().active()->0).contains_key(name@)),
            r matches Some(v) ==> v@ == self.view().values_in(self.view().active()->0)[name@],
    {
        let active = match self.registry.history.last() {
            Some(a) => a,
            None => return None,
        };
        match self.var_values.get(active.as_str()) {
            Some(t) => match t.get(name) {
                Some(v) => Some(v.duplicate()),
                None => None,
            },
            None => None,
        }
    }
}

impl<F: Copy, C: Copy> SchemaState<F, C> {
    /// Forgets every schema, the history, the global variables (with the
    /// record of which were declared) and the schema variable values; the
    /// declarations of schema variables stay (the first step of
    /// `load_schemas`).
    pub fn clear_schemas(&mut self)
        ensures
            final(self).view() == (SchemaStateView {
                schemas: Map::empty(),
                history: Seq::empty(),
                globals: ScopeView::empty(),
                declared_globals: Set::empty(),
                var_values: Map::empty(),
                ..old(self).view()
            }),
    {
        self.registry = Registry { schemas: Table::new(), history: SchemaHistory::new() };
        self.globals = GlobalVarStore::new();
        self.var_values = Table::new();
        assert(self.view().schemas =~= Map::empty());
        assert(self.view().var_values =~= Map::empty());
    }

    /// Adds a loaded schema under its normalized id and gives it the initial
    /// value of every schema variable it lacks. Refused, with nothing changed,
    /// when a schema with that id is already loaded.
    pub fn register_schema(&mut self, schema_id: &str, variables: VarStore<F, C>) -> (r: bool)
        ensures
            (r, final(self).view()) == old(self).view().registered(schema_id@, variables.view()),
    {
        let id = normalize_schema_id(schema_id);
        if self.registry.schemas.contains(id.as_str()) {
            return false;
        }
        let ghost v0 = self.view();
        let ghost vars = variables.view();
        let mut reg = Registry { schemas: Table::new(), history: SchemaHistory::new() };
        std::mem::swap(&mut reg, &mut self.registry);
        proof {
            use_type_invariant(&reg);
        }
        let Registry { mut schemas, history } = reg;
        schemas.insert(id.as_str(), variables);
        self.registry = Registry { schemas, history };
        assert(self.view().schemas =~= v0.schemas.insert(id@, vars));
        self.prepare_values(id.as_str(), false);
        true
    }

    /// Makes the schema `schema_id` (normalized) the active one: its schema
    /// variables take their reset values and it is added to the history.
    pub fn use_schema(&mut self, schema_id: &str) -> (r: UseSchema)
        ensures
            (r, final(self).view()) == old(self).view().used(schema_id@),
    {
        let id = normalize_schema_id(schema_id);
        match self.registry.history.last() {
            Some(a) => {
                if a == id {
                    return UseSchema::AlreadyActive;
                }
            },
            None => {},
        }
        if !self.registry.schemas.contains(id.as_str()) {
            return UseSchema::NotFound;
        }
        assert(self.view().schemas.contains_key(id@));
        self.prepare_values(id.as_str(), true);
        assert(self.view().schemas.contains_key(id@));
        assert(self.registry.schemas.view().contains_key(id@));
        let mut reg = Registry { schemas: Table::new(), history: SchemaHistory::new() };
        std::mem::swap(&mut reg, &mut self.registry);
        proof {
            use_type_invariant(&reg);
        }
        let Registry { schemas, mut history } = reg;
        let ghost h0 = history.view();
        history.push(id);
        proof {
            let h1 = history.view();
            assert forall|k: int| 0 <= k < h1.len() implies schemas.view().contains_key(#[trigger] h1[k]) by {
                if k == h1.len() - 1 {
                    assert(h1[k] == id@);
                } else {
                    if h0.len() >= MAX_HISTORY {
                        assert(h1[k] == h0[k + 1]);
                    } else {
                        assert(h1[k] == h0[k]);
                    }
                }
            }
        }
        self.registry = Registry { schemas, history };
        UseSchema::Activated
    }

    /// Goes back `-amount` entries in the history and uses that schema.
    pub fn move_back_schema(&mut self, amount: i32) -> (r: Result<UseSchema, MoveBackError>)
        ensures
            ({
                let v0 = old(self).view();
                let target = v0.history.len() - 1 + amount;
                &&& r is Err == (amount >= 0 || v0.history.len() == 0 || target < 0)
                &&& r == Err::<UseSchema, MoveBackError>(MoveBackError::NotNegative) <==> amount >= 0
                &&& r == Err::<UseSchema, MoveBackError>(MoveBackError::NoHistory) <==> (amount < 0 && v0.history.len() == 0)
                &&& r == Err::<UseSchema, MoveBackError>(MoveBackError::OutOfBounds) <==> (amount < 0 && v0.history.len() > 0 && target < 0)
                &&& r is Err ==> final(self).view() == v0
                &&& r is Ok ==> (r->Ok_0, final(self).view()) == v0.used(v0.history[target])
            }),
    {
        if amount >= 0 {
            return Err(MoveBackError::NotNegative);
        }
        let len = self.registry.history.len();
        if len == 0 {
            return Err(MoveBackError::NoHistory);
        }
        let back: usize = if amount == i32::MIN {
            2147483648usize
        } else {
            (0 - amount) as usize
        };
        if back > len - 1 {
            return Err(MoveBackError::OutOfBounds);
        }
        let target = self.registry.history.get(len - 1 - back);
        Ok(self.use_schema(target.as_str()))
    }
}

/// What an optional value holds.
pub open spec fn view_opt<F, C>(o: Option<XmlVariableValue<F, C>>) -> Option<XmlValueView<F, C>> {
    match o {
        Some(v) => Some(v@),
        None => None,
    }
}

impl<F: Copy, C: Copy> SchemaState<F, C> {
    /// The global variables.
    pub fn globals(&self) -> (r: &GlobalVarStore<F, C>)
        ensures
            r.view() == self.view().globals,
            r.declared() == self.view().declared_globals,
    {
        &self.globals
    }

    /// The global variables, to be filled by a parser.
    pub fn globals_mut(&mut self) -> (r: &mut GlobalVarStore<F, C>)
        ensures
            r.view() == old(self).view().globals,
            r.declared() == old(self).view().declared_globals,
            final(self).view() == (SchemaStateView {
                globals: final(r).view(),
                declared_globals: final(r).declared(),
                ..old(self).view()
            }),
    {
        &mut self.globals
    }

    /// The variables of the loaded schema `schema_id`.
    pub fn schema_variables(&self, schema_id: &str) -> (r: Option<&VarStore<F, C>>)
        ensures
            r is Some == self.view().schemas.contains_key(schema_id@),
            r matches Some(vs) ==> vs.view() == self.view().schemas[schema_id@],
    {
        self.registry.schemas.get(schema_id)
    }

    /// The current value of XML variable `name`: the active schema's own
    /// variable when it has one, else the global one.
    pub fn xml_variable(&self, name: &str) -> (r: Option<XmlVariableValue<F, C>>)
        ensures
            view_opt(r) == self.view().variable(name@),
    {
        if let Some(a) = self.registry.history.last() {
            if let Some(vs) = self.registry.schemas.get(a.as_str()) {
                if let Some(v) = vs.get_value(name) {
                    return Some(v);
                }
            }
        }
        self.globals.get_value(name)
    }

    /// The value of XML variable `name` as seen from the loaded schema `schema_id`.
    pub fn xml_variable_in_schema(&self, schema_id: &str, name: &str) -> (r: Option<XmlVariableValue<F, C>>)
        ensures
            view_opt(r) == self.view().variable_in(schema_id@, name@),
    {
        if let Some(vs) = self.registry.schemas.get(schema_id) {
            if let Some(v) = vs.get_value(name) {
                return Some(v);
            }
        }
        self.globals.get_value(name)
    }

    /// Writes `value` to the variable `name` of schema `schema_id`, if that
    /// schema has one and allows it.
    fn set_local(&mut self, schema_id: &str, name: &str, value: XmlVariableValue<F, C>) -> (r: bool)
        requires
            old(self).view().schemas.contains_key(schema_id@),
        ensures
            r == old(self).view().schemas[schema_id@].may_set(name@, value@),
            final(self).view() == if r {
                SchemaStateView {
                    schemas: old(self).view().schemas.insert(
                        schema_id@,
                        old(self).view().schemas[schema_id@].with_value(name@, value@),
                    ),
                    ..old(self).view()
                }
            } else {
                old(self).view()
            },
    {
        let ghost v0 = self.view();
        let mut reg = Registry { schemas: Table::new(), history: SchemaHistory::new() };
        std::mem::swap(&mut reg, &mut self.registry);
        proof {
            use_type_invariant(&reg);
        }
        let Registry { mut schemas, history } = reg;
        let mut vs = schemas.remove(schema_id).unwrap();
        let r = vs.set_value(name, value);
        let ghost after = vs.view();
        schemas.insert(schema_id, vs);
        proof {
            assert forall|k: int| 0 <= k < history.view().len() implies schemas.view().contains_key(
                #[trigger] history.view()[k],
            ) by {}
        }
        self.registry = Registry { schemas, history };
        proof {
            assert(self.view().schemas =~= v0.schemas.insert(schema_id@, after));
            if !r {
                assert(self.view().schemas =~= v0.schemas);
            }
        }
        r
    }

    /// Sets a mutable XML variable; constants are refused. The active
    /// schema's own variable is preferred over a global one.
    pub fn set_xml_variable(&mut self, name: &str, value: XmlVariableValue<F, C>) -> (r: bool)
        ensures
            ({
                let v0 = old(self).view();
                if v0.locals() is Some && v0.locals()->0.has_value(name@) {
                    let a = v0.active()->0;
                    &&& r == v0.schemas[a].may_set(name@, value@)
                    &&& final(self).view() == if r {
                        SchemaStateView { schemas: v0.schemas.insert(a, v0.schemas[a].with_value(name@, value@)), ..v0 }
                    } else {
                        v0
                    }
                } else if v0.globals.has_value(name@) {
                    &&& r == v0.globals.may_set(name@, value@)
                    &&& final(self).view() == if r {
                        SchemaStateView { globals: v0.globals.with_value(name@, value@), ..v0 }
                    } else {
                        v0
                    }
                } else {
                    !r && final(self).view() == v0
                }
            }),
    {
        if let Some(a) = self.registry.history.last() {
            let local = match self.registry.schemas.get(a.as_str()) {
                Some(vs) => vs.has_value(name),
                None => false,
            };
            if local {
                return self.set_local(a.as_str(), name, value);
            }
        }
        if self.globals.has_value(name) {
            return self.globals.set_value(name, value);
        }
        false
    }

    /// Sets a mutable XML variable of schema `schema_id`, or the global one
    /// when that schema does not take the write.
    pub fn set_xml_variable_in_schema(&mut self, schema_id: &str, name: &str, value: XmlVariableValue<F, C>) -> (r: bool)
        ensures
            ({
                let v0 = old(self).view();
                let id = schema_id@;
                if v0.schemas.contains_key(id) && v0.schemas[id].has_value(name@) && v0.schemas[id].may_set(name@, value@) {
                    &&& r
                    &&& final(self).view() == SchemaStateView {
                        schemas: v0.schemas.insert(id, v0.schemas[id].with_value(name@, value@)),
                        ..v0
                    }
                } else if v0.globals.has_value(name@) {
                    &&& r == v0.globals.may_set(name@, value@)
                    &&& final(self).view() == if r {
                        SchemaStateView { globals: v0.globals.with_value(name@, value@), ..v0 }
                    } else {
                        v0
                    }
                } else {
                    !r && final(self).view() == v0
                }
            }),
    {
        let local = match self.registry.schemas.get(schema_id) {
            Some(vs) => vs.has_value(name),
            None => false,
        };
        if local {
            let copy = value.duplicate();
            if self.set_local(schema_id, name, copy) {
                return true;
            }
        }
        if self.globals.has_value(name) {
            return self.globals.set_value(name, value);
        }
        false
    }

    /// Sets a mutable f32 XML variable (see [`Self::set_xml_variable`]).
    pub fn set_xml_f32_variable(&mut self, name: &str, value: F) -> (r: bool)
        ensures
            r == old(self).view().variable_set(name@, XmlValueView::NumberF32(value)),
            final(self).view() == old(self).view().after_set(name@, XmlValueView::NumberF32(value)),
    {
        self.set_xml_variable(name, XmlVariableValue::NumberF32(value))
    }

    /// Sets a mutable i32 XML variable (see [`Self::set_xml_variable`]).
    pub fn set_xml_i32_variable(&mut self, name: &str, value: i32) -> (r: bool)
        ensures
            r == old(self).view().variable_set(name@, XmlValueView::NumberI32(value)),
            final(self).view() == old(self).view().after_set(name@, XmlValueView::NumberI32(value)),
    {
        self.set_xml_variable(name, XmlVariableValue::NumberI32(value))
    }

    /// Sets a mutable usize XML variable (see [`Self::set_xml_variable`]).
    pub fn set_xml_usize_variable(&mut self, name: &str, value: usize) -> (r: bool)
        ensures
            r == old(self).view().variable_set(name@, XmlValueView::NumberUsize(value)),
            final(self).view() == old(self).view().after_set(name@, XmlValueView::NumberUsize(value)),
    {
        self.set_xml_variable(name, XmlVariableValue::NumberUsize(value))
    }

    /// Sets a mutable u32 XML variable (see [`Self::set_xml_variable`]).
    pub fn set_xml_u32_variable(&mut self, name: &str, value: u32) -> (r: bool)
        ensures
            r == old(self).view().variable_set(name@, XmlValueView::NumberU32(value)),
            final(self).view() == old(self).view().after_set(name@, XmlValueView::NumberU32(value)),
    {
        self.set_xml_variable(name, XmlVariableValue::NumberU32(value))
    }

    /// Sets a mutable color XML variable (see [`Self::set_xml_variable`]).
    pub fn set_xml_color_variable(&mut self, name: &str, value: C) -> (r: bool)
        ensures
            r == old(self).view().variable_set(name@, XmlValueView::Color(value)),
            final(self).view() == old(self).view().after_set(name@, XmlValueView::Color(value)),
    {
        self.set_xml_variable(name, XmlVariableValue::Color(value))
    }

    /// Sets a mutable bool XML variable (see [`Self::set_xml_variable`]).
    pub fn set_xml_bool_variable(&mut self, name: &str, value: bool) -> (r: bool)
        ensures
            r == old(self).view().variable_set(name@, XmlValueView::Bool(value)),
            final(self).view() == old(self).view().after_set(name@, XmlValueView::Bool(value)),
    {
        self.set_xml_variable(name, XmlVariableValue::Bool(value))
    }

    /// Sets a mutable string XML variable (see [`Self::set_xml_variable`]).
    pub fn set_xml_string_variable(&mut self, name: &str, value: &str) -> (r: bool)
        ensures
            r == old(self).view().variable_set(name@, XmlValueView::String(value@)),
            final(self).view() == old(self).view().after_set(name@, XmlValueView::String(value@)),
    {
        self.set_xml_variable(name, XmlVariableValue::String(String::from_str(value)))
    }
}

impl<F, C> SchemaStateView<F, C> {
    /// Whether [`SchemaState::set_xml_variable`] takes a write of `v` to `name`.
    pub open spec fn variable_set(self, name: Seq<char>, v: XmlValueView<F, C>) -> bool {
        if self.locals() is Some && self.locals()->0.has_value(name) {
            self.schemas[self.active()->0].may_set(name, v)
        } else {
            self.globals.has_value(name) && self.globals.may_set(name, v)
        }
    }

    /// The state after [`SchemaState::set_xml_variable`] writes `v` to `name`.
    pub open spec fn after_set(self, name: Seq<char>, v: XmlValueView<F, C>) -> Self {
        if !self.variable_set(name, v) {
            self
        } else if self.locals() is Some && self.locals()->0.has_value(name) {
            let a = self.active()->0;
            SchemaStateView { schemas: self.schemas.insert(a, self.schemas[a].with_value(name, v)), ..self }
        } else {
            SchemaStateView { globals: self.globals.with_value(name, v), ..self }
        }
    }
}

/// The history never holds more than [`MAX_HISTORY`] ids, and the id just
/// used is always its newest entry.
pub proof fn law_history_bounded(h: Seq<Seq<char>>, id: Seq<char>)
    requires
        h.len() <= MAX_HISTORY,
    ensures
        push_capped(h, id).len() <= MAX_HISTORY,
        push_capped(h, id).last() == id,
        h.len() < MAX_HISTORY ==> push_capped(h, id) == h.push(id),
{
}

/// Registering a schema under an id that is not loaded adds exactly that
/// one schema; registering a loaded id changes nothing. So the loaded ids stay
/// distinct and each registration adds at most one.
pub proof fn law_register_adds_one<F, C>(v: SchemaStateView<F, C>, schema_id: Seq<char>, vars: ScopeView<F, C>)
    requires
        v.schemas.dom().finite(),
    ensures
        ({
            let (ok, w) = v.registered(schema_id, vars);
            &&& ok == !v.schemas.contains_key(normalized(schema_id))
            &&& ok ==> w.schemas.dom() == v.schemas.dom().insert(normalized(schema_id))
                && w.schemas.dom().len() == v.schemas.dom().len() + 1
                && w.schemas[normalized(schema_id)] == vars
            &&& !ok ==> w == v
        }),
{
    let id = normalized(schema_id);
    if !v.schemas.contains_key(id) {
        assert(v.schemas.insert(id, vars).dom() =~= v.schemas.dom().insert(id));
    }
}

/// Going back in the history acts exactly as using the history entry it
/// lands on: the entry is used again and added to the history, which is not
/// cut back.
pub proof fn law_move_back_is_use<F, C>(v: SchemaStateView<F, C>, amount: int)
    requires
        amount < 0,
        0 <= v.history.len() - 1 + amount,
    ensures
        v.used(v.history[v.history.len() - 1 + amount]).0 == UseSchema::Activated ==> v.used(
            v.history[v.history.len() - 1 + amount],
        ).1.history == push_capped(v.history, normalized(v.history[v.history.len() - 1 + amount])),
{
}

/// A schema that becomes active is the active one afterwards, and each
/// declared schema variable holds its reset value there.
pub proof fn law_switch_resets<F, C>(v: SchemaStateView<F, C>, id: Seq<char>, name: Seq<char>)
    requires
        v.var_specs.contains_key(name),
    ensures
        v.activated(id).active() == Some(id),
        v.activated(id).values_in(id).contains_key(name),
        v.activated(id).values_in(id)[name] == v.var_specs[name].1,
{
}

/// A newly declared schema variable holds its initial value in every loaded
/// schema.
pub proof fn law_declared_starts_initial<F, C>(
    v: SchemaStateView<F, C>,
    name: Seq<char>,
    initial: XmlValueView<F, C>,
    reset: XmlValueView<F, C>,
    id: Seq<char>,
)
    requires
        v.schemas.contains_key(id),
    ensures
        v.declared(name, initial, reset).values_in(id).contains_key(name),
        v.declared(name, initial, reset).values_in(id)[name] == initial,
{
}

/// What is written to a schema variable of the active schema is what is
/// read back from it.
pub proof fn law_schema_var_read_back<F, C>(v: SchemaStateView<F, C>, name: Seq<char>, x: XmlValueView<F, C>)
    requires
        v.active() is Some,
    ensures
        v.with_schema_var(name, x).active() == v.active(),
        v.with_schema_var(name, x).values_in(v.active()->0).contains_key(name),
        v.with_schema_var(name, x).values_in(v.active()->0)[name] == x,
{
}

/// A normalized schema id holds no backslash, and normalizing it again changes nothing.
pub proof fn law_normalized_ids(id: Seq<char>)
    ensures
        !normalized(id).contains('\\'),
        normalized(normalized(id)) == normalized(id),
{
    assert(normalized(normalized(id)) =~= normalized(id));
}

/// A file that the schema folder loads: its name has the extension `xml`
/// (see [`last_dot`]), in any ASCII case.
pub open spec fn is_schema_file_name(name: Seq<char>) -> bool {
    let d = last_dot(name);
    d > 0 && name.skip(d + 1).map_values(|c: char| ascii_lower(c)) == seq!['x', 'm', 'l']
}

/// Whether the file `name` is a schema file (see [`is_schema_file_name`]).
pub fn is_schema_file(name: &str) -> (r: bool)
    ensures
        r == is_schema_file_name(name@),
{
    let cs = chars_of(name);
    let n = cs.len();
    match extension_dot(cs.as_slice()) {
        Some(d) => {
            proof {
                lemma_last_dot(cs@);
            }
            let ext = lowered_range(cs.as_slice(), d + 1, n, true);
            assert(cs@.subrange(d + 1, n as int) =~= name@.skip(d + 1));
            assert(ext@ =~= name@.skip(d + 1).map_values(|c: char| ascii_lower(c)));
            chars_eq(ext.as_slice(), &['x', 'm', 'l'])
        },
        None => false,
    }
}

} // verus!
