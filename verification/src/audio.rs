//! The sound categories of the audio manager (`"sfx"`, `"music"`, ...):
//! which category each loaded sound belongs to, and the sounds of each
//! category. Volumes and playback are left to the caller.
use vstd::prelude::*;
use crate::names::{contains_name, name_set};
use crate::table::Table;
use crate::text::{ascii_lower, chars_eq, chars_of, extension_dot, last_dot, lemma_last_dot, lowered_range, push_range};

verus! {

/// No name occurs twice in `v`.
pub open spec fn distinct_names(v: Seq<String>) -> bool {
    forall|i: int, j: int| 0 <= i < j < v.len() ==> #[trigger] v[i]@ != #[trigger] v[j]@
}

/// `v` with `s` added unless it already holds it.
fn with_name(v: Vec<String>, s: &str) -> (r: Vec<String>)
    requires
        distinct_names(v@),
    ensures
        distinct_names(r@),
        name_set(r@) == name_set(v@).insert(s@),
{
    let key = String::from_str(s);
    if contains_name(&v, &key) {
        assert(name_set(v@).insert(s@) =~= name_set(v@));
        return v;
    }
    let ghost v0 = v@;
    let mut r = v;
    r.push(key);
    proof {
        assert forall|i: int, j: int| 0 <= i < j < r@.len() implies #[trigger] r@[i]@ != #[trigger] r@[j]@ by {
            if j == v0.len() {
                assert(r@[i] == v0[i]);
                assert(!name_set(v0).contains(s@));
                if r@[i]@ == s@ {
                    assert(name_set(v0).contains(v0[i]@));
                }
            } else {
                assert(r@[i] == v0[i] && r@[j] == v0[j]);
            }
        }
        assert forall|x: Seq<char>| name_set(r@).contains(x) <==> name_set(v0).insert(s@).contains(x) by {
            if name_set(r@).contains(x) {
                let k = choose|k: int| 0 <= k < r@.len() && #[trigger] r@[k]@ == x;
                if k < v0.len() {
                    assert(v0[k]@ == x);
                }
            }
            if name_set(v0).contains(x) {
                let k = choose|k: int| 0 <= k < v0.len() && #[trigger] v0[k]@ == x;
                assert(r@[k]@ == x);
            }
            if x == s@ {
                assert(r@[v0.len() as int]@ == x);
            }
        }
        assert(name_set(r@) =~= name_set(v0).insert(s@));
    }
    r
}

/// `v` without `s`, in the same order.
fn without_name(v: &Vec<String>, s: &str) -> (r: Vec<String>)
    requires
        distinct_names(v@),
    ensures
        distinct_names(r@),
        name_set(r@) == name_set(v@).remove(s@),
{
    let key = String::from_str(s);
    let mut r: Vec<String> = Vec::new();
    let ghost idx: Seq<int> = Seq::empty();
    let mut i: usize = 0;
    while i < v.len()
        invariant
            key@ == s@,
            i <= v@.len(),
            distinct_names(v@),
            idx.len() == r@.len(),
            forall|k: int| 0 <= k < idx.len() ==> 0 <= #[trigger] idx[k] < i && v@[idx[k]]@ == r@[k]@,
            forall|k: int, l: int| 0 <= k < l < idx.len() ==> #[trigger] idx[k] < #[trigger] idx[l],
            forall|k: int| 0 <= k < r@.len() ==> #[trigger] r@[k]@ != s@,
            forall|x: Seq<char>| name_set(r@).contains(x) <==> (x != s@ && exists|k: int| 0 <= k < i && #[trigger] v@[k]@ == x),
        decreases v@.len() - i,
    {
        if v[i] != key {
            let ghost r0 = r@;
            r.push(v[i].clone());
            proof {
                idx = idx.push(i as int);
                assert forall|x: Seq<char>| name_set(r@).contains(x) <==> (x != s@ && exists|k: int| 0 <= k < i + 1 && #[trigger] v@[k]@ == x) by {
                    if name_set(r@).contains(x) {
                        let k = choose|k: int| 0 <= k < r@.len() && #[trigger] r@[k]@ == x;
                        if k < r0.len() {
                            assert(r0[k]@ == x);
                            assert(name_set(r0).contains(x));
                        } else {
                            assert(v@[i as int]@ == x);
                        }
                    }
                    if x != s@ && exists|k: int| 0 <= k < i + 1 && #[trigger] v@[k]@ == x {
                        let k = choose|k: int| 0 <= k < i + 1 && #[trigger] v@[k]@ == x;
                        if k < i {
                            assert(name_set(r0).contains(x));
                            let m = choose|m: int| 0 <= m < r0.len() && #[trigger] r0[m]@ == x;
                            assert(r@[m]@ == x);
                        } else {
                            assert(r@[r0.len() as int]@ == x);
                        }
                    }
                }
            }
        } else {
            proof {
                assert forall|x: Seq<char>| name_set(r@).contains(x) <==> (x != s@ && exists|k: int| 0 <= k < i + 1 && #[trigger] v@[k]@ == x) by {
                    if x != s@ && exists|k: int| 0 <= k < i + 1 && #[trigger] v@[k]@ == x {
                        let k = choose|k: int| 0 <= k < i + 1 && #[trigger] v@[k]@ == x;
                        assert(k < i);
                    }
                }
            }
        }
        i = i + 1;
    }
    proof {
        assert forall|p: int, q: int| 0 <= p < q < r@.len() implies #[trigger] r@[p]@ != #[trigger] r@[q]@ by {
            assert(idx[p] < idx[q]);
            assert(v@[idx[p]]@ == r@[p]@ && v@[idx[q]]@ == r@[q]@);
        }
        assert forall|x: Seq<char>| name_set(r@).contains(x) <==> name_set(v@).remove(s@).contains(x) by {
            if name_set(v@).remove(s@).contains(x) {
                let k = choose|k: int| 0 <= k < v@.len() && #[trigger] v@[k]@ == x;
                assert(v@[k]@ == x);
            }
        }
        assert(name_set(r@) =~= name_set(v@).remove(s@));
    }
    r
}

/// The sounds of each category, each sound listed once.
pub struct MemberLists {
    lists: Table<Vec<String>>,
}

impl MemberLists {
    #[verifier::type_invariant]
    closed spec fn lists_distinct(self) -> bool {
        forall|c: Seq<char>| #[trigger] self.lists.view().contains_key(c) ==> distinct_names(self.lists.view()[c]@)
    }

    /// The sounds of each category.
    pub closed spec fn view(&self) -> Map<Seq<char>, Set<Seq<char>>> {
        self.lists.view().map_values(|v: Vec<String>| name_set(v@))
    }

    /// No category.
    pub fn new() -> (r: Self)
        ensures
            r.view() == Map::<Seq<char>, Set<Seq<char>>>::empty(),
    {
        let r = MemberLists { lists: Table::new() };
        assert(r.view() =~= Map::<Seq<char>, Set<Seq<char>>>::empty());
        r
    }

    /// Sets the sounds of `c` to `v`.
    fn put(&mut self, c: &str, v: Vec<String>)
        requires
            distinct_names(v@),
        ensures
            final(self).view() == old(self).view().insert(c@, name_set(v@)),
    {
        proof {
            use_type_invariant(&*self);
        }
        let ghost v0 = self.view();
        let ghost nv = v@;
        let mut lists = Table::new();
        std::mem::swap(&mut lists, &mut self.lists);
        let ghost l0 = lists.view();
        lists.insert(c, v);
        assert forall|k: Seq<char>| #[trigger] lists.view().contains_key(k) implies distinct_names(lists.view()[k]@) by {
            if k != c@ {
                assert(l0.contains_key(k));
            }
        }
        self.lists = lists;
        assert(self.view() =~= v0.insert(c@, name_set(nv)));
    }

    /// The sounds of `c`, or none, taken out of the lists.
    fn take(&mut self, c: &str) -> (r: Vec<String>)
        ensures
            distinct_names(r@),
            name_set(r@) == if old(self).view().contains_key(c@) {
                old(self).view()[c@]
            } else {
                Set::<Seq<char>>::empty()
            },
            final(self).view() == old(self).view().remove(c@),
    {
        proof {
            use_type_invariant(&*self);
        }
        let ghost v0 = self.view();
        let mut lists = Table::new();
        std::mem::swap(&mut lists, &mut self.lists);
        let ghost l0 = lists.view();
        let r = match lists.remove(c) {
            Some(v) => v,
            None => Vec::new(),
        };
        assert forall|k: Seq<char>| #[trigger] lists.view().contains_key(k) implies distinct_names(lists.view()[k]@) by {
            assert(l0.contains_key(k));
        }
        self.lists = lists;
        assert(self.view() =~= v0.remove(c@));
        assert(name_set(Seq::<String>::empty()) =~= Set::<Seq<char>>::empty());
        r
    }

    /// Whether `c` is a category.
    pub fn contains(&self, c: &str) -> (r: bool)
        ensures
            r == self.view().contains_key(c@),
    {
        self.lists.contains(c)
    }

    /// The sounds of `c`, each once; none where `c` is no category.
    pub fn names_of(&self, c: &str) -> (r: Vec<String>)
        ensures
            distinct_names(r@),
            name_set(r@) == if self.view().contains_key(c@) {
                self.view()[c@]
            } else {
                Set::<Seq<char>>::empty()
            },
    {
        proof {
            use_type_invariant(self);
        }
        match self.lists.get(c) {
            Some(v) => {
                let mut r: Vec<String> = Vec::new();
                let mut i: usize = 0;
                while i < v.len()
                    invariant
                        i <= v@.len(),
                        r@.len() == i,
                        forall|k: int| 0 <= k < i ==> #[trigger] r@[k]@ == v@[k]@,
                    decreases v@.len() - i,
                {
                    r.push(v[i].clone());
                    i = i + 1;
                }
                proof {
                    assert(self.lists.view().contains_key(c@));
                    assert forall|p: int, q: int| 0 <= p < q < r@.len() implies #[trigger] r@[p]@ != #[trigger] r@[q]@ by {
                        assert(r@[p]@ == v@[p]@ && r@[q]@ == v@[q]@);
                    }
                    assert forall|x: Seq<char>| name_set(r@).contains(x) <==> name_set(v@).contains(x) by {
                        if name_set(r@).contains(x) {
                            let k = choose|k: int| 0 <= k < r@.len() && #[trigger] r@[k]@ == x;
                            assert(v@[k]@ == x);
                        }
                        if name_set(v@).contains(x) {
                            let k = choose|k: int| 0 <= k < v@.len() && #[trigger] v@[k]@ == x;
                            assert(r@[k]@ == x);
                        }
                    }
                    assert(name_set(r@) =~= name_set(v@));
                }
                r
            },
            None => {
                let r: Vec<String> = Vec::new();
                assert(name_set(r@) =~= Set::<Seq<char>>::empty());
                r
            },
        }
    }

    /// The categories, each once.
    pub fn categories(&self) -> (r: Vec<String>)
        ensures
            distinct_names(r@),
            name_set(r@) == self.view().dom(),
    {
        let r = self.lists.names();
        proof {
            self.lists.lemma_keys();
            assert forall|x: Seq<char>| name_set(r@).contains(x) <==> self.view().dom().contains(x) by {
                if name_set(r@).contains(x) {
                    let k = choose|k: int| 0 <= k < r@.len() && #[trigger] r@[k]@ == x;
                    assert(self.lists.keys()[k] == x);
                    assert(self.lists.keys().contains(x));
                }
                if self.view().dom().contains(x) {
                    assert(self.lists.view().contains_key(x));
                    assert(self.lists.keys().contains(x));
                    let k = choose|k: int| 0 <= k < self.lists.keys().len() && self.lists.keys()[k] == x;
                    assert(r@[k]@ == x);
                }
            }
            assert(name_set(r@) =~= self.view().dom());
        }
        r
    }
}

/// What a [`SoundCategories`] holds.
pub ghost struct CategoriesView {
    /// The category of each sound that has one.
    pub category_of: Map<Seq<char>, Seq<char>>,
    /// The sounds of each category.
    pub members: Map<Seq<char>, Set<Seq<char>>>,
}

impl CategoriesView {
    /// The sounds of `c`; none where `c` is no category.
    pub open spec fn members_of(self, c: Seq<char>) -> Set<Seq<char>> {
        if self.members.contains_key(c) {
            self.members[c]
        } else {
            Set::empty()
        }
    }

    /// Each sound is listed in the category it belongs to, and only there.
    pub open spec fn consistent(self) -> bool {
        forall|s: Seq<char>, c: Seq<char>|
            #[trigger] self.members_of(c).contains(s) <==> (self.category_of.contains_key(s) && self.category_of[s] == c)
    }

    /// The state after `c` becomes a category, if it was none.
    pub open spec fn created(self, c: Seq<char>) -> Self {
        if self.members.contains_key(c) {
            self
        } else {
            CategoriesView { members: self.members.insert(c, Set::empty()), ..self }
        }
    }

    /// The state after sound `s` is put in category `c`.
    pub open spec fn attached(self, s: Seq<char>, c: Seq<char>) -> Self {
        CategoriesView {
            category_of: self.category_of.insert(s, c),
            members: self.members.insert(c, self.members_of(c).insert(s)),
        }
    }

    /// The state after `s` leaves the list of the category it belongs to.
    pub open spec fn unlisted(self, s: Seq<char>) -> Self {
        if self.category_of.contains_key(s) && self.members.contains_key(self.category_of[s]) {
            CategoriesView {
                members: self.members.insert(self.category_of[s], self.members[self.category_of[s]].remove(s)),
                ..self
            }
        } else {
            self
        }
    }

    /// The state after `s` moves to category `c`.
    pub open spec fn assigned(self, s: Seq<char>, c: Seq<char>) -> Self {
        self.unlisted(s).attached(s, c)
    }

    /// The state after `s` leaves its category.
    pub open spec fn removed(self, s: Seq<char>) -> Self {
        CategoriesView { category_of: self.category_of.remove(s), ..self.unlisted(s) }
    }
}

/// The category of each sound, and the sounds of each category.
pub struct SoundCategories {
    sound_categories: Table<String>,
    members: MemberLists,
}

impl SoundCategories {
    /// What the categories hold.
    pub closed spec fn view(&self) -> CategoriesView {
        CategoriesView {
            category_of: self.sound_categories.view().map_values(|c: String| c@),
            members: self.members.view(),
        }
    }

    /// No category and no sound.
    pub fn new() -> (r: Self)
        ensures
            r.view().category_of == Map::<Seq<char>, Seq<char>>::empty(),
            r.view().members == Map::<Seq<char>, Set<Seq<char>>>::empty(),
    {
        let r = SoundCategories { sound_categories: Table::new(), members: MemberLists::new() };
        assert(r.view().category_of =~= Map::<Seq<char>, Seq<char>>::empty());
        r
    }

    /// Makes `category` a category, if it is none yet.
    pub fn create_category(&mut self, category: &str)
        ensures
            final(self).view() == old(self).view().created(category@),
    {
        if !self.members.contains(category) {
            let ghost v0 = self.view();
            self.members.put(category, Vec::new());
            assert(name_set(Seq::<String>::empty()) =~= Set::<Seq<char>>::empty());
            assert(self.view().members =~= v0.members.insert(category@, Set::empty()));
        }
    }

    /// Records `sound_id` as belonging to `category` and adds it to that
    /// category's list.
    fn list_in(&mut self, sound_id: &str, category: &str)
        ensures
            final(self).view() == old(self).view().attached(sound_id@, category@),
    {
        let ghost v0 = self.view();
        self.sound_categories.insert(sound_id, String::from_str(category));
        let list = self.members.take(category);
        let list = with_name(list, sound_id);
        self.members.put(category, list);
        proof {
            assert(self.view().category_of =~= v0.category_of.insert(sound_id@, category@));
            assert(self.view().members =~= v0.members.insert(category@, v0.members_of(category@).insert(sound_id@)));
        }
    }

    /// Puts `sound_id` in `category`; a sound is in at most one category, so
    /// it leaves the list of the category it had before.
    pub fn attach_to_category(&mut self, sound_id: &str, category: &str)
        ensures
            final(self).view() == old(self).view().assigned(sound_id@, category@),
    {
        self.unlist(sound_id);
        self.list_in(sound_id, category);
    }

    /// Takes `sound_id` out of the list of the category it belongs to.
    fn unlist(&mut self, sound_id: &str)
        ensures
            final(self).view() == old(self).view().unlisted(sound_id@),
    {
        let ghost v0 = self.view();
        let old_cat = match self.sound_categories.get(sound_id) {
            Some(c) => c.clone(),
            None => {
                return;
            },
        };
        if self.members.contains(old_cat.as_str()) {
            let list = self.members.take(old_cat.as_str());
            let list = without_name(&list, sound_id);
            self.members.put(old_cat.as_str(), list);
            assert(self.view().members =~= v0.members.insert(old_cat@, v0.members[old_cat@].remove(sound_id@)));
        }
    }

    /// Moves `sound_id` to `category`, out of the category it had.
    pub fn assign_to_category(&mut self, sound_id: &str, category: &str)
        ensures
            final(self).view() == old(self).view().assigned(sound_id@, category@),
    {
        self.attach_to_category(sound_id, category);
    }

    /// Takes `sound_id` out of its category.
    pub fn remove_from_category(&mut self, sound_id: &str)
        ensures
            final(self).view() == old(self).view().removed(sound_id@),
    {
        let ghost v0 = self.view();
        self.unlist(sound_id);
        self.sound_categories.remove(sound_id);
        assert(self.view().category_of =~= v0.category_of.remove(sound_id@));
    }

    /// The sounds of `category`, each once.
    pub fn get_sounds_in_category(&self, category: &str) -> (r: Vec<String>)
        ensures
            distinct_names(r@),
            name_set(r@) == self.view().members_of(category@),
    {
        self.members.names_of(category)
    }

    /// The category of `sound_id`, if it has one.
    pub fn get_category_of(&self, sound_id: &str) -> (r: Option<&str>)
        ensures
            r is Some == self.view().category_of.contains_key(sound_id@),
            r matches Some(c) ==> c@ == self.view().category_of[sound_id@],
    {
        match self.sound_categories.get(sound_id) {
            Some(c) => Some(c.as_str()),
            None => None,
        }
    }

    /// All categories, each once.
    pub fn list_categories(&self) -> (r: Vec<String>)
        ensures
            distinct_names(r@),
            name_set(r@) == self.view().members.dom(),
    {
        self.members.categories()
    }
}

/// A sound listed in two categories is one: where each sound is listed in its
/// own category only, no sound belongs to two categories.
pub proof fn law_one_category(v: CategoriesView, s: Seq<char>, c1: Seq<char>, c2: Seq<char>)
    requires
        v.consistent(),
        v.members_of(c1).contains(s),
        v.members_of(c2).contains(s),
    ensures
        c1 == c2,
{
}

/// Putting a sound in a category (`attach_to_category` or
/// `assign_to_category`) keeps each sound listed in its own category only,
/// and the sound is then listed in that category and no other.
pub proof fn law_assign_consistent(v: CategoriesView, s: Seq<char>, c: Seq<char>)
    requires
        v.consistent(),
    ensures
        v.assigned(s, c).consistent(),
        v.assigned(s, c).category_of[s] == c,
        forall|d: Seq<char>| #[trigger] v.assigned(s, c).members_of(d).contains(s) <==> d == c,
{
    let w = v.assigned(s, c);
    let u = v.unlisted(s);
    assert forall|x: Seq<char>, d: Seq<char>| #[trigger] u.members_of(d).contains(x) <==> (x != s && v.category_of.contains_key(x) && v.category_of[x] == d) by {
        assert(v.members_of(d).contains(x) <==> (v.category_of.contains_key(x) && v.category_of[x] == d));
    }
    assert forall|x: Seq<char>, d: Seq<char>| #[trigger] w.members_of(d).contains(x) <==> (w.category_of.contains_key(x) && w.category_of[x] == d) by {
        assert(u.members_of(d).contains(x) <==> (x != s && v.category_of.contains_key(x) && v.category_of[x] == d));
        assert(u.members_of(c).contains(x) <==> (x != s && v.category_of.contains_key(x) && v.category_of[x] == c));
    }
}

/// Taking a sound out of its category keeps each sound listed in its own
/// category only, and the sound is then listed nowhere.
pub proof fn law_remove_consistent(v: CategoriesView, s: Seq<char>)
    requires
        v.consistent(),
    ensures
        v.removed(s).consistent(),
        !v.removed(s).category_of.contains_key(s),
        forall|d: Seq<char>| !(#[trigger] v.removed(s).members_of(d).contains(s)),
{
    let w = v.removed(s);
    assert forall|x: Seq<char>, d: Seq<char>| #[trigger] w.members_of(d).contains(x) <==> (w.category_of.contains_key(x) && w.category_of[x] == d) by {
        assert(v.members_of(d).contains(x) <==> (v.category_of.contains_key(x) && v.category_of[x] == d));
    }
}

/// Creating a category keeps each sound listed in its own category only.
pub proof fn law_create_consistent(v: CategoriesView, c: Seq<char>)
    requires
        v.consistent(),
    ensures
        v.created(c).consistent(),
{
    let w = v.created(c);
    assert forall|x: Seq<char>, d: Seq<char>| #[trigger] w.members_of(d).contains(x) <==> (w.category_of.contains_key(x) && w.category_of[x] == d) by {
        assert(v.members_of(d).contains(x) <==> (v.category_of.contains_key(x) && v.category_of[x] == d));
    }
}

/// The extensions of the files that load as sounds.
pub open spec fn is_sound_ext(e: Seq<char>) -> bool {
    e == "ogg"@ || e == "wav"@ || e == "mp3"@ || e == "flac"@
}

/// Where the file `name` loads as a sound, the sound's id: the name before
/// its extension. The extension is what follows the last `.`, where that dot
/// is not the name's first character (std's rule for `Path::extension`); it
/// is compared without regard to ASCII case.
pub open spec fn sound_id_of(name: Seq<char>) -> Option<Seq<char>> {
    let d = last_dot(name);
    if d > 0 && is_sound_ext(name.skip(d + 1).map_values(|c: char| ascii_lower(c))) {
        Some(name.take(d))
    } else {
        None
    }
}

/// The id of the sound that the file `name` holds, if it is a sound file
/// (see [`sound_id_of`]).
pub fn sound_id_for_file(name: &str) -> (r: Option<String>)
    ensures
        match r {
            Some(id) => sound_id_of(name@) == Some(id@),
            None => sound_id_of(name@) is None,
        },
{
    let cs = chars_of(name);
    let n = cs.len();
    let d = match extension_dot(cs.as_slice()) {
        Some(d) => d,
        None => return None,
    };
    proof {
        lemma_last_dot(name@);
    }
    let ext = lowered_range(cs.as_slice(), d + 1, n, true);
    proof {
        reveal_strlit("ogg");
        reveal_strlit("wav");
        reveal_strlit("mp3");
        reveal_strlit("flac");
        assert("ogg"@ =~= seq!['o', 'g', 'g']);
        assert("wav"@ =~= seq!['w', 'a', 'v']);
        assert("mp3"@ =~= seq!['m', 'p', '3']);
        assert("flac"@ =~= seq!['f', 'l', 'a', 'c']);
        assert(cs@.subrange(d + 1, n as int) =~= name@.skip(d + 1));
        assert(ext@ =~= name@.skip(d + 1).map_values(|c: char| ascii_lower(c)));
    }
    let e = ext.as_slice();
    if chars_eq(e, &['o', 'g', 'g']) || chars_eq(e, &['w', 'a', 'v']) || chars_eq(e, &['m', 'p', '3'])
        || chars_eq(e, &['f', 'l', 'a', 'c']) {
        let mut id = String::new();
        push_range(&mut id, cs.as_slice(), 0, d);
        assert(id@ =~= name@.take(d as int));
        Some(id)
    } else {
        None
    }
}

/// In a name that ends in `.` and a dot-free extension, the last dot is the
/// one before the extension.
proof fn lemma_last_dot_before_ext(s: Seq<char>, e: Seq<char>)
    requires
        forall|k: int| 0 <= k < e.len() ==> e[k] != '.',
    ensures
        last_dot(s + seq!['.'] + e) == s.len(),
    decreases e.len(),
{
    let t = s + seq!['.'] + e;
    if e.len() == 0 {
        assert(t.last() == '.');
    } else {
        assert(t.last() == e.last());
        assert(t.drop_last() =~= s + seq!['.'] + e.drop_last());
        lemma_last_dot_before_ext(s, e.drop_last());
    }
}

/// The id of a sound file whose lower-case extension `e` is a sound
/// extension, and its stem.
proof fn lemma_sound_file(s: Seq<char>, e: Seq<char>)
    requires
        s.len() > 0,
        forall|k: int| 0 <= k < e.len() ==> ('a' <= #[trigger] e[k] <= 'z' || '0' <= e[k] <= '9'),
        is_sound_ext(e),
    ensures
        sound_id_of(s + seq!['.'] + e) == Some(s),
{
    let t = s + seq!['.'] + e;
    lemma_last_dot_before_ext(s, e);
    assert(t.skip(s.len() + 1int) =~= e);
    assert(e.map_values(|c: char| ascii_lower(c)) =~= e);
    assert(t.take(s.len() as int) =~= s);
}

/// Files with the extensions `ogg`, `wav`, `mp3` and `flac` load as sounds,
/// each under the name before its extension: `click.wav` is the sound
/// `click`, whatever the stem (dots in it too).
pub proof fn law_sound_extensions(s: Seq<char>)
    requires
        s.len() > 0,
    ensures
        sound_id_of(s + seq!['.'] + seq!['o', 'g', 'g']) == Some(s),
        sound_id_of(s + seq!['.'] + seq!['w', 'a', 'v']) == Some(s),
        sound_id_of(s + seq!['.'] + seq!['m', 'p', '3']) == Some(s),
        sound_id_of(s + seq!['.'] + seq!['f', 'l', 'a', 'c']) == Some(s),
{
    reveal_strlit("ogg");
    reveal_strlit("wav");
    reveal_strlit("mp3");
    reveal_strlit("flac");
    let ogg = seq!['o', 'g', 'g'];
    let wav = seq!['w', 'a', 'v'];
    let mp3 = seq!['m', 'p', '3'];
    let flac = seq!['f', 'l', 'a', 'c'];
    assert(ogg =~= "ogg"@);
    assert(wav =~= "wav"@);
    assert(mp3 =~= "mp3"@);
    assert(flac =~= "flac"@);
    lemma_sound_file(s, ogg);
    lemma_sound_file(s, wav);
    lemma_sound_file(s, mp3);
    lemma_sound_file(s, flac);
}

} // verus!
