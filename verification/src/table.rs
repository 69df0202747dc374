//! A map from names to values, kept as a vector of entries with distinct names.
use vstd::prelude::*;

verus! {

/// A map from names to values.
pub struct Table<V> {
    entries: Vec<(String, V)>,
}

impl<V> Table<V> {
    #[verifier::type_invariant]
    closed spec fn distinct(self) -> bool {
        forall|i: int, j: int|
            0 <= i < j < self.entries@.len() ==> #[trigger] self.entries@[i].0@ != #[trigger] self.entries@[j].0@
    }

    closed spec fn has(self, k: Seq<char>) -> bool {
        exists|i: int| 0 <= i < self.entries@.len() && #[trigger] self.entries@[i].0@ == k
    }

    closed spec fn at(self, k: Seq<char>) -> V {
        let i = choose|i: int| 0 <= i < self.entries@.len() && #[trigger] self.entries@[i].0@ == k;
        self.entries@[i].1
    }

    /// The map that the table holds.
    pub closed spec fn view(self) -> Map<Seq<char>, V> {
        Map::new(|k: Seq<char>| self.has(k), |k: Seq<char>| self.at(k))
    }

    proof fn lemma_entry(self, i: int)
        requires
            self.distinct(),
            0 <= i < self.entries@.len(),
        ensures
            self.view().contains_key(self.entries@[i].0@),
            self.view()[self.entries@[i].0@] == self.entries@[i].1,
    {
        let k = self.entries@[i].0@;
        assert(self.has(k));
        let j = choose|j: int| 0 <= j < self.entries@.len() && #[trigger] self.entries@[j].0@ == k;
        if j != i {
            if j < i {
                assert(self.entries@[j].0@ != self.entries@[i].0@);
            } else {
                assert(self.entries@[i].0@ != self.entries@[j].0@);
            }
        }
    }

    /// An empty table.
    pub fn new() -> (r: Self)
        ensures
            r.view() == Map::<Seq<char>, V>::empty(),
    {
        let r = Table { entries: Vec::new() };
        assert(r.view() =~= Map::<Seq<char>, V>::empty());
        r
    }

    fn index_of(&self, name: &str) -> (r: Option<usize>)
        ensures
            r matches Some(i) ==> i < self.entries@.len() && self.entries@[i as int].0@ == name@,
            r is None ==> forall|i: int| 0 <= i < self.entries@.len() ==> #[trigger] self.entries@[i].0@ != name@,
    {
        let key = String::from_str(name);
        let mut i: usize = 0;
        while i < self.entries.len()
            invariant
                key@ == name@,
                i <= self.entries@.len(),
                forall|k: int| 0 <= k < i ==> #[trigger] self.entries@[k].0@ != name@,
            decreases self.entries@.len() - i,
        {
            if self.entries[i].0 == key {
                return Some(i);
            }
            i = i + 1;
        }
        None
    }

    /// Whether `name` has a value.
    pub fn contains(&self, name: &str) -> (r: bool)
        ensures
            r == self.view().contains_key(name@),
    {
        proof {
            use_type_invariant(self);
        }
        match self.index_of(name) {
            Some(i) => {
                proof {
                    self.lemma_entry(i as int);
                }
                true
            },
            None => false,
        }
    }

    /// The value of `name`, if it has one.
    pub fn get(&self, name: &str) -> (r: Option<&V>)
        ensures
            r is Some == self.view().contains_key(name@),
            r matches Some(v) ==> *v == self.view()[name@],
    {
        proof {
            use_type_invariant(self);
        }
        match self.index_of(name) {
            Some(i) => {
                proof {
                    self.lemma_entry(i as int);
                }
                Some(&self.entries[i].1)
            },
            None => None,
        }
    }

    /// Sets the value of `name`.
    pub fn insert(&mut self, name: &str, v: V)
        ensures
            final(self).view() == old(self).view().insert(name@, v),
    {
        proof {
            use_type_invariant(&*self);
        }
        let ghost before = *self;
        let idx = self.index_of(name);
        let mut entries: Vec<(String, V)> = Vec::new();
        std::mem::swap(&mut entries, &mut self.entries);
        let ghost old_e = entries@;
        let key = String::from_str(name);
        match idx {
            Some(i) => {
                entries.set(i, (key, v));
            },
            None => {
                entries.push((key, v));
            },
        }
        let ghost new_e = entries@;
        proof {
            assert forall|p: int, q: int| 0 <= p < q < new_e.len() implies #[trigger] new_e[p].0@ != #[trigger] new_e[q].0@ by {
                if p < old_e.len() && q < old_e.len() {
                    if idx is Some {
                        let i = idx->0 as int;
                        if p == i {
                            assert(old_e[q].0@ != old_e[p].0@);
                            assert(new_e[q] == old_e[q]);
                        } else if q == i {
                            assert(new_e[p] == old_e[p]);
                        } else {
                            assert(new_e[p] == old_e[p] && new_e[q] == old_e[q]);
                        }
                    } else {
                        assert(new_e[p] == old_e[p] && new_e[q] == old_e[q]);
                    }
                } else {
                    assert(new_e[p] == old_e[p]);
                }
            }
        }
        self.entries = entries;
        proof {
            let m = old(self).view().insert(name@, v);
            let t = match idx {
                Some(i) => i as int,
                None => old_e.len() as int,
            };
            self.lemma_entry(t);
            assert forall|k: Seq<char>| #[trigger] self.view().contains_key(k) <==> m.contains_key(k) by {
                if self.view().contains_key(k) && k != name@ {
                    let j = choose|j: int| 0 <= j < new_e.len() && #[trigger] new_e[j].0@ == k;
                    assert(j != t);
                    assert(old_e[j] == new_e[j]);
                    before.lemma_entry(j);
                }
                if m.contains_key(k) && k != name@ {
                    let j = choose|j: int| 0 <= j < old_e.len() && #[trigger] old_e[j].0@ == k;
                    assert(new_e[j] == old_e[j]);
                    self.lemma_entry(j);
                }
            }
            assert forall|k: Seq<char>| #[trigger] self.view().contains_key(k) implies self.view()[k] == m[k] by {
                if k != name@ {
                    let j = choose|j: int| 0 <= j < new_e.len() && #[trigger] new_e[j].0@ == k;
                    assert(old_e[j] == new_e[j]);
                    before.lemma_entry(j);
                    self.lemma_entry(j);
                }
            }
            assert(self.view() =~= m);
        }
    }

    /// Sets the value of `name` unless it already has one (`entry().or_insert`).
    pub fn insert_if_absent(&mut self, name: &str, v: V)
        ensures
            final(self).view() == if old(self).view().contains_key(name@) {
                old(self).view()
            } else {
                old(self).view().insert(name@, v)
            },
    {
        if !self.contains(name) {
            self.insert(name, v);
        }
    }


    /// The names of the table, in storage order.
    pub closed spec fn keys(self) -> Seq<Seq<char>> {
        self.entries@.map_values(|e: (String, V)| e.0@)
    }

    /// A name is in the domain exactly when it is among the names.
    pub proof fn lemma_keys(self)
        ensures
            forall|k: Seq<char>| #[trigger] self.view().contains_key(k) <==> self.keys().contains(k),
    {
        assert forall|k: Seq<char>| #[trigger] self.view().contains_key(k) <==> self.keys().contains(k) by {
            if self.view().contains_key(k) {
                let i = choose|i: int| 0 <= i < self.entries@.len() && #[trigger] self.entries@[i].0@ == k;
                assert(self.keys()[i] == k);
            }
            if self.keys().contains(k) {
                let i = choose|i: int| 0 <= i < self.keys().len() && self.keys()[i] == k;
                assert(self.entries@[i].0@ == k);
            }
        }
    }

    /// The names of the table, each once.
    pub fn names(&self) -> (r: Vec<String>)
        ensures
            r@.len() == self.keys().len(),
            forall|i: int| 0 <= i < r@.len() ==> #[trigger] r@[i]@ == self.keys()[i],
            forall|i: int, j: int| 0 <= i < j < r@.len() ==> #[trigger] r@[i]@ != #[trigger] r@[j]@,
    {
        proof {
            use_type_invariant(self);
        }
        let mut r: Vec<String> = Vec::new();
        let mut i: usize = 0;
        while i < self.entries.len()
            invariant
                i <= self.entries@.len(),
                r@.len() == i,
                forall|k: int| 0 <= k < i ==> #[trigger] r@[k]@ == self.entries@[k].0@,
                forall|p: int, q: int|
                    0 <= p < q < self.entries@.len() ==> #[trigger] self.entries@[p].0@ != #[trigger] self.entries@[q].0@,
            decreases self.entries@.len() - i,
        {
            r.push(self.entries[i].0.clone());
            i = i + 1;
        }
        proof {
            assert forall|p: int, q: int| 0 <= p < q < r@.len() implies #[trigger] r@[p]@ != #[trigger] r@[q]@ by {
                assert(r@[p]@ == self.entries@[p].0@ && r@[q]@ == self.entries@[q].0@);
            }
        }
        r
    }

    /// Number of entries.
    pub fn len(&self) -> (r: usize)
        ensures
            r == self.keys().len(),
    {
        self.entries.len()
    }

    /// The `i`-th entry in storage order.
    pub fn entry(&self, i: usize) -> (r: (&String, &V))
        requires
            i < self.keys().len(),
        ensures
            r.0@ == self.keys()[i as int],
            self.view().contains_key(r.0@),
            *r.1 == self.view()[r.0@],
    {
        proof {
            use_type_invariant(self);
            self.lemma_entry(i as int);
        }
        (&self.entries[i].0, &self.entries[i].1)
    }

    /// Removes `name`, returning its value.
    pub fn remove(&mut self, name: &str) -> (r: Option<V>)
        ensures
            r is Some == old(self).view().contains_key(name@),
            r matches Some(v) ==> v == old(self).view()[name@],
            final(self).view() == old(self).view().remove(name@),
    {
        proof {
            use_type_invariant(&*self);
        }
        let ghost before = *self;
        let idx = self.index_of(name);
        match idx {
            None => {
                proof {
                    assert(self.view() =~= old(self).view().remove(name@));
                }
                None
            },
            Some(i) => {
                proof {
                    before.lemma_entry(i as int);
                }
                let mut entries: Vec<(String, V)> = Vec::new();
                std::mem::swap(&mut entries, &mut self.entries);
                let ghost old_e = entries@;
                let (_, v) = entries.remove(i);
                let ghost new_e = entries@;
                proof {
                    assert forall|p: int, q: int| 0 <= p < q < new_e.len() implies #[trigger] new_e[p].0@ != #[trigger] new_e[q].0@ by {
                        let p2 = if p < i { p } else { p + 1 };
                        let q2 = if q < i { q } else { q + 1 };
                        assert(new_e[p] == old_e[p2] && new_e[q] == old_e[q2]);
                    }
                }
                self.entries = entries;
                proof {
                    let m = before.view().remove(name@);
                    assert forall|k: Seq<char>| #[trigger] self.view().contains_key(k) <==> m.contains_key(k) by {
                        if self.view().contains_key(k) {
                            let j = choose|j: int| 0 <= j < new_e.len() && #[trigger] new_e[j].0@ == k;
                            let j2 = if j < i { j } else { j + 1 };
                            assert(new_e[j] == old_e[j2]);
                            before.lemma_entry(j2);
                            assert(j2 != i);
                        }
                        if m.contains_key(k) {
                            let j = choose|j: int| 0 <= j < old_e.len() && #[trigger] old_e[j].0@ == k;
                            assert(j != i);
                            let j2 = if j < i { j } else { j - 1 };
                            assert(new_e[j2] == old_e[j]);
                            assert(new_e[j2].0@ == k);
                        }
                    }
                    assert forall|k: Seq<char>| #[trigger] self.view().contains_key(k) implies self.view()[k] == m[k] by {
                        let j = choose|j: int| 0 <= j < new_e.len() && #[trigger] new_e[j].0@ == k;
                        let j2 = if j < i { j } else { j + 1 };
                        assert(new_e[j] == old_e[j2]);
                        before.lemma_entry(j2);
                        self.lemma_entry(j);
                    }
                    assert(self.view() =~= m);
                }
                Some(v)
            },
        }
    }

    /// Takes all entries of `other` into this table; where both have a name,
    /// the value of `other` wins (`HashMap::extend`).
    pub fn absorb(&mut self, other: Table<V>)
        ensures
            final(self).view() == old(self).view().union_prefer_right(other.view()),
    {
        proof {
            use_type_invariant(&other);
        }
        let ghost ov = other.view();
        let Table { entries: mut rest } = other;
        let ghost all = rest@;
        let mut n = rest.len();
        while n > 0
            invariant
                n <= all.len(),
                n == rest@.len(),
                rest@ == all.take(n as int),
                forall|i: int, j: int| 0 <= i < j < all.len() ==> #[trigger] all[i].0@ != #[trigger] all[j].0@,
                self.view() == old(self).view().union_prefer_right(
                    Map::new(
                        |k: Seq<char>| exists|i: int| n <= i < all.len() && #[trigger] all[i].0@ == k,
                        |k: Seq<char>| ov[k],
                    ),
                ),
                forall|i: int| 0 <= i < all.len() ==> ov.contains_key(#[trigger] all[i].0@) && ov[all[i].0@] == all[i].1,
            decreases n,
        {
            let ghost pre = rest@;
            let (k, v) = rest.pop().unwrap();
            n = n - 1;
            assert(pre.last() == all[n as int]);
            let ghost before = self.view();
            self.insert(k.as_str(), v);
            proof {
                assert(rest@ =~= all.take(n as int));
                let m_old = Map::new(
                    |k2: Seq<char>| exists|i: int| n + 1 <= i < all.len() && #[trigger] all[i].0@ == k2,
                    |k2: Seq<char>| ov[k2],
                );
                let m_new = Map::new(
                    |k2: Seq<char>| exists|i: int| n <= i < all.len() && #[trigger] all[i].0@ == k2,
                    |k2: Seq<char>| ov[k2],
                );
                assert(all[n as int].0@ == k@ && all[n as int].1 == v);
                assert forall|k2: Seq<char>| #[trigger] m_new.contains_key(k2) <==> (m_old.contains_key(k2) || k2 == k@) by {
                    if m_new.contains_key(k2) {
                        let i = choose|i: int| n <= i < all.len() && #[trigger] all[i].0@ == k2;
                        if i > n {
                            assert(m_old.contains_key(k2));
                        }
                    }
                    if k2 == k@ {
                        assert(all[n as int].0@ == k2);
                    }
                    if m_old.contains_key(k2) {
                        let i = choose|i: int| n + 1 <= i < all.len() && #[trigger] all[i].0@ == k2;
                        assert(all[i].0@ == k2);
                    }
                }
                assert(self.view() =~= old(self).view().union_prefer_right(m_new));
            }
        }
        proof {
            let m0 = Map::new(
                |k: Seq<char>| exists|i: int| 0 <= i < all.len() && #[trigger] all[i].0@ == k,
                |k: Seq<char>| ov[k],
            );
            assert forall|k: Seq<char>| #[trigger] m0.contains_key(k) <==> ov.contains_key(k) by {
                if ov.contains_key(k) {
                    let i = choose|i: int| 0 <= i < all.len() && #[trigger] all[i].0@ == k;
                    assert(all[i].0@ == k);
                }
            }
            assert(m0 =~= ov);
        }
    }
}

} // verus!
