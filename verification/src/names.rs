//! Sets of names held in vectors of strings.
use vstd::prelude::*;

verus! {

/// The set of the names (as character sequences) held in `v`.
pub open spec fn name_set(v: Seq<String>) -> Set<Seq<char>> {
    Set::new(|x: Seq<char>| exists|i: int| 0 <= i < v.len() && #[trigger] v[i]@ == x)
}

/// Whether `v` holds the name `s`.
pub fn contains_name(v: &Vec<String>, s: &String) -> (r: bool)
    ensures
        r == name_set(v@).contains(s@),
{
    let mut i: usize = 0;
    while i < v.len()
        invariant
            i <= v@.len(),
            forall|k: int| 0 <= k < i ==> #[trigger] v@[k]@ != s@,
        decreases v@.len() - i,
    {
        if v[i] == *s {
            assert(name_set(v@).contains(s@)) by {
                assert(v@[i as int]@ == s@);
            }
            return true;
        }
        i = i + 1;
    }
    false
}

/// The names of `a` that `b` does not hold.
pub fn names_without(a: &Vec<String>, b: &Vec<String>) -> (r: Vec<String>)
    ensures
        name_set(r@) == name_set(a@).difference(name_set(b@)),
{
    let mut r: Vec<String> = Vec::new();
    let mut i: usize = 0;
    while i < a.len()
        invariant
            i <= a@.len(),
            name_set(r@) == name_set(a@.take(i as int)).difference(name_set(b@)),
        decreases a@.len() - i,
    {
        let ghost old_r = r@;
        if !contains_name(b, &a[i]) {
            r.push(a[i].clone());
        }
        proof {
            let t1 = a@.take(i + 1);
            let t0 = a@.take(i as int);
            assert(name_set(t1) =~= name_set(t0).insert(a@[i as int]@)) by {
                assert forall|x: Seq<char>| name_set(t1).contains(x) implies name_set(t0).insert(a@[i as int]@).contains(x) by {
                    let k = choose|k: int| 0 <= k < t1.len() && #[trigger] t1[k]@ == x;
                    if k < i {
                        assert(t0[k] == t1[k]);
                    }
                }
                assert forall|x: Seq<char>| name_set(t0).insert(a@[i as int]@).contains(x) implies name_set(t1).contains(x) by {
                    if x == a@[i as int]@ {
                        assert(t1[i as int]@ == x);
                    } else {
                        let k = choose|k: int| 0 <= k < t0.len() && #[trigger] t0[k]@ == x;
                        assert(t1[k] == t0[k]);
                    }
                }
            }
            if r@.len() > old_r.len() {
                assert(name_set(r@) =~= name_set(old_r).insert(a@[i as int]@)) by {
                    assert forall|x: Seq<char>| name_set(r@).contains(x) implies name_set(old_r).insert(a@[i as int]@).contains(x) by {
                        let k = choose|k: int| 0 <= k < r@.len() && #[trigger] r@[k]@ == x;
                        if k < old_r.len() {
                            assert(old_r[k] == r@[k]);
                        }
                    }
                    assert forall|x: Seq<char>| name_set(old_r).insert(a@[i as int]@).contains(x) implies name_set(r@).contains(x) by {
                        if x == a@[i as int]@ {
                            assert(r@[old_r.len() as int]@ == x);
                        } else {
                            let k = choose|k: int| 0 <= k < old_r.len() && #[trigger] old_r[k]@ == x;
                            assert(r@[k] == old_r[k]);
                        }
                    }
                }
            }
            assert(name_set(r@) =~= name_set(t1).difference(name_set(b@)));
        }
        i = i + 1;
    }
    assert(a@.take(a@.len() as int) =~= a@);
    r
}

} // verus!
