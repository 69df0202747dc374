//! Finding UI components by id or class, and collecting the sources of their
//! images and animations. The searches run over an outline of the component
//! tree (each component's id, class list, sources and children); a search
//! answers with the path of child indices that leads to a component.
use vstd::prelude::*;
use crate::ui::{class_matches, spec_class_matches};

verus! {

/// What the searches read of a component: its id, its classes, the source of
/// its image (empty unless it is a texture), the source of its frames (empty
/// unless it is an animated texture), and its children.
pub struct Outline {
    pub id: String,
    pub class_name: String,
    pub texture: String,
    pub animation: String,
    pub children: Vec<Outline>,
}

/// The path to the first component, in document order (a component before
/// its children, the children before the later siblings), from the `i`-th
/// of `nodes` on, whose id is `id`.
pub open spec fn id_path_from(nodes: Seq<Outline>, id: Seq<char>, i: int) -> Option<Seq<int>>
    decreases nodes, nodes.len() - i,
{
    if i < 0 || i >= nodes.len() {
        None
    } else if nodes[i].id@ == id {
        Some(seq![i])
    } else {
        proof {
            assert(decreases_to!(nodes => nodes[i]));
            assert(decreases_to!(nodes[i] => nodes[i].children));
            assert(decreases_to!(nodes[i].children => nodes[i].children@));
        }
        match id_path_from(nodes[i].children@, id, 0) {
            Some(p) => Some(seq![i] + p),
            None => id_path_from(nodes, id, i + 1),
        }
    }
}

/// The path to the first component, in document order, from the `i`-th of
/// `nodes` on, that has `q` among its classes.
pub open spec fn class_path_from(nodes: Seq<Outline>, q: Seq<char>, i: int) -> Option<Seq<int>>
    decreases nodes, nodes.len() - i,
{
    if i < 0 || i >= nodes.len() {
        None
    } else if spec_class_matches(nodes[i].class_name@, q) {
        Some(seq![i])
    } else {
        proof {
            assert(decreases_to!(nodes => nodes[i]));
            assert(decreases_to!(nodes[i] => nodes[i].children));
            assert(decreases_to!(nodes[i].children => nodes[i].children@));
        }
        match class_path_from(nodes[i].children@, q, 0) {
            Some(p) => Some(seq![i] + p),
            None => class_path_from(nodes, q, i + 1),
        }
    }
}

/// Each path of `ps` with `i` in front.
pub open spec fn prefixed(i: int, ps: Seq<Seq<int>>) -> Seq<Seq<int>> {
    ps.map_values(|p: Seq<int>| seq![i] + p)
}

/// The paths to all components, in document order, from the `i`-th of
/// `nodes` on, that have `q` among their classes.
pub open spec fn class_paths_from(nodes: Seq<Outline>, q: Seq<char>, i: int) -> Seq<Seq<int>>
    decreases nodes, nodes.len() - i,
{
    if i < 0 || i >= nodes.len() {
        Seq::empty()
    } else {
        proof {
            assert(decreases_to!(nodes => nodes[i]));
            assert(decreases_to!(nodes[i] => nodes[i].children));
            assert(decreases_to!(nodes[i].children => nodes[i].children@));
        }
        (if spec_class_matches(nodes[i].class_name@, q) {
            seq![seq![i]]
        } else {
            Seq::<Seq<int>>::empty()
        }) + prefixed(i, class_paths_from(nodes[i].children@, q, 0)) + class_paths_from(nodes, q, i + 1)
    }
}

/// The component that path `p` leads to from `nodes`, if it leads anywhere.
pub open spec fn node_at(nodes: Seq<Outline>, p: Seq<int>) -> Option<Outline>
    decreases p.len(),
{
    if p.len() == 0 || p[0] < 0 || p[0] >= nodes.len() {
        None
    } else if p.len() == 1 {
        Some(nodes[p[0]])
    } else {
        node_at(nodes[p[0]].children@, p.drop_first())
    }
}

proof fn lemma_node_at_cons(nodes: Seq<Outline>, i: int, p: Seq<int>)
    requires
        0 <= i < nodes.len(),
        p.len() > 0,
    ensures
        node_at(nodes, seq![i] + p) == node_at(nodes[i].children@, p),
{
    assert((seq![i] + p).drop_first() =~= p);
}

proof fn lemma_id_path_leads(nodes: Seq<Outline>, id: Seq<char>, i: int)
    requires
        id_path_from(nodes, id, i) is Some,
    ensures
        id_path_from(nodes, id, i).unwrap().len() > 0,
        node_at(nodes, id_path_from(nodes, id, i).unwrap()) is Some,
        node_at(nodes, id_path_from(nodes, id, i).unwrap()).unwrap().id@ == id,
    decreases nodes, nodes.len() - i,
{
    if nodes[i].id@ != id {
        assert(decreases_to!(nodes => nodes[i]));
        assert(decreases_to!(nodes[i] => nodes[i].children));
        assert(decreases_to!(nodes[i].children => nodes[i].children@));
        match id_path_from(nodes[i].children@, id, 0) {
            Some(p) => {
                lemma_id_path_leads(nodes[i].children@, id, 0);
                lemma_node_at_cons(nodes, i, p);
            },
            None => {
                lemma_id_path_leads(nodes, id, i + 1);
            },
        }
    }
}

proof fn lemma_class_path_leads(nodes: Seq<Outline>, q: Seq<char>, i: int)
    requires
        class_path_from(nodes, q, i) is Some,
    ensures
        class_path_from(nodes, q, i).unwrap().len() > 0,
        node_at(nodes, class_path_from(nodes, q, i).unwrap()) is Some,
        spec_class_matches(node_at(nodes, class_path_from(nodes, q, i).unwrap()).unwrap().class_name@, q),
    decreases nodes, nodes.len() - i,
{
    if !spec_class_matches(nodes[i].class_name@, q) {
        assert(decreases_to!(nodes => nodes[i]));
        assert(decreases_to!(nodes[i] => nodes[i].children));
        assert(decreases_to!(nodes[i].children => nodes[i].children@));
        match class_path_from(nodes[i].children@, q, 0) {
            Some(p) => {
                lemma_class_path_leads(nodes[i].children@, q, 0);
                lemma_node_at_cons(nodes, i, p);
            },
            None => {
                lemma_class_path_leads(nodes, q, i + 1);
            },
        }
    }
}

/// Whatever path a search by id gives back leads to a component with that id.
pub proof fn law_id_path_leads_to_id(nodes: Seq<Outline>, id: Seq<char>)
    requires
        id_path_from(nodes, id, 0) is Some,
    ensures
        node_at(nodes, id_path_from(nodes, id, 0).unwrap()) is Some,
        node_at(nodes, id_path_from(nodes, id, 0).unwrap()).unwrap().id@ == id,
{
    lemma_id_path_leads(nodes, id, 0);
}

/// Whatever path a search by class gives back leads to a component of that class.
pub proof fn law_class_path_leads_to_class(nodes: Seq<Outline>, q: Seq<char>)
    requires
        class_path_from(nodes, q, 0) is Some,
    ensures
        node_at(nodes, class_path_from(nodes, q, 0).unwrap()) is Some,
        spec_class_matches(node_at(nodes, class_path_from(nodes, q, 0).unwrap()).unwrap().class_name@, q),
{
    lemma_class_path_leads(nodes, q, 0);
}

proof fn lemma_class_paths_lead(nodes: Seq<Outline>, q: Seq<char>, i: int)
    ensures
        forall|k: int| 0 <= k < class_paths_from(nodes, q, i).len() ==> {
            let p = #[trigger] class_paths_from(nodes, q, i)[k];
            &&& p.len() > 0
            &&& node_at(nodes, p) is Some
            &&& spec_class_matches(node_at(nodes, p).unwrap().class_name@, q)
        },
    decreases nodes, nodes.len() - i,
{
    if 0 <= i < nodes.len() {
        assert(decreases_to!(nodes => nodes[i]));
        assert(decreases_to!(nodes[i] => nodes[i].children));
        assert(decreases_to!(nodes[i].children => nodes[i].children@));
        let sub = class_paths_from(nodes[i].children@, q, 0);
        lemma_class_paths_lead(nodes[i].children@, q, 0);
        lemma_class_paths_lead(nodes, q, i + 1);
        let cur = if spec_class_matches(nodes[i].class_name@, q) {
            seq![seq![i]]
        } else {
            Seq::<Seq<int>>::empty()
        };
        let pre = prefixed(i, sub);
        let rest = class_paths_from(nodes, q, i + 1);
        let all = class_paths_from(nodes, q, i);
        assert(all == cur + pre + rest);
        assert forall|k: int| 0 <= k < all.len() implies {
            let p = #[trigger] all[k];
            &&& p.len() > 0
            &&& node_at(nodes, p) is Some
            &&& spec_class_matches(node_at(nodes, p).unwrap().class_name@, q)
        } by {
            if k < cur.len() {
                assert(all[k] == seq![i]);
            } else if k < cur.len() + pre.len() {
                let j = k - cur.len();
                assert(all[k] == pre[j]);
                assert(pre[j] == seq![i] + sub[j]);
                let sj = sub[j];
                assert(sj.len() > 0);
                lemma_node_at_cons(nodes, i, sj);
            } else {
                assert(all[k] == rest[k - cur.len() - pre.len()]);
            }
        }
    }
}

/// Every path that a search for all components of a class gives back leads
/// to a component of that class.
pub proof fn law_class_paths_lead_to_class(nodes: Seq<Outline>, q: Seq<char>)
    ensures
        forall|k: int| 0 <= k < class_paths_from(nodes, q, 0).len() ==> {
            let p = #[trigger] class_paths_from(nodes, q, 0)[k];
            &&& node_at(nodes, p) is Some
            &&& spec_class_matches(node_at(nodes, p).unwrap().class_name@, q)
        },
{
    lemma_class_paths_lead(nodes, q, 0);
}

/// The first of a list of paths, if there is one.
pub open spec fn first_path(ps: Seq<Seq<int>>) -> Option<Seq<int>> {
    if ps.len() > 0 { Some(ps[0]) } else { None }
}

proof fn lemma_first_class_path(nodes: Seq<Outline>, q: Seq<char>, i: int)
    ensures
        class_path_from(nodes, q, i) == first_path(class_paths_from(nodes, q, i)),
    decreases nodes, nodes.len() - i,
{
    if 0 <= i < nodes.len() {
        assert(decreases_to!(nodes => nodes[i]));
        assert(decreases_to!(nodes[i] => nodes[i].children));
        assert(decreases_to!(nodes[i].children => nodes[i].children@));
        let sub = class_paths_from(nodes[i].children@, q, 0);
        let rest = class_paths_from(nodes, q, i + 1);
        lemma_first_class_path(nodes[i].children@, q, 0);
        lemma_first_class_path(nodes, q, i + 1);
        if spec_class_matches(nodes[i].class_name@, q) {
            assert((seq![seq![i]] + prefixed(i, sub) + rest)[0] == seq![i]);
        } else {
            assert(Seq::<Seq<int>>::empty() + prefixed(i, sub) + rest =~= prefixed(i, sub) + rest);
            if sub.len() > 0 {
                assert((prefixed(i, sub) + rest)[0] == prefixed(i, sub)[0]);
            } else {
                assert(prefixed(i, sub) + rest =~= rest);
            }
        }
    }
}

/// The first component of a class is the first of all the components of
/// that class.
pub proof fn law_first_of_class(nodes: Seq<Outline>, q: Seq<char>)
    ensures
        class_path_from(nodes, q, 0) == first_path(class_paths_from(nodes, q, 0)),
{
    lemma_first_class_path(nodes, q, 0);
}

/// A path as integers.
pub open spec fn path_view(p: Vec<usize>) -> Seq<int> {
    p@.map_values(|x: usize| x as int)
}

/// An optional path as integers.
pub open spec fn opt_path_view(r: Option<Vec<usize>>) -> Option<Seq<int>> {
    match r {
        Some(p) => Some(path_view(p)),
        None => None,
    }
}

/// `i` in front of `p`.
fn prepend(i: usize, p: Vec<usize>) -> (r: Vec<usize>)
    ensures
        path_view(r) == seq![i as int] + path_view(p),
{
    let mut r: Vec<usize> = Vec::new();
    r.push(i);
    let mut k: usize = 0;
    while k < p.len()
        invariant
            k <= p@.len(),
            r@.len() == k + 1,
            r@[0] == i,
            forall|j: int| 0 <= j < k ==> #[trigger] r@[j + 1] == p@[j],
        decreases p@.len() - k,
    {
        r.push(p[k]);
        k = k + 1;
    }
    assert forall|j: int| 0 <= j < r@.len() implies #[trigger] path_view(r)[j] == (seq![i as int] + path_view(p))[j] by {
        if j > 0 {
            assert(r@[(j - 1) + 1] == p@[j - 1]);
        }
    }
    assert(path_view(r) =~= seq![i as int] + path_view(p));
    r
}

/// The path to the first component with id `id` (see [`id_path_from`]).
pub fn find_id_path(nodes: &Vec<Outline>, id: &str) -> (r: Option<Vec<usize>>)
    ensures
        opt_path_view(r) == id_path_from(nodes@, id@, 0),
    decreases nodes@,
{
    let key = String::from_str(id);
    let mut i: usize = 0;
    while i < nodes.len()
        invariant
            key@ == id@,
            i <= nodes@.len(),
            id_path_from(nodes@, id@, i as int) == id_path_from(nodes@, id@, 0),
        decreases nodes@.len() - i,
    {
        if nodes[i].id == key {
            let mut r: Vec<usize> = Vec::new();
            r.push(i);
            assert(path_view(r) =~= seq![i as int]);
            return Some(r);
        }
        proof {
            assert(decreases_to!(nodes@ => nodes@[i as int]));
            assert(decreases_to!(nodes@[i as int] => nodes@[i as int].children));
            assert(decreases_to!(nodes@[i as int].children => nodes@[i as int].children@));
        }
        match find_id_path(&nodes[i].children, id) {
            Some(p) => {
                return Some(prepend(i, p));
            },
            None => {},
        }
        i = i + 1;
    }
    None
}

/// The path to the first component with class `q` (see [`class_path_from`]).
pub fn find_class_path(nodes: &Vec<Outline>, q: &str) -> (r: Option<Vec<usize>>)
    ensures
        opt_path_view(r) == class_path_from(nodes@, q@, 0),
    decreases nodes@,
{
    let mut i: usize = 0;
    while i < nodes.len()
        invariant
            i <= nodes@.len(),
            class_path_from(nodes@, q@, i as int) == class_path_from(nodes@, q@, 0),
        decreases nodes@.len() - i,
    {
        if class_matches(nodes[i].class_name.as_str(), q) {
            let mut r: Vec<usize> = Vec::new();
            r.push(i);
            assert(path_view(r) =~= seq![i as int]);
            return Some(r);
        }
        proof {
            assert(decreases_to!(nodes@ => nodes@[i as int]));
            assert(decreases_to!(nodes@[i as int] => nodes@[i as int].children));
            assert(decreases_to!(nodes@[i as int].children => nodes@[i as int].children@));
        }
        match find_class_path(&nodes[i].children, q) {
            Some(p) => {
                return Some(prepend(i, p));
            },
            None => {},
        }
        i = i + 1;
    }
    None
}

/// The paths to all components with class `q` (see [`class_paths_from`]).
pub fn find_class_paths(nodes: &Vec<Outline>, q: &str) -> (r: Vec<Vec<usize>>)
    ensures
        r@.map_values(|p: Vec<usize>| path_view(p)) == class_paths_from(nodes@, q@, 0),
    decreases nodes@,
{
    let ghost all = class_paths_from(nodes@, q@, 0);
    let mut out: Vec<Vec<usize>> = Vec::new();
    let mut i: usize = 0;
    while i < nodes.len()
        invariant
            i <= nodes@.len(),
            all == class_paths_from(nodes@, q@, 0),
            out@.map_values(|p: Vec<usize>| path_view(p)) + class_paths_from(nodes@, q@, i as int) == all,
        decreases nodes@.len() - i,
    {
        let ghost before = out@.map_values(|p: Vec<usize>| path_view(p));
        let here = class_matches(nodes[i].class_name.as_str(), q);
        if here {
            let mut r: Vec<usize> = Vec::new();
            r.push(i);
            assert(path_view(r) =~= seq![i as int]);
            out.push(r);
        }
        let ghost mid = out@.map_values(|p: Vec<usize>| path_view(p));
        proof {
            assert(decreases_to!(nodes@ => nodes@[i as int]));
            assert(decreases_to!(nodes@[i as int] => nodes@[i as int].children));
            assert(decreases_to!(nodes@[i as int].children => nodes@[i as int].children@));
        }
        let sub = find_class_paths(&nodes[i].children, q);
        let ghost subv = sub@.map_values(|p: Vec<usize>| path_view(p));
        let mut k: usize = 0;
        while k < sub.len()
            invariant
                k <= sub@.len(),
                subv == sub@.map_values(|p: Vec<usize>| path_view(p)),
                out@.map_values(|p: Vec<usize>| path_view(p)) == mid + prefixed(i as int, subv.take(k as int)),
            decreases sub@.len() - k,
        {
            let ghost o = out@;
            let c = sub[k].clone();
            assert(c@ =~= sub@[k as int]@);
            let p = prepend(i, c);
            out.push(p);
            proof {
                let step = seq![i as int] + subv[k as int];
                assert(path_view(p) == step);
                assert(out@ =~= o.push(p));
                assert(out@.map_values(|p: Vec<usize>| path_view(p)) =~= o.map_values(|p: Vec<usize>| path_view(p)).push(step));
                assert(subv.take(k + 1) =~= subv.take(k as int).push(subv[k as int]));
                assert(prefixed(i as int, subv.take(k + 1)) =~= prefixed(i as int, subv.take(k as int)).push(step));
                assert(out@.map_values(|p: Vec<usize>| path_view(p)) =~= mid + prefixed(i as int, subv.take(k + 1)));
            }
            k = k + 1;
        }
        proof {
            assert(subv.take(sub@.len() as int) =~= subv);
            let cur = if here { seq![seq![i as int]] } else { Seq::<Seq<int>>::empty() };
            assert(mid =~= before + cur);
            assert(class_paths_from(nodes@, q@, i as int) == cur + prefixed(i as int, subv) + class_paths_from(nodes@, q@, i + 1));
            assert(out@.map_values(|p: Vec<usize>| path_view(p)) + class_paths_from(nodes@, q@, i + 1) =~= before + class_paths_from(nodes@, q@, i as int));
        }
        i = i + 1;
    }
    assert(out@.map_values(|p: Vec<usize>| path_view(p)) + Seq::<Seq<int>>::empty() =~= out@.map_values(|p: Vec<usize>| path_view(p)));
    out
}

/// The texture source (`anim` false) or the animation source (`anim` true)
/// of a component.
pub open spec fn asset_of(n: Outline, anim: bool) -> Seq<char> {
    if anim {
        n.animation@
    } else {
        n.texture@
    }
}

/// The non-empty sources of one kind, in document order, from the `i`-th of
/// `nodes` on.
pub open spec fn assets_from(nodes: Seq<Outline>, anim: bool, i: int) -> Seq<Seq<char>>
    decreases nodes, nodes.len() - i,
{
    if i < 0 || i >= nodes.len() {
        Seq::empty()
    } else {
        proof {
            assert(decreases_to!(nodes => nodes[i]));
            assert(decreases_to!(nodes[i] => nodes[i].children));
            assert(decreases_to!(nodes[i].children => nodes[i].children@));
        }
        (if asset_of(nodes[i], anim).len() > 0 {
            seq![asset_of(nodes[i], anim)]
        } else {
            Seq::<Seq<char>>::empty()
        }) + assets_from(nodes[i].children@, anim, 0) + assets_from(nodes, anim, i + 1)
    }
}

/// The texture sources (`anim` false) or animation sources (`anim` true) of
/// the components, in document order, empty ones left out (see
/// [`assets_from`]).
pub fn asset_sources(nodes: &Vec<Outline>, anim: bool) -> (r: Vec<String>)
    ensures
        r@.map_values(|s: String| s@) == assets_from(nodes@, anim, 0),
    decreases nodes@,
{
    let ghost all = assets_from(nodes@, anim, 0);
    let mut out: Vec<String> = Vec::new();
    let mut i: usize = 0;
    while i < nodes.len()
        invariant
            i <= nodes@.len(),
            all == assets_from(nodes@, anim, 0),
            out@.map_values(|s: String| s@) + assets_from(nodes@, anim, i as int) == all,
        decreases nodes@.len() - i,
    {
        let ghost before = out@.map_values(|s: String| s@);
        let src = if anim {
            nodes[i].animation.clone()
        } else {
            nodes[i].texture.clone()
        };
        assert(src@ == asset_of(nodes@[i as int], anim));
        let here = !src.as_str().is_empty();
        if here {
            out.push(src);
        }
        let ghost mid = out@.map_values(|s: String| s@);
        let ghost cur = if here { seq![asset_of(nodes@[i as int], anim)] } else { Seq::<Seq<char>>::empty() };
        assert(mid =~= before + cur);
        proof {
            assert(decreases_to!(nodes@ => nodes@[i as int]));
            assert(decreases_to!(nodes@[i as int] => nodes@[i as int].children));
            assert(decreases_to!(nodes@[i as int].children => nodes@[i as int].children@));
        }
        let sub = asset_sources(&nodes[i].children, anim);
        let ghost subv = sub@.map_values(|s: String| s@);
        let mut k: usize = 0;
        while k < sub.len()
            invariant
                k <= sub@.len(),
                subv == sub@.map_values(|s: String| s@),
                out@.map_values(|s: String| s@) == mid + subv.take(k as int),
            decreases sub@.len() - k,
        {
            let ghost o = out@;
            let c = sub[k].clone();
            out.push(c);
            proof {
                assert(out@ =~= o.push(c));
                assert(out@.map_values(|s: String| s@) =~= o.map_values(|s: String| s@).push(subv[k as int]));
                assert(subv.take(k + 1) =~= subv.take(k as int).push(subv[k as int]));
                assert(out@.map_values(|s: String| s@) =~= mid + subv.take(k + 1));
            }
            k = k + 1;
        }
        proof {
            assert(subv.take(sub@.len() as int) =~= subv);
            assert(assets_from(nodes@, anim, i as int) == cur + subv + assets_from(nodes@, anim, i + 1));
            assert(out@.map_values(|s: String| s@) + assets_from(nodes@, anim, i + 1) =~= before + assets_from(
                nodes@,
                anim,
                i as int,
            ));
        }
        i = i + 1;
    }
    assert(out@.map_values(|s: String| s@) + Seq::<Seq<char>>::empty() =~= out@.map_values(|s: String| s@));
    out
}

} // verus!
