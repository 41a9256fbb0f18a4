//! Building the nested directory tree of a walk: every walked path becomes
//! a node, intermediate directories are filled in, children are sorted by
//! name, and only directories carry children.

use vstd::prelude::*;

use crate::fs::{lemma_text_lt_asym, lemma_text_lt_trans, text_less, text_lt};
use crate::errors::FsError;
use crate::protocol::TreeNode;
use crate::text::{strings_view, to_chars};

verus! {

/// One walked path below the tree's root, as its components, and whether
/// it is a directory.
#[derive(Debug)]
pub struct WalkEntry {
    pub components: Vec<String>,
    pub is_dir: bool,
}

pub open spec fn comps(e: WalkEntry) -> Seq<Seq<char>> {
    strings_view(e.components@)
}

pub open spec fn is_prefix_of(p: Seq<Seq<char>>, c: Seq<Seq<char>>) -> bool {
    p.len() <= c.len() && c.take(p.len() as int) == p
}

/// The directory flag of the last walked path equal to `p`, if any.
pub open spec fn last_flag(es: Seq<WalkEntry>, p: Seq<Seq<char>>) -> Option<bool>
    decreases es.len(),
{
    if es.len() == 0 {
        None
    } else if comps(es.last()) == p {
        Some(es.last().is_dir)
    } else {
        last_flag(es.drop_last(), p)
    }
}

/// Whether the node at `p` is a directory: the root always is; a walked
/// path is what its last walk said; a node that only leads to walked paths
/// is a directory.
pub open spec fn node_is_dir(es: Seq<WalkEntry>, p: Seq<Seq<char>>) -> bool {
    p.len() == 0 || match last_flag(es, p) {
        Some(b) => b,
        None => true,
    }
}

/// Entry `e` lies at or below the child `n` of `p`.
pub open spec fn contributes(e: WalkEntry, p: Seq<Seq<char>>, n: Seq<char>) -> bool {
    is_prefix_of(p.push(n), comps(e))
}

pub open spec fn is_child_name(es: Seq<WalkEntry>, p: Seq<Seq<char>>, n: Seq<char>) -> bool {
    exists|i: int| 0 <= i < es.len() && #[trigger] contributes(es[i], p, n)
}

/// The largest number of components of a walked path.
pub open spec fn max_depth(es: Seq<WalkEntry>) -> nat
    decreases es.len(),
{
    if es.len() == 0 {
        0
    } else {
        let d = max_depth(es.drop_last());
        if comps(es.last()).len() > d {
            comps(es.last()).len()
        } else {
            d
        }
    }
}

/// `t` is the tree node at `p`: named by its last component (the root is
/// `.`), a directory as `node_is_dir` says, and, for a directory, with one
/// child per child name, sorted by name, each the tree node at its path.
pub open spec fn tree_ok(es: Seq<WalkEntry>, p: Seq<Seq<char>>, t: TreeNode) -> bool
    decreases max_depth(es) - p.len(),
    when p.len() <= max_depth(es)
{
    &&& t.name@ == (if p.len() == 0 {
        seq!['.']
    } else {
        p.last()
    })
    &&& t.is_dir == node_is_dir(es, p)
    &&& if t.is_dir {
        &&& t.children is Some
        &&& forall|i: int, j: int|
            0 <= i < j < t.children->0@.len() ==> text_lt(
                t.children->0@[i].name@,
                t.children->0@[j].name@,
            )
        &&& forall|n: Seq<char>|
            is_child_name(es, p, n) <==> exists|i: int|
                0 <= i < t.children->0@.len() && (#[trigger] t.children->0@[i]).name@ == n
        &&& forall|i: int|
            0 <= i < t.children->0@.len() ==> p.len() < max_depth(es) && tree_ok(
                es,
                p.push(t.children->0@[i].name@),
                #[trigger] t.children->0@[i],
            )
    } else {
        t.children is None
    }
}

proof fn lemma_max_depth_bounds(es: Seq<WalkEntry>, i: int)
    requires
        0 <= i < es.len(),
    ensures
        comps(es[i]).len() <= max_depth(es),
    decreases es.len(),
{
    if i < es.len() - 1 {
        lemma_max_depth_bounds(es.drop_last(), i);
        assert(es.drop_last()[i] == es[i]);
    }
}

fn copy_names(v: &Vec<String>) -> (r: Vec<String>)
    ensures
        strings_view(r@) == strings_view(v@),
{
    let mut out: Vec<String> = Vec::new();
    let mut i: usize = 0;
    while i < v.len()
        invariant
            i <= v.len(),
            out@.len() == i,
            forall|j: int| 0 <= j < i ==> out@[j]@ == v@[j]@,
        decreases v.len() - i,
    {
        out.push(v[i].clone());
        i = i + 1;
    }
    assert(strings_view(out@) =~= strings_view(v@));
    out
}

fn same_components(a: &Vec<String>, b: &Vec<String>) -> (r: bool)
    ensures
        r == (strings_view(a@) == strings_view(b@)),
{
    if a.len() != b.len() {
        return false;
    }
    let mut i: usize = 0;
    while i < a.len()
        invariant
            a@.len() == b@.len(),
            i <= a@.len(),
            forall|j: int| 0 <= j < i ==> a@[j]@ == b@[j]@,
        decreases a.len() - i,
    {
        if !a[i].eq(&b[i]) {
            assert(strings_view(a@)[i as int] != strings_view(b@)[i as int]);
            return false;
        }
        i = i + 1;
    }
    assert(strings_view(a@) =~= strings_view(b@));
    true
}

/// True if `p` is a prefix of `c`, component by component.
fn has_prefix(c: &Vec<String>, p: &Vec<String>) -> (r: bool)
    ensures
        r == is_prefix_of(strings_view(p@), strings_view(c@)),
{
    if p.len() > c.len() {
        return false;
    }
    let mut i: usize = 0;
    while i < p.len()
        invariant
            p@.len() <= c@.len(),
            i <= p@.len(),
            forall|j: int| 0 <= j < i ==> c@[j]@ == p@[j]@,
        decreases p.len() - i,
    {
        if !c[i].eq(&p[i]) {
            assert(strings_view(c@).take(p@.len() as int)[i as int] != strings_view(p@)[i as int]);
            return false;
        }
        i = i + 1;
    }
    assert(strings_view(c@).take(p@.len() as int) =~= strings_view(p@));
    true
}

fn is_dir_at(es: &Vec<WalkEntry>, p: &Vec<String>) -> (r: bool)
    ensures
        r == node_is_dir(es@, strings_view(p@)),
{
    if p.len() == 0 {
        return true;
    }
    assert(strings_view(p@).len() == p@.len());
    let mut k = es.len();
    assert(es@.take(es@.len() as int) =~= es@);
    while k > 0
        invariant
            k <= es@.len(),
            strings_view(p@).len() > 0,
            last_flag(es@, strings_view(p@)) == last_flag(es@.take(k as int), strings_view(p@)),
        decreases k,
    {
        assert(es@.take(k as int).drop_last() =~= es@.take(k - 1));
        assert(es@.take(k as int).last() == es@[k - 1]);
        if same_components(&es[k - 1].components, p) {
            assert(comps(es@[k - 1]) == strings_view(p@));
            assert(last_flag(es@.take(k as int), strings_view(p@)) == Some(es@[k - 1].is_dir));
            return es[k - 1].is_dir;
        }
        k = k - 1;
    }
    assert(es@.take(0) =~= Seq::<WalkEntry>::empty());
    true
}

pub open spec fn strictly_sorted(v: Seq<Seq<char>>) -> bool {
    forall|i: int, j: int| 0 <= i < j < v.len() ==> text_lt(v[i], v[j])
}

/// Adds `n` to a strictly sorted list of names, unless it is there.
fn insert_name(names: &mut Vec<String>, n: String)
    requires
        strictly_sorted(strings_view(old(names)@)),
    ensures
        strictly_sorted(strings_view(final(names)@)),
        forall|x: Seq<char>|
            strings_view(final(names)@).contains(x) <==> (strings_view(old(names)@).contains(x)
                || x == n@),
{
    let nc = to_chars(n.as_str());
    let mut i: usize = 0;
    while i < names.len()
        invariant
            names@ == old(names)@,
            strictly_sorted(strings_view(names@)),
            i <= names@.len(),
            nc@ == n@,
            forall|j: int| 0 <= j < i ==> text_lt(#[trigger] strings_view(names@)[j], n@),
        ensures
            i <= names@.len(),
            names@ == old(names)@,
            forall|j: int| 0 <= j < i ==> text_lt(#[trigger] strings_view(names@)[j], n@),
            i < names@.len() ==> !text_lt(strings_view(names@)[i as int], n@),
        decreases names.len() - i,
    {
        let cur = to_chars(names[i].as_str());
        if !text_less(&cur, &nc) {
            break ;
        }
        i = i + 1;
    }
    let ghost sv = strings_view(names@);
    if i < names.len() {
        let cur = to_chars(names[i].as_str());
        if !text_less(&nc, &cur) {
            // neither is smaller: the same name
            proof {
                lemma_text_lt_total(sv[i as int], n@);
            }
            assert(sv.contains(n@)) by {
                assert(sv[i as int] == n@);
            }
            return ;
        }
    }
    names.insert(i, n);
    proof {
        let nv = strings_view(names@);
        assert(nv =~= sv.insert(i as int, n@));
        assert forall|a: int, b: int| 0 <= a < b < nv.len() implies text_lt(nv[a], nv[b]) by {
            if b < i {
            } else if a < i && b == i {
            } else if a < i && b > i {
                assert(nv[b] == sv[b - 1]);
                if i < sv.len() {
                    assert(text_lt(n@, sv[i as int]));
                    if b - 1 > i {
                        lemma_text_lt_trans(nv[a], n@, sv[i as int]);
                        lemma_text_lt_trans(nv[a], sv[i as int], sv[b - 1]);
                    } else {
                        lemma_text_lt_trans(nv[a], n@, sv[i as int]);
                    }
                }
            } else if a == i {
                assert(nv[b] == sv[b - 1]);
                assert(text_lt(n@, sv[i as int]));
                if b - 1 > i {
                    lemma_text_lt_trans(n@, sv[i as int], sv[b - 1]);
                }
            } else {
                assert(nv[a] == sv[a - 1]);
                assert(nv[b] == sv[b - 1]);
            }
        }
        assert forall|x: Seq<char>| nv.contains(x) <==> (sv.contains(x) || x == n@) by {
            if nv.contains(x) {
                let k = choose|k: int| 0 <= k < nv.len() && nv[k] == x;
                if k < i {
                    assert(sv[k] == x);
                } else if k > i {
                    assert(sv[k - 1] == x);
                }
            }
            if sv.contains(x) {
                let k = choose|k: int| 0 <= k < sv.len() && sv[k] == x;
                if k < i {
                    assert(nv[k] == x);
                } else {
                    assert(nv[k + 1] == x);
                }
            }
            if x == n@ {
                assert(nv[i as int] == x);
            }
        }
    }
}

pub proof fn lemma_text_lt_total(a: Seq<char>, b: Seq<char>)
    requires
        !text_lt(a, b),
        !text_lt(b, a),
    ensures
        a == b,
    decreases a.len(),
{
    if a.len() > 0 && b.len() > 0 {
        if a[0] == b[0] {
            lemma_text_lt_total(a.drop_first(), b.drop_first());
            assert forall|k: int| 0 <= k < a.len() implies a[k] == b[k] by {
                if k > 0 {
                    assert(a[k] == a.drop_first()[k - 1]);
                    assert(b[k] == b.drop_first()[k - 1]);
                }
            }
            assert(a =~= b);
        } else {
            vstd::utf8::char_u32_cast(a[0], a[0] as u32);
            vstd::utf8::char_u32_cast(b[0], b[0] as u32);
        }
    } else if a.len() == 0 && b.len() == 0 {
        assert(a =~= b);
    }
}

/// The names of the children of `p`, strictly sorted.
fn child_names(es: &Vec<WalkEntry>, p: &Vec<String>) -> (r: Vec<String>)
    ensures
        strictly_sorted(strings_view(r@)),
        forall|n: Seq<char>|
            strings_view(r@).contains(n) <==> is_child_name(es@, strings_view(p@), n),
{
    let mut names: Vec<String> = Vec::new();
    let ghost pv = strings_view(p@);
    let mut k: usize = 0;
    assert(strings_view(names@) =~= Seq::<Seq<char>>::empty());
    while k < es.len()
        invariant
            k <= es@.len(),
            pv == strings_view(p@),
            strictly_sorted(strings_view(names@)),
            forall|n: Seq<char>|
                strings_view(names@).contains(n) <==> exists|j: int|
                    0 <= j < k && #[trigger] contributes(es@[j], pv, n),
        decreases es.len() - k,
    {
        let e = &es[k];
        let ghost before = strings_view(names@);
        if e.components.len() > p.len() && has_prefix(&e.components, p) {
            let n = e.components[p.len()].clone();
            let ghost nv = n@;
            proof {
                let c = comps(es@[k as int]);
                assert(c.take((pv.len() + 1) as int) =~= pv.push(nv));
                assert(contributes(es@[k as int], pv, nv));
            }
            insert_name(&mut names, n);
            proof {
                assert forall|x: Seq<char>|
                    strings_view(names@).contains(x) <==> exists|j: int|
                        0 <= j < k + 1 && #[trigger] contributes(es@[j], pv, x) by {
                    if exists|j: int| 0 <= j < k + 1 && #[trigger] contributes(es@[j], pv, x) {
                        let j = choose|j: int| 0 <= j < k + 1 && #[trigger] contributes(es@[j], pv, x);
                        if j == k {
                            let c = comps(es@[k as int]);
                            assert(c.take((pv.len() + 1) as int)[pv.len() as int] == x);
                        }
                    }
                }
            }
        } else {
            proof {
                assert forall|x: Seq<char>| !contributes(es@[k as int], pv, x) by {
                    if contributes(es@[k as int], pv, x) {
                        let c = comps(es@[k as int]);
                        assert(c.take(pv.len() as int) =~= c.take((pv.len() + 1) as int).take(
                            pv.len() as int,
                        ));
                        assert(pv.push(x).take(pv.len() as int) =~= pv);
                    }
                }
                assert forall|x: Seq<char>|
                    strings_view(names@).contains(x) <==> exists|j: int|
                        0 <= j < k + 1 && #[trigger] contributes(es@[j], pv, x) by {
                    if exists|j: int| 0 <= j < k + 1 && #[trigger] contributes(es@[j], pv, x) {
                        let j = choose|j: int| 0 <= j < k + 1 && #[trigger] contributes(es@[j], pv, x);
                        assert(j < k);
                    }
                }
            }
        }
        k = k + 1;
    }
    names
}

/// The tree node at `p`.
fn build_node(es: &Vec<WalkEntry>, p: Vec<String>, depth: usize) -> (t: TreeNode)
    requires
        depth == max_depth(es@),
        p@.len() <= depth,
    ensures
        tree_ok(es@, strings_view(p@), t),
    decreases depth - p@.len(),
{
    let ghost pv = strings_view(p@);
    let name = if p.len() == 0 {
        proof {
            reveal_strlit(".");
        }
        ".".to_owned()
    } else {
        p[p.len() - 1].clone()
    };
    assert(p@.len() > 0 ==> pv.last() == p@[p@.len() - 1]@);
    assert(name@ == (if pv.len() == 0 {
        seq!['.']
    } else {
        pv.last()
    }));
    let is_dir = is_dir_at(es, &p);
    if !is_dir {
        return TreeNode { name, is_dir, children: None };
    }
    let names = child_names(es, &p);
    let mut children: Vec<TreeNode> = Vec::new();
    let mut i: usize = 0;
    while i < names.len()
        invariant
            depth == max_depth(es@),
            p@.len() <= depth,
            pv == strings_view(p@),
            i <= names@.len(),
            children@.len() == i,
            strictly_sorted(strings_view(names@)),
            forall|n: Seq<char>|
                strings_view(names@).contains(n) <==> is_child_name(es@, pv, n),
            forall|j: int|
                0 <= j < i ==> (#[trigger] children@[j]).name@ == names@[j]@ && pv.len() < max_depth(
                    es@,
                ) && tree_ok(es@, pv.push(names@[j]@), children@[j]),
        decreases names.len() - i,
    {
        let ghost nv = names@[i as int]@;
        proof {
            assert(strings_view(names@)[i as int] == nv);
            assert(strings_view(names@).contains(nv));
            assert(is_child_name(es@, pv, nv));
            let k = choose|k: int| 0 <= k < es@.len() && #[trigger] contributes(es@[k], pv, nv);
            lemma_max_depth_bounds(es@, k);
        }
        let mut cp = copy_names(&p);
        cp.push(names[i].clone());
        assert(strings_view(cp@) =~= pv.push(nv));
        let child = build_node(es, cp, depth);
        assert(child.name@ == nv);
        children.push(child);
        i = i + 1;
    }
    let ghost nm = name@;
    let t = TreeNode { name, is_dir: true, children: Some(children) };
    proof {
        let cs = children@;
        assert(t.children->0@ == cs);
        assert(t.name@ == nm);
        assert forall|a: int, b: int| 0 <= a < b < cs.len() implies text_lt(cs[a].name@, cs[b].name@) by {
            assert(strings_view(names@)[a] == cs[a].name@);
            assert(strings_view(names@)[b] == cs[b].name@);
        }
        assert forall|n: Seq<char>| is_child_name(es@, pv, n) <==> exists|j: int|
            0 <= j < cs.len() && (#[trigger] cs[j]).name@ == n by {
            if is_child_name(es@, pv, n) {
                assert(strings_view(names@).contains(n));
                let j = choose|j: int| 0 <= j < strings_view(names@).len() && strings_view(names@)[j] == n;
                assert(cs[j].name@ == n);
            }
            if exists|j: int| 0 <= j < cs.len() && (#[trigger] cs[j]).name@ == n {
                let j = choose|j: int| 0 <= j < cs.len() && (#[trigger] cs[j]).name@ == n;
                assert(strings_view(names@)[j] == n);
            }
        }
        assert forall|j: int| 0 <= j < cs.len() implies pv.len() < max_depth(es@) && tree_ok(
            es@,
            pv.push(cs[j].name@),
            #[trigger] cs[j],
        ) by {
            assert(cs[j].name@ == names@[j]@);
        }
    }
    t
}

/// The directory tree of a walk: the root `.` and, below it, every walked
/// path (given by its components relative to the root, in walk order).
pub fn build_tree(entries: &Vec<WalkEntry>) -> (t: TreeNode)
    ensures
        tree_ok(entries@, Seq::empty(), t),
{
    let mut depth: usize = 0;
    let mut k: usize = 0;
    assert(entries@.take(0) =~= Seq::<WalkEntry>::empty());
    while k < entries.len()
        invariant
            k <= entries@.len(),
            depth == max_depth(entries@.take(k as int)),
        decreases entries.len() - k,
    {
        assert(entries@.take(k + 1).drop_last() =~= entries@.take(k as int));
        assert(comps(entries@[k as int]).len() == entries@[k as int].components@.len());
        if entries[k].components.len() > depth {
            depth = entries[k].components.len();
        }
        k = k + 1;
    }
    assert(entries@.take(entries@.len() as int) =~= entries@);
    let root: Vec<String> = Vec::new();
    assert(strings_view(root@) =~= Seq::<Seq<char>>::empty());
    build_node(entries, root, depth)
}

/// The tree of the directory at `path` from its walk: `NotDir` when `path`
/// is not an existing directory (as the caller found), else the tree of the
/// walked entries.
pub fn tree_at(path: &str, is_dir: bool, entries: &Vec<WalkEntry>) -> (r: Result<TreeNode, FsError>)
    ensures
        !is_dir ==> (r matches Err(FsError::NotDir(p)) && p@ == path@),
        is_dir ==> (r matches Ok(t) && tree_ok(entries@, Seq::empty(), t)),
{
    if !is_dir {
        return Err(FsError::NotDir(path.to_owned()));
    }
    Ok(build_tree(entries))
}

} // verus!
