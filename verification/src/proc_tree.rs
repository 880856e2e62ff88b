//! The process graph: the process table as a tree, the path from the
//! selected process up to its oldest ancestor, and the tree drawn as text
//! around that path, cut to the lines the panel has.
use std::collections::{HashMap, HashSet};
use vstd::prelude::*;
use crate::format::{fit_text, fit_text_spec};
use crate::strings::{chars_of, decimal, eq_chars, push_decimal, push_str, string_of};

verus! {

broadcast use vstd::std_specs::hash::group_hash_axioms;

/// One process as the system lists it.
#[derive(Clone, Debug)]
pub struct ProcEntry {
    pub pid: u32,
    pub name: String,
    pub parent: Option<u32>,
}

/// A process in the tree, with its children ordered by name, then pid.
#[derive(Clone, Debug)]
pub struct ProcNode {
    pub pid: u32,
    pub name: String,
    pub parent: Option<u32>,
    pub children: Vec<u32>,
}

/// `a` comes before `b` in the order of `str`'s `Ord` (by code points, which
/// is the order of their UTF-8 bytes).
pub open spec fn seq_less(a: Seq<char>, b: Seq<char>) -> bool
    decreases a.len(),
{
    if a.len() == 0 {
        b.len() > 0
    } else if b.len() == 0 {
        false
    } else if a[0] != b[0] {
        a[0] < b[0]
    } else {
        seq_less(a.drop_first(), b.drop_first())
    }
}

pub proof fn lemma_seq_less_irreflexive(a: Seq<char>)
    ensures
        !seq_less(a, a),
    decreases a.len(),
{
    if a.len() > 0 {
        lemma_seq_less_irreflexive(a.drop_first());
    }
}

pub proof fn lemma_seq_less_total(a: Seq<char>, b: Seq<char>)
    ensures
        a == b || seq_less(a, b) || seq_less(b, a),
        !(seq_less(a, b) && seq_less(b, a)),
    decreases a.len(),
{
    if a.len() > 0 && b.len() > 0 {
        if a[0] == b[0] {
            lemma_seq_less_total(a.drop_first(), b.drop_first());
            if a.drop_first() == b.drop_first() {
                assert(a =~= seq![a[0]] + a.drop_first());
                assert(b =~= seq![b[0]] + b.drop_first());
            }
        }
    } else if a.len() == 0 && b.len() == 0 {
        assert(a =~= b);
    }
}

pub proof fn lemma_seq_less_transitive(a: Seq<char>, b: Seq<char>, c: Seq<char>)
    requires
        seq_less(a, b),
        seq_less(b, c),
    ensures
        seq_less(a, c),
    decreases a.len(),
{
    if a.len() > 0 && b.len() > 0 && c.len() > 0 && a[0] == b[0] && b[0] == c[0] {
        lemma_seq_less_transitive(a.drop_first(), b.drop_first(), c.drop_first());
    }
}

/// The name and parent of each pid: a later entry for the same pid takes
/// the place of an earlier one.
pub open spec fn entries_map(procs: Seq<ProcEntry>) -> Map<u32, (Seq<char>, Option<u32>)>
    decreases procs.len(),
{
    if procs.len() == 0 {
        Map::empty()
    } else {
        let e = procs.last();
        entries_map(procs.drop_last()).insert(e.pid, (e.name@, e.parent))
    }
}

/// Pid `a` comes before pid `b`: by name, then by pid.
pub open spec fn key_less(e: Map<u32, (Seq<char>, Option<u32>)>, a: u32, b: u32) -> bool {
    seq_less(e[a].0, e[b].0) || (e[a].0 == e[b].0 && a < b)
}

pub proof fn lemma_key_order(e: Map<u32, (Seq<char>, Option<u32>)>, a: u32, b: u32, c: u32)
    ensures
        !key_less(e, a, a),
        a != b ==> (key_less(e, a, b) || key_less(e, b, a)),
        !(key_less(e, a, b) && key_less(e, b, a)),
        key_less(e, a, b) && key_less(e, b, c) ==> key_less(e, a, c),
{
    lemma_seq_less_irreflexive(e[a].0);
    lemma_seq_less_total(e[a].0, e[b].0);
    lemma_seq_less_total(e[b].0, e[c].0);
    lemma_seq_less_total(e[a].0, e[c].0);
    if seq_less(e[a].0, e[b].0) && seq_less(e[b].0, e[c].0) {
        lemma_seq_less_transitive(e[a].0, e[b].0, e[c].0);
    }
}

/// The children of `p` are `cs`: each pid whose parent is `p` once, ordered
/// by name, then pid.
pub open spec fn children_ok(e: Map<u32, (Seq<char>, Option<u32>)>, p: u32, cs: Seq<u32>) -> bool {
    &&& cs.no_duplicates()
    &&& forall|q: u32| cs.contains(q) <==> (e.contains_key(q) && e[q].1 == Some(p))
    &&& forall|i: int, j: int| 0 <= i < j < cs.len() ==> key_less(e, #[trigger] cs[i], #[trigger] cs[j])
}

/// The tree `m` holds the processes `procs`: one node per pid, with the
/// name and parent of its entry and its children in order.
pub open spec fn tree_of(m: Map<u32, ProcNode>, procs: Seq<ProcEntry>) -> bool {
    let e = entries_map(procs);
    &&& m.dom() == e.dom()
    &&& forall|p: u32|
        #[trigger] m.contains_key(p) ==> {
            &&& m[p].pid == p
            &&& m[p].name@ == e[p].0
            &&& m[p].parent == e[p].1
            &&& children_ok(e, p, m[p].children@)
        }
}

/// A copy of a string.
fn copy_string(s: &String) -> (r: String)
    ensures
        r@ == s@,
{
    string_of(&chars_of(s.as_str()))
}

/// Whether `v` is before `w` in `str`'s order.
pub fn str_less(v: &Vec<char>, w: &Vec<char>) -> (r: bool)
    ensures
        r == seq_less(v@, w@),
{
    let mut i: usize = 0;
    assert(v@.skip(0) =~= v@);
    assert(w@.skip(0) =~= w@);
    while i < v.len() && i < w.len() && v[i] == w[i]
        invariant
            i <= v.len(),
            i <= w.len(),
            v@.take(i as int) == w@.take(i as int),
            seq_less(v@, w@) == seq_less(v@.skip(i as int), w@.skip(i as int)),
        decreases v.len() - i,
    {
        assert(v@.skip(i as int).drop_first() =~= v@.skip(i + 1));
        assert(w@.skip(i as int).drop_first() =~= w@.skip(i + 1));
        assert(v@.skip(i as int)[0] == v@[i as int]);
        assert(w@.skip(i as int)[0] == w@[i as int]);
        i += 1;
        assert(v@.take(i as int) =~= w@.take(i as int));
    }
    if i == v.len() {
        i < w.len()
    } else if i == w.len() {
        false
    } else {
        assert(v@.skip(i as int)[0] == v@[i as int]);
        assert(w@.skip(i as int)[0] == w@[i as int]);
        v[i] < w[i]
    }
}


/// The names and parents held by the nodes of `m`.
pub open spec fn names_of(m: Map<u32, ProcNode>) -> Map<u32, (Seq<char>, Option<u32>)> {
    Map::new(|k: u32| m.contains_key(k), |k: u32| (m[k].name@, m[k].parent))
}

/// The nodes without children, one per pid with the name and parent of its
/// last entry, and the pids in the order they first appear.
fn base_nodes(procs: &Vec<ProcEntry>) -> (r: (HashMap<u32, ProcNode>, Vec<u32>))
    ensures
        names_of(r.0@) == entries_map(procs@),
        forall|p: u32| #[trigger] r.0@.contains_key(p) ==> r.0@[p].pid == p,
        r.1@.no_duplicates(),
        forall|p: u32| r.1@.contains(p) <==> r.0@.contains_key(p),
{
    let mut m: HashMap<u32, ProcNode> = HashMap::new();
    let mut keys: Vec<u32> = Vec::new();
    let mut i: usize = 0;
    while i < procs.len()
        invariant
            i <= procs.len(),
            names_of(m@) == entries_map(procs@.take(i as int)),
            forall|p: u32| #[trigger] m@.contains_key(p) ==> m@[p].pid == p,
            keys@.no_duplicates(),
            forall|p: u32| keys@.contains(p) <==> m@.contains_key(p),
        decreases procs.len() - i,
    {
        let e = &procs[i];
        assert(procs@.take(i + 1).drop_last() =~= procs@.take(i as int));
        assert(procs@.take(i + 1).last() == procs@[i as int]);
        let ghost old_keys = keys@;
        let ghost old_m = m@;
        if !m.contains_key(&e.pid) {
            keys.push(e.pid);
            assert forall|a: int, b: int| 0 <= a < b < keys@.len() implies keys@[a] != keys@[b] by {
                if b == keys@.len() - 1 {
                    assert(old_keys.contains(keys@[a]));
                }
            }
        }
        assert forall|p: u32| keys@.contains(p) <==> (old_m.contains_key(p) || p == e.pid) by {
            if keys@ != old_keys {
                vstd::seq_lib::lemma_seq_contains_after_push(old_keys, e.pid, p);
            }
        }
        let node = ProcNode { pid: e.pid, name: copy_string(&e.name), parent: e.parent, children: Vec::new() };
        m.insert(e.pid, node);
        assert(names_of(m@) =~= entries_map(procs@.take(i + 1)));
        i += 1;
    }
    assert(procs@.take(i as int) =~= procs@);
    (m, keys)
}

/// The node of pid `p`, which is in the map.
fn node_of(m: &HashMap<u32, ProcNode>, p: u32) -> (r: &ProcNode)
    requires
        m@.contains_key(p),
    ensures
        *r == m@[p],
{
    let r = m.get(&p);
    assert(r.is_some());
    r.unwrap()
}

/// Whether pid `a` comes before pid `b`, both in the map.
fn key_before(m: &HashMap<u32, ProcNode>, a: u32, b: u32) -> (r: bool)
    requires
        m@.contains_key(a),
        m@.contains_key(b),
    ensures
        r == key_less(names_of(m@), a, b),
{
    let na = chars_of(node_of(m, a).name.as_str());
    let nb = chars_of(node_of(m, b).name.as_str());
    str_less(&na, &nb) || (eq_chars(&na, &nb) && a < b)
}

/// The children of `p`: the pids of `keys` whose parent is `p`, ordered by
/// name, then pid.
fn sorted_children(m: &HashMap<u32, ProcNode>, keys: &Vec<u32>, p: u32) -> (cs: Vec<u32>)
    requires
        keys@.no_duplicates(),
        forall|q: u32| keys@.contains(q) <==> m@.contains_key(q),
    ensures
        children_ok(names_of(m@), p, cs@),
{
    let ghost e = names_of(m@);
    let mut cs: Vec<u32> = Vec::new();
    let mut t: usize = 0;
    while t < keys.len()
        invariant
            t <= keys.len(),
            e == names_of(m@),
            keys@.no_duplicates(),
            forall|q: u32| keys@.contains(q) <==> m@.contains_key(q),
            cs@.no_duplicates(),
            forall|q: u32| cs@.contains(q) <==> (keys@.take(t as int).contains(q) && e[q].1 == Some(p)),
            forall|q: u32| cs@.contains(q) ==> m@.contains_key(q),
            forall|i: int, j: int| 0 <= i < j < cs.len() ==> key_less(e, #[trigger] cs@[i], #[trigger] cs@[j]),
        decreases keys.len() - t,
    {
        let q = keys[t];
        assert(keys@.contains(q));
        assert(keys@.take(t + 1) =~= keys@.take(t as int).push(q));
        assert forall|x: u32| keys@.take(t + 1).contains(x) <==> (keys@.take(t as int).contains(x) || x == q) by {
            vstd::seq_lib::lemma_seq_contains_after_push(keys@.take(t as int), q, x);
        }
        assert(!keys@.take(t as int).contains(q)) by {
            if keys@.take(t as int).contains(q) {
                let w = choose|w: int| 0 <= w < t && keys@.take(t as int)[w] == q;
                assert(keys@[w] == keys@[t as int]);
            }
        }
        let node = node_of(m, q);
        assert(e.contains_key(q));
        assert(e[q] == (node.name@, node.parent));
        if node.parent == Some(p) {
            assert(!cs@.contains(q));
            assert forall|k: int| 0 <= k < cs.len() implies m@.contains_key(#[trigger] cs@[k]) by {
                assert(cs@.contains(cs@[k]));
            }
            let mut j: usize = cs.len();
            while j > 0 && key_before(m, q, cs[j - 1])
                invariant
                    j <= cs.len(),
                    e == names_of(m@),
                    m@.contains_key(q),
                    forall|k: int| 0 <= k < cs.len() ==> m@.contains_key(#[trigger] cs@[k]),
                    forall|k: int| j <= k < cs.len() ==> key_less(e, q, #[trigger] cs@[k]),
                decreases j,
            {
                assert(cs@.contains(cs@[j - 1]));
                j -= 1;
            }
            if j > 0 {
                assert(cs@.contains(cs@[j - 1]));
                assert(!key_less(e, q, cs@[j - 1]));
                assert(cs@[j - 1] != q);
                proof {
                    lemma_key_order(e, q, cs@[j - 1], q);
                }
                assert(key_less(e, cs@[j - 1], q));
            }
            let ghost old_cs = cs@;
            cs.insert(j, q);
            assert(cs@ =~= old_cs.take(j as int).push(q) + old_cs.skip(j as int));
            assert forall|a: int, b: int| 0 <= a < b < cs.len() implies key_less(e, #[trigger] cs@[a], #[trigger] cs@[b]) by {
                if b < j {
                    assert(cs@[a] == old_cs[a] && cs@[b] == old_cs[b]);
                } else if a > j {
                    assert(cs@[a] == old_cs[a - 1] && cs@[b] == old_cs[b - 1]);
                } else if a == j {
                    assert(cs@[b] == old_cs[b - 1]);
                } else if b == j {
                    assert(cs@[a] == old_cs[a]);
                    if a < j - 1 {
                        lemma_key_order(e, old_cs[a], old_cs[j - 1], q);
                    }
                } else {
                    assert(cs@[a] == old_cs[a] && cs@[b] == old_cs[b - 1]);
                    assert(key_less(e, old_cs[a], q)) by {
                        if a < j - 1 {
                            lemma_key_order(e, old_cs[a], old_cs[j - 1], q);
                        }
                    }
                    lemma_key_order(e, old_cs[a], q, old_cs[b - 1]);
                }
            }
            assert forall|a: int, b: int| 0 <= a < b < cs.len() implies cs@[a] != cs@[b] by {
                lemma_key_order(e, cs@[a], cs@[b], cs@[b]);
            }
            assert forall|x: u32| cs@.contains(x) <==> (old_cs.contains(x) || x == q) by {
                if cs@.contains(x) {
                    let w = choose|w: int| 0 <= w < cs.len() && cs@[w] == x;
                    if w < j {
                        assert(old_cs[w] == x);
                    } else if w > j {
                        assert(old_cs[w - 1] == x);
                    }
                }
                if old_cs.contains(x) {
                    let w = choose|w: int| 0 <= w < old_cs.len() && old_cs[w] == x;
                    if w < j {
                        assert(cs@[w] == x);
                    } else {
                        assert(cs@[w + 1] == x);
                    }
                }
                if x == q {
                    assert(cs@[j as int] == q);
                }
            }
            assert forall|x: u32| cs@.contains(x) <==> (keys@.take(t + 1).contains(x) && e[x].1 == Some(p)) by {
                assert(keys@.take(t + 1).contains(x) <==> (keys@.take(t as int).contains(x) || x == q));
                assert(old_cs.contains(x) <==> (keys@.take(t as int).contains(x) && e[x].1 == Some(p)));
            }
        } else {
            assert forall|x: u32| cs@.contains(x) <==> (keys@.take(t + 1).contains(x) && e[x].1 == Some(p)) by {
                assert(keys@.take(t + 1).contains(x) <==> (keys@.take(t as int).contains(x) || x == q));
            }
        }
        t += 1;
    }
    assert(keys@.take(t as int) =~= keys@);
    cs
}

/// The process tree of the processes `procs`: one node per pid, with the
/// name and parent of its last entry, and as children the pids whose parent
/// it is, ordered by name, then pid.
pub fn build_nodes(procs: &Vec<ProcEntry>) -> (r: HashMap<u32, ProcNode>)
    ensures
        tree_of(r@, procs@),
{
    let (base, keys) = base_nodes(procs);
    let ghost e = entries_map(procs@);
    let mut nodes: HashMap<u32, ProcNode> = HashMap::new();
    let mut t: usize = 0;
    while t < keys.len()
        invariant
            t <= keys.len(),
            e == entries_map(procs@),
            names_of(base@) == e,
            forall|p: u32| #[trigger] base@.contains_key(p) ==> base@[p].pid == p,
            keys@.no_duplicates(),
            forall|p: u32| keys@.contains(p) <==> base@.contains_key(p),
            forall|p: u32| nodes@.contains_key(p) <==> keys@.take(t as int).contains(p),
            forall|p: u32|
                #[trigger] nodes@.contains_key(p) ==> {
                    &&& nodes@[p].pid == p
                    &&& nodes@[p].name@ == e[p].0
                    &&& nodes@[p].parent == e[p].1
                    &&& children_ok(e, p, nodes@[p].children@)
                },
        decreases keys.len() - t,
    {
        let p = keys[t];
        assert(keys@.contains(p));
        assert(keys@.take(t + 1) =~= keys@.take(t as int).push(p));
        assert forall|x: u32| keys@.take(t + 1).contains(x) <==> (keys@.take(t as int).contains(x) || x == p) by {
            vstd::seq_lib::lemma_seq_contains_after_push(keys@.take(t as int), p, x);
        }
        let node = node_of(&base, p);
        assert(e[p] == (node.name@, node.parent));
        let cs = sorted_children(&base, &keys, p);
        let n = ProcNode { pid: p, name: copy_string(&node.name), parent: node.parent, children: cs };
        nodes.insert(p, n);
        t += 1;
    }
    assert(keys@.take(t as int) =~= keys@);
    assert(nodes@.dom() =~= e.dom());
    nodes
}


/// The parent of `pid` when both are in the tree.
pub open spec fn up(m: Map<u32, ProcNode>, pid: u32) -> Option<u32> {
    if m.contains_key(pid) {
        match m[pid].parent {
            Some(p) => if m.contains_key(p) {
                Some(p)
            } else {
                None
            },
            None => None,
        }
    } else {
        None
    }
}

/// The pids visited walking up from `pid`, after `seen`: a pid seen before
/// ends the walk, as does a pid without a parent in the tree; `fuel` bounds
/// the number of steps.
pub open spec fn walk(m: Map<u32, ProcNode>, pid: u32, seen: Seq<u32>, fuel: nat) -> Seq<u32>
    decreases fuel,
{
    if fuel == 0 || seen.contains(pid) {
        seen
    } else {
        match up(m, pid) {
            Some(p) => walk(m, p, seen.push(pid), (fuel - 1) as nat),
            None => seen.push(pid),
        }
    }
}

/// The path from the oldest ancestor of `selected` in the tree down to
/// `selected`. (Each step visits a new pid of the tree, so `m.dom().len() + 1`
/// steps always reach the end of the walk.)
pub open spec fn path_to(m: Map<u32, ProcNode>, selected: u32) -> Seq<u32> {
    walk(m, selected, Seq::empty(), m.dom().len() + 1).reverse()
}

/// Whether `v` holds `x`.
fn holds(v: &Vec<u32>, x: u32) -> (r: bool)
    ensures
        r == v@.contains(x),
{
    let mut i: usize = 0;
    while i < v.len()
        invariant
            i <= v.len(),
            forall|k: int| 0 <= k < i ==> v@[k] != x,
        decreases v.len() - i,
    {
        if v[i] == x {
            assert(v@[i as int] == x);
            return true;
        }
        i += 1;
    }
    false
}

/// The pids in reverse order.
fn reversed(v: &Vec<u32>) -> (r: Vec<u32>)
    ensures
        r@ == v@.reverse(),
{
    let mut out: Vec<u32> = Vec::new();
    let mut i: usize = v.len();
    while i > 0
        invariant
            i <= v.len(),
            out@ == v@.skip(i as int).reverse(),
        decreases i,
    {
        i -= 1;
        out.push(v[i]);
        assert(out@ =~= v@.skip(i as int).reverse());
    }
    assert(v@.skip(0) =~= v@);
    out
}

/// The path from the oldest ancestor of `selected` down to `selected`:
/// each step goes to the parent while it is in the tree and was not visited
/// yet (the visited pids are kept in a set).
pub fn build_path(selected: u32, nodes: &HashMap<u32, ProcNode>) -> (r: Vec<u32>)
    ensures
        r@ == path_to(nodes@, selected),
{
    let ghost m = nodes@;
    let ghost f: nat = m.dom().len() + 1;
    proof {
        vstd::std_specs::hash::axiom_hashmap_view_finite_dom(*nodes);
    }
    let mut path: Vec<u32> = Vec::new();
    let mut visited: HashSet<u32> = HashSet::new();
    let mut current: Option<u32> = Some(selected);
    loop
        invariant_except_break
            m == nodes@,
            forall|x: u32| #[trigger] visited@.contains(x) <==> path@.contains(x),
            m.dom().finite(),
            f == m.dom().len() + 1,
            path@.no_duplicates(),
            forall|x: u32| path@.contains(x) ==> x == selected || m.contains_key(x),
            path.len() <= f,
            match current {
                Some(c) => {
                    &&& (c == selected || m.contains_key(c))
                    &&& walk(m, selected, Seq::empty(), f) == walk(m, c, path@, (f - path.len()) as nat)
                },
                None => walk(m, selected, Seq::empty(), f) == path@,
            },
        ensures
            walk(m, selected, Seq::empty(), f) == path@,
        decreases f - path.len(),
    {
        match current {
            None => {
                break;
            },
            Some(pid) => {
                if !visited.insert(pid) {
                    break;
                }
                proof {
                    let s = path@.push(pid);
                    assert forall|a: int, b: int| 0 <= a < b < s.len() implies s[a] != s[b] by {
                        if b == s.len() - 1 {
                            assert(path@.contains(s[a]));
                        }
                    }
                    s.unique_seq_to_set();
                    let all = m.dom().insert(selected);
                    assert(s.to_set().subset_of(all)) by {
                        assert forall|x: u32| s.to_set().contains(x) implies all.contains(x) by {
                            vstd::seq_lib::lemma_seq_contains_after_push(path@, pid, x);
                        }
                    }
                    vstd::set_lib::lemma_len_subset(s.to_set(), all);
                }
                let next = match nodes.get(&pid) {
                    Some(node) => match node.parent {
                        Some(p) => if nodes.contains_key(&p) {
                            Some(p)
                        } else {
                            None
                        },
                        None => None,
                    },
                    None => None,
                };
                assert(next == up(m, pid));
                let ghost old_path = path@;
                path.push(pid);
                assert forall|x: u32| #[trigger] visited@.contains(x) <==> path@.contains(x) by {
                    vstd::seq_lib::lemma_seq_contains_after_push(old_path, pid, x);
                }
                assert forall|a: int, b: int| 0 <= a < b < path.len() implies path@[a] != path@[b] by {
                    if b == path.len() - 1 {
                        assert(old_path.contains(path@[a]));
                    }
                }
                assert forall|x: u32| path@.contains(x) implies x == selected || m.contains_key(x) by {
                    vstd::seq_lib::lemma_seq_contains_after_push(old_path, pid, x);
                }
                current = next;
            },
        }
    }
    reversed(&path)
}


/// An entry under a process in the drawn tree: a child process, or a run of
/// childless siblings with the same name shown as one line.
#[derive(Clone, Debug)]
pub enum ChildItem {
    Node(u32),
    Group { name: String, count: usize },
}

/// A child entry as plain values.
pub enum ChildView {
    Node(u32),
    Group(Seq<char>, nat),
}

/// A child entry as plain values.
pub open spec fn child_view(c: ChildItem) -> ChildView {
    match c {
        ChildItem::Node(p) => ChildView::Node(p),
        ChildItem::Group { name, count } => ChildView::Group(name@, count as nat),
    }
}

/// Child entries as plain values.
pub open spec fn child_views(v: Seq<ChildItem>) -> Seq<ChildView> {
    v.map_values(|c: ChildItem| child_view(c))
}

/// From index `j` of `cs` on: how many childless processes named `name`
/// follow (added to `count`; pids missing from the tree are passed over),
/// and the index where that run ends.
pub open spec fn run_of(cs: Seq<u32>, m: Map<u32, ProcNode>, name: Seq<char>, j: int, count: nat) -> (nat, int)
    decreases cs.len() - j,
{
    if j < 0 || j >= cs.len() {
        (count, j)
    } else if !m.contains_key(cs[j]) {
        run_of(cs, m, name, j + 1, count)
    } else if m[cs[j]].children@.len() > 0 || m[cs[j]].name@ != name {
        (count, j)
    } else {
        run_of(cs, m, name, j + 1, count + 1)
    }
}

pub proof fn lemma_run_of(cs: Seq<u32>, m: Map<u32, ProcNode>, name: Seq<char>, j: int, count: nat)
    requires
        0 <= j,
    ensures
        j <= run_of(cs, m, name, j, count).1,
        j <= cs.len() ==> run_of(cs, m, name, j, count).1 <= cs.len(),
        run_of(cs, m, name, j, count).0 >= count,
        j <= cs.len() ==> run_of(cs, m, name, j, count).0 <= count + (cs.len() - j),
    decreases cs.len() - j,
{
    if j < cs.len() {
        if !m.contains_key(cs[j]) {
            lemma_run_of(cs, m, name, j + 1, count);
        } else if !(m[cs[j]].children@.len() > 0 || m[cs[j]].name@ != name) {
            lemma_run_of(cs, m, name, j + 1, count + 1);
        }
    }
}

/// The entries for the children `cs` from index `i` on: a child with
/// children of its own is an entry; a childless child starts a run of
/// childless siblings with its name, which becomes one group entry when it
/// holds more than one process; pids missing from the tree are passed over.
pub open spec fn items_from(cs: Seq<u32>, m: Map<u32, ProcNode>, i: int) -> Seq<ChildView>
    decreases cs.len() - i,
{
    if i < 0 || i >= cs.len() {
        Seq::empty()
    } else if !m.contains_key(cs[i]) {
        items_from(cs, m, i + 1)
    } else if m[cs[i]].children@.len() > 0 {
        seq![ChildView::Node(cs[i])] + items_from(cs, m, i + 1)
    } else {
        let (count, j) = run_of(cs, m, m[cs[i]].name@, i + 1, 1);
        proof {
            lemma_run_of(cs, m, m[cs[i]].name@, i + 1, 1);
        }
        if count > 1 {
            seq![ChildView::Group(m[cs[i]].name@, count)] + items_from(cs, m, j)
        } else {
            seq![ChildView::Node(cs[i])] + items_from(cs, m, j)
        }
    }
}

/// The entries for the children `cs`; with grouping off, one per child.
pub open spec fn child_items(cs: Seq<u32>, m: Map<u32, ProcNode>, allow_group: bool) -> Seq<ChildView> {
    if allow_group {
        items_from(cs, m, 0)
    } else {
        cs.map_values(|p: u32| ChildView::Node(p))
    }
}

/// The entries shown for the children `children`.
pub fn build_child_items(children: &Vec<u32>, nodes: &HashMap<u32, ProcNode>, allow_group: bool) -> (r: Vec<ChildItem>)
    ensures
        child_views(r@) == child_items(children@, nodes@, allow_group),
{
    let ghost m = nodes@;
    let ghost cs = children@;
    let mut items: Vec<ChildItem> = Vec::new();
    if !allow_group {
        let mut k: usize = 0;
        while k < children.len()
            invariant
                k <= children.len(),
                child_views(items@) == children@.take(k as int).map_values(|p: u32| ChildView::Node(p)),
            decreases children.len() - k,
        {
            let ghost before = child_views(items@);
            items.push(ChildItem::Node(children[k]));
            assert(child_views(items@) =~= before.push(ChildView::Node(children@[k as int])));
            assert(children@.take(k + 1) =~= children@.take(k as int).push(children@[k as int]));
            assert(child_views(items@) =~= children@.take(k + 1).map_values(|p: u32| ChildView::Node(p)));
            k += 1;
        }
        assert(children@.take(k as int) =~= children@);
        return items;
    }
    let mut idx: usize = 0;
    while idx < children.len()
        invariant
            idx <= children.len(),
            m == nodes@,
            cs == children@,
            child_views(items@) + items_from(cs, m, idx as int) == items_from(cs, m, 0),
        decreases children.len() - idx,
    {
        let pid = children[idx];
        let ghost before = child_views(items@);
        match nodes.get(&pid) {
            None => {
                idx += 1;
            },
            Some(node) => {
                if node.children.len() > 0 {
                    items.push(ChildItem::Node(pid));
                    assert(child_views(items@) =~= before.push(ChildView::Node(pid)));
                    assert(child_views(items@) + items_from(cs, m, idx + 1) =~= before + items_from(
                        cs,
                        m,
                        idx as int,
                    ));
                    idx += 1;
                } else {
                    let name = chars_of(node.name.as_str());
                    let ghost nm = node.name@;
                    let mut count: usize = 1;
                    let start = idx;
                    idx += 1;
                    proof {
                        lemma_run_of(cs, m, nm, idx as int, 1);
                    }
                    while idx < children.len()
                        invariant
                            start < idx <= children.len(),
                            m == nodes@,
                            cs == children@,
                            name@ == nm,
                            1 <= count <= idx - start,
                            run_of(cs, m, nm, start + 1, 1) == run_of(cs, m, nm, idx as int, count as nat),
                        ensures
                            start < idx <= children.len(),
                            1 <= count,
                            run_of(cs, m, nm, start + 1, 1) == (count as nat, idx as int),
                        decreases children.len() - idx,
                    {
                        let next_pid = children[idx];
                        match nodes.get(&next_pid) {
                            None => {
                                idx += 1;
                            },
                            Some(next_node) => {
                                let other = chars_of(next_node.name.as_str());
                                if next_node.children.len() > 0 || !eq_chars(&other, &name) {
                                    break;
                                }
                                count += 1;
                                idx += 1;
                            },
                        }
                    }
                    assert(run_of(cs, m, nm, start + 1, 1) == (count as nat, idx as int));
                    if count > 1 {
                        let g = ChildItem::Group { name: string_of(&name), count };
                        items.push(g);
                        assert(child_views(items@) =~= before.push(ChildView::Group(nm, count as nat)));
                    } else {
                        items.push(ChildItem::Node(pid));
                        assert(child_views(items@) =~= before.push(ChildView::Node(pid)));
                    }
                    assert(child_views(items@) + items_from(cs, m, idx as int) =~= before + items_from(
                        cs,
                        m,
                        start as int,
                    ));
                }
            },
        }
    }
    assert(items_from(cs, m, idx as int) =~= Seq::<ChildView>::empty());
    assert(child_views(items@) + Seq::<ChildView>::empty() =~= child_views(items@));
    items
}


/// How a line of the process graph is drawn.
#[derive(Clone, Copy, Debug, PartialEq, Eq)]
pub enum LineKind {
    /// The selected process.
    Selected,
    /// Any other process.
    Process,
    /// A group of same-named processes.
    Group,
    /// A note about the drawing itself.
    Note,
}

/// One line of the process graph.
#[derive(Clone, Debug)]
pub struct GraphLine {
    pub text: String,
    pub kind: LineKind,
}

/// A graph line as plain values.
pub type LineText = (Seq<char>, LineKind);

/// The graph lines as plain values.
pub open spec fn graph_texts(v: Seq<GraphLine>) -> Seq<LineText> {
    v.map_values(|l: GraphLine| (l.text@, l.kind))
}

/// A tree line: the prefix, the connector (none for the root, `\-- ` for
/// a last child, `|-- ` for the others) and the label, cut to `width`.
pub open spec fn tree_line(prefix: Seq<char>, is_last: bool, is_root: bool, label: Seq<char>, width: nat) -> Seq<char> {
    let connector = if is_root {
        Seq::<char>::empty()
    } else if is_last {
        "\\-- "@
    } else {
        "|-- "@
    };
    fit_text_spec(prefix + connector + label, width)
}

/// A tree line.
pub fn render_line(prefix: &Vec<char>, is_last: bool, is_root: bool, label: &Vec<char>, width: usize) -> (s: String)
    ensures
        s@ == tree_line(prefix@, is_last, is_root, label@, width as nat),
{
    let mut out: Vec<char> = Vec::new();
    let mut i: usize = 0;
    while i < prefix.len()
        invariant
            i <= prefix.len(),
            out@ == prefix@.take(i as int),
        decreases prefix.len() - i,
    {
        out.push(prefix[i]);
        i += 1;
        assert(out@ =~= prefix@.take(i as int));
    }
    assert(prefix@.take(i as int) =~= prefix@);
    if !is_root {
        if is_last {
            push_str(&mut out, "\\-- ");
        } else {
            push_str(&mut out, "|-- ");
        }
    }
    let mut k: usize = 0;
    let ghost head = out@;
    while k < label.len()
        invariant
            k <= label.len(),
            out@ == head + label@.take(k as int),
        decreases label.len() - k,
    {
        out.push(label[k]);
        k += 1;
        assert(out@ =~= head + label@.take(k as int));
    }
    assert(label@.take(k as int) =~= label@);
    assert(!is_root || head =~= prefix@ + Seq::<char>::empty());
    fit_text(string_of(&out).as_str(), width)
}

/// The label of a process: its name (`<unknown>` when empty) and its pid.
pub open spec fn proc_label(n: ProcNode) -> Seq<char> {
    (if n.name@.len() == 0 {
        "<unknown>"@
    } else {
        n.name@
    }) + " ("@ + decimal(n.pid as nat) + ")"@
}

/// The pids of `c` that are on `path`, in order.
pub open spec fn on_path(c: Seq<u32>, path: Seq<u32>) -> Seq<u32>
    decreases c.len(),
{
    if c.len() == 0 {
        Seq::empty()
    } else if path.contains(c.last()) {
        on_path(c.drop_last(), path).push(c.last())
    } else {
        on_path(c.drop_last(), path)
    }
}

/// The children drawn under `pid`: all of them for the selected process
/// and for processes off the path, only those on the path for the
/// ancestors of the selected process.
pub open spec fn shown_children(m: Map<u32, ProcNode>, path: Seq<u32>, selected: u32, pid: u32) -> Seq<u32> {
    let c = m[pid].children@;
    if pid == selected {
        c
    } else if path.contains(pid) {
        on_path(c, path)
    } else {
        c
    }
}

/// The prefix for the children of a node.
pub open spec fn child_prefix(prefix: Seq<char>, is_last: bool, is_root: bool) -> Seq<char> {
    if is_root {
        Seq::empty()
    } else if is_last {
        prefix + "    "@
    } else {
        prefix + "|   "@
    }
}

/// The lines left after `used` of `max`.
pub open spec fn room(used: int, max: int) -> nat {
    if used <= max {
        (max - used) as nat
    } else {
        0
    }
}

/// The lines drawn for the subtree of `pid` with `room` lines left, and
/// whether the subtree fit: the process's own line, then its entries (see
/// `draw_items`). Drawing stops as soon as no line is left.
pub open spec fn draw_node(
    m: Map<u32, ProcNode>,
    path: Seq<u32>,
    selected: u32,
    width: nat,
    pid: u32,
    prefix: Seq<char>,
    is_last: bool,
    is_root: bool,
    room: nat,
) -> (Seq<LineText>, bool)
    decreases room, 0nat, 0nat,
{
    if room == 0 {
        (Seq::empty(), false)
    } else if !m.contains_key(pid) {
        (Seq::empty(), true)
    } else {
        let line = (
            tree_line(prefix, is_last, is_root, proc_label(m[pid]), width),
            if pid == selected {
                LineKind::Selected
            } else {
                LineKind::Process
            },
        );
        if room == 1 {
            (seq![line], false)
        } else {
            let items = child_items(
                shown_children(m, path, selected, pid),
                m,
                pid == selected || !path.contains(pid),
            );
            let (rest, ok) = draw_items(
                m,
                path,
                selected,
                width,
                items,
                0,
                child_prefix(prefix, is_last, is_root),
                (room - 1) as nat,
            );
            (seq![line] + rest, ok)
        }
    }
}

/// The lines drawn for the entries `items` from index `idx` on, with
/// `room` lines left, and whether they fit: a process entry is drawn as a
/// subtree, a group as one line `<name> (x<count>)`.
pub open spec fn draw_items(
    m: Map<u32, ProcNode>,
    path: Seq<u32>,
    selected: u32,
    width: nat,
    items: Seq<ChildView>,
    idx: int,
    prefix: Seq<char>,
    room: nat,
) -> (Seq<LineText>, bool)
    decreases room, 1nat, (if idx < items.len() { items.len() - idx } else { 0 }) as nat,
{
    if idx < 0 || idx >= items.len() {
        (Seq::empty(), true)
    } else {
        let last = idx + 1 == items.len();
        match items[idx] {
            ChildView::Node(c) => {
                let (a, ok) = draw_node(m, path, selected, width, c, prefix, last, false, room);
                if !ok {
                    (a, false)
                } else {
                    let left: nat = if a.len() <= room {
                        (room - a.len()) as nat
                    } else {
                        0
                    };
                    let (b, ok2) = draw_items(m, path, selected, width, items, idx + 1, prefix, left);
                    (a + b, ok2)
                }
            },
            ChildView::Group(name, count) => {
                if room == 0 {
                    (Seq::empty(), false)
                } else {
                    let line = (
                        tree_line(prefix, last, false, name + " (x"@ + decimal(count) + ")"@, width),
                        LineKind::Group,
                    );
                    let (b, ok2) = draw_items(
                        m,
                        path,
                        selected,
                        width,
                        items,
                        idx + 1,
                        prefix,
                        (room - 1) as nat,
                    );
                    (seq![line] + b, ok2)
                }
            },
        }
    }
}

/// A copy of the pids.
fn copy_pids(v: &Vec<u32>) -> (r: Vec<u32>)
    ensures
        r@ == v@,
{
    let mut out: Vec<u32> = Vec::new();
    let mut i: usize = 0;
    while i < v.len()
        invariant
            i <= v.len(),
            out@ == v@.take(i as int),
        decreases v.len() - i,
    {
        out.push(v[i]);
        i += 1;
        assert(out@ =~= v@.take(i as int));
    }
    assert(v@.take(i as int) =~= v@);
    out
}

/// The pids of `c` that are on `path`.
fn pids_on_path(c: &Vec<u32>, path: &Vec<u32>) -> (r: Vec<u32>)
    ensures
        r@ == on_path(c@, path@),
{
    let mut out: Vec<u32> = Vec::new();
    let mut i: usize = 0;
    while i < c.len()
        invariant
            i <= c.len(),
            out@ == on_path(c@.take(i as int), path@),
        decreases c.len() - i,
    {
        assert(c@.take(i + 1).drop_last() =~= c@.take(i as int));
        assert(c@.take(i + 1).last() == c@[i as int]);
        if holds(path, c[i]) {
            out.push(c[i]);
        }
        i += 1;
    }
    assert(c@.take(i as int) =~= c@);
    out
}

/// Appends the tree line of process `node`.
fn push_proc_line(
    lines: &mut Vec<GraphLine>,
    node: &ProcNode,
    prefix: &Vec<char>,
    is_last: bool,
    is_root: bool,
    kind: LineKind,
    width: usize,
)
    ensures
        graph_texts(final(lines)@) == graph_texts(old(lines)@).push(
            (tree_line(prefix@, is_last, is_root, proc_label(*node), width as nat), kind),
        ),
        final(lines).len() == old(lines).len() + 1,
{
    let name = chars_of(node.name.as_str());
    let mut label: Vec<char> = if name.len() == 0 {
        chars_of("<unknown>")
    } else {
        name
    };
    push_str(&mut label, " (");
    push_decimal(&mut label, node.pid as u64);
    push_str(&mut label, ")");
    assert(label@ =~= proc_label(*node));
    let text = render_line(prefix, is_last, is_root, &label, width);
    let ghost before = graph_texts(lines@);
    lines.push(GraphLine { text, kind });
    assert(graph_texts(lines@) =~= before.push((text@, kind)));
}

/// Appends the line of a group of `count` processes named `name`.
fn push_group_line(lines: &mut Vec<GraphLine>, name: &String, count: usize, prefix: &Vec<char>, is_last: bool, width: usize)
    ensures
        graph_texts(final(lines)@) == graph_texts(old(lines)@).push(
            (
                tree_line(prefix@, is_last, false, name@ + " (x"@ + decimal(count as nat) + ")"@, width as nat),
                LineKind::Group,
            ),
        ),
        final(lines).len() == old(lines).len() + 1,
{
    let mut label = chars_of(name.as_str());
    push_str(&mut label, " (x");
    push_decimal(&mut label, count as u64);
    push_str(&mut label, ")");
    let text = render_line(prefix, is_last, false, &label, width);
    let ghost before = graph_texts(lines@);
    lines.push(GraphLine { text, kind: LineKind::Group });
    assert(graph_texts(lines@) =~= before.push((text@, LineKind::Group)));
}

/// Draws the subtree of `pid` after the lines already drawn, stopping
/// when `max_lines` lines are drawn; whether the subtree fit.
#[verifier::spinoff_prover]
#[verifier::rlimit(60)]
pub fn render_node(
    pid: u32,
    prefix: &Vec<char>,
    is_last: bool,
    is_root: bool,
    nodes: &HashMap<u32, ProcNode>,
    path: &Vec<u32>,
    selected: u32,
    lines: &mut Vec<GraphLine>,
    max_lines: usize,
    width: usize,
    Ghost(left): Ghost<nat>,
) -> (ok: bool)
    requires
        left == room(old(lines).len() as int, max_lines as int),
    ensures
        ({
            let (out, done) = draw_node(
                nodes@,
                path@,
                selected,
                width as nat,
                pid,
                prefix@,
                is_last,
                is_root,
                room(old(lines).len() as int, max_lines as int),
            );
            graph_texts(final(lines)@) == graph_texts(old(lines)@) + out && ok == done
        }),
        old(lines).len() <= max_lines ==> final(lines).len() <= max_lines,
    decreases left,
{
    let ghost m = nodes@;
    let ghost start = graph_texts(lines@);
    let ghost l0 = lines.len() as int;
    if lines.len() >= max_lines {
        assert(graph_texts(lines@) =~= start + Seq::<LineText>::empty());
        return false;
    }
    let node = match nodes.get(&pid) {
        Some(n) => n,
        None => {
            assert(graph_texts(lines@) =~= start + Seq::<LineText>::empty());
            return true;
        },
    };
    let kind = if pid == selected {
        LineKind::Selected
    } else {
        LineKind::Process
    };
    push_proc_line(lines, node, prefix, is_last, is_root, kind, width);
    let ghost first = (tree_line(prefix@, is_last, is_root, proc_label(m[pid]), width as nat), kind);
    if lines.len() >= max_lines {
        assert(graph_texts(lines@) =~= start + seq![first]);
        return false;
    }
    let on = holds(path, pid);
    let child_pids = if pid == selected {
        copy_pids(&node.children)
    } else if on {
        pids_on_path(&node.children, path)
    } else {
        copy_pids(&node.children)
    };
    let allow = pid == selected || !on;
    assert(*node == m[pid]);
    assert(child_pids@ == shown_children(m, path@, selected, pid));
    let items = build_child_items(&child_pids, nodes, allow);
    let ghost iv = child_views(items@);
    assert(iv == child_items(shown_children(m, path@, selected, pid), m, pid == selected || !path@.contains(pid)));
    let next: Vec<char> = if is_root {
        Vec::new()
    } else if is_last {
        let mut p = copy_chars(prefix);
        push_str(&mut p, "    ");
        p
    } else {
        let mut p = copy_chars(prefix);
        push_str(&mut p, "|   ");
        p
    };
    assert(next@ =~= child_prefix(prefix@, is_last, is_root));
    let ghost r1 = room(l0 + 1, max_lines as int);
    let ghost all = draw_items(m, path@, selected, width as nat, iv, 0, next@, r1);
    let mut idx: usize = 0;
    while idx < items.len()
        invariant
            idx <= items.len(),
            m == nodes@,
            iv == child_views(items@),
            l0 < lines.len() <= max_lines,
            l0 < max_lines,
            l0 == old(lines).len(),
            start == graph_texts(old(lines)@),
            left == room(l0, max_lines as int),
            m.contains_key(pid),
            iv == child_items(shown_children(m, path@, selected, pid), m, pid == selected || !path@.contains(pid)),
            next@ == child_prefix(prefix@, is_last, is_root),
            first == (
                tree_line(prefix@, is_last, is_root, proc_label(m[pid]), width as nat),
                if pid == selected {
                    LineKind::Selected
                } else {
                    LineKind::Process
                },
            ),
            r1 == room(l0 + 1, max_lines as int),
            graph_texts(lines@).take(l0 + 1) == start.push(first),
            start.len() == l0,
            all == draw_items(m, path@, selected, width as nat, iv, 0, next@, r1),
            ({
                let now = draw_items(m, path@, selected, width as nat, iv, idx as int, next@, room(lines.len() as int, max_lines as int));
                all.0 == graph_texts(lines@).skip(l0 + 1) + now.0 && all.1 == now.1
            }),
        decreases items.len() - idx,
    {
        let last = idx + 1 == items.len();
        let ghost before = graph_texts(lines@);
        let ghost rm = room(lines.len() as int, max_lines as int);
        assert(graph_texts(lines@) =~= graph_texts(lines@).take(l0 + 1) + graph_texts(lines@).skip(l0 + 1));
        match &items[idx] {
            ChildItem::Node(c) => {
                assert(iv[idx as int] == ChildView::Node(*c));
                assert(room(lines.len() as int, max_lines as int) < room(l0, max_lines as int));
                let ok = render_node(*c, &next, last, false, nodes, path, selected, lines, max_lines, width, Ghost(rm));
                let ghost a = draw_node(m, path@, selected, width as nat, *c, next@, last, false, rm).0;
                assert(graph_texts(lines@) == before + a);
                assert(graph_texts(lines@).take(l0 + 1) =~= start.push(first));
                assert(graph_texts(lines@).skip(l0 + 1) =~= before.skip(l0 + 1) + a);
                assert(graph_texts(lines@) =~= graph_texts(lines@).take(l0 + 1) + graph_texts(lines@).skip(l0 + 1));
                if !ok {
                    assert(draw_items(m, path@, selected, width as nat, iv, idx as int, next@, rm).0 == a);
                    assert(!draw_items(m, path@, selected, width as nat, iv, idx as int, next@, rm).1);
                    assert(!all.1);
                    assert(graph_texts(lines@) =~= start + (seq![first] + all.0));
                    assert(r1 == room(l0, max_lines as int) - 1);
                    return false;
                }
            },
            ChildItem::Group { name, count } => {
                assert(iv[idx as int] == ChildView::Group(name@, *count as nat));
                if lines.len() >= max_lines {
                    assert(rm == 0);
                    assert(graph_texts(lines@) =~= start + (seq![first] + all.0));
                    assert(r1 == room(l0, max_lines as int) - 1);
                    return false;
                }
                push_group_line(lines, name, *count, &next, last, width);
                assert(graph_texts(lines@).take(l0 + 1) =~= start.push(first));
                assert(graph_texts(lines@).skip(l0 + 1) =~= before.skip(l0 + 1) + seq![graph_texts(lines@).last()]);
            },
        }
        idx += 1;
    }
    assert(graph_texts(lines@) =~= graph_texts(lines@).take(l0 + 1) + graph_texts(lines@).skip(l0 + 1));
    assert(graph_texts(lines@) =~= start + (seq![first] + all.0));
    assert(r1 == room(l0, max_lines as int) - 1);
    true
}

/// A copy of the characters.
fn copy_chars(v: &Vec<char>) -> (r: Vec<char>)
    ensures
        r@ == v@,
{
    let mut out: Vec<char> = Vec::new();
    let mut i: usize = 0;
    while i < v.len()
        invariant
            i <= v.len(),
            out@ == v@.take(i as int),
        decreases v.len() - i,
    {
        out.push(v[i]);
        i += 1;
        assert(out@ =~= v@.take(i as int));
    }
    assert(v@.take(i as int) =~= v@);
    out
}


/// What the process graph panel shows.
#[derive(Clone, Debug)]
pub enum ProcessGraph {
    /// No process is selected.
    NoSelection,
    /// The selected process is not in the process table.
    Unavailable,
    /// The tree lines.
    Lines(Vec<GraphLine>),
}

/// The lines of the graph around `selected` in a panel of `max_lines` lines
/// of `width` columns: the tree from the oldest ancestor, drawn along the
/// path to `selected` (see `draw_node`); when it does not fit, its last
/// line gives way to a `... truncated ...` note; with no line at all, a
/// `No process data` note.
pub open spec fn graph_lines(m: Map<u32, ProcNode>, selected: u32, max_lines: nat, width: nat) -> Seq<LineText> {
    let path = path_to(m, selected);
    let root = if path.len() > 0 {
        path[0]
    } else {
        selected
    };
    let (out, ok) = draw_node(m, path, selected, width, root, Seq::empty(), true, true, max_lines);
    let cut = if ok {
        out
    } else {
        (if out.len() > 0 {
            out.drop_last()
        } else {
            out
        }).push((fit_text_spec("... truncated ..."@, width), LineKind::Note))
    };
    if cut.len() == 0 {
        seq![("No process data"@, LineKind::Note)]
    } else {
        cut
    }
}

/// The process graph of the tree `nodes` around the selected process, for
/// a panel of `max_lines` lines of `width` columns.
pub fn render_process_graph(
    nodes: &HashMap<u32, ProcNode>,
    selected: Option<u32>,
    max_lines: usize,
    width: usize,
) -> (r: ProcessGraph)
    ensures
        match selected {
            None => r is NoSelection,
            Some(sel) => if !nodes@.contains_key(sel) {
                r is Unavailable
            } else {
                r matches ProcessGraph::Lines(v) && graph_texts(v@) == graph_lines(
                    nodes@,
                    sel,
                    max_lines as nat,
                    width as nat,
                )
            },
        },
{
    let sel = match selected {
        None => {
            return ProcessGraph::NoSelection;
        },
        Some(s) => s,
    };
    if !nodes.contains_key(&sel) {
        return ProcessGraph::Unavailable;
    }
    let path = build_path(sel, nodes);
    let root = if path.len() > 0 {
        path[0]
    } else {
        sel
    };
    let mut lines: Vec<GraphLine> = Vec::new();
    let prefix: Vec<char> = Vec::new();
    assert(prefix@ =~= Seq::<char>::empty());
    let complete = render_node(
        root,
        &prefix,
        true,
        true,
        nodes,
        &path,
        sel,
        &mut lines,
        max_lines,
        width,
        Ghost(room(0, max_lines as int)),
    );
    assert(graph_texts(lines@) =~= Seq::<LineText>::empty() + graph_texts(lines@));
    if !complete {
        if lines.len() > 0 {
            let ghost before = graph_texts(lines@);
            lines.pop();
            assert(graph_texts(lines@) =~= before.drop_last());
        }
        let text = fit_text("... truncated ...", width);
        let ghost before = graph_texts(lines@);
        lines.push(GraphLine { text, kind: LineKind::Note });
        assert(graph_texts(lines@) =~= before.push((text@, LineKind::Note)));
    }
    if lines.len() == 0 {
        let text = string_of(&chars_of("No process data"));
        lines.push(GraphLine { text, kind: LineKind::Note });
        assert(graph_texts(lines@) =~= seq![("No process data"@, LineKind::Note)]);
    }
    ProcessGraph::Lines(lines)
}


/// A subtree drawn with `room` lines left never takes more than `room`
/// lines.
pub proof fn lemma_draw_node_fits(
    m: Map<u32, ProcNode>,
    path: Seq<u32>,
    selected: u32,
    width: nat,
    pid: u32,
    prefix: Seq<char>,
    is_last: bool,
    is_root: bool,
    room: nat,
)
    ensures
        draw_node(m, path, selected, width, pid, prefix, is_last, is_root, room).0.len() <= room,
    decreases room, 0nat, 0nat,
{
    if room > 1 && m.contains_key(pid) {
        let items = child_items(
            shown_children(m, path, selected, pid),
            m,
            pid == selected || !path.contains(pid),
        );
        lemma_draw_items_fit(
            m,
            path,
            selected,
            width,
            items,
            0,
            child_prefix(prefix, is_last, is_root),
            (room - 1) as nat,
        );
    }
}

/// Entries drawn with `room` lines left never take more than `room` lines.
pub proof fn lemma_draw_items_fit(
    m: Map<u32, ProcNode>,
    path: Seq<u32>,
    selected: u32,
    width: nat,
    items: Seq<ChildView>,
    idx: int,
    prefix: Seq<char>,
    room: nat,
)
    ensures
        draw_items(m, path, selected, width, items, idx, prefix, room).0.len() <= room,
    decreases room, 1nat, (if idx < items.len() { items.len() - idx } else { 0 }) as nat,
{
    if 0 <= idx < items.len() {
        let last = idx + 1 == items.len();
        match items[idx] {
            ChildView::Node(c) => {
                lemma_draw_node_fits(m, path, selected, width, c, prefix, last, false, room);
                let (a, ok) = draw_node(m, path, selected, width, c, prefix, last, false, room);
                if ok {
                    let left: nat = if a.len() <= room {
                        (room - a.len()) as nat
                    } else {
                        0
                    };
                    lemma_draw_items_fit(m, path, selected, width, items, idx + 1, prefix, left);
                }
            },
            ChildView::Group(_name, _count) => {
                if room > 0 {
                    lemma_draw_items_fit(m, path, selected, width, items, idx + 1, prefix, (room - 1) as nat);
                }
            },
        }
    }
}

/// The process graph never has more lines than the panel: with room for
/// `max_lines >= 1` lines it holds at most `max_lines`.
pub proof fn lemma_graph_fits_panel(m: Map<u32, ProcNode>, selected: u32, max_lines: nat, width: nat)
    requires
        max_lines >= 1,
    ensures
        graph_lines(m, selected, max_lines, width).len() <= max_lines,
{
    let path = path_to(m, selected);
    let root = if path.len() > 0 {
        path[0]
    } else {
        selected
    };
    lemma_draw_node_fits(m, path, selected, width, root, Seq::empty(), true, true, max_lines);
}

/// The pids visited are a chain up the tree: all in the tree, each one
/// once, each followed by its parent.
pub open spec fn chain_ok(m: Map<u32, ProcNode>, s: Seq<u32>) -> bool {
    &&& s.no_duplicates()
    &&& forall|i: int| 0 <= i < s.len() ==> m.contains_key(#[trigger] s[i])
    &&& forall|i: int| 0 <= i < s.len() - 1 ==> up(m, #[trigger] s[i]) == Some(s[i + 1])
}

proof fn lemma_walk_chain(m: Map<u32, ProcNode>, pid: u32, seen: Seq<u32>, fuel: nat)
    requires
        chain_ok(m, seen),
        m.contains_key(pid),
        seen.len() > 0 ==> up(m, seen.last()) == Some(pid),
    ensures
        chain_ok(m, walk(m, pid, seen, fuel)),
        walk(m, pid, seen, fuel).len() >= seen.len(),
        walk(m, pid, seen, fuel).take(seen.len() as int) == seen,
        fuel > 0 && seen.len() == 0 ==> walk(m, pid, seen, fuel).len() > 0 && walk(m, pid, seen, fuel)[0] == pid,
    decreases fuel,
{
    if fuel == 0 || seen.contains(pid) {
        assert(seen.take(seen.len() as int) =~= seen);
    } else {
        let s = seen.push(pid);
        assert(chain_ok(m, s)) by {
            assert forall|a: int, b: int| 0 <= a < b < s.len() implies s[a] != s[b] by {
                if b == s.len() - 1 {
                    assert(seen.contains(s[a]));
                }
            }
            assert forall|i: int| 0 <= i < s.len() - 1 implies up(m, #[trigger] s[i]) == Some(s[i + 1]) by {
                if i == s.len() - 2 {
                    assert(s[i] == seen.last());
                }
            }
        }
        match up(m, pid) {
            Some(p) => {
                lemma_walk_chain(m, p, s, (fuel - 1) as nat);
                let w = walk(m, p, s, (fuel - 1) as nat);
                assert(w.take(s.len() as int) == s);
                assert(w.take(seen.len() as int) =~= s.take(seen.len() as int));
                assert(s.take(seen.len() as int) =~= seen);
                if seen.len() == 0 {
                    assert(w[0] == w.take(s.len() as int)[0]);
                }
            },
            None => {
                assert(s.take(seen.len() as int) =~= seen);
            },
        }
    }
}

/// The path shown for a process of the tree starts at its oldest ancestor
/// and ends at the process itself, each process on it once and each the
/// parent of the next.
pub proof fn lemma_path_links(m: Map<u32, ProcNode>, selected: u32)
    requires
        m.contains_key(selected),
    ensures
        path_to(m, selected).len() >= 1,
        path_to(m, selected).last() == selected,
        path_to(m, selected).no_duplicates(),
        forall|i: int| 0 <= i < path_to(m, selected).len() ==> m.contains_key(#[trigger] path_to(m, selected)[i]),
        forall|i: int|
            0 <= i < path_to(m, selected).len() - 1 ==> m[#[trigger] path_to(m, selected)[i + 1]].parent
                == Some(path_to(m, selected)[i]),
{
    let f: nat = m.dom().len() + 1;
    let w = walk(m, selected, Seq::empty(), f);
    lemma_walk_chain(m, selected, Seq::empty(), f);
    let p = w.reverse();
    assert(p == path_to(m, selected));
    assert(p.last() == w[0]);
    assert forall|a: int, b: int| 0 <= a < b < p.len() implies p[a] != p[b] by {
        assert(p[a] == w[w.len() - 1 - a] && p[b] == w[w.len() - 1 - b]);
    }
    assert forall|i: int| 0 <= i < p.len() implies m.contains_key(#[trigger] p[i]) by {
        assert(p[i] == w[w.len() - 1 - i]);
    }
    assert forall|i: int| 0 <= i < p.len() - 1 implies m[#[trigger] p[i + 1]].parent == Some(p[i]) by {
        let j = w.len() - 2 - i;
        assert(p[i + 1] == w[j] && p[i] == w[j + 1]);
        assert(up(m, w[j]) == Some(w[j + 1]));
    }
}

} // verus!
