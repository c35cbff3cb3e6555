//! What the neighbour graph of a tree holds: exactly the tree's neighbours of
//! each name, and, when the tree's names are distinct, none of them twice.
use vstd::prelude::*;

use crate::common::config::{Node, Point};
use crate::forward::dijkstra::{graph_after, graph_forest, link};
use crate::forward::routes::point_of;
use crate::laws::{ends_with, lemma_ends_with_contains, lemma_link_grows};

verus! {

broadcast use vstd::std_specs::vec::group_vec_axioms;

/// The `(parent, child)` pairs of the tree below `node`, in depth-first order.
pub open spec fn tree_edges(node: Node) -> Seq<(Node, Node)>
    decreases node, 1int,
{
    match node.next {
        Some(v) => {
            proof {
                assert(decreases_to!(node => node.next));
                assert(decreases_to!(node.next => v));
                assert(decreases_to!(v => v@));
            }
            forest_edges(node, v@)
        },
        None => Seq::empty(),
    }
}

/// The `(parent, child)` pairs of the subtrees `kids` below `parent`, in order.
pub open spec fn forest_edges(parent: Node, kids: Seq<Option<Node>>) -> Seq<(Node, Node)>
    decreases kids, 0int,
{
    if kids.len() == 0 {
        Seq::empty()
    } else {
        let rest = forest_edges(parent, kids.drop_last());
        match kids.last() {
            Some(c) => {
                proof {
                    assert(decreases_to!(kids => kids[kids.len() - 1]));
                }
                rest + seq![(parent, c)] + tree_edges(c)
            },
            None => rest,
        }
    }
}

/// The names of the tree below and at `node`, in depth-first order.
pub open spec fn tree_names(node: Node) -> Seq<Seq<char>>
    decreases node, 1int,
{
    match node.next {
        Some(v) => {
            proof {
                assert(decreases_to!(node => node.next));
                assert(decreases_to!(node.next => v));
                assert(decreases_to!(v => v@));
            }
            seq![node.name@] + forest_names(v@)
        },
        None => seq![node.name@],
    }
}

/// The names of the subtrees `kids`, in order.
pub open spec fn forest_names(kids: Seq<Option<Node>>) -> Seq<Seq<char>>
    decreases kids, 0int,
{
    if kids.len() == 0 {
        Seq::empty()
    } else {
        let rest = forest_names(kids.drop_last());
        match kids.last() {
            Some(c) => {
                proof {
                    assert(decreases_to!(kids => kids[kids.len() - 1]));
                }
                rest + tree_names(c)
            },
            None => rest,
        }
    }
}

/// The graph after linking the pairs in order, each both ways, parent first.
pub open spec fn apply_edges(m: Map<Seq<char>, Seq<Point>>, es: Seq<(Node, Node)>) -> Map<
    Seq<char>,
    Seq<Point>,
>
    decreases es.len(),
{
    if es.len() == 0 {
        m
    } else {
        let e = es.last();
        link(link(apply_edges(m, es.drop_last()), e.0, e.1), e.1, e.0)
    }
}

/// `q` is the point of a neighbour of the name `k` by the pair `e`.
pub open spec fn adjacent_by(e: (Node, Node), k: Seq<char>, q: Point) -> bool {
    ||| e.0.name@ == k && q == point_of(e.1)
    ||| e.1.name@ == k && q == point_of(e.0)
}

/// `q` is the point of a neighbour of the name `k` by one of the pairs.
pub open spec fn adjacent(es: Seq<(Node, Node)>, k: Seq<char>, q: Point) -> bool {
    exists|i: int| 0 <= i < es.len() && adjacent_by(#[trigger] es[i], k, q)
}

proof fn lemma_apply_concat(m: Map<Seq<char>, Seq<Point>>, a: Seq<(Node, Node)>, b: Seq<(Node, Node)>)
    ensures
        apply_edges(m, a + b) == apply_edges(apply_edges(m, a), b),
    decreases b.len(),
{
    if b.len() == 0 {
        assert(a + b =~= a);
    } else {
        lemma_apply_concat(m, a, b.drop_last());
        assert((a + b).drop_last() =~= a + b.drop_last());
        assert((a + b).last() == b.last());
    }
}

/// Linking a tree is linking its pairs in depth-first order.
pub proof fn lemma_graph_is_apply(m: Map<Seq<char>, Seq<Point>>, node: Node)
    ensures
        graph_after(m, node) == apply_edges(m, tree_edges(node)),
    decreases node, 1int,
{
    match node.next {
        Some(v) => {
            assert(decreases_to!(node => node.next));
            assert(decreases_to!(node.next => v));
            assert(decreases_to!(v => v@));
            lemma_forest_is_apply(m, node, v@);
        },
        None => {},
    }
}

proof fn lemma_forest_is_apply(m: Map<Seq<char>, Seq<Point>>, parent: Node, kids: Seq<Option<Node>>)
    ensures
        graph_forest(m, parent, kids) == apply_edges(m, forest_edges(parent, kids)),
    decreases kids, 0int,
{
    if kids.len() > 0 {
        lemma_forest_is_apply(m, parent, kids.drop_last());
        let rest = forest_edges(parent, kids.drop_last());
        match kids.last() {
            Some(c) => {
                assert(decreases_to!(kids => kids[kids.len() - 1]));
                let pair = seq![(parent, c)];
                lemma_apply_concat(m, rest, pair);
                assert(pair.drop_last() =~= Seq::<(Node, Node)>::empty());
                assert(pair.last() == (parent, c));
                let x = apply_edges(m, rest);
                assert(apply_edges(x, pair.drop_last()) == x);
                assert(apply_edges(x, pair) == link(link(x, parent, c), c, parent));
                let m2 = apply_edges(m, rest + pair);
                assert(m2 == link(link(apply_edges(m, rest), parent, c), c, parent));
                lemma_graph_is_apply(m2, c);
                lemma_apply_concat(m, rest + pair, tree_edges(c));
            },
            None => {},
        }
    }
}

proof fn lemma_link_only(m: Map<Seq<char>, Seq<Point>>, a: Node, b: Node, k: Seq<char>, q: Point)
    requires
        link(m, a, b).contains_key(k),
        link(m, a, b)[k].contains(q),
    ensures
        (m.contains_key(k) && m[k].contains(q)) || (k == a.name@ && q == point_of(b)),
{
    if k == a.name@ && m.contains_key(k) && q != point_of(b) {
        let l = seq![point_of(b)] + m[k];
        let j = choose|j: int| 0 <= j < l.len() && l[j] == q;
        assert(m[k][j - 1] == q);
    }
}

/// Every point in a list after linking came from the list before, or from a
/// pair that makes it a neighbour.
pub proof fn lemma_apply_only(m: Map<Seq<char>, Seq<Point>>, es: Seq<(Node, Node)>, k: Seq<char>, q: Point)
    requires
        apply_edges(m, es).contains_key(k),
        apply_edges(m, es)[k].contains(q),
    ensures
        (m.contains_key(k) && m[k].contains(q)) || adjacent(es, k, q),
    decreases es.len(),
{
    if es.len() > 0 {
        let init = es.drop_last();
        let e = es.last();
        let m1 = apply_edges(m, init);
        let l1 = link(m1, e.0, e.1);
        lemma_link_only(l1, e.1, e.0, k, q);
        if l1.contains_key(k) && l1[k].contains(q) {
            lemma_link_only(m1, e.0, e.1, k, q);
        }
        assert(es[es.len() - 1] == e);
        if m1.contains_key(k) && m1[k].contains(q) {
            lemma_apply_only(m, init, k, q);
            if adjacent(init, k, q) {
                let i = choose|i: int| 0 <= i < init.len() && adjacent_by(#[trigger] init[i], k, q);
                assert(es[i] == init[i]);
            }
        } else {
            assert(adjacent_by(es[es.len() - 1], k, q));
        }
    }
}

/// Every neighbour by a pair is in the list of the name after linking.
pub proof fn lemma_apply_has(m: Map<Seq<char>, Seq<Point>>, es: Seq<(Node, Node)>, k: Seq<char>, q: Point)
    requires
        adjacent(es, k, q),
    ensures
        apply_edges(m, es).contains_key(k),
        apply_edges(m, es)[k].contains(q),
    decreases es.len(),
{
    let init = es.drop_last();
    let e = es.last();
    let m1 = apply_edges(m, init);
    let l1 = link(m1, e.0, e.1);
    let g = link(l1, e.1, e.0);
    let i = choose|i: int| 0 <= i < es.len() && adjacent_by(#[trigger] es[i], k, q);
    if i < es.len() - 1 {
        assert(init[i] == es[i]);
        lemma_apply_has(m, init, k, q);
        lemma_link_grows(m1, e.0, e.1, k);
        lemma_ends_with_contains(l1[k], m1[k], q);
        lemma_link_grows(l1, e.1, e.0, k);
        lemma_ends_with_contains(g[k], l1[k], q);
    } else {
        assert(es[i] == e);
        if e.1.name@ == k && q == point_of(e.0) {
            assert(g[k][0] == q);
        } else {
            assert(l1[k][0] == q);
            lemma_link_grows(l1, e.1, e.0, k);
            lemma_ends_with_contains(g[k], l1[k], q);
        }
    }
}

/// The graph of a tree holds, under each name, exactly the points of that
/// name's neighbours in the tree: its parent and the children below it.
pub proof fn law_graph_holds_tree_neighbours(root: Node, k: Seq<char>, q: Point)
    ensures
        (graph_after(Map::empty(), root).contains_key(k) && graph_after(Map::empty(), root)[k].contains(
            q,
        )) <==> adjacent(tree_edges(root), k, q),
{
    lemma_graph_is_apply(Map::empty(), root);
    if graph_after(Map::empty(), root).contains_key(k) && graph_after(Map::empty(), root)[k].contains(
        q,
    ) {
        lemma_apply_only(Map::empty(), tree_edges(root), k, q);
    }
    if adjacent(tree_edges(root), k, q) {
        lemma_apply_has(Map::empty(), tree_edges(root), k, q);
    }
}

/// The children's names of the pairs, in order.
pub open spec fn child_names(es: Seq<(Node, Node)>) -> Seq<Seq<char>> {
    es.map_values(|e: (Node, Node)| e.1.name@)
}

/// No child name comes twice, and no pair's parent is named as the child of
/// the same or a later pair.
pub open spec fn edges_ok(es: Seq<(Node, Node)>) -> bool {
    &&& forall|i: int, j: int|
        0 <= i < es.len() && 0 <= j < es.len() && i != j ==> (#[trigger] es[i]).1.name@ != (
        #[trigger] es[j]).1.name@
    &&& forall|i: int, j: int|
        0 <= j <= i < es.len() ==> (#[trigger] es[j]).0.name@ != (#[trigger] es[i]).1.name@
}

proof fn lemma_edges_ok_init(es: Seq<(Node, Node)>)
    requires
        edges_ok(es),
        es.len() > 0,
    ensures
        edges_ok(es.drop_last()),
{
    let init = es.drop_last();
    assert forall|i: int, j: int|
        0 <= i < init.len() && 0 <= j < init.len() && i != j implies (#[trigger] init[i]).1.name@
        != (#[trigger] init[j]).1.name@ by {
        assert(init[i] == es[i] && init[j] == es[j]);
    }
    assert forall|i: int, j: int| 0 <= j <= i < init.len() implies (#[trigger] init[j]).0.name@
        != (#[trigger] init[i]).1.name@ by {
        assert(init[i] == es[i] && init[j] == es[j]);
    }
}

proof fn lemma_prepend_no_dup(x: Point, s: Seq<Point>)
    requires
        s.no_duplicates(),
        !s.contains(x),
    ensures
        (seq![x] + s).no_duplicates(),
{
    let t = seq![x] + s;
    assert forall|a: int, b: int| 0 <= a < t.len() && 0 <= b < t.len() && a != b implies t[a]
        != t[b] by {
        if a == 0 {
            assert(t[b] == s[b - 1]);
        } else if b == 0 {
            assert(t[a] == s[a - 1]);
        } else {
            assert(t[a] == s[a - 1] && t[b] == s[b - 1]);
        }
    }
}

/// Linking pairs whose names are in order, starting from an empty graph,
/// puts no point twice in a list.
pub proof fn lemma_apply_no_dup(es: Seq<(Node, Node)>, k: Seq<char>)
    requires
        edges_ok(es),
        apply_edges(Map::empty(), es).contains_key(k),
    ensures
        apply_edges(Map::empty(), es)[k].no_duplicates(),
    decreases es.len(),
{
    let n = es.len() - 1;
    let init = es.drop_last();
    let e = es.last();
    assert(es[n] == e);
    let p = e.0;
    let c = e.1;
    let m1 = apply_edges(Map::empty(), init);
    let l1 = link(m1, p, c);
    let g = link(l1, c, p);
    lemma_edges_ok_init(es);
    assert(p.name@ != c.name@);
    if k == c.name@ {
        if m1.contains_key(k) {
            lemma_apply_no_dup(init, k);
            if m1[k].contains(point_of(p)) {
                lemma_apply_only(Map::empty(), init, k, point_of(p));
                let j = choose|j: int| 0 <= j < init.len() && adjacent_by(#[trigger] init[j], k, point_of(p));
                assert(init[j] == es[j]);
            }
            lemma_prepend_no_dup(point_of(p), m1[k]);
        } else {
            assert(g[k] =~= seq![point_of(p)]);
        }
    } else if k == p.name@ {
        assert(g[k] == l1[k]);
        if m1.contains_key(k) {
            lemma_apply_no_dup(init, k);
            if m1[k].contains(point_of(c)) {
                lemma_apply_only(Map::empty(), init, k, point_of(c));
                let j = choose|j: int| 0 <= j < init.len() && adjacent_by(#[trigger] init[j], k, point_of(c));
                assert(init[j] == es[j]);
            }
            lemma_prepend_no_dup(point_of(c), m1[k]);
        } else {
            assert(g[k] =~= seq![point_of(c)]);
        }
    } else {
        assert(g[k] == m1[k]);
        lemma_apply_no_dup(init, k);
    }
}

pub proof fn lemma_tree_child_names(node: Node)
    ensures
        child_names(tree_edges(node)) == tree_names(node).drop_first(),
    decreases node, 1int,
{
    match node.next {
        Some(v) => {
            assert(decreases_to!(node => node.next));
            assert(decreases_to!(node.next => v));
            assert(decreases_to!(v => v@));
            lemma_forest_child_names(node, v@);
            assert((seq![node.name@] + forest_names(v@)).drop_first() =~= forest_names(v@));
        },
        None => {
            assert(child_names(Seq::<(Node, Node)>::empty()) =~= seq![node.name@].drop_first());
        },
    }
}

pub proof fn lemma_forest_child_names(parent: Node, kids: Seq<Option<Node>>)
    ensures
        child_names(forest_edges(parent, kids)) == forest_names(kids),
    decreases kids, 0int,
{
    if kids.len() == 0 {
        assert(child_names(Seq::<(Node, Node)>::empty()) =~= Seq::<Seq<char>>::empty());
    } else {
        lemma_forest_child_names(parent, kids.drop_last());
        match kids.last() {
            Some(c) => {
                assert(decreases_to!(kids => kids[kids.len() - 1]));
                lemma_tree_child_names(c);
                let rest = forest_edges(parent, kids.drop_last());
                let tn = tree_names(c);
                assert(tn[0] == c.name@);
                assert(tn =~= seq![c.name@] + tn.drop_first());
                assert(child_names(rest + seq![(parent, c)] + tree_edges(c)) =~= child_names(rest)
                    + seq![c.name@] + child_names(tree_edges(c)));
                assert(forest_names(kids.drop_last()) + tn =~= forest_names(kids.drop_last())
                    + seq![c.name@] + tn.drop_first());
            },
            None => {},
        }
    }
}

/// Each pair's parent is the top node or the child of an earlier pair.
pub proof fn lemma_tree_parents(node: Node, i: int)
    requires
        0 <= i < tree_edges(node).len(),
    ensures
        tree_edges(node)[i].0.name@ == node.name@ || exists|j: int|
            0 <= j < i && (#[trigger] tree_edges(node)[j]).1.name@ == tree_edges(node)[i].0.name@,
    decreases node, 1int,
{
    match node.next {
        Some(v) => {
            assert(decreases_to!(node => node.next));
            assert(decreases_to!(node.next => v));
            assert(decreases_to!(v => v@));
            lemma_forest_parents(node, v@, i);
        },
        None => {},
    }
}

pub proof fn lemma_forest_parents(parent: Node, kids: Seq<Option<Node>>, i: int)
    requires
        0 <= i < forest_edges(parent, kids).len(),
    ensures
        forest_edges(parent, kids)[i].0.name@ == parent.name@ || exists|j: int|
            0 <= j < i && (#[trigger] forest_edges(parent, kids)[j]).1.name@ == forest_edges(
                parent,
                kids,
            )[i].0.name@,
    decreases kids, 0int,
{
    let es = forest_edges(parent, kids);
    let rest = forest_edges(parent, kids.drop_last());
    match kids.last() {
        Some(c) => {
            assert(decreases_to!(kids => kids[kids.len() - 1]));
            let te = tree_edges(c);
            assert(es == rest + seq![(parent, c)] + te);
            if i < rest.len() {
                lemma_forest_parents(parent, kids.drop_last(), i);
                assert(es[i] == rest[i]);
                if rest[i].0.name@ != parent.name@ {
                    let j = choose|j: int| 0 <= j < i && (#[trigger] rest[j]).1.name@ == rest[i].0.name@;
                    assert(es[j] == rest[j]);
                }
            } else if i == rest.len() {
                assert(es[i] == (parent, c));
            } else {
                let t = i - rest.len() - 1;
                lemma_tree_parents(c, t);
                assert(es[i] == te[t]);
                if te[t].0.name@ == c.name@ {
                    assert(es[rest.len() as int] == (parent, c));
                } else {
                    let j = choose|j: int| 0 <= j < t && (#[trigger] te[j]).1.name@ == te[t].0.name@;
                    assert(es[j + rest.len() + 1] == te[j]);
                }
            }
        },
        None => {
            lemma_forest_parents(parent, kids.drop_last(), i);
        },
    }
}

/// The pairs of a tree whose names are distinct meet `edges_ok`.
pub proof fn lemma_tree_edges_ok(root: Node)
    requires
        tree_names(root).no_duplicates(),
    ensures
        edges_ok(tree_edges(root)),
{
    let es = tree_edges(root);
    let names = tree_names(root);
    lemma_tree_child_names(root);
    assert(names[0] == root.name@) by {
        match root.next {
            Some(v) => {},
            None => {},
        }
    }
    assert(child_names(es).len() == es.len());
    assert(names.len() == es.len() + 1);
    assert forall|i: int| 0 <= i < es.len() implies (#[trigger] es[i]).1.name@ == names[i + 1] by {
        assert(child_names(es)[i] == es[i].1.name@);
        assert(names.drop_first()[i] == names[i + 1]);
    }
    assert forall|i: int, j: int|
        0 <= i < es.len() && 0 <= j < es.len() && i != j implies (#[trigger] es[i]).1.name@ != (
        #[trigger] es[j]).1.name@ by {
        assert(es[i].1.name@ == names[i + 1]);
        assert(es[j].1.name@ == names[j + 1]);
    }
    assert forall|i: int, j: int| 0 <= j <= i < es.len() implies (#[trigger] es[j]).0.name@ != (
    #[trigger] es[i]).1.name@ by {
        assert(es[i].1.name@ == names[i + 1]);
        lemma_tree_parents(root, j);
        if es[j].0.name@ != root.name@ {
            let jj = choose|jj: int| 0 <= jj < j && (#[trigger] es[jj]).1.name@ == es[j].0.name@;
            assert(es[jj].1.name@ == names[jj + 1]);
        }
    }
}

/// When the names of a tree are distinct, no list of its graph holds a point twice.
pub proof fn law_graph_lists_have_no_repeats(root: Node, k: Seq<char>)
    requires
        tree_names(root).no_duplicates(),
        graph_after(Map::empty(), root).contains_key(k),
    ensures
        graph_after(Map::empty(), root)[k].no_duplicates(),
{
    lemma_graph_is_apply(Map::empty(), root);
    lemma_tree_edges_ok(root);
    lemma_apply_no_dup(tree_edges(root), k);
}

} // verus!
