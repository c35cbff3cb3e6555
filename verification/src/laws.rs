//! Properties of the forwarding scheme as a whole, proved over the models
//! that the functions' contracts are stated in.
use vstd::prelude::*;

use crate::common::config::{Node, Point};
use crate::common::text::{join_commas, lemma_split_join, split_commas, without_char};
use crate::forward::dijkstra::{graph_after, graph_forest, link};
use crate::forward::relay::{forward_back, is_end, next_host, position_from};
use crate::forward::routes::{
    extend_path, forest_entries, insert_routes, point_of, route_entries,
};

verus! {

broadcast use vstd::std_specs::vec::group_vec_axioms;

proof fn lemma_position_of_member(xs: Seq<Seq<char>>, i: int, k: nat)
    requires
        xs.no_duplicates(),
        0 <= k <= i < xs.len(),
    ensures
        position_from(xs, xs[i], k) == i,
    decreases i - k,
{
    if k < i {
        assert(xs[k as int] != xs[i]);
        lemma_position_of_member(xs, i, k + 1);
    }
}

proof fn lemma_position_of_stranger(xs: Seq<Seq<char>>, h: Seq<char>, k: nat)
    requires
        !xs.contains(h),
        k <= xs.len(),
    ensures
        position_from(xs, h, k) == xs.len(),
    decreases xs.len() - k,
{
    if k < xs.len() {
        assert(xs[k as int] != h);
        lemma_position_of_stranger(xs, h, k + 1);
    }
}

/// A request whose `Forward-Path` lists distinct addresses without commas
/// travels the path one hop at a time: each platform on it forwards to the
/// address after its own, and the last platform forwards nowhere and is the end.
pub proof fn law_forward_hops(xs: Seq<Seq<char>>, i: int)
    requires
        xs.len() >= 1,
        forall|j: int| 0 <= j < xs.len() ==> !(#[trigger] xs[j]).contains(','),
        xs.no_duplicates(),
        0 <= i < xs.len(),
    ensures
        i + 1 < xs.len() ==> next_host(join_commas(xs), xs[i]) == Some(xs[i + 1]),
        i + 1 == xs.len() ==> next_host(join_commas(xs), xs[i]) is None,
        is_end(join_commas(xs), xs[i]) <==> i + 1 == xs.len(),
{
    lemma_split_join(xs);
    assert(split_commas(join_commas(xs)) == xs);
    lemma_position_of_member(xs, i, 0);
    if is_end(join_commas(xs), xs[i]) {
        assert(xs.last() == xs[i]);
        if i + 1 < xs.len() {
            assert(xs[xs.len() - 1] == xs[i]);
        }
    }
}

/// A platform that is not on a request's path neither forwards it nor is its end.
pub proof fn law_off_path_stays(xs: Seq<Seq<char>>, h: Seq<char>)
    requires
        xs.len() >= 1,
        forall|j: int| 0 <= j < xs.len() ==> !(#[trigger] xs[j]).contains(','),
        !xs.contains(h),
    ensures
        next_host(join_commas(xs), h) is None,
        !is_end(join_commas(xs), h),
{
    lemma_split_join(xs);
    lemma_position_of_stranger(xs, h, 0);
    assert(xs[xs.len() - 1] == xs.last());
}

/// Every path of the walk extends the path it started from by the node it
/// belongs to: on the root platform at the end, elsewhere at the front.
pub open spec fn path_fits(e: (Node, Seq<Point>), path: Seq<Point>, is_root: bool) -> bool {
    &&& e.1.len() > path.len()
    &&& if is_root {
        &&& e.1.last() == point_of(e.0)
        &&& e.1.take(path.len() as int) == path
    } else {
        &&& e.1[0] == point_of(e.0)
        &&& e.1.skip(e.1.len() - path.len()) == path
    }
}

proof fn lemma_fits_extend(e: (Node, Seq<Point>), path: Seq<Point>, p: Point, is_root: bool)
    requires
        path_fits(e, extend_path(path, p, is_root), is_root),
    ensures
        path_fits(e, path, is_root),
{
    let ext = extend_path(path, p, is_root);
    if is_root {
        assert(e.1.take(path.len() as int) =~= ext.take(path.len() as int));
        assert(ext.take(path.len() as int) =~= path);
    } else {
        assert(e.1.skip(e.1.len() - path.len()) =~= ext.skip(1));
        assert(ext.skip(1) =~= path);
    }
}

pub proof fn lemma_route_entries_fit(node: Node, path: Seq<Point>, is_root: bool)
    ensures
        forall|i: int|
            0 <= i < route_entries(node, path, is_root).len() ==> path_fits(
                #[trigger] route_entries(node, path, is_root)[i],
                path,
                is_root,
            ),
    decreases node, 1int,
{
    let p = extend_path(path, point_of(node), is_root);
    let es = route_entries(node, path, is_root);
    match node.next {
        Some(v) => {
            assert(decreases_to!(node => node.next));
            assert(decreases_to!(node.next => v));
            assert(decreases_to!(v => v@));
            lemma_forest_entries_fit(v@, p, is_root);
            assert forall|i: int| 0 <= i < es.len() implies path_fits(#[trigger] es[i], path, is_root) by {
                if i == 0 {
                    assert(es[0] == (node, p));
                    if is_root {
                        assert(p.take(path.len() as int) =~= path);
                    } else {
                        assert(p.skip(1) =~= path);
                    }
                } else {
                    let f = forest_entries(v@, p, is_root);
                    assert(es[i] == f[i - 1]);
                    lemma_fits_extend(es[i], path, point_of(node), is_root);
                }
            }
        },
        None => {
            assert forall|i: int| 0 <= i < es.len() implies path_fits(#[trigger] es[i], path, is_root) by {
                assert(es[i] == (node, p));
                if is_root {
                    assert(p.take(path.len() as int) =~= path);
                } else {
                    assert(p.skip(1) =~= path);
                }
            }
        },
    }
}

pub proof fn lemma_forest_entries_fit(kids: Seq<Option<Node>>, path: Seq<Point>, is_root: bool)
    ensures
        forall|i: int|
            0 <= i < forest_entries(kids, path, is_root).len() ==> path_fits(
                #[trigger] forest_entries(kids, path, is_root)[i],
                path,
                is_root,
            ),
    decreases kids, 0int,
{
    if kids.len() > 0 {
        let rest = forest_entries(kids.drop_last(), path, is_root);
        lemma_forest_entries_fit(kids.drop_last(), path, is_root);
        match kids.last() {
            Some(c) => {
                assert(decreases_to!(kids => kids[kids.len() - 1]));
                lemma_route_entries_fit(c, path, is_root);
                let es = forest_entries(kids, path, is_root);
                assert forall|i: int| 0 <= i < es.len() implies path_fits(#[trigger] es[i], path, is_root) by {
                    if i < rest.len() {
                        assert(es[i] == rest[i]);
                    } else {
                        assert(es[i] == route_entries(c, path, is_root)[i - rest.len()]);
                    }
                }
            },
            None => {},
        }
    }
}

/// On the root platform every recorded path runs from the root down to the
/// platform it is recorded for; on any other platform it runs from that
/// platform up to the root.
pub proof fn law_route_paths_run_between_root_and_node(root: Node, is_root: bool, i: int)
    requires
        0 <= i < route_entries(root, Seq::empty(), is_root).len(),
    ensures
        ({
            let e = route_entries(root, Seq::empty(), is_root)[i];
            if is_root {
                &&& e.1[0] == point_of(root)
                &&& e.1.last() == point_of(e.0)
            } else {
                &&& e.1[0] == point_of(e.0)
                &&& e.1.last() == point_of(root)
            }
        }),
{
    let es = route_entries(root, Seq::empty(), is_root);
    let p = extend_path(Seq::<Point>::empty(), point_of(root), is_root);
    lemma_route_entries_fit(root, Seq::empty(), is_root);
    assert(p =~= seq![point_of(root)]);
    if i > 0 {
        match root.next {
            Some(v) => {
                lemma_forest_entries_fit(v@, p, is_root);
                let f = forest_entries(v@, p, is_root);
                assert(es[i] == f[i - 1]);
                let e = es[i];
                if is_root {
                    assert(e.1.take(1)[0] == e.1[0]);
                } else {
                    assert(e.1.skip(e.1.len() - 1)[0] == e.1.last());
                }
            },
            None => {},
        }
    }
}

/// Two walks that visit the same nodes in the same order, with reversed paths.
pub open spec fn mirrored(a: Seq<(Node, Seq<Point>)>, b: Seq<(Node, Seq<Point>)>) -> bool {
    &&& a.len() == b.len()
    &&& forall|i: int| 0 <= i < a.len() ==> (#[trigger] a[i]).0 == b[i].0 && a[i].1 == b[i].1.reverse()
}

pub proof fn lemma_route_mirrored(node: Node, path: Seq<Point>)
    ensures
        mirrored(route_entries(node, path.reverse(), false), route_entries(node, path, true)),
    decreases node, 1int,
{
    let pt = extend_path(path, point_of(node), true);
    let pf = extend_path(path.reverse(), point_of(node), false);
    assert(pf =~= pt.reverse());
    let a = route_entries(node, path.reverse(), false);
    let b = route_entries(node, path, true);
    match node.next {
        Some(v) => {
            assert(decreases_to!(node => node.next));
            assert(decreases_to!(node.next => v));
            assert(decreases_to!(v => v@));
            lemma_forest_mirrored(v@, pt);
            let fa = forest_entries(v@, pt.reverse(), false);
            let fb = forest_entries(v@, pt, true);
            assert forall|i: int| 0 <= i < a.len() implies (#[trigger] a[i]).0 == b[i].0 && a[i].1
                == b[i].1.reverse() by {
                if i > 0 {
                    assert(a[i] == fa[i - 1]);
                    assert(b[i] == fb[i - 1]);
                }
            }
        },
        None => {},
    }
}

pub proof fn lemma_forest_mirrored(kids: Seq<Option<Node>>, path: Seq<Point>)
    ensures
        mirrored(forest_entries(kids, path.reverse(), false), forest_entries(kids, path, true)),
    decreases kids, 0int,
{
    if kids.len() > 0 {
        lemma_forest_mirrored(kids.drop_last(), path);
        let ra = forest_entries(kids.drop_last(), path.reverse(), false);
        let rb = forest_entries(kids.drop_last(), path, true);
        match kids.last() {
            Some(c) => {
                assert(decreases_to!(kids => kids[kids.len() - 1]));
                lemma_route_mirrored(c, path);
                let ca = route_entries(c, path.reverse(), false);
                let cb = route_entries(c, path, true);
                let a = forest_entries(kids, path.reverse(), false);
                let b = forest_entries(kids, path, true);
                assert forall|i: int| 0 <= i < a.len() implies (#[trigger] a[i]).0 == b[i].0 && a[i].1
                    == b[i].1.reverse() by {
                    if i < ra.len() {
                        assert(a[i] == ra[i] && b[i] == rb[i]);
                    } else {
                        assert(a[i] == ca[i - ra.len()] && b[i] == cb[i - rb.len()]);
                    }
                }
            },
            None => {},
        }
    }
}

/// A platform below the root records, for every platform of the tree, the
/// reverse of the path the root records for it, in the same visiting order.
pub proof fn law_lower_paths_reverse_root_paths(root: Node)
    ensures
        mirrored(route_entries(root, Seq::empty(), false), route_entries(root, Seq::empty(), true)),
{
    lemma_route_mirrored(root, Seq::empty());
    assert(Seq::<Point>::empty().reverse() =~= Seq::<Point>::empty());
}

/// The routing table built from an empty one has a key for exactly the
/// addresses the walk visits, and holds for each the path of the last visit.
pub proof fn law_router_map_contents(es: Seq<(Node, Seq<Point>)>, k: Seq<char>)
    ensures
        insert_routes(Map::empty(), es).contains_key(k) <==> exists|i: int|
            0 <= i < es.len() && (#[trigger] es[i]).0.addr@ == k,
        insert_routes(Map::empty(), es).contains_key(k) ==> exists|i: int|
            0 <= i < es.len() && (#[trigger] es[i]).0.addr@ == k && insert_routes(Map::empty(), es)[k]
                == es[i].1 && forall|j: int| i < j < es.len() ==> (#[trigger] es[j]).0.addr@ != k,
    decreases es.len(),
{
    if es.len() > 0 {
        let init = es.drop_last();
        law_router_map_contents(init, k);
        let last = es.len() - 1;
        assert(es[last] == es.last());
        if es.last().0.addr@ != k {
            if insert_routes(Map::empty(), es).contains_key(k) {
                let i = choose|i: int|
                    0 <= i < init.len() && (#[trigger] init[i]).0.addr@ == k && insert_routes(
                        Map::empty(),
                        init,
                    )[k] == init[i].1 && forall|j: int|
                        i < j < init.len() ==> (#[trigger] init[j]).0.addr@ != k;
                assert(es[i] == init[i]);
                assert forall|j: int| i < j < es.len() implies (#[trigger] es[j]).0.addr@ != k by {
                    if j < init.len() {
                        assert(es[j] == init[j]);
                    }
                }
            }
            if exists|i: int| 0 <= i < es.len() && (#[trigger] es[i]).0.addr@ == k {
                let i = choose|i: int| 0 <= i < es.len() && (#[trigger] es[i]).0.addr@ == k;
                assert(init[i] == es[i]);
            }
        } else {
            assert(es[last].0.addr@ == k);
        }
    }
}

/// `a` ends with `b`.
pub open spec fn ends_with(a: Seq<Point>, b: Seq<Point>) -> bool {
    a.len() >= b.len() && a.skip(a.len() - b.len()) == b
}

proof fn lemma_ends_with_trans(a: Seq<Point>, b: Seq<Point>, c: Seq<Point>)
    requires
        ends_with(a, b),
        ends_with(b, c),
    ensures
        ends_with(a, c),
{
    assert forall|i: int| 0 <= i < c.len() implies a.skip(a.len() - c.len())[i] == c[i] by {
        assert(b.skip(b.len() - c.len())[i] == c[i]);
        assert(a.skip(a.len() - b.len())[b.len() - c.len() + i] == b[b.len() - c.len() + i]);
    }
    assert(a.skip(a.len() - c.len()) =~= c);
}

pub proof fn lemma_ends_with_contains(a: Seq<Point>, b: Seq<Point>, x: Point)
    requires
        ends_with(a, b),
        b.contains(x),
    ensures
        a.contains(x),
{
    let j = choose|j: int| 0 <= j < b.len() && b[j] == x;
    assert(a.skip(a.len() - b.len())[j] == b[j]);
    assert(a[a.len() - b.len() + j] == x);
}

pub proof fn lemma_link_grows(m: Map<Seq<char>, Seq<Point>>, a: Node, b: Node, k: Seq<char>)
    requires
        m.contains_key(k),
    ensures
        link(m, a, b).contains_key(k),
        ends_with(link(m, a, b)[k], m[k]),
{
    if k == a.name@ {
        assert((seq![point_of(b)] + m[k]).skip(1) =~= m[k]);
    } else {
        assert(m[k].skip(0) =~= m[k]);
    }
}

/// Linking a tree never takes a neighbour away: every name that was a key
/// stays one, and its old neighbours stay at the end of its list.
pub proof fn law_graph_keeps_neighbours(m: Map<Seq<char>, Seq<Point>>, node: Node, k: Seq<char>)
    requires
        m.contains_key(k),
    ensures
        graph_after(m, node).contains_key(k),
        ends_with(graph_after(m, node)[k], m[k]),
    decreases node, 1int,
{
    match node.next {
        Some(v) => {
            assert(decreases_to!(node => node.next));
            assert(decreases_to!(node.next => v));
            assert(decreases_to!(v => v@));
            lemma_forest_keeps(m, node, v@, k);
        },
        None => {
            assert(m[k].skip(0) =~= m[k]);
        },
    }
}

proof fn lemma_forest_keeps(
    m: Map<Seq<char>, Seq<Point>>,
    parent: Node,
    kids: Seq<Option<Node>>,
    k: Seq<char>,
)
    requires
        m.contains_key(k),
    ensures
        graph_forest(m, parent, kids).contains_key(k),
        ends_with(graph_forest(m, parent, kids)[k], m[k]),
    decreases kids, 0int,
{
    if kids.len() == 0 {
        assert(m[k].skip(0) =~= m[k]);
    } else {
        lemma_forest_keeps(m, parent, kids.drop_last(), k);
        let m1 = graph_forest(m, parent, kids.drop_last());
        match kids.last() {
            Some(c) => {
                assert(decreases_to!(kids => kids[kids.len() - 1]));
                let l1 = link(m1, parent, c);
                let m2 = link(l1, c, parent);
                lemma_link_grows(m1, parent, c, k);
                lemma_link_grows(l1, c, parent, k);
                lemma_ends_with_trans(m2[k], l1[k], m1[k]);
                lemma_ends_with_trans(m2[k], m1[k], m[k]);
                law_graph_keeps_neighbours(m2, c, k);
                lemma_ends_with_trans(graph_after(m2, c)[k], m2[k], m[k]);
            },
            None => {},
        }
    }
}

/// After linking a tree, a node and each node directly below it are each
/// other's neighbours.
pub proof fn law_graph_links_children(m: Map<Seq<char>, Seq<Point>>, node: Node, i: int)
    requires
        node.next is Some,
        0 <= i < node.next->0@.len(),
        node.next->0@[i] is Some,
    ensures
        graph_after(m, node).contains_key(node.name@),
        graph_after(m, node)[node.name@].contains(point_of(node.next->0@[i]->0)),
        graph_after(m, node).contains_key(node.next->0@[i]->0.name@),
        graph_after(m, node)[node.next->0@[i]->0.name@].contains(point_of(node)),
{
    let v = node.next->0;
    lemma_forest_links(m, node, v@, i);
}

/// The graph after the linking step of `parent` and `c`: each holds the other.
proof fn lemma_pair_linked(m1: Map<Seq<char>, Seq<Point>>, parent: Node, c: Node)
    ensures
        ({
            let m2 = link(link(m1, parent, c), c, parent);
            &&& m2.contains_key(parent.name@)
            &&& m2[parent.name@].contains(point_of(c))
            &&& m2.contains_key(c.name@)
            &&& m2[c.name@].contains(point_of(parent))
        }),
{
    let l1 = link(m1, parent, c);
    let m2 = link(l1, c, parent);
    assert(l1[parent.name@][0] == point_of(c));
    assert(l1[parent.name@].contains(point_of(c)));
    lemma_link_grows(l1, c, parent, parent.name@);
    lemma_ends_with_contains(m2[parent.name@], l1[parent.name@], point_of(c));
    assert(m2[c.name@][0] == point_of(parent));
    assert(m2[c.name@].contains(point_of(parent)));
}

proof fn lemma_keeps_pair(
    m2: Map<Seq<char>, Seq<Point>>,
    g: Map<Seq<char>, Seq<Point>>,
    k: Seq<char>,
    x: Point,
)
    requires
        m2.contains_key(k),
        m2[k].contains(x),
        g.contains_key(k),
        ends_with(g[k], m2[k]),
    ensures
        g[k].contains(x),
{
    lemma_ends_with_contains(g[k], m2[k], x);
}

proof fn lemma_forest_links(m: Map<Seq<char>, Seq<Point>>, parent: Node, kids: Seq<Option<Node>>, i: int)
    requires
        0 <= i < kids.len(),
        kids[i] is Some,
    ensures
        graph_forest(m, parent, kids).contains_key(parent.name@),
        graph_forest(m, parent, kids)[parent.name@].contains(point_of(kids[i]->0)),
        graph_forest(m, parent, kids).contains_key(kids[i]->0.name@),
        graph_forest(m, parent, kids)[kids[i]->0.name@].contains(point_of(parent)),
    decreases kids.len(),
{
    let m1 = graph_forest(m, parent, kids.drop_last());
    let g = graph_forest(m, parent, kids);
    let ci = kids[i]->0;
    if i < kids.len() - 1 {
        lemma_forest_links(m, parent, kids.drop_last(), i);
        assert(kids.drop_last()[i] == kids[i]);
        match kids.last() {
            Some(c) => {
                let l1 = link(m1, parent, c);
                let m2 = link(l1, c, parent);
                assert(g == graph_after(m2, c));
                lemma_link_grows(m1, parent, c, parent.name@);
                lemma_link_grows(l1, c, parent, parent.name@);
                lemma_ends_with_contains(l1[parent.name@], m1[parent.name@], point_of(ci));
                lemma_ends_with_contains(m2[parent.name@], l1[parent.name@], point_of(ci));
                law_graph_keeps_neighbours(m2, c, parent.name@);
                lemma_keeps_pair(m2, g, parent.name@, point_of(ci));
                lemma_link_grows(m1, parent, c, ci.name@);
                lemma_link_grows(l1, c, parent, ci.name@);
                lemma_ends_with_contains(l1[ci.name@], m1[ci.name@], point_of(parent));
                lemma_ends_with_contains(m2[ci.name@], l1[ci.name@], point_of(parent));
                law_graph_keeps_neighbours(m2, c, ci.name@);
                lemma_keeps_pair(m2, g, ci.name@, point_of(parent));
            },
            None => {},
        }
    } else {
        let c = kids.last()->0;
        assert(kids[i] == kids.last());
        let m2 = link(link(m1, parent, c), c, parent);
        assert(g == graph_after(m2, c));
        lemma_pair_linked(m1, parent, c);
        law_graph_keeps_neighbours(m2, c, parent.name@);
        lemma_keeps_pair(m2, g, parent.name@, point_of(c));
        law_graph_keeps_neighbours(m2, c, c.name@);
        lemma_keeps_pair(m2, g, c.name@, point_of(parent));
    }
}

/// The `Forward-Back` trail of an answer that came back through `hops`,
/// the farthest first: each hop's address with `:ok`, joined by commas.
pub open spec fn back_trail(hops: Seq<Seq<char>>) -> Seq<char> {
    join_commas(hops.map_values(|h: Seq<char>| h + ":ok"@))
}

/// Each platform an answer passes back through adds itself to the end of
/// the trail: the first sets it, every later one appends.
pub proof fn law_back_trail_grows(hops: Seq<Seq<char>>, h: Seq<char>)
    ensures
        hops.len() == 0 ==> forward_back(None, h) == back_trail(hops.push(h)),
        hops.len() > 0 ==> forward_back(Some(back_trail(hops)), h) == back_trail(hops.push(h)),
{
    let items = hops.push(h).map_values(|x: Seq<char>| x + ":ok"@);
    assert(items.drop_last() =~= hops.map_values(|x: Seq<char>| x + ":ok"@));
    assert(items.last() == h + ":ok"@);
    if hops.len() > 0 {
        assert(forward_back(Some(back_trail(hops)), h) =~= back_trail(hops) + seq![','] + (h
            + ":ok"@));
    } else {
        assert(items.len() == 1);
        assert(forward_back(None, h) =~= items[0]);
    }
}

/// The namespace read from a registry URL holds no `/`.
pub proof fn law_namespace_has_no_slash(path: Seq<char>)
    ensures
        !without_char(path, '/').contains('/'),
    decreases path.len(),
{
    if path.len() > 0 {
        law_namespace_has_no_slash(path.drop_last());
        let w = without_char(path.drop_last(), '/');
        if path.last() != '/' {
            assert forall|j: int| 0 <= j < w.push(path.last()).len() implies w.push(path.last())[j]
                != '/' by {
                if j < w.len() {
                    assert(w.push(path.last())[j] == w[j]);
                }
            }
        }
    }
}

} // verus!
