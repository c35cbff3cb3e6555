//! Routing tables: for each platform of the tree, the path of platforms that a
//! request crosses, found by a depth-first walk from the root.
use vstd::prelude::*;

use crate::common::config::{copy_points, Node, Point};
use crate::common::text::same_text;
use crate::forward::path_map::PathMap;

verus! {

broadcast use vstd::std_specs::vec::group_vec_axioms;

/// The point that stands for a node.
pub open spec fn point_of(n: Node) -> Point {
    Point { name: n.name, addr: n.addr }
}

/// The nodes directly below `n`, holes included.
pub open spec fn children(n: Node) -> Seq<Option<Node>> {
    match n.next {
        Some(v) => v@,
        None => Seq::<Option<Node>>::empty(),
    }
}

/// The path of a node from its parent's path: on the root platform paths run
/// from the root down, on any other platform from the node up to the root.
pub open spec fn extend_path(path: Seq<Point>, p: Point, is_root: bool) -> Seq<Point> {
    if is_root {
        path.push(p)
    } else {
        seq![p] + path
    }
}

/// The `(node, path)` pairs that the walk visits below and at `node`, in
/// visiting order, where `path` is the path of the node's parent.
pub open spec fn route_entries(node: Node, path: Seq<Point>, is_root: bool) -> Seq<
    (Node, Seq<Point>),
>
    decreases node, 1int,
{
    let p = extend_path(path, point_of(node), is_root);
    match node.next {
        Some(v) => {
            proof {
                assert(decreases_to!(node => node.next));
                assert(decreases_to!(node.next => v));
                assert(decreases_to!(v => v@));
            }
            seq![(node, p)] + forest_entries(v@, p, is_root)
        },
        None => seq![(node, p)],
    }
}

/// The visited pairs of a list of sibling subtrees, in order.
pub open spec fn forest_entries(kids: Seq<Option<Node>>, path: Seq<Point>, is_root: bool) -> Seq<
    (Node, Seq<Point>),
>
    decreases kids, 0int,
{
    if kids.len() == 0 {
        Seq::empty()
    } else {
        let rest = forest_entries(kids.drop_last(), path, is_root);
        match kids.last() {
            Some(c) => {
                proof {
                    assert(decreases_to!(kids => kids[kids.len() - 1]));
                }
                rest + route_entries(c, path, is_root)
            },
            None => rest,
        }
    }
}

/// The map after inserting each visited node's address with its path, in order.
pub open spec fn insert_routes(m: Map<Seq<char>, Seq<Point>>, es: Seq<(Node, Seq<Point>)>) -> Map<
    Seq<char>,
    Seq<Point>,
>
    decreases es.len(),
{
    if es.len() == 0 {
        m
    } else {
        insert_routes(m, es.drop_last()).insert(es.last().0.addr@, es.last().1)
    }
}

/// One printed line of the walk: the `addr:name` items of a path, joined by `->`.
pub open spec fn path_text(ps: Seq<Point>) -> Seq<char>
    decreases ps.len(),
{
    if ps.len() == 0 {
        Seq::empty()
    } else {
        let acc = path_text(ps.drop_last());
        let item = ps.last().addr@ + seq![':'] + ps.last().name@;
        if acc.len() == 0 {
            acc + item
        } else {
            acc + seq!['-', '>', ' '] + item
        }
    }
}

/// The printed lines of visited pairs: the node's name and its path text.
pub open spec fn route_rows(es: Seq<(Node, Seq<Point>)>) -> Seq<(Seq<char>, Seq<char>)> {
    es.map_values(|e: (Node, Seq<Point>)| (e.0.name@, path_text(e.1)))
}

pub proof fn lemma_insert_routes_concat(
    m: Map<Seq<char>, Seq<Point>>,
    a: Seq<(Node, Seq<Point>)>,
    b: Seq<(Node, Seq<Point>)>,
)
    ensures
        insert_routes(m, a + b) == insert_routes(insert_routes(m, a), b),
    decreases b.len(),
{
    if b.len() == 0 {
        assert(a + b =~= a);
    } else {
        lemma_insert_routes_concat(m, a, b.drop_last());
        assert((a + b).drop_last() =~= a + b.drop_last());
        assert((a + b).last() == b.last());
    }
}

/// A line of the printed walk.
pub struct RouteRow {
    pub name: String,
    pub path: String,
}

/// What the walk found: whether this platform is the root, and the lines to print.
pub struct RouteReport {
    pub is_root: Option<bool>,
    pub rows: Vec<RouteRow>,
}

/// The printed text of a path.
pub fn path_text_of(ps: &Vec<Point>) -> (s: String)
    ensures
        s@ == path_text(ps@),
{
    let mut s = String::new();
    let mut i: usize = 0;
    while i < ps.len()
        invariant
            i <= ps@.len(),
            s@ == path_text(ps@.take(i as int)),
        decreases ps@.len() - i,
    {
        proof {
            reveal_strlit(":");
            reveal_strlit("-> ");
        }
        assert(ps@.take(i + 1).drop_last() =~= ps@.take(i as int));
        assert(ps@.take(i + 1).last() == ps@[i as int]);
        let ghost acc = s@;
        if s.unicode_len() != 0 {
            s.append("-> ");
        }
        s.append(ps[i].addr.as_str());
        s.append(":");
        s.append(ps[i].name.as_str());
        proof {
            let item = ps@[i as int].addr@ + seq![':'] + ps@[i as int].name@;
            if acc.len() == 0 {
                assert(s@ =~= acc + item);
            } else {
                assert(s@ =~= acc + seq!['-', '>', ' '] + item);
            }
        }
        i = i + 1;
    }
    assert(ps@.take(ps@.len() as int) =~= ps@);
    s
}

fn rows_push(rows: &mut Vec<RouteRow>, name: &String, p: &Vec<Point>)
    ensures
        final(rows)@.len() == old(rows)@.len() + 1,
        forall|j: int| 0 <= j < old(rows)@.len() ==> final(rows)@[j] == old(rows)@[j],
        final(rows)@.last().name@ == name@,
        final(rows)@.last().path@ == path_text(p@),
{
    rows.push(RouteRow { name: name.clone(), path: path_text_of(p) });
}

/// The views of printed lines.
pub open spec fn row_views(rows: Seq<RouteRow>) -> Seq<(Seq<char>, Seq<char>)> {
    rows.map_values(|r: RouteRow| (r.name@, r.path@))
}

/// Visits `node` with its parent's `path`: records the node's own path under
/// its address, adds its line, then visits the nodes below it in order.
pub fn dfs(
    map: &mut PathMap,
    rows: &mut Vec<RouteRow>,
    is_root: bool,
    node: &Node,
    path: &Vec<Point>,
)
    ensures
        final(map)@ == insert_routes(old(map)@, route_entries(*node, path@, is_root)),
        row_views(final(rows)@) == row_views(old(rows)@) + route_rows(
            route_entries(*node, path@, is_root),
        ),
    decreases node,
{
    let ghost map0 = map@;
    let ghost rows0 = row_views(rows@);
    let point = Point::new(node.name.clone(), node.addr.clone());
    let mut p = copy_points(path);
    if is_root {
        p.push(point);
    } else {
        p.insert(0, point);
    }
    assert(p@ =~= extend_path(path@, point_of(*node), is_root));
    let ghost pv = p@;
    rows_push(rows, &node.name, &p);
    map.insert(node.addr.clone(), copy_points(&p));
    let ghost first = seq![(*node, pv)];
    proof {
        assert(insert_routes(map0, first) == insert_routes(map0, first.drop_last()).insert(
            node.addr@,
            pv,
        ));
        assert(first.drop_last() =~= Seq::<(Node, Seq<Point>)>::empty());
        assert(row_views(rows@) =~= rows0 + route_rows(first));
    }
    match &node.next {
        None => {
        },
        Some(next) => {
            let mut i: usize = 0;
            while i < next.len()
                invariant
                    i <= next@.len(),
                    node.next == Some(*next),
                    p@ == pv,
                    map@ == insert_routes(map0, first + forest_entries(next@.take(i as int), pv, is_root)),
                    row_views(rows@) == rows0 + route_rows(
                        first + forest_entries(next@.take(i as int), pv, is_root),
                    ),
                decreases next@.len() - i,
            {
                let ghost before = first + forest_entries(next@.take(i as int), pv, is_root);
                assert(next@.take(i + 1).drop_last() =~= next@.take(i as int));
                assert(next@.take(i + 1).last() == next@[i as int]);
                match &next[i] {
                    Some(nd) => {
                        assert(decreases_to!(*node => node.next));
                        assert(decreases_to!(node.next => node.next->0));
                        assert(decreases_to!(node.next->0 => next@[i as int]));
                        assert(decreases_to!(next@[i as int] => next@[i as int]->0));
                        dfs(map, rows, is_root, nd, &p);
                        let ghost sub = route_entries(*nd, pv, is_root);
                        proof {
                            lemma_insert_routes_concat(map0, before, sub);
                            assert(first + forest_entries(next@.take(i + 1), pv, is_root) =~= before
                                + sub);
                            assert(route_rows(before + sub) =~= route_rows(before) + route_rows(
                                sub,
                            ));
                        }
                    },
                    None => {
                        assert(first + forest_entries(next@.take(i + 1), pv, is_root) =~= before);
                    },
                }
                i = i + 1;
            }
            assert(next@.take(next@.len() as int) =~= next@);
            assert(route_entries(*node, path@, is_root) =~= first + forest_entries(
                next@,
                pv,
                is_root,
            ));
        },
    }
}

/// Walks the tree, if there is one, and records in `map` the path of every
/// platform under its address. The paths run from the root down when `host`
/// is the root's address, and from each platform up to the root otherwise.
pub fn update_router_map(host: &str, tree: &Option<Node>, map: &mut PathMap) -> (r: RouteReport)
    ensures
        match tree {
            None => {
                &&& final(map)@ == old(map)@
                &&& r.is_root is None
                &&& r.rows@.len() == 0
            },
            Some(root) => {
                let is_root = root.addr@ == host@;
                let es = route_entries(*root, Seq::empty(), is_root);
                &&& r.is_root == Some(is_root)
                &&& final(map)@ == insert_routes(old(map)@, es)
                &&& row_views(r.rows@) == route_rows(es)
            },
        },
{
    match tree {
        None => RouteReport { is_root: None, rows: Vec::new() },
        Some(root) => {
            let is_root = same_text(host, root.addr.as_str());
            let mut rows: Vec<RouteRow> = Vec::new();
            let init: Vec<Point> = Vec::new();
            assert(row_views(rows@) =~= Seq::<(Seq<char>, Seq<char>)>::empty());
            dfs(map, &mut rows, is_root, root, &init);
            assert(init@ =~= Seq::<Point>::empty());
            assert(row_views(Seq::<RouteRow>::empty()) + route_rows(
                route_entries(*root, init@, is_root),
            ) =~= route_rows(route_entries(*root, init@, is_root)));
            RouteReport { is_root: Some(is_root), rows }
        },
    }
}

} // verus!
