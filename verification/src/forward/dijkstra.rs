//! The neighbour graph of the platform tree, keyed by platform name.
use vstd::prelude::*;

use crate::common::config::{Node, Point};
use crate::forward::path_map::PathMap;
use crate::forward::routes::point_of;

verus! {

broadcast use vstd::std_specs::vec::group_vec_axioms;

/// The graph after linking `a` to `b`: `b` goes in front of `a`'s neighbours,
/// and a new name gets `b` as its only neighbour.
pub open spec fn link(m: Map<Seq<char>, Seq<Point>>, a: Node, b: Node) -> Map<Seq<char>, Seq<Point>> {
    if m.contains_key(a.name@) {
        m.insert(a.name@, seq![point_of(b)] + m[a.name@])
    } else {
        m.insert(a.name@, seq![point_of(b)])
    }
}

/// The graph after linking every node below `node` with its parent, both ways,
/// parent first, in the order of a depth-first walk.
pub open spec fn graph_after(m: Map<Seq<char>, Seq<Point>>, node: Node) -> Map<Seq<char>, Seq<Point>>
    decreases node, 1int,
{
    match node.next {
        Some(v) => {
            proof {
                assert(decreases_to!(node => node.next));
                assert(decreases_to!(node.next => v));
                assert(decreases_to!(v => v@));
            }
            graph_forest(m, node, v@)
        },
        None => m,
    }
}

/// The graph after linking the subtrees `kids` below `parent`, in order.
pub open spec fn graph_forest(m: Map<Seq<char>, Seq<Point>>, parent: Node, kids: Seq<Option<Node>>) -> Map<
    Seq<char>,
    Seq<Point>,
>
    decreases kids, 0int,
{
    if kids.len() == 0 {
        m
    } else {
        let m1 = graph_forest(m, parent, kids.drop_last());
        match kids.last() {
            Some(c) => {
                proof {
                    assert(decreases_to!(kids => kids[kids.len() - 1]));
                }
                graph_after(link(link(m1, parent, c), c, parent), c)
            },
            None => m1,
        }
    }
}

pub struct Dijkstra {
    pub graph: PathMap,
}

impl Dijkstra {
    pub fn new(graph: PathMap) -> (d: Self)
        ensures
            d.graph@ == graph@,
    {
        Dijkstra { graph }
    }

    /// Links every node below `node` with its parent, both ways.
    pub fn create_graph(&mut self, node: &Node)
        ensures
            final(self).graph@ == graph_after(old(self).graph@, *node),
        decreases node,
    {
        let ghost m0 = self.graph@;
        match &node.next {
            None => {},
            Some(next) => {
                let mut i: usize = 0;
                while i < next.len()
                    invariant
                        i <= next@.len(),
                        node.next == Some(*next),
                        self.graph@ == graph_forest(m0, *node, next@.take(i as int)),
                    decreases next@.len() - i,
                {
                    assert(next@.take(i + 1).drop_last() =~= next@.take(i as int));
                    assert(next@.take(i + 1).last() == next@[i as int]);
                    match &next[i] {
                        Some(nt) => {
                            self.update_graph(node, nt);
                            self.update_graph(nt, node);
                            assert(decreases_to!(*node => node.next));
                            assert(decreases_to!(node.next => node.next->0));
                            assert(decreases_to!(node.next->0 => next@[i as int]));
                            assert(decreases_to!(next@[i as int] => next@[i as int]->0));
                            self.create_graph(nt);
                        },
                        None => {},
                    }
                    i = i + 1;
                }
                assert(next@.take(next@.len() as int) =~= next@);
            },
        }
    }

    /// Puts `node2` in front of the neighbours of `node1`'s name.
    pub fn update_graph(&mut self, node1: &Node, node2: &Node)
        ensures
            final(self).graph@ == link(old(self).graph@, *node1, *node2),
    {
        let name = node1.name.clone();
        match self.graph.get(name.as_str()) {
            Some(val) => {
                let mut v: Vec<Point> = Vec::new();
                v.push(Point::new(node2.name.clone(), node2.addr.clone()));
                let mut i: usize = 0;
                while i < val.len()
                    invariant
                        i <= val@.len(),
                        v@ == seq![point_of(*node2)] + val@.take(i as int),
                    decreases val@.len() - i,
                {
                    v.push(val[i].duplicate());
                    assert(val@.take(i + 1) =~= val@.take(i as int).push(val@[i as int]));
                    assert(v@ =~= seq![point_of(*node2)] + val@.take(i + 1));
                    i = i + 1;
                }
                assert(val@.take(val@.len() as int) =~= val@);
                self.graph.insert(name, v);
            },
            None => {
                let mut v: Vec<Point> = Vec::new();
                v.push(Point::new(node2.name.clone(), node2.addr.clone()));
                assert(v@ =~= seq![point_of(*node2)]);
                self.graph.insert(name, v);
            },
        }
    }
}

} // verus!
