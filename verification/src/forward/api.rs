//! The endpoint that lists the forwarding paths the platform knows.
use vstd::prelude::*;

use crate::common::config::Point;
use crate::common::text::join_commas;
use crate::forward::path_map::{keys_unique, lemma_listing_dom, PathMap};
use crate::forward::relay::{addrs, join_addrs};

verus! {

/// The addresses of every path of the routing table, each joined by commas,
/// one text per key, in the table's order.
pub fn forward_path_list(map: &PathMap) -> (r: Vec<String>)
    ensures
        exists|keys: Seq<Seq<char>>|
            {
                &&& keys.len() == r@.len()
                &&& keys.no_duplicates()
                &&& forall|k: Seq<char>| map@.contains_key(k) <==> keys.contains(k)
                &&& forall|i: int|
                    0 <= i < keys.len() ==> (#[trigger] r@[i])@ == join_commas(addrs(map@[keys[i]]))
            },
{
    let n = map.len();
    let ghost l = map.listing();
    let ghost keys = l.map_values(|e: (Seq<char>, Seq<Point>)| e.0);
    let mut r: Vec<String> = Vec::new();
    let mut i: usize = 0;
    while i < n
        invariant
            n == l.len(),
            l == map.listing(),
            keys_unique(l),
            keys == l.map_values(|e: (Seq<char>, Seq<Point>)| e.0),
            i <= n,
            r@.len() == i,
            forall|j: int|
                0 <= j < i ==> (#[trigger] r@[j])@ == join_commas(addrs(map@[keys[j]])),
        decreases n - i,
    {
        let p = map.path_at(i);
        proof {
            map.lemma_listing_matches(i as int);
        }
        r.push(join_addrs(&p));
        i = i + 1;
    }
    proof {
        assert(keys.no_duplicates()) by {
            assert forall|a: int, b: int|
                0 <= a < keys.len() && 0 <= b < keys.len() && a != b implies keys[a] != keys[b] by {
                assert(l[a].0 != l[b].0);
            }
        }
        assert forall|k: Seq<char>| map@.contains_key(k) <==> keys.contains(k) by {
            lemma_listing_dom(l, k);
            if keys.contains(k) {
                let j = choose|j: int| 0 <= j < keys.len() && keys[j] == k;
                assert(l[j].0 == k);
            }
            if map@.contains_key(k) {
                let j = choose|j: int| 0 <= j < l.len() && (#[trigger] l[j]).0 == k;
                assert(keys[j] == k);
            }
        }
    }
    r
}

} // verus!
