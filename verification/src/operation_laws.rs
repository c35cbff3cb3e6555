//! What single operations are for, stated over all inputs: the path a request
//! for a service is given, the instance chosen for it, the names a document is
//! stored under, the port read from the configuration, and the platforms that
//! the routing table covers.
use vstd::prelude::*;

use crate::common::config::{Node, Point};
use crate::common::nacos::parsed_i32;
use crate::common::text::{decimal, digit_char, join_commas, signed_decimal, without_char};
use crate::forward::relay::{
    addrs, chosen_endpoint, endpoint_addr, header_present, initial_path_spec, ServiceEndpoint,
};
use crate::forward::routes::{forest_entries, insert_routes, route_entries};
use crate::laws::law_router_map_contents;
use crate::output::handlers::bare_name;

verus! {

broadcast use vstd::std_specs::vec::group_vec_axioms;

proof fn lemma_join_starts_with_first(parts: Seq<Seq<char>>)
    requires
        parts.len() >= 1,
    ensures
        join_commas(parts).len() >= parts[0].len(),
    decreases parts.len(),
{
    if parts.len() > 1 {
        lemma_join_starts_with_first(parts.drop_last());
        assert(parts.drop_last()[0] == parts[0]);
    }
}

/// A request that names a destination service and carries no path is given
/// the whole path of this platform from the routing table, joined by commas,
/// whenever that path has a first address that is not empty; a path of one
/// address gives that address.
pub proof fn law_seed_path_is_own_path(
    map: Map<Seq<char>, Seq<Point>>,
    host: Seq<char>,
    forward_path: Option<String>,
    destination: Option<String>,
)
    requires
        !header_present(forward_path),
        header_present(destination),
        map.contains_key(host),
        map[host].len() >= 1,
        map[host][0].addr@.len() > 0,
    ensures
        initial_path_spec(map, host, forward_path, destination) == Some(join_commas(addrs(map[host]))),
        map[host].len() == 1 ==> initial_path_spec(map, host, forward_path, destination) == Some(
            map[host][0].addr@,
        ),
{
    let a = addrs(map[host]);
    assert(a[0] == map[host][0].addr@);
    lemma_join_starts_with_first(a);
}

/// The instance chosen for a destination service is the first one that is
/// enabled, healthy and whose `ip:port` is not exactly this platform's
/// address; when there is none, none is chosen.
pub proof fn law_chosen_instance_is_first_usable(es: Seq<ServiceEndpoint>, host: Seq<char>, k: nat)
    requires
        k <= es.len(),
    ensures
        ({
            let i = chosen_endpoint(es, host, k);
            &&& k <= i <= es.len()
            &&& forall|j: int|
                k <= j < i ==> !((#[trigger] es[j]).enabled && es[j].healthy && endpoint_addr(es[j])
                    != host)
            &&& i < es.len() ==> es[i].enabled && es[i].healthy && endpoint_addr(es[i]) != host
        }),
    decreases es.len() - k,
{
    if k < es.len() {
        law_chosen_instance_is_first_usable(es, host, k + 1);
    }
}

proof fn lemma_without_absent(s: Seq<char>, c: char)
    requires
        forall|i: int| 0 <= i < s.len() ==> s[i] != c,
    ensures
        without_char(s, c) == s,
    decreases s.len(),
{
    if s.len() > 0 {
        lemma_without_absent(s.drop_last(), c);
        assert(s[s.len() - 1] == s.last());
        assert(s.drop_last().push(s.last()) =~= s);
    }
}

proof fn lemma_without_concat(s: Seq<char>, t: Seq<char>, c: char)
    ensures
        without_char(s + t, c) == without_char(s, c) + without_char(t, c),
    decreases t.len(),
{
    if t.len() == 0 {
        assert(s + t =~= s);
        assert(without_char(s, c) + without_char(t, c) =~= without_char(s, c));
    } else {
        lemma_without_concat(s, t.drop_last(), c);
        assert((s + t).drop_last() =~= s + t.drop_last());
        assert((s + t).last() == t.last());
        if t.last() == c {
        } else {
            assert(without_char(s, c) + without_char(t.drop_last(), c).push(t.last()) =~= (
            without_char(s, c) + without_char(t.drop_last(), c)).push(t.last()));
        }
    }
}

proof fn lemma_without_one(x: char, c: char)
    ensures
        without_char(seq![x], c) == if x == c {
            Seq::<char>::empty()
        } else {
            seq![x]
        },
{
    assert(seq![x].drop_last() =~= Seq::<char>::empty());
    assert(seq![x].last() == x);
    assert(without_char(Seq::<char>::empty(), c) == Seq::<char>::empty());
    if x != c {
        assert(Seq::<char>::empty().push(x) =~= seq![x]);
    }
}

/// The index and id a document is stored under are the member's text with
/// only quotes and backslashes taken out: a text without them is kept as it
/// is, each other character is kept, and texts are treated piece by piece.
pub proof fn law_bare_name_drops_only_quotes_and_backslashes(s: Seq<char>, t: Seq<char>, x: char)
    ensures
        (forall|i: int| 0 <= i < s.len() ==> s[i] != '"' && s[i] != '\\') ==> bare_name(s) == s,
        bare_name(s + t) == bare_name(s) + bare_name(t),
        bare_name(seq![x]) == if x == '"' || x == '\\' {
            Seq::<char>::empty()
        } else {
            seq![x]
        },
{
    if forall|i: int| 0 <= i < s.len() ==> s[i] != '"' && s[i] != '\\' {
        lemma_without_absent(s, '"');
        lemma_without_absent(s, '\\');
    }
    lemma_without_concat(s, t, '"');
    lemma_without_concat(without_char(s, '"'), without_char(t, '"'), '\\');
    lemma_without_one(x, '"');
    if x != '"' {
        lemma_without_one(x, '\\');
    } else {
        assert(without_char(Seq::<char>::empty(), '\\') == Seq::<char>::empty());
    }
}

proof fn lemma_digit_char_value(d: nat)
    requires
        d < 10,
    ensures
        '0' <= digit_char(d) <= '9',
        (digit_char(d) as int) - ('0' as int) == d,
{
}

proof fn lemma_decimal_digits(n: nat)
    ensures
        decimal(n).len() >= 1,
        forall|i: int| 0 <= i < decimal(n).len() ==> '0' <= #[trigger] decimal(n)[i] <= '9',
        crate::common::nacos::digits_value(decimal(n)) == n,
    decreases n,
{
    if n < 10 {
        lemma_digit_char_value(n);
        assert(seq![digit_char(n)].drop_last() =~= Seq::<char>::empty());
        assert(crate::common::nacos::digits_value(Seq::<char>::empty()) == 0);
    } else {
        lemma_decimal_digits(n / 10);
        lemma_digit_char_value(n % 10);
        let d = decimal(n);
        assert(d.drop_last() =~= decimal(n / 10));
        assert(d.last() == digit_char(n % 10));
        assert((n / 10) * 10 + n % 10 == n) by (nonlinear_arith);
        assert forall|i: int| 0 <= i < d.len() implies '0' <= #[trigger] d[i] <= '9' by {
            if i < d.len() - 1 {
                assert(d[i] == decimal(n / 10)[i]);
            }
        }
    }
}

/// The port read from the configuration is the number its decimal numeral
/// stands for: every `i32`, written as `to_string` writes it, reads back as
/// itself.
pub proof fn law_port_reads_its_numeral(i: i32)
    ensures
        parsed_i32(signed_decimal(i as int)) == Some(i),
{
    if i < 0 {
        let n = (-(i as int)) as nat;
        lemma_decimal_digits(n);
        let s = signed_decimal(i as int);
        assert(s == seq!['-'] + decimal(n));
        assert(s.drop_first() =~= decimal(n));
        assert(s[0] == '-');
    } else {
        let n = i as nat;
        lemma_decimal_digits(n);
        let s = decimal(n);
        assert('0' <= s[0] <= '9');
    }
}

/// The addresses of the tree below and at `node`, in depth-first order.
pub open spec fn tree_addrs(node: Node) -> Seq<Seq<char>>
    decreases node, 1int,
{
    match node.next {
        Some(v) => {
            proof {
                assert(decreases_to!(node => node.next));
                assert(decreases_to!(node.next => v));
                assert(decreases_to!(v => v@));
            }
            seq![node.addr@] + forest_addrs(v@)
        },
        None => seq![node.addr@],
    }
}

/// The addresses of the subtrees `kids`, in order.
pub open spec fn forest_addrs(kids: Seq<Option<Node>>) -> Seq<Seq<char>>
    decreases kids, 0int,
{
    if kids.len() == 0 {
        Seq::empty()
    } else {
        let rest = forest_addrs(kids.drop_last());
        match kids.last() {
            Some(c) => {
                proof {
                    assert(decreases_to!(kids => kids[kids.len() - 1]));
                }
                rest + tree_addrs(c)
            },
            None => rest,
        }
    }
}

/// The addresses of the visited nodes.
pub open spec fn visited_addrs(es: Seq<(Node, Seq<Point>)>) -> Seq<Seq<char>> {
    es.map_values(|e: (Node, Seq<Point>)| e.0.addr@)
}

proof fn lemma_route_visits_tree(node: Node, path: Seq<Point>, is_root: bool)
    ensures
        visited_addrs(route_entries(node, path, is_root)) == tree_addrs(node),
    decreases node, 1int,
{
    let es = route_entries(node, path, is_root);
    match node.next {
        Some(v) => {
            assert(decreases_to!(node => node.next));
            assert(decreases_to!(node.next => v));
            assert(decreases_to!(v => v@));
            let p = es[0].1;
            lemma_forest_visits_tree(v@, p, is_root);
            let f = forest_entries(v@, p, is_root);
            assert(es == seq![(node, p)] + f);
            assert(visited_addrs(seq![(node, p)] + f) =~= seq![node.addr@] + visited_addrs(f));
        },
        None => {
            assert(visited_addrs(es) =~= seq![node.addr@]);
        },
    }
}

proof fn lemma_forest_visits_tree(kids: Seq<Option<Node>>, path: Seq<Point>, is_root: bool)
    ensures
        visited_addrs(forest_entries(kids, path, is_root)) == forest_addrs(kids),
    decreases kids, 0int,
{
    if kids.len() == 0 {
        assert(visited_addrs(Seq::<(Node, Seq<Point>)>::empty()) =~= Seq::<Seq<char>>::empty());
    } else {
        lemma_forest_visits_tree(kids.drop_last(), path, is_root);
        let rest = forest_entries(kids.drop_last(), path, is_root);
        match kids.last() {
            Some(c) => {
                assert(decreases_to!(kids => kids[kids.len() - 1]));
                lemma_route_visits_tree(c, path, is_root);
                let sub = route_entries(c, path, is_root);
                assert(visited_addrs(rest + sub) =~= visited_addrs(rest) + visited_addrs(sub));
            },
            None => {},
        }
    }
}

/// The routing table built from an empty one by walking a tree has a key for
/// exactly the addresses of the tree's nodes, at every depth.
pub proof fn law_router_map_covers_tree(root: Node, is_root: bool, k: Seq<char>)
    ensures
        insert_routes(Map::empty(), route_entries(root, Seq::empty(), is_root)).contains_key(k)
            <==> tree_addrs(root).contains(k),
{
    let es = route_entries(root, Seq::empty(), is_root);
    law_router_map_contents(es, k);
    lemma_route_visits_tree(root, Seq::empty(), is_root);
    let va = visited_addrs(es);
    if tree_addrs(root).contains(k) {
        let i = choose|i: int| 0 <= i < va.len() && va[i] == k;
        assert(es[i].0.addr@ == k);
    }
    if exists|i: int| 0 <= i < es.len() && (#[trigger] es[i]).0.addr@ == k {
        let i = choose|i: int| 0 <= i < es.len() && (#[trigger] es[i]).0.addr@ == k;
        assert(va[i] == k);
    }
}

} // verus!
