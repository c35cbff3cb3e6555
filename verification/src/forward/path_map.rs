//! A map from text keys (platform addresses or names) to paths of points.
use vstd::prelude::*;

use crate::common::config::{copy_points, Point};
use crate::common::text::same_text;

verus! {

/// The map that a listing of `(key, path)` pairs builds, later pairs winning.
pub open spec fn listing_map(l: Seq<(Seq<char>, Seq<Point>)>) -> Map<Seq<char>, Seq<Point>>
    decreases l.len(),
{
    if l.len() == 0 {
        Map::empty()
    } else {
        listing_map(l.drop_last()).insert(l.last().0, l.last().1)
    }
}

/// No key occurs twice in the listing.
pub open spec fn keys_unique(l: Seq<(Seq<char>, Seq<Point>)>) -> bool {
    forall|i: int, j: int|
        0 <= i < l.len() && 0 <= j < l.len() && i != j ==> (#[trigger] l[i]).0 != (#[trigger] l[j]).0
}

pub proof fn lemma_listing_dom(l: Seq<(Seq<char>, Seq<Point>)>, k: Seq<char>)
    ensures
        listing_map(l).contains_key(k) <==> exists|i: int| 0 <= i < l.len() && (#[trigger] l[i]).0 == k,
    decreases l.len(),
{
    if l.len() > 0 {
        let init = l.drop_last();
        lemma_listing_dom(init, k);
        if listing_map(l).contains_key(k) {
            if k == l.last().0 {
                assert(l[l.len() - 1].0 == k);
            } else {
                let i = choose|i: int| 0 <= i < init.len() && (#[trigger] init[i]).0 == k;
                assert(l[i] == init[i]);
            }
        }
        if exists|i: int| 0 <= i < l.len() && (#[trigger] l[i]).0 == k {
            let i = choose|i: int| 0 <= i < l.len() && (#[trigger] l[i]).0 == k;
            if i < l.len() - 1 {
                assert(init[i] == l[i]);
            }
        }
    }
}

/// Dropping the last pair keeps the keys distinct.
pub proof fn lemma_keys_unique_init(l: Seq<(Seq<char>, Seq<Point>)>)
    requires
        keys_unique(l),
        l.len() > 0,
    ensures
        keys_unique(l.drop_last()),
{
    let init = l.drop_last();
    assert forall|a: int, b: int|
        0 <= a < init.len() && 0 <= b < init.len() && a != b implies (#[trigger] init[a]).0
        != (#[trigger] init[b]).0 by {
        assert(init[a] == l[a] && init[b] == l[b]);
    }
}

pub proof fn lemma_listing_lookup(l: Seq<(Seq<char>, Seq<Point>)>, i: int)
    requires
        keys_unique(l),
        0 <= i < l.len(),
    ensures
        listing_map(l).contains_key(l[i].0),
        listing_map(l)[l[i].0] == l[i].1,
    decreases l.len(),
{
    if i < l.len() - 1 {
        let init = l.drop_last();
        lemma_keys_unique_init(l);
        assert(init[i] == l[i]);
        lemma_listing_lookup(init, i);
        assert(l[i].0 != l[l.len() - 1].0);
    }
}

pub proof fn lemma_listing_update(l: Seq<(Seq<char>, Seq<Point>)>, i: int, v: Seq<Point>)
    requires
        keys_unique(l),
        0 <= i < l.len(),
    ensures
        listing_map(l.update(i, (l[i].0, v))) == listing_map(l).insert(l[i].0, v),
    decreases l.len(),
{
    let k = l[i].0;
    let u = l.update(i, (k, v));
    let init = l.drop_last();
    if i == l.len() - 1 {
        assert(u.drop_last() =~= init);
        assert(listing_map(u) =~= listing_map(l).insert(k, v));
    } else {
        lemma_keys_unique_init(l);
        assert(init[i] == l[i]);
        lemma_listing_update(init, i, v);
        assert(u.drop_last() =~= init.update(i, (k, v)));
        assert(u.last() == l.last());
        assert(l.last().0 != k) by {
            assert(l[l.len() - 1] == l.last());
        }
        assert(listing_map(u) =~= listing_map(l).insert(k, v));
    }
}

pub proof fn lemma_listing_len(l: Seq<(Seq<char>, Seq<Point>)>)
    requires
        keys_unique(l),
    ensures
        listing_map(l).dom().finite(),
        listing_map(l).dom().len() == l.len(),
    decreases l.len(),
{
    if l.len() > 0 {
        let init = l.drop_last();
        lemma_keys_unique_init(l);
        lemma_listing_len(init);
        lemma_listing_dom(init, l.last().0);
        assert(!listing_map(init).contains_key(l.last().0)) by {
            if listing_map(init).contains_key(l.last().0) {
                let i = choose|i: int| 0 <= i < init.len() && (#[trigger] init[i]).0 == l.last().0;
                assert(init[i] == l[i]);
                assert(l[l.len() - 1] == l.last());
            }
        }
    }
}

/// One key of the map with its path.
pub struct RouteEntry {
    pub key: String,
    pub path: Vec<Point>,
}

/// A map from text keys to paths, keeping its keys distinct, held as a list of
/// entries in the order the keys came in. A list is used because vstd's
/// specification of `HashMap` holds only for key types that obey its key
/// model, which it does not grant `String`.
pub struct PathMap {
    entries: Vec<RouteEntry>,
}

impl PathMap {
    /// The entries as `(key, path)` pairs, in the order keys first came in.
    pub closed spec fn listing(&self) -> Seq<(Seq<char>, Seq<Point>)> {
        self.entries@.map_values(|e: RouteEntry| (e.key@, e.path@))
    }

    #[verifier::type_invariant]
    spec fn distinct_keys(&self) -> bool {
        keys_unique(self.listing())
    }

    /// An empty map.
    pub fn new() -> (m: Self)
        ensures
            m@ == Map::<Seq<char>, Seq<Point>>::empty(),
            m.listing() == Seq::<(Seq<char>, Seq<Point>)>::empty(),
    {
        let m = PathMap { entries: Vec::new() };
        assert(m.listing() =~= Seq::<(Seq<char>, Seq<Point>)>::empty());
        m
    }

    /// The position of `key` in the entries, if it is there.
    fn find(&self, key: &str) -> (r: Option<usize>)
        ensures
            match r {
                Some(i) => i < self.listing().len() && self.listing()[i as int].0 == key@,
                None => forall|i: int|
                    0 <= i < self.listing().len() ==> (#[trigger] self.listing()[i]).0 != key@,
            },
    {
        let mut i: usize = 0;
        while i < self.entries.len()
            invariant
                i <= self.entries@.len(),
                self.listing().len() == self.entries@.len(),
                forall|j: int| 0 <= j < i ==> (#[trigger] self.listing()[j]).0 != key@,
            decreases self.entries@.len() - i,
        {
            assert(self.listing()[i as int].0 == self.entries@[i as int].key@);
            if same_text(self.entries[i].key.as_str(), key) {
                return Some(i);
            }
            i = i + 1;
        }
        None
    }

    /// `HashMap::insert`: `key` maps to `path` afterwards, other keys keep theirs.
    pub fn insert(&mut self, key: String, path: Vec<Point>)
        ensures
            final(self)@ == old(self)@.insert(key@, path@),
    {
        proof {
            use_type_invariant(&*self);
        }
        let ghost l = self.listing();
        let found = self.find(key.as_str());
        let mut entries: Vec<RouteEntry> = Vec::new();
        std::mem::swap(&mut entries, &mut self.entries);
        assert(entries@.map_values(|e: RouteEntry| (e.key@, e.path@)) == l);
        let ghost k = key@;
        let ghost p = path@;
        match found {
            Some(i) => {
                proof {
                    lemma_listing_update(l, i as int, p);
                }
                entries.set(i, RouteEntry { key, path });
                assert(entries@.map_values(|e: RouteEntry| (e.key@, e.path@)) =~= l.update(
                    i as int,
                    (k, p),
                ));
            },
            None => {
                entries.push(RouteEntry { key, path });
                assert(entries@.map_values(|e: RouteEntry| (e.key@, e.path@)) =~= l.push((k, p)));
                assert(l.push((k, p)).drop_last() =~= l);
            },
        }
        self.entries = entries;
    }

    /// `HashMap::get`.
    pub fn get(&self, key: &str) -> (r: Option<&Vec<Point>>)
        ensures
            match r {
                Some(p) => self@.contains_key(key@) && p@ == self@[key@],
                None => !self@.contains_key(key@),
            },
    {
        proof {
            use_type_invariant(self);
            lemma_listing_dom(self.listing(), key@);
        }
        match self.find(key) {
            Some(i) => {
                proof {
                    lemma_listing_lookup(self.listing(), i as int);
                }
                Some(&self.entries[i].path)
            },
            None => None,
        }
    }

    /// The number of keys.
    pub fn len(&self) -> (n: usize)
        ensures
            n == self@.len(),
            n == self.listing().len(),
            keys_unique(self.listing()),
    {
        proof {
            use_type_invariant(self);
            lemma_listing_len(self.listing());
        }
        self.entries.len()
    }

    /// A copy of the path at position `i` of the listing.
    pub fn path_at(&self, i: usize) -> (p: Vec<Point>)
        requires
            i < self.listing().len(),
        ensures
            p@ == self.listing()[i as int].1,
    {
        copy_points(&self.entries[i].path)
    }

    /// The listing holds each key of the map once, with its path.
    pub proof fn lemma_listing_matches(&self, i: int)
        requires
            keys_unique(self.listing()),
            0 <= i < self.listing().len(),
        ensures
            self@.contains_key(self.listing()[i].0),
            self@[self.listing()[i].0] == self.listing()[i].1,
    {
        lemma_listing_lookup(self.listing(), i);
    }
}

impl View for PathMap {
    type V = Map<Seq<char>, Seq<Point>>;

    open spec fn view(&self) -> Map<Seq<char>, Seq<Point>> {
        listing_map(self.listing())
    }
}

} // verus!
