//! Map entities: identifiers, nodes with coordinates, and tagged ways.

use vstd::prelude::*;
use std::collections::BTreeMap;
use vstd::std_specs::btree::{axiom_increasing_seq_meaning, increasing_seq, spec_keys_iter};
use vstd::laws_cmp::obeys_cmp;
use vstd::std_specs::cmp::OrdSpec;
use vstd::std_specs::iter::IteratorSpec;
use crate::matcher::{tags_view, Tags};

verus! {

/// An entity identifier. Node, way and relation ids live in separate spaces;
/// identifiers order by kind first, then by number.
#[derive(Clone, Copy, Debug, PartialEq, Eq, Structural, PartialOrd, Ord, Hash)]
pub enum OsmId {
    Node(i64),
    Way(i64),
    Relation(i64),
}

/// A point in decimicro degrees (one ten-millionth of a degree):
/// `x` is the longitude, `y` the latitude.
#[derive(Clone, Copy, Debug, PartialEq, Eq, Structural)]
pub struct Coord {
    pub x: i32,
    pub y: i32,
}

/// A node: an identifier and a position in decimicro degrees.
#[derive(Clone, Copy, Debug, PartialEq, Eq, Structural)]
pub struct Node {
    pub id: i64,
    pub decimicro_lat: i32,
    pub decimicro_lon: i32,
}

impl Node {
    /// The node's position.
    pub fn coord(&self) -> (r: Coord)
        ensures
            r == self.spec_coord(),
    {
        Coord { x: self.decimicro_lon, y: self.decimicro_lat }
    }

    pub open spec fn spec_coord(self) -> Coord {
        Coord { x: self.decimicro_lon, y: self.decimicro_lat }
    }
}

/// A way: an ordered sequence of node ids (which may repeat) and its tags.
pub struct Way {
    pub id: i64,
    pub nodes: Vec<i64>,
    pub tags: Tags,
}

pub struct WayView {
    pub id: i64,
    pub nodes: Seq<i64>,
    pub tags: Seq<(Seq<char>, Seq<char>)>,
}

impl View for Way {
    type V = WayView;

    open spec fn view(&self) -> WayView {
        WayView { id: self.id, nodes: self.nodes@, tags: tags_view(self.tags@) }
    }
}

impl Clone for Way {
    fn clone(&self) -> (r: Self)
        ensures
            r@ == self@,
    {
        let mut nodes: Vec<i64> = Vec::new();
        let mut i: usize = 0;
        while i < self.nodes.len()
            invariant
                i <= self.nodes@.len(),
                nodes@ == self.nodes@.take(i as int),
            decreases self.nodes@.len() - i,
        {
            nodes.push(self.nodes[i]);
            i += 1;
            assert(nodes@ =~= self.nodes@.take(i as int));
        }
        assert(self.nodes@.take(i as int) =~= self.nodes@);
        let mut tags: Tags = Vec::new();
        let mut j: usize = 0;
        while j < self.tags.len()
            invariant
                j <= self.tags@.len(),
                tags@.len() == j,
                forall|m: int|
                    0 <= m < j ==> (#[trigger] tags@[m]).0@ == self.tags@[m].0@ && tags@[m].1@
                        == self.tags@[m].1@,
            decreases self.tags@.len() - j,
        {
            tags.push((self.tags[j].0.clone(), self.tags[j].1.clone()));
            j += 1;
        }
        assert(tags_view(tags@) =~= tags_view(self.tags@));
        Way { id: self.id, nodes, tags }
    }
}

/// Each element is smaller than every later one.
pub open spec fn strictly_increasing(s: Seq<i64>) -> bool {
    forall|i: int, j: int| 0 <= i < j < s.len() ==> s[i] < s[j]
}

/// The elements of a finite set of ids in increasing order.
pub open spec fn sorted_ids(ids: Set<i64>) -> Seq<i64> {
    choose|s: Seq<i64>| strictly_increasing(s) && s.to_set() == ids
}

/// Two increasing sequences with the same elements are equal.
pub proof fn lemma_increasing_unique(a: Seq<i64>, b: Seq<i64>)
    requires
        strictly_increasing(a),
        strictly_increasing(b),
        a.to_set() == b.to_set(),
    ensures
        a == b,
    decreases a.len(),
{
    if a.len() == 0 {
        if b.len() > 0 {
            assert(b.to_set().contains(b[0]));
        }
        assert(a =~= b);
    } else {
        assert(a.to_set().contains(a[0]));
        assert(b.to_set().contains(a[0]));
        let k = choose|k: int| 0 <= k < b.len() && b[k] == a[0];
        assert(b.to_set().contains(b[0]));
        assert(a.to_set().contains(b[0]));
        let m = choose|m: int| 0 <= m < a.len() && a[m] == b[0];
        assert(a[0] == b[0]);
        let a1 = a.drop_first();
        let b1 = b.drop_first();
        assert forall|x: i64| a1.to_set().contains(x) <==> b1.to_set().contains(x) by {
            if a1.to_set().contains(x) {
                let i = choose|i: int| 0 <= i < a1.len() && a1[i] == x;
                assert(a[i + 1] == x);
                assert(a.to_set().contains(x));
                let j = choose|j: int| 0 <= j < b.len() && b[j] == x;
                if j == 0 {
                    assert(a[0] < a[i + 1]);
                }
                assert(b1[j - 1] == x);
            }
            if b1.to_set().contains(x) {
                let i = choose|i: int| 0 <= i < b1.len() && b1[i] == x;
                assert(b[i + 1] == x);
                assert(b.to_set().contains(x));
                let j = choose|j: int| 0 <= j < a.len() && a[j] == x;
                if j == 0 {
                    assert(b[0] < b[i + 1]);
                }
                assert(a1[j - 1] == x);
            }
        }
        assert(a1.to_set() =~= b1.to_set());
        lemma_increasing_unique(a1, b1);
        assert forall|i: int| 0 <= i < a.len() implies a[i] == b[i] by {
            if i > 0 {
                assert(a[i] == a1[i - 1]);
                assert(b[i] == b1[i - 1]);
            }
        }
        assert(a =~= b);
    }
}

/// The keys of `m` in increasing order.
pub fn sorted_keys<V>(m: &BTreeMap<i64, V>) -> (r: Vec<i64>)
    ensures
        r@ == sorted_ids(m@.dom()),
        strictly_increasing(r@),
        r@.to_set() == m@.dom(),
{
    let mut r: Vec<i64> = Vec::new();
    let ghost keys = spec_keys_iter(m).remaining();
    for k in it: m.keys()
        invariant
            it.seq() == keys,
            r@ == keys.subrange(0, it.index() as int).map_values(|k: &i64| *k),
    {
        r.push(*k);
        assert(r@ =~= keys.subrange(0, it.index() + 1).map_values(|k: &i64| *k));
    }
    proof {
        let s = keys.map_values(|k: &i64| *k);
        assert(r@ =~= s);
        assert(keys == spec_keys_iter(m).remaining());
        assert(keys.unref().to_set() == m@.dom());
        assert(increasing_seq(keys));
        assert(obeys_cmp::<&i64>());
        axiom_increasing_seq_meaning(keys);
        assert forall|i: int, j: int| 0 <= i < j < s.len() implies s[i] < s[j] by {
            assert(<&i64 as OrdSpec>::cmp_spec(&keys[i], &keys[j]) is Less);
        }
        assert(strictly_increasing(s));
        assert(s =~= keys.unref());
        let t = sorted_ids(m@.dom());
        assert(strictly_increasing(t) && t.to_set() == m@.dom());
        lemma_increasing_unique(s, t);
    }
    r
}

} // verus!
