//! Containers for building a visibility graph over polygon nodes.

use vstd::prelude::*;
use std::collections::HashMap;
use vstd::std_specs::iter::IteratorSpec;

verus! {

/// A visibility graph: its nodes, its edges, and the adjacency of each node.
pub struct VisibilityGraph<N> {
    nodes: Vec<N>,
    edge_list: Vec<(N, N)>,
    adjacency_map: HashMap<N, Vec<N>>,
}

impl<N> VisibilityGraph<N> {
    /// An empty graph.
    pub fn new() -> (r: Self)
        ensures
            r.nodes()@.len() == 0,
            r.edges()@.len() == 0,
            r.adjacency() == Map::<N, Vec<N>>::empty(),
    {
        VisibilityGraph { nodes: Vec::new(), edge_list: Vec::new(), adjacency_map: HashMap::new() }
    }

    pub closed spec fn nodes(&self) -> Vec<N> {
        self.nodes
    }

    pub closed spec fn edges(&self) -> Vec<(N, N)> {
        self.edge_list
    }

    /// The neighbours recorded for each node.
    pub closed spec fn adjacency(&self) -> Map<N, Vec<N>> {
        self.adjacency_map@
    }

    /// Records that `target` is visible from `source`.
    pub fn add_edge(&mut self, source: N, target: N)
        ensures
            final(self).edges()@ == old(self).edges()@.push((source, target)),
            final(self).nodes()@ == old(self).nodes()@,
            final(self).adjacency() == old(self).adjacency(),
    {
        self.edge_list.push((source, target));
    }

    /// The edges recorded so far, in order.
    pub fn edge_list(&self) -> (r: &Vec<(N, N)>)
        ensures
            r@ == self.edges()@,
    {
        &self.edge_list
    }
}

/// A line between two nodes.
pub struct NodeLine<N> {
    pub start: N,
    pub end: N,
}

impl<N> NodeLine<N> {
    pub fn new(start: N, end: N) -> (r: Self)
        ensures
            r.start == start,
            r.end == end,
    {
        NodeLine { start, end }
    }
}

/// A path through nodes, like a line string.
pub struct NodeString<N>(pub Vec<N>);

impl<N: Clone> NodeString<N> {
    /// The nodes of the path, in order.
    pub fn iter<'a>(&'a self) -> (r: std::slice::Iter<'a, N>)
        ensures
            r.remaining().unref() == self.0@,
    {
        self.0.as_slice().iter()
    }

    /// The lines between consecutive nodes of the path.
    pub fn to_lines(&self) -> (r: Vec<NodeLine<N>>)
        ensures
            r@.len() == if self.0@.len() == 0 { 0 } else { self.0@.len() - 1 },
            forall|i: int|
                0 <= i < r@.len() ==> cloned(self.0@[i], (#[trigger] r@[i]).start) && cloned(
                    self.0@[i + 1],
                    r@[i].end,
                ),
    {
        let mut r: Vec<NodeLine<N>> = Vec::new();
        if self.0.len() == 0 {
            return r;
        }
        let mut i: usize = 1;
        while i < self.0.len()
            invariant
                1 <= i <= self.0@.len(),
                r@.len() == i - 1,
                forall|j: int|
                    0 <= j < r@.len() ==> cloned(self.0@[j], (#[trigger] r@[j]).start) && cloned(
                        self.0@[j + 1],
                        r@[j].end,
                    ),
            decreases self.0@.len() - i,
        {
            r.push(NodeLine::new(self.0[i - 1].clone(), self.0[i].clone()));
            i += 1;
        }
        r
    }
}

/// A polygon through nodes: an exterior ring and interior rings.
pub struct NodePolygon<N> {
    exterior: NodeString<N>,
    interiors: Vec<NodeString<N>>,
}

/// The nodes of `rings`, one ring after another.
pub open spec fn ring_nodes<N>(rings: Seq<NodeString<N>>) -> Seq<N>
    decreases rings.len(),
{
    if rings.len() == 0 {
        Seq::empty()
    } else {
        ring_nodes(rings.drop_last()) + rings.last().0@
    }
}

impl<N: Clone> NodePolygon<N> {
    pub fn new(exterior: NodeString<N>, interiors: Vec<NodeString<N>>) -> (r: Self)
        ensures
            r.all_nodes() == exterior.0@ + ring_nodes(interiors@),
    {
        NodePolygon { exterior, interiors }
    }

    /// The exterior's nodes, then those of each interior ring.
    pub closed spec fn all_nodes(&self) -> Seq<N> {
        self.exterior.0@ + ring_nodes(self.interiors@)
    }

    /// The interior rings.
    pub closed spec fn rings(&self) -> Seq<NodeString<N>> {
        self.interiors@
    }

    /// The interior rings.
    pub fn interiors(&self) -> (r: &Vec<NodeString<N>>)
        ensures
            r@ == self.rings(),
    {
        &self.interiors
    }

    /// References to the exterior's nodes, then to those of each interior ring.
    pub fn nodes_iter<'a>(&'a self) -> (r: Vec<&'a N>)
        ensures
            r@.len() == self.all_nodes().len(),
            forall|i: int| 0 <= i < r@.len() ==> *(#[trigger] r@[i]) == self.all_nodes()[i],
    {
        let mut r: Vec<&'a N> = Vec::new();
        let mut i: usize = 0;
        while i < self.exterior.0.len()
            invariant
                i <= self.exterior.0@.len(),
                r@.len() == i,
                forall|j: int| 0 <= j < i ==> *(#[trigger] r@[j]) == self.exterior.0@[j],
            decreases self.exterior.0@.len() - i,
        {
            r.push(&self.exterior.0[i]);
            i += 1;
        }
        let mut k: usize = 0;
        while k < self.interiors.len()
            invariant
                k <= self.interiors@.len(),
                r@.len() == self.exterior.0@.len() + ring_nodes(self.interiors@.take(k as int)).len(),
                forall|j: int|
                    0 <= j < r@.len() ==> *(#[trigger] r@[j]) == (self.exterior.0@ + ring_nodes(
                        self.interiors@.take(k as int),
                    ))[j],
            decreases self.interiors@.len() - k,
        {
            let ring = &self.interiors[k];
            let ghost before = self.exterior.0@ + ring_nodes(self.interiors@.take(k as int));
            assert(self.interiors@.take(k + 1).drop_last() =~= self.interiors@.take(k as int));
            let mut m: usize = 0;
            while m < ring.0.len()
                invariant
                    m <= ring.0@.len(),
                    r@.len() == before.len() + m,
                    forall|j: int| 0 <= j < before.len() ==> *(#[trigger] r@[j]) == before[j],
                    forall|j: int| 0 <= j < m ==> *(#[trigger] r@[before.len() + j]) == ring.0@[j],
                decreases ring.0@.len() - m,
            {
                r.push(&ring.0[m]);
                m += 1;
            }
            proof {
                let after = self.exterior.0@ + ring_nodes(self.interiors@.take(k + 1));
                assert(after =~= before + ring.0@);
                assert forall|j: int| 0 <= j < r@.len() implies *(#[trigger] r@[j]) == after[j] by {
                    if j >= before.len() {
                        assert(r@[before.len() + (j - before.len())] == r@[j]);
                    }
                }
            }
            k += 1;
        }
        assert(self.interiors@.take(k as int) =~= self.interiors@);
        r
    }
}

/// The type of a node identifier.
pub trait IdType {}

} // verus!
