//! The strict edge builder: ways are split only when every node they
//! reference is known and counted, and a way is never cut at a gap.

use vstd::prelude::*;
use std::collections::{BTreeMap, HashMap};
use crate::edge_list::Segment;
use crate::error::Error;
use crate::osm::{sorted_ids, sorted_keys, Coord, Node, OsmId, Way};

verus! {

/// An edge of a way: its ends and its points.
pub struct Edge {
    pub way_osmid: i64,
    pub start_node_id: i64,
    pub end_node_id: i64,
    pub geometry: Vec<Coord>,
}

impl Edge {
    pub open spec fn segment(&self) -> Segment {
        Segment { start: self.start_node_id, end: self.end_node_id, geometry: self.geometry@ }
    }
}

/// The segments of a list of edges.
pub open spec fn segments_of(es: Seq<Edge>) -> Seq<Segment> {
    es.map_values(|e: Edge| e.segment())
}

/// The way id and segment of each edge of a list.
pub open spec fn entries_of(es: Seq<Edge>) -> Seq<(i64, Segment)> {
    es.map_values(|e: Edge| (e.way_osmid, e.segment()))
}

/// The segments `segs`, each labelled with way `k`.
pub open spec fn of_way(k: i64, segs: Seq<Segment>) -> Seq<(i64, Segment)> {
    segs.map_values(|s: Segment| (k, s))
}

/// The state of a strict walk: the node that opened the current edge, its
/// points so far, and the edges already closed.
pub struct StrictWalk {
    pub start: i64,
    pub points: Seq<Coord>,
    pub segments: Seq<Segment>,
}

/// One step on node `n`: its point is added, and where `n` is shared with
/// another way and is not the current start, the edge is closed there and a
/// new one opens at `n`.
pub open spec fn strict_step(w: StrictWalk, n: i64, nodes: Map<i64, Node>, counts: Map<i64, usize>) -> StrictWalk {
    let c = nodes[n].spec_coord();
    let pts = w.points.push(c);
    if counts[n] > 1 && n != w.start {
        StrictWalk {
            start: n,
            points: seq![c],
            segments: w.segments.push(Segment { start: w.start, end: n, geometry: pts }),
        }
    } else {
        StrictWalk { start: w.start, points: pts, segments: w.segments }
    }
}

/// The strict walk over `ids`, opened at `first`.
pub open spec fn strict_walk(first: i64, ids: Seq<i64>, nodes: Map<i64, Node>, counts: Map<i64, usize>) -> StrictWalk
    decreases ids.len(),
{
    if ids.len() == 0 {
        StrictWalk { start: first, points: Seq::empty(), segments: Seq::empty() }
    } else {
        strict_step(strict_walk(first, ids.drop_last(), nodes, counts), ids.last(), nodes, counts)
    }
}

/// The segments of a non-empty node sequence: those closed during the walk,
/// then the tail unless it ends where it starts.
pub open spec fn strict_segments(ids: Seq<i64>, nodes: Map<i64, Node>, counts: Map<i64, usize>) -> Seq<Segment> {
    let w = strict_walk(ids[0], ids, nodes, counts);
    if w.start != ids.last() {
        w.segments.push(Segment { start: w.start, end: ids.last(), geometry: w.points })
    } else {
        w.segments
    }
}

/// Whether way `k` can be built: it is known, not empty, and each of its
/// nodes is known and counted.
pub open spec fn buildable(
    k: i64,
    nodes: Map<i64, Node>,
    ways: Map<i64, Way>,
    counts: Map<i64, usize>,
) -> bool {
    &&& ways.contains_key(k)
    &&& ways[k]@.nodes.len() > 0
    &&& forall|i: int|
        0 <= i < ways[k]@.nodes.len() ==> nodes.contains_key(#[trigger] ways[k]@.nodes[i])
            && counts.contains_key(ways[k]@.nodes[i])
}

impl Edge {
    /// The edges of the entity `osmid`: `None` unless it is a buildable way.
    pub fn from_id(
        osmid: &OsmId,
        nodes: &BTreeMap<i64, Node>,
        ways: &BTreeMap<i64, Way>,
        node_count: &HashMap<i64, usize>,
    ) -> (r: Option<Vec<Edge>>)
        ensures
            match *osmid {
                OsmId::Way(k) => if buildable(k, nodes@, ways@, node_count@) {
                    match r {
                        Some(es) => {
                            &&& segments_of(es@) == strict_segments(ways@[k]@.nodes, nodes@, node_count@)
                            &&& forall|i: int| 0 <= i < es@.len() ==> (#[trigger] es@[i]).way_osmid == k
                        },
                        None => false,
                    }
                } else {
                    r is None
                },
                _ => r is None,
            },
    {
        let k = match *osmid {
            OsmId::Way(k) => k,
            _ => { return None; },
        };
        let way = match ways.get(&k) {
            Some(w) => w,
            None => { return None; },
        };
        let ids = &way.nodes;
        if ids.len() == 0 {
            return None;
        }
        let mut i: usize = 0;
        while i < ids.len()
            invariant
                i <= ids@.len(),
                ways@.contains_key(k),
                ids@ == ways@[k]@.nodes,
                *osmid == OsmId::Way(k),
                forall|j: int| 0 <= j < i ==> nodes@.contains_key(#[trigger] ids@[j]) && node_count@.contains_key(ids@[j]),
            decreases ids@.len() - i,
        {
            if !nodes.contains_key(&ids[i]) || !node_count.contains_key(&ids[i]) {
                assert(!buildable(k, nodes@, ways@, node_count@)) by {
                    let n = ways@[k]@.nodes[i as int];
                    assert(!(nodes@.contains_key(n) && node_count@.contains_key(n)));
                }
                return None;
            }
            i += 1;
        }
        let mut edges: Vec<Edge> = Vec::new();
        let mut points: Vec<Coord> = Vec::new();
        let mut start: i64 = ids[0];
        let ghost first = ids@[0];
        let mut j: usize = 0;
        while j < ids.len()
            invariant
                j <= ids@.len(),
                ids@.len() > 0,
                ways@.contains_key(k),
                ids@ == ways@[k]@.nodes,
                *osmid == OsmId::Way(k),
                first == ids@[0],
                forall|m: int| 0 <= m < ids@.len() ==> nodes@.contains_key(#[trigger] ids@[m]) && node_count@.contains_key(ids@[m]),
                ({
                    let w = strict_walk(first, ids@.take(j as int), nodes@, node_count@);
                    &&& w.start == start
                    &&& w.points == points@
                    &&& w.segments == segments_of(edges@)
                }),
                forall|m: int| 0 <= m < edges@.len() ==> (#[trigger] edges@[m]).way_osmid == k,
            decreases ids@.len() - j,
        {
            let n = ids[j];
            proof {
                assert(ids@.take(j + 1).drop_last() =~= ids@.take(j as int));
            }
            let node = match nodes.get(&n) {
                Some(v) => v,
                None => { return None; },
            };
            let count: usize = match node_count.get(&n) {
                Some(c) => *c,
                None => { return None; },
            };
            let c = node.coord();
            points.push(c);
            if count > 1 && n != start {
                let ghost e0 = edges@;
                let geom = points;
                points = Vec::new();
                points.push(c);
                edges.push(Edge { way_osmid: k, start_node_id: start, end_node_id: n, geometry: geom });
                assert(segments_of(edges@) =~= segments_of(e0).push(edges@[edges@.len() - 1].segment()));
                assert(points@ =~= seq![c]);
                start = n;
            }
            j += 1;
        }
        assert(ids@.take(j as int) =~= ids@);
        let end = ids[ids.len() - 1];
        if start != end {
            let ghost e0 = edges@;
            edges.push(Edge { way_osmid: k, start_node_id: start, end_node_id: end, geometry: points });
            assert(segments_of(edges@) =~= segments_of(e0).push(edges@[edges@.len() - 1].segment()));
        }
        Some(edges)
    }
}

/// The edges of the buildable ways `ids` of `ways`, way after way.
pub open spec fn strict_graph(
    ids: Seq<i64>,
    nodes: Map<i64, Node>,
    ways: Map<i64, Way>,
    counts: Map<i64, usize>,
) -> Seq<(i64, Segment)>
    decreases ids.len(),
{
    if ids.len() == 0 {
        Seq::empty()
    } else {
        let k = ids.last();
        strict_graph(ids.drop_last(), nodes, ways, counts) + if buildable(k, nodes, ways, counts) {
            of_way(k, strict_segments(ways[k]@.nodes, nodes, counts))
        } else {
            Seq::empty()
        }
    }
}

/// The edges of every buildable way, in increasing way id order; the others
/// are left out.
pub fn make_graph(
    nodes: &BTreeMap<i64, Node>,
    ways: &BTreeMap<i64, Way>,
    node_count: &HashMap<i64, usize>,
) -> (r: Result<Vec<Edge>, Error>)
    ensures
        match r {
            Ok(es) => entries_of(es@) == strict_graph(sorted_ids(ways@.dom()), nodes@, ways@, node_count@),
            Err(_) => false,
        },
{
    let ids = sorted_keys(ways);
    let mut edges: Vec<Edge> = Vec::new();
    let mut i: usize = 0;
    while i < ids.len()
        invariant
            i <= ids@.len(),
            ids@ == sorted_ids(ways@.dom()),
            entries_of(edges@) == strict_graph(ids@.take(i as int), nodes@, ways@, node_count@),
        decreases ids@.len() - i,
    {
        proof {
            assert(ids@.take(i + 1).drop_last() =~= ids@.take(i as int));
        }
        let ghost e0 = edges@;
        match Edge::from_id(&OsmId::Way(ids[i]), nodes, ways, node_count) {
            Some(es) => {
                let mut es = es;
                let ghost added = es@;
                edges.append(&mut es);
                assert(entries_of(added) =~= of_way(ids@[i as int], segments_of(added)));
                assert(entries_of(edges@) =~= entries_of(e0) + entries_of(added));
            },
            None => {
                assert(entries_of(edges@) =~= entries_of(e0) + Seq::<(i64, Segment)>::empty());
            },
        }
        i += 1;
    }
    assert(ids@.take(i as int) =~= ids@);
    Ok(edges)
}

} // verus!
