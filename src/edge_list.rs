//! Splitting classified ways into edges at junctions and data gaps.

use vstd::prelude::*;
use std::collections::{BTreeMap, HashMap};
use crate::error::Error;
use crate::graph_config::{GraphConfigOption, OptionView};
use crate::osm::{sorted_ids, sorted_keys, Coord, Node, OsmId, Way};
use crate::osm_cache::OSMCache;

verus! {

/// A piece of a way between two split points.
pub struct Segment {
    pub start: i64,
    pub end: i64,
    pub geometry: Seq<Coord>,
}

/// The state of a walk along a way's node sequence: the node that opened the
/// edge in progress, the last node confirmed since then, the points gathered,
/// and the segments already closed.
pub struct Walk {
    pub start: Option<i64>,
    pub last: Option<i64>,
    pub points: Seq<Coord>,
    pub segments: Seq<Segment>,
}

/// The reference count of node `n`; a node never counted is referenced once.
pub open spec fn count_of(counts: Map<i64, usize>, n: i64) -> nat {
    if counts.contains_key(n) {
        counts[n] as nat
    } else {
        1
    }
}

/// One step of the walk, on node `n`.
///
/// A known node extends the edge in progress, or opens one. Where it is a
/// junction (count above one) and not the node that opened the edge, the edge
/// is closed there and a new one opens at it. A node that is not known ends
/// the edge in progress, which is kept only if it has at least two points.
pub open spec fn step(w: Walk, n: i64, nodes: Map<i64, Node>, counts: Map<i64, usize>) -> Walk {
    if nodes.contains_key(n) {
        let c = nodes[n].spec_coord();
        match w.start {
            Some(s) => {
                let pts = w.points.push(c);
                if count_of(counts, n) > 1 && s != n {
                    Walk {
                        start: Some(n),
                        last: None,
                        points: seq![c],
                        segments: w.segments.push(Segment { start: s, end: n, geometry: pts }),
                    }
                } else {
                    Walk { start: Some(s), last: Some(n), points: pts, segments: w.segments }
                }
            },
            None => Walk { start: Some(n), last: None, points: seq![c], segments: w.segments },
        }
    } else {
        match w.start {
            Some(s) => {
                let end = match w.last {
                    Some(e) => e,
                    None => n,
                };
                let segs = if w.points.len() > 1 {
                    w.segments.push(Segment { start: s, end, geometry: w.points })
                } else {
                    w.segments
                };
                Walk { start: None, last: None, points: Seq::empty(), segments: segs }
            },
            None => w,
        }
    }
}

/// The walk over the node sequence `ids`.
pub open spec fn walk(ids: Seq<i64>, nodes: Map<i64, Node>, counts: Map<i64, usize>) -> Walk
    decreases ids.len(),
{
    if ids.len() == 0 {
        Walk { start: None, last: None, points: Seq::empty(), segments: Seq::empty() }
    } else {
        step(walk(ids.drop_last(), nodes, counts), ids.last(), nodes, counts)
    }
}

/// The segments of a way: those closed during the walk, then the trailing
/// edge if one is still in progress.
pub open spec fn way_segments(ids: Seq<i64>, nodes: Map<i64, Node>, counts: Map<i64, usize>) -> Seq<Segment> {
    let w = walk(ids, nodes, counts);
    match (w.start, w.last) {
        (Some(s), Some(e)) => w.segments.push(Segment { start: s, end: e, geometry: w.points }),
        _ => w.segments,
    }
}

/// An edge of the output graph.
pub struct Edge {
    pub way_osmid: i64,
    pub start_node_id: i64,
    pub end_node_id: i64,
    pub graph_config_option: GraphConfigOption,
    pub geometry: Vec<Coord>,
}

pub struct EdgeView {
    pub way: i64,
    pub start: i64,
    pub end: i64,
    pub category: OptionView,
    pub geometry: Seq<Coord>,
}

impl View for Edge {
    type V = EdgeView;

    open spec fn view(&self) -> EdgeView {
        EdgeView {
            way: self.way_osmid,
            start: self.start_node_id,
            end: self.end_node_id,
            category: self.graph_config_option@,
            geometry: self.geometry@,
        }
    }
}

/// The mathematical form of a list of edges.
pub open spec fn edges_view(es: Seq<Edge>) -> Seq<EdgeView> {
    es.map_values(|e: Edge| e@)
}

/// The edges of way `way` in category `category`, one per segment.
pub open spec fn stamp(way: i64, category: OptionView, segs: Seq<Segment>) -> Seq<EdgeView> {
    segs.map_values(
        |s: Segment| EdgeView { way, start: s.start, end: s.end, category, geometry: s.geometry },
    )
}

/// The edges of way `way`, with node sequence `ids`, in category `category`.
pub open spec fn way_edges(
    way: i64,
    category: OptionView,
    ids: Seq<i64>,
    nodes: Map<i64, Node>,
    counts: Map<i64, usize>,
) -> Seq<EdgeView> {
    stamp(way, category, way_segments(ids, nodes, counts))
}

proof fn lemma_stamp_push(way: i64, category: OptionView, segs: Seq<Segment>, s: Segment)
    ensures
        stamp(way, category, segs.push(s)) == stamp(way, category, segs).push(
            EdgeView { way, start: s.start, end: s.end, category, geometry: s.geometry },
        ),
{
    assert(stamp(way, category, segs.push(s)) =~= stamp(way, category, segs).push(
        EdgeView { way, start: s.start, end: s.end, category, geometry: s.geometry },
    ));
}

/// Splits the way `way_id` into edges of category `gco`.
pub fn edges_from_way(
    way_id: i64,
    way: &Way,
    gco: &GraphConfigOption,
    nodes: &BTreeMap<i64, Node>,
    counts: &HashMap<i64, usize>,
) -> (r: Vec<Edge>)
    ensures
        edges_view(r@) == way_edges(way_id, gco@, way@.nodes, nodes@, counts@),
{
    let mut edges: Vec<Edge> = Vec::new();
    let mut points: Vec<Coord> = Vec::new();
    let mut start: Option<i64> = None;
    let mut last: Option<i64> = None;
    let mut j: usize = 0;
    while j < way.nodes.len()
        invariant
            j <= way.nodes.len(),
            ({
                let w = walk(way@.nodes.take(j as int), nodes@, counts@);
                &&& w.start == start
                &&& w.last == last
                &&& w.points == points@
                &&& edges_view(edges@) == stamp(way_id, gco@, w.segments)
            }),
        decreases way.nodes.len() - j,
    {
        let n = way.nodes[j];
        let ghost e0 = edges@;
        let ghost w0 = walk(way@.nodes.take(j as int), nodes@, counts@);
        proof {
            let t = way@.nodes.take(j + 1);
            assert(t.drop_last() =~= way@.nodes.take(j as int));
            assert(t.last() == n);
        }
        let count: usize = match counts.get(&n) {
            Some(c) => *c,
            None => 1,
        };
        assert(count as nat == count_of(counts@, n));
        match nodes.get(&n) {
            Some(node) => {
                let c = node.coord();
                match start {
                    Some(s) => {
                        points.push(c);
                        if count > 1 && s != n {
                            let geom = points;
                            points = Vec::new();
                            points.push(c);
                            proof {
                                lemma_stamp_push(way_id, gco@, w0.segments, Segment { start: s, end: n, geometry: geom@ });
                            }
                            edges.push(Edge {
                                way_osmid: way_id,
                                start_node_id: s,
                                end_node_id: n,
                                graph_config_option: gco.clone(),
                                geometry: geom,
                            });
                            assert(edges_view(edges@) =~= edges_view(e0).push(edges@[edges@.len() - 1]@));
                            start = Some(n);
                            last = None;
                            assert(points@ =~= seq![c]);
                        } else {
                            last = Some(n);
                        }
                    },
                    None => {
                        points = Vec::new();
                        points.push(c);
                        start = Some(n);
                        last = None;
                        assert(points@ =~= seq![c]);
                    },
                }
            },
            None => {
                match start {
                    Some(s) => {
                        if points.len() > 1 {
                            let end = match last {
                                Some(e) => e,
                                None => n,
                            };
                            let geom = points;
                            proof {
                                lemma_stamp_push(way_id, gco@, w0.segments, Segment { start: s, end, geometry: geom@ });
                            }
                            edges.push(Edge {
                                way_osmid: way_id,
                                start_node_id: s,
                                end_node_id: end,
                                graph_config_option: gco.clone(),
                                geometry: geom,
                            });
                            assert(edges_view(edges@) =~= edges_view(e0).push(edges@[edges@.len() - 1]@));
                        }
                        points = Vec::new();
                        start = None;
                        last = None;
                        assert(points@ =~= Seq::<Coord>::empty());
                    },
                    None => {},
                }
            },
        }
        j += 1;
    }
    assert(way@.nodes.take(j as int) =~= way@.nodes);
    let ghost e0 = edges@;
    match (start, last) {
        (Some(s), Some(e)) => {
            let ghost w = walk(way@.nodes, nodes@, counts@);
            proof {
                lemma_stamp_push(way_id, gco@, w.segments, Segment { start: s, end: e, geometry: points@ });
            }
            edges.push(Edge {
                way_osmid: way_id,
                start_node_id: s,
                end_node_id: e,
                graph_config_option: gco.clone(),
                geometry: points,
            });
            assert(edges_view(edges@) =~= edges_view(e0).push(edges@[edges@.len() - 1]@));
        },
        _ => {},
    }
    edges
}

/// The category of cached way `k`: the first rule that matches its tags.
pub open spec fn category(c: OSMCache, k: i64) -> Option<OptionView> {
    c.graph_config@.first_match(c.ways@[k]@.tags)
}

/// The edges of the cached ways `ids`, way after way.
pub open spec fn cache_edges(c: OSMCache, ids: Seq<i64>) -> Seq<EdgeView>
    decreases ids.len(),
{
    if ids.len() == 0 {
        Seq::empty()
    } else {
        let k = ids.last();
        cache_edges(c, ids.drop_last()) + way_edges(
            k,
            category(c, k)->Some_0,
            c.ways@[k]@.nodes,
            c.nodes@,
            c.node_count@,
        )
    }
}

/// The edges of the entity `osmid` of the cache: `None` for a node, the way's
/// edges for a way. An id the cache does not hold, and a way that no rule
/// matches, give `MissingInfo`.
pub fn edges_from_osm_id(osmid: &OsmId, osm_cache: &OSMCache) -> (r: Result<Option<Vec<Edge>>, Error>)
    ensures
        match *osmid {
            OsmId::Way(k) => if osm_cache.ways@.contains_key(k) && category(*osm_cache, k) is Some {
                match r {
                    Ok(Some(es)) => edges_view(es@) == way_edges(
                        k,
                        category(*osm_cache, k)->Some_0,
                        osm_cache.ways@[k]@.nodes,
                        osm_cache.nodes@,
                        osm_cache.node_count@,
                    ),
                    _ => false,
                }
            } else {
                r == Err::<Option<Vec<Edge>>, Error>(Error::MissingInfo(*osmid))
            },
            OsmId::Node(k) => if osm_cache.nodes@.contains_key(k) {
                r == Ok::<Option<Vec<Edge>>, Error>(None)
            } else {
                r == Err::<Option<Vec<Edge>>, Error>(Error::MissingInfo(*osmid))
            },
            OsmId::Relation(_) => r == Err::<Option<Vec<Edge>>, Error>(Error::MissingInfo(*osmid)),
        },
{
    match *osmid {
        OsmId::Way(k) => {
            let way = match osm_cache.ways.get(&k) {
                Some(w) => w,
                None => { return Err(Error::MissingInfo(*osmid)); },
            };
            let gco = match osm_cache.graph_config.matching_option(&way.tags) {
                Some(o) => o,
                None => { return Err(Error::MissingInfo(*osmid)); },
            };
            let edges = edges_from_way(k, way, &gco, &osm_cache.nodes, &osm_cache.node_count);
            Ok(Some(edges))
        },
        OsmId::Node(k) => {
            if osm_cache.nodes.contains_key(&k) {
                Ok(None)
            } else {
                Err(Error::MissingInfo(*osmid))
            }
        },
        OsmId::Relation(_) => Err(Error::MissingInfo(*osmid)),
    }
}

/// The edge list of a cache.
pub struct EdgeList {
    pub edges: Vec<Edge>,
}

impl EdgeList {
    /// Splits every cached way, in increasing id order, into edges.
    /// Fails with `MissingInfo` on the first way that no rule matches.
    pub fn try_from(osm_cache: OSMCache) -> (r: Result<EdgeList, Error>)
        ensures
            ({
                let ids = sorted_ids(osm_cache.ways@.dom());
                match r {
                    Ok(el) => {
                        &&& forall|i: int| 0 <= i < ids.len() ==> (#[trigger] category(osm_cache, ids[i])) is Some
                        &&& edges_view(el.edges@) == cache_edges(osm_cache, ids)
                    },
                    Err(e) => exists|i: int|
                        0 <= i < ids.len() && (#[trigger] category(osm_cache, ids[i])) is None && (forall|j: int|
                            0 <= j < i ==> (#[trigger] category(osm_cache, ids[j])) is Some) && e == Error::MissingInfo(
                            OsmId::Way(ids[i]),
                        ),
                }
            }),
    {
        let ids = sorted_keys(&osm_cache.ways);
        let mut edges: Vec<Edge> = Vec::new();
        let mut i: usize = 0;
        while i < ids.len()
            invariant
                i <= ids.len(),
                ids@ == sorted_ids(osm_cache.ways@.dom()),
                ids@.to_set() == osm_cache.ways@.dom(),
                forall|j: int| 0 <= j < i ==> (#[trigger] category(osm_cache, ids@[j])) is Some,
                edges_view(edges@) == cache_edges(osm_cache, ids@.take(i as int)),
            decreases ids.len() - i,
        {
            let id = OsmId::Way(ids[i]);
            proof {
                assert(ids@.to_set().contains(ids@[i as int]));
                assert(ids@.take(i + 1).drop_last() =~= ids@.take(i as int));
            }
            match edges_from_osm_id(&id, &osm_cache) {
                Ok(Some(es)) => {
                    let ghost e0 = edges@;
                    let mut es = es;
                    edges.append(&mut es);
                    assert(edges_view(edges@) =~= edges_view(e0) + way_edges(
                        ids@[i as int],
                        category(osm_cache, ids@[i as int])->Some_0,
                        osm_cache.ways@[ids@[i as int]]@.nodes,
                        osm_cache.nodes@,
                        osm_cache.node_count@,
                    ));
                },
                Ok(None) => {},
                Err(e) => {
                    return Err(e);
                },
            }
            i += 1;
        }
        assert(ids@.take(i as int) =~= ids@);
        Ok(EdgeList { edges })
    }
}

/// The positions of `ids`, from the second up to `m` (excluded), whose node
/// is a junction.
pub open spec fn junctions_before(ids: Seq<i64>, counts: Map<i64, usize>, m: int) -> nat
    decreases m,
{
    if m <= 1 {
        0
    } else {
        junctions_before(ids, counts, m - 1) + if count_of(counts, ids[m - 1]) > 1 { 1nat } else { 0nat }
    }
}

/// The number of junctions strictly inside the node sequence `ids`.
pub open spec fn interior_junctions(ids: Seq<i64>, counts: Map<i64, usize>) -> nat {
    junctions_before(ids, counts, ids.len() - 1)
}

/// The positions of the nodes `ids`.
pub open spec fn coords(ids: Seq<i64>, nodes: Map<i64, Node>) -> Seq<Coord> {
    ids.map_values(|n: i64| nodes[n].spec_coord())
}

proof fn lemma_walk_unfold(ids: Seq<i64>, m: int, nodes: Map<i64, Node>, counts: Map<i64, usize>)
    requires
        0 <= m < ids.len(),
    ensures
        walk(ids.take(m + 1), nodes, counts) == step(walk(ids.take(m), nodes, counts), ids[m], nodes, counts),
{
    assert(ids.take(m + 1).drop_last() =~= ids.take(m));
}

proof fn lemma_walk_interior(ids: Seq<i64>, nodes: Map<i64, Node>, counts: Map<i64, usize>, m: int)
    requires
        1 <= m < ids.len(),
        forall|i: int| 0 <= i < ids.len() ==> nodes.contains_key(#[trigger] ids[i]),
        forall|p: int, i: int| 0 <= p < i < ids.len() - 1 ==> ids[p] != ids[i],
    ensures
        ({
            let w = walk(ids.take(m), nodes, counts);
            &&& exists|p: int| 0 <= p < m && w.start == Some(ids[p])
            &&& w.segments.len() == junctions_before(ids, counts, m)
        }),
    decreases m,
{
    lemma_walk_unfold(ids, m - 1, nodes, counts);
    if m == 1 {
        assert(ids.take(0) =~= Seq::<i64>::empty());
        assert(walk(ids.take(1), nodes, counts).start == Some(ids[0]));
    } else {
        lemma_walk_interior(ids, nodes, counts, m - 1);
        let w = walk(ids.take(m - 1), nodes, counts);
        let p = choose|p: int| 0 <= p < m - 1 && w.start == Some(ids[p]);
        assert(nodes.contains_key(ids[m - 1]));
        assert(ids[p] != ids[m - 1]);
        let w1 = walk(ids.take(m), nodes, counts);
        if count_of(counts, ids[m - 1]) > 1 {
            assert(w1.start == Some(ids[m - 1]));
        } else {
            assert(w1.start == Some(ids[p]));
        }
    }
}

/// A way whose nodes are all known, and whose inner nodes are distinct from one
/// another and from the first, gives one edge more than it has inner junctions.
pub proof fn lemma_edge_count(ids: Seq<i64>, nodes: Map<i64, Node>, counts: Map<i64, usize>)
    requires
        ids.len() >= 2,
        forall|i: int| 0 <= i < ids.len() ==> nodes.contains_key(#[trigger] ids[i]),
        forall|p: int, i: int| 0 <= p < i < ids.len() - 1 ==> ids[p] != ids[i],
    ensures
        way_segments(ids, nodes, counts).len() == interior_junctions(ids, counts) + 1,
{
    let m = ids.len() - 1;
    lemma_walk_interior(ids, nodes, counts, m);
    lemma_walk_unfold(ids, m, nodes, counts);
    assert(ids.take(m + 1) =~= ids);
    let w = walk(ids.take(m), nodes, counts);
    let p = choose|p: int| 0 <= p < m && w.start == Some(ids[p]);
    assert(nodes.contains_key(ids[m]));
}

proof fn lemma_walk_plain(ids: Seq<i64>, nodes: Map<i64, Node>, counts: Map<i64, usize>, m: int)
    requires
        1 <= m < ids.len(),
        forall|i: int| 0 <= i < ids.len() ==> nodes.contains_key(#[trigger] ids[i]),
        forall|i: int| 1 <= i < ids.len() - 1 ==> count_of(counts, #[trigger] ids[i]) <= 1,
    ensures
        ({
            let w = walk(ids.take(m), nodes, counts);
            &&& w.start == Some(ids[0])
            &&& w.last == if m == 1 { None } else { Some(ids[m - 1]) }
            &&& w.points == coords(ids.take(m), nodes)
            &&& w.segments.len() == 0
        }),
    decreases m,
{
    lemma_walk_unfold(ids, m - 1, nodes, counts);
    assert(nodes.contains_key(ids[m - 1]));
    if m == 1 {
        assert(ids.take(0) =~= Seq::<i64>::empty());
        assert(coords(ids.take(1), nodes) =~= seq![nodes[ids[0]].spec_coord()]);
    } else {
        lemma_walk_plain(ids, nodes, counts, m - 1);
        assert(coords(ids.take(m), nodes) =~= coords(ids.take(m - 1), nodes).push(nodes[ids[m - 1]].spec_coord()));
    }
}

/// A way whose nodes are all known and whose inner nodes are no junctions
/// gives exactly one edge, from its first node to its last, over all its points.
pub proof fn lemma_single_edge(ids: Seq<i64>, nodes: Map<i64, Node>, counts: Map<i64, usize>)
    requires
        ids.len() >= 2,
        forall|i: int| 0 <= i < ids.len() ==> nodes.contains_key(#[trigger] ids[i]),
        interior_junctions(ids, counts) == 0,
    ensures
        way_segments(ids, nodes, counts) == seq![
            Segment { start: ids[0], end: ids.last(), geometry: coords(ids, nodes) },
        ],
{
    let m = ids.len() - 1;
    assert forall|i: int| 1 <= i < ids.len() - 1 implies count_of(counts, #[trigger] ids[i]) <= 1 by {
        lemma_junctions_zero(ids, counts, m, i);
    }
    lemma_walk_plain(ids, nodes, counts, m);
    lemma_walk_unfold(ids, m, nodes, counts);
    assert(ids.take(m + 1) =~= ids);
    assert(nodes.contains_key(ids[m]));
    assert(coords(ids, nodes) =~= coords(ids.take(m), nodes).push(nodes[ids[m]].spec_coord()));
    assert(way_segments(ids, nodes, counts) =~= seq![
        Segment { start: ids[0], end: ids.last(), geometry: coords(ids, nodes) },
    ]);
}

proof fn lemma_junctions_zero(ids: Seq<i64>, counts: Map<i64, usize>, m: int, i: int)
    requires
        junctions_before(ids, counts, m) == 0,
        1 <= i < m,
    ensures
        count_of(counts, ids[i]) <= 1,
    decreases m,
{
    if i < m - 1 {
        lemma_junctions_zero(ids, counts, m - 1, i);
    }
}

/// A three-node way whose middle node is not known gives no edge: on each
/// side of the gap only one point is known.
pub proof fn lemma_gap_in_three(ids: Seq<i64>, nodes: Map<i64, Node>, counts: Map<i64, usize>)
    requires
        ids.len() == 3,
        !nodes.contains_key(ids[1]),
    ensures
        way_segments(ids, nodes, counts).len() == 0,
{
    lemma_walk_unfold(ids, 0, nodes, counts);
    lemma_walk_unfold(ids, 1, nodes, counts);
    lemma_walk_unfold(ids, 2, nodes, counts);
    assert(ids.take(0) =~= Seq::<i64>::empty());
    assert(ids.take(3) =~= ids);
}

} // verus!
