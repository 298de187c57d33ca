use std::collections::{BTreeMap, HashMap, HashSet};
use sulu::graph_config::GraphConfig;
use sulu::osm::{Node, OsmId, Way};
use sulu::osm_cache::OSMCache;
use sulu::pbf_reader::{make_graph, Edge};

fn node(id: i64) -> Node {
    Node { id, decimicro_lat: id as i32, decimicro_lon: -(id as i32) }
}

fn way(id: i64, nodes: &[i64]) -> Way {
    Way { id, nodes: nodes.to_vec(), tags: vec![] }
}

fn counts(pairs: &[(i64, usize)]) -> HashMap<i64, usize> {
    pairs.iter().cloned().collect()
}

fn ends(es: &[Edge]) -> Vec<(i64, i64, i64)> {
    es.iter().map(|e| (e.way_osmid, e.start_node_id, e.end_node_id)).collect()
}

#[test]
fn strict_way_splits_at_shared_nodes() {
    let nodes: BTreeMap<i64, Node> = (1..=4).map(|i| (i, node(i))).collect();
    let mut ways = BTreeMap::new();
    ways.insert(1, way(1, &[1, 2, 3, 4]));
    let c = counts(&[(1, 1), (2, 2), (3, 1), (4, 1)]);
    let es = Edge::from_id(&OsmId::Way(1), &nodes, &ways, &c).unwrap();
    assert_eq!(ends(&es), vec![(1, 1, 2), (1, 2, 4)]);
    assert_eq!(es[1].geometry.len(), 3);
}

#[test]
fn strict_way_needs_every_node_and_count() {
    let nodes: BTreeMap<i64, Node> = [1, 3].iter().map(|&i| (i, node(i))).collect();
    let mut ways = BTreeMap::new();
    ways.insert(1, way(1, &[1, 2, 3]));
    ways.insert(2, way(2, &[1, 3]));
    ways.insert(3, way(3, &[]));
    let c = counts(&[(1, 2), (2, 1)]);
    assert!(Edge::from_id(&OsmId::Way(1), &nodes, &ways, &c).is_none());
    assert!(Edge::from_id(&OsmId::Way(2), &nodes, &ways, &c).is_none());
    assert!(Edge::from_id(&OsmId::Way(3), &nodes, &ways, &c).is_none());
    assert!(Edge::from_id(&OsmId::Way(9), &nodes, &ways, &c).is_none());
    assert!(Edge::from_id(&OsmId::Node(1), &nodes, &ways, &c).is_none());
}

#[test]
fn strict_closed_way_has_no_tail() {
    let nodes: BTreeMap<i64, Node> = (1..=3).map(|i| (i, node(i))).collect();
    let mut ways = BTreeMap::new();
    ways.insert(1, way(1, &[1, 2, 3, 1]));
    let c = counts(&[(1, 2), (2, 1), (3, 1)]);
    let es = Edge::from_id(&OsmId::Way(1), &nodes, &ways, &c).unwrap();
    assert!(es.is_empty());
}

#[test]
fn make_graph_skips_unbuildable_ways() {
    let nodes: BTreeMap<i64, Node> = (1..=3).map(|i| (i, node(i))).collect();
    let mut ways = BTreeMap::new();
    ways.insert(2, way(2, &[2, 3]));
    ways.insert(1, way(1, &[1, 2]));
    ways.insert(5, way(5, &[1, 9]));
    let c = counts(&[(1, 1), (2, 2), (3, 1), (9, 1)]);
    let es = make_graph(&nodes, &ways, &c).unwrap();
    assert_eq!(ends(&es), vec![(1, 1, 2), (2, 2, 3)]);
    assert_eq!(es[1].geometry, vec![node(2).coord(), node(3).coord()]);
}

#[test]
fn cache_make_graph() {
    let mut cache = OSMCache::new(GraphConfig { name: "g".to_string(), options: vec![] });
    let nodes: BTreeMap<i64, Node> = (1..=3).map(|i| (i, node(i))).collect();
    let mut ways = BTreeMap::new();
    ways.insert(1, way(1, &[1, 2, 3]));
    cache.load(nodes, ways).unwrap();
    let es = cache.make_graph().unwrap();
    assert_eq!(ends(&es), vec![(1, 1, 3)]);
}

#[test]
fn window_keeps_inside_nodes_and_touching_ways() {
    let mut cache = OSMCache::new(GraphConfig { name: "g".to_string(), options: vec![] });
    let nodes: BTreeMap<i64, Node> = (1..=5).map(|i| (i, node(i))).collect();
    let mut ways = BTreeMap::new();
    ways.insert(1, way(1, &[1, 2]));
    ways.insert(2, way(2, &[3, 4]));
    ways.insert(3, way(3, &[9, 5]));
    cache.load(nodes, ways).unwrap();
    let inside: HashSet<i64> = [2, 5, 9].iter().cloned().collect();
    let (n, w) = cache.window(&inside);
    assert_eq!(n.keys().cloned().collect::<Vec<_>>(), vec![2, 5]);
    assert_eq!(w.keys().cloned().collect::<Vec<_>>(), vec![1, 3]);
    assert_eq!(w.get(&3).unwrap().nodes, vec![9, 5]);
}

#[test]
fn cloned_way_keeps_nodes_and_tags() {
    let w = Way { id: 4, nodes: vec![1, 2, 1], tags: vec![("highway".to_string(), "path".to_string())] };
    let c = w.clone();
    assert_eq!(c.id, 4);
    assert_eq!(c.nodes, vec![1, 2, 1]);
    assert_eq!(c.tags, w.tags);
}
