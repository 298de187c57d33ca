use geo::algorithm::geodesic_length::GeodesicLength;
use std::collections::BTreeMap;
use sulu::edge_list::{edges_from_osm_id, EdgeList};
use sulu::error::Error;
use sulu::graph_config::{GraphConfig, GraphConfigOption};
use sulu::matcher::{MatchKind, Matcher};
use sulu::osm::{Coord, Node, OsmId, Way};
use sulu::osm_cache::{count_nodes, OSMCache};

fn roads() -> GraphConfig {
    GraphConfig {
        name: "roads".to_string(),
        options: vec![GraphConfigOption {
            name: "road".to_string(),
            requires: vec![Matcher { key: "highway".to_string(), kind: MatchKind::All }],
            excludes: vec![],
        }],
    }
}

fn node(id: i64) -> Node {
    Node { id, decimicro_lat: (id * 10) as i32, decimicro_lon: id as i32 }
}

fn road(id: i64, nodes: &[i64]) -> Way {
    Way { id, nodes: nodes.to_vec(), tags: vec![("highway".to_string(), "primary".to_string())] }
}

fn node_map(ids: &[i64]) -> BTreeMap<i64, Node> {
    ids.iter().map(|&i| (i, node(i))).collect()
}

fn way_map(ways: Vec<Way>) -> BTreeMap<i64, Way> {
    ways.into_iter().map(|w| (w.id, w)).collect()
}

fn cache_with(nodes: &[i64], ways: Vec<Way>) -> OSMCache {
    let mut c = OSMCache::new(roads());
    c.load(node_map(nodes), way_map(ways)).unwrap();
    c
}

fn ends(el: &EdgeList) -> Vec<(i64, i64, i64)> {
    el.edges.iter().map(|e| (e.way_osmid, e.start_node_id, e.end_node_id)).collect()
}

fn coords(ids: &[i64]) -> Vec<Coord> {
    ids.iter().map(|&i| node(i).coord()).collect()
}

#[test]
fn count_nodes_counts_every_reference() {
    let ways = way_map(vec![road(1, &[10, 11, 12]), road(2, &[12, 13, 12])]);
    let counts = count_nodes(&ways).unwrap();
    assert_eq!(counts.get(&10), Some(&1));
    assert_eq!(counts.get(&12), Some(&3));
    assert_eq!(counts.get(&13), Some(&1));
    assert_eq!(counts.get(&99), None);
    assert_eq!(counts.len(), 4);
    assert!(count_nodes(&BTreeMap::new()).unwrap().is_empty());
}

#[test]
fn load_merges_counts_by_maximum() {
    let mut c = OSMCache::new(roads());
    c.load(node_map(&[1, 2, 3]), way_map(vec![road(100, &[1, 2]), road(101, &[2, 3])])).unwrap();
    assert_eq!(c.node_count.get(&2), Some(&2));
    // A second window sees node 2 once and node 4 once: node 2 keeps the larger count.
    c.load(node_map(&[2, 4]), way_map(vec![road(102, &[2, 4])])).unwrap();
    assert_eq!(c.node_count.get(&2), Some(&2));
    assert_eq!(c.node_count.get(&4), Some(&1));
    assert_eq!(c.ways.len(), 3);
    assert_eq!(c.nodes.len(), 4);
}

#[test]
fn load_keeps_objects_already_present() {
    let mut c = OSMCache::new(roads());
    c.load(node_map(&[1]), way_map(vec![road(100, &[1])])).unwrap();
    let mut moved = BTreeMap::new();
    moved.insert(1, Node { id: 1, decimicro_lat: 555, decimicro_lon: 777 });
    c.load(moved, way_map(vec![road(100, &[1, 2, 3])])).unwrap();
    assert_eq!(c.nodes.get(&1), Some(&node(1)));
    assert_eq!(c.ways.get(&100).unwrap().nodes, vec![1]);
}

#[test]
fn reloading_changes_nothing() {
    let mut c = OSMCache::new(roads());
    let nodes = node_map(&[1, 2, 3]);
    let ways = vec![road(100, &[1, 2, 3]), road(101, &[3, 2])];
    c.load(nodes.clone(), way_map(ways.iter().map(|w| road(w.id, &w.nodes)).collect())).unwrap();
    let before_counts = c.node_count.clone();
    let before_nodes = c.nodes.clone();
    c.load(nodes, way_map(ways)).unwrap();
    assert_eq!(c.node_count, before_counts);
    assert_eq!(c.nodes, before_nodes);
    assert_eq!(c.ways.len(), 2);
}

#[test]
fn disjoint_windows_load_in_either_order() {
    let a = || (node_map(&[1, 2]), way_map(vec![road(100, &[1, 2])]));
    let b = || (node_map(&[3, 4]), way_map(vec![road(200, &[3, 4])]));
    let mut ab = OSMCache::new(roads());
    let (n, w) = a();
    ab.load(n, w).unwrap();
    let (n, w) = b();
    ab.load(n, w).unwrap();
    let mut ba = OSMCache::new(roads());
    let (n, w) = b();
    ba.load(n, w).unwrap();
    let (n, w) = a();
    ba.load(n, w).unwrap();
    assert_eq!(ab.nodes, ba.nodes);
    assert_eq!(ab.ways.keys().collect::<Vec<_>>(), ba.ways.keys().collect::<Vec<_>>());
}

#[test]
fn way_splits_at_shared_node() {
    // Way 1 is A-B-C-D; way 2 shares B.
    let c = cache_with(&[1, 2, 3, 4, 5], vec![road(1, &[1, 2, 3, 4]), road(2, &[2, 5])]);
    let el = EdgeList::try_from(c).unwrap();
    assert_eq!(ends(&el), vec![(1, 1, 2), (1, 2, 4), (2, 2, 5)]);
    assert_eq!(el.edges[0].geometry, coords(&[1, 2]));
    assert_eq!(el.edges[1].geometry, coords(&[2, 3, 4]));
    assert_eq!(el.edges[1].graph_config_option.name, "road");
}

#[test]
fn way_without_junctions_is_one_edge() {
    let c = cache_with(&[1, 2, 3, 4], vec![road(7, &[1, 2, 3, 4])]);
    let el = EdgeList::try_from(c).unwrap();
    assert_eq!(ends(&el), vec![(7, 1, 4)]);
    assert_eq!(el.edges[0].geometry, coords(&[1, 2, 3, 4]));
}

#[test]
fn k_junctions_give_k_plus_one_edges() {
    let c = cache_with(
        &[1, 2, 3, 4, 5, 6, 7],
        vec![road(1, &[1, 2, 3, 4, 5]), road(2, &[2, 6]), road(3, &[4, 7])],
    );
    let el = EdgeList::try_from(c).unwrap();
    let way1: Vec<_> = ends(&el).into_iter().filter(|e| e.0 == 1).collect();
    assert_eq!(way1, vec![(1, 1, 2), (1, 2, 4), (1, 4, 5)]);
}

#[test]
fn gap_in_the_middle_gives_no_edge() {
    let c = cache_with(&[1, 3], vec![road(1, &[1, 2, 3])]);
    let el = EdgeList::try_from(c).unwrap();
    assert!(el.edges.is_empty());
}

#[test]
fn gap_ends_the_edge_in_progress() {
    let c = cache_with(&[1, 2, 4, 5], vec![road(1, &[1, 2, 3, 4, 5])]);
    let el = EdgeList::try_from(c).unwrap();
    assert_eq!(ends(&el), vec![(1, 1, 2), (1, 4, 5)]);
    assert_eq!(el.edges[1].geometry, coords(&[4, 5]));
}

#[test]
fn lone_node_gives_no_edge() {
    let c = cache_with(&[1], vec![road(1, &[1])]);
    assert!(EdgeList::try_from(c).unwrap().edges.is_empty());
    let c = cache_with(&[], vec![road(1, &[])]);
    assert!(EdgeList::try_from(c).unwrap().edges.is_empty());
}

#[test]
fn closed_loop_does_not_split_at_its_start() {
    // The ring 1-2-3-1 references node 1 twice.
    let c = cache_with(&[1, 2, 3], vec![road(1, &[1, 2, 3, 1])]);
    let el = EdgeList::try_from(c).unwrap();
    assert_eq!(ends(&el), vec![(1, 1, 1)]);
    assert_eq!(el.edges[0].geometry, coords(&[1, 2, 3, 1]));
}

#[test]
fn way_ending_on_junction_has_no_trailing_point_edge() {
    let c = cache_with(&[1, 2, 3], vec![road(1, &[1, 2]), road(2, &[3, 2])]);
    let el = EdgeList::try_from(c).unwrap();
    assert_eq!(ends(&el), vec![(1, 1, 2), (2, 3, 2)]);
}

#[test]
fn unclassified_way_is_missing_info() {
    let mut c = cache_with(&[1, 2], vec![road(1, &[1, 2])]);
    let mut odd = BTreeMap::new();
    odd.insert(5, Way { id: 5, nodes: vec![1, 2], tags: vec![("railway".to_string(), "rail".to_string())] });
    c.load(BTreeMap::new(), odd).unwrap();
    match EdgeList::try_from(c) {
        Err(Error::MissingInfo(id)) => assert_eq!(id, OsmId::Way(5)),
        other => panic!("unexpected {:?}", other.map(|el| el.edges.len())),
    }
}

#[test]
fn edges_from_osm_id_by_kind() {
    let c = cache_with(&[1, 2], vec![road(9, &[1, 2])]);
    let es = edges_from_osm_id(&OsmId::Way(9), &c).unwrap().unwrap();
    assert_eq!(es.len(), 1);
    assert!(edges_from_osm_id(&OsmId::Node(1), &c).unwrap().is_none());
    assert!(matches!(edges_from_osm_id(&OsmId::Node(3), &c), Err(Error::MissingInfo(OsmId::Node(3)))));
    assert!(matches!(edges_from_osm_id(&OsmId::Way(8), &c), Err(Error::MissingInfo(OsmId::Way(8)))));
    assert!(matches!(
        edges_from_osm_id(&OsmId::Relation(9), &c),
        Err(Error::MissingInfo(OsmId::Relation(9)))
    ));
}

#[test]
fn edge_length_is_geodesic_distance() {
    let mut c = OSMCache::new(roads());
    let mut nodes = BTreeMap::new();
    nodes.insert(1, Node { id: 1, decimicro_lat: 0, decimicro_lon: 0 });
    nodes.insert(2, Node { id: 2, decimicro_lat: 10_000_000, decimicro_lon: 0 });
    c.load(nodes, way_map(vec![road(1, &[1, 2])])).unwrap();
    let el = EdgeList::try_from(c).unwrap();
    let line: geo::LineString<f64> = el.edges[0]
        .geometry
        .iter()
        .map(|p| geo::Coordinate { x: p.x as f64 * 1e-7, y: p.y as f64 * 1e-7 })
        .collect::<Vec<_>>()
        .into();
    let length = line.geodesic_length();
    assert!(length > 0.0);
    assert!((length - 110_574.4).abs() < 1.0);
}
