use sulu::graph_config::{GraphConfig, GraphConfigOption};
use sulu::matcher::{MatchKind, Matcher, Tags};

fn tags(pairs: &[(&str, &str)]) -> Tags {
    pairs.iter().map(|(k, v)| (k.to_string(), v.to_string())).collect()
}

fn matcher(key: &str, kind: MatchKind) -> Matcher {
    Matcher { key: key.to_string(), kind }
}

fn big_road() -> GraphConfigOption {
    GraphConfigOption {
        name: "big-road".to_string(),
        requires: vec![matcher(
            "highway",
            MatchKind::InList(vec!["primary".to_string(), "secondary".to_string()]),
        )],
        excludes: vec![matcher("access", MatchKind::Exact("no".to_string()))],
    }
}

#[test]
fn it_works() {
    assert_eq!(2 + 2, 4);
}

#[test]
fn graph_config_test_de() {
    let gco = big_road();
    assert_eq!(gco.name, "big-road");

    let t = tags(&[("highway", "primary")]);
    assert!(gco.check_match(&t));

    let t = tags(&[("highway", "primary"), ("access", "no")]);
    assert!(!gco.check_match(&t));
}

#[test]
fn exact_matcher_needs_key_and_value() {
    let m = matcher("highway", MatchKind::Exact("primary".to_string()));
    assert!(m.match_tag(&"highway".to_string(), &"primary".to_string()));
    assert!(!m.match_tag(&"highway".to_string(), &"secondary".to_string()));
    assert!(!m.match_tag(&"railway".to_string(), &"primary".to_string()));
    assert!(m.match_tags(&tags(&[("name", "x"), ("highway", "primary")])));
    assert!(!m.match_tags(&tags(&[("highway", "primaryx")])));
    assert!(!m.match_tags(&tags(&[])));
}

#[test]
fn in_list_matcher_needs_a_listed_value() {
    let m = matcher(
        "highway",
        MatchKind::InList(vec!["primary".to_string(), "secondary".to_string()]),
    );
    assert!(m.match_tags(&tags(&[("highway", "secondary")])));
    assert!(!m.match_tags(&tags(&[("highway", "tertiary")])));
    assert!(!m.match_tags(&tags(&[("access", "primary")])));
    let empty = matcher("highway", MatchKind::InList(vec![]));
    assert!(!empty.match_tags(&tags(&[("highway", "primary")])));
}

#[test]
fn all_matcher_needs_only_the_key() {
    let m = matcher("highway", MatchKind::All);
    assert!(m.match_tags(&tags(&[("highway", "anything")])));
    assert!(m.match_tags(&tags(&[("highway", "")])));
    assert!(!m.match_tags(&tags(&[("foot", "yes")])));
}

#[test]
fn big_road_scenario() {
    let g = GraphConfig { name: "roads".to_string(), options: vec![big_road()] };
    let chosen = g.matching_option(&tags(&[("highway", "primary")]));
    assert_eq!(chosen.map(|o| o.name), Some("big-road".to_string()));
    assert!(g.is_match(&tags(&[("highway", "primary")])));
    assert!(g.matching_option(&tags(&[("highway", "primary"), ("access", "no")])).is_none());
    assert!(!g.is_match(&tags(&[("highway", "primary"), ("access", "no")])));
}

#[test]
fn option_without_rules_matches_everything() {
    let o = GraphConfigOption { name: "any".to_string(), requires: vec![], excludes: vec![] };
    assert!(o.check_match(&tags(&[])));
    assert!(o.check_match(&tags(&[("a", "b")])));
}

#[test]
fn first_matching_option_wins() {
    let all_roads = GraphConfigOption {
        name: "any-road".to_string(),
        requires: vec![matcher("highway", MatchKind::All)],
        excludes: vec![],
    };
    let g = GraphConfig { name: "roads".to_string(), options: vec![big_road(), all_roads.clone()] };
    let t = tags(&[("highway", "primary")]);
    assert_eq!(g.matching_option(&t).unwrap().name, "big-road");
    let t = tags(&[("highway", "track")]);
    assert_eq!(g.matching_option(&t).unwrap().name, "any-road");
    let g = GraphConfig { name: "roads".to_string(), options: vec![all_roads, big_road()] };
    let t = tags(&[("highway", "primary")]);
    assert_eq!(g.matching_option(&t).unwrap().name, "any-road");
    let empty = GraphConfig { name: "none".to_string(), options: vec![] };
    assert!(empty.matching_option(&t).is_none());
    assert!(!empty.is_match(&t));
}

#[test]
fn cloned_option_keeps_its_rules() {
    let o = big_road().clone();
    assert_eq!(o.name, "big-road");
    assert_eq!(o.requires.len(), 1);
    assert_eq!(o.excludes[0].key, "access");
    assert!(matches!(&o.requires[0].kind, MatchKind::InList(v) if v.len() == 2 && v[1] == "secondary"));
}
