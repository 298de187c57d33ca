use std::str::FromStr;
use sulu::default_networks::Network;
use sulu::error::Error;

#[test]
fn network_guard() {
    let x: Network = Network::from_str("walk").expect("Expected a network enum");
    assert_eq!(x, Network::Walk);
    let x: Network = Network::from_str("drive").expect("Expected a network enum");
    assert_eq!(x, Network::Drive);
    let x: Network = Network::from_str("cycle").expect("Expected a network enum");
    assert_eq!(x, Network::Cycle);
}

#[test]
fn unknown_network_is_a_conversion_error() {
    match Network::parse("boat") {
        Err(Error::ConversionError(s)) => assert_eq!(s, "Unknown network: boat"),
        other => panic!("unexpected {:?}", other),
    }
    assert!(Network::parse("Walk").is_err());
    assert!(Network::parse("").is_err());
}

#[test]
fn default_network_is_walk() {
    assert_eq!(Network::default(), Network::Walk);
}

#[test]
fn network_definitions() {
    let walk = Network::Walk.definition();
    assert_eq!(walk.name, "walk");
    let names: Vec<&str> = walk.options.iter().map(|o| o.name.as_str()).collect();
    assert_eq!(names, vec!["foot", "walkable_roads", "other_walkable_highway", "crossing"]);
    let drive = Network::Drive.definition();
    assert_eq!(drive.name, "drive");
    let names: Vec<&str> = drive.options.iter().map(|o| o.name.as_str()).collect();
    assert_eq!(names, vec!["highway", "service", "track"]);
    assert!(Network::Cycle.definition().options.is_empty());

    let t = vec![("highway".to_string(), "service".to_string())];
    assert_eq!(drive.matching_option(&t).unwrap().name, "service");
    assert_eq!(walk.matching_option(&t).unwrap().name, "walkable_roads");
    let t = vec![("highway".to_string(), "service".to_string()), ("access".to_string(), "private".to_string())];
    assert!(drive.matching_option(&t).is_none());
    let t = vec![("footway".to_string(), "crossing".to_string())];
    assert_eq!(walk.matching_option(&t).unwrap().name, "crossing");
}

fn tags(pairs: &[(&str, &str)]) -> Vec<(String, String)> {
    pairs.iter().map(|(k, v)| (k.to_string(), v.to_string())).collect()
}

#[test]
fn walk_network_classification() {
    let g = Network::Walk.definition();
    let name = |t: &[(&str, &str)]| g.matching_option(&tags(t)).map(|o| o.name);
    assert_eq!(name(&[("highway", "residential"), ("foot", "yes")]), Some("foot".to_string()));
    assert_eq!(name(&[("highway", "residential")]), Some("walkable_roads".to_string()));
    assert_eq!(name(&[("highway", "residential"), ("access", "private")]), None);
    assert_eq!(name(&[("highway", "footway")]), Some("other_walkable_highway".to_string()));
    assert_eq!(name(&[("highway", "footway"), ("area", "yes")]), None);
    assert_eq!(name(&[("foot", "yes"), ("route", "ferry")]), None);
}

#[test]
fn drive_network_classification() {
    let g = Network::Drive.definition();
    let name = |t: &[(&str, &str)]| g.matching_option(&tags(t)).map(|o| o.name);
    assert_eq!(name(&[("highway", "service")]), Some("service".to_string()));
    assert_eq!(name(&[("highway", "service"), ("access", "private")]), None);
    assert_eq!(name(&[("highway", "primary"), ("access", "private")]), Some("highway".to_string()));
    assert_eq!(name(&[("highway", "track"), ("motor_vehicle", "no")]), None);
    assert_eq!(name(&[("highway", "track")]), Some("track".to_string()));
    assert_eq!(name(&[("highway", "footway")]), None);
}
