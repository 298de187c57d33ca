//! Built-in network definitions.

use vstd::prelude::*;
use crate::error::Error;
use crate::graph_config::{matchers_view, ConfigView, GraphConfig, GraphConfigOption, OptionView};
use crate::matcher::{strings_view, KindView, MatchKind, Matcher, MatcherView};

verus! {

/// The built-in networks.
#[derive(Clone, Copy, Debug, PartialEq, Eq, Structural)]
pub enum Network {
    Walk,
    Drive,
    Cycle,
}

impl Network {
    /// The network named `s`: `walk`, `drive` or `cycle`.
    pub fn parse(s: &str) -> (r: Result<Network, Error>)
        ensures
            s@ == "walk"@ ==> r == Ok::<Network, Error>(Network::Walk),
            s@ == "drive"@ ==> r == Ok::<Network, Error>(Network::Drive),
            s@ == "cycle"@ ==> r == Ok::<Network, Error>(Network::Cycle),
            s@ != "walk"@ && s@ != "drive"@ && s@ != "cycle"@ ==> match r {
                Err(Error::ConversionError(m)) => m@ == "Unknown network: "@ + s@,
                _ => false,
            },
    {
        proof {
            reveal_strlit("walk");
            reveal_strlit("drive");
            reveal_strlit("cycle");
            assert("walk"@.len() == 4 && "drive"@.len() == 5 && "cycle"@.len() == 5);
            assert("cycle"@[0] != "drive"@[0]);
        }
        let name = s.to_string();
        if name == "walk".to_string() {
            Ok(Network::Walk)
        } else if name == "drive".to_string() {
            Ok(Network::Drive)
        } else if name == "cycle".to_string() {
            Ok(Network::Cycle)
        } else {
            Err(Error::ConversionError("Unknown network: ".to_string().concat(s)))
        }
    }
}

impl std::str::FromStr for Network {
    type Err = Error;

    fn from_str(s: &str) -> Result<Network, Error> {
        Network::parse(s)
    }
}

impl Default for Network {
    fn default() -> (r: Network)
        ensures
            r == Network::Walk,
    {
        Network::Walk
    }
}

fn owned(x: &str) -> (r: String)
    ensures
        r@ == x@,
{
    x.to_string()
}

fn owned_all(xs: &[&str]) -> (r: Vec<String>)
    ensures
        strings_view(r@) == xs@.map_values(|x: &str| x@),
{
    let mut r: Vec<String> = Vec::new();
    let mut i: usize = 0;
    while i < xs.len()
        invariant
            i <= xs@.len(),
            r@.len() == i,
            forall|j: int| 0 <= j < i ==> (#[trigger] r@[j])@ == xs@[j]@,
        decreases xs@.len() - i,
    {
        r.push(owned(xs[i]));
        i += 1;
    }
    assert(strings_view(r@) =~= xs@.map_values(|x: &str| x@));
    r
}

/// A matcher of `key` with the value `value`.
pub open spec fn exact_view(key: &str, value: &str) -> MatcherView {
    MatcherView { key: key@, kind: KindView::Exact(value@) }
}

/// A matcher of `key` with a value among `values`.
pub open spec fn list_view(key: &str, values: Seq<&str>) -> MatcherView {
    MatcherView { key: key@, kind: KindView::InList(values.map_values(|v: &str| v@)) }
}

/// An option named `name` with the given requires and excludes.
pub open spec fn rule_view(name: &str, all_of: Seq<MatcherView>, none_of: Seq<MatcherView>) -> OptionView {
    OptionView { name: name@, requires: all_of, excludes: none_of }
}

fn exact(key: &str, value: &str) -> (r: Matcher)
    ensures
        r@ == exact_view(key, value),
{
    Matcher { key: owned(key), kind: MatchKind::Exact(owned(value)) }
}

fn in_list(key: &str, values: &[&str]) -> (r: Matcher)
    ensures
        r@ == list_view(key, values@),
{
    Matcher { key: owned(key), kind: MatchKind::InList(owned_all(values)) }
}

fn option(name: &str, all_of: Vec<Matcher>, none_of: Vec<Matcher>) -> (r: GraphConfigOption)
    ensures
        r@ == rule_view(name, matchers_view(all_of@), matchers_view(none_of@)),
{
    GraphConfigOption { name: owned(name), requires: all_of, excludes: none_of }
}

/// The walk network's rules.
pub open spec fn walk_view() -> ConfigView {
    ConfigView {
        name: "walk"@,
        options: seq![
            rule_view("foot", seq![list_view("foot", seq!["yes", "designated"])], seq![exact_view("route", "ferry")]),
            rule_view(
                "walkable_roads",
                seq![
                    list_view(
                        "highway",
                        seq![
                            "trunk",
                            "primary",
                            "secondary",
                            "tertiary",
                            "unclassified",
                            "residential",
                            "trunk_link",
                            "primary_link",
                            "secondary_link",
                            "tertiary_link",
                            "service",
                        ],
                    ),
                ],
                seq![
                    exact_view("foot", "no"),
                    list_view("sidewalk", seq!["no", "none", "separate"]),
                    list_view("access", seq!["no", "private"]),
                ],
            ),
            rule_view(
                "other_walkable_highway",
                seq![
                    list_view(
                        "highway",
                        seq!["pedestrian", "footway", "living_street", "path", "track", "steps", "cycleway"],
                    ),
                ],
                seq![list_view("access", seq!["no", "private"]), exact_view("area", "yes"), exact_view("foot", "no")],
            ),
            rule_view("crossing", seq![exact_view("footway", "crossing")], seq![]),
        ],
    }
}

/// The drive network's rules.
pub open spec fn drive_view() -> ConfigView {
    ConfigView {
        name: "drive"@,
        options: seq![
            rule_view(
                "highway",
                seq![
                    list_view(
                        "highway",
                        seq![
                            "motorway",
                            "motorway_link",
                            "trunk",
                            "trunk_link",
                            "primary",
                            "primary_link",
                            "secondary",
                            "secondary_link",
                            "tertiary",
                            "tertiary_link",
                            "unclassified",
                            "residential",
                            "living_street",
                            "road",
                        ],
                    ),
                ],
                seq![],
            ),
            rule_view("service", seq![exact_view("highway", "service")], seq![list_view("access", seq!["no", "private"])]),
            rule_view(
                "track",
                seq![exact_view("highway", "track")],
                seq![list_view("access", seq!["no", "private"]), exact_view("vehicle", "no"), exact_view("motor_vehicle", "no")],
            ),
        ],
    }
}

/// Footways, walkable roads, other walkable highways and crossings.
fn walk_network() -> (r: GraphConfig)
    ensures
        r@ == walk_view(),
{
    let ghost w = walk_view();
    let foot_all = vec![in_list("foot", &["yes", "designated"])];
    assert(matchers_view(foot_all@) =~= w.options[0].requires);
    let foot_none = vec![exact("route", "ferry")];
    assert(matchers_view(foot_none@) =~= w.options[0].excludes);
    let foot = option("foot", foot_all, foot_none);
    assert(foot@ =~~= w.options[0]);
    let roads_all = vec![
        in_list(
            "highway",
            &[
                "trunk",
                "primary",
                "secondary",
                "tertiary",
                "unclassified",
                "residential",
                "trunk_link",
                "primary_link",
                "secondary_link",
                "tertiary_link",
                "service",
            ],
        ),
    ];
    assert(matchers_view(roads_all@) =~= w.options[1].requires);
    let roads_none = vec![
        exact("foot", "no"),
        in_list("sidewalk", &["no", "none", "separate"]),
        in_list("access", &["no", "private"]),
    ];
    assert(matchers_view(roads_none@) =~= w.options[1].excludes);
    let roads = option("walkable_roads", roads_all, roads_none);
    assert(roads@ =~~= w.options[1]);
    let other_all = vec![
        in_list(
            "highway",
            &["pedestrian", "footway", "living_street", "path", "track", "steps", "cycleway"],
        ),
    ];
    assert(matchers_view(other_all@) =~= w.options[2].requires);
    let other_none = vec![in_list("access", &["no", "private"]), exact("area", "yes"), exact("foot", "no")];
    assert(matchers_view(other_none@) =~= w.options[2].excludes);
    let other = option("other_walkable_highway", other_all, other_none);
    assert(other@ =~~= w.options[2]);
    let crossing_all = vec![exact("footway", "crossing")];
    assert(matchers_view(crossing_all@) =~= w.options[3].requires);
    let crossing_none = vec![];
    assert(matchers_view(crossing_none@) =~= w.options[3].excludes);
    let crossing = option("crossing", crossing_all, crossing_none);
    assert(crossing@ =~~= w.options[3]);
    let g = GraphConfig { name: owned("walk"), options: vec![foot, roads, other, crossing] };
    assert(g@.options =~= w.options);
    g
}

/// Roads open to motor traffic, service roads and tracks.
fn drive_network() -> (r: GraphConfig)
    ensures
        r@ == drive_view(),
{
    let ghost d = drive_view();
    let highway_all = vec![
        in_list(
            "highway",
            &[
                "motorway",
                "motorway_link",
                "trunk",
                "trunk_link",
                "primary",
                "primary_link",
                "secondary",
                "secondary_link",
                "tertiary",
                "tertiary_link",
                "unclassified",
                "residential",
                "living_street",
                "road",
            ],
        ),
    ];
    assert(matchers_view(highway_all@) =~= d.options[0].requires);
    let highway_none = vec![];
    assert(matchers_view(highway_none@) =~= d.options[0].excludes);
    let highway = option("highway", highway_all, highway_none);
    assert(highway@ =~~= d.options[0]);
    let service_all = vec![exact("highway", "service")];
    assert(matchers_view(service_all@) =~= d.options[1].requires);
    let service_none = vec![in_list("access", &["no", "private"])];
    assert(matchers_view(service_none@) =~= d.options[1].excludes);
    let service = option("service", service_all, service_none);
    assert(service@ =~~= d.options[1]);
    let track_all = vec![exact("highway", "track")];
    assert(matchers_view(track_all@) =~= d.options[2].requires);
    let track_none = vec![in_list("access", &["no", "private"]), exact("vehicle", "no"), exact("motor_vehicle", "no")];
    assert(matchers_view(track_none@) =~= d.options[2].excludes);
    let track = option("track", track_all, track_none);
    assert(track@ =~~= d.options[2]);
    let g = GraphConfig { name: owned("drive"), options: vec![highway, service, track] };
    assert(g@.options =~= d.options);
    g
}

/// The cycle network has no categories yet.
fn cycle_network() -> (r: GraphConfig)
    ensures
        r@ == (ConfigView { name: "drive"@, options: seq![] }),
{
    let g = GraphConfig { name: owned("drive"), options: vec![] };
    assert(g@.options =~= Seq::<OptionView>::empty());
    g
}

impl Network {
    /// The rule set of this network.
    pub fn definition(&self) -> (r: GraphConfig)
        ensures
            r@ == match *self {
                Network::Walk => walk_view(),
                Network::Drive => drive_view(),
                Network::Cycle => ConfigView { name: "drive"@, options: seq![] },
            },
    {
        match self {
            Network::Walk => walk_network(),
            Network::Drive => drive_network(),
            Network::Cycle => cycle_network(),
        }
    }
}

} // verus!
