//! Classification of tagged map data and extraction of a routable edge list.
//!
//! Ways are classified by a declarative rule set ([`graph_config`]), collected
//! together with the nodes they reference in an incremental cache
//! ([`osm_cache`]), and split into edges at junctions and data gaps
//! ([`edge_list`]). [`pbf_reader`] holds a stricter builder that only splits
//! ways whose nodes are all known, and [`visibility`] the containers of a
//! visibility graph over polygon nodes.

pub mod default_networks;
pub mod edge_list;
pub mod error;
pub mod graph_config;
pub mod matcher;
pub mod osm;
pub mod osm_cache;
pub mod pbf_reader;
pub mod visibility;
