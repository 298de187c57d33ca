//! Errors of the classification and extraction pipeline.

use vstd::prelude::*;
use crate::osm::OsmId;

verus! {

#[derive(Debug)]
pub enum Error {
    /// An entity that should be known is not: a cached way that no rule of the
    /// configuration matches.
    MissingInfo(OsmId),
    /// A value could not be converted; holds a message naming the offending text.
    ConversionError(String),
    /// A node reference count does not fit in `usize`.
    NodeCountError,
    /// An edge could not be closed.
    MakeGraphError,
}

} // verus!
