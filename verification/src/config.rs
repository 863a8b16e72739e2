//! Run configuration: the table of model names and where to find them.

use vstd::prelude::*;

verus! {

/// The configuration a run is driven by: model names mapped to asset
/// locations.  Reading it from disk happens outside the library.
pub struct Config {
    pub models: std::collections::HashMap<String, String>,
}

impl Config {
    /// An empty model table.
    pub fn new() -> (c: Config)
        ensures
            c.models@.len() == 0,
    {
        Config { models: std::collections::HashMap::new() }
    }
}

} // verus!
