//! `refresh`: refreshing the build cache.

use vstd::prelude::*;

use crate::config::Config;

verus! {

/// The options of `refresh`.
#[derive(Debug, Clone)]
pub struct Options {
    /// Another configuration file.
    pub config: Option<String>,
}

/// Refreshes the build cache if it exists; there is nothing to refresh yet,
/// so it does nothing.
pub fn refresh(_config: Config, _options: Options) {
}

} // verus!
