use vstd::prelude::*;

verus! {

/// Immutable run configuration: the inclusive depth window for printed
/// entries, and the header, hidden-entry and modification-time toggles.
pub struct Config {
    pub min_depth: usize,
    pub max_depth: usize,
    pub show_headers: bool,
    pub show_hidden: bool,
    pub show_modified: bool,
}

impl Config {
    /// The configuration used when no option overrides it.
    pub open spec fn spec_default() -> Config {
        Config {
            min_depth: 1,
            max_depth: 1,
            show_headers: false,
            show_hidden: false,
            show_modified: false,
        }
    }
}

impl Default for Config {
    /// Defaults: list only the root's direct children, no header row, no
    /// hidden entries, no timestamp column.
    fn default() -> (c: Self)
        ensures
            c == Config::spec_default(),
    {
        Config {
            min_depth: 1,
            max_depth: 1,
            show_headers: false,
            show_hidden: false,
            show_modified: false,
        }
    }
}

} // verus!
