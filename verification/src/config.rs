//! The presentation process's preferences. Loading and storing them is
//! the caller's concern; here live the values and their defaults.

use vstd::prelude::*;

verus! {

pub const DEFAULT_MAX_ENTRY_DISPLAY_LENGTH: usize = 100;

pub const DEFAULT_MINIMIZE_ON_COPY: bool = true;

pub const DEFAULT_EXIT_ON_COPY: bool = true;

pub const DEFAULT_MINIMIZE_ON_CLEAR: bool = true;

pub const DEFAULT_ENABLE_SEARCH: bool = true;

/// The default for the exit-on-copy preference, for callers that fill in
/// a missing field of a stored configuration.
pub fn default_exit_on_copy() -> (r: bool)
    ensures
        r == DEFAULT_EXIT_ON_COPY,
{
    DEFAULT_EXIT_ON_COPY
}

#[derive(Clone, Copy, PartialEq, Eq, Structural, Debug)]
pub struct ClippoConfig {
    pub dark_mode: bool,
    pub max_entry_display_length: usize,
    pub minimize_on_copy: bool,
    pub exit_on_copy: bool,
    pub minimize_on_clear: bool,
    pub enable_search: bool,
}

impl Default for ClippoConfig {
    /// The configuration a fresh installation starts from.
    fn default() -> (c: Self)
        ensures
            c.dark_mode == true,
            c.max_entry_display_length == DEFAULT_MAX_ENTRY_DISPLAY_LENGTH,
            c.minimize_on_copy == DEFAULT_MINIMIZE_ON_COPY,
            c.exit_on_copy == DEFAULT_EXIT_ON_COPY,
            c.minimize_on_clear == DEFAULT_MINIMIZE_ON_CLEAR,
            c.enable_search == DEFAULT_ENABLE_SEARCH,
    {
        Self {
            dark_mode: true,
            max_entry_display_length: DEFAULT_MAX_ENTRY_DISPLAY_LENGTH,
            minimize_on_copy: DEFAULT_MINIMIZE_ON_COPY,
            exit_on_copy: DEFAULT_EXIT_ON_COPY,
            minimize_on_clear: DEFAULT_MINIMIZE_ON_CLEAR,
            enable_search: DEFAULT_ENABLE_SEARCH,
        }
    }
}

} // verus!
