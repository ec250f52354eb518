//! Storage formats of the settings files: their names and options.
pub mod sqlite;

use vstd::prelude::*;

pub use sqlite::{is_valid_identifier, SqliteStorage, DEFAULT_KEY, DEFAULT_TABLE};

verus! {

/// JSON storage backend (the default).
#[derive(Debug, Clone, Copy)]
pub struct JsonStorage {
    /// Pretty print JSON output.
    pretty: bool,
}

impl JsonStorage {
    /// Whether the output is pretty printed.
    pub closed spec fn spec_pretty(&self) -> bool {
        self.pretty
    }

    /// Create a new JSON storage backend with pretty printing enabled.
    pub fn new() -> (r: Self)
        ensures
            r.spec_pretty(),
    {
        JsonStorage { pretty: true }
    }

    /// Create a compact JSON storage (no pretty printing).
    pub fn compact() -> (r: Self)
        ensures
            !r.spec_pretty(),
    {
        JsonStorage { pretty: false }
    }

    /// Whether the output is pretty printed.
    pub fn is_pretty(&self) -> (r: bool)
        ensures
            r == self.spec_pretty(),
    {
        self.pretty
    }

    /// The file extension of this format.
    pub fn extension(&self) -> (r: &'static str)
        ensures
            r@ == "json"@,
    {
        "json"
    }
}

impl Default for JsonStorage {
    fn default() -> (r: Self)
        ensures
            !r.spec_pretty(),
    {
        JsonStorage { pretty: false }
    }
}

} // verus!
