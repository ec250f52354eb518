//! Cache strategy of settings components.
use vstd::prelude::*;

use crate::error::Error;
use crate::text::text;

verus! {

/// Cache strategy for settings components.
#[derive(Debug, Clone, Copy, PartialEq, Eq)]
pub enum CacheStrategy {
    /// Always cache everything (default).
    Full,
    /// LRU cache with a maximum number of entries.
    Lru(usize),
    /// No caching: always read from disk.
    NoCache,
}

impl Default for CacheStrategy {
    fn default() -> (r: Self)
        ensures
            r == CacheStrategy::Full,
    {
        CacheStrategy::Full
    }
}

impl CacheStrategy {
    /// Whether the strategy is acceptable: an LRU cache needs room for an entry.
    pub open spec fn spec_is_valid(self) -> bool {
        !(self matches CacheStrategy::Lru(n) && n == 0)
    }

    /// Validate the cache strategy: an LRU size of 0 is refused.
    pub fn validate(&self) -> (r: Result<(), Error>)
        ensures
            r is Ok <==> self.spec_is_valid(),
            r matches Err(e) ==> e is Config && e->Config_0@ == "LRU cache size must be greater than 0"@,
    {
        match self {
            CacheStrategy::Lru(size) if *size == 0 => Err(Error::Config(text("LRU cache size must be greater than 0"))),
            _ => Ok(()),
        }
    }
}

} // verus!
