//! In-memory credential backend.
use vstd::prelude::*;

use super::CredentialBackend;
use crate::error::Error;
use crate::string_map::StringMap;

verus! {

/// In-memory credential storage (not persisted).
#[derive(Debug)]
pub struct MemoryBackend {
    map: StringMap,
}

impl MemoryBackend {
    /// Create a new, empty memory backend.
    pub fn new() -> (r: Self)
        ensures
            r.entries() == Map::<Seq<char>, Seq<char>>::empty(),
            r.never_fails(),
            r.faithful(),
    {
        MemoryBackend { map: StringMap::new() }
    }
}

impl Default for MemoryBackend {
    fn default() -> (r: Self)
        ensures
            r.entries() == Map::<Seq<char>, Seq<char>>::empty(),
    {
        MemoryBackend::new()
    }
}

impl CredentialBackend for MemoryBackend {
    closed spec fn entries(&self) -> Map<Seq<char>, Seq<char>> {
        self.map.entries()
    }

    open spec fn never_fails(&self) -> bool {
        true
    }

    open spec fn faithful(&self) -> bool {
        true
    }

    fn store(&mut self, key: &str, value: &str) -> (r: Result<(), Error>) {
        self.map.insert(key, value);
        Ok(())
    }

    fn get(&self, key: &str) -> (r: Result<Option<String>, Error>) {
        Ok(self.map.get(key))
    }

    fn remove(&mut self, key: &str) -> (r: Result<(), Error>) {
        self.map.remove(key);
        Ok(())
    }

    fn list_keys(&self) -> (r: Result<Vec<String>, Error>) {
        Ok(self.map.keys())
    }

    open spec fn backend_label(&self) -> Option<Seq<char>> {
        Some("memory"@)
    }

    fn backend_name(&self) -> (r: &'static str) {
        "memory"
    }
}

} // verus!
