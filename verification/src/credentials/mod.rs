//! Credential storage: backends and the manager that namespaces keys and
//! falls back from a failing backend to the next one.
use vstd::prelude::*;

use crate::error::Error;

pub mod encrypted;
pub mod keychain;
pub mod manager;
pub mod memory;
pub mod secret_list;
pub mod types;

pub use keychain::KeychainBackend;
pub use manager::CredentialManager;
pub use memory::MemoryBackend;
pub use types::{SecretBackupPolicy, SecretPasswordSource, SecretStorage};

verus! {

/// The characters of an optional string.
pub open spec fn opt_view(o: Option<String>) -> Option<Seq<char>> {
    match o {
        Some(s) => Some(s@),
        None => None,
    }
}

/// A credential storage backend: a map from keys to secret values.
///
/// A `faithful` backend is one whose successful calls do exactly what they
/// say on `entries`; a call that fails may have changed anything. A backend
/// that `never_fails` reports success on every call. Both default to
/// `false`: an implementation that does not state otherwise (one outside
/// verified code, or one whose contents live in an outside service) is
/// promised nothing.
pub trait CredentialBackend {
    /// The credentials the backend holds.
    open spec fn entries(&self) -> Map<Seq<char>, Seq<char>> {
        Map::empty()
    }

    /// Whether every call of this backend succeeds.
    open spec fn never_fails(&self) -> bool {
        false
    }

    /// Whether successful calls do exactly what they say on `entries`.
    open spec fn faithful(&self) -> bool {
        false
    }

    /// Whether every call of this backend fails (by default nothing is
    /// promised).
    open spec fn always_fails(&self) -> bool {
        false
    }

    /// Store a credential.
    fn store(&mut self, key: &str, value: &str) -> (r: Result<(), Error>)
        ensures
            old(self).never_fails() ==> r is Ok,
            old(self).always_fails() ==> r is Err,
            final(self).never_fails() == old(self).never_fails(),
            final(self).faithful() == old(self).faithful(),
            final(self).always_fails() == old(self).always_fails(),
            r is Ok && old(self).faithful() ==> final(self).entries() == old(self).entries().insert(key@, value@),
    ;

    /// Retrieve a credential.
    fn get(&self, key: &str) -> (r: Result<Option<String>, Error>)
        ensures
            self.never_fails() ==> r is Ok,
            self.always_fails() ==> r is Err,
            r matches Ok(v) ==> (self.faithful() ==> opt_view(v) == self.entries().get(key@)),
    ;

    /// Remove a credential; removing an absent key succeeds.
    fn remove(&mut self, key: &str) -> (r: Result<(), Error>)
        ensures
            old(self).never_fails() ==> r is Ok,
            old(self).always_fails() ==> r is Err,
            final(self).never_fails() == old(self).never_fails(),
            final(self).faithful() == old(self).faithful(),
            final(self).always_fails() == old(self).always_fails(),
            r is Ok && old(self).faithful() ==> final(self).entries() == old(self).entries().remove(key@),
    ;

    /// Check if a credential exists.
    fn exists_key(&self, key: &str) -> (r: Result<bool, Error>)
        ensures
            self.never_fails() ==> r is Ok,
            r matches Ok(b) ==> (self.faithful() ==> b == self.entries().contains_key(key@)),
    {
        match self.get(key) {
            Ok(v) => Ok(v.is_some()),
            Err(e) => Err(e),
        }
    }

    /// List all stored credential keys.
    fn list_keys(&self) -> (r: Result<Vec<String>, Error>)
        ensures
            self.never_fails() ==> r is Ok,
            r matches Ok(ks) ==> (self.faithful() ==> crate::text::views(ks@).to_set() == self.entries().dom()),
    ;

    /// The name a backend gives itself, where it states one (by default it
    /// does not, and its name is promised nothing).
    open spec fn backend_label(&self) -> Option<Seq<char>> {
        None
    }

    /// Backend name for logging/debugging.
    fn backend_name(&self) -> (r: &'static str)
        ensures
            self.backend_label() matches Some(l) ==> r@ == l,
    ;
}

} // verus!
