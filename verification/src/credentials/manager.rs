//! The credential manager: key namespacing, backend fallback, clearing and
//! the list of tracked secrets.
use vstd::prelude::*;

use super::secret_list::{opt_str, TrackedSecretsCache};
use super::{opt_view, CredentialBackend, MemoryBackend};
use crate::error::Error;
use crate::json::{decode_string_list, encode_string_list, json_parsed_string_list, json_string_list};
use crate::text::{contains_str, lemma_push_to_set, join2, join3, starts_with, text, unique_strings, views, without_str};

verus! {

/// The key under which a credential is stored in a backend: the service
/// name, then `:profiles:{profile}` when an explicit profile or a profile
/// context applies (the explicit profile wins), then the key.
pub open spec fn full_key(
    service: Seq<char>,
    context: Option<Seq<char>>,
    profile: Option<Seq<char>>,
    key: Seq<char>,
) -> Seq<char> {
    match profile {
        Some(p) => service + ":profiles:"@ + p + ":"@ + key,
        None => match context {
            Some(c) => service + ":profiles:"@ + c + ":"@ + key,
            None => service + ":"@ + key,
        },
    }
}

/// The prefix of the keys that `clear` removes: those of the profile context,
/// or every key of the service when there is no context.
pub open spec fn clear_prefix(service: Seq<char>, context: Option<Seq<char>>) -> Seq<char> {
    match context {
        Some(c) => service + ":profiles:"@ + c + ":"@,
        None => service + ":"@,
    }
}

/// `m` without the keys that start with `prefix`.
pub open spec fn without_prefix(m: Map<Seq<char>, Seq<char>>, prefix: Seq<char>) -> Map<Seq<char>, Seq<char>> {
    m.filter_keys(|k: Seq<char>| !prefix.is_prefix_of(k))
}

/// Credential manager with a primary backend, an optional persistent
/// fallback and a volatile in-memory fallback that is always available.
///
/// Once the primary backend fails, it is not used again by `store` and `get`
/// for the lifetime of the manager ("sticky" fallback).
pub struct CredentialManager<P: CredentialBackend = MemoryBackend, F: CredentialBackend = MemoryBackend> {
    primary: P,
    fallback: Option<F>,
    is_primary_failed: bool,
    service_name: String,
    profile_context: Option<String>,
    volatile: MemoryBackend,
    tracked_secrets_cache: TrackedSecretsCache,
}

/// The credential key under which the list of tracked secret keys is kept.
pub const TRACKED_SECRETS_KEY: &'static str = "__rcman_secrets__";

/// What a stored list of tracked secrets reads as: the strings of the JSON
/// list, or the empty list where none is stored; `None` where the stored
/// text is no JSON list of strings.
pub open spec fn decoded_tracked(found: Option<Seq<char>>) -> Option<Seq<Seq<char>>> {
    match found {
        Some(t) => json_parsed_string_list(t),
        None => Some(Seq::empty()),
    }
}

impl<P: CredentialBackend, F: CredentialBackend> CredentialManager<P, F> {
    /// The primary backend.
    pub closed spec fn primary_backend(&self) -> P {
        self.primary
    }

    /// The persistent fallback backend, if any.
    pub closed spec fn fallback_backend(&self) -> Option<F> {
        self.fallback
    }

    /// What the volatile fallback holds.
    pub closed spec fn volatile_entries(&self) -> Map<Seq<char>, Seq<char>> {
        self.volatile.entries()
    }

    /// The tracked secret lists loaded so far, by profile.
    pub closed spec fn tracked_lists(&self) -> Map<Option<Seq<char>>, Seq<Seq<char>>> {
        self.tracked_secrets_cache.lists()
    }

    /// Whether the primary backend has failed in this session.
    pub closed spec fn primary_failed(&self) -> bool {
        self.is_primary_failed
    }

    /// The service name.
    pub closed spec fn service(&self) -> Seq<char> {
        self.service_name@
    }

    /// The profile context, if any.
    pub closed spec fn context(&self) -> Option<Seq<char>> {
        opt_view(self.profile_context)
    }

    /// Whether two managers hold the same backends, contents, names and
    /// failure flag (their tracked secret caches may differ).
    pub open spec fn same_stores(&self, other: &Self) -> bool {
        &&& self.service() == other.service()
        &&& self.context() == other.context()
        &&& self.primary_failed() == other.primary_failed()
        &&& self.primary_backend() == other.primary_backend()
        &&& self.fallback_backend() == other.fallback_backend()
        &&& self.volatile_entries() == other.volatile_entries()
    }

    /// The key a call with `key` and `profile` uses.
    pub open spec fn key_for(&self, key: Seq<char>, profile: Option<Seq<char>>) -> Seq<char> {
        full_key(self.service(), self.context(), profile, key)
    }

    /// Whether the tracked secret list of `profile` can be had: it is
    /// cached, or the manager reads its primary exactly (see
    /// `backends_never_fail`) and the list stored there parses.
    pub open spec fn tracked_list_readable(&self, profile: Option<Seq<char>>) -> bool {
        ||| self.tracked_lists().get(profile) is Some
        ||| (self.backends_never_fail() && !self.primary_failed() && decoded_tracked(
            self.primary_backend().entries().get(self.key_for(TRACKED_SECRETS_KEY@, profile)),
        ) is Some)
    }

    /// Whether neither the primary nor the persistent fallback can fail, and
    /// both are faithful maps.
    pub open spec fn backends_never_fail(&self) -> bool {
        &&& self.primary_backend().never_fails()
        &&& self.primary_backend().faithful()
        &&& (self.fallback_backend() matches Some(f) ==> f.never_fails() && f.faithful())
    }

    /// What a `store` of `value` under `fk` did: the primary took it, or
    /// (with the primary marked failed) the persistent fallback took it, or
    /// the volatile fallback took it.
    pub open spec fn store_outcome(&self, after: &Self, fk: Seq<char>, value: Seq<char>) -> bool {
        &&& after.service() == self.service()
        &&& after.context() == self.context()
        &&& (self.primary_failed() ==> after.primary_failed())
        &&& after.primary_backend().never_fails() == self.primary_backend().never_fails()
        &&& after.primary_backend().faithful() == self.primary_backend().faithful()
        &&& (after.fallback_backend() is Some <==> self.fallback_backend() is Some)
        &&& (after.fallback_backend() matches Some(f) ==> f.never_fails() == self.fallback_backend()->0.never_fails()
            && f.faithful() == self.fallback_backend()->0.faithful())
        &&& ({
            ||| (!self.primary_failed() && !after.primary_failed()
                && (self.primary_backend().faithful()
                    ==> after.primary_backend().entries() == self.primary_backend().entries().insert(fk, value))
                && after.fallback_backend() == self.fallback_backend()
                && after.volatile_entries() == self.volatile_entries())
            ||| (after.primary_failed() && after.fallback_backend() is Some
                && (self.fallback_backend()->0.faithful() ==> after.fallback_backend()->0.entries()
                    == self.fallback_backend()->0.entries().insert(fk, value))
                && after.volatile_entries() == self.volatile_entries()
                && (self.primary_failed() ==> after.primary_backend() == self.primary_backend()))
            ||| (after.primary_failed()
                && after.volatile_entries() == self.volatile_entries().insert(fk, value)
                && (self.primary_failed() ==> after.primary_backend() == self.primary_backend())
                && (self.fallback_backend() matches Some(f) ==> !f.never_fails()))
        })
        &&& (!self.primary_failed() && self.primary_backend().never_fails() ==> !after.primary_failed())
        &&& (self.primary_failed() && self.fallback_backend() is Some && self.fallback_backend()->0.never_fails()
            && self.fallback_backend()->0.faithful()
            ==> after.fallback_backend()->0.entries() == self.fallback_backend()->0.entries().insert(fk, value))
        &&& after.primary_backend().always_fails() == self.primary_backend().always_fails()
        &&& (after.fallback_backend() matches Some(f) ==> f.always_fails() == self.fallback_backend()->0.always_fails())
        &&& (self.primary_backend().always_fails() ==> after.primary_failed())
        &&& ((self.primary_failed() || self.primary_backend().always_fails()) && (self.fallback_backend() matches Some(f)
            ==> f.always_fails()) ==> after.volatile_entries() == self.volatile_entries().insert(fk, value))
    }

    /// What a `get` of `fk` answered: the primary's entry while the primary
    /// works, else the fallback's, else the volatile one. Nothing is changed
    /// but the failure flag.
    pub open spec fn get_outcome(&self, after: &Self, fk: Seq<char>, found: Option<Seq<char>>) -> bool {
        &&& after.service() == self.service()
        &&& after.context() == self.context()
        &&& after.primary_backend() == self.primary_backend()
        &&& after.fallback_backend() == self.fallback_backend()
        &&& after.volatile_entries() == self.volatile_entries()
        &&& (self.primary_failed() ==> after.primary_failed())
        &&& ({
            ||| (!after.primary_failed() && (self.primary_backend().faithful()
                ==> found == self.primary_backend().entries().get(fk)))
            ||| (after.primary_failed() && self.fallback_backend() is Some
                && (self.fallback_backend()->0.faithful() ==> found == self.fallback_backend()->0.entries().get(fk)))
            ||| (after.primary_failed() && found == self.volatile_entries().get(fk))
        })
        &&& (!self.primary_failed() && self.primary_backend().never_fails()
            ==> !after.primary_failed() && (self.primary_backend().faithful()
                ==> found == self.primary_backend().entries().get(fk)))
        &&& (after.primary_failed() && self.fallback_backend() is Some && self.fallback_backend()->0.never_fails()
            && self.fallback_backend()->0.faithful() ==> found == self.fallback_backend()->0.entries().get(fk))
        &&& (after.primary_failed() && self.fallback_backend() is None
            ==> found == self.volatile_entries().get(fk))
        &&& (self.primary_backend().always_fails() ==> after.primary_failed())
        &&& (after.primary_failed() && (self.fallback_backend() matches Some(f) ==> f.always_fails())
            ==> found == self.volatile_entries().get(fk))
    }

    /// What a `remove` of `fk` did: every backend whose removal succeeded
    /// no longer holds `fk`; one that never fails is among them.
    pub open spec fn remove_outcome(&self, after: &Self, fk: Seq<char>) -> bool {
        &&& after.service() == self.service()
        &&& after.context() == self.context()
        &&& after.primary_failed() == self.primary_failed()
        &&& after.primary_backend().never_fails() == self.primary_backend().never_fails()
        &&& after.primary_backend().faithful() == self.primary_backend().faithful()
        &&& (after.fallback_backend() is Some <==> self.fallback_backend() is Some)
        &&& (after.fallback_backend() matches Some(f) ==> f.never_fails() == self.fallback_backend()->0.never_fails()
            && f.faithful() == self.fallback_backend()->0.faithful())
        &&& (self.primary_backend().never_fails() && self.primary_backend().faithful()
            ==> after.primary_backend().entries() == self.primary_backend().entries().remove(fk))
        &&& (self.fallback_backend() is Some && self.fallback_backend()->0.never_fails()
            && self.fallback_backend()->0.faithful()
            ==> after.fallback_backend()->0.entries() == self.fallback_backend()->0.entries().remove(fk))
        &&& after.volatile_entries() == self.volatile_entries().remove(fk)
        &&& after.primary_backend().always_fails() == self.primary_backend().always_fails()
        &&& (after.fallback_backend() matches Some(f) ==> f.always_fails() == self.fallback_backend()->0.always_fails())
    }

    fn make(service_name: String, primary: P, fallback: Option<F>) -> (r: Self)
        ensures
            r.service() == service_name@,
            r.context() is None,
            !r.primary_failed(),
            r.primary_backend() == primary,
            r.fallback_backend() == fallback,
            r.volatile_entries() == Map::<Seq<char>, Seq<char>>::empty(),
            r.tracked_lists() == Map::<Option<Seq<char>>, Seq<Seq<char>>>::empty(),
    {
        CredentialManager {
            primary,
            fallback,
            is_primary_failed: false,
            service_name,
            profile_context: None,
            volatile: MemoryBackend::new(),
            tracked_secrets_cache: TrackedSecretsCache::new(),
        }
    }

    /// Create with a custom primary backend and no persistent fallback.
    pub fn with_backend(service_name: &str, backend: P) -> (r: Self)
        ensures
            r.service() == service_name@,
            r.context() is None,
            !r.primary_failed(),
            r.primary_backend() == backend,
            r.fallback_backend() is None,
            r.volatile_entries() == Map::<Seq<char>, Seq<char>>::empty(),
            r.tracked_lists() == Map::<Option<Seq<char>>, Seq<Seq<char>>>::empty(),
    {
        Self::make(text(service_name), backend, None)
    }

    /// Create with a primary backend and a persistent fallback backend.
    pub fn with_fallback(service_name: &str, backend: P, fallback: F) -> (r: Self)
        ensures
            r.service() == service_name@,
            r.context() is None,
            !r.primary_failed(),
            r.primary_backend() == backend,
            r.fallback_backend() == Some(fallback),
            r.volatile_entries() == Map::<Seq<char>, Seq<char>>::empty(),
            r.tracked_lists() == Map::<Option<Seq<char>>, Seq<Seq<char>>>::empty(),
    {
        Self::make(text(service_name), backend, Some(fallback))
    }

    /// This manager with a profile context: every operation without an
    /// explicit profile is namespaced under the profile
    /// (`service:profiles:profile_name:key`).
    pub fn with_profile_context(self, profile_name: &str) -> (r: Self)
        ensures
            r.context() == Some(profile_name@),
            r.service() == self.service(),
            r.primary_failed() == self.primary_failed(),
            r.primary_backend() == self.primary_backend(),
            r.fallback_backend() == self.fallback_backend(),
            r.volatile_entries() == self.volatile_entries(),
            r.tracked_lists() == self.tracked_lists(),
    {
        CredentialManager { profile_context: Some(text(profile_name)), ..self }
    }

    /// This manager without a profile context: operations without an
    /// explicit profile use the global scope (`service:key`) again.
    pub fn without_profile_context(self) -> (r: Self)
        ensures
            r.context() is None,
            r.service() == self.service(),
            r.primary_failed() == self.primary_failed(),
            r.primary_backend() == self.primary_backend(),
            r.fallback_backend() == self.fallback_backend(),
            r.volatile_entries() == self.volatile_entries(),
            r.tracked_lists() == self.tracked_lists(),
    {
        CredentialManager { profile_context: None, ..self }
    }

    /// Returns true if the primary backend has failed and the fallbacks are in use.
    pub fn is_primary_failed(&self) -> (r: bool)
        ensures
            r == self.primary_failed(),
    {
        self.is_primary_failed
    }

    /// Returns true if the volatile emergency fallback holds any data.
    pub fn is_volatile_active(&self) -> (r: bool)
        ensures
            r == !self.volatile_entries().is_empty(),
    {
        match self.volatile.list_keys() {
            Ok(keys) => {
                proof {
                    if keys@.len() == 0 {
                        assert(views(keys@).to_set() =~= Set::<Seq<char>>::empty());
                        assert(self.volatile.entries().dom() =~= Set::<Seq<char>>::empty());
                    } else {
                        assert(views(keys@).to_set().contains(views(keys@)[0]));
                    }
                }
                keys.len() > 0
            },
            Err(_) => false,
        }
    }

    /// Get the service name.
    pub fn service_name(&self) -> (r: &str)
        ensures
            r@ == self.service(),
    {
        self.service_name.as_str()
    }

    fn make_key_with_profile(&self, key: &str, profile: Option<&str>) -> (r: String)
        ensures
            r@ == self.key_for(key@, match profile { Some(p) => Some(p@), None => None }),
    {
        match profile {
            Some(p) => {
                let mut r = join3(self.service_name.as_str(), ":profiles:", p);
                let tail = join2(":", key);
                r.append(tail.as_str());
                assert(r@ =~= self.service() + ":profiles:"@ + p@ + ":"@ + key@);
                r
            },
            None => match &self.profile_context {
                Some(c) => {
                    let mut r = join3(self.service_name.as_str(), ":profiles:", c.as_str());
                    let tail = join2(":", key);
                    r.append(tail.as_str());
                    assert(r@ =~= self.service() + ":profiles:"@ + c@ + ":"@ + key@);
                    r
                },
                None => join3(self.service_name.as_str(), ":", key),
            },
        }
    }

    /// Store a credential, under the profile context if there is one.
    pub fn store(&mut self, key: &str, value: &str) -> (r: Result<(), Error>)
        ensures
            r is Ok,
            old(self).store_outcome(&*final(self), old(self).key_for(key@, None), value@),
            final(self).tracked_lists() == old(self).tracked_lists(),
    {
        self.store_with_profile(key, value, None)
    }

    /// Store a credential with an optional explicit profile.
    ///
    /// The primary backend is tried first unless it has failed before; a
    /// failure marks it failed for good. Then the persistent fallback is
    /// tried, and last the volatile memory, which always succeeds (and does
    /// not persist across restarts).
    pub fn store_with_profile(&mut self, key: &str, value: &str, profile: Option<&str>) -> (r: Result<(), Error>)
        ensures
            r is Ok,
            old(self).store_outcome(
                &*final(self),
                old(self).key_for(key@, match profile { Some(p) => Some(p@), None => None }),
                value@,
            ),
            final(self).tracked_lists() == old(self).tracked_lists(),
    {
        let full_key = self.make_key_with_profile(key, profile);
        if !self.is_primary_failed {
            match self.primary.store(full_key.as_str(), value) {
                Ok(()) => return Ok(()),
                Err(_) => {
                    self.is_primary_failed = true;
                },
            }
        }
        let mut fallback = None;
        std::mem::swap(&mut fallback, &mut self.fallback);
        let mut stored = false;
        match fallback {
            Some(mut fb) => {
                match fb.store(full_key.as_str(), value) {
                    Ok(()) => {
                        stored = true;
                    },
                    Err(_) => {},
                }
                self.fallback = Some(fb);
            },
            None => {},
        }
        if stored {
            return Ok(());
        }
        self.volatile.store(full_key.as_str(), value)
    }

    /// Retrieve a credential, under the profile context if there is one.
    pub fn get(&mut self, key: &str) -> (r: Result<Option<String>, Error>)
        ensures
            r matches Ok(v) && old(self).get_outcome(&*final(self), old(self).key_for(key@, None), opt_view(v)),
            final(self).tracked_lists() == old(self).tracked_lists(),
    {
        self.get_with_profile(key, None)
    }

    /// Retrieve a credential with an optional explicit profile.
    ///
    /// The primary answers unless it has failed (an error marks it failed);
    /// then the persistent fallback answers unless it errs; then the volatile
    /// memory.
    pub fn get_with_profile(&mut self, key: &str, profile: Option<&str>) -> (r: Result<Option<String>, Error>)
        ensures
            r matches Ok(v) && old(self).get_outcome(
                &*final(self),
                old(self).key_for(key@, match profile { Some(p) => Some(p@), None => None }),
                opt_view(v),
            ),
            final(self).tracked_lists() == old(self).tracked_lists(),
    {
        let full_key = self.make_key_with_profile(key, profile);
        if !self.is_primary_failed {
            match self.primary.get(full_key.as_str()) {
                Ok(v) => return Ok(v),
                Err(_) => {
                    self.is_primary_failed = true;
                },
            }
        }
        match &self.fallback {
            Some(fb) => {
                match fb.get(full_key.as_str()) {
                    Ok(v) => return Ok(v),
                    Err(_) => {},
                }
            },
            None => {},
        }
        self.volatile.get(full_key.as_str())
    }

    /// Remove a credential, under the profile context if there is one.
    pub fn remove(&mut self, key: &str) -> (r: Result<(), Error>)
        ensures
            r is Ok,
            old(self).remove_outcome(&*final(self), old(self).key_for(key@, None)),
            final(self).tracked_lists() == old(self).tracked_lists(),
    {
        self.remove_with_profile(key, None)
    }

    /// Remove a credential from every backend; failures of single backends
    /// are ignored.
    pub fn remove_with_profile(&mut self, key: &str, profile: Option<&str>) -> (r: Result<(), Error>)
        ensures
            r is Ok,
            old(self).remove_outcome(
                &*final(self),
                old(self).key_for(key@, match profile { Some(p) => Some(p@), None => None }),
            ),
            final(self).tracked_lists() == old(self).tracked_lists(),
    {
        let full_key = self.make_key_with_profile(key, profile);
        let _ = self.primary.remove(full_key.as_str());
        let mut fallback = None;
        std::mem::swap(&mut fallback, &mut self.fallback);
        match fallback {
            Some(mut fb) => {
                let _ = fb.remove(full_key.as_str());
                self.fallback = Some(fb);
            },
            None => {},
        }
        let _ = self.volatile.remove(full_key.as_str());
        Ok(())
    }

    /// Check if a credential exists (under the profile context, if any) in
    /// any backend; a backend that errs counts as not holding it.
    pub fn exists_key(&self, key: &str) -> (r: bool)
        ensures
            r && self.primary_backend().faithful() && (self.fallback_backend() matches Some(f) ==> f.faithful()) ==> {
                let fk = self.key_for(key@, None);
                ||| self.primary_backend().entries().contains_key(fk)
                ||| (self.fallback_backend() matches Some(f) && f.entries().contains_key(fk))
                ||| self.volatile_entries().contains_key(fk)
            },
            self.primary_backend().never_fails() && self.primary_backend().faithful()
                && self.primary_backend().entries().contains_key(self.key_for(key@, None)) ==> r,
            (self.fallback_backend() matches Some(f) && f.never_fails() && f.faithful() && f.entries().contains_key(
                self.key_for(key@, None))) ==> r,
            self.volatile_entries().contains_key(self.key_for(key@, None)) ==> r,
    {
        let full_key = self.make_key_with_profile(key, None);
        match self.primary.exists_key(full_key.as_str()) {
            Ok(true) => return true,
            _ => {},
        }
        match &self.fallback {
            Some(fb) => match fb.exists_key(full_key.as_str()) {
                Ok(true) => return true,
                _ => {},
            },
            None => {},
        }
        match self.volatile.exists_key(full_key.as_str()) {
            Ok(b) => b,
            Err(_) => false,
        }
    }

    /// What `clear` did: every backend that never fails lost the keys of
    /// the clearing prefix and kept all others; the volatile memory too.
    pub open spec fn clear_outcome(&self, after: &Self) -> bool {
        let prefix = clear_prefix(self.service(), self.context());
        &&& after.service() == self.service()
        &&& after.context() == self.context()
        &&& after.primary_failed() == self.primary_failed()
        &&& after.primary_backend().never_fails() == self.primary_backend().never_fails()
        &&& after.primary_backend().faithful() == self.primary_backend().faithful()
        &&& (after.fallback_backend() is Some <==> self.fallback_backend() is Some)
        &&& (after.fallback_backend() matches Some(f) ==> f.never_fails() == self.fallback_backend()->0.never_fails()
            && f.faithful() == self.fallback_backend()->0.faithful())
        &&& (self.primary_backend().never_fails() && self.primary_backend().faithful() ==> after.primary_backend().entries()
            == without_prefix(self.primary_backend().entries(), prefix))
        &&& (self.fallback_backend() is Some && self.fallback_backend()->0.never_fails()
            && self.fallback_backend()->0.faithful()
            ==> after.fallback_backend()->0.entries() == without_prefix(self.fallback_backend()->0.entries(), prefix))
        &&& after.volatile_entries() == without_prefix(self.volatile_entries(), prefix)
    }

    fn clear_prefix_text(&self) -> (r: String)
        ensures
            r@ == clear_prefix(self.service(), self.context()),
    {
        match &self.profile_context {
            Some(c) => {
                let mut r = join3(self.service_name.as_str(), ":profiles:", c.as_str());
                r.append(":");
                r
            },
            None => join2(self.service_name.as_str(), ":"),
        }
    }

    /// Removing the keys of a set that holds every key of `m` with the prefix,
    /// and only such keys, is removing the prefixed keys.
    proof fn lemma_remove_prefixed(m: Map<Seq<char>, Seq<char>>, keys: Set<Seq<char>>, prefix: Seq<char>)
        requires
            forall|k: Seq<char>| keys.contains(k) ==> prefix.is_prefix_of(k),
            forall|k: Seq<char>| m.dom().contains(k) && prefix.is_prefix_of(k) ==> keys.contains(k),
        ensures
            m.remove_keys(keys) == without_prefix(m, prefix),
    {
        assert(m.remove_keys(keys) =~= without_prefix(m, prefix));
    }

    /// Clear all credentials of this service: with a profile context only
    /// those of the profile (`service:profiles:profile:`), otherwise every
    /// key that starts with `service:`. Keys are gathered from every backend
    /// that can list them, then removed from every backend; failures of
    /// single backends are ignored.
    pub fn clear(&mut self) -> (r: Result<(), Error>)
        ensures
            r is Ok,
            old(self).clear_outcome(&*final(self)),
            final(self).tracked_lists() == Map::<Option<Seq<char>>, Seq<Seq<char>>>::empty(),
    {
        let prefix = self.clear_prefix_text();
        let ghost pfx = prefix@;
        let mut keys: Vec<String> = Vec::new();
        let ghost old_p = self.primary.entries();
        let ghost old_v = self.volatile.entries();
        let ghost old_f = if self.fallback is Some { self.fallback->0.entries() } else { Map::empty() };
        match self.primary.list_keys() {
            Ok(ks) => collect_prefixed(&mut keys, &ks, prefix.as_str()),
            Err(_) => {},
        }
        match &self.fallback {
            Some(fb) => match fb.list_keys() {
                Ok(ks) => collect_prefixed(&mut keys, &ks, prefix.as_str()),
                Err(_) => {},
            },
            None => {},
        }
        match self.volatile.list_keys() {
            Ok(ks) => collect_prefixed(&mut keys, &ks, prefix.as_str()),
            Err(_) => {},
        }
        let ghost all = views(keys@).to_set();
        assert forall|k: Seq<char>| all.contains(k) implies pfx.is_prefix_of(k) by {}
        assert(forall|k: Seq<char>| old_v.dom().contains(k) && pfx.is_prefix_of(k) ==> all.contains(k));
        let n = keys.len();
        let mut i: usize = 0;
        while i < n
            invariant
                n == keys@.len(),
                i <= n,
                self.service_name == old(self).service_name,
                self.profile_context == old(self).profile_context,
                self.is_primary_failed == old(self).is_primary_failed,
                self.tracked_secrets_cache == old(self).tracked_secrets_cache,
                self.primary.never_fails() == old(self).primary.never_fails(),
                self.primary.faithful() == old(self).primary.faithful(),
                (self.fallback is Some <==> old(self).fallback is Some),
                self.fallback matches Some(f) ==> f.never_fails() == old(self).fallback->0.never_fails()
                    && f.faithful() == old(self).fallback->0.faithful(),
                old(self).primary.never_fails() && old(self).primary.faithful() ==> self.primary.entries()
                    == old_p.remove_keys(views(keys@.subrange(0, i as int)).to_set()),
                old(self).fallback is Some && old(self).fallback->0.never_fails() && old(self).fallback->0.faithful()
                    ==> self.fallback->0.entries() == old_f.remove_keys(views(keys@.subrange(0, i as int)).to_set()),
                self.volatile.entries() == old_v.remove_keys(views(keys@.subrange(0, i as int)).to_set()),
                old_p == old(self).primary.entries(),
                old_v == old(self).volatile.entries(),
                old(self).fallback matches Some(f) ==> old_f == f.entries(),
            decreases n - i,
        {
            let k = &keys[i];
            let ghost done = views(keys@.subrange(0, i as int));
            proof {
                assert(views(keys@.subrange(0, i + 1)) =~= done.push(k@));
                lemma_push_to_set(done, k@);
            }
            let _ = self.primary.remove(k.as_str());
            let mut fallback = None;
            std::mem::swap(&mut fallback, &mut self.fallback);
            match fallback {
                Some(mut fb) => {
                    let _ = fb.remove(k.as_str());
                    self.fallback = Some(fb);
                },
                None => {},
            }
            let _ = self.volatile.remove(k.as_str());
            proof {
                assert(old_p.remove_keys(done.to_set()).remove(k@) =~= old_p.remove_keys(done.to_set().insert(k@)));
                assert(old_f.remove_keys(done.to_set()).remove(k@) =~= old_f.remove_keys(done.to_set().insert(k@)));
                assert(old_v.remove_keys(done.to_set()).remove(k@) =~= old_v.remove_keys(done.to_set().insert(k@)));
            }
            i += 1;
        }
        proof {
            assert(keys@.subrange(0, n as int) =~= keys@);
            Self::lemma_remove_prefixed(old_v, all, pfx);
            if old(self).primary.never_fails() && old(self).primary.faithful() {
                assert forall|k: Seq<char>| old_p.dom().contains(k) && pfx.is_prefix_of(k) implies all.contains(k) by {}
                Self::lemma_remove_prefixed(old_p, all, pfx);
            }
            if old(self).fallback is Some && old(self).fallback->0.never_fails() && old(self).fallback->0.faithful() {
                assert forall|k: Seq<char>| old_f.dom().contains(k) && pfx.is_prefix_of(k) implies all.contains(k) by {}
                Self::lemma_remove_prefixed(old_f, all, pfx);
            }
        }
        self.tracked_secrets_cache.clear();
        Ok(())
    }

    /// Load the tracked secret keys of a profile (`None`: the global scope),
    /// from the in-memory cache where it holds them, else from the list
    /// stored under `__rcman_secrets__`, which is then cached.
    pub fn get_tracked_secrets(&mut self, profile: Option<&str>) -> (r: Result<Vec<String>, Error>)
        ensures
            match old(self).tracked_lists().get(opt_str(profile)) {
                Some(l) => r matches Ok(v) && views(v@) == l && *final(self) == *old(self),
                None => exists|found: Option<Seq<char>>| #[trigger] old(self).get_outcome(
                    &*final(self),
                    old(self).key_for(TRACKED_SECRETS_KEY@, opt_str(profile)),
                    found,
                ) && match decoded_tracked(found) {
                    Some(l) => r matches Ok(v) && views(v@).no_duplicates() && views(v@).to_set() == l.to_set()
                        && final(self).tracked_lists() == old(self).tracked_lists().insert(opt_str(profile), views(v@)),
                    None => r matches Err(Error::Credential(m))
                        && "Failed to parse tracked secrets list: "@.is_prefix_of(m@)
                        && final(self).tracked_lists() == old(self).tracked_lists(),
                },
            },
            r matches Ok(v) ==> final(self).tracked_lists() == old(self).tracked_lists().insert(opt_str(profile), views(v@)),
            old(self).tracked_list_readable(opt_str(profile)) ==> r is Ok,
    {
        match self.tracked_secrets_cache.get(profile) {
            Some(v) => return Ok(v),
            None => {},
        }
        let found = self.get_with_profile(TRACKED_SECRETS_KEY, profile)?;
        let ghost gfound = opt_view(found);
        let ghost mid = *self;
        match parse_tracked_list(found) {
            Ok(v) => {
                let c = v.clone();
                assert(views(c@) =~= views(v@));
                self.tracked_secrets_cache.insert(profile, c);
                assert(old(self).get_outcome(&*self, old(self).key_for(TRACKED_SECRETS_KEY@, opt_str(profile)), gfound));
                Ok(v)
            },
            Err(e) => {
                assert(old(self).get_outcome(&*self, old(self).key_for(TRACKED_SECRETS_KEY@, opt_str(profile)), gfound));
                Err(e)
            },
        }
    }

    /// Save the tracked secret keys of a profile as a JSON list under
    /// `__rcman_secrets__`, and cache them.
    pub fn save_tracked_secrets(&mut self, secrets: &Vec<String>, profile: Option<&str>) -> (r: Result<(), Error>)
        ensures
            r is Ok,
            match r {
                Ok(()) => old(self).store_outcome(
                    &*final(self),
                    old(self).key_for(TRACKED_SECRETS_KEY@, opt_str(profile)),
                    json_string_list(views(secrets@)),
                ) && final(self).tracked_lists() == old(self).tracked_lists().insert(opt_str(profile), views(secrets@)),
                Err(e) => e matches Error::Credential(m)
                    && "Failed to serialize tracked secrets list: "@.is_prefix_of(m@)
                    && *final(self) == *old(self),
            },
    {
        let value = match encode_string_list(secrets) {
            Ok(v) => v,
            Err(e) => {
                return Err(Error::Credential(join2("Failed to serialize tracked secrets list: ", e.as_str())));
            },
        };
        let _ = self.store_with_profile(TRACKED_SECRETS_KEY, value.as_str(), profile);
        let copy = secrets.clone();
        assert(views(copy@) =~= views(secrets@));
        self.tracked_secrets_cache.insert(profile, copy);
        Ok(())
    }

    /// Add a key to the tracked secrets of a profile; the list is saved only
    /// when the key is new.
    pub fn add_tracked_secret(&mut self, key: &str, profile: Option<&str>) -> (r: Result<(), Error>)
        ensures
            r matches Err(e) ==> e is Credential,
            old(self).tracked_list_readable(opt_str(profile)) ==> r is Ok,
            r is Ok ==> final(self).tracked_lists().contains_key(opt_str(profile))
                && final(self).tracked_lists()[opt_str(profile)].contains(key@),
            r is Ok ==> forall|q: Option<Seq<char>>| q != opt_str(profile)
                ==> #[trigger] final(self).tracked_lists().get(q) == old(self).tracked_lists().get(q),
            old(self).tracked_lists().get(opt_str(profile)) matches Some(l) ==> {
                if l.contains(key@) {
                    r is Ok && *final(self) == *old(self)
                } else {
                    r is Ok ==> final(self).tracked_lists()[opt_str(profile)] == l.push(key@)
                        && old(self).store_outcome(
                            &*final(self),
                            old(self).key_for(TRACKED_SECRETS_KEY@, opt_str(profile)),
                            json_string_list(l.push(key@)),
                        )
                }
            },
    {
        let mut keys = match self.get_tracked_secrets(profile) {
            Ok(k) => k,
            Err(e) => {
                return Err(e);
            },
        };
        if !contains_str(&keys, key) {
            let ghost before = keys@;
            keys.push(text(key));
            assert(views(keys@) =~= views(before).push(key@));
            assert(views(keys@)[views(keys@).len() - 1] == key@);
            match self.save_tracked_secrets(&keys, profile) {
                Ok(()) => {},
                Err(e) => {
                    return Err(e);
                },
            }
        }
        assert(self.tracked_lists()[opt_str(profile)] == views(keys@));
        Ok(())
    }

    /// Remove a key from the tracked secrets of a profile; the list is saved
    /// only when it held the key.
    pub fn remove_tracked_secret(&mut self, key: &str, profile: Option<&str>) -> (r: Result<(), Error>)
        ensures
            r matches Err(e) ==> e is Credential,
            old(self).tracked_list_readable(opt_str(profile)) ==> r is Ok,
            r is Ok ==> final(self).tracked_lists().contains_key(opt_str(profile))
                && !final(self).tracked_lists()[opt_str(profile)].contains(key@),
            r is Ok ==> forall|q: Option<Seq<char>>| q != opt_str(profile)
                ==> #[trigger] final(self).tracked_lists().get(q) == old(self).tracked_lists().get(q),
            old(self).tracked_lists().get(opt_str(profile)) matches Some(l) ==> {
                if !l.contains(key@) {
                    r is Ok && *final(self) == *old(self)
                } else {
                    r is Ok ==> final(self).tracked_lists()[opt_str(profile)] == without_key(l, key@)
                        && old(self).store_outcome(
                            &*final(self),
                            old(self).key_for(TRACKED_SECRETS_KEY@, opt_str(profile)),
                            json_string_list(without_key(l, key@)),
                        )
                }
            },
    {
        let keys = match self.get_tracked_secrets(profile) {
            Ok(k) => k,
            Err(e) => {
                return Err(e);
            },
        };
        if contains_str(&keys, key) {
            let rest = without_str(&keys, key);
            proof {
                broadcast use vstd::seq_lib::group_filter_ensures;
                assert(!views(rest@).contains(key@));
            }
            match self.save_tracked_secrets(&rest, profile) {
                Ok(()) => {},
                Err(e) => {
                    return Err(e);
                },
            }
        }
        Ok(())
    }

    /// Forget the cached tracked secret lists of every profile.
    pub fn invalidate_tracked_secrets_cache(&mut self) -> (r: Result<(), Error>)
        ensures
            r is Ok,
            final(self).tracked_lists() == Map::<Option<Seq<char>>, Seq<Seq<char>>>::empty(),
            final(self).same_stores(&*old(self)),
    {
        self.tracked_secrets_cache.clear();
        Ok(())
    }

    /// Cache an empty tracked secret list for a profile.
    pub fn clear_tracked_secrets_cache(&mut self, profile: Option<&str>) -> (r: Result<(), Error>)
        ensures
            r is Ok,
            final(self).tracked_lists() == old(self).tracked_lists().insert(opt_str(profile), Seq::empty()),
            final(self).same_stores(&*old(self)),
    {
        let empty: Vec<String> = Vec::new();
        assert(views(empty@) =~= Seq::<Seq<char>>::empty());
        self.tracked_secrets_cache.insert(profile, empty);
        Ok(())
    }

    /// Get the name of the backend that answers: the primary, or after a
    /// failure the persistent fallback, or else the volatile memory.
    pub fn backend_name(&self) -> (r: &'static str)
        ensures
            (if !self.primary_failed() {
                self.primary_backend().backend_label()
            } else {
                match self.fallback_backend() {
                    Some(f) => f.backend_label(),
                    None => Some("memory"@),
                }
            }) matches Some(l) ==> r@ == l,
    {
        if self.is_primary_failed {
            match &self.fallback {
                Some(fb) => fb.backend_name(),
                None => self.volatile.backend_name(),
            }
        } else {
            self.primary.backend_name()
        }
    }
}

/// Read a stored tracked secret list: the stored JSON list, each key once,
/// or the empty list where none is stored.
pub fn parse_tracked_list(found: Option<String>) -> (r: Result<Vec<String>, Error>)
    ensures
        match decoded_tracked(opt_view(found)) {
            Some(l) => r matches Ok(v) && views(v@).no_duplicates() && views(v@).to_set() == l.to_set(),
            None => r matches Err(Error::Credential(m)) && "Failed to parse tracked secrets list: "@.is_prefix_of(m@),
        },
{
    match found {
        Some(t) => match decode_string_list(t.as_str()) {
            Ok(list) => Ok(unique_strings(&list)),
            Err(e) => Err(Error::Credential(join2("Failed to parse tracked secrets list: ", e.as_str()))),
        },
        None => {
            let v: Vec<String> = Vec::new();
            assert(views(v@) =~= Seq::<Seq<char>>::empty());
            assert(views(v@).to_set() =~= Seq::<Seq<char>>::empty().to_set());
            Ok(v)
        },
    }
}

/// Adds to `keys` each key of `listed` that starts with `prefix` and is not
/// in `keys` yet.
fn collect_prefixed(keys: &mut Vec<String>, listed: &Vec<String>, prefix: &str)
    ensures
        views(final(keys)@).to_set() == views(old(keys)@).to_set().union(
            views(listed@).to_set().filter(|k: Seq<char>| prefix@.is_prefix_of(k)),
        ),
        views(old(keys)@).no_duplicates() ==> views(final(keys)@).no_duplicates(),
{
    let n = listed.len();
    let mut i: usize = 0;
    while i < n
        invariant
            n == listed@.len(),
            i <= n,
            views(keys@).to_set() == views(old(keys)@).to_set().union(
                views(listed@.subrange(0, i as int)).to_set().filter(|k: Seq<char>| prefix@.is_prefix_of(k)),
            ),
            views(old(keys)@).no_duplicates() ==> views(keys@).no_duplicates(),
        decreases n - i,
    {
        let k = &listed[i];
        let ghost before = keys@;
        if starts_with(k.as_str(), prefix) && !contains_str(keys, k.as_str()) {
            keys.push(k.clone());
            proof {
                assert(views(keys@) =~= views(before).push(k@));
                if views(old(keys)@).no_duplicates() {
                    assert forall|a: int, b: int| 0 <= a < views(keys@).len() && 0 <= b < views(keys@).len() && a != b
                        implies views(keys@)[a] != views(keys@)[b] by {
                        if a < before.len() && b < before.len() {
                            assert(views(before)[a] != views(before)[b]);
                        } else if a == before.len() {
                            assert(views(keys@)[b] == views(before)[b]);
                        } else {
                            assert(views(keys@)[a] == views(before)[a]);
                        }
                    }
                }
            }
        }
        proof {
            assert(views(listed@.subrange(0, i + 1)) =~= views(listed@.subrange(0, i as int)).push(k@));
            lemma_push_to_set(views(listed@.subrange(0, i as int)), k@);
            lemma_push_to_set(views(before), k@);
            assert(views(keys@).to_set() =~= views(old(keys)@).to_set().union(
                views(listed@.subrange(0, i + 1)).to_set().filter(|k: Seq<char>| prefix@.is_prefix_of(k))));
        }
        i += 1;
    }
    proof {
        assert(listed@.subrange(0, n as int) =~= listed@);
    }
}

impl CredentialManager<MemoryBackend, MemoryBackend> {
    /// Create a credential manager whose primary backend is held in memory.
    pub fn new(service_name: &str) -> (r: Self)
        ensures
            r.service() == service_name@,
            r.context() is None,
            !r.primary_failed(),
            r.primary_backend().entries() == Map::<Seq<char>, Seq<char>>::empty(),
            r.primary_backend().never_fails(),
            r.primary_backend().faithful(),
            r.fallback_backend() is None,
            r.volatile_entries() == Map::<Seq<char>, Seq<char>>::empty(),
            r.tracked_lists() == Map::<Option<Seq<char>>, Seq<Seq<char>>>::empty(),
    {
        Self::make(text(service_name), MemoryBackend::new(), None)
    }

    /// Create with only memory backends (for testing).
    pub fn memory_only(service_name: &str) -> (r: Self)
        ensures
            r.service() == service_name@,
            r.context() is None,
            !r.primary_failed(),
            r.primary_backend().entries() == Map::<Seq<char>, Seq<char>>::empty(),
            r.primary_backend().never_fails(),
            r.primary_backend().faithful(),
            r.fallback_backend() is None,
            r.volatile_entries() == Map::<Seq<char>, Seq<char>>::empty(),
            r.tracked_lists() == Map::<Option<Seq<char>>, Seq<Seq<char>>>::empty(),
    {
        Self::make(text(service_name), MemoryBackend::new(), None)
    }
}

} // verus!

verus! {

/// A secret stored through the manager is read back by the next `get` with
/// the same key and profile, whichever backend took it, as long as the
/// primary and the persistent fallback do not fail.
pub proof fn law_store_then_get<P: CredentialBackend, F: CredentialBackend>(
    m0: CredentialManager<P, F>,
    m1: CredentialManager<P, F>,
    m2: CredentialManager<P, F>,
    fk: Seq<char>,
    value: Seq<char>,
    found: Option<Seq<char>>,
)
    requires
        m0.backends_never_fail(),
        m0.store_outcome(&m1, fk, value),
        m1.get_outcome(&m2, fk, found),
    ensures
        found == Some(value),
{
    if !m0.primary_failed() {
        assert(m1.primary_backend().entries().get(fk) == Some(value));
    } else if m0.fallback_backend() is Some {
        assert(m1.fallback_backend()->0.entries().get(fk) == Some(value));
    } else {
        assert(m1.volatile_entries().get(fk) == Some(value));
    }
}

/// Where the primary and the persistent fallback both always fail, a
/// secret stored through the manager lands in the volatile memory, the
/// primary is marked failed, and the next `get` reads the secret back.
pub proof fn law_volatile_fallback_keeps_value<P: CredentialBackend, F: CredentialBackend>(
    m0: CredentialManager<P, F>,
    m1: CredentialManager<P, F>,
    m2: CredentialManager<P, F>,
    fk: Seq<char>,
    value: Seq<char>,
    found: Option<Seq<char>>,
)
    requires
        m0.primary_backend().always_fails(),
        m0.fallback_backend() matches Some(f) ==> f.always_fails(),
        m0.store_outcome(&m1, fk, value),
        m1.get_outcome(&m2, fk, found),
    ensures
        m1.primary_failed(),
        found == Some(value),
{
    assert(m1.volatile_entries().get(fk) == Some(value));
}

/// Where the primary and the persistent fallback both always fail, a
/// secret removed through the manager is not found by the next `get`.
pub proof fn law_volatile_fallback_remove<P: CredentialBackend, F: CredentialBackend>(
    m0: CredentialManager<P, F>,
    m1: CredentialManager<P, F>,
    m2: CredentialManager<P, F>,
    fk: Seq<char>,
    found: Option<Seq<char>>,
)
    requires
        m0.primary_backend().always_fails(),
        m0.fallback_backend() matches Some(f) ==> f.always_fails(),
        m0.remove_outcome(&m1, fk),
        m1.get_outcome(&m2, fk, found),
    ensures
        found is None,
{
}

/// After a secret is removed through the manager, the next `get` with the
/// same key and profile finds nothing, as long as the primary and the
/// persistent fallback do not fail.
pub proof fn law_remove_then_get<P: CredentialBackend, F: CredentialBackend>(
    m0: CredentialManager<P, F>,
    m1: CredentialManager<P, F>,
    m2: CredentialManager<P, F>,
    fk: Seq<char>,
    found: Option<Seq<char>>,
)
    requires
        m0.backends_never_fail(),
        m0.remove_outcome(&m1, fk),
        m1.get_outcome(&m2, fk, found),
    ensures
        found is None,
{
}

/// Secrets of different profiles never share a backend key, and a secret
/// stored under a profile never shares its key with an unscoped secret of
/// the same name: profiles are isolated from each other and from the
/// global scope.
pub proof fn law_profile_keys_isolated(
    service: Seq<char>,
    context: Option<Seq<char>>,
    p1: Seq<char>,
    p2: Seq<char>,
    key: Seq<char>,
)
    ensures
        p1 != p2 ==> full_key(service, context, Some(p1), key) != full_key(service, context, Some(p2), key),
        full_key(service, context, Some(p1), key) != full_key(service, None, None, key),
{
    reveal_strlit(":profiles:");
    reveal_strlit(":");
    let k1 = full_key(service, context, Some(p1), key);
    let k2 = full_key(service, context, Some(p2), key);
    if p1 != p2 && k1 == k2 {
        let pre = service + ":profiles:"@;
        assert(k1.len() == k2.len());
        assert(p1.len() == p2.len());
        assert forall|i: int| 0 <= i < p1.len() implies p1[i] == p2[i] by {
            assert(k1[pre.len() + i] == p1[i]);
            assert(k2[pre.len() + i] == p2[i]);
        }
        assert(p1 =~= p2);
    }
    let g = full_key(service, None, None, key);
    assert(k1.len() > g.len());
}

/// Clearing without a profile context removes every secret of the service,
/// whatever its profile.
pub proof fn law_clear_without_context_covers_all(
    service: Seq<char>,
    context: Option<Seq<char>>,
    profile: Option<Seq<char>>,
    key: Seq<char>,
)
    ensures
        clear_prefix(service, None).is_prefix_of(full_key(service, context, profile, key)),
{
    reveal_strlit(":profiles:");
    reveal_strlit(":");
    let pre = clear_prefix(service, None);
    let k = full_key(service, context, profile, key);
    assert(pre =~= k.subrange(0, pre.len() as int));
}

/// `a + b` starts with `a + c` exactly when `b` starts with `c`.
proof fn lemma_prefix_cancel(a: Seq<char>, b: Seq<char>, c: Seq<char>)
    ensures
        (a + c).is_prefix_of(a + b) == c.is_prefix_of(b),
{
    if (a + c).is_prefix_of(a + b) {
        assert forall|i: int| 0 <= i < c.len() implies c[i] == b[i] by {
            assert((a + c)[a.len() + i] == (a + b)[a.len() + i]);
        }
        assert(c =~= b.subrange(0, c.len() as int));
    }
    if c.is_prefix_of(b) {
        assert((a + c) =~= (a + b).subrange(0, (a + c).len() as int));
    }
}

/// Clearing with a profile context removes the secrets of that profile and
/// keeps those of any other profile and the unscoped ones, except where the
/// other profile's key, or the unscoped key, happens to begin with the
/// cleared profile's prefix (profile names may contain `:`): those inputs
/// are left out by the `requires`.
pub proof fn law_clear_with_context_is_scoped(
    service: Seq<char>,
    ctx: Seq<char>,
    other: Seq<char>,
    key: Seq<char>,
)
    requires
        !(ctx + ":"@).is_prefix_of(other + ":"@ + key),
        !("profiles:"@ + ctx + ":"@).is_prefix_of(key),
    ensures
        clear_prefix(service, Some(ctx)).is_prefix_of(full_key(service, Some(ctx), None, key)),
        clear_prefix(service, Some(ctx)).is_prefix_of(full_key(service, None, Some(ctx), key)),
        !clear_prefix(service, Some(ctx)).is_prefix_of(full_key(service, None, Some(other), key)),
        !clear_prefix(service, Some(ctx)).is_prefix_of(full_key(service, None, None, key)),
{
    reveal_strlit(":profiles:");
    reveal_strlit("profiles:");
    reveal_strlit(":");
    let pre = clear_prefix(service, Some(ctx));
    let k1 = full_key(service, Some(ctx), None, key);
    assert(pre =~= k1.subrange(0, pre.len() as int));
    let k2 = full_key(service, None, Some(ctx), key);
    assert(pre =~= k2.subrange(0, pre.len() as int));
    let base = service + ":profiles:"@;
    let k3 = full_key(service, None, Some(other), key);
    assert(pre =~= base + (ctx + ":"@));
    assert(k3 =~= base + (other + ":"@ + key));
    lemma_prefix_cancel(base, other + ":"@ + key, ctx + ":"@);
    let k4 = full_key(service, None, None, key);
    let s1 = service + ":"@;
    assert(pre =~= s1 + ("profiles:"@ + ctx + ":"@));
    assert(k4 =~= s1 + key);
    lemma_prefix_cancel(s1, key, "profiles:"@ + ctx + ":"@);
}

} // verus!

verus! {

/// A list of keys with every occurrence of `key` taken out.
pub open spec fn without_key(l: Seq<Seq<char>>, key: Seq<char>) -> Seq<Seq<char>> {
    l.filter(|x: Seq<char>| x != key)
}

/// Filtering out a key that a list does not hold leaves the list as it is.
proof fn lemma_filter_out_absent(l: Seq<Seq<char>>, k: Seq<char>)
    requires
        !l.contains(k),
    ensures
        without_key(l, k) == l,
    decreases l.len(),
{
    reveal(Seq::filter);
    if l.len() > 0 {
        assert(!l.drop_last().contains(k)) by {
            if l.drop_last().contains(k) {
                let i = choose|i: int| 0 <= i < l.drop_last().len() && l.drop_last()[i] == k;
                assert(l[i] == k);
            }
        }
        lemma_filter_out_absent(l.drop_last(), k);
        assert(l.last() != k) by {
            assert(l[l.len() - 1] == l.last());
        }
        assert(l.drop_last().push(l.last()) =~= l);
    }
}

/// The primary's failure mark is sticky: no store, read, removal or clear
/// takes it away, and none sets it for a primary that never fails.
pub proof fn law_primary_failure_is_sticky<P: CredentialBackend, F: CredentialBackend>(
    c0: CredentialManager<P, F>,
    c1: CredentialManager<P, F>,
    fk: Seq<char>,
    value: Seq<char>,
    found: Option<Seq<char>>,
)
    requires
        c0.store_outcome(&c1, fk, value) || c0.get_outcome(&c1, fk, found) || c0.remove_outcome(&c1, fk)
            || c0.clear_outcome(&c1),
    ensures
        c0.primary_failed() ==> c1.primary_failed(),
        !c0.primary_failed() && c0.primary_backend().never_fails() ==> !c1.primary_failed(),
{
}

/// Adding a key to the tracked secrets of a profile and removing it again
/// gives back the list as it was, where the key was not in it.
pub proof fn law_add_then_remove_tracked<P: CredentialBackend, F: CredentialBackend>(
    c0: CredentialManager<P, F>,
    c1: CredentialManager<P, F>,
    c2: CredentialManager<P, F>,
    profile: Option<Seq<char>>,
    key: Seq<char>,
)
    requires
        c0.tracked_lists().get(profile) matches Some(l) && !l.contains(key)
            && c1.tracked_lists().get(profile) == Some(l.push(key)),
        c1.tracked_lists().get(profile) matches Some(l1) && c2.tracked_lists().get(profile) == Some(
            without_key(l1, key),
        ),
    ensures
        c2.tracked_lists().get(profile) == c0.tracked_lists().get(profile),
{
    let l = c0.tracked_lists()[profile];
    reveal(Seq::filter);
    assert(l.push(key).drop_last() =~= l);
    lemma_filter_out_absent(l, key);
    assert(without_key(l.push(key), key) == without_key(l, key));
}

} // verus!
