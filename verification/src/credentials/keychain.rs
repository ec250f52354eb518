//! OS keychain backend, through `keyring_core`'s default credential store.
//!
//! The keychain is an outside service: what it holds is not modelled, so the
//! backend is neither `faithful` nor `never_fails`. What is verified is the
//! error reporting and the record of the keys this backend has seen, which
//! stands in for listing (the keychain cannot enumerate its entries).
use vstd::prelude::*;

use super::CredentialBackend;
use crate::error::Error;
use crate::text::{contains_str, join3, text, views, without_str};

verus! {

#[verifier::external_type_specification]
#[verifier::external_body]
pub struct ExKeyringEntry(keyring_core::Entry);

/// Why a keychain call failed: no such credential, or another failure
/// described by the keyring's message.
#[derive(Debug, Clone, PartialEq, Eq)]
pub enum KeyringFailure {
    /// The keychain holds no credential for the entry.
    NoEntry,
    /// Any other failure, with the keyring's message.
    Other(String),
}

/// An entry of the keychain, with the service and user it was made for.
pub struct KeyEntry {
    service: String,
    user: String,
    entry: keyring_core::Entry,
}

impl KeyEntry {
    /// The service the entry belongs to.
    pub closed spec fn service(&self) -> Seq<char> {
        self.service@
    }

    /// The user (the credential's key) the entry stands for.
    pub closed spec fn user(&self) -> Seq<char> {
        self.user@
    }
}

/// `keyring_core::Entry::new`: the entry of a service and user in the
/// default store, kept with the two names it was made from. Whether it
/// succeeds rests on the platform store and is not promised.
#[verifier::external_body]
fn entry_new(service: &str, user: &str) -> (r: Result<KeyEntry, KeyringFailure>)
    ensures
        r matches Ok(e) ==> e.service() == service@ && e.user() == user@,
{
    match keyring_core::Entry::new(service, user) {
        Ok(entry) => Ok(KeyEntry { service: service.to_string(), user: user.to_string(), entry }),
        Err(keyring_core::Error::NoEntry) => Err(KeyringFailure::NoEntry),
        Err(other) => Err(KeyringFailure::Other(other.to_string())),
    }
}

/// `keyring_core::Entry::set_password`; the outcome rests on the platform
/// store and nothing is promised.
#[verifier::external_body]
fn entry_set_password(e: &KeyEntry, password: &str) -> Result<(), KeyringFailure> {
    e.entry.set_password(password).map_err(|e| match e {
        keyring_core::Error::NoEntry => KeyringFailure::NoEntry,
        other => KeyringFailure::Other(other.to_string()),
    })
}

/// `keyring_core::Entry::get_password`; the outcome rests on the platform
/// store and nothing is promised.
#[verifier::external_body]
fn entry_get_password(e: &KeyEntry) -> Result<String, KeyringFailure> {
    e.entry.get_password().map_err(|e| match e {
        keyring_core::Error::NoEntry => KeyringFailure::NoEntry,
        other => KeyringFailure::Other(other.to_string()),
    })
}

/// `keyring_core::Entry::delete_credential`; the outcome rests on the
/// platform store and nothing is promised.
#[verifier::external_body]
fn entry_delete_credential(e: &KeyEntry) -> Result<(), KeyringFailure> {
    e.entry.delete_credential().map_err(|e| match e {
        keyring_core::Error::NoEntry => KeyringFailure::NoEntry,
        other => KeyringFailure::Other(other.to_string()),
    })
}

/// The text of a keyring failure, as the keyring words it.
pub open spec fn failure_text(f: KeyringFailure) -> Seq<char> {
    match f {
        KeyringFailure::NoEntry => "No matching credential found"@,
        KeyringFailure::Other(m) => m@,
    }
}

fn failure_message(f: &KeyringFailure) -> (r: String)
    ensures
        r@ == failure_text(*f),
{
    match f {
        KeyringFailure::NoEntry => text("No matching credential found"),
        KeyringFailure::Other(m) => m.clone(),
    }
}

/// The message of a failed keychain call: `{before}{key}{after}` and the
/// keyring's text.
pub open spec fn keychain_message(before: Seq<char>, key: Seq<char>, after: Seq<char>, f: KeyringFailure) -> Seq<char> {
    before + key + after + failure_text(f)
}

fn credential_error(before: &str, key: &str, after: &str, f: &KeyringFailure) -> (r: Error)
    ensures
        r matches Error::Credential(m) && m@ == keychain_message(before@, key@, after@, *f),
{
    let mut m = join3(before, key, after);
    let t = failure_message(f);
    m.append(t.as_str());
    Error::Credential(m)
}

/// OS keychain backend for secure credential storage.
#[derive(Debug)]
pub struct KeychainBackend {
    service_name: String,
    /// Keys seen in this session (the keychain cannot list its entries).
    known_keys: Vec<String>,
}

impl KeychainBackend {
    /// No key is recorded twice.
    #[verifier::type_invariant]
    spec fn known_once(&self) -> bool {
        views(self.known_keys@).no_duplicates()
    }

    /// The keys stored, read or seen missing through this backend, minus
    /// those removed.
    pub closed spec fn known(&self) -> Set<Seq<char>> {
        views(self.known_keys@).to_set()
    }

    /// The keychain service name.
    pub closed spec fn service(&self) -> Seq<char> {
        self.service_name@
    }

    /// Create a keychain backend for a service.
    pub fn new(service_name: &str) -> (r: Self)
        ensures
            r.service() == service_name@,
            r.known() == Set::<Seq<char>>::empty(),
    {
        let r = KeychainBackend { service_name: text(service_name), known_keys: Vec::new() };
        assert(views(r.known_keys@).to_set() =~= Set::<Seq<char>>::empty());
        r
    }

    /// The keychain entry of a key under this backend's service.
    fn get_entry(&self, key: &str) -> (r: Result<KeyEntry, Error>)
        ensures
            r matches Ok(e) ==> e.service() == self.service() && e.user() == key@,
            r matches Err(e) ==> (exists|f: KeyringFailure| e matches Error::Credential(m)
                && m@ == #[trigger] keychain_message("Failed to create keychain entry for "@, key@, ": "@, f)),
    {
        match entry_new(self.service_name.as_str(), key) {
            Ok(entry) => Ok(entry),
            Err(f) => Err(credential_error("Failed to create keychain entry for ", key, ": ", &f)),
        }
    }

    /// Record a key as known.
    fn track_key(&mut self, key: &str)
        ensures
            final(self).known() == old(self).known().insert(key@),
            final(self).service() == old(self).service(),
    {
        proof {
            use_type_invariant(&*self);
        }
        if !contains_str(&self.known_keys, key) {
            let mut keys: Vec<String> = Vec::new();
            std::mem::swap(&mut keys, &mut self.known_keys);
            let ghost before = keys@;
            keys.push(text(key));
            proof {
                assert(views(keys@) =~= views(before).push(key@));
                crate::text::lemma_push_to_set(views(before), key@);
                assert forall|a: int, b: int| 0 <= a < b < views(keys@).len() implies views(keys@)[a] != views(keys@)[b] by {
                    if b == before.len() {
                        assert(views(before)[a] == views(keys@)[a]);
                    } else {
                        assert(views(before)[a] != views(before)[b]);
                    }
                }
            }
            self.known_keys = keys;
        } else {
            assert(self.known().insert(key@) =~= self.known());
        }
    }

    /// Forget a key.
    fn untrack_key(&mut self, key: &str)
        ensures
            final(self).known() == old(self).known().remove(key@),
            final(self).service() == old(self).service(),
    {
        proof {
            use_type_invariant(&*self);
        }
        let rest = without_str(&self.known_keys, key);
        proof {
            broadcast use vstd::seq_lib::group_filter_ensures;
            let s = views(self.known_keys@);
            let f = views(rest@);
            assert forall|x: Seq<char>| #[trigger] f.to_set().contains(x) == s.to_set().remove(key@).contains(x) by {
                if f.contains(x) {
                    s.lemma_filter_contains_rev(|x: Seq<char>| x != key@, x);
                    let i = choose|i: int| 0 <= i < f.len() && f[i] == x;
                    assert(x != key@);
                }
                if s.contains(x) && x != key@ {
                    let i = choose|i: int| 0 <= i < s.len() && s[i] == x;
                    assert(f.contains(s[i]));
                }
            }
            assert(f.to_set() =~= s.to_set().remove(key@));
            crate::text::lemma_filter_no_duplicates(s, |x: Seq<char>| x != key@);
        }
        self.known_keys = rest;
    }
}

impl CredentialBackend for KeychainBackend {
    fn store(&mut self, key: &str, value: &str) -> (r: Result<(), Error>)
        ensures
            r is Ok ==> final(self).known() == old(self).known().insert(key@),
            r is Err ==> final(self).known() == old(self).known(),
            r matches Err(e) ==> exists|f: KeyringFailure| e matches Error::Credential(m) && {
                ||| m@ == "Failed to create keychain entry for "@ + key@ + ": "@ + #[trigger] failure_text(f)
                ||| m@ == "Failed to store credential "@ + key@ + " in keychain: "@ + failure_text(f)
            },
            final(self).service() == old(self).service(),
    {
        let entry = self.get_entry(key)?;
        match entry_set_password(&entry, value) {
            Ok(()) => {
                self.track_key(key);
                Ok(())
            },
            Err(f) => Err(credential_error("Failed to store credential ", key, " in keychain: ", &f)),
        }
    }

    fn get(&self, key: &str) -> (r: Result<Option<String>, Error>)
        ensures
            r matches Err(e) ==> exists|f: KeyringFailure| e matches Error::Credential(m) && {
                ||| m@ == "Failed to create keychain entry for "@ + key@ + ": "@ + #[trigger] failure_text(f)
                ||| (f != KeyringFailure::NoEntry && m@ == "Failed to retrieve credential "@ + key@ + ": "@ + failure_text(f))
            },
    {
        let entry = self.get_entry(key)?;
        match entry_get_password(&entry) {
            Ok(password) => Ok(Some(password)),
            Err(KeyringFailure::NoEntry) => Ok(None),
            Err(f) => Err(credential_error("Failed to retrieve credential ", key, ": ", &f)),
        }
    }

    fn remove(&mut self, key: &str) -> (r: Result<(), Error>)
        ensures
            r is Ok ==> final(self).known() == old(self).known().remove(key@),
            r is Err ==> final(self).known() == old(self).known(),
            r matches Err(e) ==> exists|f: KeyringFailure| e matches Error::Credential(m) && {
                ||| m@ == "Failed to create keychain entry for "@ + key@ + ": "@ + #[trigger] failure_text(f)
                ||| (f != KeyringFailure::NoEntry && m@ == "Failed to remove credential "@ + key@ + ": "@ + failure_text(f))
            },
            final(self).service() == old(self).service(),
    {
        let entry = self.get_entry(key)?;
        match entry_delete_credential(&entry) {
            Ok(()) => {
                self.untrack_key(key);
                Ok(())
            },
            Err(KeyringFailure::NoEntry) => {
                self.untrack_key(key);
                Ok(())
            },
            Err(f) => Err(credential_error("Failed to remove credential ", key, ": ", &f)),
        }
    }

    /// The keys seen in this session: the keychain cannot enumerate its
    /// entries, so keys written by earlier runs appear only once accessed.
    fn list_keys(&self) -> (r: Result<Vec<String>, Error>)
        ensures
            r matches Ok(ks) && views(ks@).to_set() == self.known() && views(ks@).no_duplicates(),
    {
        proof {
            use_type_invariant(self);
        }
        Ok(crate::text::copy_strings(&self.known_keys))
    }

    open spec fn backend_label(&self) -> Option<Seq<char>> {
        Some("keychain"@)
    }

    fn backend_name(&self) -> (r: &'static str) {
        "keychain"
    }
}

} // verus!
