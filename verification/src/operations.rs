//! Operations of the settings manager on a schema: saving a setting (to
//! the settings or, for a secret, to the credential store), resetting one
//! or all settings, reading a setting's current value, and the changes a
//! switch of profile makes.
use vstd::prelude::*;

use crate::credentials::manager::CredentialManager;
use crate::credentials::secret_list::opt_str;
use crate::credentials::{opt_view, CredentialBackend};
use crate::error::Error;
use crate::json::{encode_string, json_string_text};
use crate::secrets::{
    find_setting, in_schema, key_category, key_name, lemma_key_parts_injective, lemma_key_parts_joined, reads_exactly, save_secret_setting,
    schema_slot, schema_unique, secret_previous, secret_saved, stored_secret, SchemaSetting, SecretSave,
};
use crate::settings::{key_parts, saved, source_of, split_setting_key, value_in, SaveOutcome, SettingsStore, ValueSource};
use crate::text::{contains_str, join2, join3, str_eq, views};
use crate::validation::{result_view, validate_setting_value, value_check, value_verdict};

verus! {

/// A change that resetting all settings makes: the setting, the value it
/// had (JSON text) and its default.
#[derive(Debug, Clone)]
pub struct ResetChange {
    /// The full key, `category.key`.
    pub full_key: String,
    /// The value before the reset.
    pub previous: String,
    /// The default it returns to.
    pub default: String,
}

/// What resetting one setting reports, given the stored values and the
/// manager before the reset.
pub open spec fn reset_report<P: CredentialBackend, F: CredentialBackend>(
    entry: SchemaSetting,
    values: Map<(Seq<char>, Seq<char>), Seq<char>>,
    c0: CredentialManager<P, F>,
    profile: Option<Seq<char>>,
    r: Option<ResetChange>,
) -> bool {
    match r {
        Some(c) => {
            &&& c.full_key@ == entry.full_key@
            &&& c.default@ == entry.default@
            &&& key_parts(entry.full_key@) is Some
            &&& c.previous@ != c.default@
            &&& entry.secret ==> (c.previous@ == c.default@ || exists|v: Seq<char>| c.previous@ == #[trigger] json_string_text(v))
            &&& entry.secret && reads_exactly(c0) ==> c.previous@ == secret_previous(
                stored_secret(c0, entry.full_key@, profile), entry.default@)
            &&& !entry.secret ==> c.previous@ == value_in(values, key_category(entry.full_key@), key_name(entry.full_key@),
                entry.default@)
        },
        None => {
            ||| key_parts(entry.full_key@) is None
            ||| (!entry.secret && value_in(values, key_category(entry.full_key@), key_name(entry.full_key@), entry.default@)
                == entry.default@)
            ||| entry.secret && !reads_exactly(c0)
            ||| (entry.secret && secret_previous(stored_secret(c0, entry.full_key@, profile), entry.default@)
                == entry.default@)
        },
    }
}

/// The change resetting one setting makes, if any.
fn reset_one<P: CredentialBackend, F: CredentialBackend>(
    store: &SettingsStore,
    creds: &mut CredentialManager<P, F>,
    entry: &SchemaSetting,
    profile: Option<&str>,
) -> (r: Result<Option<ResetChange>, Error>)
    ensures
        final(creds).service() == old(creds).service(),
        final(creds).context() == old(creds).context(),
        reads_exactly(*old(creds)) ==> final(creds).same_stores(&*old(creds)),
        r is Ok,
        r matches Ok(c) ==> reset_report(*entry, store.values(), *old(creds), opt_str(profile), c),
{
    let ghost c0 = *creds;
    match split_setting_key(entry.full_key.as_str()) {
        Some((c, k)) => {
            proof {
                lemma_key_parts_joined(entry.full_key@);
            }
            let found = if entry.secret {
                match creds.get_with_profile(entry.full_key.as_str(), profile) {
                    Ok(v) => v,
                    Err(_) => None,
                }
            } else {
                None
            };
            proof {
                if reads_exactly(c0) && entry.secret {
                    assert(opt_view(found) == stored_secret(c0, entry.full_key@, opt_str(profile)));
                }
            }
            let previous = if entry.secret {
                match &found {
                    Some(secret) => match encode_string(secret.as_str()) {
                        Ok(t) => t,
                        Err(e) => {
                            return Err(Error::Serialize(join2("Failed to encode a secret as JSON: ", e.as_str())));
                        },
                    },
                    None => entry.default.clone(),
                }
            } else {
                store.effective(c.as_str(), k.as_str(), entry.default.as_str())
            };
            proof {
                if entry.secret {
                    assert(previous@ == secret_previous(opt_view(found), entry.default@));
                }
            }
            if str_eq(previous.as_str(), entry.default.as_str()) {
                Ok(None)
            } else {
                Ok(Some(ResetChange { full_key: entry.full_key.clone(), previous, default: entry.default.clone() }))
            }
        },
        None => Ok(None),
    }
}

/// Reset every setting to its default: the settings are emptied and every
/// credential of the manager's scope is cleared (with the tracked secrets).
/// Returns the changes to report, in schema order: each setting with a
/// `category.key` key whose value differs from its default, with that
/// value (for a secret, the stored secret as a JSON string). Where the
/// manager reads exactly, the secrets are the primary backend's and the
/// clear is the manager's `clear`.
pub fn reset_all_settings<P: CredentialBackend, F: CredentialBackend>(
    store: &mut SettingsStore,
    creds: &mut CredentialManager<P, F>,
    schema: &Vec<SchemaSetting>,
    profile: Option<&str>,
) -> (r: Result<Vec<ResetChange>, Error>)
    ensures
        r is Ok,
        r is Ok ==> final(store).values() == Map::<(Seq<char>, Seq<char>), Seq<char>>::empty(),
        r is Ok ==> final(creds).tracked_lists() == Map::<Option<Seq<char>>, Seq<Seq<char>>>::empty(),
        r is Ok && reads_exactly(*old(creds)) ==> old(creds).clear_outcome(&*final(creds)),
        r matches Ok(changes) ==> exists|origin: Seq<int>| #[trigger] origin.len() == changes@.len() && {
            &&& forall|k: int| 0 <= k < changes@.len() ==> 0 <= #[trigger] origin[k] < schema@.len()
                && reset_report(schema@[origin[k]], old(store).values(), *old(creds), opt_str(profile), Some(changes@[k]))
            &&& forall|a: int, b: int| 0 <= a < b < changes@.len() ==> #[trigger] origin[a] < #[trigger] origin[b]
            &&& forall|i: int| 0 <= i < schema@.len() && !(exists|k: int| 0 <= k < changes@.len() && origin[k] == i)
                ==> reset_report(#[trigger] schema@[i], old(store).values(), *old(creds), opt_str(profile), None)
        },
{
    let ghost v0 = store.values();
    let ghost c0 = *creds;
    let mut changes: Vec<ResetChange> = Vec::new();
    let ghost mut origin: Seq<int> = Seq::empty();
    let n = schema.len();
    let mut i: usize = 0;
    while i < n
        invariant
            n == schema@.len(),
            i <= n,
            store.values() == v0,
            creds.service() == c0.service(),
            creds.context() == c0.context(),
            reads_exactly(c0) ==> creds.same_stores(&c0),
            origin.len() == changes@.len(),
            forall|k: int| 0 <= k < changes@.len() ==> 0 <= #[trigger] origin[k] < i
                && reset_report(schema@[origin[k]], v0, c0, opt_str(profile), Some(changes@[k])),
            forall|a: int, b: int| 0 <= a < b < changes@.len() ==> #[trigger] origin[a] < #[trigger] origin[b],
            forall|q: int| 0 <= q < i && !(exists|k: int| 0 <= k < changes@.len() && origin[k] == q)
                ==> reset_report(#[trigger] schema@[q], v0, c0, opt_str(profile), None),
        decreases n - i,
    {
        let ghost before = *creds;
        let step = reset_one(&*store, creds, &schema[i], profile);
        proof {
            if reads_exactly(c0) {
                assert(before.same_stores(&c0));
                assert(reads_exactly(before));
            }
        }
        match step {
            Ok(Some(change)) => {
                let ghost ch0 = changes@;
                let ghost o0 = origin;
                changes.push(change);
                proof {
                    origin = origin.push(i as int);
                    assert forall|k: int| 0 <= k < changes@.len() implies 0 <= #[trigger] origin[k] < i + 1
                        && reset_report(schema@[origin[k]], v0, c0, opt_str(profile), Some(changes@[k])) by {
                        if k < ch0.len() {
                            assert(origin[k] == o0[k]);
                            assert(changes@[k] == ch0[k]);
                        }
                    }
                    assert forall|q: int| 0 <= q < i + 1 && !(exists|k: int| 0 <= k < changes@.len() && origin[k] == q)
                        implies reset_report(#[trigger] schema@[q], v0, c0, opt_str(profile), None) by {
                        if q == i {
                            assert(origin[ch0.len() as int] == q);
                        } else {
                            assert forall|k: int| 0 <= k < ch0.len() implies o0[k] != q by {
                                assert(origin[k] == o0[k]);
                            }
                        }
                    }
                }
            },
            Ok(None) => {
                proof {
                    assert forall|q: int| 0 <= q < i + 1 && !(exists|k: int| 0 <= k < changes@.len() && origin[k] == q)
                        implies reset_report(#[trigger] schema@[q], v0, c0, opt_str(profile), None) by {
                    }
                }
            },
            Err(e) => {
                return Err(e);
            },
        }
        i += 1;
    }
    store.clear();
    let ghost mid = *creds;
    let _ = creds.clear();
    proof {
        if reads_exactly(c0) {
            assert(mid.same_stores(&c0));
        }
    }
    Ok(changes)
}

/// What saving a setting did.
#[derive(Debug, Clone)]
pub enum SettingSave {
    /// A secret setting, saved in the credential store.
    Secret(SecretSave),
    /// A plain setting, saved in the settings: what was done, and the value
    /// (JSON text) it had before.
    Plain(SaveOutcome, String),
}

/// The part of a setting's save that concerns a secret.
pub open spec fn secret_part(r: Result<SettingSave, Error>) -> Result<SecretSave, Error> {
    match r {
        Ok(SettingSave::Secret(s)) => Ok(s),
        Ok(SettingSave::Plain(_, p)) => Err(Error::Config(p)),
        Err(e) => Err(e),
    }
}

/// The pattern of a setting, as a plain value.
pub open spec fn pattern_of(entry: SchemaSetting) -> Option<Seq<char>> {
    match entry.pattern {
        Some(p) => Some(p@),
        None => None,
    }
}

/// The options of a setting, as plain values.
pub open spec fn options_of(entry: SchemaSetting) -> Option<Seq<Seq<char>>> {
    match entry.options {
        Some(o) => Some(views(o@)),
        None => None,
    }
}

/// Save a setting (`value` as JSON text) under `category.key`:
///
/// * a key the schema lacks is `SettingNotFound`;
/// * a secret setting goes to the credential store, as
///   `save_secret_setting` does (without checking its value);
/// * any other value is checked against the setting's type, pattern and
///   options (an invalid one is a `Config` error naming the setting), then
///   saved in the settings as `SettingsStore::save` does: nothing for the
///   current value, removed for the default, stored otherwise.
pub fn save_setting<P: CredentialBackend, F: CredentialBackend>(
    store: &mut SettingsStore,
    creds: &mut CredentialManager<P, F>,
    schema: &Vec<SchemaSetting>,
    category: &str,
    key: &str,
    value: &str,
    profile: Option<&str>,
) -> (r: Result<SettingSave, Error>)
    requires
        schema_unique(schema@),
    ensures
        !in_schema(schema@, category@ + "."@ + key@) ==> (r matches Err(Error::SettingNotFound(m))
            && m@ == category@ + "."@ + key@ && final(store).values() == old(store).values()
            && *final(creds) == *old(creds)),
        forall|i: int| 0 <= i < schema@.len() && (#[trigger] schema@[i]).full_key@ == category@ + "."@ + key@
            && schema@[i].secret ==> {
            &&& !(r matches Ok(SettingSave::Plain(_, _)))
            &&& secret_saved(*old(creds), *final(creds), category@ + "."@ + key@, value@, schema@[i].default@,
                opt_str(profile), secret_part(r))
            &&& final(store).values() == old(store).values()
        },
        forall|i: int| 0 <= i < schema@.len() && (#[trigger] schema@[i]).full_key@ == category@ + "."@ + key@
            && !schema@[i].secret ==> {
            &&& *final(creds) == *old(creds)
            &&& exists|res: Result<(), Seq<char>>| #[trigger] value_check(schema@[i].setting_type, pattern_of(schema@[i]),
                options_of(schema@[i]), value@, res) && match res {
                Ok(()) => r matches Ok(SettingSave::Plain(o, p)) && saved(old(store).values(), final(store).values(),
                    category@, key@, value@, schema@[i].default@, o, p@),
                Err(m) => r matches Err(Error::Config(t)) && t@ == "Validation failed for "@ + category@ + "."@ + key@
                    + ": "@ + m && final(store).values() == old(store).values(),
            }
        },
{
    let full = join3(category, ".", key);
    match find_setting(schema, full.as_str()) {
        None => Err(Error::SettingNotFound(full)),
        Some(i) => {
            let entry = &schema[i];
            proof {
                assert forall|j: int| 0 <= j < schema@.len() && (#[trigger] schema@[j]).full_key@ == full@ implies j == i by {
                    if j != i {
                        assert(schema@[j].full_key@ == schema@[i as int].full_key@);
                    }
                }
            }
            if entry.secret {
                match save_secret_setting(creds, full.as_str(), value, entry.default.as_str(), profile) {
                    Ok(s) => Ok(SettingSave::Secret(s)),
                    Err(e) => Err(e),
                }
            } else {
                let pattern = match &entry.pattern {
                    Some(p) => Some(p.as_str()),
                    None => None,
                };
                let options = match &entry.options {
                    Some(o) => Some(o),
                    None => None,
                };
                let checked = validate_setting_value(entry.setting_type, pattern, options, value);
                proof {
                    assert(value_check(schema@[i as int].setting_type, pattern_of(schema@[i as int]),
                        options_of(schema@[i as int]), value@, result_view(checked)));
                }
                match checked {
                    Err(m) => {
                        let head = join3("Validation failed for ", full.as_str(), ": ");
                        Err(Error::Config(join2(head.as_str(), m.as_str())))
                    },
                    Ok(()) => {
                        let (outcome, previous) = store.save(category, key, value, entry.default.as_str());
                        Ok(SettingSave::Plain(outcome, previous))
                    },
                }
            }
        },
    }
}

/// Reset one setting to its default, saving the default as `save_setting`
/// does; returns the default (JSON text). A key the schema lacks is
/// `SettingNotFound`.
pub fn reset_setting<P: CredentialBackend, F: CredentialBackend>(
    store: &mut SettingsStore,
    creds: &mut CredentialManager<P, F>,
    schema: &Vec<SchemaSetting>,
    category: &str,
    key: &str,
    profile: Option<&str>,
) -> (r: Result<String, Error>)
    requires
        schema_unique(schema@),
    ensures
        !in_schema(schema@, category@ + "."@ + key@) ==> (r matches Err(Error::SettingNotFound(m))
            && m@ == category@ + "."@ + key@ && final(store).values() == old(store).values()
            && *final(creds) == *old(creds)),
        forall|i: int| 0 <= i < schema@.len() && (#[trigger] schema@[i]).full_key@ == category@ + "."@ + key@ ==> {
            &&& r matches Ok(d) ==> d@ == schema@[i].default@
            &&& schema@[i].secret ==> final(store).values() == old(store).values() && exists|s: Result<SecretSave, Error>|
                #[trigger] secret_saved(*old(creds), *final(creds), category@ + "."@ + key@, schema@[i].default@,
                schema@[i].default@, opt_str(profile), s) && (s is Ok <==> r is Ok)
            &&& !schema@[i].secret ==> match value_verdict(schema@[i].setting_type, pattern_of(schema@[i]),
                options_of(schema@[i]), schema@[i].default@) {
                Ok(()) => r is Ok,
                Err(m) => r matches Err(Error::Config(t)) && t@ == "Validation failed for "@ + category@ + "."@ + key@
                    + ": "@ + m && final(store).values() == old(store).values(),
            }
            &&& !schema@[i].secret && r is Ok ==> *final(creds) == *old(creds)
                && value_in(final(store).values(), category@, key@, schema@[i].default@) == schema@[i].default@
                && final(store).values().remove((category@, key@)) == old(store).values().remove((category@, key@))
        },
{
    let full = join3(category, ".", key);
    match find_setting(schema, full.as_str()) {
        None => Err(Error::SettingNotFound(full)),
        Some(i) => {
            let default = schema[i].default.clone();
            let saved_r = save_setting(store, creds, schema, category, key, default.as_str(), profile);
            proof {
                if schema@[i as int].secret {
                    assert(secret_saved(*old(creds), *creds, full@, default@, default@, opt_str(profile), secret_part(saved_r)));
                }
            }
            match saved_r {
                Ok(_) => Ok(default),
                Err(e) => Err(e),
            }
        },
    }
}

/// The current value of a setting (JSON text) and where it comes from:
/// for a secret, an environment override (where overrides apply to
/// secrets), else the stored secret as a JSON string, else the default; for
/// any other setting, an environment override, else the stored value, else
/// the default. `env_value` is the override found, as JSON text. A key
/// without the `category.key` form has no value (`None`).
pub fn current_value<P: CredentialBackend, F: CredentialBackend>(
    store: &SettingsStore,
    creds: &mut CredentialManager<P, F>,
    entry: &SchemaSetting,
    env_value: Option<&str>,
    env_overrides_secrets: bool,
    profile: Option<&str>,
) -> (r: Result<Option<(String, ValueSource)>, Error>)
    ensures
        final(creds).service() == old(creds).service(),
        final(creds).context() == old(creds).context(),
        final(creds).tracked_lists() == old(creds).tracked_lists(),
        reads_exactly(*old(creds)) ==> final(creds).same_stores(&*old(creds)),
        !entry.secret ==> *final(creds) == *old(creds),
        r is Ok,
        r matches Ok(None) <==> key_parts(entry.full_key@) is None,
        key_parts(entry.full_key@) is Some && (!entry.secret || env_overrides_secrets) ==> (env_value matches Some(e)
            ==> (r matches Ok(Some((v, src))) && src == ValueSource::Env && v@ == e@)),
        key_parts(entry.full_key@) is Some && !entry.secret && env_value is None ==> (r matches Ok(Some((v, src)))
            && match store.values().get(key_parts(entry.full_key@)->0) {
                Some(t) => src == ValueSource::Stored && v@ == t,
                None => src == ValueSource::Default && v@ == entry.default@,
            }),
        r matches Ok(Some((v, src))) ==> key_parts(entry.full_key@) is Some && match src {
            ValueSource::Env => env_value matches Some(e) && v@ == e@,
            ValueSource::Credential => entry.secret && exists|s: Seq<char>| v@ == #[trigger] json_string_text(s),
            ValueSource::Stored => !entry.secret && store.values().get(key_parts(entry.full_key@)->0) == Some(v@),
            ValueSource::Default => v@ == entry.default@,
        },
        r matches Ok(Some((v, src))) ==> (!entry.secret ==> src == source_of(false, env_overrides_secrets, env_value is Some,
            false, store.values().contains_key(key_parts(entry.full_key@)->0))),
        r matches Ok(Some((v, src))) ==> (entry.secret ==> (src is Env <==> (env_overrides_secrets && env_value is Some))),
        r matches Ok(Some((v, src))) ==> (entry.secret && reads_exactly(*old(creds)) ==> src == source_of(true,
            env_overrides_secrets, env_value is Some, stored_secret(*old(creds), entry.full_key@, opt_str(profile)) is Some,
            false) && (src is Credential ==> v@ == json_string_text(
            stored_secret(*old(creds), entry.full_key@, opt_str(profile))->0))),
{
    let ghost c0 = *creds;
    match split_setting_key(entry.full_key.as_str()) {
        None => Ok(None),
        Some((c, k)) => {
            if entry.secret {
                if env_overrides_secrets {
                    match env_value {
                        Some(e) => {
                            return Ok(Some((crate::text::text(e), ValueSource::Env)));
                        },
                        None => {},
                    }
                }
                let found = match creds.get_with_profile(entry.full_key.as_str(), profile) {
                    Ok(v) => v,
                    Err(_) => None,
                };
                proof {
                    if reads_exactly(c0) {
                        assert(opt_view(found) == stored_secret(c0, entry.full_key@, opt_str(profile)));
                    }
                }
                match found {
                    Some(secret) => match encode_string(secret.as_str()) {
                        Ok(t) => Ok(Some((t, ValueSource::Credential))),
                        Err(e) => Err(Error::Serialize(join2("Failed to encode a secret as JSON: ", e.as_str()))),
                    },
                    None => Ok(Some((entry.default.clone(), ValueSource::Default))),
                }
            } else {
                match env_value {
                    Some(e) => Ok(Some((crate::text::text(e), ValueSource::Env))),
                    None => match store.get(c.as_str(), k.as_str()) {
                        Some(v) => Ok(Some((v, ValueSource::Stored))),
                        None => Ok(Some((entry.default.clone(), ValueSource::Default))),
                    },
                }
            }
        },
    }
}

/// After a reset of all settings, every setting reads as its default.
pub proof fn law_reset_reads_defaults(values: Map<(Seq<char>, Seq<char>), Seq<char>>, category: Seq<char>, key: Seq<char>, default: Seq<char>)
    requires
        values == Map::<(Seq<char>, Seq<char>), Seq<char>>::empty(),
    ensures
        value_in(values, category, key, default) == default,
{
}

/// A change of a setting's value that listeners are told of.
#[derive(Debug, Clone)]
pub struct SettingChange {
    /// The full key, `category.key`.
    pub full_key: String,
    /// The value before (JSON text).
    pub old: String,
    /// The value after (JSON text).
    pub new: String,
}

/// The value a setting reads as in some settings: the stored value or the
/// default; a key without the `category.key` form reads as its default.
pub open spec fn reads_as(values: Map<(Seq<char>, Seq<char>), Seq<char>>, entry: SchemaSetting) -> Seq<char> {
    match key_parts(entry.full_key@) {
        Some(ck) => value_in(values, ck.0, ck.1, entry.default@),
        None => entry.default@,
    }
}

/// The value a setting reads as in a store.
fn read_as(store: &SettingsStore, entry: &SchemaSetting) -> (r: String)
    ensures
        r@ == reads_as(store.values(), *entry),
{
    match split_setting_key(entry.full_key.as_str()) {
        Some((c, k)) => store.effective(c.as_str(), k.as_str(), entry.default.as_str()),
        None => entry.default.clone(),
    }
}

/// The changes a switch of profile makes to the settings of the schema, in
/// schema order: each setting that reads differently after the switch, with
/// its values before and after.
pub fn profile_switch_changes(before: &SettingsStore, after: &SettingsStore, schema: &Vec<SchemaSetting>) -> (r: Vec<
    SettingChange,
>)
    ensures
        exists|origin: Seq<int>| #[trigger] origin.len() == r@.len() && {
            &&& forall|k: int| 0 <= k < r@.len() ==> 0 <= #[trigger] origin[k] < schema@.len()
                && r@[k].full_key@ == schema@[origin[k]].full_key@
                && r@[k].old@ == reads_as(before.values(), schema@[origin[k]])
                && r@[k].new@ == reads_as(after.values(), schema@[origin[k]])
                && r@[k].old@ != r@[k].new@
            &&& forall|a: int, b: int| 0 <= a < b < r@.len() ==> #[trigger] origin[a] < #[trigger] origin[b]
            &&& forall|i: int| 0 <= i < schema@.len() && reads_as(before.values(), #[trigger] schema@[i])
                != reads_as(after.values(), schema@[i]) ==> exists|k: int| 0 <= k < r@.len() && origin[k] == i
        },
{
    let mut out: Vec<SettingChange> = Vec::new();
    let ghost mut origin: Seq<int> = Seq::empty();
    let n = schema.len();
    let mut i: usize = 0;
    while i < n
        invariant
            n == schema@.len(),
            i <= n,
            origin.len() == out@.len(),
            forall|k: int| 0 <= k < out@.len() ==> 0 <= #[trigger] origin[k] < i
                && out@[k].full_key@ == schema@[origin[k]].full_key@
                && out@[k].old@ == reads_as(before.values(), schema@[origin[k]])
                && out@[k].new@ == reads_as(after.values(), schema@[origin[k]])
                && out@[k].old@ != out@[k].new@,
            forall|a: int, b: int| 0 <= a < b < out@.len() ==> #[trigger] origin[a] < #[trigger] origin[b],
            forall|q: int| 0 <= q < i && reads_as(before.values(), #[trigger] schema@[q])
                != reads_as(after.values(), schema@[q]) ==> exists|k: int| 0 <= k < out@.len() && origin[k] == q,
        decreases n - i,
    {
        let old_value = read_as(before, &schema[i]);
        let new_value = read_as(after, &schema[i]);
        if !str_eq(old_value.as_str(), new_value.as_str()) {
            let ghost o0 = origin;
            let ghost out0 = out@;
            out.push(SettingChange { full_key: schema[i].full_key.clone(), old: old_value, new: new_value });
            proof {
                origin = origin.push(i as int);
                assert forall|k: int| 0 <= k < out@.len() implies 0 <= #[trigger] origin[k] < i + 1
                    && out@[k].full_key@ == schema@[origin[k]].full_key@
                    && out@[k].old@ == reads_as(before.values(), schema@[origin[k]])
                    && out@[k].new@ == reads_as(after.values(), schema@[origin[k]])
                    && out@[k].old@ != out@[k].new@ by {
                    if k < out0.len() {
                        assert(origin[k] == o0[k]);
                        assert(out@[k] == out0[k]);
                    }
                }
                assert forall|q: int| 0 <= q < i + 1 && reads_as(before.values(), #[trigger] schema@[q])
                    != reads_as(after.values(), schema@[q]) implies exists|k: int| 0 <= k < out@.len() && origin[k] == q by {
                    if q == i {
                        assert(origin[out0.len() as int] == q);
                    } else {
                        let k = choose|k: int| 0 <= k < out0.len() && o0[k] == q;
                        assert(origin[k] == o0[k]);
                    }
                }
            }
        }
        i += 1;
    }
    out
}

/// Whether `c` is the category of some setting of the schema.
pub open spec fn schema_category(schema: Seq<SchemaSetting>, c: Seq<char>) -> bool {
    exists|i: int| 0 <= i < schema.len() && key_parts((#[trigger] schema[i]).full_key@) is Some && key_category(schema[i].full_key@) == c
}

/// The default of the setting stored under `ck`.
pub open spec fn slot_default(schema: Seq<SchemaSetting>, ck: (Seq<char>, Seq<char>)) -> Seq<char> {
    schema[choose|i: int| 0 <= i < schema.len() && key_parts((#[trigger] schema[i]).full_key@) == Some(ck)].default@
}

/// The settings merged with their defaults: every setting of the schema with
/// its default, overlaid by the stored values of the schema's categories
/// (stored keys the schema does not know are kept there too; categories the
/// schema does not know are dropped).
pub open spec fn merged_values(
    schema: Seq<SchemaSetting>,
    stored: Map<(Seq<char>, Seq<char>), Seq<char>>,
) -> Map<(Seq<char>, Seq<char>), Seq<char>> {
    Map::new(
        |ck: (Seq<char>, Seq<char>)| schema_slot(schema, ck) || (schema_category(schema, ck.0) && stored.contains_key(ck)),
        |ck: (Seq<char>, Seq<char>)| if stored.contains_key(ck) {
            stored[ck]
        } else {
            slot_default(schema, ck)
        },
    )
}

/// Merge stored settings on top of the defaults of the schema.
pub fn merge_with_defaults(schema: &Vec<SchemaSetting>, stored: &SettingsStore) -> (r: SettingsStore)
    requires
        schema_unique(schema@),
    ensures
        r.values() == merged_values(schema@, stored.values()),
{
    let mut out = SettingsStore::new();
    let mut cats: Vec<String> = Vec::new();
    let n = schema.len();
    let mut i: usize = 0;
    while i < n
        invariant
            n == schema@.len(),
            i <= n,
            schema_unique(schema@),
            out.values() == Map::new(
                |ck: (Seq<char>, Seq<char>)| exists|j: int| 0 <= j < i && key_parts((#[trigger] schema@[j]).full_key@) == Some(ck),
                |ck: (Seq<char>, Seq<char>)| slot_default(schema@, ck),
            ),
            forall|c: Seq<char>| #[trigger] views(cats@).contains(c) <==> exists|j: int| 0 <= j < i
                && key_parts((#[trigger] schema@[j]).full_key@) is Some && key_category(schema@[j].full_key@) == c,
        decreases n - i,
    {
        match split_setting_key(schema[i].full_key.as_str()) {
            Some((c, k)) => {
                let ghost before = out.values();
                let ghost cv = views(cats@);
                out.set(c.as_str(), k.as_str(), schema[i].default.as_str());
                proof {
                    let ck = (c@, k@);
                    let q = choose|q: int| 0 <= q < schema@.len() && key_parts((#[trigger] schema@[q]).full_key@) == Some(ck);
                    lemma_key_parts_injective(schema@[q].full_key@, schema@[i as int].full_key@);
                    if q != i {
                        if q < i {
                            assert((#[trigger] schema@[q]).full_key@ != (#[trigger] schema@[i as int]).full_key@);
                        } else {
                            assert((#[trigger] schema@[i as int]).full_key@ != (#[trigger] schema@[q]).full_key@);
                        }
                    }
                    assert(slot_default(schema@, ck) == schema@[i as int].default@);
                    assert(out.values() =~= Map::new(
                        |ck: (Seq<char>, Seq<char>)| exists|j: int| 0 <= j < i + 1 && key_parts((#[trigger] schema@[j]).full_key@) == Some(ck),
                        |ck: (Seq<char>, Seq<char>)| slot_default(schema@, ck),
                    ));
                }
                cats.push(c);
                proof {
                    assert(views(cats@) =~= cv.push(c@));
                    assert forall|x: Seq<char>| #[trigger] views(cats@).contains(x) <==> exists|j: int| 0 <= j < i + 1
                        && key_parts((#[trigger] schema@[j]).full_key@) is Some && key_category(schema@[j].full_key@) == x by {
                        if views(cats@).contains(x) && x != c@ {
                            let w = choose|w: int| 0 <= w < views(cats@).len() && views(cats@)[w] == x;
                            assert(w < cv.len());
                            assert(cv[w] == x);
                            assert(cv.contains(x));
                        }
                        if x == c@ {
                            assert(views(cats@)[cv.len() as int] == x);
                        }
                        if exists|j: int| 0 <= j < i + 1 && key_parts((#[trigger] schema@[j]).full_key@) is Some && key_category(schema@[j].full_key@) == x {
                            if x != c@ {
                                assert(cv.contains(x));
                                let w = choose|w: int| 0 <= w < cv.len() && cv[w] == x;
                                assert(views(cats@)[w] == x);
                            }
                        }
                    }
                }
            },
            None => {
                proof {
                    assert(out.values() =~= Map::new(
                        |ck: (Seq<char>, Seq<char>)| exists|j: int| 0 <= j < i + 1 && key_parts((#[trigger] schema@[j]).full_key@) == Some(ck),
                        |ck: (Seq<char>, Seq<char>)| slot_default(schema@, ck),
                    ));
                }
            },
        }
        i += 1;
    }
    let pairs = stored.pairs();
    let m = pairs.len();
    let mut p: usize = 0;
    while p < m
        invariant
            m == pairs@.len(),
            p <= m,
            n == schema@.len(),
            forall|w: int| 0 <= w < pairs@.len() ==> stored.values().get(((#[trigger] pairs@[w]).0@, pairs@[w].1@)) == Some(pairs@[w].2@),
            forall|c: Seq<char>| #[trigger] views(cats@).contains(c) <==> schema_category(schema@, c),
            out.values() == Map::new(
                |ck: (Seq<char>, Seq<char>)| schema_slot(schema@, ck) || (schema_category(schema@, ck.0)
                    && exists|w: int| 0 <= w < p && ((#[trigger] pairs@[w]).0@, pairs@[w].1@) == ck),
                |ck: (Seq<char>, Seq<char>)| if schema_category(schema@, ck.0)
                    && exists|w: int| 0 <= w < p && ((#[trigger] pairs@[w]).0@, pairs@[w].1@) == ck {
                    stored.values()[ck]
                } else {
                    slot_default(schema@, ck)
                },
            ),
        decreases m - p,
    {
        if contains_str(&cats, pairs[p].0.as_str()) {
            out.set(pairs[p].0.as_str(), pairs[p].1.as_str(), pairs[p].2.as_str());
        }
        proof {
            assert(out.values() =~= Map::new(
                |ck: (Seq<char>, Seq<char>)| schema_slot(schema@, ck) || (schema_category(schema@, ck.0)
                    && exists|w: int| 0 <= w < p + 1 && ((#[trigger] pairs@[w]).0@, pairs@[w].1@) == ck),
                |ck: (Seq<char>, Seq<char>)| if schema_category(schema@, ck.0)
                    && exists|w: int| 0 <= w < p + 1 && ((#[trigger] pairs@[w]).0@, pairs@[w].1@) == ck {
                    stored.values()[ck]
                } else {
                    slot_default(schema@, ck)
                },
            ));
        }
        p += 1;
    }
    proof {
        assert(out.values() =~= merged_values(schema@, stored.values()));
    }
    out
}

} // verus!
