//! Secret settings, which live in the credential store rather than in the
//! settings: saving one; moving values between the settings and the store
//! when the schema turns a setting secret or back; and carrying secrets in
//! and out of backups.
use vstd::prelude::*;

use crate::credentials::manager::{decoded_tracked, CredentialManager, TRACKED_SECRETS_KEY};
use crate::credentials::secret_list::opt_str;
use crate::config::SettingType;
use crate::credentials::{opt_view, CredentialBackend};
use crate::error::Error;
use crate::json::{decode_string, encode_string, json_string_content, json_string_text};
use crate::settings::{key_parts, split_setting_key, SettingsStore};
use crate::text::{contains_str, join2, str_eq, views};

verus! {

/// One setting of the schema: its key, whether it is secret, its default,
/// and what its values are checked against.
#[derive(Debug, Clone)]
pub struct SchemaSetting {
    /// The full key, `category.key`.
    pub full_key: String,
    /// Whether the schema marks the setting secret.
    pub secret: bool,
    /// The default value, as JSON text.
    pub default: String,
    /// The type of the setting.
    pub setting_type: SettingType,
    /// The pattern a text value must match.
    pub pattern: Option<String>,
    /// The values (JSON text) a select setting may take.
    pub options: Option<Vec<String>>,
}

/// What a secret migration did.
#[derive(Debug, Clone)]
pub struct SecretMigration {
    /// The settings were changed (the file is to be written).
    pub file_modified: bool,
    /// The list of tracked secrets was changed and saved.
    pub list_modified: bool,
    /// The tracked secret keys before the migration.
    pub tracked_before: Vec<String>,
    /// The tracked secret keys after it.
    pub tracked_after: Vec<String>,
}

/// No full key occurs twice in the schema.
pub open spec fn schema_unique(schema: Seq<SchemaSetting>) -> bool {
    forall|i: int, j: int| 0 <= i < j < schema.len() ==> (#[trigger] schema[i]).full_key@ != (#[trigger] schema[j]).full_key@
}

/// Whether the schema marks the setting with full key `k` secret.
pub open spec fn secret_in_schema(schema: Seq<SchemaSetting>, k: Seq<char>) -> bool {
    exists|i: int| 0 <= i < schema.len() && (#[trigger] schema[i]).full_key@ == k && schema[i].secret
}

/// Whether the setting with full key `k` is in the schema.
pub open spec fn in_schema(schema: Seq<SchemaSetting>, k: Seq<char>) -> bool {
    exists|i: int| 0 <= i < schema.len() && (#[trigger] schema[i]).full_key@ == k
}

/// Whether some setting of the schema is stored under `ck`.
pub open spec fn schema_slot(schema: Seq<SchemaSetting>, ck: (Seq<char>, Seq<char>)) -> bool {
    exists|i: int| 0 <= i < schema.len() && key_parts((#[trigger] schema[i]).full_key@) == Some(ck)
}

/// Whether the secret setting `k` has a value in the settings, which the
/// migration moves to the credential store.
pub open spec fn moved(schema: Seq<SchemaSetting>, values: Map<(Seq<char>, Seq<char>), Seq<char>>, k: Seq<char>) -> bool {
    &&& secret_in_schema(schema, k)
    &&& key_parts(k) is Some
    &&& values.contains_key(key_parts(k)->0)
}

/// Whether a tracked key stays tracked whatever the credential store holds:
/// only secret settings do (and non-secret ones whose key has no
/// `category.key` form, which are left alone when a value is found).
pub open spec fn may_stay(schema: Seq<SchemaSetting>, k: Seq<char>) -> bool {
    secret_in_schema(schema, k) || (in_schema(schema, k) && key_parts(k) is None)
}

/// The text handed to the credential store for a stored JSON value: the
/// content of a JSON string, else the JSON text itself.
pub open spec fn secret_text(json: Seq<char>) -> Seq<char> {
    match json_string_content(json) {
        Some(s) => s,
        None => json,
    }
}

/// The category of a full key of the `category.key` form.
pub open spec fn key_category(k: Seq<char>) -> Seq<char> {
    match key_parts(k) {
        Some((c, _)) => c,
        None => Seq::empty(),
    }
}

/// The key of a full key of the `category.key` form.
pub open spec fn key_name(k: Seq<char>) -> Seq<char> {
    match key_parts(k) {
        Some((_, n)) => n,
        None => Seq::empty(),
    }
}

/// A full key is its category, a dot, and its key.
pub proof fn lemma_key_parts_joined(k: Seq<char>)
    requires
        key_parts(k) is Some,
    ensures
        k == key_category(k) + seq!['.'] + key_name(k),
{
    let i = choose|i: int| 0 <= i < k.len() && k[i] == '.' && (forall|j: int|
        0 <= j < k.len() && k[j] == '.' ==> j == i);
    assert(k =~= k.subrange(0, i) + seq!['.'] + k.subrange(i + 1, k.len() as int));
}

/// Two full keys with the same category and key are the same.
pub proof fn lemma_key_parts_injective(a: Seq<char>, b: Seq<char>)
    requires
        key_parts(a) is Some,
        key_parts(a) == key_parts(b),
    ensures
        a == b,
{
    lemma_key_parts_joined(a);
    lemma_key_parts_joined(b);
}

/// The first setting of the schema with full key `k`.
pub(crate) fn find_setting(schema: &Vec<SchemaSetting>, k: &str) -> (r: Option<usize>)
    ensures
        match r {
            Some(i) => i < schema@.len() && schema@[i as int].full_key@ == k@,
            None => !in_schema(schema@, k@),
        },
{
    let n = schema.len();
    let mut i: usize = 0;
    while i < n
        invariant
            n == schema@.len(),
            i <= n,
            forall|j: int| 0 <= j < i ==> (#[trigger] schema@[j]).full_key@ != k@,
        decreases n - i,
    {
        if str_eq(schema[i].full_key.as_str(), k) {
            return Some(i);
        }
        i += 1;
    }
    None
}

/// The stored pairs of a list of removals.
pub open spec fn removal_keys(r: Seq<(String, String)>) -> Seq<(Seq<char>, Seq<char>)> {
    r.map_values(|x: (String, String)| (x.0@, x.1@))
}

/// Remove each listed setting from the store.
fn apply_removals(store: &mut SettingsStore, removals: &Vec<(String, String)>)
    ensures
        forall|ck: (Seq<char>, Seq<char>)| #[trigger] final(store).values().get(ck) == if removal_keys(removals@).contains(ck) {
            None
        } else {
            old(store).values().get(ck)
        },
{
    let ghost v0 = store.values();
    let n = removals.len();
    let mut i: usize = 0;
    while i < n
        invariant
            n == removals@.len(),
            i <= n,
            forall|ck: (Seq<char>, Seq<char>)| #[trigger] store.values().get(ck) == if removal_keys(removals@).subrange(0, i as int).contains(ck) {
                None
            } else {
                v0.get(ck)
            },
        decreases n - i,
    {
        let ghost before = store.values();
        store.remove(removals[i].0.as_str(), removals[i].1.as_str());
        proof {
            let ks = removal_keys(removals@);
            let s0 = ks.subrange(0, i as int);
            let s1 = ks.subrange(0, i + 1);
            assert(s1 =~= s0.push(ks[i as int]));
            assert forall|ck: (Seq<char>, Seq<char>)| #[trigger] store.values().get(ck) == if s1.contains(ck) {
                None
            } else {
                v0.get(ck)
            } by {
                if ck == ks[i as int] {
                    assert(s1[i as int] == ck);
                } else {
                    assert(before.get(ck) == store.values().get(ck));
                    if s1.contains(ck) {
                        let w = choose|w: int| 0 <= w < s1.len() && s1[w] == ck;
                        assert(s0[w] == ck);
                    }
                    if s0.contains(ck) {
                        let w = choose|w: int| 0 <= w < s0.len() && s0[w] == ck;
                        assert(s1[w] == ck);
                    }
                }
            }
        }
        i += 1;
    }
    proof {
        assert(removal_keys(removals@).subrange(0, n as int) =~= removal_keys(removals@));
    }
}

/// The stored pairs of a list of writes.
pub open spec fn write_keys(w: Seq<(String, String, String)>) -> Seq<(Seq<char>, Seq<char>)> {
    w.map_values(|x: (String, String, String)| (x.0@, x.1@))
}

/// Store each listed value; a setting listed twice gets one of its values.
fn apply_writes(store: &mut SettingsStore, writes: &Vec<(String, String, String)>)
    ensures
        forall|ck: (Seq<char>, Seq<char>)| !write_keys(writes@).contains(ck) ==> #[trigger] final(store).values().get(ck)
            == old(store).values().get(ck),
        forall|ck: (Seq<char>, Seq<char>)| write_keys(writes@).contains(ck) ==> exists|w: int|
            0 <= w < writes@.len() && write_keys(writes@)[w] == ck && #[trigger] final(store).values().get(ck)
                == Some(writes@[w].2@),
{
    let ghost v0 = store.values();
    let n = writes.len();
    let mut i: usize = 0;
    while i < n
        invariant
            n == writes@.len(),
            i <= n,
            forall|ck: (Seq<char>, Seq<char>)| !write_keys(writes@).subrange(0, i as int).contains(ck)
                ==> #[trigger] store.values().get(ck) == v0.get(ck),
            forall|ck: (Seq<char>, Seq<char>)| write_keys(writes@).subrange(0, i as int).contains(ck) ==> exists|w: int|
                0 <= w < i && write_keys(writes@)[w] == ck && #[trigger] store.values().get(ck) == Some(writes@[w].2@),
        decreases n - i,
    {
        let ghost before = store.values();
        store.set(writes[i].0.as_str(), writes[i].1.as_str(), writes[i].2.as_str());
        proof {
            let ks = write_keys(writes@);
            let s0 = ks.subrange(0, i as int);
            let s1 = ks.subrange(0, i + 1);
            assert(s1 =~= s0.push(ks[i as int]));
            assert forall|ck: (Seq<char>, Seq<char>)| !s1.contains(ck)
                implies #[trigger] store.values().get(ck) == v0.get(ck) by {
                assert(s1[i as int] == ks[i as int]);
                if s0.contains(ck) {
                    let w = choose|w: int| 0 <= w < s0.len() && s0[w] == ck;
                    assert(s1[w] == ck);
                }
                assert(ck != ks[i as int]);
                assert(before.get(ck) == store.values().get(ck));
                assert(before.get(ck) == v0.get(ck));
            }
            assert forall|ck: (Seq<char>, Seq<char>)| s1.contains(ck) implies exists|w: int|
                0 <= w < i + 1 && ks[w] == ck && #[trigger] store.values().get(ck) == Some(writes@[w].2@) by {
                if ck == ks[i as int] {
                    assert(store.values().get(ck) == Some(writes@[i as int].2@));
                } else {
                    let w = choose|w: int| 0 <= w < s1.len() && s1[w] == ck;
                    assert(w < i);
                    assert(s0[w] == ck);
                    assert(s0.contains(ck));
                    assert(before.get(ck) == store.values().get(ck));
                }
            }
        }
        i += 1;
    }
    proof {
        assert(write_keys(writes@).subrange(0, n as int) =~= write_keys(writes@));
    }
}

/// Whether a secret setting of the schema is stored under `ck`.
pub open spec fn secret_slot(schema: Seq<SchemaSetting>, ck: (Seq<char>, Seq<char>)) -> bool {
    exists|j: int| 0 <= j < schema.len() && (#[trigger] schema[j]).secret && key_parts(schema[j].full_key@) == Some(ck)
}

/// Whether `text` may be written back under `ck`: the slot of a setting that
/// is not secret and was tracked, a JSON string, not the default.
pub open spec fn written_back(
    schema: Seq<SchemaSetting>,
    tracked_before: Seq<Seq<char>>,
    ck: (Seq<char>, Seq<char>),
    text: Seq<char>,
) -> bool {
    exists|q: int| 0 <= q < schema.len() && !(#[trigger] schema[q]).secret && key_parts(schema[q].full_key@) == Some(ck)
        && tracked_before.contains(schema[q].full_key@)
        && (exists|v: Seq<char>| text == #[trigger] json_string_text(v))
        && text != schema[q].default@
}

/// What a secret migration does to the settings and the tracked keys:
///
/// * no secret setting of the schema keeps a value in the settings;
/// * what no setting of the schema is stored under stays as it was;
/// * a setting that is not secret keeps its value, or (where it was tracked
///   as a secret) gets back a value from the credential store, as a JSON
///   string that differs from its default;
/// * a key stays tracked only if it was tracked or its value was moved, and
///   the schema still marks it secret (or it is a schema key without the
///   `category.key` form, left alone); every such secret key stays tracked.
pub open spec fn migrated(
    schema: Seq<SchemaSetting>,
    before: Map<(Seq<char>, Seq<char>), Seq<char>>,
    after: Map<(Seq<char>, Seq<char>), Seq<char>>,
    tracked_before: Seq<Seq<char>>,
    tracked_after: Seq<Seq<char>>,
) -> bool {
    &&& forall|i: int| 0 <= i < schema.len() && (#[trigger] schema[i]).secret && key_parts(schema[i].full_key@) is Some
        ==> !after.contains_key(key_parts(schema[i].full_key@)->0)
    &&& forall|ck: (Seq<char>, Seq<char>)| !schema_slot(schema, ck) ==> #[trigger] after.get(ck) == before.get(ck)
    &&& forall|i: int| 0 <= i < schema.len() && !(#[trigger] schema[i]).secret && key_parts(schema[i].full_key@) is Some
        ==> {
        let ck = key_parts(schema[i].full_key@)->0;
        ||| after.get(ck) == before.get(ck)
        ||| (tracked_before.contains(schema[i].full_key@) && exists|v: Seq<char>|
            after.get(ck) == Some(#[trigger] json_string_text(v)) && json_string_text(v) != schema[i].default@)
    }
    &&& forall|k: Seq<char>| #[trigger] tracked_after.contains(k)
        ==> (tracked_before.contains(k) || moved(schema, before, k)) && may_stay(schema, k)
    &&& forall|k: Seq<char>| (tracked_before.contains(k) || moved(schema, before, k)) && secret_in_schema(schema, k)
        ==> #[trigger] tracked_after.contains(k)
}

/// The value written back to the settings for the `i`-th setting of the
/// schema (not secret, still tracked) from the credential store `c`: its
/// stored secret as a JSON string, unless that is the default.
pub open spec fn write_back_of<P: CredentialBackend, F: CredentialBackend>(
    schema: Seq<SchemaSetting>,
    i: int,
    c: CredentialManager<P, F>,
    profile: Option<Seq<char>>,
) -> Option<Seq<char>> {
    match stored_secret(c, schema[i].full_key@, profile) {
        Some(v) => if json_string_text(v) != schema[i].default@ {
            Some(json_string_text(v))
        } else {
            None
        },
        None => None,
    }
}

/// Whether `text` is written under `ck` as the write-back of a setting of
/// the schema that is not secret.
pub open spec fn written_from<P: CredentialBackend, F: CredentialBackend>(
    schema: Seq<SchemaSetting>,
    c: CredentialManager<P, F>,
    profile: Option<Seq<char>>,
    ck: (Seq<char>, Seq<char>),
    text: Seq<char>,
) -> bool {
    exists|q: int| 0 <= q < schema.len() && !(#[trigger] schema[q]).secret && key_parts(schema[q].full_key@) == Some(ck)
        && write_back_of(schema, q, c, profile) == Some(text)
}

/// Move secret settings between the settings and the credential store, as
/// the schema now marks them:
///
/// 1. each secret setting with a value in the settings has the value stored
///    in the credential store (the content of a JSON string, else the JSON
///    text), is removed from the settings, and becomes tracked;
/// 2. each tracked key the schema no longer marks secret has its value, if
///    the credential store holds one, written back to the settings as a JSON
///    string (unless that is the default) and removed from the credential
///    store, and stops being tracked.
///
/// The tracked list is saved when it changed. On an error the settings are
/// left as they were.
pub fn migrate_secret_keys<P: CredentialBackend, F: CredentialBackend>(
    store: &mut SettingsStore,
    creds: &mut CredentialManager<P, F>,
    schema: &Vec<SchemaSetting>,
    profile: Option<&str>,
) -> (r: Result<SecretMigration, Error>)
    requires
        schema_unique(schema@),
    ensures
        r matches Err(e) ==> final(store).values() == old(store).values() && e is Credential,
        r matches Ok(m) ==> migrated(schema@, old(store).values(), final(store).values(), views(m.tracked_before@),
            views(m.tracked_after@)),
        r matches Ok(m) ==> final(creds).tracked_lists().get(opt_str(profile)) == Some(views(m.tracked_after@)),
        r matches Ok(m) ==> (old(creds).tracked_lists().get(opt_str(profile)) matches Some(l) ==> views(m.tracked_before@) == l),
        r matches Ok(m) ==> (!m.file_modified ==> final(store).values() == old(store).values()),
        r matches Ok(m) ==> (!m.list_modified ==> views(m.tracked_after@) == views(m.tracked_before@)),
        r is Ok && reads_exactly(*old(creds)) ==> forall|k: Seq<char>| moved(schema@, old(store).values(), k)
            && k != TRACKED_SECRETS_KEY@ ==> #[trigger] stored_secret(*final(creds), k, opt_str(profile)) == Some(
            secret_text(old(store).values()[key_parts(k)->0])),
        r matches Ok(m) ==> (reads_exactly(*old(creds)) ==> forall|k: Seq<char>| views(m.tracked_before@).contains(k)
            && !may_stay(schema@, k) && k != TRACKED_SECRETS_KEY@ ==> #[trigger] stored_secret(*final(creds), k,
            opt_str(profile)) is None),
        r matches Ok(m) ==> (reads_exactly(*old(creds)) ==> forall|i: int| 0 <= i < schema@.len()
            && !(#[trigger] schema@[i]).secret && key_parts(schema@[i].full_key@) is Some
            && views(m.tracked_before@).contains(schema@[i].full_key@) ==> final(store).values().get(
            key_parts(schema@[i].full_key@)->0) == match write_back_of(schema@, i, *old(creds), opt_str(profile)) {
                Some(t) => Some(t),
                None => old(store).values().get(key_parts(schema@[i].full_key@)->0),
            }),
        old(creds).tracked_list_readable(opt_str(profile)) ==> r is Ok,
{
    let ghost v0 = store.values();
    let ghost c_old = *creds;
    let ghost exact = reads_exactly(c_old);
    let tracked0 = match creds.get_tracked_secrets(profile) {
        Ok(v) => v,
        Err(e) => {
            return Err(e);
        },
    };
    proof {
        if exact {
            if c_old.tracked_lists().get(opt_str(profile)) is None {
                let found = choose|found: Option<Seq<char>>| #[trigger] c_old.get_outcome(
                    &*creds,
                    c_old.key_for(TRACKED_SECRETS_KEY@, opt_str(profile)),
                    found,
                ) && match decoded_tracked(found) {
                    Some(l) => views(tracked0@).no_duplicates() && views(tracked0@).to_set() == l.to_set()
                        && creds.tracked_lists() == c_old.tracked_lists().insert(opt_str(profile), views(tracked0@)),
                    None => false,
                };
            }
            assert(creds.same_stores(&c_old));
        }
    }
    let ghost tl = creds.tracked_lists();
    let ghost t0 = views(tracked0@);
    let mut current = tracked0.clone();
    assert(views(current@) =~= t0);
    let mut removals: Vec<(String, String)> = Vec::new();
    let mut list_modified = false;
    let n = schema.len();
    let mut i: usize = 0;
    while i < n
        invariant
            n == schema@.len(),
            i <= n,
            schema_unique(schema@),
            store.values() == v0,
            creds.tracked_lists() == tl,
            tl.get(opt_str(profile)) == Some(t0),
            creds.service() == c_old.service(),
            creds.context() == c_old.context(),
            exact == reads_exactly(c_old),
            exact ==> reads_exactly(*creds),
            exact ==> forall|q: int| 0 <= q < i && moved(schema@, v0, (#[trigger] schema@[q]).full_key@)
                && schema@[q].full_key@ != TRACKED_SECRETS_KEY@ ==> stored_secret(*creds, schema@[q].full_key@,
                opt_str(profile)) == Some(secret_text(v0[key_parts(schema@[q].full_key@)->0])),
            exact ==> forall|k: Seq<char>| !secret_in_schema(schema@, k) ==> #[trigger] stored_secret(*creds, k,
                opt_str(profile)) == stored_secret(c_old, k, opt_str(profile)),
            forall|k: Seq<char>| #[trigger] views(current@).contains(k) ==> t0.contains(k) || moved(schema@, v0, k),
            forall|k: Seq<char>| t0.contains(k) ==> #[trigger] views(current@).contains(k),
            forall|j: int| 0 <= j < i && moved(schema@, v0, (#[trigger] schema@[j]).full_key@)
                ==> views(current@).contains(schema@[j].full_key@),
            !list_modified ==> views(current@) == t0,
            forall|w: int| 0 <= w < removals@.len() ==> secret_slot(schema@, #[trigger] removal_keys(removals@)[w]),
            forall|j: int| 0 <= j < i && (#[trigger] schema@[j]).secret && key_parts(schema@[j].full_key@) is Some
                && v0.contains_key(key_parts(schema@[j].full_key@)->0)
                ==> removal_keys(removals@).contains(key_parts(schema@[j].full_key@)->0),
        decreases n - i,
    {
        if schema[i].secret {
            let full = schema[i].full_key.as_str();
            match split_setting_key(full) {
                Some((c, k)) => {
                    match store.get(c.as_str(), k.as_str()) {
                        Some(value) => {
                            let text = match decode_string(value.as_str()) {
                                Some(inner) => inner,
                                None => value,
                            };
                            let ghost c_prev = *creds;
                            let _ = creds.store_with_profile(full, text.as_str(), profile);
                            proof {
                                if exact {
                                    assert(key_parts(full@)->0 == (c@, k@));
                                    assert(text@ == secret_text(v0[key_parts(full@)->0]));
                                    assert forall|q: int| 0 <= q < i && moved(schema@, v0, (#[trigger] schema@[q]).full_key@)
                                        && schema@[q].full_key@ != TRACKED_SECRETS_KEY@ implies stored_secret(*creds,
                                        schema@[q].full_key@, opt_str(profile)) == Some(secret_text(
                                        v0[key_parts(schema@[q].full_key@)->0])) by {
                                        assert(schema@[q].full_key@ != full@);
                                        lemma_key_for_injective(c_prev, schema@[q].full_key@, full@, opt_str(profile));
                                    }
                                    assert(schema@[i as int].full_key@ == full@);
                                    assert(secret_in_schema(schema@, full@));
                                    assert forall|k: Seq<char>| !secret_in_schema(schema@, k) implies #[trigger] stored_secret(
                                        *creds, k, opt_str(profile)) == stored_secret(c_old, k, opt_str(profile)) by {
                                        assert(stored_secret(c_prev, k, opt_str(profile)) == stored_secret(c_old, k, opt_str(profile)));
                                        lemma_key_for_injective(c_prev, k, full@, opt_str(profile));
                                    }
                                }
                            }
                            let ghost rk0 = removal_keys(removals@);
                            removals.push((c, k));
                            proof {
                                assert(removal_keys(removals@) =~= rk0.push(key_parts(full@)->0));
                                assert forall|w: int| 0 <= w < removals@.len() implies secret_slot(schema@,
                                    #[trigger] removal_keys(removals@)[w]) by {
                                    if w == removals@.len() - 1 {
                                        assert(schema@[i as int].secret);
                                        assert(key_parts(schema@[i as int].full_key@) == Some(removal_keys(removals@)[w]));
                                    } else {
                                        assert(removal_keys(removals@)[w] == rk0[w]);
                                    }
                                }
                                assert forall|j: int| 0 <= j < i + 1 && (#[trigger] schema@[j]).secret
                                    && key_parts(schema@[j].full_key@) is Some
                                    && v0.contains_key(key_parts(schema@[j].full_key@)->0)
                                    implies removal_keys(removals@).contains(key_parts(schema@[j].full_key@)->0) by {
                                    if j == i {
                                        assert(removal_keys(removals@)[removals@.len() - 1] == key_parts(full@)->0);
                                    } else {
                                        let w = choose|w: int| 0 <= w < rk0.len() && rk0[w] == key_parts(schema@[j].full_key@)->0;
                                        assert(removal_keys(removals@)[w] == rk0[w]);
                                    }
                                }
                                assert(moved(schema@, v0, full@)) by {
                                    assert(schema@[i as int].full_key@ == full@);
                                }
                            }
                            if !contains_str(&current, full) {
                                let ghost tv = views(current@);
                                current.push(schema[i].full_key.clone());
                                list_modified = true;
                                proof {
                                    assert(views(current@) =~= tv.push(full@));
                                    assert forall|k: Seq<char>| #[trigger] views(current@).contains(k)
                                        implies t0.contains(k) || moved(schema@, v0, k) by {
                                        if k != full@ {
                                            let w = choose|w: int| 0 <= w < views(current@).len() && views(current@)[w] == k;
                                            assert(views(current@)[tv.len() as int] == full@);
                                            assert(w < tv.len());
                                            assert(tv[w] == k);
                                            assert(tv.contains(k));
                                        }
                                    }
                                    assert forall|k: Seq<char>| t0.contains(k) implies #[trigger] views(current@).contains(k) by {
                                        assert(tv.contains(k));
                                        let w = choose|w: int| 0 <= w < tv.len() && tv[w] == k;
                                        assert(views(current@)[w] == k);
                                    }
                                    assert forall|j: int| 0 <= j < i + 1 && moved(schema@, v0, (#[trigger] schema@[j]).full_key@)
                                        implies views(current@).contains(schema@[j].full_key@) by {
                                        if j == i {
                                            assert(views(current@)[tv.len() as int] == full@);
                                        } else {
                                            let w = choose|w: int| 0 <= w < tv.len() && tv[w] == schema@[j].full_key@;
                                            assert(views(current@)[w] == tv[w]);
                                        }
                                    }
                                }
                            }
                        },
                        None => {
                            proof {
                                assert forall|j: int| 0 <= j < i + 1 && moved(schema@, v0, (#[trigger] schema@[j]).full_key@)
                                    implies views(current@).contains(schema@[j].full_key@) by {
                                    if j == i {
                                        assert(schema@[j].full_key@ == full@);
                                        assert(key_parts(full@)->0 == (c@, k@));
                                        if secret_in_schema(schema@, full@) {
                                            assert(v0.contains_key(key_parts(full@)->0));
                                        }
                                    }
                                }
                            }
                        },
                    }
                },
                None => {},
            }
        }
        i += 1;
    }

    let ghost mid = views(current@);
    let mut kept: Vec<String> = Vec::new();
    let mut writes: Vec<(String, String, String)> = Vec::new();
    let mut dropped = false;
    let m = current.len();
    let mut pos: usize = 0;
    while pos < m
        invariant
            n == schema@.len(),
            m == current@.len(),
            pos <= m,
            schema_unique(schema@),
            store.values() == v0,
            creds.tracked_lists() == tl,
            mid == views(current@),
            forall|k: Seq<char>| #[trigger] mid.contains(k) ==> t0.contains(k) || moved(schema@, v0, k),
            forall|k: Seq<char>| t0.contains(k) ==> #[trigger] mid.contains(k),
            forall|q: int| 0 <= q < n && moved(schema@, v0, (#[trigger] schema@[q]).full_key@)
                ==> mid.contains(schema@[q].full_key@),
            forall|w: int| 0 <= w < removals@.len() ==> secret_slot(schema@, #[trigger] removal_keys(removals@)[w]),
            forall|j: int| 0 <= j < n && (#[trigger] schema@[j]).secret && key_parts(schema@[j].full_key@) is Some
                && v0.contains_key(key_parts(schema@[j].full_key@)->0)
                ==> removal_keys(removals@).contains(key_parts(schema@[j].full_key@)->0),
            forall|k: Seq<char>| #[trigger] views(kept@).contains(k) ==> mid.contains(k) && may_stay(schema@, k),
            forall|x: int| 0 <= x < pos && secret_in_schema(schema@, #[trigger] mid[x]) ==> views(kept@).contains(mid[x]),
            !dropped ==> views(kept@) == mid.subrange(0, pos as int),
            forall|w: int| 0 <= w < writes@.len() ==> written_back(schema@, t0, #[trigger] write_keys(writes@)[w], writes@[w].2@),
            creds.service() == c_old.service(),
            creds.context() == c_old.context(),
            exact == reads_exactly(c_old),
            exact ==> reads_exactly(*creds),
            exact ==> forall|q: int| 0 <= q < n && moved(schema@, v0, (#[trigger] schema@[q]).full_key@)
                && schema@[q].full_key@ != TRACKED_SECRETS_KEY@ ==> stored_secret(*creds, schema@[q].full_key@,
                opt_str(profile)) == Some(secret_text(v0[key_parts(schema@[q].full_key@)->0])),
            exact ==> forall|x: int| 0 <= x < pos && !may_stay(schema@, #[trigger] mid[x])
                && mid[x] != TRACKED_SECRETS_KEY@ ==> stored_secret(*creds, mid[x], opt_str(profile)) is None,
            exact ==> forall|k: Seq<char>| !secret_in_schema(schema@, k) && !mid.subrange(0, pos as int).contains(k)
                ==> #[trigger] stored_secret(*creds, k, opt_str(profile)) == stored_secret(c_old, k, opt_str(profile)),
            exact ==> forall|w: int| 0 <= w < writes@.len() ==> written_from(schema@, c_old, opt_str(profile),
                #[trigger] write_keys(writes@)[w], writes@[w].2@),
            exact ==> forall|q: int| 0 <= q < n && !(#[trigger] schema@[q]).secret && key_parts(schema@[q].full_key@) is Some
                && mid.subrange(0, pos as int).contains(schema@[q].full_key@) && write_back_of(schema@, q, c_old,
                opt_str(profile)) is Some ==> write_keys(writes@).contains(key_parts(schema@[q].full_key@)->0),
        decreases m - pos,
    {
        let key = current[pos].as_str();
        let ghost c_top = *creds;
        let ghost fk = c_top.key_for(key@, opt_str(profile));
        let ghost w_before = writes@;
        let ghost seen = mid.subrange(0, pos as int).contains(key@);
        let found = find_setting(schema, key);
        let secret_now = match found {
            Some(q) => schema[q].secret,
            None => false,
        };
        let mut keep = secret_now;
        if !secret_now {
            proof {
                if secret_in_schema(schema@, key@) {
                    let q = choose|q: int| 0 <= q < schema@.len() && (#[trigger] schema@[q]).full_key@ == key@ && schema@[q].secret;
                    assert(in_schema(schema@, key@));
                    let f = found->0 as int;
                    if q != f {
                        assert(schema@[q].full_key@ == schema@[f].full_key@);
                    }
                    assert(false);
                }
                assert(mid[pos as int] == key@);
                assert(mid.contains(key@));
                assert(t0.contains(key@));
            }
            let got = creds.get_with_profile(key, profile);
            proof {
                if exact {
                    assert(reads_exactly(*creds));
                    assert(creds.primary_backend() == c_top.primary_backend());
                }
            }
            match got {
                Ok(Some(value)) => {
                    let mut skip = false;
                    match found {
                        Some(q) => match split_setting_key(key) {
                            Some((c, k)) => {
                                let text = match encode_string(value.as_str()) {
                                    Ok(t) => t,
                                    Err(e) => {
                                        return Err(Error::Serialize(join2("Failed to encode a secret as JSON: ", e.as_str())));
                                    },
                                };
                                if !str_eq(text.as_str(), schema[q].default.as_str()) {
                                    let ghost wk0 = write_keys(writes@);
                                    let ghost w0 = writes@;
                                    proof {
                                        assert(t0.contains(key@));
                                    }
                                    writes.push((c, k, text));
                                    proof {
                                        assert(write_keys(writes@) =~= wk0.push(key_parts(key@)->0));
                                        assert forall|w: int| 0 <= w < writes@.len() implies written_back(schema@, t0,
                                            #[trigger] write_keys(writes@)[w], writes@[w].2@) by {
                                            if w == writes@.len() - 1 {
                                                assert(schema@[q as int].full_key@ == key@);
                                                assert(writes@[w].2@ == json_string_text(value@));
                                                assert(key_parts(schema@[q as int].full_key@) == Some(write_keys(writes@)[w]));
                                            } else {
                                                assert(writes@[w] == w0[w]);
                                                assert(write_keys(writes@)[w] == wk0[w]);
                                            }
                                        }
                                        if exact && seen {
                                            lemma_tracked_key_has_no_parts();
                                            let x = choose|x: int| 0 <= x < pos && mid.subrange(0, pos as int)[x] == key@;
                                            assert(mid[x] == key@);
                                            assert(schema@[q as int].full_key@ == key@);
                                            assert(!may_stay(schema@, key@));
                                            assert(stored_secret(c_top, key@, opt_str(profile)) is None);
                                            assert(false);
                                        }
                                        if exact && !seen {
                                            assert(stored_secret(c_top, key@, opt_str(profile)) == Some(value@));
                                            assert(stored_secret(c_top, key@, opt_str(profile)) == stored_secret(c_old,
                                                key@, opt_str(profile)));
                                            assert(schema@[q as int].full_key@ == key@);
                                            assert(write_back_of(schema@, q as int, c_old, opt_str(profile)) == Some(
                                                writes@[writes@.len() - 1].2@));
                                            assert(written_from(schema@, c_old, opt_str(profile),
                                                write_keys(writes@)[writes@.len() - 1], writes@[writes@.len() - 1].2@));
                                        }
                                        assert(write_keys(writes@)[writes@.len() - 1] == key_parts(key@)->0);
                                        assert(write_keys(writes@).contains(key_parts(key@)->0));
                                    }
                                } else {
                                    proof {
                                        if exact && !seen {
                                            assert(stored_secret(c_top, key@, opt_str(profile)) == stored_secret(c_old,
                                                key@, opt_str(profile)));
                                            assert(schema@[q as int].full_key@ == key@);
                                            assert(write_back_of(schema@, q as int, c_old, opt_str(profile)) is None);
                                            assert forall|q2: int| 0 <= q2 < n && (#[trigger] schema@[q2]).full_key@ == key@
                                                implies q2 == q as int by {
                                                if q2 != q as int {
                                                    assert(schema@[q2].full_key@ == schema@[q as int].full_key@);
                                                }
                                            }
                                        }
                                    }
                                }
                            },
                            None => {
                                skip = true;
                            },
                        },
                        None => {},
                    }
                    if !skip {
                        let ghost c_got = *creds;
                        let _ = creds.remove_with_profile(key, profile);
                        proof {
                            if exact {
                                assert(c_got.key_for(key@, opt_str(profile)) == fk);
                                assert(stored_secret(*creds, key@, opt_str(profile)) is None);
                            }
                        }
                    } else {
                        keep = true;
                    }
                },
                _ => {
                    proof {
                        if exact {
                            assert(stored_secret(*creds, key@, opt_str(profile)) is None);
                        }
                    }
                },
            }
        }
        proof {
            if exact {
                assert(reads_exactly(*creds));
                assert(creds.key_for(key@, opt_str(profile)) == fk);
                assert(mid[pos as int] == key@);
                assert forall|q: int| 0 <= q < n && moved(schema@, v0, (#[trigger] schema@[q]).full_key@)
                    && schema@[q].full_key@ != TRACKED_SECRETS_KEY@ implies stored_secret(*creds, schema@[q].full_key@,
                    opt_str(profile)) == Some(secret_text(v0[key_parts(schema@[q].full_key@)->0])) by {
                    if schema@[q].full_key@ == key@ {
                        assert(secret_now);
                    } else {
                        lemma_key_for_injective(c_top, schema@[q].full_key@, key@, opt_str(profile));
                    }
                }
                assert forall|x: int| 0 <= x < pos + 1 && !may_stay(schema@, #[trigger] mid[x])
                    && mid[x] != TRACKED_SECRETS_KEY@ implies stored_secret(*creds, mid[x], opt_str(profile)) is None by {
                    if mid[x] != key@ {
                        lemma_key_for_injective(c_top, mid[x], key@, opt_str(profile));
                    } else {
                        assert(!keep);
                    }
                }
                assert(mid.subrange(0, pos + 1) =~= mid.subrange(0, pos as int).push(key@));
                assert forall|k: Seq<char>| !secret_in_schema(schema@, k) && !mid.subrange(0, pos + 1).contains(k)
                    implies #[trigger] stored_secret(*creds, k, opt_str(profile)) == stored_secret(c_old, k, opt_str(profile)) by {
                    assert(k != key@) by {
                        if k == key@ {
                            assert(mid.subrange(0, pos + 1)[pos as int] == key@);
                        }
                    }
                    assert(!mid.subrange(0, pos as int).contains(k)) by {
                        if mid.subrange(0, pos as int).contains(k) {
                            let w = choose|w: int| 0 <= w < pos && mid.subrange(0, pos as int)[w] == k;
                            assert(mid.subrange(0, pos + 1)[w] == k);
                        }
                    }
                    assert(stored_secret(c_top, k, opt_str(profile)) == stored_secret(c_old, k, opt_str(profile)));
                    lemma_key_for_injective(c_top, k, key@, opt_str(profile));
                }
                assert forall|w: int| 0 <= w < writes@.len() implies written_from(schema@, c_old, opt_str(profile),
                    #[trigger] write_keys(writes@)[w], writes@[w].2@) by {
                    if w < w_before.len() {
                        assert(writes@[w] == w_before[w]);
                        assert(write_keys(w_before)[w] == write_keys(writes@)[w]);
                    }
                }
                assert forall|q: int| 0 <= q < n && !(#[trigger] schema@[q]).secret && key_parts(schema@[q].full_key@) is Some
                    && mid.subrange(0, pos + 1).contains(schema@[q].full_key@) && write_back_of(schema@, q, c_old,
                    opt_str(profile)) is Some implies write_keys(writes@).contains(key_parts(schema@[q].full_key@)->0) by {
                    let ck = key_parts(schema@[q].full_key@)->0;
                    if mid.subrange(0, pos as int).contains(schema@[q].full_key@) {
                        assert(write_keys(w_before).contains(ck));
                        let w = choose|w: int| 0 <= w < write_keys(w_before).len() && write_keys(w_before)[w] == ck;
                        assert(writes@[w] == w_before[w]);
                        assert(write_keys(writes@)[w] == ck);
                    } else {
                        let sub = mid.subrange(0, pos + 1);
                        let w = choose|w: int| 0 <= w < sub.len() && sub[w] == schema@[q].full_key@;
                        if w < pos {
                            assert(mid.subrange(0, pos as int)[w] == schema@[q].full_key@);
                        }
                        assert(schema@[q].full_key@ == key@);
                        assert(!seen);
                    }
                }
            }
        }
        proof {
            if keep {
                assert(mid.contains(mid[pos as int]));
                assert(may_stay(schema@, key@)) by {
                    if !secret_now {
                        let q = found->0 as int;
                        assert(schema@[q].full_key@ == key@);
                    } else {
                        let q = found->0 as int;
                        assert(schema@[q].full_key@ == key@ && schema@[q].secret);
                    }
                }
            }
        }
        let ghost kv = views(kept@);
        if keep {
            kept.push(current[pos].clone());
            proof {
                assert(views(kept@) =~= kv.push(key@));
                assert forall|k: Seq<char>| #[trigger] views(kept@).contains(k) implies mid.contains(k) && may_stay(schema@, k) by {
                    if k != key@ {
                        let w = choose|w: int| 0 <= w < views(kept@).len() && views(kept@)[w] == k;
                        assert(views(kept@)[kv.len() as int] == key@);
                        assert(kv[w] == k);
                        assert(kv.contains(k));
                    }
                }
                assert forall|x: int| 0 <= x < pos + 1 && secret_in_schema(schema@, #[trigger] mid[x]) implies views(kept@).contains(mid[x]) by {
                    if x == pos {
                        assert(views(kept@)[kv.len() as int] == mid[x]);
                    } else {
                        assert(kv.contains(mid[x]));
                        let w = choose|w: int| 0 <= w < kv.len() && kv[w] == mid[x];
                        assert(views(kept@)[w] == mid[x]);
                    }
                }
                if !dropped {
                    assert(mid.subrange(0, pos + 1) =~= mid.subrange(0, pos as int).push(mid[pos as int]));
                }
            }
        } else {
            dropped = true;
            proof {
                assert forall|x: int| 0 <= x < pos + 1 && secret_in_schema(schema@, #[trigger] mid[x]) implies views(kept@).contains(mid[x]) by {
                    if x == pos {
                        assert(secret_now) by {
                            let q = choose|q: int| 0 <= q < schema@.len() && (#[trigger] schema@[q]).full_key@ == key@ && schema@[q].secret;
                            match found {
                                Some(f) => {
                                    if q != f as int {
                                        assert(schema@[q].full_key@ == schema@[f as int].full_key@);
                                    }
                                },
                                None => {
                                    assert(in_schema(schema@, key@));
                                },
                            }
                        }
                    }
                }
            }
        }
        pos += 1;
    }
    proof {
        if !dropped {
            assert(mid.subrange(0, m as int) =~= mid);
        }
    }
    let list_changed = list_modified || dropped;
    let ghost c_end = *creds;
    if list_changed {
        match creds.save_tracked_secrets(&kept, profile) {
            Ok(()) => {
                proof {
                    if exact {
                        assert(reads_exactly(*creds));
                        assert forall|k: Seq<char>| k != TRACKED_SECRETS_KEY@ implies #[trigger] stored_secret(*creds,
                            k, opt_str(profile)) == stored_secret(c_end, k, opt_str(profile)) by {
                            lemma_key_for_injective(c_end, k, TRACKED_SECRETS_KEY@, opt_str(profile));
                        }
                    }
                }
            },
            Err(e) => {
                return Err(e);
            },
        }
    }
    let file_modified = removals.len() > 0 || writes.len() > 0;
    let ghost before_apply = store.values();
    apply_removals(store, &removals);
    let ghost mid_vals = store.values();
    apply_writes(store, &writes);
    proof {
        let v1 = store.values();
        let rk = removal_keys(removals@);
        let wk = write_keys(writes@);
        let kv = views(kept@);
        // a slot of one setting of the schema is the slot of no other
        assert forall|a: int, b: int| 0 <= a < n && 0 <= b < n && key_parts((#[trigger] schema@[a]).full_key@) is Some
            && key_parts(schema@[a].full_key@) == key_parts((#[trigger] schema@[b]).full_key@) implies a == b by {
            lemma_key_parts_injective(schema@[a].full_key@, schema@[b].full_key@);
        }
        assert forall|i: int| 0 <= i < n && (#[trigger] schema@[i]).secret && key_parts(schema@[i].full_key@) is Some
            implies !v1.contains_key(key_parts(schema@[i].full_key@)->0) by {
            let ck = key_parts(schema@[i].full_key@)->0;
            if wk.contains(ck) {
                let w = choose|w: int| 0 <= w < wk.len() && wk[w] == ck;
                assert(written_back(schema@, t0, wk[w], writes@[w].2@));
                let q = choose|q: int| 0 <= q < schema@.len() && !(#[trigger] schema@[q]).secret
                    && key_parts(schema@[q].full_key@) == Some(wk[w])
                    && t0.contains(schema@[q].full_key@)
                    && (exists|v: Seq<char>| writes@[w].2@ == #[trigger] json_string_text(v))
                    && writes@[w].2@ != schema@[q].default@;
                assert(q == i);
            }
            assert(v1.get(ck) == mid_vals.get(ck));
            if !rk.contains(ck) {
                assert(!v0.contains_key(ck));
            }
        }
        assert forall|ck: (Seq<char>, Seq<char>)| !schema_slot(schema@, ck) implies #[trigger] v1.get(ck) == v0.get(ck) by {
            if wk.contains(ck) {
                let w = choose|w: int| 0 <= w < wk.len() && wk[w] == ck;
                assert(written_back(schema@, t0, wk[w], writes@[w].2@));
                let q = choose|q: int| 0 <= q < schema@.len() && !(#[trigger] schema@[q]).secret
                    && key_parts(schema@[q].full_key@) == Some(wk[w])
                    && t0.contains(schema@[q].full_key@)
                    && (exists|v: Seq<char>| writes@[w].2@ == #[trigger] json_string_text(v))
                    && writes@[w].2@ != schema@[q].default@;
                assert(schema_slot(schema@, ck));
            }
            if rk.contains(ck) {
                let w = choose|w: int| 0 <= w < rk.len() && rk[w] == ck;
                assert(secret_slot(schema@, rk[w]));
                let q = choose|j: int| 0 <= j < schema@.len() && (#[trigger] schema@[j]).secret
                    && key_parts(schema@[j].full_key@) == Some(rk[w]);
                assert(schema_slot(schema@, ck));
            }
        }
        assert forall|i: int| 0 <= i < n && !(#[trigger] schema@[i]).secret && key_parts(schema@[i].full_key@) is Some
            implies ({
                let ck = key_parts(schema@[i].full_key@)->0;
                ||| v1.get(ck) == v0.get(ck)
                ||| (t0.contains(schema@[i].full_key@) && exists|v: Seq<char>|
                    v1.get(ck) == Some(#[trigger] json_string_text(v)) && json_string_text(v) != schema@[i].default@)
            }) by {
            let ck = key_parts(schema@[i].full_key@)->0;
            if rk.contains(ck) {
                let w = choose|w: int| 0 <= w < rk.len() && rk[w] == ck;
                assert(secret_slot(schema@, rk[w]));
                let q = choose|j: int| 0 <= j < schema@.len() && (#[trigger] schema@[j]).secret
                    && key_parts(schema@[j].full_key@) == Some(rk[w]);
                assert(q == i);
            }
            assert(mid_vals.get(ck) == v0.get(ck));
            if wk.contains(ck) {
                let w = choose|w: int| 0 <= w < writes@.len() && wk[w] == ck && #[trigger] v1.get(ck) == Some(writes@[w].2@);
                assert(written_back(schema@, t0, wk[w], writes@[w].2@));
                let q = choose|q: int| 0 <= q < schema@.len() && !(#[trigger] schema@[q]).secret
                    && key_parts(schema@[q].full_key@) == Some(wk[w])
                    && t0.contains(schema@[q].full_key@)
                    && (exists|v: Seq<char>| writes@[w].2@ == #[trigger] json_string_text(v))
                    && writes@[w].2@ != schema@[q].default@;
                assert(q == i);
                let v = choose|v: Seq<char>| writes@[w].2@ == #[trigger] json_string_text(v);
                assert(v1.get(ck) == Some(json_string_text(v)));
            }
        }
        assert forall|k: Seq<char>| (t0.contains(k) || moved(schema@, v0, k)) && secret_in_schema(schema@, k)
            implies #[trigger] kv.contains(k) by {
            if !t0.contains(k) {
                let q = choose|q: int| 0 <= q < schema@.len() && (#[trigger] schema@[q]).full_key@ == k && schema@[q].secret;
                assert(moved(schema@, v0, schema@[q].full_key@));
            }
            assert(mid.contains(k));
            let x = choose|x: int| 0 <= x < mid.len() && mid[x] == k;
            assert(secret_in_schema(schema@, mid[x]));
        }
        if !file_modified {
            assert(rk.len() == 0 && wk.len() == 0);
            assert forall|ck: (Seq<char>, Seq<char>)| #[trigger] v1.get(ck) == v0.get(ck) by {
                assert(!wk.contains(ck));
                assert(!rk.contains(ck));
            }
            assert(v1 =~= v0) by {
                assert forall|ck: (Seq<char>, Seq<char>)| #[trigger] v1.contains_key(ck) == v0.contains_key(ck) by {
                    assert(v1.get(ck) == v0.get(ck));
                }
                assert forall|ck: (Seq<char>, Seq<char>)| v1.contains_key(ck) implies #[trigger] v1[ck] == v0[ck] by {
                    assert(v1.get(ck) == v0.get(ck));
                }
            }
        }
    }
    proof {
        if exact {
            assert forall|k: Seq<char>| moved(schema@, v0, k) && k != TRACKED_SECRETS_KEY@ implies #[trigger] stored_secret(
                *creds, k, opt_str(profile)) == Some(secret_text(v0[key_parts(k)->0])) by {
                let q = choose|q: int| 0 <= q < schema@.len() && (#[trigger] schema@[q]).full_key@ == k && schema@[q].secret;
                assert(moved(schema@, v0, schema@[q].full_key@));
            }
            assert forall|k: Seq<char>| t0.contains(k) && !may_stay(schema@, k) && k != TRACKED_SECRETS_KEY@
                implies #[trigger] stored_secret(*creds, k, opt_str(profile)) is None by {
                assert(mid.contains(k));
                let x = choose|x: int| 0 <= x < mid.len() && mid[x] == k;
                assert(!may_stay(schema@, mid[x]));
            }
        }
    }
    proof {
        if exact {
            let v1 = store.values();
            let rk = removal_keys(removals@);
            let wk = write_keys(writes@);
            assert(mid.subrange(0, m as int) =~= mid);
            assert forall|i: int| 0 <= i < n && !(#[trigger] schema@[i]).secret && key_parts(schema@[i].full_key@) is Some
                && t0.contains(schema@[i].full_key@) implies v1.get(key_parts(schema@[i].full_key@)->0) == match write_back_of(
                schema@, i, c_old, opt_str(profile)) {
                Some(t) => Some(t),
                None => v0.get(key_parts(schema@[i].full_key@)->0),
            } by {
                let ck = key_parts(schema@[i].full_key@)->0;
                assert(mid.contains(schema@[i].full_key@));
                // a slot of the schema belongs to one setting only
                assert forall|j: int| 0 <= j < n && key_parts((#[trigger] schema@[j]).full_key@) == Some(ck) implies j == i by {
                    lemma_key_parts_injective(schema@[j].full_key@, schema@[i].full_key@);
                    if j < i {
                        assert(schema@[j].full_key@ != schema@[i].full_key@);
                    } else if i < j {
                        assert(schema@[i].full_key@ != schema@[j].full_key@);
                    }
                }
                if rk.contains(ck) {
                    let w = choose|w: int| 0 <= w < rk.len() && rk[w] == ck;
                    assert(secret_slot(schema@, rk[w]));
                    let j = choose|j: int| 0 <= j < schema@.len() && (#[trigger] schema@[j]).secret
                        && key_parts(schema@[j].full_key@) == Some(rk[w]);
                    assert(j == i);
                }
                assert(mid_vals.get(ck) == v0.get(ck));
                if wk.contains(ck) {
                    let w = choose|w: int| 0 <= w < writes@.len() && write_keys(writes@)[w] == ck
                        && #[trigger] v1.get(ck) == Some(writes@[w].2@);
                    assert(written_from(schema@, c_old, opt_str(profile), write_keys(writes@)[w], writes@[w].2@));
                    let q = choose|q: int| 0 <= q < schema@.len() && !(#[trigger] schema@[q]).secret
                        && key_parts(schema@[q].full_key@) == Some(write_keys(writes@)[w])
                        && write_back_of(schema@, q, c_old, opt_str(profile)) == Some(writes@[w].2@);
                    assert(q == i);
                } else {
                    assert(v1.get(ck) == mid_vals.get(ck));
                    if write_back_of(schema@, i, c_old, opt_str(profile)) is Some {
                        assert(mid.subrange(0, m as int).contains(schema@[i].full_key@));
                        assert(wk.contains(ck));
                    }
                }
            }
        }
    }
    Ok(SecretMigration { file_modified, list_modified: list_changed, tracked_before: tracked0, tracked_after: kept })
}

/// The value a secret setting had, as JSON text: the stored secret as a
/// JSON string, or the default.
pub open spec fn secret_previous(found: Option<Seq<char>>, default: Seq<char>) -> Seq<char> {
    match found {
        Some(v) => json_string_text(v),
        None => default,
    }
}

/// What saving a secret setting did.
#[derive(Debug, Clone)]
pub struct SecretSave {
    /// The value the setting had before, as JSON text: the stored secret as a
    /// JSON string, or the default.
    pub previous: String,
    /// Whether the value changed (listeners are to be told).
    pub changed: bool,
}

/// The same key under one prefix gives the same stored key only for the
/// same key.
pub proof fn lemma_prefixed_injective(prefix: Seq<char>, a: Seq<char>, b: Seq<char>)
    requires
        prefix + a == prefix + b,
    ensures
        a == b,
{
    assert(a =~= (prefix + a).subrange(prefix.len() as int, (prefix + a).len() as int));
    assert(b =~= (prefix + b).subrange(prefix.len() as int, (prefix + b).len() as int));
}

/// What saving a secret setting (value and default as JSON text) under
/// `full` does, from the manager `c0` to `c1`:
///
/// * it reports the previous value (the stored secret as a JSON string, or
///   the default; with a manager that reads exactly, the primary's), and
///   whether the value changed;
/// * the key is tracked afterwards exactly when the value is not the
///   default; other profiles' tracked lists stay as they were;
/// * with a manager that reads exactly, the primary then holds the secret
///   (the content of a JSON string, else the JSON text), or nothing for the
///   default;
/// * it fails only in reading the tracked list, and succeeds where that list
///   can be had (`tracked_list_readable`) and is not the setting itself;
/// * an unchanged value writes nothing to the credential store, where the
///   cached tracked list already agrees (unless a stored secret equal to the
///   default has to be removed).
pub open spec fn secret_saved<P: CredentialBackend, F: CredentialBackend>(
    c0: CredentialManager<P, F>,
    c1: CredentialManager<P, F>,
    full: Seq<char>,
    value: Seq<char>,
    default: Seq<char>,
    profile: Option<Seq<char>>,
    r: Result<SecretSave, Error>,
) -> bool {
    &&& r matches Ok(s) ==> s.changed == (s.previous@ != value)
    &&& r matches Ok(s) ==> (s.previous@ == default || exists|v: Seq<char>| s.previous@ == #[trigger] json_string_text(v))
    &&& r matches Ok(s) ==> (reads_exactly(c0) ==> s.previous@ == secret_previous(stored_secret(c0, full, profile), default))
    &&& r is Ok ==> c1.service() == c0.service() && c1.context() == c0.context()
    &&& r is Ok ==> c1.tracked_lists().contains_key(profile)
    &&& r is Ok && value == default ==> !c1.tracked_lists()[profile].contains(full)
    &&& r is Ok && value != default ==> c1.tracked_lists()[profile].contains(full)
    &&& r is Ok ==> forall|q: Option<Seq<char>>| q != profile ==> #[trigger] c1.tracked_lists().get(q) == c0.tracked_lists().get(q)
    &&& r is Ok && reads_exactly(c0) && full != TRACKED_SECRETS_KEY@ ==> c1.primary_backend().entries().get(c0.key_for(full, profile))
        == if value == default {
        None
    } else {
        Some(secret_text(value))
    }
    &&& r matches Err(e) ==> e is Credential
    &&& c0.tracked_list_readable(profile) && full != TRACKED_SECRETS_KEY@ ==> r is Ok
    &&& r matches Ok(s) ==> (!s.changed && tracked_list_agrees(c0, profile, full, value != default) && (value
        != default || (reads_exactly(c0) && stored_secret(c0, full, profile) is None)) ==> c1.primary_backend()
        == c0.primary_backend() && c1.fallback_backend() == c0.fallback_backend() && c1.volatile_entries()
        == c0.volatile_entries())
}

/// Whether the cached tracked list of `profile` holds `full` exactly when
/// `listed` says so.
pub open spec fn tracked_list_agrees<P: CredentialBackend, F: CredentialBackend>(
    c: CredentialManager<P, F>,
    profile: Option<Seq<char>>,
    full: Seq<char>,
    listed: bool,
) -> bool {
    match c.tracked_lists().get(profile) {
        Some(l) => l.contains(full) == listed,
        None => false,
    }
}

/// Save a secret setting (`value` and `default` as JSON text) in the
/// credential store. A value equal to the default removes the secret and
/// its key from the tracked list; any other value is stored (the content of
/// a JSON string, else the JSON text) and its key tracked. The previous
/// value is the stored secret as a JSON string, or the default.
pub fn save_secret_setting<P: CredentialBackend, F: CredentialBackend>(
    creds: &mut CredentialManager<P, F>,
    full_key: &str,
    value: &str,
    default: &str,
    profile: Option<&str>,
) -> (r: Result<SecretSave, Error>)
    ensures
        secret_saved(*old(creds), *final(creds), full_key@, value@, default@, opt_str(profile), r),
{
    let ghost c0 = *creds;
    let ghost fk = c0.key_for(full_key@, opt_str(profile));
    let ghost tk = c0.key_for(TRACKED_SECRETS_KEY@, opt_str(profile));
    let found = match creds.get_with_profile(full_key, profile) {
        Ok(v) => v,
        Err(e) => {
            return Err(e);
        },
    };
    let found_some = found.is_some();
    let previous = match found {
        Some(secret) => match encode_string(secret.as_str()) {
            Ok(t) => t,
            Err(e) => {
                return Err(Error::Serialize(join2("Failed to encode a secret as JSON: ", e.as_str())));
            },
        },
        None => crate::text::text(default),
    };
    let ghost c1 = *creds;
    let reset = str_eq(value, default);
    // an unchanged value is not written again; a default still stored is removed
    let unchanged = str_eq(previous.as_str(), value) && !(reset && found_some);
    if unchanged {
    } else if reset {
        let _ = creds.remove_with_profile(full_key, profile);
    } else {
        let text = match decode_string(value) {
            Some(inner) => inner,
            None => crate::text::text(value),
        };
        let _ = creds.store_with_profile(full_key, text.as_str(), profile);
    }
    let ghost c2 = *creds;
    proof {
        if c0.tracked_list_readable(opt_str(profile)) && full_key@ != TRACKED_SECRETS_KEY@ && c0.tracked_lists().get(
            opt_str(profile),
        ) is None {
            lemma_key_for_injective(c0, full_key@, TRACKED_SECRETS_KEY@, opt_str(profile));
            assert(c2.primary_backend().entries().get(tk) == c0.primary_backend().entries().get(tk));
            assert(c2.key_for(TRACKED_SECRETS_KEY@, opt_str(profile)) == tk);
            assert(c2.tracked_list_readable(opt_str(profile)));
        }
    }
    match creds.get_tracked_secrets(profile) {
        Ok(_) => {},
        Err(e) => {
            return Err(e);
        },
    }
    let ghost c3 = *creds;
    let listed = if reset {
        creds.remove_tracked_secret(full_key, profile)
    } else {
        creds.add_tracked_secret(full_key, profile)
    };
    match listed {
        Ok(()) => {},
        Err(e) => {
            return Err(e);
        },
    }
    proof {
        if c0.backends_never_fail() && !c0.primary_failed() && full_key@ != TRACKED_SECRETS_KEY@ {
            assert(fk != tk) by {
                let pre = match opt_str(profile) {
                    Some(p) => c0.service() + ":profiles:"@ + p + ":"@,
                    None => match c0.context() {
                        Some(c) => c0.service() + ":profiles:"@ + c + ":"@,
                        None => c0.service() + ":"@,
                    },
                };
                assert(fk =~= pre + full_key@);
                assert(tk =~= pre + TRACKED_SECRETS_KEY@);
                if fk == tk {
                    lemma_prefixed_injective(pre, full_key@, TRACKED_SECRETS_KEY@);
                }
            }
        }
    }
    let changed = !str_eq(previous.as_str(), value);
    Ok(SecretSave { previous, changed })
}

/// The secret a credential manager holds for a setting, read from its
/// primary backend.
pub open spec fn stored_secret<P: CredentialBackend, F: CredentialBackend>(
    c: CredentialManager<P, F>,
    key: Seq<char>,
    profile: Option<Seq<char>>,
) -> Option<Seq<char>> {
    c.primary_backend().entries().get(c.key_for(key, profile))
}

/// Whether the manager answers reads from its primary backend exactly: the
/// primary and any fallback never fail and hold what they are given, and
/// the primary has not failed.
pub open spec fn reads_exactly<P: CredentialBackend, F: CredentialBackend>(c: CredentialManager<P, F>) -> bool {
    c.backends_never_fail() && !c.primary_failed()
}

/// A secret saved with a manager that reads exactly is what the manager's
/// primary then holds under the setting's key: the value (the content of a
/// JSON string), or nothing for the default.
pub proof fn law_secret_read_after_save<P: CredentialBackend, F: CredentialBackend>(
    c0: CredentialManager<P, F>,
    c1: CredentialManager<P, F>,
    full: Seq<char>,
    value: Seq<char>,
    default: Seq<char>,
    profile: Option<Seq<char>>,
    s: SecretSave,
)
    requires
        secret_saved(c0, c1, full, value, default, profile, Ok(s)),
        reads_exactly(c0),
        full != TRACKED_SECRETS_KEY@,
    ensures
        stored_secret(c1, full, profile) == if value == default {
            None
        } else {
            Some(secret_text(value))
        },
{
}

/// Migrating secrets a second time leaves the settings as the first
/// migration left them.
pub proof fn law_migration_settles(
    schema: Seq<SchemaSetting>,
    v0: Map<(Seq<char>, Seq<char>), Seq<char>>,
    v1: Map<(Seq<char>, Seq<char>), Seq<char>>,
    v2: Map<(Seq<char>, Seq<char>), Seq<char>>,
    t0: Seq<Seq<char>>,
    t1: Seq<Seq<char>>,
    t2: Seq<Seq<char>>,
)
    requires
        schema_unique(schema),
        migrated(schema, v0, v1, t0, t1),
        migrated(schema, v1, v2, t1, t2),
    ensures
        v2 == v1,
{
    assert forall|ck: (Seq<char>, Seq<char>)| #[trigger] v2.get(ck) == v1.get(ck) by {
        if schema_slot(schema, ck) {
            let i = choose|i: int| 0 <= i < schema.len() && key_parts((#[trigger] schema[i]).full_key@) == Some(ck);
            if schema[i].secret {
                assert(!v1.contains_key(ck));
                assert(!v2.contains_key(ck));
            } else if t1.contains(schema[i].full_key@) {
                assert(may_stay(schema, schema[i].full_key@));
                if secret_in_schema(schema, schema[i].full_key@) {
                    let j = choose|j: int| 0 <= j < schema.len() && (#[trigger] schema[j]).full_key@ == schema[i].full_key@
                        && schema[j].secret;
                    assert(i != j);
                    assert(false);
                }
            }
        }
    }
    assert(v2 =~= v1) by {
        assert forall|ck: (Seq<char>, Seq<char>)| #[trigger] v2.contains_key(ck) == v1.contains_key(ck) by {
            assert(v2.get(ck) == v1.get(ck));
        }
        assert forall|ck: (Seq<char>, Seq<char>)| v2.contains_key(ck) implies #[trigger] v2[ck] == v1[ck] by {
            assert(v2.get(ck) == v1.get(ck));
        }
    }
}

/// What preparing settings for a backup does (from `v0` to `v1`, with the
/// manager `c0`): settings other than secrets stay; without secrets, no
/// secret setting keeps a value; with them, a secret setting keeps its
/// value or gets a JSON string (with a manager that reads exactly: the
/// stored secret's, which reads back as the secret).
pub open spec fn secrets_injected<P: CredentialBackend, F: CredentialBackend>(
    schema: Seq<SchemaSetting>,
    v0: Map<(Seq<char>, Seq<char>), Seq<char>>,
    v1: Map<(Seq<char>, Seq<char>), Seq<char>>,
    c0: CredentialManager<P, F>,
    with_secrets: bool,
    profile: Option<Seq<char>>,
) -> bool {
    &&& forall|ck: (Seq<char>, Seq<char>)| !secret_slot(schema, ck) ==> #[trigger] v1.get(ck) == v0.get(ck)
    &&& !with_secrets ==> forall|ck: (Seq<char>, Seq<char>)| secret_slot(schema, ck) ==> !#[trigger] v1.contains_key(ck)
    &&& with_secrets ==> forall|i: int| 0 <= i < schema.len() && (#[trigger] schema[i]).secret
        && key_parts(schema[i].full_key@) is Some ==> {
        let ck = key_parts(schema[i].full_key@)->0;
        &&& (v1.get(ck) == v0.get(ck) || exists|v: Seq<char>| v1.get(ck) == Some(#[trigger] json_string_text(v)))
        &&& reads_exactly(c0) ==> v1.get(ck) == match stored_secret(c0, schema[i].full_key@, profile) {
            Some(v) => Some(json_string_text(v)),
            None => v0.get(ck),
        }
        &&& reads_exactly(c0) && stored_secret(c0, schema[i].full_key@, profile) is Some ==> {
            let t = json_string_text(stored_secret(c0, schema[i].full_key@, profile)->0);
            t.len() > 0 && t[0] == '"' && json_string_content(t) == stored_secret(c0, schema[i].full_key@, profile)
        }
    }
}

/// Prepare settings for a backup: with `with_secrets`, each secret setting of
/// the schema found in the credential store is written into the settings
/// as a JSON string; without it, every secret setting is taken out. Nothing
/// else changes.
pub fn inject_or_remove_secrets<P: CredentialBackend, F: CredentialBackend>(
    store: &mut SettingsStore,
    creds: &mut CredentialManager<P, F>,
    schema: &Vec<SchemaSetting>,
    with_secrets: bool,
    profile: Option<&str>,
) -> (r: Result<(), Error>)
    requires
        schema_unique(schema@),
    ensures
        r is Ok,
        final(creds).service() == old(creds).service(),
        final(creds).context() == old(creds).context(),
        final(creds).tracked_lists() == old(creds).tracked_lists(),
        reads_exactly(*old(creds)) ==> final(creds).same_stores(&*old(creds)),
        r is Ok ==> secrets_injected(schema@, old(store).values(), final(store).values(), *old(creds), with_secrets,
            opt_str(profile)),
{
    let ghost v0 = store.values();
    let ghost c0 = *creds;
    let n = schema.len();
    let mut i: usize = 0;
    while i < n
        invariant
            n == schema@.len(),
            i <= n,
            schema_unique(schema@),
            c0 == *old(creds),
            creds.service() == c0.service(),
            creds.context() == c0.context(),
            creds.tracked_lists() == c0.tracked_lists(),
            reads_exactly(c0) ==> creds.same_stores(&c0),
            forall|ck: (Seq<char>, Seq<char>)| !(exists|q: int| 0 <= q < i && (#[trigger] schema@[q]).secret
                && key_parts(schema@[q].full_key@) == Some(ck)) ==> #[trigger] store.values().get(ck) == v0.get(ck),
            !with_secrets ==> forall|q: int| 0 <= q < i && (#[trigger] schema@[q]).secret && key_parts(schema@[q].full_key@) is Some
                ==> !store.values().contains_key(key_parts(schema@[q].full_key@)->0),
            with_secrets ==> forall|q: int| 0 <= q < i && (#[trigger] schema@[q]).secret && key_parts(schema@[q].full_key@) is Some
                ==> {
                let ck = key_parts(schema@[q].full_key@)->0;
                &&& (store.values().get(ck) == v0.get(ck) || exists|v: Seq<char>|
                    store.values().get(ck) == Some(#[trigger] json_string_text(v)))
                &&& reads_exactly(c0) ==> store.values().get(ck) == match stored_secret(c0, schema@[q].full_key@, opt_str(profile)) {
                    Some(v) => Some(json_string_text(v)),
                    None => v0.get(ck),
                }
            },
            with_secrets && reads_exactly(c0) ==> forall|q: int| 0 <= q < i && (#[trigger] schema@[q]).secret
                && key_parts(schema@[q].full_key@) is Some && stored_secret(c0, schema@[q].full_key@, opt_str(profile)) is Some
                ==> {
                let t = json_string_text(stored_secret(c0, schema@[q].full_key@, opt_str(profile))->0);
                t.len() > 0 && t[0] == '"' && json_string_content(t) == stored_secret(c0, schema@[q].full_key@, opt_str(profile))
            },
        decreases n - i,
    {
        let entry = &schema[i];
        if entry.secret {
            match split_setting_key(entry.full_key.as_str()) {
                Some((c, k)) => {
                    let ghost ck = (c@, k@);
                    let ghost before = store.values();
                    proof {
                        // no other secret setting of the schema shares this slot
                        assert forall|q: int| 0 <= q < n && q != i && key_parts((#[trigger] schema@[q]).full_key@) == Some(ck)
                            implies false by {
                            lemma_key_parts_injective(schema@[q].full_key@, entry.full_key@);
                        }
                    }
                    if with_secrets {
                        let found = match creds.get_with_profile(entry.full_key.as_str(), profile) {
                            Ok(v) => v,
                            Err(_) => None,
                        };
                        proof {
                            if reads_exactly(c0) {
                                assert(opt_view(found) == stored_secret(c0, entry.full_key@, opt_str(profile)));
                            }
                        }
                        match found {
                            Some(secret) => {
                                let text = match encode_string(secret.as_str()) {
                                    Ok(t) => t,
                                    Err(e) => {
                                        return Err(Error::Serialize(join2("Failed to encode a secret as JSON: ", e.as_str())));
                                    },
                                };
                                store.set(c.as_str(), k.as_str(), text.as_str());
                            },
                            None => {},
                        }
                        proof {
                            if reads_exactly(c0) {
                                assert forall|q: int| 0 <= q < i + 1 && (#[trigger] schema@[q]).secret
                                    && key_parts(schema@[q].full_key@) is Some
                                    && stored_secret(c0, schema@[q].full_key@, opt_str(profile)) is Some implies {
                                    let t = json_string_text(stored_secret(c0, schema@[q].full_key@, opt_str(profile))->0);
                                    t.len() > 0 && t[0] == '"' && json_string_content(t) == stored_secret(c0,
                                        schema@[q].full_key@, opt_str(profile))
                                } by {
                                }
                            }
                        }
                    } else {
                        store.remove(c.as_str(), k.as_str());
                    }
                    proof {
                        assert forall|ck2: (Seq<char>, Seq<char>)| !(exists|q: int| 0 <= q < i + 1 && (#[trigger] schema@[q]).secret
                            && key_parts(schema@[q].full_key@) == Some(ck2)) implies #[trigger] store.values().get(ck2) == v0.get(ck2) by {
                            assert(ck2 != ck);
                            assert(before.get(ck2) == store.values().get(ck2));
                        }
                        if with_secrets {
                            assert forall|q: int| 0 <= q < i + 1 && (#[trigger] schema@[q]).secret && key_parts(schema@[q].full_key@) is Some
                                implies ({
                                let ck2 = key_parts(schema@[q].full_key@)->0;
                                &&& (store.values().get(ck2) == v0.get(ck2) || exists|v: Seq<char>|
                                    store.values().get(ck2) == Some(#[trigger] json_string_text(v)))
                                &&& reads_exactly(c0) ==> store.values().get(ck2) == match stored_secret(c0, schema@[q].full_key@, opt_str(profile)) {
                                    Some(v) => Some(json_string_text(v)),
                                    None => v0.get(ck2),
                                }
                            }) by {
                                if q < i {
                                    let ck2 = key_parts(schema@[q].full_key@)->0;
                                    assert(ck2 != ck);
                                    assert(before.get(ck2) == store.values().get(ck2));
                                } else {
                                    assert(before.get(ck) == v0.get(ck)) by {
                                        if exists|q2: int| 0 <= q2 < i && (#[trigger] schema@[q2]).secret
                                            && key_parts(schema@[q2].full_key@) == Some(ck) {
                                            let q2 = choose|q2: int| 0 <= q2 < i && (#[trigger] schema@[q2]).secret
                                                && key_parts(schema@[q2].full_key@) == Some(ck);
                                            assert(false);
                                        }
                                    }
                                }
                            }
                        } else {
                            assert forall|q: int| 0 <= q < i + 1 && (#[trigger] schema@[q]).secret && key_parts(schema@[q].full_key@) is Some
                                implies !store.values().contains_key(key_parts(schema@[q].full_key@)->0) by {
                                if q < i {
                                    let ck2 = key_parts(schema@[q].full_key@)->0;
                                    assert(ck2 != ck);
                                    assert(before.get(ck2) == store.values().get(ck2));
                                }
                            }
                        }
                    }
                },
                None => {
                    proof {
                        assert forall|ck2: (Seq<char>, Seq<char>)| !(exists|q: int| 0 <= q < i + 1 && (#[trigger] schema@[q]).secret
                            && key_parts(schema@[q].full_key@) == Some(ck2)) implies #[trigger] store.values().get(ck2) == v0.get(ck2) by {
                        }
                    }
                },
            }
        }
        i += 1;
    }
    proof {
        assert forall|ck: (Seq<char>, Seq<char>)| !secret_slot(schema@, ck) implies #[trigger] store.values().get(ck) == v0.get(ck) by {
            if exists|q: int| 0 <= q < n && (#[trigger] schema@[q]).secret && key_parts(schema@[q].full_key@) == Some(ck) {
                let q = choose|q: int| 0 <= q < n && (#[trigger] schema@[q]).secret && key_parts(schema@[q].full_key@) == Some(ck);
                assert(secret_slot(schema@, ck));
            }
        }
        if !with_secrets {
            assert forall|ck: (Seq<char>, Seq<char>)| secret_slot(schema@, ck) implies !#[trigger] store.values().contains_key(ck) by {
                let q = choose|q: int| 0 <= q < schema@.len() && (#[trigger] schema@[q]).secret && key_parts(schema@[q].full_key@) == Some(ck);
                assert(key_parts(schema@[q].full_key@) is Some);
            }
        }
    }
    Ok(())
}

/// The key under which a manager stores a setting's secret is that of no
/// other setting.
pub proof fn lemma_key_for_injective<P: CredentialBackend, F: CredentialBackend>(
    c: CredentialManager<P, F>,
    a: Seq<char>,
    b: Seq<char>,
    profile: Option<Seq<char>>,
)
    requires
        a != b,
    ensures
        c.key_for(a, profile) != c.key_for(b, profile),
{
    let pre = match profile {
        Some(p) => c.service() + ":profiles:"@ + p + ":"@,
        None => match c.context() {
            Some(x) => c.service() + ":profiles:"@ + x + ":"@,
            None => c.service() + ":"@,
        },
    };
    assert(c.key_for(a, profile) =~= pre + a);
    assert(c.key_for(b, profile) =~= pre + b);
    if c.key_for(a, profile) == c.key_for(b, profile) {
        lemma_prefixed_injective(pre, a, b);
    }
}

/// What moving restored secrets into the credential store does (settings
/// from `v0` to `v1`, manager from `c0` to `c1`): settings other than
/// secrets stay; a secret setting leaves the settings unless it is `null`;
/// with a manager that reads exactly, the manager then holds each restored
/// secret (nothing for one equal to its default).
pub open spec fn secrets_hydrated<P: CredentialBackend, F: CredentialBackend>(
    schema: Seq<SchemaSetting>,
    v0: Map<(Seq<char>, Seq<char>), Seq<char>>,
    v1: Map<(Seq<char>, Seq<char>), Seq<char>>,
    c0: CredentialManager<P, F>,
    c1: CredentialManager<P, F>,
    profile: Option<Seq<char>>,
) -> bool {
    &&& forall|ck: (Seq<char>, Seq<char>)| !secret_slot(schema, ck) ==> #[trigger] v1.get(ck) == v0.get(ck)
    &&& forall|ck: (Seq<char>, Seq<char>)| secret_slot(schema, ck) ==> #[trigger] v1.get(ck) == if v0.get(ck) == Some(
        "null"@) {
        Some("null"@)
    } else {
        None
    }
    &&& reads_exactly(c0) ==> forall|i: int| 0 <= i < schema.len() && (#[trigger] schema[i]).secret
        && key_parts(schema[i].full_key@) is Some ==> {
        let t = v0.get(key_parts(schema[i].full_key@)->0);
        &&& t is Some && t != Some("null"@) && schema[i].full_key@ != TRACKED_SECRETS_KEY@
            ==> stored_secret(c1, schema[i].full_key@, profile) == if t->0 == schema[i].default@ {
            None
        } else {
            Some(secret_text(t->0))
        }
    }
}

/// After a restore, move the secret settings of the restored settings into
/// the credential store: a secret equal to its default clears the
/// credential, any other (but `null`) is stored (the content of a JSON
/// string, else the JSON text); either way it leaves the settings. A `null`
/// stays; nothing else changes.
pub fn hydrate_secrets<P: CredentialBackend, F: CredentialBackend>(
    store: &mut SettingsStore,
    creds: &mut CredentialManager<P, F>,
    schema: &Vec<SchemaSetting>,
    profile: Option<&str>,
)
    requires
        schema_unique(schema@),
    ensures
        final(creds).service() == old(creds).service(),
        final(creds).context() == old(creds).context(),
        final(creds).tracked_lists() == old(creds).tracked_lists(),
        secrets_hydrated(schema@, old(store).values(), final(store).values(), *old(creds), *final(creds), opt_str(profile)),
{
    let ghost v0 = store.values();
    let ghost c0 = *creds;
    let n = schema.len();
    let mut i: usize = 0;
    while i < n
        invariant
            n == schema@.len(),
            i <= n,
            schema_unique(schema@),
            c0 == *old(creds),
            creds.service() == c0.service(),
            creds.context() == c0.context(),
            creds.tracked_lists() == c0.tracked_lists(),
            reads_exactly(c0) ==> reads_exactly(*creds),
            forall|ck: (Seq<char>, Seq<char>)| !(exists|q: int| 0 <= q < i && (#[trigger] schema@[q]).secret
                && key_parts(schema@[q].full_key@) == Some(ck)) ==> #[trigger] store.values().get(ck) == v0.get(ck),
            forall|q: int| 0 <= q < i && (#[trigger] schema@[q]).secret && key_parts(schema@[q].full_key@) is Some
                ==> store.values().get(key_parts(schema@[q].full_key@)->0) == if v0.get(key_parts(schema@[q].full_key@)->0)
                == Some("null"@) {
                Some("null"@)
            } else {
                None
            },
            reads_exactly(c0) ==> forall|q: int| 0 <= q < i && (#[trigger] schema@[q]).secret
                && key_parts(schema@[q].full_key@) is Some ==> {
                let t = v0.get(key_parts(schema@[q].full_key@)->0);
                &&& t is Some && t != Some("null"@) && schema@[q].full_key@ != TRACKED_SECRETS_KEY@
                    ==> stored_secret(*creds, schema@[q].full_key@, opt_str(profile)) == if t->0 == schema@[q].default@ {
                    None
                } else {
                    Some(secret_text(t->0))
                }
            },
        decreases n - i,
    {
        let entry = &schema[i];
        if entry.secret {
            match split_setting_key(entry.full_key.as_str()) {
                Some((c, k)) => {
                    let ghost ck = (c@, k@);
                    let ghost before = store.values();
                    let ghost cb = *creds;
                    proof {
                        assert forall|q: int| 0 <= q < n && q != i && key_parts((#[trigger] schema@[q]).full_key@) == Some(ck)
                            implies false by {
                            lemma_key_parts_injective(schema@[q].full_key@, entry.full_key@);
                        }
                        assert(before.get(ck) == v0.get(ck)) by {
                            if exists|q: int| 0 <= q < i && (#[trigger] schema@[q]).secret && key_parts(schema@[q].full_key@) == Some(ck) {
                                let q = choose|q: int| 0 <= q < i && (#[trigger] schema@[q]).secret && key_parts(schema@[q].full_key@) == Some(ck);
                                assert(false);
                            }
                        }
                    }
                    match store.get(c.as_str(), k.as_str()) {
                        Some(value) => {
                            if !str_eq(value.as_str(), "null") {
                                proof {
                                    reveal_strlit("null");
                                }
                                if str_eq(value.as_str(), entry.default.as_str()) {
                                    let _ = creds.remove_with_profile(entry.full_key.as_str(), profile);
                                } else {
                                    let text = match decode_string(value.as_str()) {
                                        Some(inner) => inner,
                                        None => value,
                                    };
                                    let _ = creds.store_with_profile(entry.full_key.as_str(), text.as_str(), profile);
                                }
                                store.remove(c.as_str(), k.as_str());
                            }
                        },
                        None => {},
                    }
                    proof {
                        assert forall|ck2: (Seq<char>, Seq<char>)| !(exists|q: int| 0 <= q < i + 1 && (#[trigger] schema@[q]).secret
                            && key_parts(schema@[q].full_key@) == Some(ck2)) implies #[trigger] store.values().get(ck2) == v0.get(ck2) by {
                            assert(ck2 != ck);
                            assert(before.get(ck2) == store.values().get(ck2));
                        }
                        assert forall|q: int| 0 <= q < i + 1 && (#[trigger] schema@[q]).secret && key_parts(schema@[q].full_key@) is Some
                            implies store.values().get(key_parts(schema@[q].full_key@)->0) == if v0.get(
                            key_parts(schema@[q].full_key@)->0) == Some("null"@) {
                            Some("null"@)
                        } else {
                            None
                        } by {
                            if q < i {
                                let ck2 = key_parts(schema@[q].full_key@)->0;
                                assert(ck2 != ck);
                                assert(before.get(ck2) == store.values().get(ck2));
                            }
                        }
                        if reads_exactly(c0) {
                            assert forall|q: int| 0 <= q < i + 1 && (#[trigger] schema@[q]).secret
                                && key_parts(schema@[q].full_key@) is Some implies ({
                                let t = v0.get(key_parts(schema@[q].full_key@)->0);
                                &&& t is Some && t != Some("null"@) && schema@[q].full_key@ != TRACKED_SECRETS_KEY@
                                    ==> stored_secret(*creds, schema@[q].full_key@, opt_str(profile)) == if t->0
                                    == schema@[q].default@ {
                                    None
                                } else {
                                    Some(secret_text(t->0))
                                }
                            }) by {
                                if q < i {
                                    assert(schema@[q].full_key@ != entry.full_key@);
                                    lemma_key_for_injective(cb, schema@[q].full_key@, entry.full_key@, opt_str(profile));
                                }
                            }
                        }
                    }
                },
                None => {},
            }
        }
        i += 1;
    }
    proof {
        assert forall|ck: (Seq<char>, Seq<char>)| !secret_slot(schema@, ck) implies #[trigger] store.values().get(ck) == v0.get(ck) by {
            if exists|q: int| 0 <= q < n && (#[trigger] schema@[q]).secret && key_parts(schema@[q].full_key@) == Some(ck) {
                let q = choose|q: int| 0 <= q < n && (#[trigger] schema@[q]).secret && key_parts(schema@[q].full_key@) == Some(ck);
                assert(secret_slot(schema@, ck));
            }
        }
        assert forall|ck: (Seq<char>, Seq<char>)| secret_slot(schema@, ck) implies #[trigger] store.values().get(ck)
            == if v0.get(ck) == Some("null"@) {
            Some("null"@)
        } else {
            None
        } by {
            let q = choose|q: int| 0 <= q < schema@.len() && (#[trigger] schema@[q]).secret && key_parts(schema@[q].full_key@) == Some(ck);
            assert(key_parts(schema@[q].full_key@) is Some);
        }
    }
}

/// A secret that a backup carries comes back into the credential store when
/// the backup is restored: preparing the settings with secrets and moving
/// the restored secrets back leaves the manager holding the same secret
/// (for a manager that reads exactly, and a secret whose JSON text is not
/// the default).
pub proof fn law_secret_survives_backup<P: CredentialBackend, F: CredentialBackend>(
    schema: Seq<SchemaSetting>,
    v0: Map<(Seq<char>, Seq<char>), Seq<char>>,
    v1: Map<(Seq<char>, Seq<char>), Seq<char>>,
    v2: Map<(Seq<char>, Seq<char>), Seq<char>>,
    c0: CredentialManager<P, F>,
    c1: CredentialManager<P, F>,
    c2: CredentialManager<P, F>,
    profile: Option<Seq<char>>,
    i: int,
)
    requires
        reads_exactly(c0),
        secrets_injected(schema, v0, v1, c0, true, profile),
        c1.same_stores(&c0),
        secrets_hydrated(schema, v1, v2, c1, c2, profile),
        0 <= i < schema.len(),
        schema[i].secret,
        key_parts(schema[i].full_key@) is Some,
        schema[i].full_key@ != TRACKED_SECRETS_KEY@,
        stored_secret(c0, schema[i].full_key@, profile) is Some,
        json_string_text(stored_secret(c0, schema[i].full_key@, profile)->0) != schema[i].default@,
    ensures
        stored_secret(c2, schema[i].full_key@, profile) == stored_secret(c0, schema[i].full_key@, profile),
{
    let ck = key_parts(schema[i].full_key@)->0;
    let v = stored_secret(c0, schema[i].full_key@, profile)->0;
    assert(v1.get(ck) == Some(json_string_text(v)));
    assert(reads_exactly(c1));
    let t = json_string_text(v);
    assert(t != "null"@) by {
        reveal_strlit("null");
        assert("null"@[0] == 'n');
    }
}

} // verus!

verus! {

/// The key of the tracked list has no `category.key` form.
pub proof fn lemma_tracked_key_has_no_parts()
    ensures
        key_parts(TRACKED_SECRETS_KEY@) is None,
{
    reveal_strlit("__rcman_secrets__");
    let s = TRACKED_SECRETS_KEY@;
    assert(s.len() == 17);
    assert forall|i: int| 0 <= i < s.len() implies s[i] != '.' by {
        assert(s =~= seq!['_', '_', 'r', 'c', 'm', 'a', 'n', '_', 's', 'e', 'c', 'r', 'e', 't', 's', '_', '_']);
    }
}

} // verus!
