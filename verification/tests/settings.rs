use rcman::settings::{split_setting_key, value_source, SaveOutcome, SettingsStore, ValueSource};
use rcman::config::SettingType;
use rcman::credentials::CredentialManager;
use rcman::operations::{current_value, merge_with_defaults, profile_switch_changes, reset_all_settings, reset_setting, save_setting, SettingSave};
use rcman::secrets::{hydrate_secrets, inject_or_remove_secrets, migrate_secret_keys, save_secret_setting, SchemaSetting};
use rcman::Error;

#[test]
fn save_rules() {
    let mut store = SettingsStore::new();
    assert_eq!(store.effective("ui", "theme", "\"light\""), "\"light\"");

    let (outcome, previous) = store.save("ui", "theme", "\"dark\"", "\"light\"");
    assert_eq!(outcome, SaveOutcome::Stored);
    assert_eq!(previous, "\"light\"");
    assert_eq!(store.get("ui", "theme"), Some("\"dark\"".to_string()));

    let (outcome, _) = store.save("ui", "theme", "\"dark\"", "\"light\"");
    assert_eq!(outcome, SaveOutcome::Unchanged);

    let (outcome, previous) = store.save("ui", "theme", "\"light\"", "\"light\"");
    assert_eq!(outcome, SaveOutcome::Reset);
    assert_eq!(previous, "\"dark\"");
    assert_eq!(store.get("ui", "theme"), None);
    assert!(store.pairs().is_empty());
}

#[test]
fn categories_and_pairs() {
    let mut store = SettingsStore::new();
    store.set("ui", "theme", "\"dark\"");
    store.set("ui", "scale", "2");
    store.set("net", "port", "8080");
    store.set("ui", "scale", "3");
    let mut pairs = store.pairs();
    pairs.sort();
    assert_eq!(
        pairs,
        vec![
            ("net".to_string(), "port".to_string(), "8080".to_string()),
            ("ui".to_string(), "scale".to_string(), "3".to_string()),
            ("ui".to_string(), "theme".to_string(), "\"dark\"".to_string()),
        ]
    );
    store.remove("net", "port");
    store.remove("net", "port");
    assert_eq!(store.get("net", "port"), None);
    assert_eq!(store.pairs().len(), 2);
    store.clear();
    assert!(store.pairs().is_empty());
}

#[test]
fn reset_reports_changed_settings() {
    let mut store = SettingsStore::new();
    store.set("ui", "theme", "\"dark\"");
    store.set("net", "port", "80");
    let schema = vec![
        ("ui".to_string(), "theme".to_string(), "\"light\"".to_string()),
        ("ui".to_string(), "scale".to_string(), "1".to_string()),
        ("net".to_string(), "port".to_string(), "80".to_string()),
    ];
    assert_eq!(store.changed_by_reset(&schema), vec![(0, "\"dark\"".to_string())]);
}

#[test]
fn setting_keys() {
    assert_eq!(split_setting_key("ui.theme"), Some(("ui".to_string(), "theme".to_string())));
    assert_eq!(split_setting_key("theme"), None);
    assert_eq!(split_setting_key("a.b.c"), None);
    assert_eq!(split_setting_key(".x"), Some((String::new(), "x".to_string())));
}

#[test]
fn value_sources() {
    assert_eq!(value_source(false, false, true, false, true), ValueSource::Env);
    assert_eq!(value_source(false, false, false, false, true), ValueSource::Stored);
    assert_eq!(value_source(false, false, false, true, false), ValueSource::Default);
    assert_eq!(value_source(true, false, true, true, true), ValueSource::Credential);
    assert_eq!(value_source(true, true, true, true, true), ValueSource::Env);
    assert_eq!(value_source(true, false, false, false, true), ValueSource::Default);
}

fn schema_entry(full_key: &str, secret: bool, default: &str) -> SchemaSetting {
    SchemaSetting {
        full_key: full_key.to_string(),
        secret,
        default: default.to_string(),
        setting_type: SettingType::Text,
        pattern: None,
        options: None,
    }
}

#[test]
fn test_migrate_secret_keys_moves_both_ways() {
    let mut store = SettingsStore::new();
    store.set("auth", "token", "\"abc\"");
    store.set("auth", "port", "8080");
    store.set("ui", "theme", "\"dark\"");
    let mut creds = CredentialManager::memory_only("app");
    // "net.proxy" was secret before; the schema now says it is not.
    creds.store_with_profile("net.proxy", "http://p", None).unwrap();
    creds.add_tracked_secret("net.proxy", None).unwrap();
    let schema = vec![
        schema_entry("auth.token", true, "\"\""),
        schema_entry("auth.port", true, "0"),
        schema_entry("ui.theme", false, "\"light\""),
        schema_entry("net.proxy", false, "\"\""),
    ];
    let m = migrate_secret_keys(&mut store, &mut creds, &schema, None).unwrap();
    assert!(m.file_modified);
    assert!(m.list_modified);
    assert_eq!(m.tracked_before, vec!["net.proxy".to_string()]);
    let mut after = m.tracked_after.clone();
    after.sort();
    assert_eq!(after, vec!["auth.port".to_string(), "auth.token".to_string()]);
    // secrets left the settings, with their values in the credential store
    assert_eq!(store.get("auth", "token"), None);
    assert_eq!(store.get("auth", "port"), None);
    assert_eq!(creds.get_with_profile("auth.token", None).unwrap(), Some("abc".to_string()));
    assert_eq!(creds.get_with_profile("auth.port", None).unwrap(), Some("8080".to_string()));
    // the former secret came back as a JSON string and left the credential store
    assert_eq!(store.get("net", "proxy"), Some("\"http://p\"".to_string()));
    assert_eq!(creds.get_with_profile("net.proxy", None).unwrap(), None);
    // other settings are untouched
    assert_eq!(store.get("ui", "theme"), Some("\"dark\"".to_string()));
    let mut saved = creds.get_tracked_secrets(None).unwrap();
    saved.sort();
    assert_eq!(saved, after);
}

#[test]
fn test_migrate_secret_keys_nothing_to_do() {
    let mut store = SettingsStore::new();
    store.set("ui", "theme", "\"dark\"");
    let mut creds = CredentialManager::memory_only("app");
    let schema = vec![schema_entry("ui.theme", false, "\"light\""), schema_entry("auth.token", true, "\"\"")];
    let m = migrate_secret_keys(&mut store, &mut creds, &schema, None).unwrap();
    assert!(!m.file_modified);
    assert!(!m.list_modified);
    assert!(m.tracked_after.is_empty());
    assert_eq!(store.get("ui", "theme"), Some("\"dark\"".to_string()));
}

#[test]
fn test_migrate_secret_keys_default_not_written_back() {
    let mut store = SettingsStore::new();
    let mut creds = CredentialManager::memory_only("app");
    creds.store_with_profile("net.proxy", "", Some("work")).unwrap();
    creds.add_tracked_secret("net.proxy", Some("work")).unwrap();
    let schema = vec![schema_entry("net.proxy", false, "\"\"")];
    let m = migrate_secret_keys(&mut store, &mut creds, &schema, Some("work")).unwrap();
    assert!(!m.file_modified);
    assert!(m.list_modified);
    assert!(m.tracked_after.is_empty());
    assert_eq!(store.get("net", "proxy"), None);
    assert_eq!(creds.get_with_profile("net.proxy", Some("work")).unwrap(), None);
}

#[test]
fn test_save_secret_setting_store_and_reset() {
    let mut creds = CredentialManager::memory_only("app");
    let s = save_secret_setting(&mut creds, "auth.token", "\"abc\"", "\"\"", None).unwrap();
    assert_eq!(s.previous, "\"\"");
    assert!(s.changed);
    assert_eq!(creds.get_with_profile("auth.token", None).unwrap(), Some("abc".to_string()));
    assert_eq!(creds.get_tracked_secrets(None).unwrap(), vec!["auth.token".to_string()]);

    let s = save_secret_setting(&mut creds, "auth.token", "\"abc\"", "\"\"", None).unwrap();
    assert_eq!(s.previous, "\"abc\"");
    assert!(!s.changed);

    let s = save_secret_setting(&mut creds, "auth.token", "\"\"", "\"\"", None).unwrap();
    assert_eq!(s.previous, "\"abc\"");
    assert!(s.changed);
    assert_eq!(creds.get_with_profile("auth.token", None).unwrap(), None);
    assert!(creds.get_tracked_secrets(None).unwrap().is_empty());
}

#[test]
fn test_save_secret_setting_non_string_value() {
    let mut creds = CredentialManager::memory_only("app");
    let s = save_secret_setting(&mut creds, "net.port", "8080", "0", Some("work")).unwrap();
    assert_eq!(s.previous, "0");
    assert_eq!(creds.get_with_profile("net.port", Some("work")).unwrap(), Some("8080".to_string()));
    assert_eq!(creds.get_with_profile("net.port", None).unwrap(), None);
}

#[test]
fn test_reset_all_settings_reports_changes() {
    let mut store = SettingsStore::new();
    store.set("ui", "theme", "\"dark\"");
    store.set("ui", "size", "12");
    store.set("other", "x", "1");
    let mut creds = CredentialManager::memory_only("app");
    creds.store_with_profile("auth.token", "abc", None).unwrap();
    creds.add_tracked_secret("auth.token", None).unwrap();
    let schema = vec![
        schema_entry("ui.theme", false, "\"light\""),
        schema_entry("ui.size", false, "12"),
        schema_entry("auth.token", true, "\"\""),
        schema_entry("auth.unset", true, "\"\""),
        schema_entry("bad.key.form", false, "0"),
    ];
    let changes = reset_all_settings(&mut store, &mut creds, &schema, None).unwrap();
    let reported: Vec<(String, String, String)> =
        changes.iter().map(|c| (c.full_key.clone(), c.previous.clone(), c.default.clone())).collect();
    assert_eq!(
        reported,
        vec![
            ("ui.theme".to_string(), "\"dark\"".to_string(), "\"light\"".to_string()),
            ("auth.token".to_string(), "\"abc\"".to_string(), "\"\"".to_string()),
        ]
    );
    assert_eq!(store.get("ui", "theme"), None);
    assert_eq!(store.get("other", "x"), None);
    assert_eq!(creds.get_with_profile("auth.token", None).unwrap(), None);
    assert!(creds.get_tracked_secrets(None).unwrap().is_empty());
}

fn typed_entry(full_key: &str, setting_type: SettingType, default: &str) -> SchemaSetting {
    SchemaSetting { setting_type, ..schema_entry(full_key, false, default) }
}

#[test]
fn test_save_setting_routes_and_validates() {
    let mut store = SettingsStore::new();
    let mut creds = CredentialManager::memory_only("app");
    let mut theme = typed_entry("ui.theme", SettingType::Select, "\"light\"");
    theme.options = Some(vec!["\"light\"".to_string(), "\"dark\"".to_string()]);
    let schema = vec![
        theme,
        typed_entry("ui.dark", SettingType::Toggle, "false"),
        schema_entry("auth.token", true, "\"\""),
    ];

    match save_setting(&mut store, &mut creds, &schema, "ui", "theme", "\"dark\"", None).unwrap() {
        SettingSave::Plain(outcome, previous) => {
            assert_eq!(outcome, SaveOutcome::Stored);
            assert_eq!(previous, "\"light\"");
        }
        other => panic!("unexpected {other:?}"),
    }
    assert_eq!(store.get("ui", "theme"), Some("\"dark\"".to_string()));

    let err = save_setting(&mut store, &mut creds, &schema, "ui", "theme", "\"blue\"", None).unwrap_err();
    assert_eq!(
        err,
        Error::Config("Validation failed for ui.theme: Value must be one of the available options".to_string())
    );
    let err = save_setting(&mut store, &mut creds, &schema, "ui", "dark", "1", None).unwrap_err();
    assert_eq!(err, Error::Config("Validation failed for ui.dark: Value must be a boolean".to_string()));

    let err = save_setting(&mut store, &mut creds, &schema, "ui", "missing", "1", None).unwrap_err();
    assert_eq!(err, Error::SettingNotFound("ui.missing".to_string()));

    match save_setting(&mut store, &mut creds, &schema, "auth", "token", "\"abc\"", None).unwrap() {
        SettingSave::Secret(s) => assert!(s.changed),
        other => panic!("unexpected {other:?}"),
    }
    assert_eq!(store.get("auth", "token"), None);
    assert_eq!(creds.get_with_profile("auth.token", None).unwrap(), Some("abc".to_string()));

    assert_eq!(reset_setting(&mut store, &mut creds, &schema, "ui", "theme", None).unwrap(), "\"light\"");
    assert_eq!(store.get("ui", "theme"), None);
    assert_eq!(reset_setting(&mut store, &mut creds, &schema, "auth", "token", None).unwrap(), "\"\"");
    assert_eq!(creds.get_with_profile("auth.token", None).unwrap(), None);
    assert_eq!(
        reset_setting(&mut store, &mut creds, &schema, "ui", "nope", None).unwrap_err(),
        Error::SettingNotFound("ui.nope".to_string())
    );
}

#[test]
fn test_current_value_priorities() {
    let mut store = SettingsStore::new();
    store.set("ui", "theme", "\"dark\"");
    let mut creds = CredentialManager::memory_only("app");
    creds.store_with_profile("auth.token", "abc", None).unwrap();
    let theme = schema_entry("ui.theme", false, "\"light\"");
    let size = schema_entry("ui.size", false, "12");
    let token = schema_entry("auth.token", true, "\"\"");
    let unset = schema_entry("auth.unset", true, "\"\"");

    let v = |r: Result<Option<(String, ValueSource)>, Error>| r.unwrap().unwrap();
    assert_eq!(v(current_value(&store, &mut creds, &theme, None, false, None)), ("\"dark\"".to_string(), ValueSource::Stored));
    assert_eq!(v(current_value(&store, &mut creds, &theme, Some("\"env\""), false, None)), ("\"env\"".to_string(), ValueSource::Env));
    assert_eq!(v(current_value(&store, &mut creds, &size, None, false, None)), ("12".to_string(), ValueSource::Default));
    assert_eq!(v(current_value(&store, &mut creds, &token, None, false, None)), ("\"abc\"".to_string(), ValueSource::Credential));
    assert_eq!(v(current_value(&store, &mut creds, &token, Some("\"x\""), false, None)), ("\"abc\"".to_string(), ValueSource::Credential));
    assert_eq!(v(current_value(&store, &mut creds, &token, Some("\"x\""), true, None)), ("\"x\"".to_string(), ValueSource::Env));
    assert_eq!(v(current_value(&store, &mut creds, &unset, None, true, None)), ("\"\"".to_string(), ValueSource::Default));
    let odd = schema_entry("no_dot", false, "0");
    assert_eq!(current_value(&store, &mut creds, &odd, None, false, None).unwrap(), None);
}

#[test]
fn test_inject_or_remove_secrets() {
    let schema = vec![schema_entry("auth.token", true, "\"\""), schema_entry("ui.theme", false, "\"light\"")];
    let mut creds = CredentialManager::memory_only("app");
    creds.store_with_profile("auth.token", "abc", None).unwrap();

    let mut with = SettingsStore::new();
    with.set("ui", "theme", "\"dark\"");
    inject_or_remove_secrets(&mut with, &mut creds, &schema, true, None).unwrap();
    assert_eq!(with.get("auth", "token"), Some("\"abc\"".to_string()));
    assert_eq!(with.get("ui", "theme"), Some("\"dark\"".to_string()));

    let mut without = SettingsStore::new();
    without.set("auth", "token", "\"leaked\"");
    without.set("ui", "theme", "\"dark\"");
    inject_or_remove_secrets(&mut without, &mut creds, &schema, false, None).unwrap();
    assert_eq!(without.get("auth", "token"), None);
    assert_eq!(without.get("ui", "theme"), Some("\"dark\"".to_string()));
}

#[test]
fn test_hydrate_secrets_after_restore() {
    let schema = vec![
        schema_entry("auth.token", true, "\"\""),
        schema_entry("auth.pin", true, "0"),
        schema_entry("auth.cleared", true, "\"\""),
        schema_entry("auth.none", true, "\"\""),
        schema_entry("ui.theme", false, "\"light\""),
    ];
    let mut creds = CredentialManager::memory_only("app");
    creds.store_with_profile("auth.cleared", "old", Some("work")).unwrap();
    let mut restored = SettingsStore::new();
    restored.set("auth", "token", "\"abc\"");
    restored.set("auth", "pin", "1234");
    restored.set("auth", "cleared", "\"\"");
    restored.set("auth", "none", "null");
    restored.set("ui", "theme", "\"dark\"");
    hydrate_secrets(&mut restored, &mut creds, &schema, Some("work"));
    assert_eq!(restored.get("auth", "token"), None);
    assert_eq!(restored.get("auth", "pin"), None);
    assert_eq!(restored.get("auth", "cleared"), None);
    assert_eq!(restored.get("auth", "none"), Some("null".to_string()));
    assert_eq!(restored.get("ui", "theme"), Some("\"dark\"".to_string()));
    assert_eq!(creds.get_with_profile("auth.token", Some("work")).unwrap(), Some("abc".to_string()));
    assert_eq!(creds.get_with_profile("auth.pin", Some("work")).unwrap(), Some("1234".to_string()));
    assert_eq!(creds.get_with_profile("auth.cleared", Some("work")).unwrap(), None);
}

#[test]
fn test_secret_survives_backup_and_restore() {
    let schema = vec![schema_entry("auth.token", true, "\"\""), schema_entry("ui.theme", false, "\"light\"")];
    let mut creds = CredentialManager::memory_only("app");
    creds.store_with_profile("auth.token", "s3cr\"et", None).unwrap();
    let mut backup = SettingsStore::new();
    backup.set("ui", "theme", "\"dark\"");
    inject_or_remove_secrets(&mut backup, &mut creds, &schema, true, None).unwrap();

    let mut fresh = CredentialManager::memory_only("app");
    hydrate_secrets(&mut backup, &mut fresh, &schema, None);
    assert_eq!(fresh.get_with_profile("auth.token", None).unwrap(), Some("s3cr\"et".to_string()));
    assert_eq!(backup.get("auth", "token"), None);
    assert_eq!(backup.get("ui", "theme"), Some("\"dark\"".to_string()));
}

#[test]
fn test_profile_switch_changes() {
    let schema = vec![
        schema_entry("ui.theme", false, "\"light\""),
        schema_entry("ui.size", false, "12"),
        schema_entry("net.proxy", false, "\"\""),
    ];
    let mut work = SettingsStore::new();
    work.set("ui", "theme", "\"dark\"");
    work.set("ui", "size", "12");
    let mut home = SettingsStore::new();
    home.set("net", "proxy", "\"p\"");
    let changes = profile_switch_changes(&work, &home, &schema);
    let got: Vec<(String, String, String)> =
        changes.iter().map(|c| (c.full_key.clone(), c.old.clone(), c.new.clone())).collect();
    assert_eq!(
        got,
        vec![
            ("ui.theme".to_string(), "\"dark\"".to_string(), "\"light\"".to_string()),
            ("net.proxy".to_string(), "\"\"".to_string(), "\"p\"".to_string()),
        ]
    );
    assert!(profile_switch_changes(&work, &work, &schema).is_empty());
}

#[test]
fn test_merge_with_defaults_overlays_known_categories() {
    let schema = vec![
        schema_entry("ui.theme", false, "\"light\""),
        schema_entry("ui.font_size", false, "14"),
        schema_entry("net.port", false, "8080"),
    ];
    let mut stored = SettingsStore::new();
    stored.set("ui", "theme", "\"dark\"");
    stored.set("ui", "legacy", "true");
    stored.set("gone", "key", "1");
    let merged = merge_with_defaults(&schema, &stored);
    assert_eq!(merged.get("ui", "theme"), Some("\"dark\"".to_string()));
    assert_eq!(merged.get("ui", "font_size"), Some("14".to_string()));
    assert_eq!(merged.get("net", "port"), Some("8080".to_string()));
    assert_eq!(merged.get("ui", "legacy"), Some("true".to_string()));
    assert_eq!(merged.get("gone", "key"), None);
    assert_eq!(merged.pairs().len(), 4);
}

#[test]
fn unchanged_secret_is_not_written_again() {
    let mut creds = CredentialManager::memory_only("app");
    let first = save_secret_setting(&mut creds, "auth.token", "\"abc\"", "\"\"", None).unwrap();
    assert!(first.changed);
    let again = save_secret_setting(&mut creds, "auth.token", "\"abc\"", "\"\"", None).unwrap();
    assert!(!again.changed);
    assert_eq!(again.previous, "\"abc\"");
    assert_eq!(creds.get_with_profile("auth.token", None).unwrap(), Some("abc".to_string()));
    assert_eq!(creds.get_tracked_secrets(None).unwrap(), vec!["auth.token".to_string()]);
}

#[test]
fn tracked_add_then_remove_round_trip() {
    let mut creds = CredentialManager::memory_only("app");
    creds.add_tracked_secret("a.x", None).unwrap();
    let before = creds.get_tracked_secrets(None).unwrap();
    creds.add_tracked_secret("b.y", None).unwrap();
    creds.remove_tracked_secret("b.y", None).unwrap();
    assert_eq!(creds.get_tracked_secrets(None).unwrap(), before);
}
