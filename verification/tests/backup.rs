use rcman::backup::digest::{hex_lower, sha256_hex};
use rcman::backup::plan::{
    analyze_manifest, plan_profile_backup, plan_profiled_sub_settings, plan_sub_settings_backup, backup_file_name, export_categories, format_export_type, includes_external_configs, includes_main_settings, review_manifest,
    sanitize_filename, select_external_configs, sub_settings_to_back_up, validate_password,
};
use rcman::backup::restore::{
    external_config_candidates, plan_flat_sub_settings_restore, plan_profile_restore,
    plan_profiled_sub_settings_restore, ProfiledRestoreStep, check_checksum, check_restore_allowed, decide_entry, decide_external, is_selected, sub_settings_to_restore,
    ImportTargetKind, RestoreAction, RestorePendingReason, RestoreResult, RestoreSkipReason,
};
use rcman::backup::types::{
    is_manifest_version_supported, ProfileEntry, SubSettingsManifestEntry, BackupContents, BackupOptions, ExportCategoryType, ExportType, ExternalConfig,
    RestoreOptions,
    MANIFEST_VERSION_CURRENT,
};
use rcman::Error;

#[test]
fn test_validate_password() {
    assert!(validate_password(None).unwrap().is_none());
    assert!(validate_password(Some("valid".into())).unwrap().is_some());
    assert!(validate_password(Some("   ".into())).is_err());
    assert!(validate_password(Some("abc".into())).is_err()); // Too short
}

#[test]
fn test_sanitize_filename() {
    assert_eq!(sanitize_filename("normal"), "normal");
    assert_eq!(sanitize_filename("with/slash"), "with_slash");
    assert_eq!(sanitize_filename("file:name"), "file_name");
}

#[test]
fn restore_result_reports_conflicts_and_reason_counts() {
    let mut result = RestoreResult::default();
    assert!(!result.has_conflicts());

    result.add_skipped("settings.json", RestoreSkipReason::ExistsConflict);
    result.add_skipped("external_ro", RestoreSkipReason::ReadOnlyImportTarget);
    result.add_pending("external_missing", RestorePendingReason::UnknownExternalConfig);

    assert!(result.has_conflicts());
    assert_eq!(result.skipped_count_by_reason(RestoreSkipReason::ExistsConflict), 1);
    assert_eq!(result.skipped_count_by_reason(RestoreSkipReason::ReadOnlyImportTarget), 1);
    assert_eq!(result.pending_count_by_reason(RestorePendingReason::UnknownExternalConfig), 1);
    assert_eq!(result.pending_count_by_reason(RestorePendingReason::MissingSourceProfile), 0);
}

#[test]
fn restore_result_returns_ids_by_reason() {
    let mut result = RestoreResult::default();

    result.add_skipped("a", RestoreSkipReason::ExistsConflict);
    result.add_skipped("b", RestoreSkipReason::ReadOnlyImportTarget);
    result.add_skipped("c", RestoreSkipReason::ExistsConflict);

    result.add_pending("p1", RestorePendingReason::UnknownExternalConfig);
    result.add_pending("p2", RestorePendingReason::ProfileSelectionRequired);

    assert_eq!(result.skipped_ids_by_reason(RestoreSkipReason::ExistsConflict), vec!["a", "c"]);
    assert_eq!(
        result.pending_ids_by_reason(RestorePendingReason::ProfileSelectionRequired),
        vec!["p2"]
    );
}

#[test]
fn password_rules_in_detail() {
    match validate_password(Some("   ".into())) {
        Err(Error::BackupFailed(m)) => assert_eq!(m, "Password cannot be empty or whitespace-only"),
        other => panic!("unexpected {other:?}"),
    }
    match validate_password(Some("abc".into())) {
        Err(Error::BackupFailed(m)) => assert_eq!(m, "Password must be at least 4 characters"),
        other => panic!("unexpected {other:?}"),
    }
    // Empty is blank, not short.
    match validate_password(Some(String::new())) {
        Err(Error::BackupFailed(m)) => assert_eq!(m, "Password cannot be empty or whitespace-only"),
        other => panic!("unexpected {other:?}"),
    }
    // Unicode white space counts as blank.
    assert!(validate_password(Some("\u{3000}\t\n".into())).is_err());
    // Length counts bytes: two two-byte characters make four bytes.
    assert_eq!(validate_password(Some("éé".into())).unwrap(), Some("éé".to_string()));
    assert!(validate_password(Some("é".into())).is_err());
    assert_eq!(validate_password(Some(" ab ".into())).unwrap(), Some(" ab ".to_string()));
}

#[test]
fn sanitize_replaces_every_unsafe_character() {
    assert_eq!(sanitize_filename("a/b\\c:d*e?f\"g<h>i|j"), "a_b_c_d_e_f_g_h_i_j");
    assert_eq!(sanitize_filename(""), "");
    assert_eq!(sanitize_filename("ünï cödé"), "ünï cödé");
    let once = sanitize_filename("x:/y");
    assert_eq!(sanitize_filename(&once), once);
}

#[test]
fn export_type_labels() {
    assert_eq!(format_export_type(&ExportType::Full), "Full Backup");
    assert_eq!(format_export_type(&ExportType::SettingsOnly), "Settings Only");
    assert_eq!(
        format_export_type(&ExportType::Single { settings_type: "remotes".into(), name: "gdrive".into() }),
        "Single remotes: gdrive"
    );
}

#[test]
fn backup_file_names() {
    let full = BackupOptions::new();
    assert_eq!(backup_file_name("app", "20240102_030405", &full, None), "app_20240102_030405_full.rcman");
    assert_eq!(
        backup_file_name("app", "20240102_030405", &full, Some("my:note")),
        "app_20240102_030405_my_note.rcman"
    );
    let settings = BackupOptions::new().export_type(ExportType::SettingsOnly);
    assert_eq!(backup_file_name("app", "T", &settings, None), "app_T_settings.rcman");
    let one_sub = BackupOptions::new()
        .export_type(ExportType::SettingsOnly)
        .include_settings(false)
        .include_sub_settings("remotes");
    assert_eq!(backup_file_name("app", "T", &one_sub, None), "app_T_remotes.rcman");
    let single = BackupOptions::new()
        .export_type(ExportType::Single { settings_type: "remotes".into(), name: "g/drive".into() });
    assert_eq!(backup_file_name("app", "T", &single, None), "app_g_drive_T.rcman");
}

#[test]
fn what_a_backup_gathers() {
    let full = BackupOptions::new();
    assert!(includes_main_settings(&full));
    assert!(includes_external_configs(&full));
    let registered = vec!["remotes".to_string(), "mounts".to_string()];
    assert_eq!(sub_settings_to_back_up(&full, &registered), registered);
    let chosen = BackupOptions::new().include_sub_settings("mounts");
    assert_eq!(sub_settings_to_back_up(&chosen, &registered), vec!["mounts".to_string()]);

    let settings_only = BackupOptions::new().export_type(ExportType::SettingsOnly).include_settings(false);
    assert!(!includes_main_settings(&settings_only));
    assert!(!includes_external_configs(&settings_only));
    assert!(sub_settings_to_back_up(&settings_only, &registered).is_empty());

    let single = BackupOptions::new()
        .export_type(ExportType::Single { settings_type: "remotes".into(), name: "x".into() })
        .include_settings(true);
    assert!(!includes_main_settings(&single));
    assert!(sub_settings_to_back_up(&single, &registered).is_empty());
}

#[test]
fn external_configs_first_occurrence_wins() {
    let ids: Vec<String> = vec!["a".into(), "b".into(), "a".into(), "c".into()];
    let full = BackupOptions::new();
    assert_eq!(select_external_configs(&full, &ids), vec![0, 1, 3]);
    let some = BackupOptions::new().include_external("c").include_external("a");
    assert_eq!(select_external_configs(&some, &ids), vec![0, 3]);
    let settings_only = BackupOptions::new().export_type(ExportType::SettingsOnly);
    assert!(select_external_configs(&settings_only, &ids).is_empty());
}

#[test]
fn manifest_review_warnings() {
    let (ok, warnings) = review_manifest(1, "1.0.0", "1.0.0", false, false);
    assert!(ok);
    assert!(warnings.is_empty());
    let (ok, warnings) = review_manifest(7, "0.9.0", "1.0.0", true, false);
    assert!(!ok);
    assert_eq!(
        warnings,
        vec![
            "Backup manifest version 7 is not supported (supported: 1-1)".to_string(),
            "Backup was created with app version 0.9.0, current version is 1.0.0".to_string(),
            "Manifest claims encrypted=true, but data.zip encrypted=false".to_string(),
        ]
    );
    let (_, warnings) = review_manifest(1234567, "1", "1", false, true);
    assert_eq!(
        warnings,
        vec![
            "Backup manifest version 1234567 is not supported (supported: 1-1)".to_string(),
            "Manifest claims encrypted=false, but data.zip encrypted=true".to_string(),
        ]
    );
}

#[test]
fn manifest_versions() {
    assert!(is_manifest_version_supported(MANIFEST_VERSION_CURRENT));
    assert!(!is_manifest_version_supported(0));
    assert!(!is_manifest_version_supported(2));
}

#[test]
fn restore_gate() {
    assert!(check_restore_allowed("b.rcman", 1, false, false).is_ok());
    assert!(check_restore_allowed("b.rcman", 1, true, true).is_ok());
    assert_eq!(check_restore_allowed("b.rcman", 1, true, false), Err(Error::PasswordRequired));
    assert_eq!(
        check_restore_allowed("b.rcman", 3, true, false),
        Err(Error::InvalidBackup(
            "b.rcman: Backup manifest version 3 is not supported (supported: 1-1)".to_string()
        ))
    );
}

#[test]
fn checksum_checks() {
    assert_eq!(check_checksum("p", false, Some("aa"), None), Ok(None));
    assert_eq!(check_checksum("p", true, None, None), Ok(None));
    assert_eq!(check_checksum("p", true, Some("aa"), Some("aa")), Ok(Some(true)));
    assert_eq!(
        check_checksum("p", true, Some("aa"), Some("ab")),
        Err(Error::InvalidBackup(
            "p: Data archive checksum verification failed - backup may be corrupted".to_string()
        ))
    );
}

#[test]
fn restore_decisions() {
    let plain = RestoreOptions::from_path("x.rcman");
    assert_eq!(decide_entry(true, &plain), RestoreAction::Skip(RestoreSkipReason::ExistsConflict));
    assert_eq!(decide_entry(false, &plain), RestoreAction::Write);
    let dry = RestoreOptions::from_path("x.rcman").dry_run(true);
    assert_eq!(decide_entry(false, &dry), RestoreAction::Preview);
    assert_eq!(decide_entry(true, &dry), RestoreAction::Skip(RestoreSkipReason::ExistsConflict));
    let over = RestoreOptions::from_path("x.rcman").overwrite(true);
    assert_eq!(decide_entry(true, &over), RestoreAction::Write);

    assert_eq!(
        decide_external(None, false, &plain),
        RestoreAction::Pend(RestorePendingReason::UnknownExternalConfig)
    );
    assert_eq!(
        decide_external(Some(ImportTargetKind::ReadOnly), false, &over),
        RestoreAction::Skip(RestoreSkipReason::ReadOnlyImportTarget)
    );
    assert_eq!(
        decide_external(Some(ImportTargetKind::File), true, &plain),
        RestoreAction::Skip(RestoreSkipReason::ExistsConflict)
    );
    assert_eq!(decide_external(Some(ImportTargetKind::Command), true, &plain), RestoreAction::Write);
    assert_eq!(decide_external(Some(ImportTargetKind::Handler), false, &dry), RestoreAction::Preview);
}

#[test]
fn recording_actions() {
    let mut result = RestoreResult::default();
    result.record("a", RestoreAction::Write);
    result.record("b", RestoreAction::Preview);
    result.record("c", RestoreAction::Skip(RestoreSkipReason::UnregisteredSubSettingsType));
    result.record("d", RestoreAction::Pend(RestorePendingReason::MissingSourceProfile));
    assert_eq!(result.restored, vec!["a".to_string(), "b".to_string()]);
    assert_eq!(result.skipped, vec!["c".to_string()]);
    assert_eq!(result.external_pending, vec!["d".to_string()]);
    assert_eq!(result.skipped_details[0].reason, RestoreSkipReason::UnregisteredSubSettingsType);
    assert_eq!(result.total(), 3);
    assert!(result.has_changes());
    assert!(result.would_change());
    let empty = RestoreResult::default();
    assert!(!empty.would_change());
    let mut bad = RestoreResult::default();
    bad.checksum_valid = Some(false);
    assert!(bad.would_change());
}

#[test]
fn filters_and_restore_scope() {
    assert!(is_selected(&vec![], "anything"));
    assert!(is_selected(&vec!["a".to_string()], "a"));
    assert!(!is_selected(&vec!["a".to_string()], "b"));

    let mut contents = BackupContents::default();
    contents.sub_settings.insert("remotes", vec!["g".to_string()]);
    let all = RestoreOptions::from_path("x");
    let plan = sub_settings_to_restore(&all, &contents);
    assert_eq!(plan, vec![("remotes".to_string(), vec!["g".to_string()])]);

    let only = RestoreOptions::from_path("x").restore_sub_settings("mounts");
    let plan = sub_settings_to_restore(&only, &contents);
    assert_eq!(plan, vec![("mounts".to_string(), vec![])]);

    let items = RestoreOptions::from_path("x").restore_sub_settings_items("remotes", &["a", "b"]);
    let plan = sub_settings_to_restore(&items, &contents);
    assert_eq!(plan, vec![("remotes".to_string(), vec!["a".to_string(), "b".to_string()])]);
}

#[test]
fn option_builders() {
    let o = BackupOptions::new()
        .output_dir("out")
        .password("secret")
        .note("n")
        .include_external("rclone")
        .include_sub_settings_items("remotes", &["a"])
        .include_sub_settings_items("remotes", &["b", "c"]);
    assert_eq!(o.output_dir, "out");
    assert_eq!(o.password.as_deref(), Some("secret"));
    assert_eq!(o.user_note.as_deref(), Some("n"));
    assert_eq!(o.include_external_configs, vec!["rclone".to_string()]);
    assert_eq!(o.include_sub_settings_items.get("remotes"), Some(vec!["b".to_string(), "c".to_string()]));
    assert_eq!(BackupOptions::default().output_dir, ".");

    let r = RestoreOptions::from_path("b.rcman").password("pw").verify_checksum(false).restore_settings(false).restore_external("e");
    assert_eq!(r.backup_path, "b.rcman");
    assert_eq!(r.password.as_deref(), Some("pw"));
    assert!(!r.verify_checksum);
    assert!(!r.restore_settings);
    assert!(!r.overwrite_existing);
    assert!(!r.dry_run);
    assert_eq!(r.restore_external_configs, vec!["e".to_string()]);
}

#[test]
fn external_config_builder() {
    let c = ExternalConfig::new("rclone_config", "/path/to/rclone.conf")
        .display_name("Rclone Configuration")
        .description("Main rclone remote configurations")
        .sensitive()
        .optional()
        .directory();
    assert_eq!(c.id, "rclone_config");
    assert_eq!(c.path, "/path/to/rclone.conf");
    assert_eq!(c.display_name, "Rclone Configuration");
    assert_eq!(c.description.as_deref(), Some("Main rclone remote configurations"));
    assert!(c.is_sensitive && c.optional && c.is_directory);
    assert_eq!(ExternalConfig::new("x", "p").display_name, "x");
}

#[test]
fn sha256_checksums() {
    assert_eq!(
        sha256_hex(b"abc"),
        "ba7816bf8f01cfea414140de5dae2223b00361a396177a9cb410ff61f20015ad"
    );
    assert_eq!(
        sha256_hex(b""),
        "e3b0c44298fc1c149afbf4c8996fb92427ae41e4649b934ca495991b7852b855"
    );
    assert_eq!(hex_lower(&[0x00, 0x0f, 0xa5, 0xff]), "000fa5ff");
}

#[test]
fn export_categories_list_settings_subsettings_and_externals() {
    let subs = vec!["remotes".to_string(), "backends".to_string()];
    let externals = vec![
        ExternalConfig::new("rclone", "/tmp/rclone.conf").display_name("Rclone").optional(),
        ExternalConfig::new("ssh", "/tmp/ssh").description("keys"),
    ];
    let cats = export_categories(&subs, &externals);
    assert_eq!(cats.len(), 5);
    assert_eq!(cats[0].id, "settings");
    assert_eq!(cats[0].name, "Application Settings");
    assert_eq!(cats[0].category_type, ExportCategoryType::Settings);
    assert_eq!(cats[0].description.as_deref(), Some("Main application settings"));
    assert_eq!(cats[1].id, "remotes");
    assert_eq!(cats[2].category_type, ExportCategoryType::SubSettings);
    assert_eq!(cats[3].name, "Rclone");
    assert!(cats[3].optional);
    assert_eq!(cats[3].category_type, ExportCategoryType::External);
    assert_eq!(cats[4].description.as_deref(), Some("keys"));
    assert!(!cats[4].optional);
}

fn strings(v: &[&str]) -> Vec<String> {
    v.iter().map(|s| s.to_string()).collect()
}

#[test]
fn sub_settings_backup_entries() {
    assert_eq!(
        plan_sub_settings_backup("remotes", true, true, &vec![], "json"),
        Some(SubSettingsManifestEntry::SingleFile("remotes.json".to_string()))
    );
    assert_eq!(plan_sub_settings_backup("remotes", true, false, &strings(&["a"]), "json"), None);
    assert_eq!(
        plan_sub_settings_backup("remotes", false, false, &strings(&["a", "b"]), "toml"),
        Some(SubSettingsManifestEntry::MultiFile(strings(&["a", "b"])))
    );
    assert_eq!(
        plan_sub_settings_backup("remotes", false, true, &vec![], "json"),
        Some(SubSettingsManifestEntry::MultiFile(vec![]))
    );
}

#[test]
fn profiled_sub_settings_entry() {
    assert_eq!(plan_profiled_sub_settings(&vec![]), None);
    assert_eq!(plan_profiled_sub_settings(&vec![("work".to_string(), vec![])]), None);
    let items = vec![
        ("default".to_string(), strings(&["one"])),
        ("empty".to_string(), vec![]),
        ("work".to_string(), strings(&["a", "b"])),
    ];
    assert_eq!(
        plan_profiled_sub_settings(&items),
        Some(SubSettingsManifestEntry::Profiled {
            profiles: vec![
                ("default".to_string(), ProfileEntry::Single("one".to_string())),
                ("work".to_string(), ProfileEntry::Multiple(strings(&["a", "b"]))),
            ]
        })
    );
}

#[test]
fn profile_backup_selection() {
    let dirs = strings(&["default", "work", "home"]);
    assert!(plan_profile_backup(false, &dirs, &vec![], &vec![]).is_empty());
    assert_eq!(plan_profile_backup(true, &dirs, &vec![], &vec![]), dirs);
    assert_eq!(plan_profile_backup(true, &dirs, &strings(&["work", "x"]), &vec![]), strings(&["work"]));
    assert_eq!(plan_profile_backup(true, &dirs, &vec![], &strings(&["default"])), strings(&["work", "home"]));
}

#[test]
fn profile_restore_plan() {
    let in_backup = strings(&["default", "work"]);
    let all = plan_profile_restore(&in_backup, None, Some("ignored"), "settings.json");
    assert_eq!(
        all,
        vec![
            ("default".to_string(), "default".to_string(), "profiles/default/settings.json".to_string()),
            ("work".to_string(), "work".to_string(), "profiles/work/settings.json".to_string()),
        ]
    );
    assert_eq!(
        plan_profile_restore(&in_backup, Some("work"), Some("job"), "settings.json"),
        vec![("work".to_string(), "job".to_string(), "profiles/job/settings.json".to_string())]
    );
    assert_eq!(
        plan_profile_restore(&in_backup, Some("work"), None, "s.json"),
        vec![("work".to_string(), "work".to_string(), "profiles/work/s.json".to_string())]
    );
    assert!(plan_profile_restore(&in_backup, Some("missing"), None, "s.json").is_empty());
}

#[test]
fn flat_sub_settings_restore_plan() {
    let entries = strings(&["a", "b", "c"]);
    assert_eq!(
        plan_flat_sub_settings_restore("remotes", &entries, &vec![]),
        vec![
            ("a".to_string(), "remotes/a".to_string()),
            ("b".to_string(), "remotes/b".to_string()),
            ("c".to_string(), "remotes/c".to_string()),
        ]
    );
    assert_eq!(
        plan_flat_sub_settings_restore("remotes", &entries, &strings(&["c", "z"])),
        vec![("c".to_string(), "remotes/c".to_string())]
    );
}

#[test]
fn analysis_requires_password_from_archive() {
    let r = analyze_manifest(MANIFEST_VERSION_CURRENT, "1.0", "1.0", false, true);
    assert!(r.is_valid);
    assert!(r.requires_password);
    assert_eq!(r.warnings.len(), 1);
    let r = analyze_manifest(MANIFEST_VERSION_CURRENT, "1.0", "1.0", true, false);
    assert!(!r.requires_password);
    let r = analyze_manifest(MANIFEST_VERSION_CURRENT, "1.0", "1.0", false, false);
    assert!(r.warnings.is_empty());
}

fn entry_step(source: &str, target: Option<&str>, entry: &str, id: &str) -> ProfiledRestoreStep {
    ProfiledRestoreStep::Entry {
        source_profile: source.to_string(),
        target_profile: target.map(|t| t.to_string()),
        entry: entry.to_string(),
        id: id.to_string(),
    }
}

#[test]
fn profiled_sub_settings_restore_plan() {
    let backup = vec![
        ("default".to_string(), strings(&["a", "b"])),
        ("work".to_string(), strings(&["c"])),
    ];
    // every profile, to a target with profiles
    assert_eq!(
        plan_profiled_sub_settings_restore("remotes", &backup, true, None, None, &vec![]),
        vec![
            entry_step("default", Some("default"), "a", "remotes/default/a"),
            entry_step("default", Some("default"), "b", "remotes/default/b"),
            entry_step("work", Some("work"), "c", "remotes/work/c"),
        ]
    );
    // one profile under another name, items filtered
    assert_eq!(
        plan_profiled_sub_settings_restore("remotes", &backup, true, Some("default"), Some("home"), &strings(&["b"])),
        vec![entry_step("default", Some("home"), "b", "remotes/home/b")]
    );
    // a profile the backup lacks
    assert_eq!(
        plan_profiled_sub_settings_restore("remotes", &backup, true, Some("gone"), None, &vec![]),
        vec![ProfiledRestoreStep::Pending {
            id: "remotes/gone".to_string(),
            reason: RestorePendingReason::MissingSourceProfile
        }]
    );
    // flat target: the profile asked for goes to the root
    assert_eq!(
        plan_profiled_sub_settings_restore("remotes", &backup, false, Some("work"), Some("x"), &vec![]),
        vec![entry_step("work", None, "c", "remotes/c")]
    );
    assert!(plan_profiled_sub_settings_restore("remotes", &backup, false, Some("gone"), None, &vec![]).is_empty());
    // flat target and no profile asked for
    assert_eq!(
        plan_profiled_sub_settings_restore("remotes", &backup, false, None, None, &vec![]),
        vec![ProfiledRestoreStep::Pending {
            id: "remotes".to_string(),
            reason: RestorePendingReason::ProfileSelectionRequired
        }]
    );
}

#[test]
fn external_config_file_candidates() {
    assert_eq!(external_config_candidates(Some("a.conf"), Some("b.conf"), "cfg"), strings(&["a.conf", "b.conf", "cfg"]));
    assert_eq!(external_config_candidates(Some("cfg"), Some("cfg"), "cfg"), strings(&["cfg"]));
    assert_eq!(external_config_candidates(None, None, "cfg"), strings(&["cfg"]));
    assert_eq!(external_config_candidates(Some("a"), None, "a"), strings(&["a"]));
    assert_eq!(external_config_candidates(Some("a"), Some("b"), "a"), strings(&["a", "b", "a"]));
}
