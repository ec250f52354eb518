use rcman::config::{classify_env_override, EnvOverride};
use rcman::accessors::{
    accessor_method_names, classify_type_name, plan_accessors, register_method_name, resolve_field_category, sanitize_ident_component,
    setting_key, validate_field_type_constraints, TypeInfo,
};
use rcman::config::{get_env_var_name, HotReloadBackend, HotReloadConfig, SettingType, TextConstraints};
use rcman::docs::{capitalize, format_type, DocsConfig};
use rcman::reload::{event_touches_file, ReloadState, WatchInput};
use rcman::text::decimal_text;
use rcman::{CacheStrategy, Error};

#[test]
fn cache_strategy_validation() {
    assert!(CacheStrategy::Full.validate().is_ok());
    assert!(CacheStrategy::NoCache.validate().is_ok());
    assert!(CacheStrategy::Lru(1).validate().is_ok());
    assert_eq!(
        CacheStrategy::Lru(0).validate(),
        Err(Error::Config("LRU cache size must be greater than 0".to_string()))
    );
    assert_eq!(CacheStrategy::default(), CacheStrategy::Full);
}

#[test]
fn env_var_names() {
    assert_eq!(get_env_var_name(Some("myapp"), "ui.theme"), Some("MYAPP_UI_THEME".to_string()));
    assert_eq!(get_env_var_name(Some("App"), "general.dark_mode"), Some("APP_GENERAL_DARK_MODE".to_string()));
    assert_eq!(get_env_var_name(None, "ui.theme"), None);
}

#[test]
fn config_defaults() {
    let c = HotReloadConfig::default();
    assert_eq!(c.debounce_ms, 200);
    assert_eq!(c.poll_interval_ms, 1000);
    assert_eq!(c.backend, HotReloadBackend::Auto);
    assert_eq!(SettingType::default(), SettingType::Text);
    assert_eq!(TextConstraints::default().pattern, None);
}

#[test]
fn docs_pieces() {
    assert_eq!(format_type(&SettingType::Toggle), "Boolean");
    assert_eq!(format_type(&SettingType::Info), "Info (Read-only)");
    assert_eq!(format_type(&SettingType::List), "List (Strings)");
    assert_eq!(capitalize("appearance"), "Appearance");
    assert_eq!(capitalize(""), "");
    assert_eq!(capitalize("ßig"), "SSig");
    let d = DocsConfig::new().with_title("T").with_description("D").hide_advanced();
    assert_eq!(d.title.as_deref(), Some("T"));
    assert_eq!(d.description.as_deref(), Some("D"));
    assert!(!d.show_advanced);
    assert!(d.group_by_category);
    assert!(DocsConfig::new().show_advanced);
}

#[test]
fn accessor_names() {
    assert_eq!(sanitize_ident_component("Dark Mode"), "dark_mode");
    assert_eq!(sanitize_ident_component("2fa"), "_2fa");
    assert_eq!(sanitize_ident_component(""), "_");
    assert_eq!(sanitize_ident_component("ü"), "_");
    assert_eq!(
        accessor_method_names("ui", "theme"),
        ("ui_theme".to_string(), "set_ui_theme".to_string())
    );
    assert_eq!(accessor_method_names("", "Port"), ("port".to_string(), "set_port".to_string()));
}

#[test]
fn reload_turns() {
    let mut s = ReloadState::start(0);
    let t = s.step(WatchInput::Changed { touches_file: true }, 10, 200);
    assert!(!t.reload && !t.stop);
    let t = s.step(WatchInput::Idle, 100, 200);
    assert!(!t.reload);
    let t = s.step(WatchInput::Idle, 210, 200);
    assert!(t.reload);
    // A change right after the reload is taken for its own write.
    let t = s.step(WatchInput::Changed { touches_file: true }, 300, 0);
    assert!(!t.reload);
    let t = s.step(WatchInput::Idle, 360, 0);
    assert!(t.reload);
    let t = s.step(WatchInput::WatchFailed, 400, 0);
    assert!(t.report_error && !t.reload);
    let t = s.step(WatchInput::Changed { touches_file: false }, 1000, 0);
    assert!(!t.reload);
    let t = s.step(WatchInput::Stop, 1001, 0);
    assert!(t.stop);
    assert!(s.step(WatchInput::Disconnected, 1002, 0).stop);
}

#[test]
fn decimal_numbers() {
    assert_eq!(decimal_text(0), "0");
    assert_eq!(decimal_text(42), "42");
    assert_eq!(decimal_text(u64::MAX), u64::MAX.to_string());
}

#[test]
fn test_event_touches_file_by_path_or_name() {
    let watched = "/tmp/app/settings.json";
    assert!(event_touches_file(&vec!["/tmp/app/settings.json".to_string()], watched));
    assert!(event_touches_file(&vec!["/other/x.txt".to_string(), "/var/settings.json".to_string()], watched));
    assert!(!event_touches_file(&vec!["/tmp/app/other.json".to_string()], watched));
    assert!(!event_touches_file(&vec![], watched));
    assert!(event_touches_file(&vec!["/tmp//app/settings.json".to_string()], watched));
}

#[test]
fn derive_classifies_field_types() {
    assert_eq!(classify_type_name("bool"), TypeInfo::Toggle);
    assert_eq!(classify_type_name("String"), TypeInfo::Text);
    assert_eq!(classify_type_name("PathBuf"), TypeInfo::Path);
    for n in ["i8", "i16", "i32", "i64", "i128", "isize", "u8", "u16", "u32", "u64", "u128", "usize", "f32", "f64"] {
        assert_eq!(classify_type_name(n), TypeInfo::Number);
    }
    assert_eq!(classify_type_name("Vec"), TypeInfo::List);
    assert_eq!(classify_type_name("HashMap"), TypeInfo::Unknown);
    assert_eq!(classify_type_name("MyStruct"), TypeInfo::Unknown);
}

#[test]
fn derive_checks_attributes_by_kind() {
    assert_eq!(validate_field_type_constraints(TypeInfo::Number, true, true, true, false, true, None), Ok(()));
    assert_eq!(
        validate_field_type_constraints(TypeInfo::Number, false, false, false, true, false, None),
        Err("`pattern` is only valid for text settings, not numbers".to_string())
    );
    assert_eq!(
        validate_field_type_constraints(TypeInfo::Path, false, false, true, false, false, None),
        Err("`min/max/step` are only valid for numeric settings, not text".to_string())
    );
    assert_eq!(validate_field_type_constraints(TypeInfo::Text, false, false, false, true, true, None), Ok(()));
    assert_eq!(
        validate_field_type_constraints(TypeInfo::Toggle, false, false, false, false, true, None),
        Err("`options` are only valid for text/number settings, not booleans".to_string())
    );
    assert_eq!(
        validate_field_type_constraints(TypeInfo::List, false, false, false, true, false, None),
        Err("`pattern` is only valid for text settings, not lists".to_string())
    );
    let range = Some("`min` (10) cannot be greater than `max` (1)".to_string());
    assert_eq!(validate_field_type_constraints(TypeInfo::Toggle, true, true, false, true, false, range.clone()), Err(range.unwrap()));
}

#[test]
fn derive_resolves_category_and_key() {
    assert_eq!(resolve_field_category(Some("ui"), Some("general")), Ok("ui".to_string()));
    assert_eq!(resolve_field_category(None, Some("general")), Ok("general".to_string()));
    assert!(resolve_field_category(None, None).unwrap_err().starts_with("Category is required."));
    assert_eq!(setting_key("ui", "theme", None), "ui.theme");
    assert_eq!(setting_key("ui", "theme", Some("colour")), "ui.colour");
    assert_eq!(setting_key("", "theme", None), "theme");
}

#[test]
fn derive_refuses_duplicate_method_names() {
    let mut used = Vec::new();
    assert_eq!(register_method_name(&mut used, "ui_theme"), Ok(()));
    assert_eq!(register_method_name(&mut used, "set_ui_theme"), Ok(()));
    assert_eq!(
        register_method_name(&mut used, "ui_theme"),
        Err("Duplicate generated accessor method name `ui_theme` detected".to_string())
    );
    assert_eq!(used, vec!["ui_theme".to_string(), "set_ui_theme".to_string()]);
}

#[test]
fn derive_plans_accessors() {
    let mut used = Vec::new();
    let p = plan_accessors(&mut used, "UI", "dark-mode", Some("darkMode")).unwrap();
    assert_eq!(p.getter, "ui_dark_mode");
    assert_eq!(p.setter, "set_ui_dark_mode");
    assert_eq!(p.key_name, "darkMode");
    assert_eq!(p.full_key, "UI.darkMode");
    assert!(p.manager_methods);
    let flat = plan_accessors(&mut used, "", "port", None).unwrap();
    assert_eq!(flat.getter, "port");
    assert_eq!(flat.full_key, "port");
    assert!(!flat.manager_methods);
    assert_eq!(used.len(), 4);
    // "ui" + "dark_mode" sanitizes to the same getter
    let clash = plan_accessors(&mut used, "ui", "dark_mode", None);
    assert_eq!(clash.unwrap_err(), "Duplicate generated accessor method name `ui_dark_mode` detected");
    assert_eq!(used.len(), 4);
}

#[test]
fn env_override_reading() {
    assert_eq!(classify_env_override("TRUE"), EnvOverride::Bool(true));
    assert_eq!(classify_env_override("False"), EnvOverride::Bool(false));
    assert_eq!(classify_env_override("42"), EnvOverride::Int(42));
    assert_eq!(classify_env_override("+7"), EnvOverride::Int(7));
    assert_eq!(classify_env_override("-9223372036854775808"), EnvOverride::Int(i64::MIN));
    assert_eq!(classify_env_override("9223372036854775807"), EnvOverride::Int(i64::MAX));
    assert_eq!(classify_env_override("9223372036854775808"), EnvOverride::Other);
    assert_eq!(classify_env_override("-"), EnvOverride::Other);
    assert_eq!(classify_env_override(""), EnvOverride::Other);
    assert_eq!(classify_env_override("1.5"), EnvOverride::Other);
    assert_eq!(classify_env_override("yes"), EnvOverride::Other);
}

#[test]
fn unknown_field_kind_reports_its_range_error() {
    let range = Some("`step` must be positive, got 0".to_string());
    assert_eq!(validate_field_type_constraints(TypeInfo::Unknown, false, false, true, false, false, range.clone()), Err(range.unwrap()));
}
