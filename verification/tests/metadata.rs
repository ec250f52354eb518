use rcman::config::SettingType;
use rcman::docs::{doc_entry, format_value, generate_docs, DocsConfig};
use rcman::meta;
use rcman::metadata::{get_categories, opt, SettingMetadata, SettingOption};
use serde_json::Value;

fn parsed(text: &str) -> Value {
    serde_json::from_str(text).unwrap()
}

#[test]
fn test_setting_metadata_builder() {
    let setting = SettingMetadata::toggle(true)
        .meta_str("label", "Dark Mode")
        .meta_str("description", "Enable dark theme")
        .meta_str("category", "appearance")
        .meta("order", &Value::from(1.0).to_string());

    assert_eq!(setting.setting_type, SettingType::Toggle);
    assert_eq!(parsed(&setting.default), Value::Bool(true));
    assert_eq!(setting.get_meta_str("label"), Some("Dark Mode".to_string()));
    assert_eq!(setting.get_meta_str("description"), Some("Enable dark theme".to_string()));
    assert_eq!(setting.get_meta_str("category"), Some("appearance".to_string()));
    assert_eq!(setting.get_meta("order").map(|t| parsed(&t).as_f64()), Some(Some(1.0)));
}

#[test]
fn test_select_setting() {
    let options = vec![
        SettingOption::new("en", "English"),
        SettingOption::new("tr", "Turkish"),
        SettingOption::new("de", "German"),
    ];

    let setting = SettingMetadata::select("en", options);

    assert_eq!(setting.setting_type, SettingType::Select);
    assert_eq!(setting.constraints.options.as_ref().unwrap().len(), 3);
}

#[test]
fn test_path_setting() {
    let setting = SettingMetadata::text("/home/user/.config")
        .meta_str("label", "Config Directory")
        .meta_str("description", "Directory for configuration files")
        .meta_str("input_type", "path");

    assert_eq!(setting.setting_type, SettingType::Text);
    assert_eq!(parsed(&setting.default), Value::String("/home/user/.config".into()));
    assert_eq!(setting.get_meta_str("label"), Some("Config Directory".to_string()));
    assert_eq!(setting.get_meta_str("input_type"), Some("path".to_string()));
}

#[test]
fn test_file_setting() {
    let setting = SettingMetadata::text("/etc/app/config.json")
        .meta_str("label", "Config File")
        .meta_str("input_type", "file");

    assert_eq!(setting.setting_type, SettingType::Text);
    assert_eq!(parsed(&setting.default), Value::String("/etc/app/config.json".into()));
    assert_eq!(setting.get_meta_str("input_type"), Some("file".to_string()));
}

#[test]
fn test_list_setting() {
    let default_items = vec!["item1".to_string(), "item2".to_string()];
    let setting = SettingMetadata::list(&default_items)
        .meta_str("label", "Tags")
        .meta_str("description", "List of tags")
        .meta_str("category", "metadata");

    assert_eq!(setting.setting_type, SettingType::List);
    assert_eq!(parsed(&setting.default), Value::from(default_items));
    assert_eq!(setting.get_meta_str("label"), Some("Tags".to_string()));
}

#[test]
fn test_custom_metadata() {
    let mut obj = serde_json::Map::new();
    obj.insert("key".to_string(), Value::from("value"));
    let obj = Value::Object(obj);
    let setting = SettingMetadata::text("default")
        .meta_str("label", "My Setting")
        .meta_bool("requires_restart", true)
        .meta_bool("advanced", true)
        .meta_str("deprecated_since", "2.0")
        .meta("priority", &Value::from(10.0).to_string())
        .meta("custom_obj", &obj.to_string());

    assert_eq!(setting.get_meta_str("label"), Some("My Setting".to_string()));
    assert_eq!(setting.get_meta_bool("requires_restart"), Some(true));
    assert_eq!(setting.get_meta_bool("advanced"), Some(true));
    assert_eq!(setting.get_meta_str("deprecated_since"), Some("2.0".to_string()));
    assert_eq!(setting.get_meta("priority").map(|t| parsed(&t).as_f64()), Some(Some(10.0)));
    assert_eq!(setting.get_meta("custom_obj").map(|t| parsed(&t)), Some(obj));
}

#[test]
fn metadata_getters_distinguish_kinds() {
    let setting = SettingMetadata::default().meta_bool("flag", false).meta_str("name", "x");
    assert_eq!(setting.get_meta_bool("flag"), Some(false));
    assert_eq!(setting.get_meta_str("flag"), None);
    assert_eq!(setting.get_meta_bool("name"), None);
    assert_eq!(setting.get_meta_str("missing"), None);
    assert_eq!(setting.default, "null");
    assert!(!setting.is_secret());
    let secret = setting.secret();
    assert!(secret.is_secret());
    assert_eq!(secret.get_meta(meta::SECRET), Some("true".to_string()));
}

#[test]
fn metadata_becomes_schema_setting() {
    let setting = SettingMetadata::select("en", vec![opt("en", "English"), opt("tr", "Turkish")]).secret();
    let s = setting.schema_setting("general.language");
    assert_eq!(s.full_key, "general.language");
    assert!(s.secret);
    assert_eq!(s.default, "\"en\"");
    assert_eq!(s.setting_type, SettingType::Select);
    assert_eq!(s.options, Some(vec!["\"en\"".to_string(), "\"tr\"".to_string()]));
    let text = SettingMetadata::text("a").pattern("^a$").schema_setting("x.y");
    assert_eq!(text.pattern, Some("^a$".to_string()));
    assert_eq!(text.options, None);
    assert!(!text.secret);
}

#[test]
fn categories_sorted_once() {
    let metas = vec![
        SettingMetadata::toggle(true).meta_str("category", "ui"),
        SettingMetadata::toggle(true).meta_str("category", "network"),
        SettingMetadata::toggle(true),
        SettingMetadata::toggle(true).meta_str("category", "ui"),
        SettingMetadata::toggle(true).meta_str("category", "Advanced"),
    ];
    assert_eq!(get_categories(&metas), vec!["Advanced".to_string(), "network".to_string(), "ui".to_string()]);
    assert!(get_categories(&vec![]).is_empty());
}

#[test]
fn docs_from_metadata_entry() {
    assert_eq!(format_value("\"dark\""), "\"dark\"");
    assert_eq!(format_value("\"a\\\"b\""), "\"a\"b\"");
    assert_eq!(format_value("true"), "true");
    assert_eq!(format_value(&Value::from(vec![1, 2]).to_string()), "[1,2]");

    let theme = SettingMetadata::select(
        "dark",
        vec![SettingOption::with_description("light", "Light", "Bright"), opt("dark", "Dark")],
    )
    .meta_str("category", "appearance")
    .meta_str("description", "Colour theme")
    .meta_bool("requires_restart", true);
    let entry = doc_entry("appearance.theme", &theme, Some(1), None, None);
    assert_eq!(entry.key, "appearance.theme");
    assert_eq!(entry.category, Some("appearance".to_string()));
    assert_eq!(entry.order, Some(1));
    assert!(entry.requires_restart);
    assert!(!entry.advanced && !entry.secret && !entry.disabled);
    assert_eq!(entry.description, Some("Colour theme".to_string()));
    assert_eq!(entry.default_value, "\"dark\"");
    let options = entry.options.clone().unwrap();
    assert_eq!(options.len(), 2);
    assert_eq!(options[0].value, "\"light\"");
    assert_eq!(options[0].description, Some("Bright".to_string()));

    let docs = generate_docs(vec![entry], DocsConfig::new());
    assert!(docs.contains("## Appearance"));
    assert!(docs.contains("`appearance.theme`"));
    assert!(docs.contains("Requires Restart"));
    assert!(docs.contains("- `\"light\"` - Light (Bright)"));
}

#[test]
fn json_text_of_strings_and_lists() {
    assert_eq!(SettingMetadata::text("a\"b\\c\n\t\r\u{8}\u{c}\u{1}\u{1f}é").default, "\"a\\\"b\\\\c\\n\\t\\r\\b\\f\\u0001\\u001fé\"");
    assert_eq!(SettingMetadata::list(&vec!["a".to_string(), "b,c".to_string()]).default, "[\"a\",\"b,c\"]");
    assert_eq!(SettingMetadata::list(&vec![]).default, "[]");
}
