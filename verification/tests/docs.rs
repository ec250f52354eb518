use rcman::config::SettingType;
use rcman::docs::{doc_order, generate_docs, render_docs, DocEntry, DocOption, DocsConfig};

fn entry(key: &str, setting_type: SettingType, default_value: &str) -> DocEntry {
    DocEntry {
        key: key.to_string(),
        category: None,
        order: None,
        advanced: false,
        requires_restart: false,
        secret: false,
        disabled: false,
        description: None,
        setting_type,
        default_value: default_value.to_string(),
        range: None,
        step: None,
        pattern: None,
        options: None,
    }
}

fn option(value: &str, label: &str) -> DocOption {
    DocOption { value: value.to_string(), label: label.to_string(), description: None }
}

/// The settings of the schema used by the docs tests: a theme select, a
/// port number and an advanced secret API key.
fn test_settings() -> Vec<DocEntry> {
    let mut theme = entry("appearance.theme", SettingType::Select, "\"system\"");
    theme.category = Some("appearance".to_string());
    theme.description = Some("Choose your preferred color theme".to_string());
    theme.order = Some(1);
    theme.options = Some(vec![
        option("\"light\"", "Light"),
        option("\"dark\"", "Dark"),
        option("\"system\"", "System Default"),
    ]);

    let mut port = entry("network.port", SettingType::Number, "8080.0");
    port.category = Some("network".to_string());
    port.range = Some(("1".to_string(), "65535".to_string()));
    port.description = Some("Server port number".to_string());

    let mut key = entry("security.api_key", SettingType::Text, "\"\"");
    key.category = Some("security".to_string());
    key.advanced = true;
    key.secret = true;

    vec![key, port, theme]
}

#[test]
fn test_generate_docs() {
    let docs = generate_docs(
        test_settings(),
        DocsConfig::new().with_title("My App Settings").with_description("Configuration options for My App"),
    );

    assert!(docs.contains("# My App Settings"));
    assert!(docs.contains("## Appearance"));
    assert!(docs.contains("## Network"));
    assert!(docs.contains("## Security"));
    assert!(docs.contains("`appearance.theme`"));
    assert!(docs.contains("Secret"));
    assert!(docs.contains("Advanced"));
}

#[test]
fn test_hide_advanced() {
    let docs = generate_docs(test_settings(), DocsConfig::new().hide_advanced());

    // Should not contain the advanced setting
    assert!(!docs.contains("security.api_key"));
    // Should contain non-advanced settings
    assert!(docs.contains("appearance.theme"));
}

#[test]
fn docs_order_and_sections() {
    let mut a = entry("b.second", SettingType::Toggle, "false");
    a.category = Some("b".to_string());
    a.order = Some(2);
    let mut b = entry("b.first", SettingType::Toggle, "true");
    b.category = Some("b".to_string());
    b.order = Some(1);
    let c = entry("zeta", SettingType::Info, "null");
    let ordered = doc_order(vec![c, a, b], true);
    let keys: Vec<&str> = ordered.iter().map(|e| e.key.as_str()).collect();
    // "General" sorts before "b": uppercase letters come first.
    assert_eq!(keys, vec!["zeta", "b.first", "b.second"]);

    let one = vec![entry("x", SettingType::Toggle, "true")];
    let flat = DocsConfig { title: None, description: None, show_advanced: true, group_by_category: false };
    assert_eq!(
        render_docs(&flat, &one),
        "# Settings Reference\n\n## Settings\n\n### `x`\n\n| Property | Value |\n|----------|-------|\n| **Type** | Boolean |\n| **Default** | `true` |\n\n---\n\n"
    );

    let mut n = entry("n.port", SettingType::Number, "1");
    n.category = Some("net".to_string());
    n.range = Some(("0".to_string(), "9".to_string()));
    n.step = Some("1".to_string());
    n.requires_restart = true;
    n.disabled = true;
    n.pattern = Some("^\\d$".to_string());
    n.options = Some(vec![DocOption { value: "1".into(), label: "One".into(), description: Some("first".into()) }]);
    let text = render_docs(&DocsConfig::new(), &vec![n]);
    assert_eq!(
        text,
        "# Settings Reference\n\n\n## Net\n\n### `n.port`\n\nRequires Restart • Disabled\n\n| Property | Value |\n|----------|-------|\n| **Type** | Number |\n| **Default** | `1` |\n| **Range** | 0 - 9 |\n| **Step** | 1 |\n| **Pattern** | `^\\d$` |\n\n**Options:**\n\n- `1` - One (first)\n\n---\n\n"
    );
}
