use rcman::config::SettingType;
use rcman::validation::{kind_of, validate_schema, validate_setting_value, JsonKind};
use serde_json::Value;

fn json(v: Value) -> String {
    v.to_string()
}

#[test]
fn test_text_pattern_validation() {
    let pattern = r"^[\w.-]+@[\w.-]+\.\w+$";
    let check = |v: &str| validate_setting_value(SettingType::Text, Some(pattern), None, &json(Value::from(v)));
    assert!(check("user@example.com").is_ok());
    assert!(check("test.user@domain.org").is_ok());
    let result = check("not-an-email");
    assert!(result.is_err());
    assert_eq!(result.unwrap_err(), r"Value does not match pattern: ^[\w.-]+@[\w.-]+\.\w+$");
}

#[test]
fn test_select_validation() {
    let options = vec![json(Value::from("en")), json(Value::from("tr"))];
    let check = |v: &str| validate_setting_value(SettingType::Select, None, Some(&options), &json(Value::from(v)));
    assert!(check("en").is_ok());
    assert!(check("tr").is_ok());
    assert!(check("invalid").is_err());
}

#[test]
fn test_toggle_validation() {
    let check = |v: Value| validate_setting_value(SettingType::Toggle, None, None, &json(v));
    assert!(check(Value::Bool(true)).is_ok());
    assert!(check(Value::Bool(false)).is_ok());
    assert!(check(Value::from("true")).is_err());
}

#[test]
fn test_list_validation() {
    let check = |v: Value| validate_setting_value(SettingType::List, None, None, &json(v));
    assert!(check(Value::Array(vec![Value::from("one"), Value::from("two")])).is_ok());
    assert!(check(Value::Array(vec![])).is_ok());
    assert!(check(Value::from("not an array")).is_err());
}

#[test]
fn number_kind_is_checked() {
    let check = |v: Value| validate_setting_value(SettingType::Number, None, None, &json(v));
    assert!(check(Value::from(8080)).is_ok());
    assert!(check(Value::from(-1.5)).is_ok());
    assert_eq!(check(Value::from("not a number")), Err("Value must be a number".to_string()));
}

#[test]
fn invalid_pattern_is_reported() {
    let r = validate_setting_value(SettingType::Text, Some("(unclosed"), None, &json(Value::from("x")));
    assert!(r.unwrap_err().starts_with("Invalid regex pattern: "));
}

#[test]
fn pattern_against_non_string_matches_empty_text() {
    assert!(validate_setting_value(SettingType::Text, Some("^$"), None, "42").is_ok());
    assert!(validate_setting_value(SettingType::Text, Some("^a"), None, "42").is_err());
}

#[test]
fn info_and_unconstrained_accept_anything() {
    assert!(validate_setting_value(SettingType::Info, None, None, "{}").is_ok());
    assert!(validate_setting_value(SettingType::Text, None, None, "[1]").is_ok());
    assert!(validate_setting_value(SettingType::Select, None, None, "null").is_ok());
}

#[test]
fn json_kinds() {
    assert_eq!(kind_of("null"), JsonKind::Null);
    assert_eq!(kind_of("true"), JsonKind::Bool);
    assert_eq!(kind_of("\"s\""), JsonKind::Str);
    assert_eq!(kind_of("[1]"), JsonKind::Array);
    assert_eq!(kind_of("{\"a\":1}"), JsonKind::Object);
    assert_eq!(kind_of("-3"), JsonKind::Number);
}

fn range_problem(min: f64, max: f64) -> Option<String> {
    if min > max {
        Some(format!("min ({min}) cannot be greater than max ({max})"))
    } else {
        None
    }
}

#[test]
fn test_schema_validation() {
    // Valid schema: a number 50 within 0..=100
    let valid = validate_schema(SettingType::Number, None, None, &json(Value::from(50.0)), range_problem(0.0, 100.0), None);
    assert!(valid.is_ok());

    // Invalid: min > max
    let invalid_range =
        validate_schema(SettingType::Number, None, None, &json(Value::from(50.0)), range_problem(100.0, 0.0), None);
    assert!(invalid_range.is_err());

    // Invalid: select without options
    let invalid_select = validate_schema(SettingType::Select, None, None, &json(Value::from("test")), None, None);
    assert!(invalid_select.is_err());
}

#[test]
fn schema_validation_messages_in_order() {
    let r = validate_schema(SettingType::Select, None, None, "\"x\"", Some("bad range".to_string()), None);
    assert_eq!(r, Err("Select type must have options defined".to_string()));
    let r = validate_schema(SettingType::Number, None, None, "1", Some("bad range".to_string()), None);
    assert_eq!(r, Err("bad range".to_string()));
    let r = validate_schema(SettingType::Text, Some("("), None, "\"x\"", None, None);
    assert!(r.unwrap_err().starts_with("Invalid regex pattern: "));
    let r = validate_schema(SettingType::Text, Some(""), None, "\"x\"", None, None);
    assert_eq!(r, Err("Pattern cannot be empty string".to_string()));
    let r = validate_schema(SettingType::Toggle, None, None, "\"x\"", None, None);
    assert_eq!(r, Err("Default value is invalid: Value must be a boolean".to_string()));
    let r = validate_schema(SettingType::Number, None, None, "500", None, Some("Value must be at most 100".to_string()));
    assert_eq!(r, Err("Default value is invalid: Value must be at most 100".to_string()));
    let r = validate_schema(SettingType::Text, None, None, "\"x\"", None, Some("ignored".to_string()));
    assert_eq!(r, Ok(()));
}
