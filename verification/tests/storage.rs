use rcman::storage::{is_valid_identifier, JsonStorage, SqliteStorage, DEFAULT_KEY, DEFAULT_TABLE};

#[test]
fn extension_is_db() {
    assert_eq!(SqliteStorage::new().extension(), "db");
}

#[test]
fn identifier_validation() {
    assert!(is_valid_identifier("rcman_settings"));
    assert!(is_valid_identifier("_private"));
    assert!(is_valid_identifier("abc_123"));
    assert!(!is_valid_identifier(""));
    assert!(!is_valid_identifier("1leads_with_digit"));
    assert!(!is_valid_identifier("has space"));
    assert!(!is_valid_identifier("has;sql;injection"));
    assert!(!is_valid_identifier("quoted\"name"));
}

#[test]
fn invalid_table_name_keeps_default() {
    let storage = SqliteStorage::new().with_table("valid name with spaces");
    assert_eq!(storage.table_name(), DEFAULT_TABLE);
    let storage = storage.with_table("custom_table").with_key("alpha");
    assert_eq!(storage.table_name(), "custom_table");
    assert_eq!(storage.key(), "alpha");
    assert_eq!(SqliteStorage::default().key(), DEFAULT_KEY);
    assert!(!is_valid_identifier("naïve"));
}

#[test]
fn sql_statements_name_the_table() {
    let storage = SqliteStorage::new().with_table("t1");
    assert_eq!(storage.select_sql(), "SELECT data FROM t1 WHERE key = ?1");
    assert!(storage.create_table_sql().starts_with("CREATE TABLE IF NOT EXISTS t1 ("));
    assert!(storage.upsert_sql().starts_with("INSERT INTO t1 (key, data) VALUES (?1, ?2)"));
    let copy = storage.clone();
    assert_eq!(copy.table_name(), "t1");
}

#[test]
fn json_storage_options() {
    assert!(JsonStorage::new().is_pretty());
    assert!(!JsonStorage::compact().is_pretty());
    assert!(!JsonStorage::default().is_pretty());
    assert_eq!(JsonStorage::new().extension(), "json");
}
