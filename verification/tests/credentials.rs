use rcman::credentials::manager::{parse_tracked_list, TRACKED_SECRETS_KEY};
use rcman::credentials::{CredentialBackend, CredentialManager, MemoryBackend};
use rcman::Error;

struct FailingBackend;

impl CredentialBackend for FailingBackend {
    fn store(&mut self, _key: &str, _value: &str) -> Result<(), Error> {
        Err(Error::Credential("primary store failed".to_string()))
    }

    fn get(&self, _key: &str) -> Result<Option<String>, Error> {
        Err(Error::Credential("primary get failed".to_string()))
    }

    fn remove(&mut self, _key: &str) -> Result<(), Error> {
        Err(Error::Credential("primary remove failed".to_string()))
    }

    fn list_keys(&self) -> Result<Vec<String>, Error> {
        Ok(Vec::new())
    }

    fn backend_name(&self) -> &'static str {
        "failing"
    }
}

#[test]
fn test_memory_store_and_get() {
    let mut backend = MemoryBackend::new();

    backend.store("key1", "value1").unwrap();
    backend.store("key2", "value2").unwrap();

    assert_eq!(backend.get("key1").unwrap(), Some("value1".to_string()));
    assert_eq!(backend.get("key2").unwrap(), Some("value2".to_string()));
    assert_eq!(backend.get("key3").unwrap(), None);
}

#[test]
fn test_memory_remove() {
    let mut backend = MemoryBackend::new();

    backend.store("key", "value").unwrap();
    assert!(backend.exists_key("key").unwrap());

    backend.remove("key").unwrap();
    assert!(!backend.exists_key("key").unwrap());
}

#[test]
fn test_memory_list_keys() {
    let mut backend = MemoryBackend::new();

    backend.store("a", "1").unwrap();
    backend.store("b", "2").unwrap();

    let mut keys = backend.list_keys().unwrap();
    keys.sort();
    assert_eq!(keys, vec!["a", "b"]);
}

#[test]
fn memory_store_replaces_value() {
    let mut backend = MemoryBackend::new();
    backend.store("k", "1").unwrap();
    backend.store("k", "2").unwrap();
    assert_eq!(backend.get("k").unwrap(), Some("2".to_string()));
    assert_eq!(backend.list_keys().unwrap(), vec!["k".to_string()]);
    backend.remove("absent").unwrap();
    assert_eq!(backend.backend_name(), "memory");
}

#[test]
fn test_memory_backend_crud() {
    let mut manager = CredentialManager::memory_only("test-app");

    // Store
    manager.store("api_key", "secret123").unwrap();
    assert!(manager.exists_key("api_key"));

    // Get
    let value = manager.get("api_key").unwrap();
    assert_eq!(value, Some("secret123".to_string()));

    // Remove
    manager.remove("api_key").unwrap();
    assert!(!manager.exists_key("api_key"));
}

#[test]
fn test_credential_not_found() {
    let mut manager = CredentialManager::memory_only("test-app");
    let value = manager.get("nonexistent").unwrap();
    assert_eq!(value, None);
}

#[test]
fn test_fallback_used_when_primary_backend_fails() {
    let mut manager = CredentialManager::with_fallback("test-app", FailingBackend, MemoryBackend::new());

    manager.remove("api_key").unwrap();
    assert_eq!(manager.get("api_key").unwrap(), None);
}

#[test]
fn test_sticky_fallback_is_remembered() {
    let mut manager = CredentialManager::with_fallback("test-app", FailingBackend, MemoryBackend::new());

    // Initially not failed
    assert!(!manager.is_primary_failed());

    // Operation triggers failure and sticky flag
    manager.store("key1", "val1").unwrap();
    assert!(manager.is_primary_failed());

    // Subsequent operation doesn't even call primary (already marked as failed)
    manager.get("key1").unwrap();
    assert!(manager.is_primary_failed());
}

#[test]
fn test_clear_with_profile_context_is_scoped() {
    let mut manager = CredentialManager::memory_only("test-app");

    manager.store_with_profile("api_key", "default-secret", Some("default")).unwrap();
    manager.store_with_profile("api_key", "work-secret", Some("work")).unwrap();
    manager.store("global_key", "global-secret").unwrap();

    let mut work_manager = manager.with_profile_context("work");
    work_manager.clear().unwrap();
    let mut manager = work_manager.without_profile_context();

    assert_eq!(manager.get_with_profile("api_key", Some("work")).unwrap(), None);
    assert_eq!(
        manager.get_with_profile("api_key", Some("default")).unwrap(),
        Some("default-secret".to_string())
    );
    assert_eq!(manager.get("global_key").unwrap(), Some("global-secret".to_string()));
}

#[test]
fn test_clear_without_profile_context_removes_all_scopes() {
    let mut manager = CredentialManager::memory_only("test-app");

    manager.store_with_profile("api_key", "default-secret", Some("default")).unwrap();
    manager.store_with_profile("api_key", "work-secret", Some("work")).unwrap();
    manager.store("global_key", "global-secret").unwrap();

    manager.clear().unwrap();

    assert_eq!(manager.get_with_profile("api_key", Some("default")).unwrap(), None);
    assert_eq!(manager.get_with_profile("api_key", Some("work")).unwrap(), None);
    assert_eq!(manager.get("global_key").unwrap(), None);
}

#[test]
fn test_ultimate_memory_fallback() {
    let mut manager = CredentialManager::with_fallback("test-app", FailingBackend, FailingBackend);

    // Even though persistent backends fail, store should succeed using volatile memory
    manager.store("api_key", "top-secret").unwrap();
    assert!(manager.is_volatile_active());

    // Retrieve from volatile memory
    assert_eq!(manager.get("api_key").unwrap(), Some("top-secret".to_string()));

    // Cleanup should also pass
    manager.remove("api_key").unwrap();
    assert_eq!(manager.get("api_key").unwrap(), None);
    assert!(!manager.is_volatile_active());
}

#[test]
fn profile_context_namespaces_keys() {
    let manager = CredentialManager::memory_only("svc");
    assert_eq!(manager.service_name(), "svc");
    let mut work = manager.with_profile_context("work");
    work.store("k", "w").unwrap();
    assert_eq!(work.get("k").unwrap(), Some("w".to_string()));
    assert_eq!(work.get_with_profile("k", Some("work")).unwrap(), Some("w".to_string()));
    let mut global = work.without_profile_context();
    assert_eq!(global.get("k").unwrap(), None);
    assert_eq!(global.backend_name(), "memory");
}

#[test]
fn fallback_backend_name_after_failure() {
    let mut manager = CredentialManager::with_fallback("svc", FailingBackend, MemoryBackend::new());
    assert_eq!(manager.backend_name(), "failing");
    manager.store("k", "v").unwrap();
    assert_eq!(manager.backend_name(), "memory");
    assert!(!manager.is_volatile_active());
}

#[test]
fn tracked_secrets_lifecycle() {
    let mut manager = CredentialManager::memory_only("svc");
    assert!(manager.get_tracked_secrets(None).unwrap().is_empty());
    manager.add_tracked_secret("a", None).unwrap();
    manager.add_tracked_secret("b", None).unwrap();
    manager.add_tracked_secret("a", None).unwrap();
    manager.add_tracked_secret("x", Some("work")).unwrap();
    let mut global = manager.get_tracked_secrets(None).unwrap();
    global.sort();
    assert_eq!(global, vec!["a".to_string(), "b".to_string()]);
    assert_eq!(manager.get_tracked_secrets(Some("work")).unwrap(), vec!["x".to_string()]);

    // The list is persisted as JSON under the reserved key.
    let stored = manager.get(TRACKED_SECRETS_KEY).unwrap().unwrap();
    assert_eq!(stored, "[\"a\",\"b\"]");

    // Reading it back from the store after the cache is dropped.
    manager.invalidate_tracked_secrets_cache().unwrap();
    let mut again = manager.get_tracked_secrets(None).unwrap();
    again.sort();
    assert_eq!(again, vec!["a".to_string(), "b".to_string()]);

    manager.remove_tracked_secret("a", None).unwrap();
    assert_eq!(manager.get_tracked_secrets(None).unwrap(), vec!["b".to_string()]);
    manager.remove_tracked_secret("zzz", None).unwrap();
    assert_eq!(manager.get_tracked_secrets(None).unwrap(), vec!["b".to_string()]);

    manager.clear_tracked_secrets_cache(None).unwrap();
    assert!(manager.get_tracked_secrets(None).unwrap().is_empty());
}

#[test]
fn tracked_list_parsing() {
    assert_eq!(parse_tracked_list(None).unwrap(), Vec::<String>::new());
    let mut v = parse_tracked_list(Some("[\"b\",\"a\",\"b\"]".to_string())).unwrap();
    v.sort();
    assert_eq!(v, vec!["a".to_string(), "b".to_string()]);
    match parse_tracked_list(Some("not json".to_string())) {
        Err(Error::Credential(m)) => assert!(m.starts_with("Failed to parse tracked secrets list: ")),
        other => panic!("unexpected {other:?}"),
    }

    let mut manager = CredentialManager::memory_only("svc");
    manager.store(TRACKED_SECRETS_KEY, "{oops").unwrap();
    assert!(matches!(manager.get_tracked_secrets(None), Err(Error::Credential(_))));
}
