use rcman::profiles::{validate_profile_name, ProfileEvent, ProfileManifest};
use rcman::Error;

#[test]
fn test_valid_profile_names() {
    assert!(validate_profile_name("default").is_ok());
    assert!(validate_profile_name("work").is_ok());
    assert!(validate_profile_name("my-profile").is_ok());
    assert!(validate_profile_name("profile_123").is_ok());
    assert!(validate_profile_name("Work").is_ok());
    assert!(validate_profile_name("PROD").is_ok());

    // Spaces and special characters are allowed.
    assert!(validate_profile_name("Test 1").is_ok());
    assert!(validate_profile_name("My Backend!").is_ok());
    assert!(validate_profile_name("NAS #2").is_ok());
    assert!(validate_profile_name("Work (Personal)").is_ok());
    assert!(validate_profile_name("Backend @ Home").is_ok());
}

#[test]
fn test_invalid_profile_names() {
    assert!(validate_profile_name("").is_err()); // Empty
    assert!(validate_profile_name(".hidden").is_err()); // Starts with dot
    assert!(validate_profile_name("path/to").is_err()); // Path separator
    assert!(validate_profile_name("path\\to").is_err()); // Path separator
    assert!(validate_profile_name("..").is_err()); // Path traversal
    assert!(validate_profile_name("has\nnewline").is_err()); // Control char
    assert!(validate_profile_name("has\ttab").is_err()); // Control char
}

fn names(m: &ProfileManifest) -> Vec<String> {
    m.profiles.clone()
}

#[test]
fn test_create_profile() {
    let mut manifest = ProfileManifest::new();

    manifest.apply_create("work").unwrap();

    let profiles = names(&manifest);
    assert!(profiles.contains(&"default".to_string()));
    assert!(profiles.contains(&"work".to_string()));
}

#[test]
fn test_switch_profile() {
    let mut manifest = ProfileManifest::new();

    manifest.apply_create("work").unwrap();
    manifest.apply_switch("work").unwrap();

    assert_eq!(manifest.active, "work");
}

#[test]
fn test_switch_nonexistent_profile() {
    let mut manifest = ProfileManifest::new();

    let result = manifest.apply_switch("nonexistent");
    assert!(matches!(result, Err(Error::ProfileNotFound(_))));
}

#[test]
fn test_delete_profile() {
    let mut manifest = ProfileManifest::new();

    manifest.apply_create("work").unwrap();
    manifest.apply_delete("work").unwrap();

    let profiles = names(&manifest);
    assert!(!profiles.contains(&"work".to_string()));
}

#[test]
fn test_cannot_delete_active_profile() {
    let mut manifest = ProfileManifest::new();

    let result = manifest.apply_delete("default");
    assert!(matches!(result, Err(Error::CannotDeleteActiveProfile(_))));
}

#[test]
fn test_cannot_delete_last_profile() {
    let mut manifest = ProfileManifest::new();

    manifest.apply_create("work").unwrap();
    manifest.apply_switch("work").unwrap();
    manifest.apply_delete("default").unwrap();

    // Now only "work" remains
    let result = manifest.apply_delete("work");
    assert!(matches!(result, Err(Error::CannotDeleteActiveProfile(_))));
}

#[test]
fn test_rename_profile() {
    let mut manifest = ProfileManifest::new();

    manifest.apply_create("old").unwrap();
    manifest.apply_rename("old", "new").unwrap();

    let profiles = names(&manifest);
    assert!(!profiles.contains(&"old".to_string()));
    assert!(profiles.contains(&"new".to_string()));
}

#[test]
fn test_profile_already_exists() {
    let mut manifest = ProfileManifest::new();

    manifest.apply_create("work").unwrap();
    let result = manifest.apply_create("work");
    assert!(matches!(result, Err(Error::ProfileAlreadyExists(_))));
}

#[test]
fn test_event_callback() {
    let mut manifest = ProfileManifest::new();
    let mut events = Vec::new();

    events.push(manifest.apply_create("work").unwrap());
    events.extend(manifest.apply_switch("work").unwrap());
    events.push(manifest.apply_rename("work", "job").unwrap());

    assert_eq!(events.len(), 3);
    assert_eq!(
        events[1],
        ProfileEvent::Switched { from: "default".to_string(), to: "work".to_string() }
    );
    assert_eq!(manifest.active, "job");
}

#[test]
fn switching_to_active_profile_is_silent() {
    let mut manifest = ProfileManifest::new();
    assert_eq!(manifest.apply_switch("default").unwrap(), None);
}

#[test]
fn duplicate_profile_adds_target() {
    let mut manifest = ProfileManifest::new();
    let ev = manifest.apply_duplicate("default", "copy").unwrap();
    assert_eq!(ev, ProfileEvent::Duplicated { source: "default".to_string(), target: "copy".to_string() });
    assert_eq!(names(&manifest), vec!["default".to_string(), "copy".to_string()]);
    assert!(matches!(manifest.apply_duplicate("missing", "x"), Err(Error::ProfileNotFound(_))));
    assert!(matches!(manifest.apply_duplicate("default", "copy"), Err(Error::ProfileAlreadyExists(_))));
    assert!(matches!(manifest.apply_duplicate("default", "a/b"), Err(Error::InvalidProfileName(_))));
}

#[test]
fn manifest_primitives() {
    let mut m = ProfileManifest::new();
    assert!(m.has_profile("default"));
    assert!(!m.set_active("nope"));
    m.add_profile("b".to_string());
    assert!(m.rename_profile("b", "c".to_string()));
    assert!(!m.rename_profile("b", "d".to_string()));
    assert!(m.remove_profile("c"));
    assert!(!m.remove_profile("c"));
    let d = ProfileManifest::default();
    assert_eq!(m.profiles, d.profiles);
    assert_eq!(m.active, d.active);
}

#[test]
fn delete_undoes_create() {
    let mut m = ProfileManifest::new();
    m.apply_create("work").unwrap();
    m.apply_create("home").unwrap();
    let before = m.clone();
    m.apply_create("temp").unwrap();
    m.apply_delete("temp").unwrap();
    assert_eq!(m.profiles, before.profiles);
    assert_eq!(m.active, before.active);
}
