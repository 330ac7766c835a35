//! Tests of the registry, its persisted document, and loading.

use devbox::codec::{encode_registry, load_registry, parse_registry};
use devbox::errors::DevboxError;
use devbox::registry::HostRegistry;

fn sample_registry() -> HostRegistry {
    let mut reg = HostRegistry::new();
    reg.set_containers(
        "hostA".to_string(),
        vec!["web".to_string(), "db".to_string()],
    );
    reg.set_containers("hostB".to_string(), Vec::new());
    reg
}

fn assert_same_entries(a: &HostRegistry, b: &HostRegistry) {
    assert_eq!(a.entries.len(), b.entries.len());
    for i in 0..a.entries.len() {
        assert_eq!(a.entries[i].host, b.entries[i].host);
        assert_eq!(a.entries[i].containers, b.entries[i].containers);
    }
}

#[test]
fn round_trip_preserves_entries() {
    let reg = sample_registry();
    let doc = encode_registry(&reg);
    let back = parse_registry(doc.as_str()).expect("saved document must load");
    assert_same_entries(&reg, &back);
}

#[test]
fn round_trip_preserves_awkward_names() {
    let mut reg = HostRegistry::new();
    reg.set_containers(
        "ho\"st\\A".to_string(),
        vec!["we\nb".to_string(), "d\tb\r".to_string(), String::new()],
    );
    let doc = encode_registry(&reg);
    let back = parse_registry(doc.as_str()).expect("saved document must load");
    assert_same_entries(&reg, &back);
}

#[test]
fn empty_registry_document_is_fixed() {
    let reg = HostRegistry::new();
    let doc = encode_registry(&reg);
    assert_eq!(doc, "{\"containers\":{}}");
    let back = parse_registry(doc.as_str()).expect("saved document must load");
    assert_eq!(back.entries.len(), 0);
}

#[test]
fn init_twice_with_same_list_leaves_registry_unchanged() {
    let mut reg = sample_registry();
    let before = encode_registry(&reg);
    reg.set_containers(
        "hostA".to_string(),
        vec!["web".to_string(), "db".to_string()],
    );
    let after = encode_registry(&reg);
    assert_eq!(before, after);
}

#[test]
fn init_replaces_instead_of_merging() {
    let mut reg = HostRegistry::new();
    reg.set_containers(
        "host-A".to_string(),
        vec!["old1".to_string(), "old2".to_string()],
    );
    reg.set_containers("host-A".to_string(), vec!["new".to_string()]);
    assert_eq!(reg.entries.len(), 1);
    let got = reg.get(&"host-A".to_string()).expect("host must be stored");
    assert_eq!(got, &vec!["new".to_string()]);
}

#[test]
fn missing_file_loads_as_empty_registry() {
    let loaded = load_registry(None).expect("a missing file is not an error");
    assert_eq!(loaded.entries.len(), 0);
}

#[test]
fn corrupted_file_is_data_corruption() {
    for bad in [
        "",
        "not a document",
        "{\"containers\":",
        "{\"containers\":{}} trailing",
        "{\"containers\":{\"a\":[\"x\"]}",
        "{\"wrong\":{}}",
        "{\"containers\":{\"a\":[\"bad\\escape\"]}}",
    ] {
        let owned = bad.to_string();
        let r = load_registry(Some(&owned));
        assert_eq!(r.unwrap_err(), DevboxError::DataCorruption);
    }
}

#[test]
fn duplicate_hosts_are_data_corruption() {
    let doc = "{\"containers\":{\"a\":[\"x\"],\"a\":[\"y\"]}}".to_string();
    let r = load_registry(Some(&doc));
    assert_eq!(r.unwrap_err(), DevboxError::DataCorruption);
}

#[test]
fn get_unknown_host_is_none() {
    let reg = sample_registry();
    assert!(reg.get(&"nowhere".to_string()).is_none());
}

#[test]
fn error_messages_are_fixed_lines() {
    assert_eq!(
        DevboxError::IOError.message(),
        "local file read or write failed"
    );
    assert_eq!(
        DevboxError::DataCorruption.message(),
        "stored registry file is not valid"
    );
    assert_eq!(
        DevboxError::RemoteCommandError.message(),
        "remote command failed over SSH"
    );
    assert_eq!(DevboxError::NotFound.message(), "expected value was empty");
}
