use cambium::error::CambiumError;
use cambium::manifest::{Manifest, ManifestFile};
use cambium::string_set::StringSet;

fn set(items: &[&str]) -> StringSet {
    let items: Vec<String> = items.iter().map(|s| s.to_string()).collect();
    StringSet::from_vec(&items)
}

#[test]
fn missing_manifest_yields_empty_last_synced() {
    let m = Manifest::default();
    assert!(m.last_synced("myrealm", "alice").is_empty());
}

#[test]
fn set_then_get_round_trips() {
    let mut m = Manifest::default();
    let roles = set(&["nx-developer", "nx-admin"]);
    m.set_synced("myrealm", "alice", &roles);
    assert_eq!(m.last_synced("myrealm", "alice"), roles);
    assert!(m.last_synced("myrealm", "bob").is_empty());
    assert!(m.last_synced("otherrealm", "alice").is_empty());
}

#[test]
fn a_later_record_replaces_the_earlier_one() {
    let mut m = Manifest::default();
    m.set_synced("r", "alice", &set(&["a", "b"]));
    m.set_synced("r", "alice", &set(&["c"]));
    assert_eq!(m.last_synced("r", "alice"), set(&["c"]));
    assert_eq!(m.to_entries().len(), 1);
}

#[test]
fn entries_round_trip() {
    let mut m = Manifest::default();
    m.set_synced("myrealm", "alice", &set(&["nx-developer"]));
    m.set_synced("myrealm", "bob", &set(&["x", "y"]));
    let entries = m.to_entries();
    assert!(entries.iter().any(|e| e.0 == "myrealm/alice" && e.1 == ["nx-developer"]));
    let loaded = Manifest::load("p", ManifestFile::Entries(entries)).unwrap();
    assert_eq!(loaded.last_synced("myrealm", "alice"), set(&["nx-developer"]));
    assert_eq!(loaded.last_synced("myrealm", "bob"), set(&["y", "x"]));
    assert_eq!(loaded.to_entries().len(), 2);
}

#[test]
fn of_two_entries_for_one_key_the_later_holds() {
    let entries = vec![
        ("r/a".to_string(), vec!["x".to_string()]),
        ("r/a".to_string(), vec!["y".to_string(), "y".to_string()]),
    ];
    let m = Manifest::from_entries(&entries);
    assert_eq!(m.last_synced("r", "a"), set(&["y"]));
}

#[test]
fn loading_tells_the_failures_apart() {
    let missing = Manifest::load("p", ManifestFile::Missing).unwrap();
    assert!(missing.to_entries().is_empty());
    let err = Manifest::load("p", ManifestFile::Unreadable("denied".to_string())).unwrap_err();
    assert_eq!(err.message(), "manifest I/O error at p: denied");
    let err = Manifest::load("p", ManifestFile::Malformed("eof".to_string())).unwrap_err();
    assert_eq!(err, CambiumError::Json("eof".to_string()));
    assert_eq!(err.message(), "failed to (de)serialize JSON: eof");
}

#[test]
fn entries_hold_each_key_and_each_role_once() {
    let mut m = Manifest::default();
    m.set_synced("r", "alice", &set(&["a", "b", "a"]));
    m.set_synced("r", "bob", &set(&["c"]));
    m.set_synced("r", "alice", &set(&["b", "b", "d"]));
    let mut entries = m.to_entries();
    entries.sort();
    assert_eq!(entries.len(), 2);
    entries[0].1.sort();
    assert_eq!(entries[0], ("r/alice".to_string(), vec!["b".to_string(), "d".to_string()]));
    assert_eq!(entries[1], ("r/bob".to_string(), vec!["c".to_string()]));
}
