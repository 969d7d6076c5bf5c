//! The metadata record on its own.

use contract_registry::record::MetadataRecord;

#[test]
fn empty_record_has_nothing() {
    let record = MetadataRecord::new();
    assert_eq!(record.len(), 0);
    assert_eq!(record.get("author"), None);
    assert!(record.entries().is_empty());
}

#[test]
fn insert_then_get() {
    let mut record = MetadataRecord::new();
    record.insert("author".to_string(), "azaM".to_string());
    assert_eq!(record.len(), 1);
    assert_eq!(record.get("author"), Some(&"azaM".to_string()));
    assert_eq!(record.get("status"), None);
}

#[test]
fn insert_same_key_overwrites() {
    let mut record = MetadataRecord::new();
    record.insert("author".to_string(), "first".to_string());
    record.insert("author".to_string(), "second".to_string());
    assert_eq!(record.len(), 1);
    assert_eq!(record.get("author"), Some(&"second".to_string()));
}

#[test]
fn entries_list_every_binding_once() {
    let mut record = MetadataRecord::new();
    record.insert("a".to_string(), "1".to_string());
    record.insert("b".to_string(), "2".to_string());
    record.insert("a".to_string(), "3".to_string());
    let entries = record.entries();
    assert_eq!(entries.len(), 2);
    let mut pairs: Vec<(String, String)> = entries.clone();
    pairs.sort();
    assert_eq!(
        pairs,
        vec![
            ("a".to_string(), "3".to_string()),
            ("b".to_string(), "2".to_string()),
        ]
    );
}

#[test]
fn clone_copies_the_mapping() {
    let mut record = MetadataRecord::new();
    record.insert("a".to_string(), "1".to_string());
    let copy = record.clone();
    record.insert("a".to_string(), "changed".to_string());
    assert_eq!(copy.get("a"), Some(&"1".to_string()));
    assert_eq!(record.get("a"), Some(&"changed".to_string()));
}
