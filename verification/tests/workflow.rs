//! The staged workflow, end to end.

use contract_registry::builder::ContractBuilder;
use contract_registry::record::MetadataRecord;

fn value(record: &MetadataRecord, key: &str) -> Option<String> {
    record.get(key).cloned()
}

#[test]
fn full_deploy_scenario() {
    let registry = ContractBuilder::new("TokenX")
        .with_author("azaM")
        .validate()
        .on_deploy(|mut meta: MetadataRecord| {
            meta.insert("timestamp".to_string(), "2025-06-28".to_string());
            meta.insert("signer".to_string(), "0xDEADBEEF".to_string());
            meta
        })
        .registry();

    let record = registry.record();
    assert_eq!(record.len(), 5);
    assert_eq!(value(record, "author"), Some("azaM".to_string()));
    assert_eq!(value(record, "validated"), Some("true".to_string()));
    assert_eq!(value(record, "status"), Some("deployed".to_string()));
    assert_eq!(value(record, "timestamp"), Some("2025-06-28".to_string()));
    assert_eq!(value(record, "signer"), Some("0xDEADBEEF".to_string()));
}

#[test]
fn author_last_write_wins() {
    let builder = ContractBuilder::new("TokenY")
        .with_author("first")
        .with_author("second")
        .with_author("third");
    let record = builder.validate().on_deploy(|meta: MetadataRecord| meta).into_inner();
    assert_eq!(value(&record, "author"), Some("third".to_string()));
    assert_eq!(record.len(), 3);
}

#[test]
fn validate_marks_record_validated() {
    let record = ContractBuilder::new("TokenZ")
        .validate()
        .on_deploy(|meta: MetadataRecord| meta)
        .into_inner();
    assert_eq!(value(&record, "validated"), Some("true".to_string()));
}

#[test]
fn deploy_sets_status_and_keeps_hook_keys() {
    let record = ContractBuilder::new("TokenZ")
        .validate()
        .on_deploy(|mut meta: MetadataRecord| {
            meta.insert("epoch".to_string(), "7".to_string());
            meta
        })
        .into_inner();
    assert_eq!(value(&record, "status"), Some("deployed".to_string()));
    assert_eq!(value(&record, "epoch"), Some("7".to_string()));
}

#[test]
fn hook_runs_after_status_is_set() {
    let record = ContractBuilder::new("TokenZ")
        .validate()
        .on_deploy(|mut meta: MetadataRecord| {
            let status = meta.get("status").cloned();
            meta.insert(
                "seen_status".to_string(),
                status.unwrap_or_else(|| "missing".to_string()),
            );
            meta
        })
        .into_inner();
    assert_eq!(value(&record, "seen_status"), Some("deployed".to_string()));
}

#[test]
fn name_survives_every_stage() {
    let mut builder = ContractBuilder::new("TokenX")
        .with_author("azaM")
        .validate()
        .on_deploy(|meta: MetadataRecord| meta);
    assert_eq!(builder.name(), "TokenX");
    let _handle = builder.metadata();
    assert_eq!(builder.name(), "TokenX");
    let sealed = builder.into_deployed();
    assert_eq!(sealed.name(), "TokenX");
}

#[test]
fn borrow_mut_writes_are_visible_to_later_readers() {
    let mut builder = ContractBuilder::new("TokenW")
        .validate()
        .on_deploy(|meta: MetadataRecord| meta);
    builder
        .borrow_mut()
        .insert("owner".to_string(), "treasury".to_string());
    assert_eq!(value(builder.borrow(), "owner"), Some("treasury".to_string()));
    let registry = builder.registry();
    assert_eq!(value(registry.record(), "owner"), Some("treasury".to_string()));
}

#[test]
fn into_inner_without_handles_returns_full_mapping() {
    let builder = ContractBuilder::new("TokenV")
        .with_author("azaM")
        .validate()
        .on_deploy(|meta: MetadataRecord| meta);
    let record = builder.into_inner();
    assert_eq!(record.len(), 3);
    assert_eq!(value(&record, "author"), Some("azaM".to_string()));
    assert_eq!(value(&record, "validated"), Some("true".to_string()));
    assert_eq!(value(&record, "status"), Some("deployed".to_string()));
}

#[test]
fn into_inner_with_outstanding_handle_returns_empty_mapping() {
    let mut builder = ContractBuilder::new("TokenV")
        .with_author("azaM")
        .validate()
        .on_deploy(|meta: MetadataRecord| meta);
    let handle = builder.metadata();
    assert_eq!(handle.record().len(), 3);
    let record = builder.into_inner();
    assert_eq!(record.len(), 0);
    assert_eq!(record.get("author"), None);
}

#[test]
fn metadata_handle_sees_the_record_as_taken() {
    let mut builder = ContractBuilder::new("TokenU")
        .with_author("azaM")
        .validate()
        .on_deploy(|meta: MetadataRecord| meta);
    let handle = builder.metadata();
    assert_eq!(value(handle.record(), "author"), Some("azaM".to_string()));
    assert_eq!(handle.record().len(), 3);
}

#[test]
fn registry_is_still_full_after_an_outstanding_handle() {
    let mut builder = ContractBuilder::new("TokenS")
        .with_author("azaM")
        .validate()
        .on_deploy(|meta: MetadataRecord| meta);
    let _handle = builder.metadata();
    let registry = builder.registry();
    assert_eq!(registry.record().len(), 3);
    assert_eq!(value(registry.record(), "author"), Some("azaM".to_string()));
}

#[test]
fn hook_may_overwrite_an_earlier_key() {
    let record = ContractBuilder::new("TokenR")
        .with_author("azaM")
        .validate()
        .on_deploy(|mut meta: MetadataRecord| {
            meta.insert("author".to_string(), "hook".to_string());
            meta
        })
        .into_inner();
    assert_eq!(value(&record, "author"), Some("hook".to_string()));
    assert_eq!(record.len(), 3);
}

#[test]
fn empty_name_is_kept() {
    let builder = ContractBuilder::new("")
        .validate()
        .on_deploy(|meta: MetadataRecord| meta);
    assert_eq!(builder.name(), "");
}

#[test]
fn into_deployed_keeps_name_and_record() {
    let sealed = ContractBuilder::new("TokenT")
        .with_author("azaM")
        .validate()
        .on_deploy(|meta: MetadataRecord| meta)
        .into_deployed();
    assert_eq!(sealed.name(), "TokenT");
    assert_eq!(value(sealed.record(), "author"), Some("azaM".to_string()));
    assert_eq!(sealed.record().len(), 3);
}
