use core_data::doc::DocValue;
use core_data::errors::{FunctionResponseError, WorkflowResponseError};
use core_data::message::{Message, Payload};
use core_data::progress::{MessageStatus, StatusCode};

fn allocator() -> sonyflake::Sonyflake {
    sonyflake::Sonyflake::builder()
        .machine_id(&|| Ok(7))
        .finalize()
        .unwrap()
}

fn new_with_alias(sf: &sonyflake::Sonyflake, alias: Option<&str>) -> Message {
    Message::new(
        Payload { content: String::from("body") },
        String::from("tenant-a"),
        String::from("origin-a"),
        String::from("wf-1"),
        3,
        String::from("task-1"),
        alias.map(String::from),
        sf,
    )
    .unwrap()
}

#[test]
fn new_message_defaults() {
    let sf = allocator();
    let m = new_with_alias(&sf, None);
    assert_eq!(m.version(), 1);
    assert_eq!(m.audit().len(), 1);
    assert_eq!(m.progress().status, MessageStatus::Received);
    assert_eq!(m.progress().prev_status_code, Some(StatusCode::Success));
    assert_eq!(m.progress().workflow_id, "wf-1");
    assert_eq!(m.progress().prev_task, "task-1");
    assert!(m.parent_id().is_none());
    assert!(matches!(m.data(), DocValue::Null));
    assert!(matches!(m.metadata(), DocValue::Null));
    assert_eq!(m.tenant(), "tenant-a");
    assert_eq!(m.origin(), "origin-a");
    assert_eq!(m.payload().content, "body");
    assert_ne!(m.id(), 0);
}

#[test]
fn ids_are_unique_in_succession() {
    let sf = allocator();
    let a = new_with_alias(&sf, None);
    let b = new_with_alias(&sf, None);
    assert_ne!(a.id(), b.id());
}

#[test]
fn creation_audit_capitalizes_alias() {
    let sf = allocator();
    let m = new_with_alias(&sf, Some("invoice"));
    let entry = &m.audit()[0];
    assert_eq!(entry.description, "Invoice created");
    assert_eq!(entry.workflow_id, "wf-1");
    assert_eq!(entry.workflow_version, 3);
    assert_eq!(entry.task_id, "task-1");
    assert_eq!(entry.changes.len(), 1);
    assert_eq!(entry.changes[0].field, "payload");
    assert_eq!(entry.changes[0].reason, "Initial message creation for invoice");
    assert!(entry.changes[0].old_value.is_none());
    assert!(entry.changes[0].new_value.is_none());
}

#[test]
fn creation_audit_lowercases_reason() {
    let sf = allocator();
    let m = new_with_alias(&sf, Some("INVOICE"));
    let entry = &m.audit()[0];
    assert_eq!(entry.description, "INVOICE created");
    assert_eq!(entry.changes[0].reason, "Initial message creation for invoice");
}

#[test]
fn creation_audit_default_alias() {
    let sf = allocator();
    let m = new_with_alias(&sf, None);
    let entry = &m.audit()[0];
    assert_eq!(entry.description, "Message created");
    assert_eq!(entry.changes[0].reason, "Initial message creation for message");
}

#[test]
fn creation_audit_empty_alias() {
    let sf = allocator();
    let m = new_with_alias(&sf, Some(""));
    let entry = &m.audit()[0];
    assert_eq!(entry.description, "Message created");
    assert_eq!(entry.changes[0].reason, "Initial message creation for ");
}

#[test]
fn new_message_opens_an_empty_transaction_log() {
    let sf = allocator();
    let m = new_with_alias(&sf, None);
    let log = m.transaction_changes().unwrap();
    assert_eq!(log.len(), 0);
}

#[test]
fn ephemeral_data_is_scratch_only() {
    let sf = allocator();
    let mut m = new_with_alias(&sf, None);
    m.transaction_begin(String::from("wf-1"), String::from("task-2"));
    m.set_ephemeral_data(DocValue::Int(42));
    assert!(matches!(m.ephemeral_data(), DocValue::Int(42)));
    // the scratch value never touches the transaction log
    assert_eq!(m.transaction_changes().unwrap().len(), 0);
}

#[test]
fn function_response_error_fields() {
    let e = FunctionResponseError::new(String::from("Update"), 400, String::from("bad path"));
    assert_eq!(e.function, "Update");
    assert_eq!(e.code, 400);
    assert_eq!(e.message, "bad path");
}

#[test]
fn workflow_response_error_fields() {
    let e = WorkflowResponseError::new(String::from("wf-1"), 2, 500, String::from("boom"));
    assert_eq!(e.workflow_id, "wf-1");
    assert_eq!(e.version, 2);
    assert_eq!(e.code, 500);
    assert_eq!(e.description, "boom");
}
