use core_data::doc::DocValue;
use core_data::message::{Message, Payload};
use core_data::progress::StatusCode;

fn allocator() -> sonyflake::Sonyflake {
    sonyflake::Sonyflake::builder()
        .machine_id(&|| Ok(7))
        .finalize()
        .unwrap()
}

fn fresh_message(sf: &sonyflake::Sonyflake) -> Message {
    Message::new(
        Payload { content: String::from("body") },
        String::from("tenant-a"),
        String::from("origin-a"),
        String::from("wf-1"),
        1,
        String::from("task-1"),
        None,
        sf,
    )
    .unwrap()
}

fn child<'a>(d: &'a DocValue, key: &str) -> Option<&'a DocValue> {
    match d {
        DocValue::Obj(es) => es.iter().find(|e| e.0 == key).map(|e| &e.1),
        _ => None,
    }
}

fn is_null(d: Option<&DocValue>) -> bool {
    matches!(d, Some(DocValue::Null))
}

fn as_int(d: Option<&DocValue>) -> Option<i64> {
    match d {
        Some(DocValue::Int(i)) => Some(*i),
        _ => None,
    }
}

#[test]
fn rollback_restores_absent_value() {
    let sf = allocator();
    let mut m = fresh_message(&sf);
    m.transaction_begin(String::from("wf-1"), String::from("task-2"));
    m.update("data.x", DocValue::Int(1)).unwrap();
    assert_eq!(as_int(child(m.data(), "x")), Some(1));
    m.transaction_rollback();
    assert!(is_null(child(m.data(), "x")));
    assert_eq!(m.progress().prev_status_code, Some(StatusCode::Failure));
}

#[test]
fn rollback_restores_metadata_value() {
    let sf = allocator();
    let mut m = fresh_message(&sf);
    m.transaction_begin(String::from("wf-1"), String::from("task-2"));
    m.update("metadata.source", DocValue::Str(String::from("feed")))
        .unwrap();
    m.transaction_rollback();
    assert!(is_null(child(m.metadata(), "source")));
    assert!(matches!(m.data(), DocValue::Null));
}

#[test]
fn rollback_restores_prior_committed_value() {
    let sf = allocator();
    let mut m = fresh_message(&sf);
    m.transaction_begin(String::from("wf-1"), String::from("task-2"));
    m.update("data.x", DocValue::Int(5)).unwrap();
    m.transaction_commit();
    m.transaction_begin(String::from("wf-1"), String::from("task-3"));
    m.update("data.x", DocValue::Int(9)).unwrap();
    m.transaction_rollback();
    assert_eq!(as_int(child(m.data(), "x")), Some(5));
}

#[test]
fn commit_keeps_value_and_marks_success() {
    let sf = allocator();
    let mut m = fresh_message(&sf);
    m.transaction_begin(String::from("wf-1"), String::from("task-2"));
    m.update("data.x", DocValue::Int(2)).unwrap();
    m.transaction_commit();
    assert_eq!(as_int(child(m.data(), "x")), Some(2));
    assert_eq!(m.progress().prev_status_code, Some(StatusCode::Success));
}

#[test]
fn double_write_then_rollback_restores_first_prior_value() {
    let sf = allocator();
    let mut m = fresh_message(&sf);
    m.transaction_begin(String::from("wf-1"), String::from("task-2"));
    m.update("data.x", DocValue::Int(1)).unwrap();
    m.update("data.x", DocValue::Int(2)).unwrap();
    m.transaction_rollback();
    // the slot reads as null again, not as either written value
    assert!(is_null(child(m.data(), "x")));
}

#[test]
fn invalid_root_is_rejected_and_nothing_changes() {
    let sf = allocator();
    let mut m = fresh_message(&sf);
    m.transaction_begin(String::from("wf-1"), String::from("task-2"));
    let e = m.update("other.x", DocValue::Int(1)).unwrap_err();
    assert_eq!(e.function, "Update");
    assert_eq!(e.code, 400);
    assert_eq!(e.message, "Field path must start with 'data' or 'metadata'");
    assert!(matches!(m.data(), DocValue::Null));
    assert!(matches!(m.metadata(), DocValue::Null));
}

#[test]
fn scalar_intermediate_is_vivified_and_rollback_restores_it() {
    let sf = allocator();
    let mut m = fresh_message(&sf);
    m.transaction_begin(String::from("wf-1"), String::from("task-2"));
    m.update("data.a", DocValue::Int(5)).unwrap();
    m.transaction_commit();
    m.transaction_begin(String::from("wf-1"), String::from("task-3"));
    m.update("data.a.b", DocValue::Int(1)).unwrap();
    let a = child(m.data(), "a").unwrap();
    assert_eq!(as_int(child(a, "b")), Some(1));
    m.transaction_rollback();
    assert_eq!(as_int(child(m.data(), "a")), Some(5));
}

#[test]
fn rollback_without_open_transaction_marks_failure_only() {
    let sf = allocator();
    let mut m = fresh_message(&sf);
    m.transaction_commit();
    m.transaction_rollback();
    assert!(matches!(m.data(), DocValue::Null));
    assert!(matches!(m.metadata(), DocValue::Null));
    assert_eq!(m.progress().prev_status_code, Some(StatusCode::Failure));
}

#[test]
fn write_outside_transaction_is_not_undoable() {
    let sf = allocator();
    let mut m = fresh_message(&sf);
    m.transaction_commit();
    m.update("data.x", DocValue::Int(3)).unwrap();
    m.transaction_rollback();
    assert_eq!(as_int(child(m.data(), "x")), Some(3));
}

#[test]
fn root_only_path_writes_nothing() {
    let sf = allocator();
    let mut m = fresh_message(&sf);
    m.update("data", DocValue::Int(1)).unwrap();
    assert!(matches!(m.data(), DocValue::Null));
}

#[test]
fn empty_path_is_rejected() {
    let sf = allocator();
    let mut m = fresh_message(&sf);
    let e = m.update("", DocValue::Int(1)).unwrap_err();
    assert_eq!(e.code, 400);
}

#[test]
fn deep_path_vivifies_every_level() {
    let sf = allocator();
    let mut m = fresh_message(&sf);
    m.transaction_begin(String::from("wf-1"), String::from("task-2"));
    m.update("data.a.b.c", DocValue::Str(String::from("deep")))
        .unwrap();
    let a = child(m.data(), "a").unwrap();
    let b = child(a, "b").unwrap();
    assert!(matches!(child(b, "c"), Some(DocValue::Str(s)) if s == "deep"));
    m.transaction_rollback();
    assert!(is_null(child(m.data(), "a")));
}

#[test]
fn transaction_changes_lists_paths_touched() {
    let sf = allocator();
    let mut m = fresh_message(&sf);
    m.transaction_begin(String::from("wf-1"), String::from("task-2"));
    m.update("data.x", DocValue::Int(1)).unwrap();
    let log = m.transaction_changes().unwrap();
    assert_eq!(log.len(), 1);
    assert_eq!(log[0].path, vec![String::from("data"), String::from("x")]);
    m.transaction_commit();
    assert!(m.transaction_changes().is_none());
}

#[test]
fn begin_sets_workflow_identity() {
    let sf = allocator();
    let mut m = fresh_message(&sf);
    m.transaction_begin(String::from("wf-9"), String::from("task-7"));
    assert_eq!(m.progress().workflow_id, "wf-9");
    assert_eq!(m.progress().prev_task, "task-7");
}
