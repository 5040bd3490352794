//! The audit recorder: builds the audit entry that records a message's
//! creation. Later entries are appended by the workflow orchestrator, which
//! reads the transaction outcome this engine maintains.

use vstd::prelude::*;
use vstd::string::StrSliceExecFns;
use vstd::string::StringExecFns;

use crate::casing::char_to_uppercase;
use crate::casing::lower_of;
use crate::casing::to_lowercase;
use crate::casing::upper_of;
use crate::doc::DocValue;

verus! {

/// One recorded change: the field touched, why, and optionally the values
/// before and after.
pub struct ChangeLog {
    pub field: String,
    pub reason: String,
    pub old_value: Option<DocValue>,
    pub new_value: Option<DocValue>,
}

impl ChangeLog {
    pub fn new(
        field: String,
        reason: String,
        old_value: Option<DocValue>,
        new_value: Option<DocValue>,
    ) -> (r: Self)
        ensures
            r.field == field,
            r.reason == reason,
            r.old_value == old_value,
            r.new_value == new_value,
    {
        ChangeLog { field, reason, old_value, new_value }
    }
}

/// One audit entry: who acted, when, a human-readable description and the
/// list of changes made.
pub struct AuditLog {
    pub workflow_id: String,
    pub workflow_version: u16,
    pub task_id: String,
    pub timestamp: i64,
    pub description: String,
    pub changes: Vec<ChangeLog>,
}

impl AuditLog {
    pub fn new(
        workflow_id: String,
        workflow_version: u16,
        task_id: String,
        timestamp: i64,
        description: String,
        changes: Vec<ChangeLog>,
    ) -> (r: Self)
        ensures
            r.workflow_id == workflow_id,
            r.workflow_version == workflow_version,
            r.task_id == task_id,
            r.timestamp == timestamp,
            r.description == description,
            r.changes == changes,
    {
        AuditLog { workflow_id, workflow_version, task_id, timestamp, description, changes }
    }
}

/// The description of a creation entry: the alias with its first character
/// uppercased, suffixed " created"; an empty alias falls back to the default
/// name.
pub open spec fn creation_description(alias: Seq<char>) -> Seq<char> {
    if alias.len() == 0 {
        "Message created"@
    } else {
        upper_of(alias[0]) + alias.skip(1) + " created"@
    }
}

/// The reason recorded for a creation entry: a fixed prefix followed by the
/// alias in lowercase.
pub open spec fn creation_reason(alias: Seq<char>) -> Seq<char> {
    "Initial message creation for "@ + lower_of(alias)
}

/// Build the single audit entry that records a message's creation: its
/// description is derived from the caller-supplied alias, and its change list
/// holds exactly one record referencing the payload field.
pub fn creation_audit(
    workflow_id: String,
    workflow_version: u16,
    task_id: String,
    timestamp: i64,
    alias: &str,
) -> (r: AuditLog)
    ensures
        r.workflow_id == workflow_id,
        r.workflow_version == workflow_version,
        r.task_id == task_id,
        r.timestamp == timestamp,
        r.description@ == creation_description(alias@),
        r.changes@.len() == 1,
        r.changes@[0].field@ == "payload"@,
        r.changes@[0].reason@ == creation_reason(alias@),
        r.changes@[0].old_value is None,
        r.changes@[0].new_value is None,
{
    let n = alias.unicode_len();
    let description: String = if n == 0 {
        String::from_str("Message created")
    } else {
        let mut d = char_to_uppercase(alias.get_char(0));
        let rest = alias.substring_char(1, n);
        d.append(rest);
        d.append(" created");
        proof {
            assert(alias@.subrange(1, alias@.len() as int) =~= alias@.skip(1));
        }
        d
    };
    let mut reason = String::from_str("Initial message creation for ");
    let lower = to_lowercase(alias);
    reason.append(lower.as_str());
    let change = ChangeLog::new(String::from_str("payload"), reason, None, None);
    let mut changes: Vec<ChangeLog> = Vec::new();
    changes.push(change);
    AuditLog::new(workflow_id, workflow_version, task_id, timestamp, description, changes)
}

} // verus!
