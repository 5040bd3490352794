//! The progress tracker: where a message stands in its workflow and how its
//! last transaction ended.

use vstd::prelude::*;

verus! {

/// Workflow-level status of a message.
#[derive(Clone, Copy, PartialEq, Eq, Structural, Debug)]
pub enum MessageStatus {
    Received,
    InProgress,
    Completed,
}

/// Outcome of the most recent transaction.
#[derive(Clone, Copy, PartialEq, Eq, Structural, Debug)]
pub enum StatusCode {
    Success,
    Failure,
}

/// Process-local state owned by one message: workflow identity, the last task
/// that acted, the outcome of the last transaction and its wall-clock time in
/// whole seconds since the Unix epoch.
pub struct Progress {
    pub status: MessageStatus,
    pub workflow_id: String,
    pub prev_task: String,
    pub prev_status_code: Option<StatusCode>,
    pub timestamp: i64,
}

} // verus!
