//! Error values surfaced to callers of the patch engine.

use vstd::prelude::*;

verus! {

/// A validation failure reported by a single operation: the operation's name,
/// an HTTP-style status code and a human-readable message.
#[derive(Debug)]
pub struct FunctionResponseError {
    pub function: String,
    pub code: u32,
    pub message: String,
}

impl FunctionResponseError {
    pub fn new(function: String, code: u32, message: String) -> (r: Self)
        ensures
            r.function == function,
            r.code == code,
            r.message == message,
    {
        FunctionResponseError { function, code, message }
    }
}

/// A failure attributed to a whole workflow run.
pub struct WorkflowResponseError {
    pub workflow_id: String,
    pub version: u16,
    pub code: u16,
    pub description: String,
}

impl WorkflowResponseError {
    pub fn new(workflow_id: String, version: u16, code: u16, description: String) -> (r: Self)
        ensures
            r.workflow_id == workflow_id,
            r.version == version,
            r.code == code,
            r.description == description,
    {
        WorkflowResponseError { workflow_id, version, code, description }
    }
}

} // verus!
