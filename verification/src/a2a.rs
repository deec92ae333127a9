//! A task on its way from the door to the agent loop.

use crate::origin::TaskProvenance;
use vstd::prelude::*;

verus! {

/// A task the capsule accepted and has not started.
#[derive(Debug, PartialEq, Eq)]
pub struct IncomingTask {
    pub task_id: String,
    pub context_id: String,
    pub message_id: String,
    pub message_text: String,
    pub traceparent: Option<String>,
    pub provenance: TaskProvenance,
    /// The delegation a completion reports on.
    pub delegation_id: Option<String>,
}

} // verus!
