//! What the replication task sends to the operator that feeds the dataflow.

use vstd::prelude::*;

verus! {

/// How many messages the channel from the replication task to the operator
/// holds before the task has to wait.
pub const CHANNEL_CAPACITY: usize = 50_000;

/// The state of health that a source reports.
#[derive(Clone, Debug, PartialEq, Eq)]
pub enum HealthStatus {
    /// The source cannot go on for now.
    StalledWithError { error: String, hint: Option<String> },
}

/// A report on the health of the source.
#[derive(Clone, Debug, PartialEq, Eq)]
pub struct HealthStatusUpdate {
    /// The state of health.
    pub update: HealthStatus,
    /// Whether the process is to halt, so that the host starts it afresh.
    pub should_halt: bool,
}

/// What went wrong with a source, for the user to read.
#[derive(Clone, Debug, PartialEq, Eq)]
pub enum SourceErrorDetails {
    /// The source could not be set up, or its upstream no longer fits it.
    Initialization(String),
}

/// A definite error of a source: it becomes part of the output.
#[derive(Clone, Debug, PartialEq, Eq)]
pub struct SourceReaderError {
    /// The details of the error.
    pub inner: SourceErrorDetails,
}

/// A message from the replication task to the operator.
#[derive(Debug, PartialEq, Eq)]
pub enum InternalMessage<R> {
    /// The source has failed for good.
    Error(SourceReaderError),
    /// The health of the source has changed.
    Status(HealthStatusUpdate),
    /// A row enters or leaves an output at an LSN. `end` marks the last row
    /// at that LSN: after it the LSN is sealed.
    Value { output: usize, value: R, lsn: u64, diff: i64, end: bool },
}

/// The LSN of a row message; 0 for any other message.
pub open spec fn value_lsn<R>(message: InternalMessage<R>) -> u64 {
    match message {
        InternalMessage::Value { lsn, .. } => lsn,
        _ => 0,
    }
}

/// Whether a message is a row that seals its LSN.
pub open spec fn value_end<R>(message: InternalMessage<R>) -> bool {
    match message {
        InternalMessage::Value { end, .. } => end,
        _ => false,
    }
}

} // verus!
