//! The supervisor of the replication loop: what follows from the way a run
//! of the loop ended.

use crate::error::{ErrorClass, ReplicationError};
use crate::output::{
    HealthStatus, HealthStatusUpdate, InternalMessage, SourceErrorDetails, SourceReaderError,
};
use vstd::prelude::*;

verus! {

/// How long the supervisor waits before it runs the loop again, in seconds.
pub const RETRY_DELAY_SECS: u64 = 3;

/// What the supervisor does after a run of the loop.
#[derive(Debug, PartialEq, Eq)]
pub enum Supervision<R> {
    /// Send the report, if there is one, wait for [`RETRY_DELAY_SECS`] and
    /// run the loop again from where the task stands.
    Retry(Option<InternalMessage<R>>),
    /// Send the report and park for good: the host is to start the process
    /// afresh.
    Halt(InternalMessage<R>),
    /// Send the error to the output and stop.
    Stop(InternalMessage<R>),
}

/// The report that the source has stalled.
pub open spec fn stalled<R>(text: Seq<char>, should_halt: bool, message: InternalMessage<R>) -> bool {
    &&& message matches InternalMessage::Status(status)
    &&& status.should_halt == should_halt
    &&& status.update matches HealthStatus::StalledWithError { error, hint }
    &&& error@ == text
    &&& hint is None
}

/// The error that ends the source.
pub open spec fn terminal<R>(text: Seq<char>, message: InternalMessage<R>) -> bool {
    &&& message matches InternalMessage::Error(err)
    &&& err.inner matches SourceErrorDetails::Initialization(details)
    &&& details@ == text
}

/// What follows from the outcome of a run of the loop. A run that ends
/// without an error is run again. An indefinite error is reported as a
/// stall, and the loop is run again. An irrecoverable error is reported as
/// a stall that halts the process. A definite error goes to the output, and
/// the source stops.
pub open spec fn supervised<R>(
    outcome: Result<(), ReplicationError>,
    supervision: Supervision<R>,
) -> bool {
    match outcome {
        Ok(()) => supervision == Supervision::<R>::Retry(None),
        Err(e) => match e.class() {
            ErrorClass::Indefinite => supervision matches Supervision::Retry(Some(message))
                && stalled(e.text(), false, message),
            ErrorClass::Irrecoverable => supervision matches Supervision::Halt(message) && stalled(
                e.text(),
                true,
                message,
            ),
            ErrorClass::Definite => supervision matches Supervision::Stop(message) && terminal(
                e.text(),
                message,
            ),
        },
    }
}

fn stalled_with<R>(error: String, should_halt: bool) -> (message: InternalMessage<R>)
    ensures
        stalled(error@, should_halt, message),
{
    InternalMessage::Status(
        HealthStatusUpdate {
            update: HealthStatus::StalledWithError { error, hint: None },
            should_halt,
        },
    )
}

/// Decides what follows from the outcome of a run of the loop.
pub fn supervise<R>(outcome: Result<(), ReplicationError>) -> (supervision: Supervision<R>)
    ensures
        supervised(outcome, supervision),
{
    match outcome {
        Ok(()) => Supervision::Retry(None),
        Err(ReplicationError::Indefinite(e)) => Supervision::Retry(Some(stalled_with(e, false))),
        // Halting is the easiest way to dump the data in the pipe: the process that is
        // started afresh takes the snapshot anew, which avoids any inconsistency.
        Err(ReplicationError::Irrecoverable(e)) => Supervision::Halt(stalled_with(e, true)),
        Err(ReplicationError::Definite(e)) => Supervision::Stop(
            InternalMessage::Error(SourceReaderError { inner: SourceErrorDetails::Initialization(e) }),
        ),
    }
}

} // verus!
