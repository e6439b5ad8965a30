//! The operator's side of the channel: what each message of the replication
//! task becomes in the dataflow, and how far the operator's capabilities
//! move with it.
//!
//! A capability stands here as the time that it holds. It can only move
//! forward, and data can only be given at a time that the data capability
//! has not passed.

use crate::output::{
    value_end, value_lsn, HealthStatusUpdate, InternalMessage, SourceReaderError,
};
use vstd::prelude::*;

verus! {

/// Information required to sync data from Postgres
#[derive(Clone, Copy, Debug, PartialEq, Eq, Structural)]
pub struct PostgresSourceReader {
    /// The LSN that data was last emitted at. Used to make up a time for
    /// errors.
    pub last_lsn: u64,
    /// The time of the capability that data is given with.
    pub data_capability: u64,
    /// The time of the capability that holds the upper of the output.
    pub upper_capability: u64,
}

/// A row of a source on its way into the dataflow.
#[derive(Clone, Debug, PartialEq, Eq)]
pub struct SourceMessage<R> {
    /// The output that the row belongs to.
    pub output: usize,
    /// When the upstream made the row, where that is known. It never is
    /// for this source.
    pub upstream_time_millis: Option<i64>,
    /// The row.
    pub value: R,
}

/// What the operator gives to its outputs for a message of the task.
#[derive(Debug, PartialEq, Eq)]
pub enum Emission<R> {
    /// A row for the data output, at `time` with the multiplicity `diff`.
    Data { time: u64, message: SourceMessage<R>, diff: i64 },
    /// An error for the data output, at `time` with the multiplicity 1.
    Failure { time: u64, error: SourceReaderError },
    /// A report for the health output.
    Health(HealthStatusUpdate),
}

impl PostgresSourceReader {
    /// A reader whose capabilities stand at the offset that the source
    /// resumes from.
    pub fn new(start_offset: u64) -> (reader: Self)
        ensures
            reader == (PostgresSourceReader {
                last_lsn: start_offset,
                data_capability: start_offset,
                upper_capability: start_offset,
            }),
    {
        PostgresSourceReader {
            last_lsn: start_offset,
            data_capability: start_offset,
            upper_capability: start_offset,
        }
    }

    /// Whether the capabilities can take the message. A row must not be
    /// before the data capability, nor its successor before the upper. An
    /// error is given a time of its own behind the last row, and what holds
    /// of a row holds of that time.
    pub open spec fn admits<R>(self, message: InternalMessage<R>) -> bool {
        match message {
            InternalMessage::Value { lsn, .. } => {
                &&& self.data_capability <= lsn
                &&& self.upper_capability <= lsn + 1
                &&& lsn < u64::MAX
            },
            InternalMessage::Status(_) => true,
            InternalMessage::Error(_) => {
                &&& self.data_capability <= self.last_lsn + 1
                &&& self.upper_capability <= self.last_lsn + 2
                &&& self.last_lsn + 2 <= u64::MAX
            },
        }
    }

    /// The reader after a message of the task. A row moves the upper behind
    /// its LSN, and the data capability too if it is the last of its LSN.
    /// An error moves both capabilities behind the time that it is given
    /// at. A report on the health of the source moves nothing.
    pub open spec fn after<R>(self, message: InternalMessage<R>) -> Self {
        match message {
            InternalMessage::Value { lsn, end, .. } => PostgresSourceReader {
                last_lsn: lsn,
                data_capability: if end {
                    (lsn + 1) as u64
                } else {
                    self.data_capability
                },
                upper_capability: (lsn + 1) as u64,
            },
            InternalMessage::Status(_) => self,
            InternalMessage::Error(_) => PostgresSourceReader {
                last_lsn: self.last_lsn,
                data_capability: (self.last_lsn + 2) as u64,
                upper_capability: (self.last_lsn + 2) as u64,
            },
        }
    }

    /// What the operator gives for a message of the task. A row is given at
    /// its LSN, an error at the time behind the last row.
    pub open spec fn emission<R>(self, message: InternalMessage<R>) -> Emission<R> {
        match message {
            InternalMessage::Value { output, value, lsn, diff, .. } => Emission::Data {
                time: lsn,
                message: SourceMessage { output, upstream_time_millis: None, value },
                diff,
            },
            InternalMessage::Status(update) => Emission::Health(update),
            InternalMessage::Error(error) => Emission::Failure {
                time: (self.last_lsn + 1) as u64,
                error,
            },
        }
    }

    /// Handles a message of the replication task.
    pub fn handle_message<R>(&mut self, message: InternalMessage<R>) -> (emission: Emission<R>)
        requires
            old(self).admits(message),
        ensures
            *final(self) == old(self).after(message),
            emission == old(self).emission(message),
    {
        match message {
            InternalMessage::Value { output, value, lsn, diff, end } => {
                self.last_lsn = lsn;
                let message = SourceMessage { output, upstream_time_millis: None, value };
                let ts = lsn;
                let next_ts = ts + 1;
                self.upper_capability = next_ts;
                if end {
                    self.data_capability = next_ts;
                }
                Emission::Data { time: ts, message, diff }
            },
            InternalMessage::Status(update) => Emission::Health(update),
            InternalMessage::Error(error) => {
                // The time of an error is made up: no LSN belongs to it
                let non_definite_ts = self.last_lsn + 1;
                let next_ts = non_definite_ts + 1;
                self.data_capability = next_ts;
                self.upper_capability = next_ts;
                Emission::Failure { time: non_definite_ts, error }
            },
        }
    }
}

/// The reader after a run of messages.
pub open spec fn read_through<R>(
    start: PostgresSourceReader,
    messages: Seq<InternalMessage<R>>,
) -> PostgresSourceReader
    decreases messages.len(),
{
    if messages.len() == 0 {
        start
    } else {
        read_through(start, messages.drop_last()).after(messages.last())
    }
}

/// Whether a run of messages consists of rows in the order of their LSNs,
/// none at the largest LSN, of which each but the last is marked exactly
/// if the row that follows it is at another LSN.
pub open spec fn marked_in_order<R>(messages: Seq<InternalMessage<R>>) -> bool {
    &&& forall|i: int|
        0 <= i < messages.len() ==> (#[trigger] messages[i]) is Value && value_lsn(messages[i])
            < u64::MAX
    &&& forall|i: int, j: int|
        0 <= i <= j < messages.len() ==> value_lsn(#[trigger] messages[i]) <= value_lsn(
            #[trigger] messages[j],
        )
    &&& forall|i: int|
        0 <= i && i + 1 < messages.len() ==> (value_end(#[trigger] messages[i]) <==> value_lsn(
            messages[i + 1],
        ) != value_lsn(messages[i]))
}

proof fn lemma_reader_follows<R>(
    start_offset: u64,
    messages: Seq<InternalMessage<R>>,
    k: int,
)
    requires
        marked_in_order(messages),
        0 < k <= messages.len(),
        start_offset <= value_lsn(messages[0]),
    ensures
        ({
            let reader = read_through(
                PostgresSourceReader {
                    last_lsn: start_offset,
                    data_capability: start_offset,
                    upper_capability: start_offset,
                },
                messages.take(k),
            );
            &&& reader.last_lsn == value_lsn(messages[k - 1])
            &&& reader.upper_capability == value_lsn(messages[k - 1]) + 1
            &&& reader.data_capability <= value_lsn(messages[k - 1]) + 1
            &&& !value_end(messages[k - 1]) ==> reader.data_capability <= value_lsn(messages[k - 1])
        }),
    decreases k,
{
    let start = PostgresSourceReader {
        last_lsn: start_offset,
        data_capability: start_offset,
        upper_capability: start_offset,
    };
    let head = messages.take(k);
    assert(head.drop_last() =~= messages.take(k - 1));
    assert(head.last() == messages[k - 1]);
    assert(messages[k - 1] is Value);
    assert(read_through(start, head) == read_through(start, messages.take(k - 1)).after(
        messages[k - 1],
    ));
    if k > 1 {
        lemma_reader_follows(start_offset, messages, k - 1);
        assert(value_lsn(messages[k - 2]) <= value_lsn(messages[k - 1]));
        assert(value_end(messages[k - 2]) <==> value_lsn(messages[k - 1]) != value_lsn(
            messages[k - 2],
        ));
    } else {
        assert(messages.take(0).len() == 0);
        assert(read_through(start, messages.take(0)) == start);
    }
}

/// The capabilities of the operator can take every message of a run of
/// rows that is marked in the order of its LSNs and begins at or behind the
/// offset that the reader starts from: no row is before the data
/// capability, nor its successor before the upper.
pub proof fn lemma_reader_admits<R>(start_offset: u64, messages: Seq<InternalMessage<R>>, k: int)
    requires
        marked_in_order(messages),
        0 <= k < messages.len(),
        start_offset <= value_lsn(messages[0]),
    ensures
        read_through(
            PostgresSourceReader {
                last_lsn: start_offset,
                data_capability: start_offset,
                upper_capability: start_offset,
            },
            messages.take(k),
        ).admits(messages[k]),
{
    if k > 0 {
        lemma_reader_follows(start_offset, messages, k);
        assert(value_lsn(messages[k - 1]) <= value_lsn(messages[k]));
    } else {
        assert(messages.take(0).len() == 0);
        assert(value_lsn(messages[0]) <= value_lsn(messages[k]));
    }
}

} // verus!
