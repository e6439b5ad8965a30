//! What the replication stream carries, and what the decoder hands on.

use crate::tuple::TupleData;
use vstd::prelude::*;

verus! {

/// A message of the logical replication protocol, as far as the source reads
/// it.
#[derive(Debug, PartialEq, Eq)]
pub enum LogicalMessage {
    /// A transaction begins.
    Begin,
    /// A row was inserted into the relation.
    Insert { rel_id: u32, new_tuple: Vec<TupleData> },
    /// A row of the relation was updated. The old row is there where the
    /// relation's replica identity makes the upstream send it.
    Update { rel_id: u32, old_tuple: Option<Vec<TupleData>>, new_tuple: Vec<TupleData> },
    /// A row of the relation was deleted.
    Delete { rel_id: u32, old_tuple: Option<Vec<TupleData>> },
    /// The transaction commits; `end_lsn` is where its commit record ends.
    Commit { end_lsn: u64 },
    /// The upstream describes a relation before it sends changes to it.
    Relation { rel_id: u32 },
    /// The origin of a transaction.
    Origin,
    /// The description of a type.
    Type,
    /// The relations were truncated.
    Truncate { rel_ids: Vec<u32> },
    /// A message that this source does not know.
    Other,
}

/// A message of the replication stream.
#[derive(Debug, PartialEq, Eq)]
pub enum ReplicationMessage {
    /// A piece of the write-ahead log, decoded.
    XLogData(LogicalMessage),
    /// The upstream tells where its log ends, and with `reply == 1` asks for
    /// a status update.
    PrimaryKeepAlive { wal_end: u64, reply: u8 },
    /// A message that this source does not know.
    Other,
}

/// What the decoder hands on: a change of a row at an LSN, or the promise
/// that nothing more will come before an LSN.
#[derive(Debug, PartialEq, Eq)]
pub enum Event<D> {
    /// The row enters (`diff` 1) or leaves (`diff` -1) the output at `lsn`.
    Message { lsn: u64, output: usize, row: Vec<D>, diff: i64 },
    /// Everything before this LSN has been handed on.
    Progress(u64),
}

/// A row on its way to an output.
#[derive(Debug, PartialEq, Eq)]
pub struct BufferedRow<D> {
    /// The output that the row goes to.
    pub output: usize,
    /// The row.
    pub row: Vec<D>,
}

/// The events that hand on rows at `lsn` with the multiplicity `diff`, in
/// the order of the rows.
pub open spec fn row_events<D>(rows: Seq<BufferedRow<D>>, lsn: u64, diff: i64) -> Seq<Event<D>> {
    Seq::new(
        rows.len(),
        |i: int| Event::Message { lsn, output: rows[i].output, row: rows[i].row, diff },
    )
}

/// The events of a commit at `end_lsn`: every deleted row leaves, then every
/// inserted row enters, then the frontier moves behind the commit.
pub open spec fn commit_events<D>(
    deletes: Seq<BufferedRow<D>>,
    inserts: Seq<BufferedRow<D>>,
    end_lsn: u64,
) -> Seq<Event<D>> {
    (row_events(deletes, end_lsn, -1i64) + row_events(inserts, end_lsn, 1i64)).push(
        Event::Progress((end_lsn + 1) as u64),
    )
}

/// Appends to `events` the events that hand on `rows`.
pub(crate) fn emit_rows<D>(events: &mut Vec<Event<D>>, rows: Vec<BufferedRow<D>>, lsn: u64, diff: i64)
    ensures
        final(events)@ == old(events)@ + row_events(rows@, lsn, diff),
{
    let ghost all = rows@;
    let ghost before = events@;
    let count = rows.len();
    let mut i: usize = 0;
    for buffered in it: rows
        invariant
            it.seq() == all,
            all.len() == count,
            i == it.index(),
            events@ == before + row_events(all.take(i as int), lsn, diff),
    {
        let ghost so_far = events@;
        events.push(Event::Message { lsn, output: buffered.output, row: buffered.row, diff });
        proof {
            assert(row_events(all.take(i + 1), lsn, diff) =~= row_events(
                all.take(i as int),
                lsn,
                diff,
            ).push(Event::Message { lsn, output: buffered.output, row: buffered.row, diff }));
        }
        i = i + 1;
    }
    proof {
        assert(all.take(i as int) =~= all);
    }
}

} // verus!
