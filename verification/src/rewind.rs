//! What rewinding hands on, taken over the whole of the log that it reads.

use crate::message::{commit_events, row_events, BufferedRow, Event};
use crate::sender::RowMessage;
use crate::slot::SnapshotPosition;
use crate::task::{rewind_ends, rewind_row};
use vstd::prelude::*;

verus! {

/// A transaction of the upstream's log, as the decoder hands it on.
pub struct Transaction<D> {
    /// Where the commit record of the transaction ends.
    pub end_lsn: u64,
    /// The rows that the transaction took away, in order.
    pub deletes: Seq<BufferedRow<D>>,
    /// The rows that the transaction brought, in order.
    pub inserts: Seq<BufferedRow<D>>,
}

/// The events that the decoder hands on for a log, transaction after
/// transaction.
pub open spec fn log_events<D>(log: Seq<Transaction<D>>) -> Seq<Event<D>>
    decreases log.len(),
{
    if log.len() == 0 {
        Seq::empty()
    } else {
        commit_events(log[0].deletes, log[0].inserts, log[0].end_lsn) + log_events(
            log.drop_first(),
        )
    }
}

/// Whether the transactions of a log commit one behind the other, none at
/// the largest LSN.
pub open spec fn ascending<D>(log: Seq<Transaction<D>>) -> bool {
    &&& forall|i: int, j: int| 0 <= i < j < log.len() ==> log[i].end_lsn < log[j].end_lsn
    &&& forall|i: int| 0 <= i < log.len() ==> (#[trigger] log[i]).end_lsn < u64::MAX
}

/// The rows that rewinding hands on for a run of events: the row of every
/// event before the first one that ends the rewinding.
pub open spec fn rewind_rows<D>(events: Seq<Event<D>>, position: SnapshotPosition) -> Seq<
    RowMessage<Vec<D>>,
>
    decreases events.len(),
{
    if events.len() == 0 || rewind_ends(events[0], position) {
        Seq::empty()
    } else {
        let rest = rewind_rows(events.drop_first(), position);
        match rewind_row(events[0], position) {
            Some(message) => seq![message] + rest,
            None => rest,
        }
    }
}

/// Rows at the LSN of the slot, each with the multiplicity `diff`.
pub open spec fn rows_at<D>(rows: Seq<BufferedRow<D>>, slot_lsn: u64, diff: i64) -> Seq<
    RowMessage<Vec<D>>,
> {
    Seq::new(
        rows.len(),
        |i: int|
            RowMessage { output_index: rows[i].output, row: rows[i].row, lsn: slot_lsn, diff },
    )
}

/// The retraction of a transaction at the LSN of the slot: the rows that it
/// took away come back, then the rows that it brought leave.
pub open spec fn retraction<D>(transaction: Transaction<D>, slot_lsn: u64) -> Seq<
    RowMessage<Vec<D>>,
> {
    rows_at(transaction.deletes, slot_lsn, 1) + rows_at(transaction.inserts, slot_lsn, -1i64)
}

/// The retractions of all transactions of a log that committed at or before
/// the snapshot, in the order of the log.
pub open spec fn retractions_to_snapshot<D>(
    log: Seq<Transaction<D>>,
    position: SnapshotPosition,
) -> Seq<RowMessage<Vec<D>>>
    decreases log.len(),
{
    if log.len() == 0 {
        Seq::empty()
    } else {
        let rest = retractions_to_snapshot(log.drop_first(), position);
        if log[0].end_lsn <= position.snapshot_lsn {
            retraction(log[0], position.slot_lsn) + rest
        } else {
            rest
        }
    }
}

proof fn lemma_rewind_row_events<D>(
    rows: Seq<BufferedRow<D>>,
    lsn: u64,
    diff: i64,
    tail: Seq<Event<D>>,
    position: SnapshotPosition,
)
    requires
        diff == 1 || diff == -1,
    ensures
        rewind_rows(row_events(rows, lsn, diff) + tail, position) == if lsn
            <= position.snapshot_lsn {
            rows_at(rows, position.slot_lsn, (-diff) as i64) + rewind_rows(tail, position)
        } else {
            rewind_rows(tail, position)
        },
    decreases rows.len(),
{
    let events = row_events(rows, lsn, diff) + tail;
    if rows.len() == 0 {
        assert(events =~= tail);
        assert(rows_at(rows, position.slot_lsn, (-diff) as i64) + rewind_rows(tail, position)
            =~= rewind_rows(tail, position));
    } else {
        let rest = rows.drop_first();
        assert(events.drop_first() =~= row_events(rest, lsn, diff) + tail);
        assert(events[0] == row_events(rows, lsn, diff)[0]);
        lemma_rewind_row_events(rest, lsn, diff, tail, position);
        if lsn <= position.snapshot_lsn {
            assert(rows_at(rows, position.slot_lsn, (-diff) as i64) =~= seq![
                rows_at(rows, position.slot_lsn, (-diff) as i64)[0],
            ] + rows_at(rest, position.slot_lsn, (-diff) as i64));
            assert(seq![rows_at(rows, position.slot_lsn, (-diff) as i64)[0]] + (rows_at(
                rest,
                position.slot_lsn,
                (-diff) as i64,
            ) + rewind_rows(tail, position)) =~= rows_at(rows, position.slot_lsn, (-diff) as i64)
                + rewind_rows(tail, position));
        }
    }
}

proof fn lemma_nothing_behind_snapshot<D>(log: Seq<Transaction<D>>, position: SnapshotPosition)
    requires
        forall|i: int| 0 <= i < log.len() ==> (#[trigger] log[i]).end_lsn > position.snapshot_lsn,
    ensures
        retractions_to_snapshot(log, position) == Seq::<RowMessage<Vec<D>>>::empty(),
    decreases log.len(),
{
    if log.len() > 0 {
        assert(log[0].end_lsn > position.snapshot_lsn);
        assert forall|i: int| 0 <= i < log.drop_first().len() implies (#[trigger] log.drop_first()[i]).end_lsn
            > position.snapshot_lsn by {
            assert(log.drop_first()[i] == log[i + 1]);
        }
        lemma_nothing_behind_snapshot(log.drop_first(), position);
    }
}

/// Rewinding hands on exactly the retractions of the transactions that
/// committed at or before the snapshot: for a log whose transactions commit
/// one behind the other, the rows that rewinding hands on are, transaction
/// by transaction, the rows of every such transaction at the LSN of the
/// slot with their multiplicities negated, and no row of a later one.
pub proof fn lemma_rewind_retracts_to_snapshot<D>(
    log: Seq<Transaction<D>>,
    position: SnapshotPosition,
)
    requires
        ascending(log),
    ensures
        rewind_rows(log_events(log), position) == retractions_to_snapshot(log, position),
    decreases log.len(),
{
    if log.len() > 0 {
        let first = log[0];
        let rest = log.drop_first();
        let tail = log_events(rest);
        let frontier = seq![Event::<D>::Progress((first.end_lsn + 1) as u64)];
        let gone = row_events(first.deletes, first.end_lsn, -1i64);
        let come = row_events(first.inserts, first.end_lsn, 1i64);
        assert forall|i: int, j: int| 0 <= i < j < rest.len() implies rest[i].end_lsn
            < rest[j].end_lsn by {
            assert(rest[i] == log[i + 1]);
            assert(rest[j] == log[j + 1]);
        }
        assert forall|i: int| 0 <= i < rest.len() implies (#[trigger] rest[i]).end_lsn
            < u64::MAX by {
            assert(rest[i] == log[i + 1]);
        }
        lemma_rewind_retracts_to_snapshot(rest, position);
        assert(log_events(log) =~= gone + (come + (frontier + tail)));
        lemma_rewind_row_events(first.deletes, first.end_lsn, -1i64, come + (frontier + tail), position);
        lemma_rewind_row_events(first.inserts, first.end_lsn, 1i64, frontier + tail, position);
        assert((frontier + tail)[0] == frontier[0]);
        assert((frontier + tail).drop_first() =~= tail);
        if first.end_lsn < position.snapshot_lsn {
            assert(rewind_rows(frontier + tail, position) == rewind_rows(tail, position));
            assert(rows_at(first.deletes, position.slot_lsn, 1) + (rows_at(
                first.inserts,
                position.slot_lsn,
                -1i64,
            ) + rewind_rows(tail, position)) =~= retraction(first, position.slot_lsn)
                + rewind_rows(tail, position));
        } else {
            assert(rewind_rows(frontier + tail, position) == Seq::<RowMessage<Vec<D>>>::empty());
            assert forall|i: int| 0 <= i < rest.len() implies (#[trigger] rest[i]).end_lsn
                > position.snapshot_lsn by {
                assert(rest[i] == log[i + 1]);
                assert(log[0].end_lsn < log[i + 1].end_lsn);
            }
            lemma_nothing_behind_snapshot(rest, position);
            if first.end_lsn == position.snapshot_lsn {
                assert(rows_at(first.deletes, position.slot_lsn, 1) + (rows_at(
                    first.inserts,
                    position.slot_lsn,
                    -1i64,
                ) + Seq::<RowMessage<Vec<D>>>::empty()) =~= retraction(first, position.slot_lsn)
                    + retractions_to_snapshot(rest, position));
            }
        }
    }
}

} // verus!
