//! What the stream adds up to in a consumer that sums the multiplicities
//! of every row: the changes that the upstream's transactions made.

use crate::message::{commit_events, row_events, BufferedRow, Event};
use crate::rewind::{
    ascending, log_events, retraction, retractions_to_snapshot, rewind_rows, rows_at,
    lemma_rewind_retracts_to_snapshot, Transaction,
};
use crate::delivery::{lemma_run_delivers_in_order, log_rows, nondecreasing, sent_rows};
use crate::pipeline::snapshot_ops;
use crate::sender::{sent_by, RowMessage};
use crate::task::stream_ops;
use crate::slot::SnapshotPosition;
use vstd::prelude::*;

verus! {

/// The weight that a run of events adds to a row of an output: the sum of
/// the multiplicities of the events that hand on that row.
pub open spec fn weight_of<D>(events: Seq<Event<D>>, output: usize, row: Seq<D>) -> int
    decreases events.len(),
{
    if events.len() == 0 {
        0
    } else {
        weight_of(events.drop_last(), output, row) + match events.last() {
            Event::Message { output: o, row: r, diff, .. } => if o == output && r@ == row {
                diff as int
            } else {
                0
            },
            Event::Progress(_) => 0,
        }
    }
}

/// The weight that rows waiting to be sent add to a row of an output.
pub open spec fn weight_of_rows<D>(
    rows: Seq<RowMessage<Vec<D>>>,
    output: usize,
    row: Seq<D>,
) -> int
    decreases rows.len(),
{
    if rows.len() == 0 {
        0
    } else {
        weight_of_rows(rows.drop_last(), output, row) + if rows.last().output_index == output
            && rows.last().row@ == row {
            rows.last().diff as int
        } else {
            0
        }
    }
}

/// How often a row of an output occurs among the rows of a buffer.
pub open spec fn occurrences<D>(rows: Seq<BufferedRow<D>>, output: usize, row: Seq<D>) -> int
    decreases rows.len(),
{
    if rows.len() == 0 {
        0
    } else {
        occurrences(rows.drop_last(), output, row) + if rows.last().output == output
            && rows.last().row@ == row {
            1int
        } else {
            0int
        }
    }
}

/// The change that a transaction makes to a row of an output: how often it
/// brings the row, less how often it takes the row away.
pub open spec fn change_of<D>(transaction: Transaction<D>, output: usize, row: Seq<D>) -> int {
    occurrences(transaction.inserts, output, row) - occurrences(transaction.deletes, output, row)
}

/// The change that the transactions of a log that committed at or before
/// `lsn` make to a row of an output.
pub open spec fn changes_until<D>(
    log: Seq<Transaction<D>>,
    lsn: u64,
    output: usize,
    row: Seq<D>,
) -> int
    decreases log.len(),
{
    if log.len() == 0 {
        0
    } else {
        changes_until(log.drop_first(), lsn, output, row) + if log[0].end_lsn <= lsn {
            change_of(log[0], output, row)
        } else {
            0
        }
    }
}

/// The change that all transactions of a log make to a row of an output.
pub open spec fn changes_of<D>(log: Seq<Transaction<D>>, output: usize, row: Seq<D>) -> int {
    changes_until(log, u64::MAX, output, row)
}

proof fn lemma_weight_concat<D>(a: Seq<Event<D>>, b: Seq<Event<D>>, output: usize, row: Seq<D>)
    ensures
        weight_of(a + b, output, row) == weight_of(a, output, row) + weight_of(b, output, row),
    decreases b.len(),
{
    if b.len() == 0 {
        assert(a + b =~= a);
    } else {
        lemma_weight_concat(a, b.drop_last(), output, row);
        assert((a + b).drop_last() =~= a + b.drop_last());
        assert((a + b).last() == b.last());
    }
}

proof fn lemma_weight_of_row_events<D>(
    rows: Seq<BufferedRow<D>>,
    lsn: u64,
    diff: i64,
    output: usize,
    row: Seq<D>,
)
    ensures
        weight_of(row_events(rows, lsn, diff), output, row) == diff * occurrences(
            rows,
            output,
            row,
        ),
    decreases rows.len(),
{
    if rows.len() > 0 {
        lemma_weight_of_row_events(rows.drop_last(), lsn, diff, output, row);
        assert(row_events(rows, lsn, diff).drop_last() =~= row_events(rows.drop_last(), lsn, diff));
        assert(diff * (occurrences(rows.drop_last(), output, row) + 1) == diff * occurrences(
            rows.drop_last(),
            output,
            row,
        ) + diff) by (nonlinear_arith);
    }
}

proof fn lemma_rows_concat<D>(
    a: Seq<RowMessage<Vec<D>>>,
    b: Seq<RowMessage<Vec<D>>>,
    output: usize,
    row: Seq<D>,
)
    ensures
        weight_of_rows(a + b, output, row) == weight_of_rows(a, output, row) + weight_of_rows(
            b,
            output,
            row,
        ),
    decreases b.len(),
{
    if b.len() == 0 {
        assert(a + b =~= a);
    } else {
        lemma_rows_concat(a, b.drop_last(), output, row);
        assert((a + b).drop_last() =~= a + b.drop_last());
        assert((a + b).last() == b.last());
    }
}

proof fn lemma_weight_of_rows_at<D>(
    rows: Seq<BufferedRow<D>>,
    slot_lsn: u64,
    diff: i64,
    output: usize,
    row: Seq<D>,
)
    ensures
        weight_of_rows(rows_at(rows, slot_lsn, diff), output, row) == diff * occurrences(
            rows,
            output,
            row,
        ),
    decreases rows.len(),
{
    if rows.len() > 0 {
        lemma_weight_of_rows_at(rows.drop_last(), slot_lsn, diff, output, row);
        assert(rows_at(rows, slot_lsn, diff).drop_last() =~= rows_at(
            rows.drop_last(),
            slot_lsn,
            diff,
        ));
        assert(diff * (occurrences(rows.drop_last(), output, row) + 1) == diff * occurrences(
            rows.drop_last(),
            output,
            row,
        ) + diff) by (nonlinear_arith);
    }
}

/// The events of a commit add to every row the change that the transaction
/// makes to it.
pub proof fn lemma_commit_adds_up<D>(transaction: Transaction<D>, output: usize, row: Seq<D>)
    ensures
        weight_of(
            commit_events(transaction.deletes, transaction.inserts, transaction.end_lsn),
            output,
            row,
        ) == change_of(transaction, output, row),
{
    let gone = row_events(transaction.deletes, transaction.end_lsn, -1i64);
    let come = row_events(transaction.inserts, transaction.end_lsn, 1i64);
    let all = commit_events(transaction.deletes, transaction.inserts, transaction.end_lsn);
    assert(all.drop_last() =~= gone + come);
    lemma_weight_concat(gone, come, output, row);
    lemma_weight_of_row_events(transaction.deletes, transaction.end_lsn, -1i64, output, row);
    lemma_weight_of_row_events(transaction.inserts, transaction.end_lsn, 1i64, output, row);
}

/// The stream adds up to the upstream's changes: the events that the
/// decoder hands on for a log add to every row the change that the
/// transactions of the log make to it.
pub proof fn lemma_log_adds_up<D>(log: Seq<Transaction<D>>, output: usize, row: Seq<D>)
    ensures
        weight_of(log_events(log), output, row) == changes_of(log, output, row),
    decreases log.len(),
{
    if log.len() > 0 {
        lemma_log_adds_up(log.drop_first(), output, row);
        lemma_commit_adds_up(log[0], output, row);
        lemma_weight_concat(
            commit_events(log[0].deletes, log[0].inserts, log[0].end_lsn),
            log_events(log.drop_first()),
            output,
            row,
        );
    }
}

proof fn lemma_retractions_add_up<D>(
    log: Seq<Transaction<D>>,
    position: SnapshotPosition,
    output: usize,
    row: Seq<D>,
)
    ensures
        weight_of_rows(retractions_to_snapshot(log, position), output, row) == -changes_until(
            log,
            position.snapshot_lsn,
            output,
            row,
        ),
    decreases log.len(),
{
    if log.len() > 0 {
        let rest = retractions_to_snapshot(log.drop_first(), position);
        lemma_retractions_add_up(log.drop_first(), position, output, row);
        if log[0].end_lsn <= position.snapshot_lsn {
            let back = rows_at(log[0].deletes, position.slot_lsn, 1);
            let away = rows_at(log[0].inserts, position.slot_lsn, -1i64);
            lemma_rows_concat(retraction(log[0], position.slot_lsn), rest, output, row);
            lemma_rows_concat(back, away, output, row);
            lemma_weight_of_rows_at(log[0].deletes, position.slot_lsn, 1, output, row);
            lemma_weight_of_rows_at(log[0].inserts, position.slot_lsn, -1i64, output, row);
        }
    }
}

/// Rewinding takes back what the snapshot is ahead by: for a log whose
/// transactions commit one behind the other, the rows that rewinding hands
/// on add to every row the negative of the change that the transactions at
/// or before the snapshot make to it. A consumer that has summed the rows
/// of the snapshot and of the rewinding holds the table as it was at the
/// slot.
pub proof fn lemma_rewind_takes_back<D>(
    log: Seq<Transaction<D>>,
    position: SnapshotPosition,
    output: usize,
    row: Seq<D>,
)
    requires
        ascending(log),
    ensures
        weight_of_rows(rewind_rows(log_events(log), position), output, row) == -changes_until(
            log,
            position.snapshot_lsn,
            output,
            row,
        ),
{
    lemma_rewind_retracts_to_snapshot(log, position);
    lemma_retractions_add_up(log, position, output, row);
}

/// The weight that the rows at or before `lsn` add to a row of an output:
/// what a consumer holds of that row once it has summed everything up to
/// `lsn`.
pub open spec fn weight_until<D>(
    rows: Seq<RowMessage<Vec<D>>>,
    lsn: u64,
    output: usize,
    row: Seq<D>,
) -> int
    decreases rows.len(),
{
    if rows.len() == 0 {
        0
    } else {
        weight_until(rows.drop_last(), lsn, output, row) + if rows.last().lsn <= lsn
            && rows.last().output_index == output && rows.last().row@ == row {
            rows.last().diff as int
        } else {
            0
        }
    }
}

proof fn lemma_until_concat<D>(
    a: Seq<RowMessage<Vec<D>>>,
    b: Seq<RowMessage<Vec<D>>>,
    lsn: u64,
    output: usize,
    row: Seq<D>,
)
    ensures
        weight_until(a + b, lsn, output, row) == weight_until(a, lsn, output, row) + weight_until(
            b,
            lsn,
            output,
            row,
        ),
    decreases b.len(),
{
    if b.len() == 0 {
        assert(a + b =~= a);
    } else {
        lemma_until_concat(a, b.drop_last(), lsn, output, row);
        assert((a + b).drop_last() =~= a + b.drop_last());
        assert((a + b).last() == b.last());
    }
}

proof fn lemma_until_at<D>(
    rows: Seq<RowMessage<Vec<D>>>,
    at: u64,
    lsn: u64,
    output: usize,
    row: Seq<D>,
)
    requires
        forall|k: int| 0 <= k < rows.len() ==> (#[trigger] rows[k]).lsn == at,
    ensures
        weight_until(rows, lsn, output, row) == if at <= lsn {
            weight_of_rows(rows, output, row)
        } else {
            0
        },
    decreases rows.len(),
{
    if rows.len() > 0 {
        let head = rows.drop_last();
        assert forall|k: int| 0 <= k < head.len() implies (#[trigger] head[k]).lsn == at by {
            assert(head[k] == rows[k]);
        }
        lemma_until_at(head, at, lsn, output, row);
        assert(rows.last().lsn == at);
    }
}

proof fn lemma_until_log<D>(log: Seq<Transaction<D>>, lsn: u64, output: usize, row: Seq<D>)
    ensures
        weight_until(log_rows(log), lsn, output, row) == changes_until(log, lsn, output, row),
    decreases log.len(),
{
    if log.len() > 0 {
        let first = log[0];
        let gone = rows_at(first.deletes, first.end_lsn, -1i64);
        let come = rows_at(first.inserts, first.end_lsn, 1i64);
        lemma_until_log(log.drop_first(), lsn, output, row);
        lemma_until_concat(gone + come, log_rows(log.drop_first()), lsn, output, row);
        lemma_until_concat(gone, come, lsn, output, row);
        lemma_until_at(gone, first.end_lsn, lsn, output, row);
        lemma_until_at(come, first.end_lsn, lsn, output, row);
        lemma_weight_of_rows_at(first.deletes, first.end_lsn, -1i64, output, row);
        lemma_weight_of_rows_at(first.inserts, first.end_lsn, 1i64, output, row);
    }
}

proof fn lemma_retractions_at_slot<D>(log: Seq<Transaction<D>>, position: SnapshotPosition)
    ensures
        forall|k: int|
            0 <= k < retractions_to_snapshot(log, position).len() ==> (
            #[trigger] retractions_to_snapshot(log, position)[k]).lsn == position.slot_lsn,
    decreases log.len(),
{
    if log.len() > 0 {
        lemma_retractions_at_slot(log.drop_first(), position);
        let rest = retractions_to_snapshot(log.drop_first(), position);
        let back = rows_at(log[0].deletes, position.slot_lsn, 1);
        let away = rows_at(log[0].inserts, position.slot_lsn, -1i64);
        let rows = retractions_to_snapshot(log, position);
        assert forall|k: int| 0 <= k < rows.len() implies (#[trigger] rows[k]).lsn
            == position.slot_lsn by {
            if log[0].end_lsn <= position.snapshot_lsn {
                if k < back.len() {
                    assert(rows[k] == back[k]);
                } else if k < back.len() + away.len() {
                    assert(rows[k] == away[k - back.len()]);
                } else {
                    assert(rows[k] == rest[k - back.len() - away.len()]);
                }
            }
        }
    }
}

/// The stream adds up to the upstream's table. `taken` are the rows of the
/// snapshot, handed on at the LSN of the slot; they show the table as it
/// was at the LSN of the snapshot, which is the table at the slot, of which
/// a row has the weight `at_slot`, changed by the transactions of the log
/// at or before the snapshot. The task hands on the snapshot and the rows
/// of the rewinding, closes the LSN of the slot, and then hands on the log.
/// For every LSN from the slot on, a consumer that sums the multiplicities
/// of what has gone out at or before that LSN then holds, of every row, the
/// weight that the row has in the table at that LSN: its weight at the
/// slot, changed by the transactions of the log at or before that LSN.
pub proof fn lemma_run_adds_up_to_the_table<D>(
    taken: Seq<RowMessage<Vec<D>>>,
    position: SnapshotPosition,
    log: Seq<Transaction<D>>,
    lsn: u64,
    output: usize,
    row: Seq<D>,
    at_slot: int,
)
    requires
        forall|k: int| 0 <= k < taken.len() ==> (#[trigger] taken[k]).lsn == position.slot_lsn,
        ascending(log),
        forall|k: int| 0 <= k < log.len() ==> position.slot_lsn < (#[trigger] log[k]).end_lsn,
        weight_of_rows(taken, output, row) == at_slot + changes_until(
            log,
            position.snapshot_lsn,
            output,
            row,
        ),
        position.slot_lsn <= lsn,
    ensures
        weight_until(
            sent_rows(
                sent_by(
                    snapshot_ops(
                        taken + rewind_rows(log_events(log), position),
                        position.slot_lsn,
                    ) + stream_ops(log_events(log)),
                ),
            ),
            lsn,
            output,
            row,
        ) == at_slot + changes_until(log, lsn, output, row),
{
    let rewound = rewind_rows(log_events(log), position);
    let first = taken + rewound;
    lemma_rewind_retracts_to_snapshot(log, position);
    lemma_retractions_at_slot(log, position);
    lemma_rewind_takes_back(log, position, output, row);
    assert forall|k: int| 0 <= k < first.len() implies (#[trigger] first[k]).lsn
        == position.slot_lsn by {
        if k < taken.len() {
            assert(first[k] == taken[k]);
        } else {
            assert(first[k] == rewound[k - taken.len()]);
        }
    }
    assert(nondecreasing(log));
    assert forall|k: int| 0 <= k < log.len() implies position.slot_lsn <= (
    #[trigger] log[k]).end_lsn by {}
    lemma_run_delivers_in_order(first, position.slot_lsn, log);
    lemma_until_concat(first, log_rows(log), lsn, output, row);
    lemma_until_at(first, position.slot_lsn, lsn, output, row);
    lemma_rows_concat(taken, rewound, output, row);
    lemma_until_log(log, lsn, output, row);
}

} // verus!
