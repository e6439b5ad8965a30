//! The task and the row sender together: a log whose transactions commit
//! one behind the other is sent by the rules of the row sender, so that
//! what goes out is in the order of its LSNs and has one marked row for
//! every LSN.

use crate::message::{commit_events, row_events, BufferedRow, Event};
use crate::output::{value_end, value_lsn};
use crate::rewind::{ascending, log_events, rows_at, Transaction};
use crate::reader::marked_in_order;
use crate::sender::{
    disciplined, held_after, lemma_lsns_never_decrease, lemma_one_end_per_lsn, lemma_well_marked,
    lsn_ends_at, sends, sent_by, RowMessage, SenderOp,
};
use crate::task::stream_ops;
use vstd::prelude::*;

verus! {

/// Whether a run of uses keeps to the rules, holds nothing back at its end,
/// and has sent nothing at or behind `bound`.
pub open spec fn sealed_below<R>(ops: Seq<SenderOp<R>>, bound: int) -> bool {
    &&& disciplined(ops)
    &&& held_after(ops) is None
    &&& forall|i: int| 0 <= i < sent_by(ops).len() ==> value_lsn(#[trigger] sent_by(ops)[i]) < bound
}

/// Whether a run of uses keeps to the rules and is in the midst of `lsn`:
/// nothing has been sent behind it, and what is held back is at it.
pub open spec fn filling<R>(ops: Seq<SenderOp<R>>, lsn: u64) -> bool {
    &&& disciplined(ops)
    &&& forall|i: int| 0 <= i < sent_by(ops).len() ==> value_lsn(#[trigger] sent_by(ops)[i]) <= lsn
    &&& match held_after(ops) {
        Some(held) => held.lsn == lsn,
        None => forall|i: int|
            0 <= i < sent_by(ops).len() ==> value_lsn(#[trigger] sent_by(ops)[i]) < lsn,
    }
}

proof fn lemma_send_fills<R>(ops: Seq<SenderOp<R>>, message: RowMessage<R>)
    requires
        filling(ops, message.lsn),
    ensures
        filling(ops.push(SenderOp::Send(message)), message.lsn),
{
    let next = ops.push(SenderOp::Send(message));
    assert(next.drop_last() =~= ops);
    assert(next.last() == SenderOp::Send(message));
    let sent = sent_by(ops);
    assert forall|i: int| 0 <= i < sent_by(next).len() implies value_lsn(
        #[trigger] sent_by(next)[i],
    ) <= message.lsn by {
        if i < sent.len() {
            assert(sent_by(next)[i] == sent[i]);
        }
    }
}

proof fn lemma_close_seals<R>(ops: Seq<SenderOp<R>>, lsn: u64, close: u64)
    requires
        filling(ops, lsn),
        lsn < close,
    ensures
        sealed_below(ops.push(SenderOp::Close(close)), close as int),
{
    let next = ops.push(SenderOp::<R>::Close(close));
    assert(next.drop_last() =~= ops);
    assert(next.last() == SenderOp::<R>::Close(close));
    let sent = sent_by(ops);
    assert forall|i: int| 0 <= i < sent_by(next).len() implies value_lsn(
        #[trigger] sent_by(next)[i],
    ) < close by {
        if i < sent.len() {
            assert(sent_by(next)[i] == sent[i]);
        }
    }
}

proof fn lemma_sends_fill<R>(ops: Seq<SenderOp<R>>, rows: Seq<RowMessage<R>>, lsn: u64)
    requires
        filling(ops, lsn),
        forall|i: int| 0 <= i < rows.len() ==> (#[trigger] rows[i]).lsn == lsn,
    ensures
        filling(ops + sends(rows), lsn),
    decreases rows.len(),
{
    if rows.len() == 0 {
        assert(ops + sends(rows) =~= ops);
    } else {
        let head = rows.drop_last();
        assert forall|i: int| 0 <= i < head.len() implies (#[trigger] head[i]).lsn == lsn by {
            assert(head[i] == rows[i]);
        }
        lemma_sends_fill(ops, head, lsn);
        assert(rows.last().lsn == lsn);
        lemma_send_fills(ops + sends(head), rows.last());
        assert(ops + sends(rows) =~= (ops + sends(head)).push(SenderOp::Send(rows.last())));
    }
}

proof fn lemma_rows_fill<D>(
    ops: Seq<SenderOp<Vec<D>>>,
    rows: Seq<BufferedRow<D>>,
    lsn: u64,
    diff: i64,
)
    requires
        filling(ops, lsn),
    ensures
        filling(ops + stream_ops(row_events(rows, lsn, diff)), lsn),
{
    lemma_sends_fill(ops, rows_at(rows, lsn, diff), lsn);
    assert(stream_ops(row_events(rows, lsn, diff)) =~= sends(rows_at(rows, lsn, diff)));
}

proof fn lemma_commit_seals<D>(
    ops: Seq<SenderOp<Vec<D>>>,
    bound: int,
    transaction: Transaction<D>,
)
    requires
        sealed_below(ops, bound),
        bound <= transaction.end_lsn < u64::MAX,
    ensures
        sealed_below(
            ops + stream_ops(
                commit_events(transaction.deletes, transaction.inserts, transaction.end_lsn),
            ),
            transaction.end_lsn + 1,
        ),
{
    let lsn = transaction.end_lsn;
    let gone = stream_ops(row_events(transaction.deletes, lsn, -1i64));
    let come = stream_ops(row_events(transaction.inserts, lsn, 1i64));
    assert(filling(ops, lsn));
    lemma_rows_fill(ops, transaction.deletes, lsn, -1i64);
    lemma_rows_fill(ops + gone, transaction.inserts, lsn, 1i64);
    lemma_close_seals(ops + gone + come, lsn, (lsn + 1) as u64);
    assert(ops + stream_ops(commit_events(transaction.deletes, transaction.inserts, lsn)) =~= (ops
        + gone + come).push(SenderOp::Close((lsn + 1) as u64)));
}

/// A log whose transactions commit one behind the other is sent by the
/// rules of the row sender. `ops` is what the sender was used for before:
/// it keeps to the rules, holds nothing back, and has sent nothing at or
/// behind `bound`, which no transaction of the log commits before.
pub proof fn lemma_log_keeps_the_rules<D>(
    ops: Seq<SenderOp<Vec<D>>>,
    bound: int,
    log: Seq<Transaction<D>>,
)
    requires
        sealed_below(ops, bound),
        bound <= u64::MAX,
        ascending(log),
        forall|i: int| 0 <= i < log.len() ==> bound <= (#[trigger] log[i]).end_lsn,
    ensures
        sealed_below(ops + stream_ops(log_events(log)), u64::MAX as int),
    decreases log.len(),
{
    if log.len() == 0 {
        assert(ops + stream_ops(log_events(log)) =~= ops);
    } else {
        let first = log[0];
        let rest = log.drop_first();
        let committed = commit_events(first.deletes, first.inserts, first.end_lsn);
        lemma_commit_seals(ops, bound, first);
        assert forall|i: int, j: int| 0 <= i < j < rest.len() implies rest[i].end_lsn
            < rest[j].end_lsn by {
            assert(rest[i] == log[i + 1]);
            assert(rest[j] == log[j + 1]);
        }
        assert forall|i: int| 0 <= i < rest.len() implies (#[trigger] rest[i]).end_lsn
            < u64::MAX by {
            assert(rest[i] == log[i + 1]);
        }
        assert forall|i: int| 0 <= i < rest.len() implies first.end_lsn + 1 <= (
        #[trigger] rest[i]).end_lsn by {
            assert(rest[i] == log[i + 1]);
            assert(log[0].end_lsn < log[i + 1].end_lsn);
        }
        lemma_log_keeps_the_rules(ops + stream_ops(committed), first.end_lsn + 1, rest);
        assert(ops + stream_ops(log_events(log)) =~= (ops + stream_ops(committed)) + stream_ops(
            log_events(rest),
        ));
    }
}

/// The uses that the task makes of the row sender before the stream, for
/// a snapshot at `slot_lsn`: the rows of the snapshot, and those of the
/// rewinding if there is one, are sent, then the LSN is closed.
pub open spec fn snapshot_ops<R>(rows: Seq<RowMessage<R>>, slot_lsn: u64) -> Seq<SenderOp<R>> {
    sends(rows).push(SenderOp::Close(slot_lsn))
}

proof fn lemma_snapshot_seals<R>(rows: Seq<RowMessage<R>>, slot_lsn: u64)
    requires
        forall|i: int| 0 <= i < rows.len() ==> (#[trigger] rows[i]).lsn == slot_lsn,
    ensures
        sealed_below(snapshot_ops(rows, slot_lsn), slot_lsn + 1),
{
    let none = Seq::<SenderOp<R>>::empty();
    assert(sent_by(none).len() == 0);
    assert(filling(none, slot_lsn));
    lemma_sends_fill(none, rows, slot_lsn);
    assert(none + sends(rows) =~= sends(rows));
    let next = sends(rows).push(SenderOp::<R>::Close(slot_lsn));
    assert(next.drop_last() =~= sends(rows));
    assert(next.last() == SenderOp::<R>::Close(slot_lsn));
    let sent = sent_by(sends(rows));
    assert forall|i: int| 0 <= i < sent_by(next).len() implies value_lsn(
        #[trigger] sent_by(next)[i],
    ) < slot_lsn + 1 by {
        if i < sent.len() {
            assert(sent_by(next)[i] == sent[i]);
        }
    }
}

/// A snapshot at the LSN of the slot, with the rows of the rewinding if
/// there is one, and a log behind it whose transactions commit one behind
/// the other are sent by the rules of the row sender, and nothing is held
/// back at the end.
pub proof fn lemma_snapshot_keeps_the_rules<D>(
    snapshot: Seq<RowMessage<Vec<D>>>,
    slot_lsn: u64,
    log: Seq<Transaction<D>>,
)
    requires
        forall|k: int| 0 <= k < snapshot.len() ==> (#[trigger] snapshot[k]).lsn == slot_lsn,
        ascending(log),
        forall|k: int| 0 <= k < log.len() ==> slot_lsn < (#[trigger] log[k]).end_lsn,
    ensures
        disciplined(snapshot_ops(snapshot, slot_lsn) + stream_ops(log_events(log))),
        held_after(snapshot_ops(snapshot, slot_lsn) + stream_ops(log_events(log))) is None,
{
    lemma_snapshot_seals(snapshot, slot_lsn);
    if log.len() == 0 {
        assert(snapshot_ops(snapshot, slot_lsn) + stream_ops(log_events(log)) =~= snapshot_ops(
            snapshot,
            slot_lsn,
        ));
    } else {
        assert(slot_lsn < log[0].end_lsn);
        lemma_log_keeps_the_rules(snapshot_ops(snapshot, slot_lsn), slot_lsn + 1, log);
    }
}

/// What goes out never goes back in its LSNs: this holds of the rows of a
/// snapshot at the LSN of the slot, with those of the rewinding, followed
/// by a log whose transactions commit one behind the other and behind the
/// slot.
pub proof fn lemma_output_in_lsn_order<D>(
    snapshot: Seq<RowMessage<Vec<D>>>,
    slot_lsn: u64,
    log: Seq<Transaction<D>>,
    i: int,
    j: int,
)
    requires
        forall|k: int| 0 <= k < snapshot.len() ==> (#[trigger] snapshot[k]).lsn == slot_lsn,
        ascending(log),
        forall|k: int| 0 <= k < log.len() ==> slot_lsn < (#[trigger] log[k]).end_lsn,
        0 <= i <= j < sent_by(snapshot_ops(snapshot, slot_lsn) + stream_ops(log_events(log))).len(),
    ensures
        ({
            let sent = sent_by(snapshot_ops(snapshot, slot_lsn) + stream_ops(log_events(log)));
            value_lsn(sent[i]) <= value_lsn(sent[j])
        }),
{
    lemma_snapshot_keeps_the_rules(snapshot, slot_lsn, log);
    lemma_lsns_never_decrease(snapshot_ops(snapshot, slot_lsn) + stream_ops(log_events(log)), i, j);
}

/// In what goes out for a snapshot at the LSN of the slot and a log behind
/// it, a row is marked as the last of its LSN exactly if no later row is at
/// that LSN: every LSN that occurs has one marked row, its last.
pub proof fn lemma_output_marks_each_lsn_once<D>(
    snapshot: Seq<RowMessage<Vec<D>>>,
    slot_lsn: u64,
    log: Seq<Transaction<D>>,
    i: int,
)
    requires
        forall|k: int| 0 <= k < snapshot.len() ==> (#[trigger] snapshot[k]).lsn == slot_lsn,
        ascending(log),
        forall|k: int| 0 <= k < log.len() ==> slot_lsn < (#[trigger] log[k]).end_lsn,
        0 <= i < sent_by(snapshot_ops(snapshot, slot_lsn) + stream_ops(log_events(log))).len(),
    ensures
        ({
            let sent = sent_by(snapshot_ops(snapshot, slot_lsn) + stream_ops(log_events(log)));
            value_end(sent[i]) <==> forall|j: int|
                i < j < sent.len() ==> value_lsn(#[trigger] sent[j]) != value_lsn(sent[i])
        }),
{
    lemma_snapshot_keeps_the_rules(snapshot, slot_lsn, log);
    lemma_one_end_per_lsn(snapshot_ops(snapshot, slot_lsn) + stream_ops(log_events(log)), i);
}

/// What goes out for a snapshot at the LSN of the slot and a log behind it
/// is a run of rows that the operator's reader can take: rows in the order
/// of their LSNs, none at the largest LSN, each marked exactly if the row
/// that follows it is at another LSN.
pub proof fn lemma_output_marked_in_order<D>(
    snapshot: Seq<RowMessage<Vec<D>>>,
    slot_lsn: u64,
    log: Seq<Transaction<D>>,
)
    requires
        forall|k: int| 0 <= k < snapshot.len() ==> (#[trigger] snapshot[k]).lsn == slot_lsn,
        slot_lsn < u64::MAX,
        ascending(log),
        forall|k: int| 0 <= k < log.len() ==> slot_lsn < (#[trigger] log[k]).end_lsn,
    ensures
        marked_in_order(sent_by(snapshot_ops(snapshot, slot_lsn) + stream_ops(log_events(log)))),
{
    let ops = snapshot_ops(snapshot, slot_lsn) + stream_ops(log_events(log));
    lemma_snapshot_seals(snapshot, slot_lsn);
    lemma_log_keeps_the_rules(snapshot_ops(snapshot, slot_lsn), slot_lsn + 1, log);
    lemma_well_marked(ops);
    let sent = sent_by(ops);
    assert forall|i: int| 0 <= i && i + 1 < sent.len() implies (value_end(#[trigger] sent[i])
        <==> value_lsn(sent[i + 1]) != value_lsn(sent[i])) by {
        assert(value_end(sent[i]) <==> lsn_ends_at(sent, held_after(ops), i));
    }
}

} // verus!
