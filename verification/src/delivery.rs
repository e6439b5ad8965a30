//! Every change is delivered once: what the row sender sends is, row for
//! row and in the same order, what it was given to send. From this follows
//! where the rows of a whole run stand: in the order of the commits of the
//! log, and never at or before the LSN that the run began at.

use crate::message::{commit_events, row_events, BufferedRow, Event};
use crate::output::{value_lsn, InternalMessage};
use crate::pipeline::snapshot_ops;
use crate::rewind::{log_events, rows_at, Transaction};
use crate::sender::{
    accepted, held_after, lemma_rows_then_close, sends, sent_by, RowMessage, SenderOp,
};
use crate::task::{stream_op, stream_ops, well_formed};
use vstd::prelude::*;

verus! {

/// The row that a message hands on.
pub open spec fn row_of<R>(message: InternalMessage<R>) -> RowMessage<R> {
    match message {
        InternalMessage::Value { output, value, lsn, diff, .. } => RowMessage {
            output_index: output,
            row: value,
            lsn,
            diff,
        },
        _ => arbitrary(),
    }
}

/// The rows that a run of messages hands on, in order.
pub open spec fn sent_rows<R>(sent: Seq<InternalMessage<R>>) -> Seq<RowMessage<R>> {
    Seq::new(sent.len(), |i: int| row_of(sent[i]))
}

/// The row that is held back, as a run of rows.
pub open spec fn held_rows<R>(held: Option<RowMessage<R>>) -> Seq<RowMessage<R>> {
    match held {
        Some(row) => seq![row],
        None => Seq::empty(),
    }
}

/// The rows that a run of uses gives the sender to send, in order.
pub open spec fn rows_of<R>(ops: Seq<SenderOp<R>>) -> Seq<RowMessage<R>>
    decreases ops.len(),
{
    if ops.len() == 0 {
        Seq::empty()
    } else {
        match ops.last() {
            SenderOp::Send(row) => rows_of(ops.drop_last()).push(row),
            SenderOp::Close(_) => rows_of(ops.drop_last()),
        }
    }
}

/// The rows that a run of events hands on, each at the LSN of its event, in
/// order.
pub open spec fn message_rows<D>(events: Seq<Event<D>>) -> Seq<RowMessage<Vec<D>>>
    decreases events.len(),
{
    if events.len() == 0 {
        Seq::empty()
    } else {
        match events.last() {
            Event::Message { lsn, output, row, diff } => message_rows(events.drop_last()).push(
                RowMessage { output_index: output, row, lsn, diff },
            ),
            Event::Progress(_) => message_rows(events.drop_last()),
        }
    }
}

/// The rows of the transactions of a log, each at the LSN of its commit:
/// transaction after transaction, the rows that it took away and then the
/// rows that it brought.
pub open spec fn log_rows<D>(log: Seq<Transaction<D>>) -> Seq<RowMessage<Vec<D>>>
    decreases log.len(),
{
    if log.len() == 0 {
        Seq::empty()
    } else {
        rows_at(log[0].deletes, log[0].end_lsn, -1i64) + rows_at(
            log[0].inserts,
            log[0].end_lsn,
            1i64,
        ) + log_rows(log.drop_first())
    }
}

/// Whether the transactions of a log commit in the order of the log, two
/// of them possibly at one LSN, none at the largest LSN.
pub open spec fn nondecreasing<D>(log: Seq<Transaction<D>>) -> bool {
    &&& forall|i: int, j: int| 0 <= i < j < log.len() ==> log[i].end_lsn <= log[j].end_lsn
    &&& forall|i: int| 0 <= i < log.len() ==> (#[trigger] log[i]).end_lsn < u64::MAX
}

/// Where an event stands in the log: a change at its LSN, a frontier at the
/// LSN just before it.
pub open spec fn position<D>(event: Event<D>) -> int {
    match event {
        Event::Message { lsn, .. } => lsn as int,
        Event::Progress(lsn) => lsn - 1,
    }
}

/// What the sender has sent and what it holds back are, row for row and in
/// the same order, what it was given to send: every row goes out once, none
/// is lost and none comes twice.
pub proof fn lemma_sent_exactly_once<R>(ops: Seq<SenderOp<R>>)
    ensures
        sent_rows(sent_by(ops)) + held_rows(held_after(ops)) == rows_of(ops),
        forall|i: int| 0 <= i < sent_by(ops).len() ==> (#[trigger] sent_by(ops)[i]) is Value,
    decreases ops.len(),
{
    if ops.len() == 0 {
        assert(sent_rows(sent_by(ops)) + held_rows(held_after(ops)) =~= rows_of(ops));
    } else {
        let before = ops.drop_last();
        lemma_sent_exactly_once(before);
        let sent = sent_by(before);
        let now = sent_by(ops);
        match held_after(before) {
            Some(held) => {
                assert(sent_rows(now) =~= sent_rows(sent).push(held));
                assert(sent_rows(sent) + held_rows(held_after(before)) =~= sent_rows(sent).push(
                    held,
                ));
            },
            None => {
                assert(now == sent);
                assert(sent_rows(sent) + held_rows(held_after(before)) =~= sent_rows(sent));
            },
        }
        assert(sent_rows(now) + held_rows(held_after(ops)) =~= rows_of(ops));
    }
}

proof fn lemma_rows_of_concat<R>(a: Seq<SenderOp<R>>, b: Seq<SenderOp<R>>)
    ensures
        rows_of(a + b) == rows_of(a) + rows_of(b),
    decreases b.len(),
{
    if b.len() == 0 {
        assert(a + b =~= a);
        assert(rows_of(a) + rows_of(b) =~= rows_of(a));
    } else {
        lemma_rows_of_concat(a, b.drop_last());
        assert((a + b).drop_last() =~= a + b.drop_last());
        assert((a + b).last() == b.last());
        assert(rows_of(a + b) =~= rows_of(a) + rows_of(b));
    }
}

proof fn lemma_rows_of_sends<R>(rows: Seq<RowMessage<R>>)
    ensures
        rows_of(sends(rows)) == rows,
    decreases rows.len(),
{
    if rows.len() > 0 {
        lemma_rows_of_sends(rows.drop_last());
        assert(sends(rows).drop_last() =~= sends(rows.drop_last()));
        assert(sends(rows).last() == SenderOp::Send(rows.last()));
        assert(rows.drop_last().push(rows.last()) =~= rows);
    } else {
        assert(rows_of(sends(rows)) =~= rows);
    }
}

/// The rows that the task gives the sender for a run of events are the rows
/// of the events.
pub proof fn lemma_rows_of_stream<D>(events: Seq<Event<D>>)
    ensures
        rows_of(stream_ops(events)) == message_rows(events),
    decreases events.len(),
{
    if events.len() > 0 {
        lemma_rows_of_stream(events.drop_last());
        assert(stream_ops(events).drop_last() =~= stream_ops(events.drop_last()));
        assert(stream_ops(events).last() == stream_op(events.last()));
    }
}

proof fn lemma_message_rows_concat<D>(a: Seq<Event<D>>, b: Seq<Event<D>>)
    ensures
        message_rows(a + b) == message_rows(a) + message_rows(b),
    decreases b.len(),
{
    if b.len() == 0 {
        assert(a + b =~= a);
        assert(message_rows(a) + message_rows(b) =~= message_rows(a));
    } else {
        lemma_message_rows_concat(a, b.drop_last());
        assert((a + b).drop_last() =~= a + b.drop_last());
        assert((a + b).last() == b.last());
        assert(message_rows(a + b) =~= message_rows(a) + message_rows(b));
    }
}

proof fn lemma_message_rows_of_rows<D>(rows: Seq<BufferedRow<D>>, lsn: u64, diff: i64)
    ensures
        message_rows(row_events(rows, lsn, diff)) == rows_at(rows, lsn, diff),
    decreases rows.len(),
{
    if rows.len() > 0 {
        lemma_message_rows_of_rows(rows.drop_last(), lsn, diff);
        assert(row_events(rows, lsn, diff).drop_last() =~= row_events(rows.drop_last(), lsn, diff));
        assert(message_rows(row_events(rows, lsn, diff)) =~= rows_at(rows, lsn, diff));
    } else {
        assert(message_rows(row_events(rows, lsn, diff)) =~= rows_at(rows, lsn, diff));
    }
}

/// The rows that the events of a log hand on are the rows of its
/// transactions, each at the LSN of its commit.
pub proof fn lemma_log_hands_on_its_rows<D>(log: Seq<Transaction<D>>)
    ensures
        message_rows(log_events(log)) == log_rows(log),
    decreases log.len(),
{
    if log.len() > 0 {
        let first = log[0];
        let gone = row_events(first.deletes, first.end_lsn, -1i64);
        let come = row_events(first.inserts, first.end_lsn, 1i64);
        let committed = commit_events(first.deletes, first.inserts, first.end_lsn);
        lemma_log_hands_on_its_rows(log.drop_first());
        lemma_message_rows_concat(committed, log_events(log.drop_first()));
        assert(committed.drop_last() =~= gone + come);
        lemma_message_rows_concat(gone, come);
        lemma_message_rows_of_rows(first.deletes, first.end_lsn, -1i64);
        lemma_message_rows_of_rows(first.inserts, first.end_lsn, 1i64);
    }
}

/// No row of a log is before the commits of the log: where every
/// transaction commits at `low` or behind it, every row is at `low` or
/// behind it.
pub proof fn lemma_log_rows_not_before<D>(log: Seq<Transaction<D>>, low: int)
    requires
        forall|k: int| 0 <= k < log.len() ==> low <= (#[trigger] log[k]).end_lsn,
    ensures
        forall|i: int| 0 <= i < log_rows(log).len() ==> low <= (#[trigger] log_rows(log)[i]).lsn,
    decreases log.len(),
{
    if log.len() > 0 {
        let rest = log.drop_first();
        assert forall|k: int| 0 <= k < rest.len() implies low <= (#[trigger] rest[k]).end_lsn by {
            assert(rest[k] == log[k + 1]);
        }
        lemma_log_rows_not_before(rest, low);
        assert(low <= log[0].end_lsn);
        let gone = rows_at(log[0].deletes, log[0].end_lsn, -1i64);
        let come = rows_at(log[0].inserts, log[0].end_lsn, 1i64);
        let rows = log_rows(log);
        assert forall|i: int| 0 <= i < rows.len() implies low <= (#[trigger] rows[i]).lsn by {
            if i < gone.len() {
                assert(rows[i] == gone[i]);
            } else if i < gone.len() + come.len() {
                assert(rows[i] == come[i - gone.len()]);
            } else {
                assert(rows[i] == log_rows(rest)[i - gone.len() - come.len()]);
            }
        }
    }
}

/// The rows of a log whose transactions commit in the order of the log
/// stand in the order of their LSNs.
pub proof fn lemma_log_rows_in_order<D>(log: Seq<Transaction<D>>)
    requires
        nondecreasing(log),
    ensures
        forall|i: int, j: int|
            0 <= i <= j < log_rows(log).len() ==> (#[trigger] log_rows(log)[i]).lsn <= (
            #[trigger] log_rows(log)[j]).lsn,
    decreases log.len(),
{
    if log.len() > 0 {
        let rest = log.drop_first();
        assert forall|i: int, j: int| 0 <= i < j < rest.len() implies rest[i].end_lsn
            <= rest[j].end_lsn by {
            assert(rest[i] == log[i + 1]);
            assert(rest[j] == log[j + 1]);
        }
        assert forall|i: int| 0 <= i < rest.len() implies (#[trigger] rest[i]).end_lsn
            < u64::MAX by {
            assert(rest[i] == log[i + 1]);
        }
        lemma_log_rows_in_order(rest);
        assert forall|k: int| 0 <= k < rest.len() implies log[0].end_lsn <= (
        #[trigger] rest[k]).end_lsn by {
            assert(rest[k] == log[k + 1]);
        }
        lemma_log_rows_not_before(rest, log[0].end_lsn as int);
        let gone = rows_at(log[0].deletes, log[0].end_lsn, -1i64);
        let come = rows_at(log[0].inserts, log[0].end_lsn, 1i64);
        let first = gone + come;
        let rows = log_rows(log);
        assert forall|i: int| 0 <= i < first.len() implies (#[trigger] first[i]).lsn
            == log[0].end_lsn by {
            if i < gone.len() {
                assert(first[i] == gone[i]);
            } else {
                assert(first[i] == come[i - gone.len()]);
            }
        }
        assert forall|i: int, j: int| 0 <= i <= j < rows.len() implies (#[trigger] rows[i]).lsn
            <= (#[trigger] rows[j]).lsn by {
            if j < first.len() {
                assert(rows[i] == first[i]);
                assert(rows[j] == first[j]);
            } else if i < first.len() {
                assert(rows[i] == first[i]);
                assert(rows[j] == log_rows(rest)[j - first.len()]);
            } else {
                assert(rows[i] == log_rows(rest)[i - first.len()]);
                assert(rows[j] == log_rows(rest)[j - first.len()]);
            }
        }
    }
}

/// The events of a log whose transactions commit in the order of the log
/// stand in that order: the LSNs of the changes never decrease, nor do the
/// frontiers; no change is behind a frontier that follows it, and no change
/// that follows a frontier is before the LSN just before that frontier.
pub proof fn lemma_events_in_order<D>(log: Seq<Transaction<D>>)
    requires
        nondecreasing(log),
    ensures
        forall|i: int, j: int|
            0 <= i <= j < log_events(log).len() ==> position(#[trigger] log_events(log)[i])
                <= position(#[trigger] log_events(log)[j]),
        forall|i: int|
            0 <= i < log_events(log).len() ==> log[0].end_lsn <= position(
                #[trigger] log_events(log)[i],
            ),
    decreases log.len(),
{
    if log.len() > 0 {
        let first = log[0];
        let rest = log.drop_first();
        let committed = commit_events(first.deletes, first.inserts, first.end_lsn);
        assert forall|i: int, j: int| 0 <= i < j < rest.len() implies rest[i].end_lsn
            <= rest[j].end_lsn by {
            assert(rest[i] == log[i + 1]);
            assert(rest[j] == log[j + 1]);
        }
        assert forall|i: int| 0 <= i < rest.len() implies (#[trigger] rest[i]).end_lsn
            < u64::MAX by {
            assert(rest[i] == log[i + 1]);
        }
        lemma_events_in_order(rest);
        assert forall|i: int| 0 <= i < committed.len() implies position(#[trigger] committed[i])
            == first.end_lsn by {}
        let events = log_events(log);
        assert forall|i: int| 0 <= i < events.len() implies first.end_lsn <= position(
            #[trigger] events[i],
        ) by {
            if i < committed.len() {
                assert(events[i] == committed[i]);
            } else {
                assert(events[i] == log_events(rest)[i - committed.len()]);
                assert(rest[0] == log[1]);
                assert(first.end_lsn <= rest[0].end_lsn);
            }
        }
        assert forall|i: int, j: int| 0 <= i <= j < events.len() implies position(
            #[trigger] events[i],
        ) <= position(#[trigger] events[j]) by {
            if j < committed.len() {
                assert(events[i] == committed[i]);
                assert(events[j] == committed[j]);
            } else if i < committed.len() {
                assert(events[i] == committed[i]);
            } else {
                assert(events[i] == log_events(rest)[i - committed.len()]);
                assert(events[j] == log_events(rest)[j - committed.len()]);
            }
        }
    }
}

/// A stream that skips to the end of the upstream's log hands on what a
/// transaction without rows that commits there would: the frontier behind
/// that end. So a log stands for the probes of a run too.
pub proof fn lemma_skip_is_an_empty_commit<D>(wal_end: u64)
    ensures
        commit_events(Seq::<BufferedRow<D>>::empty(), Seq::<BufferedRow<D>>::empty(), wal_end)
            == seq![Event::<D>::Progress((wal_end + 1) as u64)],
{
    assert(commit_events(
        Seq::<BufferedRow<D>>::empty(),
        Seq::<BufferedRow<D>>::empty(),
        wal_end,
    ) =~= seq![Event::<D>::Progress((wal_end + 1) as u64)]);
}

/// What goes out over a whole run is, row for row, the snapshot at the LSN
/// of the slot and then the rows of the log, each at the LSN of its commit
/// and each once; the LSNs never decrease, so that the rows of one LSN
/// stand together. This holds of a snapshot, with the rows of the
/// rewinding if there is one, followed by a log whose transactions commit
/// in the order of the log, none before the slot.
pub proof fn lemma_run_delivers_in_order<D>(
    snapshot: Seq<RowMessage<Vec<D>>>,
    slot_lsn: u64,
    log: Seq<Transaction<D>>,
)
    requires
        forall|k: int| 0 <= k < snapshot.len() ==> (#[trigger] snapshot[k]).lsn == slot_lsn,
        nondecreasing(log),
        forall|k: int| 0 <= k < log.len() ==> slot_lsn <= (#[trigger] log[k]).end_lsn,
    ensures
        ({
            let sent = sent_by(snapshot_ops(snapshot, slot_lsn) + stream_ops(log_events(log)));
            &&& sent_rows(sent) == snapshot + log_rows(log)
            &&& forall|i: int| 0 <= i < sent.len() ==> (#[trigger] sent[i]) is Value
            &&& forall|i: int, j: int|
                0 <= i <= j < sent.len() ==> value_lsn(#[trigger] sent[i]) <= value_lsn(
                    #[trigger] sent[j],
                )
        }),
{
    let first = snapshot_ops(snapshot, slot_lsn);
    let ops = first + stream_ops(log_events(log));
    let sent = sent_by(ops);
    lemma_sent_exactly_once(ops);
    lemma_rows_of_concat(first, stream_ops(log_events(log)));
    lemma_rows_of_sends(snapshot);
    assert(first.drop_last() =~= sends(snapshot));
    lemma_rows_of_stream(log_events(log));
    lemma_log_hands_on_its_rows(log);
    lemma_log_rows_in_order(log);
    lemma_log_rows_not_before(log, slot_lsn as int);
    lemma_ends_closed(first, log);
    assert(sent_rows(sent) + held_rows(held_after(ops)) =~= sent_rows(sent));
    let rows = snapshot + log_rows(log);
    assert(sent_rows(sent) == rows);
    assert forall|i: int, j: int| 0 <= i <= j < sent.len() implies value_lsn(#[trigger] sent[i])
        <= value_lsn(#[trigger] sent[j]) by {
        assert(sent_rows(sent)[i] == row_of(sent[i]));
        assert(sent_rows(sent)[j] == row_of(sent[j]));
        assert(sent[i] is Value);
        assert(sent[j] is Value);
        if j < snapshot.len() {
            assert(rows[i] == snapshot[i]);
            assert(rows[j] == snapshot[j]);
        } else if i < snapshot.len() {
            assert(rows[i] == snapshot[i]);
            assert(rows[j] == log_rows(log)[j - snapshot.len()]);
        } else {
            assert(rows[i] == log_rows(log)[i - snapshot.len()]);
            assert(rows[j] == log_rows(log)[j - snapshot.len()]);
        }
    }
}

proof fn lemma_ends_closed<D>(first: Seq<SenderOp<Vec<D>>>, log: Seq<Transaction<D>>)
    requires
        first.len() > 0,
        first.last() is Close,
    ensures
        held_after(first + stream_ops(log_events(log))) is None,
    decreases log.len(),
{
    let ops = first + stream_ops(log_events(log));
    if log.len() == 0 {
        assert(ops =~= first);
    } else {
        lemma_log_ends_with_frontier(log);
        let events = log_events(log);
        assert(ops.last() == stream_op(events.last()));
    }
}

proof fn lemma_log_ends_with_frontier<D>(log: Seq<Transaction<D>>)
    requires
        log.len() > 0,
    ensures
        log_events(log).len() > 0,
        log_events(log).last() is Progress,
    decreases log.len(),
{
    let committed = commit_events(log[0].deletes, log[0].inserts, log[0].end_lsn);
    if log.len() == 1 {
        assert(log.drop_first().len() == 0);
        assert(log_events(log.drop_first()) =~= Seq::<Event<D>>::empty());
        assert(log_events(log) =~= committed);
    } else {
        lemma_log_ends_with_frontier(log.drop_first());
        assert(log_events(log).last() == log_events(log.drop_first()).last());
    }
}

/// A run that resumes behind an LSN sends nothing at or before it, and
/// sends every change of the log once: what goes out for a log whose
/// transactions all commit behind `start` is, row for row, the rows of the
/// log, each at the LSN of its commit, which is behind `start`.
pub proof fn lemma_resumed_run_stays_behind_start<D>(log: Seq<Transaction<D>>, start: u64)
    requires
        forall|k: int| 0 <= k < log.len() ==> start < (#[trigger] log[k]).end_lsn,
    ensures
        ({
            let sent = sent_by(stream_ops(log_events(log)));
            &&& sent_rows(sent) == log_rows(log)
            &&& forall|i: int|
                0 <= i < sent.len() ==> (#[trigger] sent[i]) is Value && start < value_lsn(sent[i])
        }),
{
    let ops = stream_ops(log_events(log));
    let sent = sent_by(ops);
    lemma_sent_exactly_once(ops);
    lemma_rows_of_stream(log_events(log));
    lemma_log_hands_on_its_rows(log);
    lemma_log_rows_not_before(log, start + 1);
    if log.len() == 0 {
        assert(ops.len() == 0);
    } else {
        lemma_log_ends_with_frontier(log);
        assert(ops.last() == stream_op(log_events(log).last()));
    }
    assert(sent_rows(sent) + held_rows(held_after(ops)) =~= sent_rows(sent));
    assert forall|i: int| 0 <= i < sent.len() implies (#[trigger] sent[i]) is Value && start
        < value_lsn(sent[i]) by {
        assert(sent_rows(sent)[i] == row_of(sent[i]));
        assert(sent_rows(sent)[i] == log_rows(log)[i]);
    }
}

proof fn lemma_accepted_concat<R>(a: Seq<SenderOp<R>>, b: Seq<SenderOp<R>>)
    requires
        accepted(a),
        held_after(a) is None,
        accepted(b),
    ensures
        accepted(a + b),
        held_after(a + b) == held_after(b),
    decreases b.len(),
{
    if b.len() == 0 {
        assert(a + b =~= a);
    } else {
        lemma_accepted_concat(a, b.drop_last());
        assert((a + b).drop_last() =~= a + b.drop_last());
        assert((a + b).last() == b.last());
    }
}

proof fn lemma_commit_is_accepted<D>(transaction: Transaction<D>)
    requires
        transaction.end_lsn < u64::MAX,
    ensures
        ({
            let events = commit_events(
                transaction.deletes,
                transaction.inserts,
                transaction.end_lsn,
            );
            &&& accepted(stream_ops(events))
            &&& held_after(stream_ops(events)) is None
            &&& forall|i: int| 0 <= i < events.len() ==> well_formed(#[trigger] events[i])
        }),
{
    let lsn = transaction.end_lsn;
    let rows = rows_at(transaction.deletes, lsn, -1i64) + rows_at(transaction.inserts, lsn, 1i64);
    let events = commit_events(transaction.deletes, transaction.inserts, lsn);
    lemma_rows_then_close(rows, lsn, (lsn + 1) as u64);
    assert(stream_ops(events) =~= sends(rows).push(SenderOp::Close((lsn + 1) as u64)));
}

/// The task can hand on the events of every log: the row sender takes
/// every use that they come to, in its turn, and holds nothing back at the
/// end; and no frontier is 0.
pub proof fn lemma_log_can_be_streamed<D>(log: Seq<Transaction<D>>)
    requires
        forall|k: int| 0 <= k < log.len() ==> (#[trigger] log[k]).end_lsn < u64::MAX,
    ensures
        accepted(stream_ops(log_events(log))),
        held_after(stream_ops(log_events(log))) is None,
        forall|i: int|
            0 <= i < log_events(log).len() ==> well_formed(#[trigger] log_events(log)[i]),
    decreases log.len(),
{
    if log.len() > 0 {
        let first = log[0];
        let rest = log.drop_first();
        let committed = commit_events(first.deletes, first.inserts, first.end_lsn);
        assert forall|k: int| 0 <= k < rest.len() implies (#[trigger] rest[k]).end_lsn
            < u64::MAX by {
            assert(rest[k] == log[k + 1]);
        }
        lemma_log_can_be_streamed(rest);
        lemma_commit_is_accepted(first);
        lemma_accepted_concat(stream_ops(committed), stream_ops(log_events(rest)));
        assert(stream_ops(log_events(log)) =~= stream_ops(committed) + stream_ops(
            log_events(rest),
        ));
        if rest.len() == 0 {
            assert(log_events(rest) =~= Seq::<Event<D>>::empty());
            assert(stream_ops(log_events(rest)).len() == 0);
        }
        let events = log_events(log);
        assert forall|i: int| 0 <= i < events.len() implies well_formed(#[trigger] events[i]) by {
            if i < committed.len() {
                assert(events[i] == committed[i]);
            } else {
                assert(events[i] == log_events(rest)[i - committed.len()]);
            }
        }
    } else {
        assert(stream_ops(log_events(log)).len() == 0);
    }
}

} // verus!
