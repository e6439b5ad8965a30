//! What holds of every transaction that the decoder hands on.

use crate::decoder::{ReplicationDecoder, Step};
use crate::error::ReplicationError;
use crate::message::{commit_events, row_events, BufferedRow, Event, LogicalMessage};
use crate::schema::SourceTable;
use vstd::prelude::*;

verus! {

/// Whether a message takes a row of an ingested table away: a delete, or
/// an update, which takes the old row away before it brings the new one.
pub open spec fn retracts<C>(tables: Map<u32, SourceTable<C>>, message: LogicalMessage) -> bool {
    match message {
        LogicalMessage::Update { rel_id, .. } => tables.contains_key(rel_id),
        LogicalMessage::Delete { rel_id, .. } => tables.contains_key(rel_id),
        _ => false,
    }
}

/// Whether a message brings a row of an ingested table: an insert, or an
/// update.
pub open spec fn asserts<C>(tables: Map<u32, SourceTable<C>>, message: LogicalMessage) -> bool {
    match message {
        LogicalMessage::Insert { rel_id, .. } => tables.contains_key(rel_id),
        LogicalMessage::Update { rel_id, .. } => tables.contains_key(rel_id),
        _ => false,
    }
}

/// How many of the messages take a row of an ingested table away.
pub open spec fn retractions<C>(tables: Map<u32, SourceTable<C>>, messages: Seq<LogicalMessage>) -> nat
    decreases messages.len(),
{
    if messages.len() == 0 {
        0
    } else {
        retractions(tables, messages.drop_last()) + if retracts(tables, messages.last()) {
            1nat
        } else {
            0nat
        }
    }
}

/// How many of the messages bring a row of an ingested table.
pub open spec fn assertions<C>(tables: Map<u32, SourceTable<C>>, messages: Seq<LogicalMessage>) -> nat
    decreases messages.len(),
{
    if messages.len() == 0 {
        0
    } else {
        assertions(tables, messages.drop_last()) + if asserts(tables, messages.last()) {
            1nat
        } else {
            0nat
        }
    }
}

/// How many of the events hand on a row with the multiplicity `diff`.
pub open spec fn events_with<D>(events: Seq<Event<D>>, diff: i64) -> nat
    decreases events.len(),
{
    if events.len() == 0 {
        0
    } else {
        events_with(events.drop_last(), diff) + match events.last() {
            Event::Message { diff: d, .. } => if d == diff {
                1nat
            } else {
                0nat
            },
            Event::Progress(_) => 0nat,
        }
    }
}

/// Whether the decoder handles `messages[i]` in the state `states[i]`
/// without an error and is in the state `states[i + 1]` afterwards.
pub open spec fn step_taken<C, D, F: Fn(&C, &Vec<Option<String>>) -> Result<D, String>>(
    tables: Map<u32, SourceTable<C>>,
    eval: &F,
    states: Seq<ReplicationDecoder<D>>,
    messages: Seq<LogicalMessage>,
    i: int,
) -> bool {
    exists|step: Step<D>| #[trigger]
        states[i].handled(
            tables,
            messages[i],
            eval,
            states[i + 1],
            Ok::<_, ReplicationError>(step),
        )
}

/// Whether the decoder, led through `messages` one after the other, passes
/// through `states` without an error: `states[i]` is the state before
/// `messages[i]`, and the last state is the one after the last message.
pub open spec fn decoded_through<C, D, F: Fn(&C, &Vec<Option<String>>) -> Result<D, String>>(
    tables: Map<u32, SourceTable<C>>,
    eval: &F,
    states: Seq<ReplicationDecoder<D>>,
    messages: Seq<LogicalMessage>,
) -> bool {
    &&& states.len() == messages.len() + 1
    &&& forall|i: int|
        0 <= i < messages.len() ==> #[trigger] step_taken(tables, eval, states, messages, i)
}

proof fn lemma_events_with_rows<D>(rows: Seq<BufferedRow<D>>, lsn: u64, diff: i64, counted: i64)
    ensures
        events_with(row_events(rows, lsn, diff), counted) == if diff == counted {
            rows.len()
        } else {
            0
        },
    decreases rows.len(),
{
    if rows.len() > 0 {
        lemma_events_with_rows(rows.drop_last(), lsn, diff, counted);
        assert(row_events(rows, lsn, diff).drop_last() =~= row_events(rows.drop_last(), lsn, diff));
    }
}

proof fn lemma_events_with_concat<D>(a: Seq<Event<D>>, b: Seq<Event<D>>, counted: i64)
    ensures
        events_with(a + b, counted) == events_with(a, counted) + events_with(b, counted),
    decreases b.len(),
{
    if b.len() == 0 {
        assert(a + b =~= a);
    } else {
        lemma_events_with_concat(a, b.drop_last(), counted);
        assert((a + b).drop_last() =~= a + b.drop_last());
        assert((a + b).last() == b.last());
    }
}

/// Of the events of a commit, as many take a row away as rows wait
/// deleted, and as many bring a row as rows wait inserted.
pub proof fn lemma_commit_counts<D>(
    deletes: Seq<BufferedRow<D>>,
    inserts: Seq<BufferedRow<D>>,
    end_lsn: u64,
)
    ensures
        events_with(commit_events(deletes, inserts, end_lsn), -1i64) == deletes.len(),
        events_with(commit_events(deletes, inserts, end_lsn), 1) == inserts.len(),
{
    let gone = row_events(deletes, end_lsn, -1i64);
    let come = row_events(inserts, end_lsn, 1i64);
    let all = commit_events(deletes, inserts, end_lsn);
    assert(all.drop_last() =~= gone + come);
    lemma_events_with_concat(gone, come, -1i64);
    lemma_events_with_concat(gone, come, 1);
    lemma_events_with_rows(deletes, end_lsn, -1i64, -1i64);
    lemma_events_with_rows(deletes, end_lsn, -1i64, 1);
    lemma_events_with_rows(inserts, end_lsn, 1, -1i64);
    lemma_events_with_rows(inserts, end_lsn, 1, 1);
}

/// While the decoder is led through messages none of which is a commit,
/// its buffers grow by one row for every message that takes a row away or
/// brings one.
pub proof fn lemma_buffers_count<C, D, F: Fn(&C, &Vec<Option<String>>) -> Result<D, String>>(
    tables: Map<u32, SourceTable<C>>,
    eval: &F,
    states: Seq<ReplicationDecoder<D>>,
    messages: Seq<LogicalMessage>,
)
    requires
        decoded_through(tables, eval, states, messages),
        forall|i: int| 0 <= i < messages.len() ==> !((#[trigger] messages[i]) is Commit),
    ensures
        states.last().deletes@.len() == states[0].deletes@.len() + retractions(tables, messages),
        states.last().inserts@.len() == states[0].inserts@.len() + assertions(tables, messages),
    decreases messages.len(),
{
    if messages.len() > 0 {
        let n = messages.len() - 1;
        let head = messages.drop_last();
        let before = states.drop_last();
        assert forall|i: int| 0 <= i < head.len() implies #[trigger] step_taken(
            tables,
            eval,
            before,
            head,
            i,
        ) by {
            assert(step_taken(tables, eval, states, messages, i));
            let step = choose|step: Step<D>| #[trigger]
                states[i].handled(
                    tables,
                    messages[i],
                    eval,
                    states[i + 1],
                    Ok::<_, ReplicationError>(step),
                );
            assert(before[i].handled(
                tables,
                head[i],
                eval,
                before[i + 1],
                Ok::<_, ReplicationError>(step),
            ));
        }
        assert forall|i: int| 0 <= i < head.len() implies !((#[trigger] head[i]) is Commit) by {
            assert(!(messages[i] is Commit));
        }
        lemma_buffers_count(tables, eval, before, head);
        assert(step_taken(tables, eval, states, messages, n));
        let step = choose|step: Step<D>| #[trigger]
            states[n].handled(
                tables,
                messages[n],
                eval,
                states[n + 1],
                Ok::<_, ReplicationError>(step),
            );
        assert(states[n].handled(
            tables,
            messages[n],
            eval,
            states[n + 1],
            Ok::<_, ReplicationError>(step),
        ));
        assert(!(messages[n] is Commit));
        assert(before.last() == states[n]);
        assert(states.last() == states[n + 1]);
        assert(messages.last() == messages[n]);
    }
}

/// For every transaction that the decoder hands on, as many rows leave the
/// output as the transaction has deletes and updates of ingested tables,
/// and as many enter it as it has inserts and updates.
///
/// The transaction is the messages from its begin to its commit: `start`
/// is the state when the begin arrives, `states` are the states that the
/// decoder passes through with the messages between the two, and `events`
/// is what the commit hands on.
pub proof fn lemma_commit_retracts_deletes_and_updates<
    C,
    D,
    F: Fn(&C, &Vec<Option<String>>) -> Result<D, String>,
>(
    tables: Map<u32, SourceTable<C>>,
    eval: &F,
    start: ReplicationDecoder<D>,
    states: Seq<ReplicationDecoder<D>>,
    messages: Seq<LogicalMessage>,
    end_lsn: u64,
    post: ReplicationDecoder<D>,
    events: Vec<Event<D>>,
)
    requires
        start.handled(
            tables,
            LogicalMessage::Begin,
            eval,
            states[0],
            Ok::<_, ReplicationError>(Step::<D>::Began),
        ),
        decoded_through(tables, eval, states, messages),
        forall|i: int| 0 <= i < messages.len() ==> !((#[trigger] messages[i]) is Commit),
        states.last().handled(
            tables,
            LogicalMessage::Commit { end_lsn },
            eval,
            post,
            Ok::<_, ReplicationError>(Step::Committed(events)),
        ),
    ensures
        events_with(events@, -1i64) == retractions(tables, messages),
        events_with(events@, 1) == assertions(tables, messages),
{
    lemma_buffers_count(tables, eval, states, messages);
    lemma_commit_counts(states.last().deletes@, states.last().inserts@, end_lsn);
}

} // verus!
