//! The replication task: what it does with every row of the snapshot and
//! with every event of the replication stream.
//!
//! A task that starts at LSN 0 first takes a snapshot at the LSN of its
//! slot. Where the snapshot was taken ahead of the slot, the stream is read
//! from the slot up to the snapshot and every change found is handed on
//! reversed, at the LSN of the slot: the snapshot holds these changes, and
//! the stream will bring them again. After that, and at once for a task
//! that starts later, the stream's events are handed on as they come.

use crate::error::{ErrorClass, ReplicationError};
use crate::message::Event;
use crate::output::InternalMessage;
use crate::sender::{
    accepted, flushed, held_after, lemma_accepted_prefix, sent_by, RowMessage, RowSender, SenderOp,
};
use crate::slot::SnapshotPosition;
use vstd::prelude::*;

verus! {

/// The state of the replication task.
#[derive(Debug)]
pub struct ReplicationTask<D> {
    /// The cursor into the write-ahead log: the stream is read from behind
    /// this LSN. 0 as long as no snapshot has been taken.
    pub replication_lsn: u64,
    /// The sender of the rows.
    pub row_sender: RowSender<Vec<D>>,
}

/// What the task did with an event while rewinding.
#[derive(Debug, PartialEq, Eq)]
pub struct Rewound<D> {
    /// The message to pass on, if there is one.
    pub out: Option<InternalMessage<Vec<D>>>,
    /// Whether the stream has passed the snapshot: the rewinding is over.
    pub done: bool,
}

/// The failure of a snapshot as it counts after `rows_sent` rows have been
/// handed on. A definite failure stays definite. After the first row any
/// other failure is irrecoverable: rows are out at the LSN of the slot that
/// no marker has sealed, and only a fresh start can take them back. Before
/// the first row nothing is out, and the failure stays what it was.
pub fn snapshot_failure(rows_sent: usize, err: ReplicationError) -> (res: ReplicationError)
    ensures
        res.text() == err.text(),
        res.class() == if rows_sent > 0 && err.class() != ErrorClass::Definite {
            ErrorClass::Irrecoverable
        } else {
            err.class()
        },
{
    if rows_sent > 0 {
        err.escalated()
    } else {
        err
    }
}

/// The failure of the stream while rewinding: definite if it was, and
/// irrecoverable otherwise.
pub fn rewind_failure(err: ReplicationError) -> (res: ReplicationError)
    ensures
        res.text() == err.text(),
        res.class() == if err.class() == ErrorClass::Definite {
            ErrorClass::Definite
        } else {
            ErrorClass::Irrecoverable
        },
{
    err.escalated()
}

/// The row that rewinding hands on for an event: a change at or before the
/// snapshot, at the LSN of the slot and with its multiplicity negated.
pub open spec fn rewind_row<D>(event: Event<D>, position: SnapshotPosition) -> Option<
    RowMessage<Vec<D>>,
> {
    match event {
        Event::Message { lsn, output, row, diff } => if lsn <= position.snapshot_lsn {
            Some(
                RowMessage {
                    output_index: output,
                    row,
                    lsn: position.slot_lsn,
                    diff: (-diff) as i64,
                },
            )
        } else {
            None
        },
        Event::Progress(_) => None,
    }
}

/// Whether an event ends the rewinding: a frontier behind the snapshot.
pub open spec fn rewind_ends<D>(event: Event<D>, position: SnapshotPosition) -> bool {
    match event {
        Event::Message { .. } => false,
        Event::Progress(lsn) => lsn > position.snapshot_lsn,
    }
}

/// The use that the task makes of the row sender for an event of the
/// stream: a change is sent at its LSN, a frontier closes what is before
/// it.
pub open spec fn stream_op<D>(event: Event<D>) -> SenderOp<Vec<D>> {
    match event {
        Event::Message { lsn, output, row, diff } => SenderOp::Send(
            RowMessage { output_index: output, row, lsn, diff },
        ),
        Event::Progress(lsn) => SenderOp::Close(lsn),
    }
}

/// The uses that the task makes of the row sender for a run of events.
pub open spec fn stream_ops<D>(events: Seq<Event<D>>) -> Seq<SenderOp<Vec<D>>> {
    Seq::new(events.len(), |i: int| stream_op(events[i]))
}

/// Whether an event is one that the stream can hand on: a frontier is
/// never 0, it lies behind an LSN.
pub open spec fn well_formed<D>(event: Event<D>) -> bool {
    match event {
        Event::Message { .. } => true,
        Event::Progress(lsn) => lsn > 0,
    }
}

/// Where the cursor stands after a run of events that found it at `start`:
/// just before the last frontier, or at `start` where no frontier came.
pub open spec fn cursor_after<D>(start: u64, events: Seq<Event<D>>) -> u64
    decreases events.len(),
{
    if events.len() == 0 {
        start
    } else {
        match events.last() {
            Event::Progress(lsn) => (lsn - 1) as u64,
            Event::Message { .. } => cursor_after(start, events.drop_last()),
        }
    }
}

impl<D> ReplicationTask<D> {
    /// A task that resumes behind `start_lsn`, or starts from nothing at 0.
    pub fn new(start_lsn: u64) -> (task: Self)
        ensures
            task.replication_lsn == start_lsn,
            task.row_sender.buffered_message is None,
    {
        ReplicationTask { replication_lsn: start_lsn, row_sender: RowSender::new() }
    }

    /// Whether the task starts from nothing and must take a snapshot. A
    /// task that resumes at a later LSN goes straight to the stream.
    pub fn needs_snapshot(&self) -> (snapshot: bool)
        ensures
            snapshot == (self.replication_lsn == 0),
    {
        self.replication_lsn == 0
    }

    /// Hands on a row of the snapshot: it enters its output at the LSN of
    /// the slot.
    pub fn snapshot_row(&mut self, output: usize, row: Vec<D>, slot_lsn: u64) -> (out: Option<
        InternalMessage<Vec<D>>,
    >)
        requires
            old(self).row_sender.accepts(slot_lsn),
        ensures
            out == flushed(old(self).row_sender.buffered_message, false),
            final(self).row_sender.buffered_message == Some(
                RowMessage { output_index: output, row, lsn: slot_lsn, diff: 1 },
            ),
            final(self).replication_lsn == old(self).replication_lsn,
    {
        self.row_sender.send_row(output, row, slot_lsn, 1)
    }

    /// What an event does while rewinding. A change at or before the
    /// snapshot is handed on at the LSN of the slot with its multiplicity
    /// negated, whatever LSN it happened at; a later change is left to the
    /// stream. A frontier behind the snapshot ends the rewinding and seals
    /// the LSN of the slot.
    pub open spec fn rewound(
        self,
        event: Event<D>,
        position: SnapshotPosition,
        post: Self,
        res: Rewound<D>,
    ) -> bool {
        &&& post.replication_lsn == self.replication_lsn
        &&& res.done == rewind_ends(event, position)
        &&& match rewind_row(event, position) {
            Some(message) => {
                &&& res.out == flushed(self.row_sender.buffered_message, false)
                &&& post.row_sender.buffered_message == Some(message)
            },
            None => if rewind_ends(event, position) {
                &&& res.out == flushed(self.row_sender.buffered_message, true)
                &&& post.row_sender.buffered_message is None
            } else {
                &&& res.out is None
                &&& post.row_sender == self.row_sender
            },
        }
    }

    /// Handles an event of the stream while rewinding.
    ///
    /// The row sender must be able to take a row at the LSN of the slot,
    /// and a multiplicity must have a negative.
    pub fn rewind_event(&mut self, event: Event<D>, position: SnapshotPosition) -> (res: Rewound<D>)
        requires
            old(self).row_sender.accepts(position.slot_lsn),
            event matches Event::Message { diff, .. } ==> diff > i64::MIN,
        ensures
            old(self).rewound(event, position, *final(self), res),
    {
        match event {
            Event::Message { lsn, output, row, diff } => {
                if lsn <= position.snapshot_lsn {
                    let out = self.row_sender.send_row(output, row, position.slot_lsn, -diff);
                    Rewound { out, done: false }
                } else {
                    Rewound { out: None, done: false }
                }
            },
            Event::Progress(lsn) => {
                if lsn > position.snapshot_lsn {
                    // The snapshot has been rewound from its own LSN to that of the slot
                    let out = self.row_sender.close_lsn(position.slot_lsn);
                    Rewound { out, done: true }
                } else {
                    Rewound { out: None, done: false }
                }
            },
        }
    }

    /// The snapshot stands at the LSN of the slot: that LSN is sealed, and
    /// the stream will be read from behind it.
    pub fn snapshot_done(&mut self, slot_lsn: u64) -> (out: Option<InternalMessage<Vec<D>>>)
        requires
            old(self).row_sender.closes(slot_lsn),
        ensures
            out == flushed(old(self).row_sender.buffered_message, true),
            final(self).row_sender.buffered_message is None,
            final(self).replication_lsn == slot_lsn,
    {
        let out = self.row_sender.close_lsn(slot_lsn);
        self.replication_lsn = slot_lsn;
        out
    }

    /// What an event of the stream does to a task that has its snapshot. A
    /// change is handed on at its LSN. A frontier seals what is before it,
    /// and moves the cursor to the LSN just before it: the upstream sends
    /// what was committed behind the LSN that it is asked for, while a
    /// frontier counts the LSNs from itself on as open.
    pub open spec fn streamed(self, event: Event<D>, post: Self, out: Option<InternalMessage<Vec<D>>>) -> bool {
        match event {
            Event::Message { lsn, output, row, diff } => {
                &&& out == flushed(self.row_sender.buffered_message, false)
                &&& post.row_sender.buffered_message == Some(
                    RowMessage { output_index: output, row, lsn, diff },
                )
                &&& post.replication_lsn == self.replication_lsn
            },
            Event::Progress(lsn) => {
                &&& out == flushed(self.row_sender.buffered_message, true)
                &&& post.row_sender.buffered_message is None
                &&& post.replication_lsn == lsn - 1
            },
        }
    }

    /// Handles an event of the stream.
    ///
    /// The row sender must be able to take the event, and a frontier is
    /// never 0: it lies behind an LSN.
    pub fn stream_event(&mut self, event: Event<D>) -> (out: Option<InternalMessage<Vec<D>>>)
        requires
            match event {
                Event::Message { lsn, .. } => old(self).row_sender.accepts(lsn),
                Event::Progress(lsn) => lsn > 0 && old(self).row_sender.closes(lsn),
            },
        ensures
            old(self).streamed(event, *final(self), out),
    {
        match event {
            Event::Message { lsn, output, row, diff } => self.row_sender.send_row(
                output,
                row,
                lsn,
                diff,
            ),
            Event::Progress(lsn) => {
                self.replication_lsn = lsn - 1;
                self.row_sender.close_lsn(lsn)
            },
        }
    }

    /// Handles a run of events of the stream, one after the other, and
    /// returns what goes out, in order: what the row sender sends for the
    /// uses that the events come to.
    ///
    /// The row sender holds nothing back at the beginning and can take
    /// every event in its turn.
    pub fn stream_events(&mut self, events: Vec<Event<D>>) -> (out: Vec<InternalMessage<Vec<D>>>)
        requires
            old(self).row_sender.buffered_message is None,
            accepted(stream_ops(events@)),
            forall|i: int| 0 <= i < events@.len() ==> well_formed(#[trigger] events@[i]),
        ensures
            out@ == sent_by(stream_ops(events@)),
            final(self).row_sender.buffered_message == held_after(stream_ops(events@)),
            final(self).replication_lsn == cursor_after(old(self).replication_lsn, events@),
    {
        let ghost all = events@;
        let ghost start = self.replication_lsn;
        let count = events.len();
        let mut out: Vec<InternalMessage<Vec<D>>> = Vec::new();
        let mut i: usize = 0;
        assert(all.take(0).len() == 0);
        assert(stream_ops(all.take(0)).len() == 0);
        for event in it: events
            invariant
                it.seq() == all,
                all.len() == count,
                i == it.index(),
                accepted(stream_ops(all)),
                forall|k: int| 0 <= k < all.len() ==> well_formed(#[trigger] all[k]),
                self.row_sender.buffered_message == held_after(stream_ops(all.take(i as int))),
                out@ == sent_by(stream_ops(all.take(i as int))),
                self.replication_lsn == cursor_after(start, all.take(i as int)),
        {
            proof {
                let head = all.take(i + 1);
                assert(head.drop_last() =~= all.take(i as int));
                assert(head.last() == event);
                assert(stream_ops(head).drop_last() =~= stream_ops(all.take(i as int)));
                assert(stream_ops(head).last() == stream_op(event));
                assert(stream_ops(all).take(i + 1) =~= stream_ops(head));
                lemma_accepted_prefix(stream_ops(all), i + 1);
                assert(well_formed(all[i as int]));
            }
            match self.stream_event(event) {
                Some(message) => {
                    out.push(message);
                },
                None => {},
            }
            i = i + 1;
        }
        proof {
            assert(all.take(i as int) =~= all);
        }
        out
    }
}

} // verus!
