//! One run of the replication stream: the decoder together with the clocks
//! that decide when the upstream hears from the source and when a silent
//! stream is left to look for changes another way.
//!
//! Time comes in from the caller as readings of a monotonic clock, in
//! nanoseconds.

use crate::cast::total;
use crate::decoder::{ReplicationDecoder, Step};
use crate::error::{fails_with, ErrorClass, ReplicationError};
use crate::message::{Event, LogicalMessage, ReplicationMessage};
use crate::lsn::{lsn_from_text, next_frontier, parse_lsn};
use crate::query::{column_value, get_column, QueryMessage};
use crate::schema::{altered_text, dropped_text, SourceTable, TableDesc};
use std::collections::BTreeMap;
use vstd::prelude::*;

verus! {

/// How often a status update is sent to the upstream: every 30 seconds.
pub const FEEDBACK_INTERVAL: u64 = 30_000_000_000;

/// How long the stream may stay without a message of the write-ahead log
/// before lag is suspected: 30 seconds.
pub const WAL_LAG_GRACE_PERIOD: u64 = 30_000_000_000;

/// The time from one reading of the clock to a later one; nothing where the
/// second is not later.
pub open spec fn elapsed(since: u64, now: u64) -> int {
    if now >= since {
        now - since
    } else {
        0
    }
}

/// What became of a message of the replication stream.
#[derive(Debug, PartialEq, Eq)]
pub enum Advance<D> {
    /// A message of the write-ahead log was decoded.
    Data(Step<D>),
    /// The upstream told where its log ends.
    KeptAlive,
    /// The upstream told where its log ends, and no message of the log has
    /// come for longer than the grace period: the stream is to be left and
    /// the slot probed for changes.
    Probe,
}

/// What the caller does after a message.
#[derive(Debug, PartialEq, Eq)]
pub struct Handled<D> {
    /// What became of the message.
    pub advance: Advance<D>,
    /// Whether a status update is to be sent now.
    pub send_status_update: bool,
}

/// The state of one replication stream.
#[derive(Debug)]
pub struct ReplicationStream<D> {
    /// The transactional state.
    pub decoder: ReplicationDecoder<D>,
    /// The end of the upstream's log as the last keepalive told it.
    pub observed_wal_end: u64,
    /// When the last status update was sent.
    pub last_feedback: u64,
    /// When the last message of the write-ahead log came.
    pub last_data_message: u64,
}

/// The text of the error for a message that is neither a piece of the log
/// nor a keepalive.
pub open spec fn unexpected_replication_text() -> Seq<char> {
    "Unexpected replication message"@
}

impl<D> ReplicationStream<D> {
    /// The state of a stream that is to start behind `as_of`.
    pub fn new(as_of: u64, now: u64) -> (stream: Self)
        ensures
            stream.decoder.idle(),
            stream.decoder.last_commit_lsn == as_of,
            stream.observed_wal_end == as_of,
            stream.last_feedback == now,
            stream.last_data_message == now,
    {
        ReplicationStream {
            decoder: ReplicationDecoder::new(as_of),
            observed_wal_end: as_of,
            last_feedback: now,
            last_data_message: now,
        }
    }

    /// The stream has been opened anew: silence counts from now.
    pub fn opened(&mut self, now: u64)
        ensures
            final(self).decoder == old(self).decoder,
            final(self).observed_wal_end == old(self).observed_wal_end,
            final(self).last_feedback == old(self).last_feedback,
            final(self).last_data_message == now,
    {
        self.last_data_message = now;
    }

    /// Whether the upstream has not heard from the source for longer than
    /// the feedback interval. The upstream asks for status updates itself,
    /// but its requests can be late by any time, so updates are also sent
    /// unasked.
    pub fn status_update_due(&self, now: u64) -> (due: bool)
        ensures
            due == (elapsed(self.last_feedback, now) > FEEDBACK_INTERVAL),
    {
        now >= self.last_feedback && now - self.last_feedback > FEEDBACK_INTERVAL
    }

    /// A status update has been sent.
    pub fn feedback_sent(&mut self, now: u64)
        ensures
            final(self).decoder == old(self).decoder,
            final(self).observed_wal_end == old(self).observed_wal_end,
            final(self).last_data_message == old(self).last_data_message,
            final(self).last_feedback == now,
    {
        self.last_feedback = now;
    }

    /// What handling a message of the stream comes to. `status_due` is
    /// whether a status update was due when the wait for the message began,
    /// `now` is when the message is handled.
    pub open spec fn advanced<C, F: Fn(&C, &Vec<Option<String>>) -> Result<D, String>>(
        self,
        tables: Map<u32, SourceTable<C>>,
        message: ReplicationMessage,
        status_due: bool,
        now: u64,
        eval: &F,
        post: Self,
        res: Result<Handled<D>, ReplicationError>,
    ) -> bool {
        match message {
            ReplicationMessage::XLogData(data) => {
                &&& post.observed_wal_end == self.observed_wal_end
                &&& post.last_feedback == self.last_feedback
                &&& match res {
                    Ok(handled) => {
                        &&& handled.send_status_update == status_due
                        &&& post.last_data_message == now
                        &&& handled.advance matches Advance::Data(step)
                        &&& self.decoder.handled(
                            tables,
                            data,
                            eval,
                            post.decoder,
                            Ok::<_, ReplicationError>(step),
                        )
                    },
                    Err(e) => {
                        &&& post.last_data_message == self.last_data_message
                        &&& self.decoder.handled(
                            tables,
                            data,
                            eval,
                            post.decoder,
                            Err::<Step<D>, _>(e),
                        )
                    },
                }
            },
            ReplicationMessage::PrimaryKeepAlive { wal_end, reply } => {
                &&& post.decoder == self.decoder
                &&& post.observed_wal_end == wal_end
                &&& post.last_feedback == self.last_feedback
                &&& post.last_data_message == self.last_data_message
                &&& res == Ok::<_, ReplicationError>(
                    if elapsed(self.last_data_message, now) > WAL_LAG_GRACE_PERIOD {
                        Handled { advance: Advance::<D>::Probe, send_status_update: false }
                    } else {
                        Handled {
                            advance: Advance::<D>::KeptAlive,
                            send_status_update: status_due || reply == 1,
                        }
                    },
                )
            },
            ReplicationMessage::Other => post == self && fails_with(
                res,
                ErrorClass::Definite,
                unexpected_replication_text(),
            ),
        }
    }

    /// Handles one message of the replication stream.
    ///
    /// A commit whose end is the largest LSN has no frontier behind it, and
    /// is not a message that this function takes.
    pub fn handle_message<C, F: Fn(&C, &Vec<Option<String>>) -> Result<D, String>>(
        &mut self,
        source_tables: &BTreeMap<u32, SourceTable<C>>,
        message: &ReplicationMessage,
        status_due: bool,
        now: u64,
        eval: &F,
    ) -> (res: Result<Handled<D>, ReplicationError>)
        requires
            total(eval),
            message matches ReplicationMessage::XLogData(LogicalMessage::Commit { end_lsn })
                ==> end_lsn < u64::MAX,
        ensures
            old(self).advanced(
                source_tables@,
                *message,
                status_due,
                now,
                eval,
                *final(self),
                res,
            ),
    {
        match message {
            ReplicationMessage::XLogData(data) => {
                let step = self.decoder.handle_data(source_tables, data, eval)?;
                self.last_data_message = now;
                Ok(Handled { advance: Advance::Data(step), send_status_update: status_due })
            },
            ReplicationMessage::PrimaryKeepAlive { wal_end, reply } => {
                self.observed_wal_end = *wal_end;
                if now >= self.last_data_message && now - self.last_data_message
                    > WAL_LAG_GRACE_PERIOD {
                    Ok(Handled { advance: Advance::Probe, send_status_update: false })
                } else {
                    Ok(
                        Handled {
                            advance: Advance::KeptAlive,
                            send_status_update: status_due || *reply == 1,
                        },
                    )
                }
            },
            // Better be conservative with messages that are not known
            ReplicationMessage::Other => Err(
                ReplicationError::Definite("Unexpected replication message".to_owned()),
            ),
        }
    }

    /// What a probe of the slot that found `changes` changes behind the last
    /// commit comes to: with none, the stream skips to the end of the
    /// upstream's log as last observed and the frontier moves behind it;
    /// with some, the lag is genuine and nothing moves.
    pub open spec fn fast_forwarded(self, changes: usize, post: Self, event: Option<Event<D>>) -> bool {
        &&& post.decoder.inserts == self.decoder.inserts
        &&& post.decoder.deletes == self.decoder.deletes
        &&& post.observed_wal_end == self.observed_wal_end
        &&& post.last_feedback == self.last_feedback
        &&& post.last_data_message == self.last_data_message
        &&& if changes == 0 {
            &&& post.decoder.last_commit_lsn == self.observed_wal_end
            &&& event == Some(Event::<D>::Progress((self.observed_wal_end + 1) as u64))
        } else {
            &&& post.decoder.last_commit_lsn == self.decoder.last_commit_lsn
            &&& event is None
        }
    }

    /// Settles a probe of the slot.
    ///
    /// Where the upstream's log as last observed ends at the largest LSN
    /// there is no frontier behind it to skip to.
    pub fn fast_forward(&mut self, changes: usize) -> (event: Option<Event<D>>)
        requires
            changes == 0 ==> old(self).observed_wal_end < u64::MAX,
        ensures
            old(self).fast_forwarded(changes, *final(self), event),
    {
        // If there are no changes until the end of the WAL it's safe to fast forward
        if changes == 0 {
            self.decoder.last_commit_lsn = self.observed_wal_end;
            // `Progress` events are frontiers, so we add 1, as for a commit
            Some(Event::Progress(next_frontier(self.decoder.last_commit_lsn)))
        } else {
            None
        }
    }
}

/// What is wrong with an ingested table whose shape the upstream has just
/// described anew, given the table that the publication holds under its OID
/// now; `None` where that table is compatible.
pub open spec fn relation_fault(desc: TableDesc, current: Option<TableDesc>) -> Option<Seq<char>> {
    match current {
        Some(upstream) => if desc.compatible_with(upstream) {
            None
        } else {
            Some(altered_text(desc.name@, desc.oid))
        },
        None => Some(dropped_text(desc.name@, desc.oid)),
    }
}

/// Checks an ingested table against the table that the publication holds
/// under its OID now. The replication stream does not say which columns of
/// the upstream a tuple's fields are, so the shapes must agree. The failure
/// is definite.
pub fn check_relation<C>(info: &SourceTable<C>, current: Option<&TableDesc>) -> (res: Result<
    (),
    ReplicationError,
>)
    ensures
        match relation_fault(
            info.desc,
            match current {
                Some(desc) => Some(*desc),
                None => None,
            },
        ) {
            None => res is Ok,
            Some(text) => fails_with(res, ErrorClass::Definite, text),
        },
{
    match current {
        Some(desc) => match info.desc.determine_compatibility(desc) {
            Ok(()) => Ok(()),
            Err(text) => Err(ReplicationError::Definite(text)),
        },
        None => Err(ReplicationError::Definite(info.desc.dropped())),
    }
}

/// Why the answer to a probe of the slot cannot be read.
#[derive(Clone, Copy, Debug, PartialEq, Eq, Structural)]
pub enum ProbeFault {
    /// A row has no value in its column `lsn`.
    MissingLsn,
    /// A row's value in its column `lsn` is not an LSN.
    InvalidLsn,
    /// A message is neither a row nor the completion of the statement.
    UnexpectedMessage,
}

/// The LSN of a change that a probe lists, or why it cannot be read.
pub open spec fn change_lsn(message: QueryMessage) -> Result<Option<u64>, ProbeFault> {
    match message {
        QueryMessage::Row(row) => match column_value(row@, "lsn"@) {
            None => Err(ProbeFault::MissingLsn),
            Some(text) => match lsn_from_text(text) {
                Some(lsn) => Ok(Some(lsn)),
                None => Err(ProbeFault::InvalidLsn),
            },
        },
        QueryMessage::CommandComplete(_) => Ok(None),
        QueryMessage::Other => Err(ProbeFault::UnexpectedMessage),
    }
}

/// How many of the changes that a probe lists lie behind `last_commit_lsn`,
/// or the fault of the first message that cannot be read.
pub open spec fn changes_after(messages: Seq<QueryMessage>, last_commit_lsn: u64) -> Result<
    nat,
    ProbeFault,
>
    decreases messages.len(),
{
    if messages.len() == 0 {
        Ok(0)
    } else {
        match changes_after(messages.drop_last(), last_commit_lsn) {
            Err(fault) => Err(fault),
            Ok(count) => match change_lsn(messages.last()) {
                Err(fault) => Err(fault),
                Ok(Some(lsn)) => if lsn > last_commit_lsn {
                    Ok(count + 1)
                } else {
                    Ok(count)
                },
                Ok(None) => Ok(count),
            },
        }
    }
}

/// Settles one message of a probe's answer, given the value of its column
/// `lsn` and the LSN read from it: whether it is a change behind
/// `last_commit_lsn`, or why it cannot be read.
pub fn count_change(
    is_row: bool,
    is_completion: bool,
    value: Option<&String>,
    parsed: Option<u64>,
    last_commit_lsn: u64,
) -> (res: Result<bool, ProbeFault>)
    ensures
        res == if is_row {
            match value {
                None => Err::<bool, _>(ProbeFault::MissingLsn),
                Some(_) => match parsed {
                    // Keep all the changes that may exist after the last observed commit
                    Some(lsn) => Ok(lsn > last_commit_lsn),
                    None => Err(ProbeFault::InvalidLsn),
                },
            }
        } else if is_completion {
            Ok(false)
        } else {
            Err(ProbeFault::UnexpectedMessage)
        },
{
    if is_row {
        match value {
            None => Err(ProbeFault::MissingLsn),
            Some(_) => match parsed {
                Some(lsn) => Ok(lsn > last_commit_lsn),
                None => Err(ProbeFault::InvalidLsn),
            },
        }
    } else if is_completion {
        Ok(false)
    } else {
        Err(ProbeFault::UnexpectedMessage)
    }
}

/// Counts the changes that a probe of the slot lists behind
/// `last_commit_lsn`. With none, nothing that concerns the publication lies
/// between there and the end of the upstream's log.
pub fn count_changes(messages: &Vec<QueryMessage>, last_commit_lsn: u64) -> (res: Result<
    usize,
    ProbeFault,
>)
    ensures
        match changes_after(messages@, last_commit_lsn) {
            Ok(count) => res matches Ok(changes) && changes == count,
            Err(fault) => res == Err::<usize, ProbeFault>(fault),
        },
{
    let mut changes: usize = 0;
    let mut i: usize = 0;
    assert(messages@.take(0) =~= Seq::empty());
    while i < messages.len()
        invariant
            i <= messages@.len(),
            changes <= i,
            changes_after(messages@.take(i as int), last_commit_lsn) == Ok::<nat, ProbeFault>(
                changes as nat,
            ),
        decreases messages@.len() - i,
    {
        proof {
            let head = messages@.take(i + 1);
            assert(head.last() == messages@[i as int]);
            assert(head.drop_last() =~= messages@.take(i as int));
        }
        let counted = match &messages[i] {
            QueryMessage::Row(row) => {
                let value = get_column(row, "lsn");
                let parsed = match value {
                    Some(text) => parse_lsn(text.as_str()),
                    None => None,
                };
                count_change(true, false, value, parsed, last_commit_lsn)
            },
            QueryMessage::CommandComplete(_) => count_change(
                false,
                true,
                None,
                None,
                last_commit_lsn,
            ),
            QueryMessage::Other => count_change(false, false, None, None, last_commit_lsn),
        };
        match counted {
            Ok(true) => {
                changes = changes + 1;
            },
            Ok(false) => {},
            Err(fault) => {
                proof {
                    lemma_fault_stays(messages@, last_commit_lsn, i as int, messages@.len() as int);
                    assert(messages@.take(messages@.len() as int) =~= messages@);
                }
                return Err(fault);
            },
        }
        i = i + 1;
    }
    proof {
        assert(messages@.take(i as int) =~= messages@);
    }
    Ok(changes)
}

/// Once a message cannot be read, every longer run of messages has that
/// fault.
proof fn lemma_fault_stays(messages: Seq<QueryMessage>, last_commit_lsn: u64, i: int, n: int)
    requires
        0 <= i < n <= messages.len(),
        changes_after(messages.take(i), last_commit_lsn) is Ok,
        change_lsn(messages[i]) is Err,
    ensures
        changes_after(messages.take(n), last_commit_lsn) == Err::<nat, _>(
            change_lsn(messages[i])->Err_0,
        ),
    decreases n - i,
{
    let head = messages.take(n);
    assert(head.drop_last() =~= messages.take(n - 1));
    if n == i + 1 {
        assert(head.last() == messages[i]);
    } else {
        lemma_fault_stays(messages, last_commit_lsn, i, n - 1);
    }
}

} // verus!
