//! The replication decoder: from the messages of a logical replication
//! stream to transactional batches of row changes.
//!
//! Changes are buffered per transaction and handed on when it commits, every
//! deleted row before every inserted one, so that a row that an update
//! replaces is retracted before its replacement arrives at the same LSN.

use crate::cast::{cast_fails, cast_row, casts_to, total};
use crate::error::{fails_with, ErrorClass, ReplicationError};
use crate::lsn::next_frontier;
use crate::message::{commit_events, emit_rows, BufferedRow, Event, LogicalMessage};
use crate::schema::SourceTable;
use crate::text::{concat3, decimal, decimal_text};
use crate::tuple::{
    backfill_toast, backfilled, datums_from_tuple, pointed, row_text, tuple_datums, tuple_fields,
    TupleData,
};
use std::collections::BTreeMap;
use vstd::prelude::*;
use vstd::string::*;

verus! {

/// What the decoder did with a message of the write-ahead log.
#[derive(Debug, PartialEq, Eq)]
pub enum Step<D> {
    /// A transaction has begun.
    Began,
    /// A change to an ingested table waits for its commit.
    Buffered,
    /// The message does not concern the ingested tables.
    Ignored,
    /// The transaction has committed: these events are to be handed on, in
    /// order.
    Committed(Vec<Event<D>>),
    /// The upstream described an ingested table anew: its current shape is
    /// to be fetched and checked against the table as it was ingested.
    VerifyRelation(u32),
    /// The upstream described a table that is not ingested.
    Skipped,
}

/// The state of the decoder between two messages.
#[derive(Debug)]
pub struct ReplicationDecoder<D> {
    /// The rows that the open transaction has inserted, in order.
    pub inserts: Vec<BufferedRow<D>>,
    /// The rows that the open transaction has deleted, in order.
    pub deletes: Vec<BufferedRow<D>>,
    /// The end of the last transaction that was handed on, or the position
    /// that the stream was told to skip to.
    pub last_commit_lsn: u64,
}

/// Whether `row` can come out of decoding `fields` as a row of `table`: the
/// first fields, as many as the table has columns, read as text and cast.
pub open spec fn decodes_to<C, D, F: Fn(&C, &Vec<Option<String>>) -> Result<D, String>>(
    eval: &F,
    table: SourceTable<C>,
    rel_id: u32,
    fields: Seq<TupleData>,
    row: Seq<D>,
) -> bool {
    exists|datums: Vec<Option<String>>|
        {
            &&& tuple_datums(rel_id, table.desc.columns@.len() as usize, fields) == Ok::<
                _,
                Seq<char>,
            >(row_text(datums@))
            &&& #[trigger] casts_to(eval, table.casts@, &datums, row)
        }
}

/// Whether decoding `fields` as a row of `table` can fail with the error
/// `text`: reading the fields as text gives it, or casting them does.
pub open spec fn decode_fails<C, D, F: Fn(&C, &Vec<Option<String>>) -> Result<D, String>>(
    eval: &F,
    table: SourceTable<C>,
    rel_id: u32,
    fields: Seq<TupleData>,
    text: Seq<char>,
) -> bool {
    match tuple_datums(rel_id, table.desc.columns@.len() as usize, fields) {
        Err(t) => text == t,
        Ok(texts) => exists|datums: Vec<Option<String>>|
            row_text(datums@) == texts && #[trigger] cast_fails(
                eval,
                table.casts@,
                &datums,
                text,
            ),
    }
}

/// Decodes a tuple of the replication stream as a row of an ingested table.
/// Every failure is definite: the data does not fit the table.
pub fn decode_row<C, D, F: Fn(&C, &Vec<Option<String>>) -> Result<D, String>>(
    rel_id: u32,
    info: &SourceTable<C>,
    fields: &Vec<&TupleData>,
    eval: &F,
) -> (res: Result<Vec<D>, ReplicationError>)
    requires
        total(eval),
    ensures
        match res {
            Ok(row) => decodes_to(eval, *info, rel_id, pointed(fields@), row@),
            Err(e) => e.class() == ErrorClass::Definite && decode_fails(
                eval,
                *info,
                rel_id,
                pointed(fields@),
                e.text(),
            ),
        },
{
    let datums = match datums_from_tuple(rel_id, info.desc.columns.len(), fields) {
        Ok(datums) => datums,
        Err(e) => {
            return Err(ReplicationError::Definite(e));
        },
    };
    match cast_row(&info.casts, &datums, eval) {
        Ok(row) => {
            proof {
                assert(casts_to(eval, info.casts@, &datums, row@));
            }
            Ok(row)
        },
        Err(e) => {
            proof {
                assert(cast_fails(eval, info.casts@, &datums, e@));
            }
            Err(ReplicationError::Definite(e))
        },
    }
}

/// The text of the error for a transaction that begins inside another.
pub open spec fn begin_text() -> Seq<char> {
    "got BEGIN statement after uncommitted data"@
}

/// The text of the error for a change that comes without the old row.
pub open spec fn old_row_missing_text(rel_id: u32) -> Seq<char> {
    "Old row missing from replication stream for table with OID = "@ + decimal_text(rel_id as nat)
        + ".\n                                     Did you forget to set REPLICA IDENTITY to FULL for your table?"@
}

/// The text of the error for a message that the decoder does not know.
pub open spec fn unexpected_message_text() -> Seq<char> {
    "unexpected logical replication message"@
}

fn old_row_missing(rel_id: u32) -> (err: ReplicationError)
    ensures
        err.class() == ErrorClass::Definite,
        err.text() == old_row_missing_text(rel_id),
{
    let digits = decimal(rel_id as u64);
    ReplicationError::Definite(
        concat3(
            "Old row missing from replication stream for table with OID = ",
            digits.as_str(),
            ".\n                                     Did you forget to set REPLICA IDENTITY to FULL for your table?",
        ),
    )
}

/// How one table shows in the error for a truncation.
pub open spec fn truncated_table_text(name: Seq<char>, oid: u32) -> Seq<char> {
    "name: "@ + name + " id: "@ + decimal_text(oid as nat)
}

/// The ingested tables among `rel_ids`, in that order and as often as they
/// occur, as the error for a truncation lists them: separated by a comma and
/// a space.
pub open spec fn truncated_tables_text<C>(
    tables: Map<u32, SourceTable<C>>,
    rel_ids: Seq<u32>,
) -> Seq<char>
    decreases rel_ids.len(),
{
    if rel_ids.len() == 0 {
        Seq::empty()
    } else {
        let head = truncated_tables_text(tables, rel_ids.drop_last());
        let rel_id = rel_ids.last();
        if tables.contains_key(rel_id) {
            let entry = truncated_table_text(tables[rel_id].desc.name@, tables[rel_id].desc.oid);
            if head.len() == 0 {
                entry
            } else {
                head + ", "@ + entry
            }
        } else {
            head
        }
    }
}

/// The text of the error for a truncation of `rel_ids`.
pub open spec fn truncated_text<C>(tables: Map<u32, SourceTable<C>>, rel_ids: Seq<u32>) -> Seq<
    char,
> {
    "source table(s) "@ + truncated_tables_text(tables, rel_ids) + " got truncated"@
}

fn truncated<C>(source_tables: &BTreeMap<u32, SourceTable<C>>, rel_ids: &Vec<u32>) -> (err:
    ReplicationError)
    ensures
        err.class() == ErrorClass::Definite,
        err.text() == truncated_text(source_tables@, rel_ids@),
{
    let mut list = String::new();
    let mut i: usize = 0;
    assert(rel_ids@.take(0) =~= Seq::empty());
    while i < rel_ids.len()
        invariant
            i <= rel_ids@.len(),
            list@ == truncated_tables_text(source_tables@, rel_ids@.take(i as int)),
        decreases rel_ids@.len() - i,
    {
        proof {
            let head = rel_ids@.take(i + 1);
            assert(head.last() == rel_ids@[i as int]);
            assert(head.drop_last() =~= rel_ids@.take(i as int));
        }
        match source_tables.get(&rel_ids[i]) {
            Some(info) => {
                let was_empty = list.as_str().unicode_len() == 0;
                if !was_empty {
                    list.append(", ");
                }
                let ghost lead = list@;
                list.append("name: ");
                list.append(info.desc.name.as_str());
                list.append(" id: ");
                let digits = decimal(info.desc.oid as u64);
                list.append(digits.as_str());
                proof {
                    let entry = truncated_table_text(info.desc.name@, info.desc.oid);
                    assert(list@ =~= lead + entry);
                    if was_empty {
                        assert(lead + entry =~= entry);
                    }
                }
            },
            None => {},
        }
        i = i + 1;
    }
    proof {
        assert(rel_ids@.take(i as int) =~= rel_ids@);
    }
    ReplicationError::Definite(concat3("source table(s) ", list.as_str(), " got truncated"))
}

impl<D> ReplicationDecoder<D> {
    /// A decoder for a stream that starts behind `as_of`.
    pub fn new(as_of: u64) -> (decoder: Self)
        ensures
            decoder.idle(),
            decoder.last_commit_lsn == as_of,
    {
        ReplicationDecoder { inserts: Vec::new(), deletes: Vec::new(), last_commit_lsn: as_of }
    }

    /// Whether no change waits for a commit.
    pub open spec fn idle(self) -> bool {
        self.inserts@.len() == 0 && self.deletes@.len() == 0
    }

    /// Whether `post` is this state with one more inserted row.
    pub open spec fn with_insert(self, post: Self, output: usize, row: Vec<D>) -> bool {
        &&& post.inserts@ == self.inserts@.push(BufferedRow { output, row })
        &&& post.deletes == self.deletes
        &&& post.last_commit_lsn == self.last_commit_lsn
    }

    /// Whether `post` is this state with one more deleted row.
    pub open spec fn with_delete(self, post: Self, output: usize, row: Vec<D>) -> bool {
        &&& post.deletes@ == self.deletes@.push(BufferedRow { output, row })
        &&& post.inserts == self.inserts
        &&& post.last_commit_lsn == self.last_commit_lsn
    }

    /// Whether `post` is this state with one more deleted and one more
    /// inserted row.
    pub open spec fn with_update(
        self,
        post: Self,
        output: usize,
        old_row: Vec<D>,
        new_row: Vec<D>,
    ) -> bool {
        &&& post.deletes@ == self.deletes@.push(BufferedRow { output, row: old_row })
        &&& post.inserts@ == self.inserts@.push(BufferedRow { output, row: new_row })
        &&& post.last_commit_lsn == self.last_commit_lsn
    }

    /// What handling an insert into an ingested table comes to.
    pub open spec fn inserted<C, F: Fn(&C, &Vec<Option<String>>) -> Result<D, String>>(
        self,
        table: SourceTable<C>,
        rel_id: u32,
        new_tuple: Seq<TupleData>,
        eval: &F,
        post: Self,
        res: Result<Step<D>, ReplicationError>,
    ) -> bool {
        match res {
            Ok(step) => step == Step::<D>::Buffered && exists|row: Vec<D>|
                {
                    &&& #[trigger] decodes_to(eval, table, rel_id, new_tuple, row@)
                    &&& self.with_insert(post, table.output_index, row)
                },
            Err(e) => post == self && e.class() == ErrorClass::Definite && decode_fails(
                eval,
                table,
                rel_id,
                new_tuple,
                e.text(),
            ),
        }
    }

    /// What handling a delete from an ingested table comes to.
    pub open spec fn deleted<C, F: Fn(&C, &Vec<Option<String>>) -> Result<D, String>>(
        self,
        table: SourceTable<C>,
        rel_id: u32,
        old_tuple: Option<Vec<TupleData>>,
        eval: &F,
        post: Self,
        res: Result<Step<D>, ReplicationError>,
    ) -> bool {
        match old_tuple {
            None => post == self && fails_with(
                res,
                ErrorClass::Definite,
                old_row_missing_text(rel_id),
            ),
            Some(old) => match res {
                Ok(step) => step == Step::<D>::Buffered && exists|row: Vec<D>|
                    {
                        &&& #[trigger] decodes_to(eval, table, rel_id, old@, row@)
                        &&& self.with_delete(post, table.output_index, row)
                    },
                Err(e) => post == self && e.class() == ErrorClass::Definite && decode_fails(
                    eval,
                    table,
                    rel_id,
                    old@,
                    e.text(),
                ),
            },
        }
    }

    /// What handling an update of an ingested table comes to. The old row
    /// is decoded first; the new row is decoded with the fields that the
    /// upstream left out taken from the old tuple.
    pub open spec fn updated<C, F: Fn(&C, &Vec<Option<String>>) -> Result<D, String>>(
        self,
        table: SourceTable<C>,
        rel_id: u32,
        old_tuple: Option<Vec<TupleData>>,
        new_tuple: Seq<TupleData>,
        eval: &F,
        post: Self,
        res: Result<Step<D>, ReplicationError>,
    ) -> bool {
        match old_tuple {
            None => post == self && fails_with(
                res,
                ErrorClass::Definite,
                old_row_missing_text(rel_id),
            ),
            Some(old) => match res {
                Ok(step) => step == Step::<D>::Buffered && exists|old_row: Vec<D>, new_row: Vec<D>|
                    {
                        &&& #[trigger] decodes_to(eval, table, rel_id, old@, old_row@)
                        &&& #[trigger] decodes_to(
                            eval,
                            table,
                            rel_id,
                            backfilled(new_tuple, old@),
                            new_row@,
                        )
                        &&& self.with_update(post, table.output_index, old_row, new_row)
                    },
                Err(e) => {
                    &&& post == self
                    &&& e.class() == ErrorClass::Definite
                    &&& {
                        ||| decode_fails(eval, table, rel_id, old@, e.text())
                        ||| {
                            &&& exists|old_row: Seq<D>| #[trigger]
                                decodes_to(eval, table, rel_id, old@, old_row)
                            &&& decode_fails(
                                eval,
                                table,
                                rel_id,
                                backfilled(new_tuple, old@),
                                e.text(),
                            )
                        }
                    }
                },
            },
        }
    }

    /// What handling a commit comes to: the buffered changes are handed on
    /// at the end of the transaction, and the decoder is idle again.
    pub open spec fn committed(
        self,
        end_lsn: u64,
        post: Self,
        res: Result<Step<D>, ReplicationError>,
    ) -> bool {
        &&& post.idle()
        &&& post.last_commit_lsn == end_lsn
        &&& res matches Ok(Step::Committed(events)) && events@ == commit_events(
            self.deletes@,
            self.inserts@,
            end_lsn,
        )
    }

    /// What handling a message of the write-ahead log comes to: the state
    /// afterwards and the step taken or the error. Changes to tables that
    /// are not ingested are ignored; after an error the state is as before.
    pub open spec fn handled<C, F: Fn(&C, &Vec<Option<String>>) -> Result<D, String>>(
        self,
        tables: Map<u32, SourceTable<C>>,
        message: LogicalMessage,
        eval: &F,
        post: Self,
        res: Result<Step<D>, ReplicationError>,
    ) -> bool {
        match message {
            LogicalMessage::Begin => post == self && if self.idle() {
                res == Ok::<_, ReplicationError>(Step::<D>::Began)
            } else {
                fails_with(res, ErrorClass::Definite, begin_text())
            },
            LogicalMessage::Insert { rel_id, new_tuple } => if tables.contains_key(rel_id) {
                self.inserted(tables[rel_id], rel_id, new_tuple@, eval, post, res)
            } else {
                post == self && res == Ok::<_, ReplicationError>(Step::<D>::Ignored)
            },
            LogicalMessage::Update { rel_id, old_tuple, new_tuple } => if tables.contains_key(
                rel_id,
            ) {
                self.updated(tables[rel_id], rel_id, old_tuple, new_tuple@, eval, post, res)
            } else {
                post == self && res == Ok::<_, ReplicationError>(Step::<D>::Ignored)
            },
            LogicalMessage::Delete { rel_id, old_tuple } => if tables.contains_key(rel_id) {
                self.deleted(tables[rel_id], rel_id, old_tuple, eval, post, res)
            } else {
                post == self && res == Ok::<_, ReplicationError>(Step::<D>::Ignored)
            },
            LogicalMessage::Commit { end_lsn } => self.committed(end_lsn, post, res),
            LogicalMessage::Relation { rel_id } => post == self && res == Ok::<
                _,
                ReplicationError,
            >(
                if tables.contains_key(rel_id) {
                    Step::<D>::VerifyRelation(rel_id)
                } else {
                    Step::<D>::Skipped
                },
            ),
            LogicalMessage::Origin => post == self && res == Ok::<_, ReplicationError>(
                Step::<D>::Ignored,
            ),
            LogicalMessage::Type => post == self && res == Ok::<_, ReplicationError>(
                Step::<D>::Ignored,
            ),
            LogicalMessage::Truncate { rel_ids } => post == self && fails_with(
                res,
                ErrorClass::Definite,
                truncated_text(tables, rel_ids@),
            ),
            LogicalMessage::Other => post == self && fails_with(
                res,
                ErrorClass::Definite,
                unexpected_message_text(),
            ),
        }
    }

    /// Buffers an inserted row.
    fn handle_insert<C, F: Fn(&C, &Vec<Option<String>>) -> Result<D, String>>(
        &mut self,
        info: &SourceTable<C>,
        rel_id: u32,
        new_tuple: &Vec<TupleData>,
        eval: &F,
    ) -> (res: Result<Step<D>, ReplicationError>)
        requires
            total(eval),
        ensures
            old(self).inserted(*info, rel_id, new_tuple@, eval, *final(self), res),
    {
        let fields = tuple_fields(new_tuple);
        let row = decode_row(rel_id, info, &fields, eval)?;
        proof {
            assert(decodes_to(eval, *info, rel_id, new_tuple@, row@));
        }
        self.inserts.push(BufferedRow { output: info.output_index, row });
        Ok(Step::Buffered)
    }

    /// Buffers a deleted row.
    fn handle_delete<C, F: Fn(&C, &Vec<Option<String>>) -> Result<D, String>>(
        &mut self,
        info: &SourceTable<C>,
        rel_id: u32,
        old_tuple: &Option<Vec<TupleData>>,
        eval: &F,
    ) -> (res: Result<Step<D>, ReplicationError>)
        requires
            total(eval),
        ensures
            old(self).deleted(*info, rel_id, *old_tuple, eval, *final(self), res),
    {
        let old = match old_tuple {
            Some(old) => old,
            None => {
                return Err(old_row_missing(rel_id));
            },
        };
        let fields = tuple_fields(old);
        let row = decode_row(rel_id, info, &fields, eval)?;
        proof {
            assert(decodes_to(eval, *info, rel_id, old@, row@));
        }
        self.deletes.push(BufferedRow { output: info.output_index, row });
        Ok(Step::Buffered)
    }

    /// Buffers the two rows of an update.
    fn handle_update<C, F: Fn(&C, &Vec<Option<String>>) -> Result<D, String>>(
        &mut self,
        info: &SourceTable<C>,
        rel_id: u32,
        old_tuple: &Option<Vec<TupleData>>,
        new_tuple: &Vec<TupleData>,
        eval: &F,
    ) -> (res: Result<Step<D>, ReplicationError>)
        requires
            total(eval),
        ensures
            old(self).updated(*info, rel_id, *old_tuple, new_tuple@, eval, *final(self), res),
    {
        let old = match old_tuple {
            Some(old) => old,
            None => {
                return Err(old_row_missing(rel_id));
            },
        };
        let old_fields = tuple_fields(old);
        let old_row = decode_row(rel_id, info, &old_fields, eval)?;
        proof {
            assert(decodes_to(eval, *info, rel_id, old@, old_row@));
        }
        // If the new tuple contains unchanged toast values, reuse the ones from the old tuple
        let new_fields = backfill_toast(new_tuple, old);
        let new_row = decode_row(rel_id, info, &new_fields, eval)?;
        proof {
            assert(decodes_to(
                eval,
                *info,
                rel_id,
                backfilled(new_tuple@, old@),
                new_row@,
            ));
        }
        self.deletes.push(BufferedRow { output: info.output_index, row: old_row });
        self.inserts.push(BufferedRow { output: info.output_index, row: new_row });
        Ok(Step::Buffered)
    }

    /// Hands on the changes of the transaction that ends at `end_lsn`.
    fn handle_commit(&mut self, end_lsn: u64) -> (res: Result<Step<D>, ReplicationError>)
        requires
            end_lsn < u64::MAX,
        ensures
            old(self).committed(end_lsn, *final(self), res),
    {
        self.last_commit_lsn = end_lsn;
        let mut deletes: Vec<BufferedRow<D>> = Vec::new();
        let mut inserts: Vec<BufferedRow<D>> = Vec::new();
        std::mem::swap(&mut self.deletes, &mut deletes);
        std::mem::swap(&mut self.inserts, &mut inserts);
        let mut events: Vec<Event<D>> = Vec::new();
        emit_rows(&mut events, deletes, end_lsn, -1);
        emit_rows(&mut events, inserts, end_lsn, 1);
        events.push(Event::Progress(next_frontier(end_lsn)));
        Ok(Step::Committed(events))
    }

    /// Handles one message of the write-ahead log.
    ///
    /// A commit whose end is the largest LSN has no frontier behind it, and
    /// is not a message that this function takes.
    pub fn handle_data<C, F: Fn(&C, &Vec<Option<String>>) -> Result<D, String>>(
        &mut self,
        source_tables: &BTreeMap<u32, SourceTable<C>>,
        message: &LogicalMessage,
        eval: &F,
    ) -> (res: Result<Step<D>, ReplicationError>)
        requires
            total(eval),
            message matches LogicalMessage::Commit { end_lsn } ==> end_lsn < u64::MAX,
        ensures
            old(self).handled(source_tables@, *message, eval, *final(self), res),
    {
        match message {
            LogicalMessage::Begin => {
                if !self.inserts.is_empty() || !self.deletes.is_empty() {
                    return Err(
                        ReplicationError::Definite(
                            "got BEGIN statement after uncommitted data".to_owned(),
                        ),
                    );
                }
                Ok(Step::Began)
            },
            LogicalMessage::Insert { rel_id, new_tuple } => {
                match source_tables.get(rel_id) {
                    Some(info) => self.handle_insert(info, *rel_id, new_tuple, eval),
                    None => Ok(Step::Ignored),
                }
            },
            LogicalMessage::Update { rel_id, old_tuple, new_tuple } => {
                match source_tables.get(rel_id) {
                    Some(info) => self.handle_update(info, *rel_id, old_tuple, new_tuple, eval),
                    None => Ok(Step::Ignored),
                }
            },
            LogicalMessage::Delete { rel_id, old_tuple } => {
                match source_tables.get(rel_id) {
                    Some(info) => self.handle_delete(info, *rel_id, old_tuple, eval),
                    None => Ok(Step::Ignored),
                }
            },
            LogicalMessage::Commit { end_lsn } => self.handle_commit(*end_lsn),
            LogicalMessage::Relation { rel_id } => {
                if source_tables.contains_key(rel_id) {
                    Ok(Step::VerifyRelation(*rel_id))
                } else {
                    Ok(Step::Skipped)
                }
            },
            LogicalMessage::Origin => Ok(Step::Ignored),
            LogicalMessage::Type => Ok(Step::Ignored),
            LogicalMessage::Truncate { rel_ids } => Err(truncated(source_tables, rel_ids)),
            // Better to be conservative here in case a new message is relevant to the
            // semantics of the source
            LogicalMessage::Other => Err(
                ReplicationError::Definite("unexpected logical replication message".to_owned()),
            ),
        }
    }
}

} // verus!
