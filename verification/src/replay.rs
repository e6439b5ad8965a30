//! Replaying a log gives the same records: what the decoder hands on is
//! determined by the messages, as far as the evaluator of the casts is
//! determined by what it is given.
//!
//! Two runs build their rows anew, so what they hand on is compared by
//! content: rows by the values they hold, errors by class and text.

use crate::cast::{cast_fails, casts_to};
use crate::decoder::{decode_fails, decodes_to, ReplicationDecoder, Step};
use crate::error::{ErrorClass, ReplicationError};
use crate::message::{commit_events, BufferedRow, Event, LogicalMessage};
use crate::message::ReplicationMessage;
use crate::schema::SourceTable;
use crate::stream::{elapsed, Advance, Handled, ReplicationStream, WAL_LAG_GRACE_PERIOD};
use crate::tuple::{backfilled, row_text, tuple_datums, TupleData};
use vstd::prelude::*;

verus! {

/// Whether two outcomes of an evaluation are the same: the same value, or
/// errors with the same text.
pub open spec fn same_datum<D>(a: Result<D, String>, b: Result<D, String>) -> bool {
    match (a, b) {
        (Ok(x), Ok(y)) => x == y,
        (Err(x), Err(y)) => x@ == y@,
        _ => false,
    }
}

/// Whether what the evaluator gives depends only on the expression and on
/// the text of the row.
pub open spec fn deterministic<C, D, F: Fn(&C, &Vec<Option<String>>) -> Result<D, String>>(
    eval: &F,
) -> bool {
    forall|
        c: &C,
        d1: &Vec<Option<String>>,
        d2: &Vec<Option<String>>,
        r1: Result<D, String>,
        r2: Result<D, String>,
    |
        row_text(d1@) == row_text(d2@) && #[trigger] eval.ensures((c, d1), r1)
            && #[trigger] eval.ensures((c, d2), r2) ==> same_datum(r1, r2)
}

/// Whether two buffers hold the same rows for the same outputs.
pub open spec fn rows_alike<D>(a: Seq<BufferedRow<D>>, b: Seq<BufferedRow<D>>) -> bool {
    &&& a.len() == b.len()
    &&& forall|i: int|
        0 <= i < a.len() ==> (#[trigger] a[i]).output == b[i].output && a[i].row@ == b[i].row@
}

/// Whether two decoders are in the same state.
pub open spec fn decoders_alike<D>(a: ReplicationDecoder<D>, b: ReplicationDecoder<D>) -> bool {
    &&& rows_alike(a.inserts@, b.inserts@)
    &&& rows_alike(a.deletes@, b.deletes@)
    &&& a.last_commit_lsn == b.last_commit_lsn
}

/// Whether two events say the same.
pub open spec fn event_alike<D>(a: Event<D>, b: Event<D>) -> bool {
    match (a, b) {
        (Event::Progress(x), Event::Progress(y)) => x == y,
        (
            Event::Message { lsn: l1, output: o1, row: r1, diff: d1 },
            Event::Message { lsn: l2, output: o2, row: r2, diff: d2 },
        ) => l1 == l2 && o1 == o2 && r1@ == r2@ && d1 == d2,
        _ => false,
    }
}

/// Whether two runs of events say the same.
pub open spec fn events_alike<D>(a: Seq<Event<D>>, b: Seq<Event<D>>) -> bool {
    &&& a.len() == b.len()
    &&& forall|i: int| 0 <= i < a.len() ==> event_alike(#[trigger] a[i], b[i])
}

/// Whether two steps of the decoder are the same.
pub open spec fn steps_alike<D>(a: Step<D>, b: Step<D>) -> bool {
    match (a, b) {
        (Step::Began, Step::Began) => true,
        (Step::Buffered, Step::Buffered) => true,
        (Step::Ignored, Step::Ignored) => true,
        (Step::Skipped, Step::Skipped) => true,
        (Step::VerifyRelation(x), Step::VerifyRelation(y)) => x == y,
        (Step::Committed(x), Step::Committed(y)) => events_alike(x@, y@),
        _ => false,
    }
}

/// Whether handling a message came to the same in two runs.
pub open spec fn outcomes_alike<D>(
    a: Result<Step<D>, ReplicationError>,
    b: Result<Step<D>, ReplicationError>,
) -> bool {
    match (a, b) {
        (Ok(x), Ok(y)) => steps_alike(x, y),
        (Err(x), Err(y)) => x.class() == y.class() && x.text() == y.text(),
        _ => false,
    }
}

proof fn lemma_same_cast<C, D, F: Fn(&C, &Vec<Option<String>>) -> Result<D, String>>(
    eval: &F,
    casts: Seq<C>,
    d1: &Vec<Option<String>>,
    d2: &Vec<Option<String>>,
    row1: Seq<D>,
    row2: Seq<D>,
)
    requires
        deterministic(eval),
        row_text(d1@) == row_text(d2@),
        casts_to(eval, casts, d1, row1),
        casts_to(eval, casts, d2, row2),
    ensures
        row1 == row2,
{
    assert forall|i: int| 0 <= i < row1.len() implies row1[i] == row2[i] by {
        assert(eval.ensures((&casts[i], d1), Ok::<D, String>(row1[i])));
        assert(eval.ensures((&casts[i], d2), Ok::<D, String>(row2[i])));
        assert(same_datum(Ok::<D, String>(row1[i]), Ok::<D, String>(row2[i])));
    }
    assert(row1 =~= row2);
}

proof fn lemma_cast_succeeds_or_fails<C, D, F: Fn(&C, &Vec<Option<String>>) -> Result<D, String>>(
    eval: &F,
    casts: Seq<C>,
    d1: &Vec<Option<String>>,
    d2: &Vec<Option<String>>,
    row: Seq<D>,
    text: Seq<char>,
)
    requires
        deterministic(eval),
        row_text(d1@) == row_text(d2@),
        casts_to(eval, casts, d1, row),
    ensures
        !cast_fails(eval, casts, d2, text),
{
    if cast_fails(eval, casts, d2, text) {
        let (done, e) = choose|done: Seq<D>, e: String|
            {
                &&& done.len() < casts.len()
                &&& #[trigger] casts_to(eval, casts.take(done.len() as int), d2, done)
                &&& e@ == text
                &&& #[trigger] eval.ensures((&casts[done.len() as int], d2), Err::<D, String>(e))
            };
        let k = done.len() as int;
        assert(eval.ensures((&casts[k], d1), Ok::<D, String>(row[k])));
        assert(same_datum(Ok::<D, String>(row[k]), Err::<D, String>(e)));
    }
}

proof fn lemma_same_cast_failure<C, D, F: Fn(&C, &Vec<Option<String>>) -> Result<D, String>>(
    eval: &F,
    casts: Seq<C>,
    d1: &Vec<Option<String>>,
    d2: &Vec<Option<String>>,
    text1: Seq<char>,
    text2: Seq<char>,
)
    requires
        deterministic(eval),
        row_text(d1@) == row_text(d2@),
        cast_fails(eval, casts, d1, text1),
        cast_fails(eval, casts, d2, text2),
    ensures
        text1 == text2,
{
    let (done1, e1) = choose|done: Seq<D>, e: String|
        {
            &&& done.len() < casts.len()
            &&& #[trigger] casts_to(eval, casts.take(done.len() as int), d1, done)
            &&& e@ == text1
            &&& #[trigger] eval.ensures((&casts[done.len() as int], d1), Err::<D, String>(e))
        };
    let (done2, e2) = choose|done: Seq<D>, e: String|
        {
            &&& done.len() < casts.len()
            &&& #[trigger] casts_to(eval, casts.take(done.len() as int), d2, done)
            &&& e@ == text2
            &&& #[trigger] eval.ensures((&casts[done.len() as int], d2), Err::<D, String>(e))
        };
    let k1 = done1.len() as int;
    let k2 = done2.len() as int;
    if k1 < k2 {
        assert(casts.take(k2)[k1] == casts[k1]);
        assert(eval.ensures((&casts[k1], d2), Ok::<D, String>(done2[k1])));
        assert(same_datum(Err::<D, String>(e1), Ok::<D, String>(done2[k1])));
    } else if k2 < k1 {
        assert(casts.take(k1)[k2] == casts[k2]);
        assert(eval.ensures((&casts[k2], d1), Ok::<D, String>(done1[k2])));
        assert(same_datum(Ok::<D, String>(done1[k2]), Err::<D, String>(e2)));
    } else {
        assert(same_datum(Err::<D, String>(e1), Err::<D, String>(e2)));
    }
}

/// Decoding the same fields twice gives the same row.
pub proof fn lemma_same_row<C, D, F: Fn(&C, &Vec<Option<String>>) -> Result<D, String>>(
    eval: &F,
    table: SourceTable<C>,
    rel_id: u32,
    fields: Seq<TupleData>,
    row1: Seq<D>,
    row2: Seq<D>,
)
    requires
        deterministic(eval),
        decodes_to(eval, table, rel_id, fields, row1),
        decodes_to(eval, table, rel_id, fields, row2),
    ensures
        row1 == row2,
{
    let d1 = choose|datums: Vec<Option<String>>|
        {
            &&& tuple_datums(rel_id, table.desc.columns@.len() as usize, fields)
                == Ok::<_, Seq<char>>(row_text(datums@))
            &&& #[trigger] casts_to(eval, table.casts@, &datums, row1)
        };
    let d2 = choose|datums: Vec<Option<String>>|
        {
            &&& tuple_datums(rel_id, table.desc.columns@.len() as usize, fields)
                == Ok::<_, Seq<char>>(row_text(datums@))
            &&& #[trigger] casts_to(eval, table.casts@, &datums, row2)
        };
    lemma_same_cast(eval, table.casts@, &d1, &d2, row1, row2);
}

/// Fields that decode in one run do not fail in another.
pub proof fn lemma_row_or_failure<C, D, F: Fn(&C, &Vec<Option<String>>) -> Result<D, String>>(
    eval: &F,
    table: SourceTable<C>,
    rel_id: u32,
    fields: Seq<TupleData>,
    row: Seq<D>,
    text: Seq<char>,
)
    requires
        deterministic(eval),
        decodes_to(eval, table, rel_id, fields, row),
    ensures
        !decode_fails(eval, table, rel_id, fields, text),
{
    if decode_fails(eval, table, rel_id, fields, text) {
        let d1 = choose|datums: Vec<Option<String>>|
            {
                &&& tuple_datums(rel_id, table.desc.columns@.len() as usize, fields)
                    == Ok::<_, Seq<char>>(row_text(datums@))
                &&& #[trigger] casts_to(eval, table.casts@, &datums, row)
            };
        let texts = row_text(d1@);
        let d2 = choose|datums: Vec<Option<String>>|
            row_text(datums@) == texts && #[trigger] cast_fails(
                eval,
                table.casts@,
                &datums,
                text,
            );
        lemma_cast_succeeds_or_fails(eval, table.casts@, &d1, &d2, row, text);
    }
}

/// Fields that fail to decode fail with the same error in every run.
pub proof fn lemma_same_failure<C, D, F: Fn(&C, &Vec<Option<String>>) -> Result<D, String>>(
    eval: &F,
    table: SourceTable<C>,
    rel_id: u32,
    fields: Seq<TupleData>,
    text1: Seq<char>,
    text2: Seq<char>,
)
    requires
        deterministic(eval),
        decode_fails(eval, table, rel_id, fields, text1),
        decode_fails(eval, table, rel_id, fields, text2),
    ensures
        text1 == text2,
{
    match tuple_datums(rel_id, table.desc.columns@.len() as usize, fields) {
        Err(_) => {},
        Ok(texts) => {
            let d1 = choose|datums: Vec<Option<String>>|
                row_text(datums@) == texts && #[trigger] cast_fails(
                    eval,
                    table.casts@,
                    &datums,
                    text1,
                );
            let d2 = choose|datums: Vec<Option<String>>|
                row_text(datums@) == texts && #[trigger] cast_fails(
                    eval,
                    table.casts@,
                    &datums,
                    text2,
                );
            lemma_same_cast_failure(eval, table.casts@, &d1, &d2, text1, text2);
        },
    }
}

proof fn lemma_pushed_alike<D>(
    a: Seq<BufferedRow<D>>,
    b: Seq<BufferedRow<D>>,
    x: BufferedRow<D>,
    y: BufferedRow<D>,
)
    requires
        rows_alike(a, b),
        x.output == y.output,
        x.row@ == y.row@,
    ensures
        rows_alike(a.push(x), b.push(y)),
{
    assert forall|i: int| 0 <= i < a.push(x).len() implies (#[trigger] a.push(x)[i]).output
        == b.push(y)[i].output && a.push(x)[i].row@ == b.push(y)[i].row@ by {
        if i < a.len() {
            assert(a.push(x)[i] == a[i]);
            assert(b.push(y)[i] == b[i]);
        }
    }
}

proof fn lemma_commit_alike<D>(
    deletes1: Seq<BufferedRow<D>>,
    inserts1: Seq<BufferedRow<D>>,
    deletes2: Seq<BufferedRow<D>>,
    inserts2: Seq<BufferedRow<D>>,
    end_lsn: u64,
)
    requires
        rows_alike(deletes1, deletes2),
        rows_alike(inserts1, inserts2),
    ensures
        events_alike(
            commit_events(deletes1, inserts1, end_lsn),
            commit_events(deletes2, inserts2, end_lsn),
        ),
{
    let a = commit_events(deletes1, inserts1, end_lsn);
    let b = commit_events(deletes2, inserts2, end_lsn);
    assert forall|i: int| 0 <= i < a.len() implies event_alike(#[trigger] a[i], b[i]) by {
        if i < deletes1.len() {
            assert(deletes1[i].output == deletes2[i].output);
        } else if i < deletes1.len() + inserts1.len() {
            assert(inserts1[i - deletes1.len()].output == inserts2[i - deletes1.len()].output);
        }
    }
}

/// Replaying a message gives the same outcome: two decoders in the same
/// state that handle the same message with an evaluator that is determined
/// by what it is given take the same step or fail with the same error, and
/// are in the same state afterwards.
pub proof fn lemma_replay_is_deterministic<
    C,
    D,
    F: Fn(&C, &Vec<Option<String>>) -> Result<D, String>,
>(
    tables: Map<u32, SourceTable<C>>,
    message: LogicalMessage,
    eval: &F,
    pre1: ReplicationDecoder<D>,
    post1: ReplicationDecoder<D>,
    res1: Result<Step<D>, ReplicationError>,
    pre2: ReplicationDecoder<D>,
    post2: ReplicationDecoder<D>,
    res2: Result<Step<D>, ReplicationError>,
)
    requires
        deterministic(eval),
        decoders_alike(pre1, pre2),
        pre1.handled(tables, message, eval, post1, res1),
        pre2.handled(tables, message, eval, post2, res2),
    ensures
        decoders_alike(post1, post2),
        outcomes_alike(res1, res2),
{
    match message {
        LogicalMessage::Insert { rel_id, new_tuple } => {
            if tables.contains_key(rel_id) {
                let table = tables[rel_id];
                lemma_decoded_alike(eval, table, rel_id, new_tuple@, res1, res2, pre1, pre2);
                if res1 is Ok {
                    let row1 = choose|row: Vec<D>|
                        {
                            &&& #[trigger] decodes_to(eval, table, rel_id, new_tuple@, row@)
                            &&& pre1.with_insert(post1, table.output_index, row)
                        };
                    let row2 = choose|row: Vec<D>|
                        {
                            &&& #[trigger] decodes_to(eval, table, rel_id, new_tuple@, row@)
                            &&& pre2.with_insert(post2, table.output_index, row)
                        };
                    lemma_same_row(eval, table, rel_id, new_tuple@, row1@, row2@);
                    lemma_pushed_alike(
                        pre1.inserts@,
                        pre2.inserts@,
                        BufferedRow { output: table.output_index, row: row1 },
                        BufferedRow { output: table.output_index, row: row2 },
                    );
                }
            }
        },
        LogicalMessage::Delete { rel_id, old_tuple } => {
            if tables.contains_key(rel_id) {
                let table = tables[rel_id];
                match old_tuple {
                    None => {},
                    Some(old) => {
                        lemma_decoded_alike(eval, table, rel_id, old@, res1, res2, pre1, pre2);
                        if res1 is Ok {
                            let row1 = choose|row: Vec<D>|
                                {
                                    &&& #[trigger] decodes_to(eval, table, rel_id, old@, row@)
                                    &&& pre1.with_delete(post1, table.output_index, row)
                                };
                            let row2 = choose|row: Vec<D>|
                                {
                                    &&& #[trigger] decodes_to(eval, table, rel_id, old@, row@)
                                    &&& pre2.with_delete(post2, table.output_index, row)
                                };
                            lemma_same_row(eval, table, rel_id, old@, row1@, row2@);
                            lemma_pushed_alike(
                                pre1.deletes@,
                                pre2.deletes@,
                                BufferedRow { output: table.output_index, row: row1 },
                                BufferedRow { output: table.output_index, row: row2 },
                            );
                        }
                    },
                }
            }
        },
        LogicalMessage::Update { rel_id, old_tuple, new_tuple } => {
            if tables.contains_key(rel_id) {
                let table = tables[rel_id];
                match old_tuple {
                    None => {},
                    Some(old) => {
                        lemma_updated_alike(
                            eval,
                            table,
                            rel_id,
                            old,
                            new_tuple@,
                            pre1,
                            post1,
                            res1,
                            pre2,
                            post2,
                            res2,
                        );
                    },
                }
            }
        },
        LogicalMessage::Commit { end_lsn } => {
            lemma_commit_alike(
                pre1.deletes@,
                pre1.inserts@,
                pre2.deletes@,
                pre2.inserts@,
                end_lsn,
            );
        },
        _ => {},
    }
}

proof fn lemma_decoded_alike<C, D, F: Fn(&C, &Vec<Option<String>>) -> Result<D, String>>(
    eval: &F,
    table: SourceTable<C>,
    rel_id: u32,
    fields: Seq<TupleData>,
    res1: Result<Step<D>, ReplicationError>,
    res2: Result<Step<D>, ReplicationError>,
    pre1: ReplicationDecoder<D>,
    pre2: ReplicationDecoder<D>,
)
    requires
        deterministic(eval),
        res1 matches Ok(step) ==> step == Step::<D>::Buffered && exists|row: Seq<D>| #[trigger]
            decodes_to(eval, table, rel_id, fields, row),
        res2 matches Ok(step) ==> step == Step::<D>::Buffered && exists|row: Seq<D>| #[trigger]
            decodes_to(eval, table, rel_id, fields, row),
        res1 matches Err(e) ==> e.class() == ErrorClass::Definite && decode_fails(
            eval,
            table,
            rel_id,
            fields,
            e.text(),
        ),
        res2 matches Err(e) ==> e.class() == ErrorClass::Definite && decode_fails(
            eval,
            table,
            rel_id,
            fields,
            e.text(),
        ),
    ensures
        outcomes_alike(res1, res2),
{
    match (res1, res2) {
        (Ok(_), Ok(_)) => {},
        (Err(e1), Err(e2)) => {
            lemma_same_failure(eval, table, rel_id, fields, e1.text(), e2.text());
        },
        (Ok(_), Err(e)) => {
            let row = choose|row: Seq<D>| #[trigger] decodes_to(eval, table, rel_id, fields, row);
            lemma_row_or_failure(eval, table, rel_id, fields, row, e.text());
        },
        (Err(e), Ok(_)) => {
            let row = choose|row: Seq<D>| #[trigger] decodes_to(eval, table, rel_id, fields, row);
            lemma_row_or_failure(eval, table, rel_id, fields, row, e.text());
        },
    }
}

proof fn lemma_updated_alike<C, D, F: Fn(&C, &Vec<Option<String>>) -> Result<D, String>>(
    eval: &F,
    table: SourceTable<C>,
    rel_id: u32,
    old_tuple: Vec<TupleData>,
    new_tuple: Seq<TupleData>,
    pre1: ReplicationDecoder<D>,
    post1: ReplicationDecoder<D>,
    res1: Result<Step<D>, ReplicationError>,
    pre2: ReplicationDecoder<D>,
    post2: ReplicationDecoder<D>,
    res2: Result<Step<D>, ReplicationError>,
)
    requires
        deterministic(eval),
        decoders_alike(pre1, pre2),
        pre1.updated(table, rel_id, Some(old_tuple), new_tuple, eval, post1, res1),
        pre2.updated(table, rel_id, Some(old_tuple), new_tuple, eval, post2, res2),
    ensures
        decoders_alike(post1, post2),
        outcomes_alike(res1, res2),
{
    let old = old_tuple@;
    let merged = backfilled(new_tuple, old);
    match (res1, res2) {
        (Ok(_), Ok(_)) => {
            let (old1, new1) = choose|old_row: Vec<D>, new_row: Vec<D>|
                {
                    &&& #[trigger] decodes_to(eval, table, rel_id, old, old_row@)
                    &&& #[trigger] decodes_to(eval, table, rel_id, merged, new_row@)
                    &&& pre1.with_update(post1, table.output_index, old_row, new_row)
                };
            let (old2, new2) = choose|old_row: Vec<D>, new_row: Vec<D>|
                {
                    &&& #[trigger] decodes_to(eval, table, rel_id, old, old_row@)
                    &&& #[trigger] decodes_to(eval, table, rel_id, merged, new_row@)
                    &&& pre2.with_update(post2, table.output_index, old_row, new_row)
                };
            lemma_same_row(eval, table, rel_id, old, old1@, old2@);
            lemma_same_row(eval, table, rel_id, merged, new1@, new2@);
            lemma_pushed_alike(
                pre1.deletes@,
                pre2.deletes@,
                BufferedRow { output: table.output_index, row: old1 },
                BufferedRow { output: table.output_index, row: old2 },
            );
            lemma_pushed_alike(
                pre1.inserts@,
                pre2.inserts@,
                BufferedRow { output: table.output_index, row: new1 },
                BufferedRow { output: table.output_index, row: new2 },
            );
        },
        (Err(e1), Err(e2)) => {
            lemma_update_failures(eval, table, rel_id, old, merged, e1.text(), e2.text());
        },
        (Ok(_), Err(e)) => {
            let (old_row, new_row) = choose|old_row: Vec<D>, new_row: Vec<D>|
                {
                    &&& #[trigger] decodes_to(eval, table, rel_id, old, old_row@)
                    &&& #[trigger] decodes_to(eval, table, rel_id, merged, new_row@)
                    &&& pre1.with_update(post1, table.output_index, old_row, new_row)
                };
            lemma_update_row_or_failure(
                eval,
                table,
                rel_id,
                old,
                merged,
                old_row@,
                new_row@,
                e.text(),
            );
            assert(update_fails(eval, table, rel_id, old, merged, e.text()));
        },
        (Err(e), Ok(_)) => {
            let (old_row, new_row) = choose|old_row: Vec<D>, new_row: Vec<D>|
                {
                    &&& #[trigger] decodes_to(eval, table, rel_id, old, old_row@)
                    &&& #[trigger] decodes_to(eval, table, rel_id, merged, new_row@)
                    &&& pre2.with_update(post2, table.output_index, old_row, new_row)
                };
            lemma_update_row_or_failure(
                eval,
                table,
                rel_id,
                old,
                merged,
                old_row@,
                new_row@,
                e.text(),
            );
            assert(update_fails(eval, table, rel_id, old, merged, e.text()));
        },
    }
}

/// Whether an update can fail with the error `text`.
pub open spec fn update_fails<C, D, F: Fn(&C, &Vec<Option<String>>) -> Result<D, String>>(
    eval: &F,
    table: SourceTable<C>,
    rel_id: u32,
    old: Seq<TupleData>,
    merged: Seq<TupleData>,
    text: Seq<char>,
) -> bool {
    ||| decode_fails(eval, table, rel_id, old, text)
    ||| {
        &&& exists|old_row: Seq<D>| #[trigger] decodes_to(eval, table, rel_id, old, old_row)
        &&& decode_fails(eval, table, rel_id, merged, text)
    }
}

proof fn lemma_update_failures<C, D, F: Fn(&C, &Vec<Option<String>>) -> Result<D, String>>(
    eval: &F,
    table: SourceTable<C>,
    rel_id: u32,
    old: Seq<TupleData>,
    merged: Seq<TupleData>,
    text1: Seq<char>,
    text2: Seq<char>,
)
    requires
        deterministic(eval),
        update_fails(eval, table, rel_id, old, merged, text1),
        update_fails(eval, table, rel_id, old, merged, text2),
    ensures
        text1 == text2,
{
    let early1 = decode_fails(eval, table, rel_id, old, text1);
    let early2 = decode_fails(eval, table, rel_id, old, text2);
    if early1 && early2 {
        lemma_same_failure(eval, table, rel_id, old, text1, text2);
    } else if early1 {
        let row = choose|old_row: Seq<D>| #[trigger] decodes_to(eval, table, rel_id, old, old_row);
        lemma_row_or_failure(eval, table, rel_id, old, row, text1);
    } else if early2 {
        let row = choose|old_row: Seq<D>| #[trigger] decodes_to(eval, table, rel_id, old, old_row);
        lemma_row_or_failure(eval, table, rel_id, old, row, text2);
    } else {
        lemma_same_failure(eval, table, rel_id, merged, text1, text2);
    }
}

proof fn lemma_update_row_or_failure<C, D, F: Fn(&C, &Vec<Option<String>>) -> Result<D, String>>(
    eval: &F,
    table: SourceTable<C>,
    rel_id: u32,
    old: Seq<TupleData>,
    merged: Seq<TupleData>,
    old_row: Seq<D>,
    new_row: Seq<D>,
    text: Seq<char>,
)
    requires
        deterministic(eval),
        decodes_to(eval, table, rel_id, old, old_row),
        decodes_to(eval, table, rel_id, merged, new_row),
    ensures
        !update_fails(eval, table, rel_id, old, merged, text),
{
    lemma_row_or_failure(eval, table, rel_id, old, old_row, text);
    lemma_row_or_failure(eval, table, rel_id, merged, new_row, text);
}

/// Whether the decoder handles `messages[i]` in the state `states[i]` by
/// taking the step `steps[i]`, and is in the state `states[i + 1]`
/// afterwards.
pub open spec fn step_at<C, D, F: Fn(&C, &Vec<Option<String>>) -> Result<D, String>>(
    tables: Map<u32, SourceTable<C>>,
    eval: &F,
    states: Seq<ReplicationDecoder<D>>,
    messages: Seq<LogicalMessage>,
    steps: Seq<Step<D>>,
    i: int,
) -> bool {
    states[i].handled(
        tables,
        messages[i],
        eval,
        states[i + 1],
        Ok::<_, ReplicationError>(steps[i]),
    )
}

/// Whether the decoder, led through `messages` one after the other, takes
/// `steps` and passes through `states`.
pub open spec fn run_of<C, D, F: Fn(&C, &Vec<Option<String>>) -> Result<D, String>>(
    tables: Map<u32, SourceTable<C>>,
    eval: &F,
    states: Seq<ReplicationDecoder<D>>,
    messages: Seq<LogicalMessage>,
    steps: Seq<Step<D>>,
) -> bool {
    &&& states.len() == messages.len() + 1
    &&& steps.len() == messages.len()
    &&& forall|i: int|
        0 <= i < messages.len() ==> #[trigger] step_at(tables, eval, states, messages, steps, i)
}

proof fn lemma_replayed_prefix<C, D, F: Fn(&C, &Vec<Option<String>>) -> Result<D, String>>(
    tables: Map<u32, SourceTable<C>>,
    eval: &F,
    messages: Seq<LogicalMessage>,
    states1: Seq<ReplicationDecoder<D>>,
    steps1: Seq<Step<D>>,
    states2: Seq<ReplicationDecoder<D>>,
    steps2: Seq<Step<D>>,
    k: int,
)
    requires
        deterministic(eval),
        run_of(tables, eval, states1, messages, steps1),
        run_of(tables, eval, states2, messages, steps2),
        decoders_alike(states1[0], states2[0]),
        0 <= k <= messages.len(),
    ensures
        decoders_alike(states1[k], states2[k]),
        forall|i: int| 0 <= i < k ==> steps_alike(#[trigger] steps1[i], steps2[i]),
    decreases k,
{
    if k > 0 {
        lemma_replayed_prefix(tables, eval, messages, states1, steps1, states2, steps2, k - 1);
        assert(step_at(tables, eval, states1, messages, steps1, k - 1));
        assert(step_at(tables, eval, states2, messages, steps2, k - 1));
        lemma_replay_is_deterministic(
            tables,
            messages[k - 1],
            eval,
            states1[k - 1],
            states1[k],
            Ok::<_, ReplicationError>(steps1[k - 1]),
            states2[k - 1],
            states2[k],
            Ok::<_, ReplicationError>(steps2[k - 1]),
        );
    }
}

/// Replaying a log gives the same records: two runs of the decoder over the
/// same messages from the same state, with an evaluator that is determined
/// by what it is given, take the same steps, hand on the same events with
/// every commit, and end in the same state.
pub proof fn lemma_replayed_log_is_the_same<
    C,
    D,
    F: Fn(&C, &Vec<Option<String>>) -> Result<D, String>,
>(
    tables: Map<u32, SourceTable<C>>,
    eval: &F,
    messages: Seq<LogicalMessage>,
    states1: Seq<ReplicationDecoder<D>>,
    steps1: Seq<Step<D>>,
    states2: Seq<ReplicationDecoder<D>>,
    steps2: Seq<Step<D>>,
)
    requires
        deterministic(eval),
        run_of(tables, eval, states1, messages, steps1),
        run_of(tables, eval, states2, messages, steps2),
        decoders_alike(states1[0], states2[0]),
    ensures
        forall|i: int| 0 <= i < messages.len() ==> steps_alike(#[trigger] steps1[i], steps2[i]),
        decoders_alike(states1.last(), states2.last()),
{
    lemma_replayed_prefix(
        tables,
        eval,
        messages,
        states1,
        steps1,
        states2,
        steps2,
        messages.len() as int,
    );
}

/// Whether two streams are in the same state but for their clocks: the
/// decoders are in the same state, and the same end of the upstream's log
/// has been observed.
pub open spec fn streams_alike<D>(a: ReplicationStream<D>, b: ReplicationStream<D>) -> bool {
    decoders_alike(a.decoder, b.decoder) && a.observed_wal_end == b.observed_wal_end
}

/// Whether handling a message of the stream came to the same in two runs,
/// but for the status update, which goes by the clock.
pub open spec fn advances_alike<D>(
    a: Result<Handled<D>, ReplicationError>,
    b: Result<Handled<D>, ReplicationError>,
) -> bool {
    match (a, b) {
        (Ok(x), Ok(y)) => match (x.advance, y.advance) {
            (Advance::Data(s), Advance::Data(t)) => steps_alike(s, t),
            (Advance::KeptAlive, Advance::KeptAlive) => true,
            (Advance::Probe, Advance::Probe) => true,
            _ => false,
        },
        (Err(x), Err(y)) => x.class() == y.class() && x.text() == y.text(),
        _ => false,
    }
}

/// Whether a stream that handles a keepalive at `now` leaves to probe the
/// slot.
pub open spec fn probes<D>(stream: ReplicationStream<D>, now: u64) -> bool {
    elapsed(stream.last_data_message, now) > WAL_LAG_GRACE_PERIOD
}

/// Replaying a message of the stream gives the same outcome, whatever the
/// clocks say, as long as they lead to the same probes: two streams in the
/// same state that handle the same message, with an evaluator that is
/// determined by what it is given, hand on the same events or fail with the
/// same error, and are in the same state afterwards. The times at which
/// the two handle the message may differ, and so may the status updates,
/// provided that a keepalive makes both leave for a probe or neither.
pub proof fn lemma_stream_replay_is_deterministic<
    C,
    D,
    F: Fn(&C, &Vec<Option<String>>) -> Result<D, String>,
>(
    tables: Map<u32, SourceTable<C>>,
    message: ReplicationMessage,
    eval: &F,
    pre1: ReplicationStream<D>,
    status_due1: bool,
    now1: u64,
    post1: ReplicationStream<D>,
    res1: Result<Handled<D>, ReplicationError>,
    pre2: ReplicationStream<D>,
    status_due2: bool,
    now2: u64,
    post2: ReplicationStream<D>,
    res2: Result<Handled<D>, ReplicationError>,
)
    requires
        deterministic(eval),
        streams_alike(pre1, pre2),
        message is PrimaryKeepAlive ==> probes(pre1, now1) == probes(pre2, now2),
        pre1.advanced(tables, message, status_due1, now1, eval, post1, res1),
        pre2.advanced(tables, message, status_due2, now2, eval, post2, res2),
    ensures
        streams_alike(post1, post2),
        advances_alike(res1, res2),
{
    match message {
        ReplicationMessage::XLogData(data) => {
            let r1: Result<Step<D>, ReplicationError> = match res1 {
                Ok(handled) => Ok(handled.advance->Data_0),
                Err(e) => Err(e),
            };
            let r2: Result<Step<D>, ReplicationError> = match res2 {
                Ok(handled) => Ok(handled.advance->Data_0),
                Err(e) => Err(e),
            };
            lemma_replay_is_deterministic(
                tables,
                data,
                eval,
                pre1.decoder,
                post1.decoder,
                r1,
                pre2.decoder,
                post2.decoder,
                r2,
            );
        },
        _ => {},
    }
}

/// Settling a probe gives the same in two runs: two streams in the same
/// state that settle a probe with the same count of changes hand on the
/// same frontier, or none, and are in the same state afterwards.
pub proof fn lemma_probe_replay_is_deterministic<D>(
    changes: usize,
    pre1: ReplicationStream<D>,
    post1: ReplicationStream<D>,
    event1: Option<Event<D>>,
    pre2: ReplicationStream<D>,
    post2: ReplicationStream<D>,
    event2: Option<Event<D>>,
)
    requires
        streams_alike(pre1, pre2),
        pre1.fast_forwarded(changes, post1, event1),
        pre2.fast_forwarded(changes, post2, event2),
    ensures
        streams_alike(post1, post2),
        event1 == event2,
{
}

} // verus!
