//! The snapshot: every ingested table is copied out as text, in the order
//! of the OIDs, and each row is cast to the types of its output.

use crate::cast::{cast_fails, cast_row, casts_to, total};
use crate::error::{ErrorClass, ReplicationError};
use crate::ordered::{ordered_keys, strictly_increasing};
use crate::query::{copy_query, copy_query_text};
use crate::schema::SourceTable;
use crate::tuple::{datum_text, row_text, text_of_bytes, utf8_fault_text};
use std::collections::BTreeMap;
use vstd::prelude::*;
use vstd::utf8::{decode_utf8, valid_utf8};

verus! {

/// How long a read from the copy of a table may take before the snapshot
/// gives up for now, in seconds.
pub const COPY_READ_TIMEOUT_SECS: u64 = 30;

/// The copy of one table.
#[derive(Debug, PartialEq, Eq)]
pub struct TableCopy {
    /// The OID of the table.
    pub oid: u32,
    /// The statement that copies the table out.
    pub query: String,
}

/// The OIDs of the copies, in order.
pub open spec fn copy_oids(copies: Seq<TableCopy>) -> Seq<u32> {
    Seq::new(copies.len(), |i: int| copies[i].oid)
}

/// Lists the copies that make up the snapshot: one for every ingested
/// table, in the order of the OIDs, and for each the statement that copies
/// the table out.
pub fn snapshot_copies<C>(source_tables: &BTreeMap<u32, SourceTable<C>>) -> (copies: Vec<TableCopy>)
    ensures
        strictly_increasing(copy_oids(copies@)),
        copy_oids(copies@).to_set() == source_tables@.dom(),
        forall|i: int|
            0 <= i < copies@.len() ==> source_tables@.contains_key(copies@[i].oid) && (
            #[trigger] copies@[i]).query@ == copy_query_text(
                source_tables@[copies@[i].oid].desc.namespace@,
                source_tables@[copies@[i].oid].desc.name@,
            ),
{
    let oids = ordered_keys(source_tables);
    let mut copies: Vec<TableCopy> = Vec::new();
    let mut i: usize = 0;
    assert(copy_oids(copies@) =~= oids@.take(0));
    while i < oids.len()
        invariant
            i <= oids@.len(),
            strictly_increasing(oids@),
            oids@.to_set() == source_tables@.dom(),
            copy_oids(copies@) == oids@.take(i as int),
            forall|j: int|
                0 <= j < copies@.len() ==> source_tables@.contains_key(copies@[j].oid) && (
                #[trigger] copies@[j]).query@ == copy_query_text(
                    source_tables@[copies@[j].oid].desc.namespace@,
                    source_tables@[copies@[j].oid].desc.name@,
                ),
        decreases oids@.len() - i,
    {
        let oid = oids[i];
        proof {
            assert(oids@.contains(oid));
            assert(oids@.to_set().contains(oid));
            assert(source_tables@.contains_key(oid));
        }
        let ghost before = copy_oids(copies@);
        match source_tables.get(&oid) {
            Some(info) => {
                let query = copy_query(info.desc.namespace.as_str(), info.desc.name.as_str());
                copies.push(TableCopy { oid, query });
            },
            None => {},
        }
        proof {
            assert(copy_oids(copies@) =~= before.push(oid));
            assert(copy_oids(copies@) =~= oids@.take(i + 1));
        }
        i = i + 1;
    }
    proof {
        assert(oids@.take(i as int) =~= oids@);
    }
    copies
}

/// What the fields of a copied row give as values of text: the fields in
/// order, NULL for a field that is NULL; or the error of the first field
/// that could not be parsed or is not UTF-8.
pub open spec fn copied_datums(fields: Seq<Result<Option<Vec<u8>>, String>>) -> Result<
    Seq<Option<Seq<char>>>,
    Seq<char>,
>
    decreases fields.len(),
{
    if fields.len() == 0 {
        Ok(Seq::empty())
    } else {
        match copied_datums(fields.drop_last()) {
            Err(e) => Err(e),
            Ok(datums) => match fields.last() {
                Err(e) => Err(e@),
                Ok(None) => Ok(datums.push(None)),
                Ok(Some(bytes)) => if valid_utf8(bytes@) {
                    Ok(datums.push(Some(decode_utf8(bytes@))))
                } else {
                    Err(utf8_fault_text(bytes@))
                },
            },
        }
    }
}

/// Once a field gives an error, every longer run of fields gives that
/// error.
proof fn lemma_copied_fault(fields: Seq<Result<Option<Vec<u8>>, String>>, i: int, n: int)
    requires
        0 <= i < n <= fields.len(),
        copied_datums(fields.take(i)) is Ok,
        copied_datums(fields.take(i + 1)) is Err,
    ensures
        copied_datums(fields.take(n)) == copied_datums(fields.take(i + 1)),
    decreases n - i,
{
    if n > i + 1 {
        let head = fields.take(n);
        assert(head.drop_last() =~= fields.take(n - 1));
        lemma_copied_fault(fields, i, n - 1);
    }
}

/// Turns the fields of a copied row, as the parser of the copy format
/// gives them, into values of text.
pub fn datums_from_copy(fields: &Vec<Result<Option<Vec<u8>>, String>>) -> (res: Result<
    Vec<Option<String>>,
    String,
>)
    ensures
        match res {
            Ok(datums) => copied_datums(fields@) == Ok::<_, Seq<char>>(row_text(datums@)),
            Err(e) => copied_datums(fields@) == Err::<Seq<Option<Seq<char>>>, _>(e@),
        },
{
    let mut datums: Vec<Option<String>> = Vec::new();
    let mut i: usize = 0;
    assert(row_text(datums@) =~= Seq::empty());
    assert(fields@.take(0) =~= Seq::empty());
    while i < fields.len()
        invariant
            i <= fields@.len(),
            copied_datums(fields@.take(i as int)) == Ok::<_, Seq<char>>(row_text(datums@)),
        decreases fields@.len() - i,
    {
        let ghost before = row_text(datums@);
        proof {
            let head = fields@.take(i + 1);
            assert(head.last() == fields@[i as int]);
            assert(head.drop_last() =~= fields@.take(i as int));
        }
        let datum = match &fields[i] {
            Err(e) => {
                proof {
                    lemma_copied_fault(fields@, i as int, fields@.len() as int);
                    assert(fields@.take(fields@.len() as int) =~= fields@);
                }
                return Err(e.clone());
            },
            Ok(None) => None,
            Ok(Some(bytes)) => match text_of_bytes(bytes) {
                Ok(s) => Some(s),
                Err(e) => {
                    proof {
                        lemma_copied_fault(fields@, i as int, fields@.len() as int);
                        assert(fields@.take(fields@.len() as int) =~= fields@);
                    }
                    return Err(e);
                },
            },
        };
        datums.push(datum);
        assert(row_text(datums@) =~= before.push(datum_text(datum)));
        i = i + 1;
    }
    proof {
        assert(fields@.take(i as int) =~= fields@);
    }
    Ok(datums)
}

/// Whether `row` can come out of a copied row of `table`.
pub open spec fn copies_to<C, D, F: Fn(&C, &Vec<Option<String>>) -> Result<D, String>>(
    eval: &F,
    table: SourceTable<C>,
    fields: Seq<Result<Option<Vec<u8>>, String>>,
    row: Seq<D>,
) -> bool {
    exists|datums: Vec<Option<String>>|
        {
            &&& copied_datums(fields) == Ok::<_, Seq<char>>(row_text(datums@))
            &&& #[trigger] casts_to(eval, table.casts@, &datums, row)
        }
}

/// Whether a copied row of `table` can fail with the error `text`: reading
/// the fields as text gives it, or casting them does.
pub open spec fn copy_fails<C, D, F: Fn(&C, &Vec<Option<String>>) -> Result<D, String>>(
    eval: &F,
    table: SourceTable<C>,
    fields: Seq<Result<Option<Vec<u8>>, String>>,
    text: Seq<char>,
) -> bool {
    match copied_datums(fields) {
        Err(t) => text == t,
        Ok(texts) => exists|datums: Vec<Option<String>>|
            row_text(datums@) == texts && #[trigger] cast_fails(
                eval,
                table.casts@,
                &datums,
                text,
            ),
    }
}

/// Turns a row of the copy of a table into a row of the table's output.
/// Every failure is definite: the data does not fit the table.
pub fn snapshot_row<C, D, F: Fn(&C, &Vec<Option<String>>) -> Result<D, String>>(
    info: &SourceTable<C>,
    fields: &Vec<Result<Option<Vec<u8>>, String>>,
    eval: &F,
) -> (res: Result<(usize, Vec<D>), ReplicationError>)
    requires
        total(eval),
    ensures
        match res {
            Ok((output, row)) => output == info.output_index && copies_to(
                eval,
                *info,
                fields@,
                row@,
            ),
            Err(e) => e.class() == ErrorClass::Definite && copy_fails(
                eval,
                *info,
                fields@,
                e.text(),
            ),
        },
{
    let datums = match datums_from_copy(fields) {
        Ok(datums) => datums,
        Err(e) => {
            return Err(ReplicationError::Definite(e));
        },
    };
    match cast_row(&info.casts, &datums, eval) {
        Ok(row) => {
            proof {
                assert(casts_to(eval, info.casts@, &datums, row@));
            }
            Ok((info.output_index, row))
        },
        Err(e) => {
            proof {
                assert(cast_fails(eval, info.casts@, &datums, e@));
            }
            Err(ReplicationError::Definite(e))
        },
    }
}

} // verus!
