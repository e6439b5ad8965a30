//! Rows as the upstream sends them: fields of text, turned into values of
//! text and cast to the types of the output.

use crate::text::{concat3, decimal, decimal_text};
use vstd::prelude::*;
use vstd::string::*;
use vstd::utf8::{decode_utf8, valid_utf8};

verus! {

/// One field of a tuple in the replication stream.
#[derive(Debug, PartialEq, Eq)]
pub enum TupleData {
    /// The field is NULL.
    Null,
    /// The field is an oversized value that the change did not touch, and
    /// the upstream left it out.
    UnchangedToast,
    /// The field in text form.
    Text(Vec<u8>),
}

/// A value in text form, `None` for NULL, as contracts see it.
pub open spec fn datum_text(datum: Option<String>) -> Option<Seq<char>> {
    match datum {
        Some(s) => Some(s@),
        None => None,
    }
}

/// A row of values in text form as contracts see it.
pub open spec fn row_text(datums: Seq<Option<String>>) -> Seq<Option<Seq<char>>> {
    Seq::new(datums.len(), |i: int| datum_text(datums[i]))
}

/// The text of the error that std reports for bytes that are not UTF-8.
pub uninterp spec fn utf8_fault_text(bytes: Seq<u8>) -> Seq<char>;

/// Reads bytes as text with `std::str::from_utf8`: valid UTF-8 gives the
/// string that it encodes, anything else the text of std's error, which the
/// contract only names.
#[verifier::external_body]
pub(crate) fn text_of_bytes(bytes: &Vec<u8>) -> (res: Result<String, String>)
    ensures
        match res {
            Ok(s) => valid_utf8(bytes@) && s@ == decode_utf8(bytes@),
            Err(e) => !valid_utf8(bytes@) && e@ == utf8_fault_text(bytes@),
        },
{
    match std::str::from_utf8(bytes) {
        Ok(s) => Ok(s.to_owned()),
        Err(e) => Err(e.to_string()),
    }
}

/// The text of the error for a field that the upstream left out.
pub open spec fn missing_toast_text(rel_id: u32) -> Seq<char> {
    "Missing TOASTed value from table with OID = "@ + decimal_text(rel_id as nat)
        + ". Did you forget to set REPLICA IDENTITY to FULL for your table?"@
}

/// The value of one field, or the text of the error that the field gives.
pub open spec fn field_datum(rel_id: u32, field: TupleData) -> Result<Option<Seq<char>>, Seq<char>> {
    match field {
        TupleData::Null => Ok(None),
        TupleData::UnchangedToast => Err(missing_toast_text(rel_id)),
        TupleData::Text(b) => if valid_utf8(b@) {
            Ok(Some(decode_utf8(b@)))
        } else {
            Err(utf8_fault_text(b@))
        },
    }
}

/// The values of some fields, or the error of the first field that gives
/// one.
pub open spec fn fields_datums(rel_id: u32, fields: Seq<TupleData>) -> Result<
    Seq<Option<Seq<char>>>,
    Seq<char>,
>
    decreases fields.len(),
{
    if fields.len() == 0 {
        Ok(Seq::empty())
    } else {
        match fields_datums(rel_id, fields.drop_last()) {
            Err(e) => Err(e),
            Ok(datums) => match field_datum(rel_id, fields.last()) {
                Ok(datum) => Ok(datums.push(datum)),
                Err(e) => Err(e),
            },
        }
    }
}

/// The values of the first `len` fields of a tuple, fewer where the tuple
/// is shorter.
pub open spec fn tuple_datums(rel_id: u32, len: usize, tuple: Seq<TupleData>) -> Result<
    Seq<Option<Seq<char>>>,
    Seq<char>,
> {
    fields_datums(
        rel_id,
        tuple.take(
            if len <= tuple.len() {
                len as int
            } else {
                tuple.len() as int
            },
        ),
    )
}

/// The fields that references point to.
pub open spec fn pointed(fields: Seq<&TupleData>) -> Seq<TupleData> {
    Seq::new(fields.len(), |i: int| *fields[i])
}

/// Turns the first `len` fields of a tuple received in the replication
/// stream into values of text. A field that the upstream left out, or one
/// that is not UTF-8, is an error.
pub fn datums_from_tuple(rel_id: u32, len: usize, tuple_data: &Vec<&TupleData>) -> (res: Result<
    Vec<Option<String>>,
    String,
>)
    ensures
        match res {
            Ok(datums) => tuple_datums(rel_id, len, pointed(tuple_data@)) == Ok::<_, Seq<char>>(
                row_text(datums@),
            ),
            Err(e) => tuple_datums(rel_id, len, pointed(tuple_data@)) == Err::<
                Seq<Option<Seq<char>>>,
                _,
            >(e@),
        },
{
    let count = if len <= tuple_data.len() {
        len
    } else {
        tuple_data.len()
    };
    let mut datums: Vec<Option<String>> = Vec::new();
    let mut i: usize = 0;
    assert(row_text(datums@) =~= Seq::empty());
    while i < count
        invariant
            i <= count <= tuple_data@.len(),
            count == if len <= tuple_data@.len() {
                len as int
            } else {
                tuple_data@.len() as int
            },
            fields_datums(rel_id, pointed(tuple_data@).take(i as int)) == Ok::<_, Seq<char>>(
                row_text(datums@),
            ),
        decreases count - i,
    {
        let ghost before = row_text(datums@);
        proof {
            let head = pointed(tuple_data@).take(i + 1);
            assert(head.last() == *tuple_data@[i as int]);
            assert(head.drop_last() =~= pointed(tuple_data@).take(i as int));
        }
        let datum = match tuple_data[i] {
            TupleData::Null => None,
            TupleData::UnchangedToast => {
                let digits = decimal(rel_id as u64);
                let text = concat3(
                    "Missing TOASTed value from table with OID = ",
                    digits.as_str(),
                    ". Did you forget to set REPLICA IDENTITY to FULL for your table?",
                );
                proof {
                    lemma_prefix_fault(rel_id, pointed(tuple_data@), i as int, count as int);
                }
                return Err(text);
            },
            TupleData::Text(b) => match text_of_bytes(b) {
                Ok(s) => Some(s),
                Err(e) => {
                    proof {
                        lemma_prefix_fault(rel_id, pointed(tuple_data@), i as int, count as int);
                    }
                    return Err(e);
                },
            },
        };
        datums.push(datum);
        assert(row_text(datums@) =~= before.push(datum_text(datum)));
        i = i + 1;
    }
    Ok(datums)
}

/// Once a field gives an error, every longer run of fields gives that
/// error.
proof fn lemma_prefix_fault(rel_id: u32, fields: Seq<TupleData>, i: int, n: int)
    requires
        0 <= i < n <= fields.len(),
        fields_datums(rel_id, fields.take(i)) is Ok,
        field_datum(rel_id, fields[i]) is Err,
    ensures
        fields_datums(rel_id, fields.take(n)) == Err::<Seq<Option<Seq<char>>>, _>(
            field_datum(rel_id, fields[i])->Err_0,
        ),
    decreases n - i,
{
    let head = fields.take(n);
    assert(head.drop_last() =~= fields.take(n - 1));
    if n == i + 1 {
        assert(head.last() == fields[i]);
    } else {
        lemma_prefix_fault(rel_id, fields, i, n - 1);
    }
}

/// The fields of a tuple, by reference.
pub fn tuple_fields(tuple: &Vec<TupleData>) -> (fields: Vec<&TupleData>)
    ensures
        pointed(fields@) == tuple@,
{
    let mut fields: Vec<&TupleData> = Vec::new();
    let mut i: usize = 0;
    while i < tuple.len()
        invariant
            i <= tuple@.len(),
            fields@.len() == i,
            forall|j: int| 0 <= j < i ==> *fields@[j] == tuple@[j],
        decreases tuple@.len() - i,
    {
        fields.push(&tuple[i]);
        i = i + 1;
    }
    assert(pointed(fields@) =~= tuple@);
    fields
}

/// The new tuple of an update with the fields that the upstream left out
/// taken from the old tuple. The result is as long as the shorter of the
/// two.
pub open spec fn backfilled(new_tuple: Seq<TupleData>, old_tuple: Seq<TupleData>) -> Seq<
    TupleData,
> {
    Seq::new(
        if new_tuple.len() <= old_tuple.len() {
            new_tuple.len()
        } else {
            old_tuple.len()
        },
        |i: int|
            if new_tuple[i] is UnchangedToast {
                old_tuple[i]
            } else {
                new_tuple[i]
            },
    )
}

/// Fills the fields that an update left out from the old tuple, position by
/// position.
pub fn backfill_toast<'a>(new_tuple: &'a Vec<TupleData>, old_tuple: &'a Vec<TupleData>) -> (fields:
    Vec<&'a TupleData>)
    ensures
        pointed(fields@) == backfilled(new_tuple@, old_tuple@),
{
    let count = if new_tuple.len() <= old_tuple.len() {
        new_tuple.len()
    } else {
        old_tuple.len()
    };
    let mut fields: Vec<&TupleData> = Vec::new();
    let mut i: usize = 0;
    while i < count
        invariant
            i <= count,
            count == backfilled(new_tuple@, old_tuple@).len(),
            count <= new_tuple@.len(),
            count <= old_tuple@.len(),
            fields@.len() == i,
            forall|j: int| 0 <= j < i ==> *fields@[j] == backfilled(new_tuple@, old_tuple@)[j],
        decreases count - i,
    {
        let field = match new_tuple[i] {
            TupleData::UnchangedToast => &old_tuple[i],
            _ => &new_tuple[i],
        };
        fields.push(field);
        i = i + 1;
    }
    assert(pointed(fields@) =~= backfilled(new_tuple@, old_tuple@));
    fields
}

} // verus!
