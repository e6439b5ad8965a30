//! The statements that the source sends upstream, and the reading of their
//! answers.

use crate::error::{fails_with, ErrorClass, ReplicationError};
use crate::lsn::{format_lsn, lsn_from_text, lsn_text, parse_lsn};
use crate::text::{concat3, debug_quoted, debug_text};
use vstd::prelude::*;
use vstd::string::*;

verus! {

/// One column of a row that a simple query returned.
#[derive(Clone, Debug, PartialEq, Eq)]
pub struct QueryColumn {
    /// The name of the column.
    pub name: String,
    /// The value in text form, `None` for NULL.
    pub value: Option<String>,
}

/// A message of the answer to a simple query.
#[derive(Clone, Debug, PartialEq, Eq)]
pub enum QueryMessage {
    /// A row of data.
    Row(Vec<QueryColumn>),
    /// A statement has completed, with the number of rows it touched.
    CommandComplete(u64),
    /// Any other message.
    Other,
}

/// The statement that opens the snapshot transaction.
pub const BEGIN_SNAPSHOT: &'static str = "BEGIN READ ONLY ISOLATION LEVEL REPEATABLE READ;";

/// The statement that closes the snapshot transaction.
pub const COMMIT_SNAPSHOT: &'static str = "COMMIT;";

/// The statement that asks how far a slot has been confirmed.
pub open spec fn slot_query_text(slot: Seq<char>) -> Seq<char> {
    "SELECT confirmed_flush_lsn FROM pg_replication_slots WHERE slot_name = '"@ + slot + "'"@
}

/// Writes the statement that asks how far a slot has been confirmed.
pub fn slot_query(slot: &str) -> (query: String)
    ensures
        query@ == slot_query_text(slot@),
{
    concat3("SELECT confirmed_flush_lsn FROM pg_replication_slots WHERE slot_name = '", slot, "'")
}

/// The statement that creates a logical slot for the `pgoutput` plugin and
/// makes the transaction read the slot's snapshot.
pub open spec fn create_slot_query_text(slot: Seq<char>, temporary: bool) -> Seq<char> {
    "CREATE_REPLICATION_SLOT "@ + debug_text(slot) + if temporary {
        " TEMPORARY LOGICAL \"pgoutput\" USE_SNAPSHOT"@
    } else {
        " LOGICAL \"pgoutput\" USE_SNAPSHOT"@
    }
}

/// Writes the statement that creates a slot.
pub fn create_slot_query(slot: &str, temporary: bool) -> (query: String)
    ensures
        query@ == create_slot_query_text(slot@, temporary),
{
    let quoted = debug_quoted(slot);
    if temporary {
        concat3(
            "CREATE_REPLICATION_SLOT ",
            quoted.as_str(),
            " TEMPORARY LOGICAL \"pgoutput\" USE_SNAPSHOT",
        )
    } else {
        concat3("CREATE_REPLICATION_SLOT ", quoted.as_str(), " LOGICAL \"pgoutput\" USE_SNAPSHOT")
    }
}

/// The statement that drops a slot.
pub open spec fn drop_slot_query_text(slot: Seq<char>) -> Seq<char> {
    "DROP_REPLICATION_SLOT "@ + debug_text(slot)
}

/// Writes the statement that drops a slot.
pub fn drop_slot_query(slot: &str) -> (query: String)
    ensures
        query@ == drop_slot_query_text(slot@),
{
    let quoted = debug_quoted(slot);
    let mut query = "DROP_REPLICATION_SLOT ".to_owned();
    query.append(quoted.as_str());
    query
}

/// The statement that copies a table out as text, the fields separated by
/// tabs.
pub open spec fn copy_query_text(namespace: Seq<char>, name: Seq<char>) -> Seq<char> {
    "COPY "@ + debug_text(namespace) + "."@ + debug_text(name)
        + " TO STDOUT (FORMAT TEXT, DELIMITER '\t')"@
}

/// Writes the statement that copies a table out.
pub fn copy_query(namespace: &str, name: &str) -> (query: String)
    ensures
        query@ == copy_query_text(namespace@, name@),
{
    let quoted_namespace = debug_quoted(namespace);
    let quoted_name = debug_quoted(name);
    let mut query = concat3("COPY ", quoted_namespace.as_str(), ".");
    query.append(quoted_name.as_str());
    query.append(" TO STDOUT (FORMAT TEXT, DELIMITER '\t')");
    query
}

/// The statement that starts streaming a slot's changes to a publication
/// from `lsn` on, in version 1 of the protocol.
pub open spec fn start_replication_query_text(
    slot: Seq<char>,
    lsn: u64,
    publication: Seq<char>,
) -> Seq<char> {
    "START_REPLICATION SLOT \""@ + slot + "\" LOGICAL "@ + lsn_text(lsn)
        + "\n                  (\"proto_version\" '1', \"publication_names\" '"@ + publication
        + "')"@
}

/// Writes the statement that starts streaming.
pub fn start_replication_query(slot: &str, lsn: u64, publication: &str) -> (query: String)
    ensures
        query@ == start_replication_query_text(slot@, lsn, publication@),
{
    let position = format_lsn(lsn);
    let mut query = concat3("START_REPLICATION SLOT \"", slot, "\" LOGICAL ");
    query.append(position.as_str());
    query.append("\n                  (\"proto_version\" '1', \"publication_names\" '");
    query.append(publication);
    query.append("')");
    query
}

/// The statement that lists the changes that wait in a slot for a
/// publication, without consuming them.
pub open spec fn peek_query_text(slot: Seq<char>, publication: Seq<char>) -> Seq<char> {
    "SELECT lsn FROM pg_logical_slot_peek_binary_changes(\n                     '"@ + slot
        + "', NULL, NULL,\n                     'proto_version', '1',\n                     'publication_names', '"@
        + publication + "'\n                )"@
}

/// Writes the statement that lists the changes that wait in a slot.
pub fn peek_query(slot: &str, publication: &str) -> (query: String)
    ensures
        query@ == peek_query_text(slot@, publication@),
{
    let mut query = concat3(
        "SELECT lsn FROM pg_logical_slot_peek_binary_changes(\n                     '",
        slot,
        "', NULL, NULL,\n                     'proto_version', '1',\n                     'publication_names', '",
    );
    query.append(publication);
    query.append("'\n                )");
    query
}

/// The value of the first column of a row that has the given name; `None`
/// where no column has it or the value is NULL.
pub open spec fn column_value(row: Seq<QueryColumn>, column: Seq<char>) -> Option<Seq<char>>
    decreases row.len(),
{
    if row.len() == 0 {
        None
    } else if row[0].name@ == column {
        match row[0].value {
            Some(v) => Some(v@),
            None => None,
        }
    } else {
        column_value(row.drop_first(), column)
    }
}

/// Looks a column up by its name.
pub fn get_column<'a>(row: &'a Vec<QueryColumn>, column: &str) -> (value: Option<&'a String>)
    ensures
        match value {
            Some(v) => column_value(row@, column@) == Some(v@),
            None => column_value(row@, column@) is None,
        },
{
    let wanted = column.to_owned();
    let mut i: usize = 0;
    assert(row@.skip(0) =~= row@);
    while i < row.len()
        invariant
            i <= row@.len(),
            wanted@ == column@,
            column_value(row@, column@) == column_value(row@.skip(i as int), column@),
        decreases row@.len() - i,
    {
        proof {
            let rest = row@.skip(i as int);
            assert(rest[0] == row@[i as int]);
            assert(rest.drop_first() =~= row@.skip(i + 1));
        }
        if row[i].name == wanted {
            return match &row[i].value {
                Some(v) => Some(v),
                None => None,
            };
        }
        i = i + 1;
    }
    None
}

/// How many of the messages are rows.
pub open spec fn row_count(messages: Seq<QueryMessage>) -> nat
    decreases messages.len(),
{
    if messages.len() == 0 {
        0
    } else {
        row_count(messages.drop_last()) + if messages.last() is Row {
            1nat
        } else {
            0nat
        }
    }
}

/// The last row among the messages, empty where there is none.
pub open spec fn last_row(messages: Seq<QueryMessage>) -> Seq<QueryColumn>
    decreases messages.len(),
{
    if messages.len() == 0 {
        Seq::empty()
    } else {
        match messages.last() {
            QueryMessage::Row(row) => row@,
            _ => last_row(messages.drop_last()),
        }
    }
}

/// What an answer that should be a single row with an LSN in `column`
/// gives: the LSN, or the text of the error.
pub open spec fn single_row_lsn(messages: Seq<QueryMessage>, column: Seq<char>) -> Result<
    u64,
    Seq<char>,
> {
    if row_count(messages) == 0 {
        Err("empty result"@)
    } else if row_count(messages) > 1 {
        Err("ambiguous result, more than one row"@)
    } else {
        match column_value(last_row(messages), column) {
            None => Err("missing expected column: "@ + column),
            Some(text) => match lsn_from_text(text) {
                Some(lsn) => Ok(lsn),
                None => Err("invalid data"@),
            },
        }
    }
}

/// Settles what the single row of an answer gave: the column's value, and
/// the LSN that was read from it.
pub fn single_value(column: &str, value: Option<&String>, parsed: Option<u64>) -> (res: Result<
    u64,
    ReplicationError,
>)
    ensures
        match value {
            None => fails_with(
                res,
                ErrorClass::Indefinite,
                "missing expected column: "@ + column@,
            ),
            Some(_) => match parsed {
                Some(lsn) => res == Ok::<u64, ReplicationError>(lsn),
                None => fails_with(res, ErrorClass::Indefinite, "invalid data"@),
            },
        },
{
    match value {
        None => {
            let mut text = "missing expected column: ".to_owned();
            text.append(column);
            Err(ReplicationError::Indefinite(text))
        },
        Some(_) => match parsed {
            Some(lsn) => Ok(lsn),
            None => Err(ReplicationError::Indefinite("invalid data".to_owned())),
        },
    }
}

/// Reads the answer to a query that is expected to be a single row with an
/// LSN in the given column. Every failure is indefinite.
pub fn parse_single_row(result: &Vec<QueryMessage>, column: &str) -> (res: Result<
    u64,
    ReplicationError,
>)
    ensures
        match single_row_lsn(result@, column@) {
            Ok(lsn) => res == Ok::<u64, ReplicationError>(lsn),
            Err(text) => fails_with(res, ErrorClass::Indefinite, text),
        },
{
    let mut rows: usize = 0;
    let mut found: Option<&Vec<QueryColumn>> = None;
    let mut i: usize = 0;
    assert(result@.take(0) =~= Seq::empty());
    while i < result.len()
        invariant
            i <= result@.len(),
            rows == row_count(result@.take(i as int)),
            rows <= i,
            match found {
                Some(row) => rows >= 1 && row@ == last_row(result@.take(i as int)),
                None => rows == 0,
            },
        decreases result@.len() - i,
    {
        proof {
            let head = result@.take(i + 1);
            assert(head.last() == result@[i as int]);
            assert(head.drop_last() =~= result@.take(i as int));
        }
        match &result[i] {
            QueryMessage::Row(row) => {
                rows = rows + 1;
                found = Some(row);
            },
            _ => {},
        }
        i = i + 1;
    }
    proof {
        assert(result@.take(i as int) =~= result@);
    }
    match found {
        Some(row) => {
            if rows == 1 {
                let value = get_column(row, column);
                let parsed = match value {
                    Some(text) => parse_lsn(text.as_str()),
                    None => None,
                };
                single_value(column, value, parsed)
            } else {
                Err(
                    ReplicationError::Indefinite("ambiguous result, more than one row".to_owned()),
                )
            }
        },
        None => Err(ReplicationError::Indefinite("empty result".to_owned())),
    }
}

} // verus!
