use postgres_source::cast::cast_row;
use postgres_source::error::ReplicationError;
use postgres_source::schema::{ColumnDesc, SourceTable, TableDesc};
use postgres_source::snapshot::{
    datums_from_copy, snapshot_copies, snapshot_row, TableCopy, COPY_READ_TIMEOUT_SECS,
};
use postgres_source::tuple::{backfill_toast, datums_from_tuple, tuple_fields, TupleData};
use std::collections::BTreeMap;

#[derive(Debug, Clone, PartialEq, Eq)]
enum Cast {
    Int(usize),
    Text(usize),
    Fail(&'static str),
}

#[derive(Debug, Clone, PartialEq, Eq)]
enum Datum {
    Null,
    Int(i64),
    Text(String),
}

fn eval(cast: &Cast, datums: &Vec<Option<String>>) -> Result<Datum, String> {
    match cast {
        Cast::Fail(message) => Err(message.to_string()),
        Cast::Int(i) => match &datums[*i] {
            None => Ok(Datum::Null),
            Some(text) => text.parse().map(Datum::Int).map_err(|_| format!("not a number: {}", text)),
        },
        Cast::Text(i) => match &datums[*i] {
            None => Ok(Datum::Null),
            Some(text) => Ok(Datum::Text(text.clone())),
        },
    }
}

fn table(oid: u32, namespace: &str, name: &str, output_index: usize) -> SourceTable<Cast> {
    SourceTable {
        output_index,
        desc: TableDesc {
            oid,
            namespace: namespace.to_string(),
            name: name.to_string(),
            columns: vec![
                ColumnDesc { name: "id".to_string(), type_oid: 23, type_mod: -1, nullable: false },
                ColumnDesc { name: "v".to_string(), type_oid: 25, type_mod: -1, nullable: true },
            ],
        },
        casts: vec![Cast::Int(0), Cast::Text(1)],
    }
}

fn text(s: &str) -> TupleData {
    TupleData::Text(s.as_bytes().to_vec())
}

fn some(s: &str) -> Option<String> {
    Some(s.to_string())
}

#[test]
fn copy_reads_time_out_after_thirty_seconds() {
    assert_eq!(COPY_READ_TIMEOUT_SECS, 30);
}

#[test]
fn tables_are_copied_in_the_order_of_their_oids() {
    let mut tables = BTreeMap::new();
    tables.insert(300, table(300, "public", "late", 1));
    tables.insert(100, table(100, "sales", "orders", 2));
    tables.insert(200, table(200, "public", "Mixed Case", 3));
    assert_eq!(
        snapshot_copies(&tables),
        vec![
            TableCopy {
                oid: 100,
                query: "COPY \"sales\".\"orders\" TO STDOUT (FORMAT TEXT, DELIMITER '\t')".to_string(),
            },
            TableCopy {
                oid: 200,
                query: "COPY \"public\".\"Mixed Case\" TO STDOUT (FORMAT TEXT, DELIMITER '\t')"
                    .to_string(),
            },
            TableCopy {
                oid: 300,
                query: "COPY \"public\".\"late\" TO STDOUT (FORMAT TEXT, DELIMITER '\t')".to_string(),
            },
        ]
    );
}

#[test]
fn copied_fields_become_text() {
    let fields = vec![Ok(Some(b"1".to_vec())), Ok(None), Ok(Some("\u{e9}t\u{e9}".as_bytes().to_vec()))];
    assert_eq!(datums_from_copy(&fields), Ok(vec![some("1"), None, some("\u{e9}t\u{e9}")]));
    assert_eq!(datums_from_copy(&vec![]), Ok(vec![]));
}

#[test]
fn first_bad_copied_field_is_the_error() {
    let invalid = std::str::from_utf8(&[0xc3, 0x28]).unwrap_err().to_string();
    let fields = vec![
        Ok(Some(b"1".to_vec())),
        Ok(Some(vec![0xc3, 0x28])),
        Err("unterminated escape".to_string()),
    ];
    assert_eq!(datums_from_copy(&fields), Err(invalid));
    let fields = vec![
        Ok(None),
        Err("unterminated escape".to_string()),
        Ok(Some(vec![0xc3, 0x28])),
    ];
    assert_eq!(datums_from_copy(&fields), Err("unterminated escape".to_string()));
}

#[test]
fn snapshot_row_goes_to_the_tables_output() {
    let info = table(16384, "public", "t", 4);
    let fields = vec![Ok(Some(b"12".to_vec())), Ok(None)];
    assert_eq!(snapshot_row(&info, &fields, &eval), Ok((4, vec![Datum::Int(12), Datum::Null])));
}

#[test]
fn snapshot_row_failures_are_definite() {
    let info = table(16384, "public", "t", 4);
    let fields = vec![Err("bad escape".to_string()), Ok(None)];
    assert_eq!(
        snapshot_row(&info, &fields, &eval),
        Err(ReplicationError::Definite("bad escape".to_string()))
    );
    let fields = vec![Ok(Some(b"twelve".to_vec())), Ok(None)];
    assert_eq!(
        snapshot_row(&info, &fields, &eval),
        Err(ReplicationError::Definite("not a number: twelve".to_string()))
    );
}

#[test]
fn cast_row_evaluates_every_expression_on_the_whole_row() {
    let datums = vec![some("5"), some("five"), None];
    let casts = vec![Cast::Text(1), Cast::Int(0), Cast::Int(2), Cast::Text(0)];
    assert_eq!(
        cast_row(&casts, &datums, &eval),
        Ok(vec![Datum::Text("five".to_string()), Datum::Int(5), Datum::Null, Datum::Text("5".to_string())])
    );
    assert_eq!(cast_row(&Vec::<Cast>::new(), &datums, &eval), Ok(vec![]));
}

#[test]
fn cast_row_stops_at_the_first_error() {
    let datums = vec![some("5"), some("five")];
    let casts = vec![Cast::Int(0), Cast::Fail("first"), Cast::Fail("second")];
    assert_eq!(cast_row(&casts, &datums, &eval), Err("first".to_string()));
    let casts = vec![Cast::Int(1), Cast::Fail("first")];
    assert_eq!(cast_row(&casts, &datums, &eval), Err("not a number: five".to_string()));
}

#[test]
fn tuple_fields_become_text() {
    let tuple = vec![text("1"), TupleData::Null, text("x y")];
    let fields = tuple_fields(&tuple);
    assert_eq!(fields, vec![&tuple[0], &tuple[1], &tuple[2]]);
    assert_eq!(datums_from_tuple(16384, 3, &fields), Ok(vec![some("1"), None, some("x y")]));
    assert_eq!(datums_from_tuple(16384, 10, &fields), Ok(vec![some("1"), None, some("x y")]));
    assert_eq!(datums_from_tuple(16384, 2, &fields), Ok(vec![some("1"), None]));
    assert_eq!(datums_from_tuple(16384, 0, &fields), Ok(vec![]));
}

#[test]
fn missing_toast_value_names_the_table() {
    let tuple = vec![text("1"), TupleData::UnchangedToast, TupleData::Text(vec![0xff])];
    let fields = tuple_fields(&tuple);
    assert_eq!(
        datums_from_tuple(4294967295, 3, &fields),
        Err("Missing TOASTed value from table with OID = 4294967295. Did you forget to set REPLICA IDENTITY to FULL for your table?".to_string())
    );
    assert_eq!(datums_from_tuple(4294967295, 1, &fields), Ok(vec![some("1")]));
}

#[test]
fn invalid_utf8_in_tuple_is_the_error_of_std() {
    let tuple = vec![TupleData::Text(vec![0x61, 0x80])];
    let expected = std::str::from_utf8(&[0x61, 0x80]).unwrap_err().to_string();
    assert_eq!(datums_from_tuple(1, 1, &tuple_fields(&tuple)), Err(expected));
}

#[test]
fn backfill_takes_old_fields_for_unchanged_toast() {
    let new_tuple = vec![text("n0"), TupleData::UnchangedToast, TupleData::Null, text("n3")];
    let old_tuple = vec![text("o0"), text("o1"), TupleData::UnchangedToast];
    let fields = backfill_toast(&new_tuple, &old_tuple);
    assert_eq!(fields, vec![&new_tuple[0], &old_tuple[1], &new_tuple[2]]);
    let only_toast = vec![TupleData::UnchangedToast, TupleData::UnchangedToast];
    let fields = backfill_toast(&only_toast, &old_tuple);
    assert_eq!(fields, vec![&old_tuple[0], &old_tuple[1]]);
    assert!(backfill_toast(&new_tuple, &vec![]).is_empty());
}
