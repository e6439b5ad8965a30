use postgres_source::error::ReplicationError;
use postgres_source::query::{
    copy_query, create_slot_query, drop_slot_query, get_column, parse_single_row, peek_query,
    single_value, slot_query, start_replication_query, QueryColumn, QueryMessage, BEGIN_SNAPSHOT,
    COMMIT_SNAPSHOT,
};

fn col(name: &str, value: Option<&str>) -> QueryColumn {
    QueryColumn { name: name.to_string(), value: value.map(|v| v.to_string()) }
}

fn row(name: &str, value: Option<&str>) -> QueryMessage {
    QueryMessage::Row(vec![col(name, value)])
}

fn indefinite(message: &str) -> ReplicationError {
    ReplicationError::Indefinite(message.to_string())
}

#[test]
fn snapshot_transaction_statements() {
    assert_eq!(BEGIN_SNAPSHOT, "BEGIN READ ONLY ISOLATION LEVEL REPEATABLE READ;");
    assert_eq!(COMMIT_SNAPSHOT, "COMMIT;");
}

#[test]
fn slot_query_asks_for_confirmed_flush_lsn() {
    assert_eq!(
        slot_query("materialize_1a2b"),
        "SELECT confirmed_flush_lsn FROM pg_replication_slots WHERE slot_name = 'materialize_1a2b'"
    );
}

#[test]
fn create_slot_query_quotes_the_name() {
    assert_eq!(
        create_slot_query("mz_slot", false),
        "CREATE_REPLICATION_SLOT \"mz_slot\" LOGICAL \"pgoutput\" USE_SNAPSHOT"
    );
    assert_eq!(
        create_slot_query("0123abcd", true),
        "CREATE_REPLICATION_SLOT \"0123abcd\" TEMPORARY LOGICAL \"pgoutput\" USE_SNAPSHOT"
    );
    assert_eq!(
        create_slot_query("we\"ird", false),
        "CREATE_REPLICATION_SLOT \"we\\\"ird\" LOGICAL \"pgoutput\" USE_SNAPSHOT"
    );
}

#[test]
fn drop_slot_query_quotes_the_name() {
    assert_eq!(drop_slot_query("0123abcd"), "DROP_REPLICATION_SLOT \"0123abcd\"");
}

#[test]
fn copy_query_names_schema_and_table() {
    assert_eq!(
        copy_query("public", "t"),
        "COPY \"public\".\"t\" TO STDOUT (FORMAT TEXT, DELIMITER '\t')"
    );
    assert_eq!(
        copy_query("My Schema", "tab\tle"),
        "COPY \"My Schema\".\"tab\\tle\" TO STDOUT (FORMAT TEXT, DELIMITER '\t')"
    );
}

#[test]
fn start_replication_query_writes_the_lsn_in_hex() {
    assert_eq!(
        start_replication_query("mz_slot", 0, "mz_source"),
        "START_REPLICATION SLOT \"mz_slot\" LOGICAL 0/0\n                  (\"proto_version\" '1', \"publication_names\" 'mz_source')"
    );
    assert_eq!(
        start_replication_query("s", 97500059720, "p"),
        "START_REPLICATION SLOT \"s\" LOGICAL 16/B374D848\n                  (\"proto_version\" '1', \"publication_names\" 'p')"
    );
    assert_eq!(
        start_replication_query("s", 12884902143, "p"),
        "START_REPLICATION SLOT \"s\" LOGICAL 3/FF\n                  (\"proto_version\" '1', \"publication_names\" 'p')"
    );
    assert_eq!(
        start_replication_query("s", u64::MAX, "p"),
        "START_REPLICATION SLOT \"s\" LOGICAL FFFFFFFF/FFFFFFFF\n                  (\"proto_version\" '1', \"publication_names\" 'p')"
    );
    assert_eq!(
        start_replication_query("s", 171, "p"),
        "START_REPLICATION SLOT \"s\" LOGICAL 0/AB\n                  (\"proto_version\" '1', \"publication_names\" 'p')"
    );
}

#[test]
fn peek_query_names_slot_and_publication() {
    assert_eq!(
        peek_query("mz_slot", "mz_source"),
        "SELECT lsn FROM pg_logical_slot_peek_binary_changes(\n                     'mz_slot', NULL, NULL,\n                     'proto_version', '1',\n                     'publication_names', 'mz_source'\n                )"
    );
}

#[test]
fn get_column_finds_the_first_with_the_name() {
    let columns =
        vec![col("a", Some("1")), col("b", None), col("a", Some("2")), col("c", Some("3"))];
    assert_eq!(get_column(&columns, "a"), Some(&"1".to_string()));
    assert_eq!(get_column(&columns, "c"), Some(&"3".to_string()));
    assert_eq!(get_column(&columns, "b"), None);
    assert_eq!(get_column(&columns, "d"), None);
    assert_eq!(get_column(&vec![], "a"), None);
}

#[test]
fn single_row_with_lsn_is_parsed() {
    let answer = vec![row("confirmed_flush_lsn", Some("16/B374D848")), QueryMessage::CommandComplete(1)];
    assert_eq!(parse_single_row(&answer, "confirmed_flush_lsn"), Ok(97500059720));
    let answer = vec![QueryMessage::Other, row("consistent_point", Some("0/1A"))];
    assert_eq!(parse_single_row(&answer, "consistent_point"), Ok(26));
    let answer = vec![row("consistent_point", Some("1/a"))];
    assert_eq!(parse_single_row(&answer, "consistent_point"), Ok(4294967306));
}

#[test]
fn empty_answer_is_indefinite() {
    assert_eq!(parse_single_row(&vec![], "consistent_point"), Err(indefinite("empty result")));
    assert_eq!(
        parse_single_row(&vec![QueryMessage::CommandComplete(0)], "consistent_point"),
        Err(indefinite("empty result"))
    );
}

#[test]
fn more_than_one_row_is_indefinite() {
    let answer = vec![
        row("consistent_point", Some("0/1")),
        QueryMessage::CommandComplete(1),
        row("consistent_point", Some("0/2")),
    ];
    assert_eq!(
        parse_single_row(&answer, "consistent_point"),
        Err(indefinite("ambiguous result, more than one row"))
    );
}

#[test]
fn missing_column_is_indefinite() {
    let answer = vec![row("confirmed_flush_lsn", None)];
    assert_eq!(
        parse_single_row(&answer, "confirmed_flush_lsn"),
        Err(indefinite("missing expected column: confirmed_flush_lsn"))
    );
    let answer = vec![row("other", Some("0/1"))];
    assert_eq!(
        parse_single_row(&answer, "confirmed_flush_lsn"),
        Err(indefinite("missing expected column: confirmed_flush_lsn"))
    );
}

#[test]
fn text_that_is_no_lsn_is_indefinite() {
    for text in ["", "16", "16/", "/16", "g/1", "1/g", "1/2/3", "0x1/2"] {
        let answer = vec![row("consistent_point", Some(text))];
        assert_eq!(
            parse_single_row(&answer, "consistent_point"),
            Err(indefinite("invalid data")),
            "for {:?}",
            text
        );
    }
}

#[test]
fn single_value_settles_the_row() {
    let text = "0/10".to_string();
    assert_eq!(single_value("c", Some(&text), Some(16)), Ok(16));
    assert_eq!(single_value("c", Some(&text), None), Err(indefinite("invalid data")));
    assert_eq!(single_value("c", None, None), Err(indefinite("missing expected column: c")));
    assert_eq!(single_value("c", None, Some(3)), Err(indefinite("missing expected column: c")));
}
