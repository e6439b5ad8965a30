use postgres_source::decoder::Step;
use postgres_source::error::ReplicationError;
use postgres_source::message::{Event, LogicalMessage, ReplicationMessage};
use postgres_source::query::{QueryColumn, QueryMessage};
use postgres_source::schema::{ColumnDesc, SourceTable, TableDesc};
use postgres_source::stream::{
    check_relation, count_change, count_changes, Advance, Handled, ProbeFault, ReplicationStream,
    FEEDBACK_INTERVAL, WAL_LAG_GRACE_PERIOD,
};
use postgres_source::tuple::TupleData;
use std::collections::BTreeMap;

const SECOND: u64 = 1_000_000_000;

fn eval(index: &usize, datums: &Vec<Option<String>>) -> Result<Option<String>, String> {
    match datums.get(*index) {
        Some(datum) => Ok(datum.clone()),
        None => Err(format!("no column {}", index)),
    }
}

fn desc(oid: u32, name: &str, columns: Vec<ColumnDesc>) -> TableDesc {
    TableDesc { oid, namespace: "public".to_string(), name: name.to_string(), columns }
}

fn column(name: &str, type_oid: u32, type_mod: i32, nullable: bool) -> ColumnDesc {
    ColumnDesc { name: name.to_string(), type_oid, type_mod, nullable }
}

fn tables() -> BTreeMap<u32, SourceTable<usize>> {
    let mut tables = BTreeMap::new();
    tables.insert(
        16384,
        SourceTable {
            output_index: 1,
            desc: desc(16384, "t", vec![column("id", 23, -1, false), column("v", 25, -1, true)]),
            casts: vec![0, 1],
        },
    );
    tables
}

fn lsn_row(value: Option<&str>) -> QueryMessage {
    QueryMessage::Row(vec![QueryColumn {
        name: "lsn".to_string(),
        value: value.map(|v| v.to_string()),
    }])
}

#[test]
fn intervals_are_thirty_seconds() {
    assert_eq!(FEEDBACK_INTERVAL, 30 * SECOND);
    assert_eq!(WAL_LAG_GRACE_PERIOD, 30 * SECOND);
}

#[test]
fn new_stream_starts_at_as_of() {
    let stream: ReplicationStream<Option<String>> = ReplicationStream::new(500, 7 * SECOND);
    assert_eq!(stream.decoder.last_commit_lsn, 500);
    assert_eq!(stream.observed_wal_end, 500);
    assert_eq!(stream.last_feedback, 7 * SECOND);
    assert_eq!(stream.last_data_message, 7 * SECOND);
    assert!(stream.decoder.inserts.is_empty());
    assert!(stream.decoder.deletes.is_empty());
}

#[test]
fn status_update_is_due_after_more_than_thirty_seconds() {
    let mut stream: ReplicationStream<Option<String>> = ReplicationStream::new(0, 10 * SECOND);
    assert!(!stream.status_update_due(10 * SECOND));
    assert!(!stream.status_update_due(40 * SECOND));
    assert!(stream.status_update_due(40 * SECOND + 1));
    // a clock reading before the last feedback counts as no time at all
    assert!(!stream.status_update_due(0));
    stream.feedback_sent(40 * SECOND + 1);
    assert_eq!(stream.last_feedback, 40 * SECOND + 1);
    assert!(!stream.status_update_due(70 * SECOND + 1));
    assert!(stream.status_update_due(70 * SECOND + 2));
    assert_eq!(stream.last_data_message, 10 * SECOND);
}

#[test]
fn data_message_resets_the_silence() {
    let tables = tables();
    let mut stream: ReplicationStream<Option<String>> = ReplicationStream::new(0, 0);
    let message = ReplicationMessage::XLogData(LogicalMessage::Begin);
    let handled = stream.handle_message(&tables, &message, true, 12 * SECOND, &eval);
    assert_eq!(
        handled,
        Ok(Handled { advance: Advance::Data(Step::Began), send_status_update: true })
    );
    assert_eq!(stream.last_data_message, 12 * SECOND);
    assert_eq!(stream.last_feedback, 0);
    let message = ReplicationMessage::XLogData(LogicalMessage::Origin);
    let handled = stream.handle_message(&tables, &message, false, 13 * SECOND, &eval);
    assert_eq!(
        handled,
        Ok(Handled { advance: Advance::Data(Step::Ignored), send_status_update: false })
    );
    assert_eq!(stream.last_data_message, 13 * SECOND);
}

#[test]
fn commit_through_the_stream_hands_on_events() {
    let tables = tables();
    let mut stream = ReplicationStream::new(100, 0);
    let insert = ReplicationMessage::XLogData(LogicalMessage::Insert {
        rel_id: 16384,
        new_tuple: vec![TupleData::Text(b"3".to_vec()), TupleData::Null],
    });
    assert_eq!(
        stream.handle_message(&tables, &insert, false, 1, &eval),
        Ok(Handled { advance: Advance::Data(Step::Buffered), send_status_update: false })
    );
    let commit = ReplicationMessage::XLogData(LogicalMessage::Commit { end_lsn: 200 });
    assert_eq!(
        stream.handle_message(&tables, &commit, false, 2, &eval),
        Ok(Handled {
            advance: Advance::Data(Step::Committed(vec![
                Event::Message { lsn: 200, output: 1, row: vec![Some("3".to_string()), None], diff: 1 },
                Event::Progress(201),
            ])),
            send_status_update: false,
        })
    );
    assert_eq!(stream.decoder.last_commit_lsn, 200);
    assert_eq!(stream.observed_wal_end, 100);
}

#[test]
fn failed_data_message_leaves_the_stream_as_it_was() {
    let tables = tables();
    let mut stream: ReplicationStream<Option<String>> = ReplicationStream::new(100, 5);
    let truncate = ReplicationMessage::XLogData(LogicalMessage::Truncate { rel_ids: vec![16384] });
    assert_eq!(
        stream.handle_message(&tables, &truncate, true, 99, &eval),
        Err(ReplicationError::Definite(
            "source table(s) name: t id: 16384 got truncated".to_string()
        ))
    );
    assert_eq!(stream.last_data_message, 5);
}

#[test]
fn keepalive_records_the_end_of_the_log() {
    let tables = tables();
    let mut stream: ReplicationStream<Option<String>> = ReplicationStream::new(100, 0);
    let keepalive = ReplicationMessage::PrimaryKeepAlive { wal_end: 4000, reply: 0 };
    assert_eq!(
        stream.handle_message(&tables, &keepalive, false, 30 * SECOND, &eval),
        Ok(Handled { advance: Advance::KeptAlive, send_status_update: false })
    );
    assert_eq!(stream.observed_wal_end, 4000);
    assert_eq!(stream.last_data_message, 0);
    assert_eq!(stream.decoder.last_commit_lsn, 100);
}

#[test]
fn keepalive_that_asks_for_a_reply_gets_a_status_update() {
    let tables = tables();
    let mut stream: ReplicationStream<Option<String>> = ReplicationStream::new(100, 0);
    let keepalive = ReplicationMessage::PrimaryKeepAlive { wal_end: 4000, reply: 1 };
    assert_eq!(
        stream.handle_message(&tables, &keepalive, false, SECOND, &eval),
        Ok(Handled { advance: Advance::KeptAlive, send_status_update: true })
    );
    let keepalive = ReplicationMessage::PrimaryKeepAlive { wal_end: 4000, reply: 2 };
    assert_eq!(
        stream.handle_message(&tables, &keepalive, false, SECOND, &eval),
        Ok(Handled { advance: Advance::KeptAlive, send_status_update: false })
    );
    let keepalive = ReplicationMessage::PrimaryKeepAlive { wal_end: 4000, reply: 0 };
    assert_eq!(
        stream.handle_message(&tables, &keepalive, true, SECOND, &eval),
        Ok(Handled { advance: Advance::KeptAlive, send_status_update: true })
    );
}

#[test]
fn long_silence_leads_to_a_probe() {
    let tables = tables();
    let mut stream: ReplicationStream<Option<String>> = ReplicationStream::new(100, 0);
    stream.opened(2 * SECOND);
    let keepalive = ReplicationMessage::PrimaryKeepAlive { wal_end: 9000, reply: 1 };
    assert_eq!(
        stream.handle_message(&tables, &keepalive, true, 32 * SECOND + 1, &eval),
        Ok(Handled { advance: Advance::Probe, send_status_update: false })
    );
    assert_eq!(stream.observed_wal_end, 9000);
}

#[test]
fn idle_stream_with_no_relevant_changes_fast_forwards() {
    // After 30s of silence and a probe that finds nothing, the frontier moves behind
    // the end of the log as last observed.
    let tables = tables();
    let mut stream: ReplicationStream<Option<String>> = ReplicationStream::new(100, 0);
    let keepalive = ReplicationMessage::PrimaryKeepAlive { wal_end: 9000, reply: 0 };
    let handled = stream.handle_message(&tables, &keepalive, false, 31 * SECOND, &eval);
    assert_eq!(handled, Ok(Handled { advance: Advance::Probe, send_status_update: false }));
    let answer = vec![lsn_row(Some("0/64")), lsn_row(Some("0/10")), QueryMessage::CommandComplete(2)];
    let changes = count_changes(&answer, stream.decoder.last_commit_lsn).unwrap();
    assert_eq!(changes, 0);
    assert_eq!(stream.fast_forward(changes), Some(Event::Progress(9001)));
    assert_eq!(stream.decoder.last_commit_lsn, 9000);
}

#[test]
fn genuine_lag_does_not_fast_forward() {
    let mut stream: ReplicationStream<Option<String>> = ReplicationStream::new(100, 0);
    stream.observed_wal_end = 9000;
    assert_eq!(stream.fast_forward(3), None);
    assert_eq!(stream.decoder.last_commit_lsn, 100);
    assert_eq!(stream.observed_wal_end, 9000);
}

#[test]
fn unknown_replication_message_is_definite() {
    let tables = tables();
    let mut stream: ReplicationStream<Option<String>> = ReplicationStream::new(100, 0);
    assert_eq!(
        stream.handle_message(&tables, &ReplicationMessage::Other, true, 5, &eval),
        Err(ReplicationError::Definite("Unexpected replication message".to_string()))
    );
}

#[test]
fn probe_counts_changes_behind_the_last_commit() {
    let answer = vec![
        lsn_row(Some("0/63")),
        lsn_row(Some("0/64")),
        lsn_row(Some("0/65")),
        lsn_row(Some("16/B374D848")),
        QueryMessage::CommandComplete(4),
    ];
    assert_eq!(count_changes(&answer, 100), Ok(2));
    assert_eq!(count_changes(&answer, 0), Ok(4));
    assert_eq!(count_changes(&answer, 97500059719), Ok(1));
    assert_eq!(count_changes(&answer, 97500059720), Ok(0));
    assert_eq!(count_changes(&vec![], 0), Ok(0));
}

#[test]
fn probe_reports_what_it_cannot_read() {
    assert_eq!(count_changes(&vec![lsn_row(None)], 0), Err(ProbeFault::MissingLsn));
    assert_eq!(
        count_changes(
            &vec![QueryMessage::Row(vec![QueryColumn {
                name: "location".to_string(),
                value: Some("0/1".to_string())
            }])],
            0
        ),
        Err(ProbeFault::MissingLsn)
    );
    assert_eq!(count_changes(&vec![lsn_row(Some("zz"))], 0), Err(ProbeFault::InvalidLsn));
    assert_eq!(
        count_changes(&vec![lsn_row(Some("0/1")), QueryMessage::Other], 0),
        Err(ProbeFault::UnexpectedMessage)
    );
    // the first message that cannot be read decides
    assert_eq!(
        count_changes(&vec![lsn_row(Some("0/1")), lsn_row(Some("x")), QueryMessage::Other], 0),
        Err(ProbeFault::InvalidLsn)
    );
}

#[test]
fn count_change_settles_one_message() {
    let value = "0/5".to_string();
    assert_eq!(count_change(true, false, Some(&value), Some(5), 4), Ok(true));
    assert_eq!(count_change(true, false, Some(&value), Some(5), 5), Ok(false));
    assert_eq!(count_change(true, false, Some(&value), None, 5), Err(ProbeFault::InvalidLsn));
    assert_eq!(count_change(true, false, None, None, 5), Err(ProbeFault::MissingLsn));
    assert_eq!(count_change(false, true, None, None, 5), Ok(false));
    assert_eq!(count_change(false, false, None, None, 5), Err(ProbeFault::UnexpectedMessage));
}

#[test]
fn relation_check_accepts_the_same_shape() {
    let tables = tables();
    let info = &tables[&16384];
    let current = desc(16384, "t", vec![column("id", 23, -1, false), column("v", 25, -1, false)]);
    assert_eq!(check_relation(info, Some(&current)), Ok(()));
}

#[test]
fn relation_check_rejects_altered_and_dropped_tables() {
    let tables = tables();
    let info = &tables[&16384];
    let renamed = desc(16384, "t", vec![column("id", 23, -1, false), column("w", 25, -1, true)]);
    assert_eq!(
        check_relation(info, Some(&renamed)),
        Err(ReplicationError::Definite("source table t with oid 16384 has been altered".to_string()))
    );
    assert_eq!(
        check_relation(info, None),
        Err(ReplicationError::Definite("source table t with oid 16384 has been dropped".to_string()))
    );
}
