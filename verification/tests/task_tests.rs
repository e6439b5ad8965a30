use postgres_source::decoder::{ReplicationDecoder, Step};
use postgres_source::error::{ErrorClass, ReplicationError};
use postgres_source::message::{Event, LogicalMessage};
use postgres_source::output::InternalMessage;
use postgres_source::reader::{Emission, PostgresSourceReader};
use postgres_source::schema::{ColumnDesc, SourceTable, TableDesc};
use postgres_source::sender::RowMessage;
use postgres_source::slot::{needs_rewind, snapshot_position, SnapshotPosition};
use postgres_source::snapshot::{snapshot_copies, snapshot_row};
use postgres_source::task::{rewind_failure, snapshot_failure, ReplicationTask, Rewound};
use postgres_source::tuple::TupleData;
use std::collections::BTreeMap;

type Row = Vec<Option<String>>;

fn eval(index: &usize, datums: &Vec<Option<String>>) -> Result<Option<String>, String> {
    match datums.get(*index) {
        Some(datum) => Ok(datum.clone()),
        None => Err(format!("no column {}", index)),
    }
}

fn tables() -> BTreeMap<u32, SourceTable<usize>> {
    let mut tables = BTreeMap::new();
    tables.insert(
        16384,
        SourceTable {
            output_index: 1,
            desc: TableDesc {
                oid: 16384,
                namespace: "public".to_string(),
                name: "t".to_string(),
                columns: vec![
                    ColumnDesc { name: "id".to_string(), type_oid: 23, type_mod: -1, nullable: false },
                    ColumnDesc { name: "v".to_string(), type_oid: 25, type_mod: -1, nullable: true },
                ],
            },
            casts: vec![0, 1],
        },
    );
    tables
}

fn row(id: &str, v: &str) -> Row {
    vec![Some(id.to_string()), Some(v.to_string())]
}

fn fields(id: &str, v: &str) -> Vec<Result<Option<Vec<u8>>, String>> {
    vec![Ok(Some(id.as_bytes().to_vec())), Ok(Some(v.as_bytes().to_vec()))]
}

fn tuple(id: &str, v: &str) -> Vec<TupleData> {
    vec![TupleData::Text(id.as_bytes().to_vec()), TupleData::Text(v.as_bytes().to_vec())]
}

fn value(output: usize, row: Row, lsn: u64, diff: i64, end: bool) -> InternalMessage<Row> {
    InternalMessage::Value { output, value: row, lsn, diff, end }
}

/// Leads a transaction through a decoder and the task, and gives what goes out.
fn stream_transaction(
    decoder: &mut ReplicationDecoder<Option<String>>,
    task: &mut ReplicationTask<Option<String>>,
    messages: Vec<LogicalMessage>,
) -> Vec<InternalMessage<Row>> {
    let tables = tables();
    let mut out = Vec::new();
    for message in &messages {
        if let Step::Committed(events) = decoder.handle_data(&tables, message, &eval).unwrap() {
            for event in events {
                out.extend(task.stream_event(event));
            }
        }
    }
    out
}

#[test]
fn task_at_zero_needs_a_snapshot() {
    let task: ReplicationTask<Option<String>> = ReplicationTask::new(0);
    assert!(task.needs_snapshot());
    assert_eq!(task.replication_lsn, 0);
    assert!(task.row_sender.buffered_message.is_none());
}

#[test]
fn restart_at_later_lsn_skips_the_snapshot() {
    let mut task: ReplicationTask<Option<String>> = ReplicationTask::new(700);
    assert!(!task.needs_snapshot());
    // the decoder opens at the LSN of the task, and a row that was committed behind it
    // goes out once
    let mut decoder = ReplicationDecoder::new(task.replication_lsn);
    assert_eq!(decoder.last_commit_lsn, 700);
    let out = stream_transaction(
        &mut decoder,
        &mut task,
        vec![
            LogicalMessage::Begin,
            LogicalMessage::Insert { rel_id: 16384, new_tuple: tuple("4", "d") },
            LogicalMessage::Commit { end_lsn: 800 },
        ],
    );
    assert_eq!(out, vec![value(1, row("4", "d"), 800, 1, true)]);
    assert_eq!(task.replication_lsn, 800);
}

#[test]
fn fresh_ingest_of_one_table() {
    let tables = tables();
    let mut task = ReplicationTask::new(0);
    assert!(task.needs_snapshot());
    let position = snapshot_position(None, 1000);
    let copies = snapshot_copies(&tables);
    assert_eq!(copies.len(), 1);
    assert_eq!(copies[0].oid, 16384);
    assert_eq!(
        copies[0].query,
        "COPY \"public\".\"t\" TO STDOUT (FORMAT TEXT, DELIMITER '\t')"
    );
    let mut out = Vec::new();
    for copied in [fields("1", "a"), fields("2", "b")] {
        let (output, row) = snapshot_row(&tables[&copies[0].oid], &copied, &eval).unwrap();
        out.extend(task.snapshot_row(output, row, position.slot_lsn));
    }
    assert!(!needs_rewind(position));
    out.extend(task.snapshot_done(position.slot_lsn));
    assert_eq!(
        out,
        vec![value(1, row("1", "a"), 1000, 1, false), value(1, row("2", "b"), 1000, 1, true)]
    );
    assert_eq!(task.replication_lsn, 1000);
    assert!(!task.needs_snapshot());
    // the operator gives both rows at the LSN of the slot, and its frontier moves behind it
    let mut reader = PostgresSourceReader::new(0);
    let times: Vec<u64> = out
        .into_iter()
        .map(|message| match reader.handle_message(message) {
            Emission::Data { time, .. } => time,
            other => panic!("unexpected emission {:?}", other),
        })
        .collect();
    assert_eq!(times, vec![1000, 1000]);
    assert_eq!(
        reader,
        PostgresSourceReader { last_lsn: 1000, data_capability: 1001, upper_capability: 1001 }
    );
}

#[test]
fn empty_publication_gives_no_rows_and_one_close() {
    let tables: BTreeMap<u32, SourceTable<usize>> = BTreeMap::new();
    let mut task: ReplicationTask<Option<String>> = ReplicationTask::new(0);
    let position = snapshot_position(None, 1000);
    assert!(snapshot_copies(&tables).is_empty());
    assert!(!needs_rewind(position));
    assert_eq!(task.snapshot_done(position.slot_lsn), None);
    assert_eq!(task.replication_lsn, 1000);
    assert!(task.row_sender.buffered_message.is_none());
}

#[test]
fn insert_after_snapshot_goes_out_at_its_commit() {
    let mut task = ReplicationTask::new(1000);
    let mut decoder = ReplicationDecoder::new(1000);
    let out = stream_transaction(
        &mut decoder,
        &mut task,
        vec![
            LogicalMessage::Begin,
            LogicalMessage::Insert { rel_id: 16384, new_tuple: tuple("3", "c") },
            LogicalMessage::Commit { end_lsn: 1100 },
        ],
    );
    assert_eq!(out, vec![value(1, row("3", "c"), 1100, 1, true)]);
    assert_eq!(task.replication_lsn, 1100);
}

#[test]
fn update_goes_out_as_retraction_and_insertion() {
    let mut task = ReplicationTask::new(1100);
    let mut decoder = ReplicationDecoder::new(1100);
    let out = stream_transaction(
        &mut decoder,
        &mut task,
        vec![
            LogicalMessage::Begin,
            LogicalMessage::Update {
                rel_id: 16384,
                old_tuple: Some(tuple("2", "b")),
                new_tuple: tuple("2", "B"),
            },
            LogicalMessage::Commit { end_lsn: 1200 },
        ],
    );
    assert_eq!(
        out,
        vec![value(1, row("2", "b"), 1200, -1, false), value(1, row("2", "B"), 1200, 1, true)]
    );
}

#[test]
fn frontier_moves_the_cursor_to_just_before_it() {
    let mut task: ReplicationTask<Option<String>> = ReplicationTask::new(5);
    assert_eq!(task.stream_event(Event::Progress(9001)), None);
    assert_eq!(task.replication_lsn, 9000);
    assert_eq!(task.stream_event(Event::Progress(1)), None);
    assert_eq!(task.replication_lsn, 0);
}

#[test]
fn rewind_takes_back_what_was_committed_before_the_snapshot() {
    let tables = tables();
    let mut task = ReplicationTask::new(0);
    let position = snapshot_position(Some(300), 500);
    assert!(needs_rewind(position));
    let mut out = Vec::new();
    // the snapshot at 500 holds (1,'a') and (2,'B')
    for copied in [fields("1", "a"), fields("2", "B")] {
        let (output, row) = snapshot_row(&tables[&16384], &copied, &eval).unwrap();
        out.extend(task.snapshot_row(output, row, position.slot_lsn));
    }
    // behind the slot, at 400, (2,'b') became (2,'B'), at 500, (1,'a') came, and at 600,
    // (3,'c')
    let mut decoder = ReplicationDecoder::new(position.slot_lsn);
    let log = vec![
        LogicalMessage::Begin,
        LogicalMessage::Update {
            rel_id: 16384,
            old_tuple: Some(tuple("2", "b")),
            new_tuple: tuple("2", "B"),
        },
        LogicalMessage::Commit { end_lsn: 400 },
        LogicalMessage::Begin,
        LogicalMessage::Insert { rel_id: 16384, new_tuple: tuple("1", "a") },
        LogicalMessage::Commit { end_lsn: 500 },
        LogicalMessage::Begin,
        LogicalMessage::Insert { rel_id: 16384, new_tuple: tuple("3", "c") },
        LogicalMessage::Commit { end_lsn: 600 },
    ];
    let mut done = false;
    for message in &log {
        if let Step::Committed(events) = decoder.handle_data(&tables, message, &eval).unwrap() {
            for event in events {
                if !done {
                    let rewound = task.rewind_event(event, position);
                    out.extend(rewound.out);
                    done = rewound.done;
                }
            }
        }
    }
    assert!(done);
    out.extend(task.snapshot_done(position.slot_lsn));
    assert_eq!(
        out,
        vec![
            value(1, row("1", "a"), 300, 1, false),
            value(1, row("2", "B"), 300, 1, false),
            value(1, row("2", "b"), 300, 1, false),
            value(1, row("2", "B"), 300, -1, false),
            value(1, row("1", "a"), 300, -1, true),
        ]
    );
    assert_eq!(task.replication_lsn, 300);
}

#[test]
fn rewind_ends_with_the_first_frontier_behind_the_snapshot() {
    let mut task: ReplicationTask<Option<String>> = ReplicationTask::new(0);
    let position = SnapshotPosition { slot_lsn: 300, snapshot_lsn: 500 };
    assert_eq!(
        task.rewind_event(Event::Progress(401), position),
        Rewound { out: None, done: false }
    );
    assert_eq!(
        task.rewind_event(Event::Progress(500), position),
        Rewound { out: None, done: false }
    );
    assert_eq!(
        task.rewind_event(
            Event::Message { lsn: 500, output: 2, row: row("9", "z"), diff: 1 },
            position
        ),
        Rewound { out: None, done: false }
    );
    assert_eq!(
        task.row_sender.buffered_message,
        Some(RowMessage { output_index: 2, row: row("9", "z"), lsn: 300, diff: -1 })
    );
    assert_eq!(
        task.rewind_event(
            Event::Message { lsn: 501, output: 2, row: row("8", "y"), diff: -1 },
            position
        ),
        Rewound { out: None, done: false }
    );
    assert_eq!(
        task.rewind_event(Event::Progress(501), position),
        Rewound { out: Some(value(2, row("9", "z"), 300, -1, true)), done: true }
    );
    assert_eq!(task.replication_lsn, 0);
}

#[test]
fn snapshot_failure_after_a_row_is_irrecoverable() {
    let timeout = || ReplicationError::Indefinite("deadline has elapsed".to_string());
    assert_eq!(snapshot_failure(0, timeout()), timeout());
    assert_eq!(
        snapshot_failure(1, timeout()),
        ReplicationError::Irrecoverable("deadline has elapsed".to_string())
    );
    assert_eq!(
        snapshot_failure(250, timeout()),
        ReplicationError::Irrecoverable("deadline has elapsed".to_string())
    );
    let definite = || ReplicationError::Definite("invalid data".to_string());
    assert_eq!(snapshot_failure(0, definite()), definite());
    assert_eq!(snapshot_failure(3, definite()), definite());
    assert_eq!(
        snapshot_failure(0, ReplicationError::Irrecoverable("x".to_string())).error_class(),
        ErrorClass::Irrecoverable
    );
}

#[test]
fn failure_while_rewinding_is_definite_or_irrecoverable() {
    assert_eq!(
        rewind_failure(ReplicationError::Indefinite("connection closed".to_string())),
        ReplicationError::Irrecoverable("connection closed".to_string())
    );
    assert_eq!(
        rewind_failure(ReplicationError::Definite("truncated".to_string())),
        ReplicationError::Definite("truncated".to_string())
    );
    assert_eq!(
        rewind_failure(ReplicationError::Irrecoverable("x".to_string())),
        ReplicationError::Irrecoverable("x".to_string())
    );
}

#[test]
fn emitted_stream_adds_up_to_the_table() {
    // What goes out, added up by a consumer, is the table as a query would show it.
    let tables = tables();
    let mut task = ReplicationTask::new(0);
    let mut out = Vec::new();
    for copied in [fields("1", "a"), fields("2", "b")] {
        let (output, row) = snapshot_row(&tables[&16384], &copied, &eval).unwrap();
        out.extend(task.snapshot_row(output, row, 1000));
    }
    out.extend(task.snapshot_done(1000));
    let mut decoder = ReplicationDecoder::new(task.replication_lsn);
    let log = vec![
        LogicalMessage::Begin,
        LogicalMessage::Insert { rel_id: 16384, new_tuple: tuple("3", "c") },
        LogicalMessage::Commit { end_lsn: 1100 },
        LogicalMessage::Begin,
        LogicalMessage::Update {
            rel_id: 16384,
            old_tuple: Some(tuple("2", "b")),
            new_tuple: tuple("2", "B"),
        },
        LogicalMessage::Delete { rel_id: 16384, old_tuple: Some(tuple("1", "a")) },
        LogicalMessage::Insert { rel_id: 16384, new_tuple: tuple("3", "c") },
        LogicalMessage::Commit { end_lsn: 1200 },
    ];
    out.extend(stream_transaction(&mut decoder, &mut task, log));
    let mut contents: BTreeMap<(usize, Row), i64> = BTreeMap::new();
    for message in out {
        match message {
            InternalMessage::Value { output, value, diff, .. } => {
                *contents.entry((output, value)).or_insert(0) += diff;
            }
            other => panic!("unexpected message {:?}", other),
        }
    }
    contents.retain(|_, count| *count != 0);
    let mut expected = BTreeMap::new();
    expected.insert((1, row("2", "B")), 1);
    expected.insert((1, row("3", "c")), 2);
    assert_eq!(contents, expected);
}

#[test]
fn run_of_events_goes_out_once_and_in_order() {
    let mut task = ReplicationTask::new(700);
    let events = vec![
        Event::Message { lsn: 800, output: 1, row: row("2", "b"), diff: -1 },
        Event::Message { lsn: 800, output: 1, row: row("2", "B"), diff: 1 },
        Event::Progress(801),
        Event::Progress(901),
        Event::Message { lsn: 950, output: 1, row: row("3", "c"), diff: 1 },
        Event::Progress(951),
        // a second commit at the same LSN
        Event::Message { lsn: 950, output: 1, row: row("4", "d"), diff: 1 },
        Event::Progress(951),
    ];
    let out = task.stream_events(events);
    assert_eq!(
        out,
        vec![
            value(1, row("2", "b"), 800, -1, false),
            value(1, row("2", "B"), 800, 1, true),
            value(1, row("3", "c"), 950, 1, true),
            value(1, row("4", "d"), 950, 1, true),
        ]
    );
    assert_eq!(task.replication_lsn, 950);
    assert!(task.row_sender.buffered_message.is_none());
    let mut idle: ReplicationTask<Option<String>> = ReplicationTask::new(5);
    assert_eq!(idle.stream_events(vec![]), vec![]);
    assert_eq!(idle.replication_lsn, 5);
}
