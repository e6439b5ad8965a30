use postgres_source::committer::{resume_lsn_of, resume_lsn_to_store, PgOffsetCommitter};
use postgres_source::error::ReplicationError;
use postgres_source::feedback::{
    standby_status_update, standby_timestamp, ClockFault, StandbyStatusUpdate,
    PG_EPOCH_UNIX_MICROS,
};
use postgres_source::output::{
    HealthStatus, HealthStatusUpdate, InternalMessage, SourceErrorDetails, SourceReaderError,
    CHANNEL_CAPACITY,
};
use postgres_source::reader::{Emission, PostgresSourceReader, SourceMessage};
use postgres_source::supervisor::{supervise, Supervision, RETRY_DELAY_SECS};
use std::sync::atomic::{AtomicU64, Ordering};
use std::sync::Arc;

fn value(output: usize, row: &str, lsn: u64, diff: i64, end: bool) -> InternalMessage<String> {
    InternalMessage::Value { output, value: row.to_string(), lsn, diff, end }
}

fn stalled(error: &str, should_halt: bool) -> InternalMessage<String> {
    InternalMessage::Status(HealthStatusUpdate {
        update: HealthStatus::StalledWithError { error: error.to_string(), hint: None },
        should_halt,
    })
}

#[test]
fn reader_starts_at_the_resume_offset() {
    assert_eq!(
        PostgresSourceReader::new(42),
        PostgresSourceReader { last_lsn: 42, data_capability: 42, upper_capability: 42 }
    );
}

#[test]
fn row_moves_the_upper_but_not_the_data_capability() {
    let mut reader = PostgresSourceReader::new(0);
    let emission = reader.handle_message(value(1, "a", 1000, 1, false));
    assert_eq!(
        emission,
        Emission::Data {
            time: 1000,
            message: SourceMessage { output: 1, upstream_time_millis: None, value: "a".to_string() },
            diff: 1,
        }
    );
    assert_eq!(
        reader,
        PostgresSourceReader { last_lsn: 1000, data_capability: 0, upper_capability: 1001 }
    );
}

#[test]
fn last_row_of_an_lsn_moves_both_capabilities() {
    let mut reader = PostgresSourceReader::new(0);
    reader.handle_message(value(1, "a", 1000, 1, false));
    let emission = reader.handle_message(value(2, "b", 1000, -1, true));
    assert_eq!(
        emission,
        Emission::Data {
            time: 1000,
            message: SourceMessage { output: 2, upstream_time_millis: None, value: "b".to_string() },
            diff: -1,
        }
    );
    assert_eq!(
        reader,
        PostgresSourceReader { last_lsn: 1000, data_capability: 1001, upper_capability: 1001 }
    );
}

#[test]
fn status_moves_nothing() {
    let mut reader = PostgresSourceReader::new(7);
    let update = HealthStatusUpdate {
        update: HealthStatus::StalledWithError { error: "e".to_string(), hint: None },
        should_halt: false,
    };
    let emission: Emission<String> = reader.handle_message(InternalMessage::Status(update.clone()));
    assert_eq!(emission, Emission::Health(update));
    assert_eq!(reader, PostgresSourceReader::new(7));
}

#[test]
fn error_is_given_behind_the_last_row() {
    let mut reader = PostgresSourceReader::new(0);
    reader.handle_message(value(1, "a", 1000, 1, true));
    let error = SourceReaderError { inner: SourceErrorDetails::Initialization("gone".to_string()) };
    let emission: Emission<String> = reader.handle_message(InternalMessage::Error(error.clone()));
    assert_eq!(emission, Emission::Failure { time: 1001, error });
    assert_eq!(
        reader,
        PostgresSourceReader { last_lsn: 1000, data_capability: 1002, upper_capability: 1002 }
    );
}

#[test]
fn run_without_error_is_run_again() {
    assert_eq!(supervise::<String>(Ok(())), Supervision::Retry(None));
    assert_eq!(RETRY_DELAY_SECS, 3);
}

#[test]
fn indefinite_error_stalls_and_retries() {
    assert_eq!(
        supervise(Err(ReplicationError::Indefinite("connection reset".to_string()))),
        Supervision::Retry(Some(stalled("connection reset", false)))
    );
}

#[test]
fn irrecoverable_error_halts() {
    assert_eq!(
        supervise(Err(ReplicationError::Irrecoverable("partial snapshot".to_string()))),
        Supervision::Halt(stalled("partial snapshot", true))
    );
}

#[test]
fn definite_error_goes_to_the_output() {
    assert_eq!(
        supervise::<String>(Err(ReplicationError::Definite(
            "source table(s) name: t id: 16384 got truncated".to_string()
        ))),
        Supervision::Stop(InternalMessage::Error(SourceReaderError {
            inner: SourceErrorDetails::Initialization(
                "source table(s) name: t id: 16384 got truncated".to_string()
            ),
        }))
    );
}

#[test]
fn resume_lsn_is_one_before_the_frontier() {
    assert_eq!(resume_lsn_of(0), 0);
    assert_eq!(resume_lsn_of(1), 0);
    assert_eq!(resume_lsn_of(2), 1);
    assert_eq!(resume_lsn_of(1001), 1000);
    assert_eq!(resume_lsn_of(u64::MAX), u64::MAX - 1);
}

#[test]
fn commit_offsets_stores_the_resume_lsn() {
    let shared = Arc::new(AtomicU64::new(17));
    let committer = PgOffsetCommitter::new(Arc::clone(&shared));
    assert_eq!(committer.load(), 17);
    assert_eq!(committer.commit_offsets(Some(1001)), Ok(()));
    assert_eq!(shared.load(Ordering::SeqCst), 1000);
    assert_eq!(committer.load(), 1000);
    assert_eq!(committer.commit_offsets(None), Ok(()));
    assert_eq!(shared.load(Ordering::SeqCst), 1000);
    assert_eq!(committer.commit_offsets(Some(0)), Ok(()));
    assert_eq!(shared.load(Ordering::SeqCst), 0);
    shared.store(5, Ordering::SeqCst);
    assert_eq!(committer.load(), 5);
}

#[test]
fn standby_timestamp_counts_from_the_year_2000() {
    assert_eq!(PG_EPOCH_UNIX_MICROS, 946_684_800_000_000);
    assert_eq!(standby_timestamp(946_684_800_000_000), Ok(0));
    assert_eq!(standby_timestamp(946_684_800_000_001), Ok(1));
    // 2023-01-01T00:00:00Z
    assert_eq!(standby_timestamp(1_672_531_200_000_000), Ok(725_846_400_000_000));
}

#[test]
fn standby_timestamp_needs_a_clock_in_range() {
    assert_eq!(standby_timestamp(0), Err(ClockFault::BeforeEpoch));
    assert_eq!(standby_timestamp(946_684_799_999_999), Err(ClockFault::BeforeEpoch));
    let last = 946_684_800_000_000u128 + i64::MAX as u128;
    assert_eq!(standby_timestamp(last), Ok(i64::MAX));
    assert_eq!(standby_timestamp(last + 1), Err(ClockFault::TooLate));
    assert_eq!(standby_timestamp(u128::MAX), Err(ClockFault::TooLate));
}

#[test]
fn status_update_reports_the_committed_lsn_three_times() {
    assert_eq!(
        standby_status_update(1000, 725_846_400_000_000),
        StandbyStatusUpdate {
            write_lsn: 1000,
            flush_lsn: 1000,
            apply_lsn: 1000,
            ts: 725_846_400_000_000,
            reply: 0,
        }
    );
}

#[test]
fn channel_holds_fifty_thousand_messages() {
    assert_eq!(CHANNEL_CAPACITY, 50_000);
}

#[test]
fn empty_frontier_gives_nothing_to_store() {
    assert_eq!(resume_lsn_to_store(None), None);
    assert_eq!(resume_lsn_to_store(Some(0)), Some(0));
    assert_eq!(resume_lsn_to_store(Some(1)), Some(0));
    assert_eq!(resume_lsn_to_store(Some(1001)), Some(1000));
}
