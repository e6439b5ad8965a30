use postgres_source::error::{
    err_definite, err_indefinite, err_irrecoverable, is_definite_slot_creation,
    is_definite_sqlstate, ErrorClass, ReplicationError,
};
use std::time::Duration;

fn connection_error() -> tokio_postgres::Error {
    match "port=not_a_number".parse::<tokio_postgres::Config>() {
        Ok(_) => panic!("the connection string should not parse"),
        Err(err) => err,
    }
}

fn elapsed() -> tokio::time::error::Elapsed {
    let runtime = tokio::runtime::Builder::new_current_thread().enable_time().build().unwrap();
    let timed_out = runtime.block_on(async {
        tokio::time::timeout(Duration::from_millis(1), std::future::pending::<()>()).await
    });
    timed_out.unwrap_err()
}

#[test]
fn invalid_catalog_and_schema_names_are_definite() {
    assert!(is_definite_sqlstate("3D000"));
    assert!(is_definite_sqlstate("3F000"));
}

#[test]
fn syntax_errors_and_access_violations_are_definite() {
    assert!(is_definite_sqlstate("42601"));
    assert!(is_definite_sqlstate("42P01"));
    assert!(is_definite_sqlstate("42501"));
    assert!(is_definite_sqlstate("42"));
}

#[test]
fn other_sqlstates_are_indefinite() {
    assert!(!is_definite_sqlstate("08006"));
    assert!(!is_definite_sqlstate("57P01"));
    assert!(!is_definite_sqlstate("3B000"));
    assert!(!is_definite_sqlstate("3E000"));
    assert!(!is_definite_sqlstate("40001"));
    assert!(!is_definite_sqlstate("43000"));
    assert!(!is_definite_sqlstate("D3000"));
    assert!(!is_definite_sqlstate("24000"));
    assert!(!is_definite_sqlstate("3d000"));
    assert!(!is_definite_sqlstate("XX000"));
}

#[test]
fn short_sqlstates_are_indefinite() {
    assert!(!is_definite_sqlstate(""));
    assert!(!is_definite_sqlstate("4"));
    assert!(!is_definite_sqlstate("3"));
    assert!(!is_definite_sqlstate("\u{e9}2"));
    assert!(!is_definite_sqlstate("4\u{e9}"));
}

#[test]
fn classes_and_messages_are_read_back() {
    let e = ReplicationError::Definite("d".to_string());
    assert_eq!(e.error_class(), ErrorClass::Definite);
    assert_eq!(e.message(), "d");
    let e = ReplicationError::Indefinite("i".to_string());
    assert_eq!(e.error_class(), ErrorClass::Indefinite);
    assert_eq!(e.message(), "i");
    let e = ReplicationError::Irrecoverable("r".to_string());
    assert_eq!(e.error_class(), ErrorClass::Irrecoverable);
    assert_eq!(e.message(), "r");
}

#[test]
fn classified_is_definite_or_indefinite() {
    assert_eq!(
        ReplicationError::classified(true, "gone".to_string()),
        ReplicationError::Definite("gone".to_string())
    );
    assert_eq!(
        ReplicationError::classified(false, "later".to_string()),
        ReplicationError::Indefinite("later".to_string())
    );
}

#[test]
fn escalation_keeps_definite_and_raises_the_rest() {
    assert_eq!(
        ReplicationError::Definite("a".to_string()).escalated(),
        ReplicationError::Definite("a".to_string())
    );
    assert_eq!(
        ReplicationError::Indefinite("b".to_string()).escalated(),
        ReplicationError::Irrecoverable("b".to_string())
    );
    assert_eq!(
        ReplicationError::Irrecoverable("c".to_string()).escalated(),
        ReplicationError::Irrecoverable("c".to_string())
    );
}

#[test]
fn results_are_tagged_with_their_class() {
    assert_eq!(err_definite(Ok::<u8, String>(1)), Ok(1));
    assert_eq!(err_indefinite(Ok::<u8, String>(2)), Ok(2));
    assert_eq!(err_irrecoverable(Ok::<u8, String>(3)), Ok(3));
    assert_eq!(
        err_definite(Err::<u8, String>("x".to_string())),
        Err(ReplicationError::Definite("x".to_string()))
    );
    assert_eq!(
        err_indefinite(Err::<u8, String>("y".to_string())),
        Err(ReplicationError::Indefinite("y".to_string()))
    );
    assert_eq!(
        err_irrecoverable(Err::<u8, String>("z".to_string())),
        Err(ReplicationError::Irrecoverable("z".to_string()))
    );
}

#[test]
fn connection_error_without_database_cause_is_indefinite() {
    let err = connection_error();
    let expected = err.to_string();
    assert_eq!(ReplicationError::from_postgres(&err), ReplicationError::Indefinite(expected));
}

#[test]
fn io_error_without_database_cause_is_indefinite() {
    let plain = std::io::Error::new(std::io::ErrorKind::ConnectionReset, "reset by peer");
    assert_eq!(
        ReplicationError::from_io(&plain),
        ReplicationError::Indefinite("reset by peer".to_string())
    );
    let wrapped = std::io::Error::new(std::io::ErrorKind::Other, connection_error());
    assert_eq!(
        ReplicationError::from_io(&wrapped),
        ReplicationError::Indefinite("invalid connection string".to_string())
    );
    let bare = std::io::Error::from(std::io::ErrorKind::UnexpectedEof);
    assert_eq!(
        ReplicationError::from_io(&bare).error_class(),
        ErrorClass::Indefinite
    );
}

#[test]
fn timeout_is_indefinite() {
    let err = elapsed();
    assert_eq!(
        ReplicationError::from_elapsed(&err),
        ReplicationError::Indefinite("deadline has elapsed".to_string())
    );
}

#[test]
fn slot_that_exists_already_is_indefinite() {
    assert!(!is_definite_slot_creation("42710"));
    assert!(is_definite_sqlstate("42710"));
}

#[test]
fn other_failures_to_create_a_slot_keep_their_class() {
    assert!(is_definite_slot_creation("42601"));
    assert!(is_definite_slot_creation("42501"));
    assert!(is_definite_slot_creation("3D000"));
    assert!(is_definite_slot_creation("427100"));
    assert!(is_definite_slot_creation("4271"));
    assert!(!is_definite_slot_creation("53400"));
    assert!(!is_definite_slot_creation("08006"));
    assert!(!is_definite_slot_creation(""));
}

#[test]
fn failure_to_create_a_slot_without_database_cause_is_indefinite() {
    let err = connection_error();
    let expected = err.to_string();
    assert_eq!(ReplicationError::from_slot_creation(&err), ReplicationError::Indefinite(expected));
}
