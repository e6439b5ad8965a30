//! The three classes of replication errors, and how upstream errors fall
//! into them.

use std::error::Error;
use tokio_postgres::error::DbError;
use vstd::prelude::*;
use vstd::string::*;

verus! {

/// What the supervisor does about an error.
#[derive(Clone, Copy, Debug, PartialEq, Eq, Structural)]
pub enum ErrorClass {
    /// The stream is permanently inconsistent: the error becomes part of the output.
    Definite,
    /// The cause may pass: the source stalls and retries.
    Indefinite,
    /// Rows were handed out that cannot be taken back: the host must restart.
    Irrecoverable,
}

/// An error of the replication loop, with the text shown to the user.
#[derive(Clone, Debug, PartialEq, Eq)]
pub enum ReplicationError {
    /// This source is permanently wedged.
    Definite(String),
    /// This error may resolve itself, and is retried instead of being added to the output.
    Indefinite(String),
    /// When this error happens the process must halt.
    Irrecoverable(String),
}

impl ReplicationError {
    /// The class of the error.
    pub open spec fn class(self) -> ErrorClass {
        match self {
            ReplicationError::Definite(_) => ErrorClass::Definite,
            ReplicationError::Indefinite(_) => ErrorClass::Indefinite,
            ReplicationError::Irrecoverable(_) => ErrorClass::Irrecoverable,
        }
    }

    /// The text of the error.
    pub open spec fn text(self) -> Seq<char> {
        match self {
            ReplicationError::Definite(m) => m@,
            ReplicationError::Indefinite(m) => m@,
            ReplicationError::Irrecoverable(m) => m@,
        }
    }

    /// The class of the error.
    pub fn error_class(&self) -> (class: ErrorClass)
        ensures
            class == self.class(),
    {
        match self {
            ReplicationError::Definite(_) => ErrorClass::Definite,
            ReplicationError::Indefinite(_) => ErrorClass::Indefinite,
            ReplicationError::Irrecoverable(_) => ErrorClass::Irrecoverable,
        }
    }

    /// The text of the error.
    pub fn message(&self) -> (message: &String)
        ensures
            message@ == self.text(),
    {
        match self {
            ReplicationError::Definite(m) => m,
            ReplicationError::Indefinite(m) => m,
            ReplicationError::Irrecoverable(m) => m,
        }
    }

    /// An error of unknown standing: definite where its cause has been found
    /// to be, indefinite otherwise.
    pub fn classified(definite: bool, message: String) -> (err: ReplicationError)
        ensures
            err.text() == message@,
            err.class() == if definite {
                ErrorClass::Definite
            } else {
                ErrorClass::Indefinite
            },
    {
        if definite {
            ReplicationError::Definite(message)
        } else {
            ReplicationError::Indefinite(message)
        }
    }

    /// The error as it counts once rows have gone out that no marker has
    /// sealed: a definite error stays definite, every other one can no
    /// longer be retried and becomes irrecoverable.
    pub fn escalated(self) -> (err: ReplicationError)
        ensures
            err.text() == self.text(),
            err.class() == if self.class() == ErrorClass::Definite {
                ErrorClass::Definite
            } else {
                ErrorClass::Irrecoverable
            },
    {
        match self {
            ReplicationError::Definite(m) => ReplicationError::Definite(m),
            ReplicationError::Indefinite(m) => ReplicationError::Irrecoverable(m),
            ReplicationError::Irrecoverable(m) => ReplicationError::Irrecoverable(m),
        }
    }

    /// Classifies an error of the upstream connection: it is definite where
    /// a database error caused it whose SQLSTATE marks a definite error, and
    /// indefinite otherwise, as every error of the transport is. The text
    /// is that of the error.
    pub fn from_postgres(err: &tokio_postgres::Error) -> (res: ReplicationError)
        ensures
            res.class() == if cause_definite(cause_sqlstate(*err)) {
                ErrorClass::Definite
            } else {
                ErrorClass::Indefinite
            },
            res.text() == postgres_display(*err),
    {
        let definite = postgres_error_is_definite(err);
        ReplicationError::classified(definite, postgres_error_text(err))
    }

    /// Classifies the failure to create the replication slot. Whether the
    /// slot exists is asked before it is created, and another session may
    /// create it in between: a slot that exists already is no fault of the
    /// source but a reason to try again, and the error is indefinite. Any
    /// other error is classified as errors of the connection are. The text
    /// is that of the error.
    pub fn from_slot_creation(err: &tokio_postgres::Error) -> (res: ReplicationError)
        ensures
            res.class() == if slot_creation_definite(cause_sqlstate(*err)) {
                ErrorClass::Definite
            } else {
                ErrorClass::Indefinite
            },
            res.text() == postgres_display(*err),
    {
        let definite = match database_cause(err) {
            Some(db_err) => is_definite_slot_creation(sqlstate_of(db_err)),
            None => false,
        };
        ReplicationError::classified(definite, postgres_error_text(err))
    }

    /// Classifies an I/O error: it is definite where its source is an error
    /// of the connection that is definite, or a database error whose
    /// SQLSTATE marks a definite error, and indefinite otherwise.
    pub fn from_io(err: &std::io::Error) -> (res: ReplicationError)
        ensures
            res.class() == if io_definite(*err) {
                ErrorClass::Definite
            } else {
                ErrorClass::Indefinite
            },
    {
        let definite = io_error_is_definite(err);
        ReplicationError::classified(definite, io_error_text(err))
    }

    /// A read that ran out of time may succeed when tried again: the error
    /// is indefinite, with the text that the timeout gives.
    pub fn from_elapsed(err: &tokio::time::error::Elapsed) -> (res: ReplicationError)
        ensures
            res.class() == ErrorClass::Indefinite,
            res.text() == elapsed_message(),
    {
        ReplicationError::Indefinite(elapsed_text(err))
    }
}

/// Whether a step failed with an error of the given class and text.
pub open spec fn fails_with<T>(
    res: Result<T, ReplicationError>,
    class: ErrorClass,
    text: Seq<char>,
) -> bool {
    match res {
        Ok(_) => false,
        Err(e) => e.class() == class && e.text() == text,
    }
}

/// Tags the failure of a step as definite.
pub fn err_definite<T>(res: Result<T, String>) -> (out: Result<T, ReplicationError>)
    ensures
        match res {
            Ok(val) => out == Ok::<T, ReplicationError>(val),
            Err(m) => out == Err::<T, ReplicationError>(ReplicationError::Definite(m)),
        },
{
    match res {
        Ok(val) => Ok(val),
        Err(err) => Err(ReplicationError::Definite(err)),
    }
}

/// Tags the failure of a step as indefinite.
pub fn err_indefinite<T>(res: Result<T, String>) -> (out: Result<T, ReplicationError>)
    ensures
        match res {
            Ok(val) => out == Ok::<T, ReplicationError>(val),
            Err(m) => out == Err::<T, ReplicationError>(ReplicationError::Indefinite(m)),
        },
{
    match res {
        Ok(val) => Ok(val),
        Err(err) => Err(ReplicationError::Indefinite(err)),
    }
}

/// Tags the failure of a step as irrecoverable.
pub fn err_irrecoverable<T>(res: Result<T, String>) -> (out: Result<T, ReplicationError>)
    ensures
        match res {
            Ok(val) => out == Ok::<T, ReplicationError>(val),
            Err(m) => out == Err::<T, ReplicationError>(ReplicationError::Irrecoverable(m)),
        },
{
    match res {
        Ok(val) => Ok(val),
        Err(err) => Err(ReplicationError::Irrecoverable(err)),
    }
}

/// Whether a SQLSTATE code marks an error that no retry will cure: class
/// `3D` (invalid catalog name), `3F` (invalid schema name) or `42` (syntax
/// error or access rule violation). The class is the first two characters.
pub open spec fn sqlstate_definite(code: Seq<char>) -> bool {
    &&& code.len() >= 2
    &&& {
        ||| code[0] == '3' && code[1] == 'D'
        ||| code[0] == '3' && code[1] == 'F'
        ||| code[0] == '4' && code[1] == '2'
    }
}

/// Decides from a SQLSTATE code whether the error is definite.
pub fn is_definite_sqlstate(code: &str) -> (definite: bool)
    ensures
        definite == sqlstate_definite(code@),
{
    if code.unicode_len() < 2 {
        return false;
    }
    let class: char = code.get_char(0);
    let sub: char = code.get_char(1);
    (class == '3' && (sub == 'D' || sub == 'F')) || (class == '4' && sub == '2')
}

/// Whether a SQLSTATE code says that an object exists already: the code
/// `42710`.
pub open spec fn sqlstate_duplicate_object(code: Seq<char>) -> bool {
    code == "42710"@
}

/// Decides from the SQLSTATE code of the failure to create a slot whether
/// the error is definite: it is where the code marks a definite error other
/// than that the slot exists already.
pub fn is_definite_slot_creation(code: &str) -> (definite: bool)
    ensures
        definite == (sqlstate_definite(code@) && !sqlstate_duplicate_object(code@)),
{
    let duplicate = code.to_owned() == "42710".to_owned();
    is_definite_sqlstate(code) && !duplicate
}

/// An error that the database reported, of `tokio_postgres`. Nothing is
/// known of what it holds.
#[verifier::external_type_specification]
#[verifier::external_body]
pub struct ExDbError(DbError);

/// An error of the connection to the upstream, of `tokio_postgres`.
/// Nothing is known of what it holds.
#[verifier::external_type_specification]
#[verifier::external_body]
pub struct ExPostgresError(tokio_postgres::Error);

/// An I/O error of std. Nothing is known of what it holds.
#[verifier::external_type_specification]
#[verifier::external_body]
pub struct ExIoError(std::io::Error);

/// The error of a timeout that has run out, of `tokio`. Nothing is known
/// of what it holds.
#[verifier::external_type_specification]
#[verifier::external_body]
pub struct ExElapsed(tokio::time::error::Elapsed);

/// The SQLSTATE code that a database error holds.
pub uninterp spec fn db_error_sqlstate(err: DbError) -> Seq<char>;

/// The SQLSTATE code of the database error that caused an error of the
/// connection; `None` where no database error caused it.
pub uninterp spec fn cause_sqlstate(err: tokio_postgres::Error) -> Option<Seq<char>>;

/// The text of an error of the connection.
pub uninterp spec fn postgres_display(err: tokio_postgres::Error) -> Seq<char>;

/// What stands behind an I/O error as an error of the connection: the
/// SQLSTATE code of that error's cause, if it has one; `None` where the
/// source of the I/O error is no error of the connection.
pub uninterp spec fn io_connection_sqlstate(err: std::io::Error) -> Option<Option<Seq<char>>>;

/// The SQLSTATE code of the database error that is the source of an I/O
/// error; `None` where its source is no database error.
pub uninterp spec fn io_database_sqlstate(err: std::io::Error) -> Option<Seq<char>>;

/// Whether the cause of an error makes it definite: a database error whose
/// SQLSTATE marks a definite error. Without a database error as its cause
/// nothing is known of what happened, and the error is not definite.
pub open spec fn cause_definite(code: Option<Seq<char>>) -> bool {
    match code {
        Some(c) => sqlstate_definite(c),
        None => false,
    }
}

/// Whether the cause of a failure to create a slot makes it definite: a
/// database error whose SQLSTATE marks a definite error other than that
/// the slot exists already.
pub open spec fn slot_creation_definite(code: Option<Seq<char>>) -> bool {
    match code {
        Some(c) => sqlstate_definite(c) && !sqlstate_duplicate_object(c),
        None => false,
    }
}

/// Whether an I/O error is definite: its source is an error of the
/// connection that is definite, or, where it is none, a database error
/// whose SQLSTATE marks a definite error.
pub open spec fn io_definite(err: std::io::Error) -> bool {
    match io_connection_sqlstate(err) {
        Some(code) => cause_definite(code),
        None => cause_definite(io_database_sqlstate(err)),
    }
}

/// The SQLSTATE code of a database error, read with `DbError::code` and
/// `SqlState::code`, which hand out what the error holds. The contract only
/// names the code.
#[verifier::external_body]
fn sqlstate_of(err: &DbError) -> (code: &str)
    ensures
        code@ == db_error_sqlstate(*err),
{
    err.code().code()
}

/// The database error that caused an error of the connection, found with
/// `tokio_postgres::Error::as_db_error`: the source of the error where that
/// is a database error. The contract only names the code of the cause.
#[verifier::external_body]
fn database_cause(err: &tokio_postgres::Error) -> (cause: Option<&DbError>)
    ensures
        match cause {
            Some(db_err) => cause_sqlstate(*err) == Some(db_error_sqlstate(*db_err)),
            None => cause_sqlstate(*err) is None,
        },
{
    err.as_db_error()
}

/// The source of an I/O error, as `std::io::Error::source` gives it, where
/// `downcast_ref` finds it to be an error of the connection. The contract
/// only names what stands behind the I/O error.
#[verifier::external_body]
fn io_connection_cause(err: &std::io::Error) -> (cause: Option<&tokio_postgres::Error>)
    ensures
        match cause {
            Some(pg_err) => io_connection_sqlstate(*err) == Some(cause_sqlstate(*pg_err)),
            None => io_connection_sqlstate(*err) is None,
        },
{
    match err.source() {
        Some(source) => source.downcast_ref::<tokio_postgres::Error>(),
        None => None,
    }
}

/// The source of an I/O error, as `std::io::Error::source` gives it, where
/// `downcast_ref` finds it to be a database error. The contract only names
/// the code of that error.
#[verifier::external_body]
fn io_database_cause(err: &std::io::Error) -> (cause: Option<&DbError>)
    ensures
        match cause {
            Some(db_err) => io_database_sqlstate(*err) == Some(db_error_sqlstate(*db_err)),
            None => io_database_sqlstate(*err) is None,
        },
{
    match err.source() {
        Some(source) => source.downcast_ref::<DbError>(),
        None => None,
    }
}

/// The text of an error of the connection, from its `Display`, which
/// writes what kind of error it is. The contract only names the text.
#[verifier::external_body]
fn postgres_error_text(err: &tokio_postgres::Error) -> (text: String)
    ensures
        text@ == postgres_display(*err),
{
    err.to_string()
}

/// The text of an I/O error, from its `Display`. For an error of the
/// operating system the words are the machine's, so the text has no name
/// and nothing is claimed of it.
#[verifier::external_body]
fn io_error_text(err: &std::io::Error) -> (text: String) {
    err.to_string()
}

/// The text of a timeout that has run out.
pub open spec fn elapsed_message() -> Seq<char> {
    "deadline has elapsed"@
}

/// The text of tokio's timeout error, from its `Display`, which writes the
/// same words for every such error.
#[verifier::external_body]
fn elapsed_text(err: &tokio::time::error::Elapsed) -> (text: String)
    ensures
        text@ == elapsed_message(),
{
    err.to_string()
}

/// Whether a database error is definite: decided by its SQLSTATE alone.
fn db_error_is_definite(err: &DbError) -> (definite: bool)
    ensures
        definite == sqlstate_definite(db_error_sqlstate(*err)),
{
    is_definite_sqlstate(sqlstate_of(err))
}

/// Whether an error of the connection is definite. Without a database error
/// as its cause nothing is known of what happened, and the error counts as
/// indefinite.
fn postgres_error_is_definite(err: &tokio_postgres::Error) -> (definite: bool)
    ensures
        definite == cause_definite(cause_sqlstate(*err)),
{
    match database_cause(err) {
        Some(db_err) => db_error_is_definite(db_err),
        None => false,
    }
}

/// Whether an I/O error is definite: it is where an error of the connection
/// or a database error behind it is.
fn io_error_is_definite(err: &std::io::Error) -> (definite: bool)
    ensures
        definite == io_definite(*err),
{
    match io_connection_cause(err) {
        Some(pg_err) => postgres_error_is_definite(pg_err),
        None => match io_database_cause(err) {
            Some(db_err) => db_error_is_definite(db_err),
            None => false,
        },
    }
}

} // verus!
