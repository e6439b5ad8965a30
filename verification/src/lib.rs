//! Ingestion of a PostgreSQL publication through logical replication.
//!
//! The crate holds the decisions of a replication source: how a slot and a
//! snapshot are lined up, how replication messages become transactional
//! batches of retractable rows, how the last row of every LSN is marked, and
//! how errors are classified. Connections, timers and channels belong to the
//! caller, which performs what these functions decide.

pub mod accumulate;
pub mod cast;
pub mod committer;
pub mod decoder;
pub mod delivery;
pub mod error;
pub mod feedback;
pub mod lsn;
pub mod message;
pub mod ordered;
pub mod output;
pub mod pipeline;
pub mod query;
pub mod reader;
pub mod replay;
pub mod rewind;
pub mod schema;
pub mod sender;
pub mod slot;
pub mod snapshot;
pub mod stream;
pub mod supervisor;
pub mod task;
pub mod text;
pub mod transaction;
pub mod tuple;
