//! The LSN up to which the downstream has made the data durable, shared
//! between the task that learns it and the stream that reports it upstream.

use crate::error::ReplicationError;
use std::sync::atomic::AtomicU64;
use std::sync::atomic::Ordering;
use std::sync::Arc;
use vstd::prelude::*;

verus! {

/// An offset committer for Postgres: it keeps the LSN that the replication
/// stream reports to the upstream in its status updates.
pub struct PgOffsetCommitter {
    /// The shared LSN.
    pub resume_lsn: Arc<AtomicU64>,
}

/// The LSN that is reported upstream for a resumption frontier: the largest
/// LSN that lies before the frontier, and 0 for the frontier 0. The
/// upstream resumes behind the LSN it is given, while the frontier counts
/// the LSNs from itself on as not yet durable.
pub open spec fn committed_lsn(frontier: u64) -> u64 {
    if frontier == 0 {
        0
    } else {
        (frontier - 1) as u64
    }
}

/// Computes the LSN that is reported upstream for a resumption frontier.
pub fn resume_lsn_of(frontier: u64) -> (lsn: u64)
    ensures
        lsn == committed_lsn(frontier),
{
    if frontier == 0 {
        0
    } else {
        frontier - 1
    }
}

/// The LSN that a resumption frontier gives to store: for a frontier that
/// holds an offset the LSN that is reported upstream for it, and nothing
/// for the empty frontier.
pub open spec fn lsn_to_store(frontier: Option<u64>) -> Option<u64> {
    match frontier {
        Some(offset) => Some(committed_lsn(offset)),
        None => None,
    }
}

/// Decides what a resumption frontier gives to store.
pub fn resume_lsn_to_store(frontier: Option<u64>) -> (lsn: Option<u64>)
    ensures
        lsn == lsn_to_store(frontier),
{
    match frontier {
        Some(offset) => Some(resume_lsn_of(offset)),
        None => None,
    }
}

impl PgOffsetCommitter {
    /// A committer that shares the given LSN.
    pub fn new(resume_lsn: Arc<AtomicU64>) -> (committer: Self)
        ensures
            committer.resume_lsn == resume_lsn,
    {
        PgOffsetCommitter { resume_lsn }
    }

    /// Takes note of a new resumption frontier: what
    /// [`resume_lsn_to_store`] gives for it is stored, and the empty
    /// frontier changes nothing. The store is shared with other tasks, so
    /// nothing is said here of what it holds afterwards.
    pub fn commit_offsets(&self, frontier: Option<u64>) -> (res: Result<(), ReplicationError>)
        ensures
            res is Ok,
    {
        match resume_lsn_to_store(frontier) {
            Some(lsn) => {
                self.resume_lsn.store(lsn, Ordering::SeqCst);
            },
            None => {},
        }
        Ok(())
    }

    /// The LSN that was stored last, by whichever task.
    pub fn load(&self) -> (lsn: u64) {
        self.resume_lsn.load(Ordering::SeqCst)
    }
}

} // verus!
