//! The status updates that tell the upstream how far the source has come,
//! so that it can let go of the log before that point.

use vstd::prelude::*;

verus! {

/// The epoch of Postgres, 2000-01-01T00:00:00Z, in microseconds after the
/// Unix epoch.
pub const PG_EPOCH_UNIX_MICROS: u128 = 946_684_800_000_000;

/// Why the clock gives no time for a status update.
#[derive(Clone, Copy, Debug, PartialEq, Eq, Structural)]
pub enum ClockFault {
    /// The system clock is set earlier than the year 2000.
    BeforeEpoch,
    /// The time is too far from the epoch to be told to the upstream.
    TooLate,
}

/// A standby status update.
#[derive(Clone, Copy, Debug, PartialEq, Eq, Structural)]
pub struct StandbyStatusUpdate {
    /// The last LSN written.
    pub write_lsn: u64,
    /// The last LSN flushed to disk.
    pub flush_lsn: u64,
    /// The last LSN applied.
    pub apply_lsn: u64,
    /// When the update is sent, in microseconds since the epoch of
    /// Postgres.
    pub ts: i64,
    /// 1 to ask for a reply, else 0.
    pub reply: u8,
}

/// The time of a status update sent at `unix_micros` microseconds after
/// the Unix epoch: the microseconds since the epoch of Postgres.
pub open spec fn pg_timestamp(unix_micros: u128) -> Result<i64, ClockFault> {
    if unix_micros < PG_EPOCH_UNIX_MICROS {
        Err(ClockFault::BeforeEpoch)
    } else if unix_micros - PG_EPOCH_UNIX_MICROS > i64::MAX {
        Err(ClockFault::TooLate)
    } else {
        Ok((unix_micros - PG_EPOCH_UNIX_MICROS) as i64)
    }
}

/// Computes the time of a status update.
pub fn standby_timestamp(unix_micros: u128) -> (res: Result<i64, ClockFault>)
    ensures
        res == pg_timestamp(unix_micros),
{
    if unix_micros < PG_EPOCH_UNIX_MICROS {
        return Err(ClockFault::BeforeEpoch);
    }
    let since: u128 = unix_micros - PG_EPOCH_UNIX_MICROS;
    if since > 0x7fff_ffff_ffff_ffff {
        Err(ClockFault::TooLate)
    } else {
        Ok(since as i64)
    }
}

/// The status update that reports `committed_lsn`, the LSN up to which the
/// downstream has made the data durable, as written, flushed and applied,
/// and asks for no reply.
pub fn standby_status_update(committed_lsn: u64, ts: i64) -> (update: StandbyStatusUpdate)
    ensures
        update == (StandbyStatusUpdate {
            write_lsn: committed_lsn,
            flush_lsn: committed_lsn,
            apply_lsn: committed_lsn,
            ts,
            reply: 0,
        }),
{
    StandbyStatusUpdate {
        write_lsn: committed_lsn,
        flush_lsn: committed_lsn,
        apply_lsn: committed_lsn,
        ts,
        reply: 0,
    }
}

} // verus!
