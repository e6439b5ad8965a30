//! Lining up a replication slot with a snapshot.
//!
//! A slot must be created by the first statement of the snapshot
//! transaction, so whether the slot exists is asked before the transaction
//! begins. Where it exists it cannot give the snapshot: a temporary slot
//! does, most likely at a later LSN, and the difference is rewound
//! afterwards.

use crate::error::ReplicationError;
use crate::query::{create_slot_query, create_slot_query_text};
use uuid::Uuid;
use vstd::prelude::*;
use vstd::string::*;

verus! {

/// How the snapshot transaction gets its slot.
#[derive(Debug, PartialEq, Eq)]
pub struct SlotPlan {
    /// How far the source's slot has been confirmed, where the slot exists.
    pub existing_lsn: Option<u64>,
    /// The name of the temporary slot that is to give the snapshot, where
    /// the source's slot exists.
    pub temp_slot: Option<String>,
    /// The statement that creates the slot that gives the snapshot.
    pub create_query: String,
}

/// Where the snapshot stands relative to the slot.
#[derive(Clone, Copy, Debug, PartialEq, Eq, Structural)]
pub struct SnapshotPosition {
    /// The LSN from which the slot streams, and at which the rows of the
    /// snapshot are handed on.
    pub slot_lsn: u64,
    /// The LSN whose state the snapshot shows.
    pub snapshot_lsn: u64,
}

/// The text without its hyphens.
pub open spec fn without_hyphens(text: Seq<char>) -> Seq<char>
    decreases text.len(),
{
    if text.len() == 0 {
        Seq::empty()
    } else if text.last() == '-' {
        without_hyphens(text.drop_last())
    } else {
        without_hyphens(text.drop_last()).push(text.last())
    }
}

/// The text of a fresh random UUID, made with `Uuid::new_v4` and written
/// with its `Display`. Nothing is claimed of the text: every call gives
/// another.
#[verifier::external_body]
fn random_uuid_text() -> (text: String) {
    Uuid::new_v4().to_string()
}

/// Appends a character with `String::push`.
#[verifier::external_body]
fn push_char(text: &mut String, c: char)
    ensures
        final(text)@ == old(text)@.push(c),
{
    text.push(c)
}

/// Takes the hyphens out of a text.
pub fn strip_hyphens(text: &str) -> (stripped: String)
    ensures
        stripped@ == without_hyphens(text@),
{
    let mut stripped = String::new();
    let len = text.unicode_len();
    let mut i: usize = 0;
    assert(text@.take(0) =~= Seq::empty());
    while i < len
        invariant
            i <= len == text@.len(),
            stripped@ == without_hyphens(text@.take(i as int)),
        decreases len - i,
    {
        proof {
            let head = text@.take(i + 1);
            assert(head.last() == text@[i as int]);
            assert(head.drop_last() =~= text@.take(i as int));
        }
        let c = text.get_char(i);
        if c != '-' {
            push_char(&mut stripped, c);
        }
        i = i + 1;
    }
    proof {
        assert(text@.take(i as int) =~= text@);
    }
    stripped
}

/// What the plan is, given how far the slot has been confirmed if it
/// exists, and the name that a temporary slot would get.
pub open spec fn planned(
    slot: Seq<char>,
    existing_lsn: Option<u64>,
    temp_name: Seq<char>,
    plan: SlotPlan,
) -> bool {
    &&& plan.existing_lsn == existing_lsn
    &&& match existing_lsn {
        Some(_) => {
            &&& plan.temp_slot matches Some(name)
            &&& name@ == temp_name
            &&& plan.create_query@ == create_slot_query_text(temp_name, true)
        },
        None => {
            &&& plan.temp_slot is None
            &&& plan.create_query@ == create_slot_query_text(slot, false)
        },
    }
}

/// Plans the slot of the snapshot with a given name for the temporary slot.
pub fn plan_slot_named(slot: &str, existing_lsn: Option<u64>, temp_name: String) -> (plan:
    SlotPlan)
    ensures
        planned(slot@, existing_lsn, temp_name@, plan),
{
    match existing_lsn {
        Some(_) => {
            let create_query = create_slot_query(temp_name.as_str(), true);
            SlotPlan { existing_lsn, temp_slot: Some(temp_name), create_query }
        },
        None => SlotPlan {
            existing_lsn,
            temp_slot: None,
            create_query: create_slot_query(slot, false),
        },
    }
}

/// Plans the slot of the snapshot from the answer to the question how far
/// the source's slot has been confirmed. Where the answer gave an LSN the
/// slot exists, and a temporary slot with a fresh random name, free of
/// hyphens, gives the snapshot. Any other answer means that the slot is to
/// be created; if it exists after all, creating it fails and the whole is
/// tried again.
pub fn plan_slot(slot: &str, confirmed_flush_lsn: &Result<u64, ReplicationError>) -> (plan: SlotPlan)
    ensures
        match confirmed_flush_lsn {
            Ok(lsn) => exists|uuid: Seq<char>| #[trigger]
                planned(slot@, Some(*lsn), without_hyphens(uuid), plan),
            Err(_) => planned(slot@, None, Seq::empty(), plan),
        },
{
    match confirmed_flush_lsn {
        Ok(lsn) => {
            let uuid = random_uuid_text();
            let temp_name = strip_hyphens(uuid.as_str());
            let plan = plan_slot_named(slot, Some(*lsn), temp_name);
            proof {
                assert(planned(slot@, Some(*lsn), without_hyphens(uuid@), plan));
            }
            plan
        },
        Err(_) => plan_slot_named(slot, None, String::new()),
    }
}

/// Where the snapshot stands, given the consistent point of the slot that
/// was created. A slot that existed stays where it was confirmed and the
/// snapshot is at the consistent point of the temporary slot; a new slot
/// and its snapshot are both at its consistent point.
pub fn snapshot_position(existing_lsn: Option<u64>, consistent_point: u64) -> (position:
    SnapshotPosition)
    ensures
        position.snapshot_lsn == consistent_point,
        position.slot_lsn == match existing_lsn {
            Some(lsn) => lsn,
            None => consistent_point,
        },
{
    match existing_lsn {
        Some(slot_lsn) => SnapshotPosition { slot_lsn, snapshot_lsn: consistent_point },
        None => SnapshotPosition { slot_lsn: consistent_point, snapshot_lsn: consistent_point },
    }
}

/// Whether the snapshot is ahead of the slot, so that what was committed
/// between the two must be taken back. A snapshot at the slot's own LSN
/// needs no rewinding.
pub fn needs_rewind(position: SnapshotPosition) -> (rewind: bool)
    requires
        position.slot_lsn <= position.snapshot_lsn,
    ensures
        rewind == (position.slot_lsn < position.snapshot_lsn),
{
    position.slot_lsn < position.snapshot_lsn
}

} // verus!
