use postgres_source::error::ReplicationError;
use postgres_source::lsn::next_frontier;
use postgres_source::slot::{
    needs_rewind, plan_slot, plan_slot_named, snapshot_position, strip_hyphens, SlotPlan,
    SnapshotPosition,
};
use postgres_source::text::{concat3, decimal};

#[test]
fn decimal_writes_digits() {
    assert_eq!(decimal(0), "0");
    assert_eq!(decimal(7), "7");
    assert_eq!(decimal(10), "10");
    assert_eq!(decimal(16384), "16384");
    assert_eq!(decimal(4294967295), "4294967295");
    assert_eq!(decimal(1234567890123), "1234567890123");
    assert_eq!(decimal(u64::MAX), "18446744073709551615");
}

#[test]
fn concat3_joins_in_order() {
    assert_eq!(concat3("a", "bc", "def"), "abcdef");
    assert_eq!(concat3("", "", ""), "");
    assert_eq!(concat3("x", "", "y"), "xy");
}

#[test]
fn next_frontier_follows_the_lsn() {
    assert_eq!(next_frontier(0), 1);
    assert_eq!(next_frontier(200), 201);
    assert_eq!(next_frontier(u64::MAX - 1), u64::MAX);
}

#[test]
fn strip_hyphens_removes_only_hyphens() {
    assert_eq!(
        strip_hyphens("67e55044-10b1-426f-9247-bb680e5fe0c8"),
        "67e5504410b1426f9247bb680e5fe0c8"
    );
    assert_eq!(strip_hyphens(""), "");
    assert_eq!(strip_hyphens("---"), "");
    assert_eq!(strip_hyphens("a_b c"), "a_b c");
    assert_eq!(strip_hyphens("-\u{e9}-\u{2603}-"), "\u{e9}\u{2603}");
}

#[test]
fn existing_slot_gets_a_temporary_slot_for_the_snapshot() {
    let plan = plan_slot_named("mz_slot", Some(100), "0123abcd".to_string());
    assert_eq!(
        plan,
        SlotPlan {
            existing_lsn: Some(100),
            temp_slot: Some("0123abcd".to_string()),
            create_query:
                "CREATE_REPLICATION_SLOT \"0123abcd\" TEMPORARY LOGICAL \"pgoutput\" USE_SNAPSHOT"
                    .to_string(),
        }
    );
}

#[test]
fn missing_slot_is_created_under_its_own_name() {
    let plan = plan_slot_named("mz_slot", None, "unused".to_string());
    assert_eq!(
        plan,
        SlotPlan {
            existing_lsn: None,
            temp_slot: None,
            create_query: "CREATE_REPLICATION_SLOT \"mz_slot\" LOGICAL \"pgoutput\" USE_SNAPSHOT"
                .to_string(),
        }
    );
    let plan = plan_slot("mz_slot", &Err(ReplicationError::Indefinite("empty result".to_string())));
    assert_eq!(plan.existing_lsn, None);
    assert_eq!(plan.temp_slot, None);
    assert_eq!(
        plan.create_query,
        "CREATE_REPLICATION_SLOT \"mz_slot\" LOGICAL \"pgoutput\" USE_SNAPSHOT"
    );
}

#[test]
fn temporary_slot_name_is_a_fresh_uuid_without_hyphens() {
    let first = plan_slot("mz_slot", &Ok(42));
    let second = plan_slot("mz_slot", &Ok(42));
    assert_eq!(first.existing_lsn, Some(42));
    let name = first.temp_slot.clone().unwrap();
    assert_eq!(name.len(), 32);
    assert!(name.chars().all(|c| c.is_ascii_hexdigit() && !c.is_ascii_uppercase()));
    assert_eq!(
        first.create_query,
        format!("CREATE_REPLICATION_SLOT \"{}\" TEMPORARY LOGICAL \"pgoutput\" USE_SNAPSHOT", name)
    );
    assert_ne!(first.temp_slot, second.temp_slot);
}

#[test]
fn snapshot_of_new_slot_is_at_the_slot() {
    let position = snapshot_position(None, 500);
    assert_eq!(position, SnapshotPosition { slot_lsn: 500, snapshot_lsn: 500 });
    assert!(!needs_rewind(position));
}

#[test]
fn snapshot_with_existing_slot_keeps_the_slots_lsn() {
    let position = snapshot_position(Some(300), 500);
    assert_eq!(position, SnapshotPosition { slot_lsn: 300, snapshot_lsn: 500 });
    assert!(needs_rewind(position));
}

#[test]
fn existing_slot_at_the_snapshot_needs_no_rewind() {
    let position = snapshot_position(Some(500), 500);
    assert_eq!(position, SnapshotPosition { slot_lsn: 500, snapshot_lsn: 500 });
    assert!(!needs_rewind(position));
}
