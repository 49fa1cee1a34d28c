use cling_core::sync::{
    acknowledge_push, advance_watermark, apply_remote, get_sync_status, is_sync_configured,
    mark_local_edit, mark_tombstone, merge_pull, new_record, order_pull_batch, push_snapshots,
    RemoteRecord, SyncRecord,
};

fn local(id: &str, t: i64, dirty: bool, fields: &str) -> SyncRecord<String> {
    SyncRecord {
        id: id.to_string(),
        created_at: 0,
        updated_at: t,
        local_updated_at: t,
        deleted_at: None,
        is_synced: !dirty,
        fields: fields.to_string(),
    }
}

fn remote(id: &str, t: i64, fields: &str) -> RemoteRecord<String> {
    RemoteRecord {
        id: id.to_string(),
        created_at: 0,
        updated_at: t,
        deleted_at: None,
        fields: fields.to_string(),
    }
}

#[test]
fn sync_status_strings() {
    assert_eq!(get_sync_status(&None, &None), "disabled");
    assert_eq!(get_sync_status(&Some("https://example.test".to_string()), &None), "disabled");
    assert_eq!(
        get_sync_status(
            &Some("https://example.test".to_string()),
            &Some("service-key".to_string()),
        ),
        "configured",
    );
    assert!(is_sync_configured(
        &Some("https://example.test".to_string()),
        &Some("service-key".to_string()),
    ));
}

#[test]
fn change_tracker_marks_writes_dirty() {
    let mut rec = new_record("e1".to_string(), 100, "v1".to_string());
    assert!(!rec.is_synced);
    rec.is_synced = true;
    mark_local_edit(&mut rec, 150);
    assert!(!rec.is_synced);
    assert_eq!(rec.local_updated_at, 150);
    assert_eq!(rec.updated_at, 150);
    rec.is_synced = true;
    mark_tombstone(&mut rec, 200);
    assert!(!rec.is_synced);
    assert_eq!(rec.deleted_at, Some(200));
    assert_eq!(rec.local_updated_at, 200);
}

#[test]
fn last_writer_wins_is_by_timestamp_with_local_ties() {
    // Local later: local fields survive and stay dirty for push.
    let merged = merge_pull(Some(local("e1", 300, true, "mine")), remote("e1", 200, "theirs"));
    assert_eq!(merged.fields, "mine");
    assert!(!merged.is_synced);
    // Remote later: remote fields are adopted and the record is clean.
    let merged = merge_pull(Some(local("e1", 100, true, "mine")), remote("e1", 200, "theirs"));
    assert_eq!(merged.fields, "theirs");
    assert!(merged.is_synced);
    assert_eq!(merged.local_updated_at, 200);
    // Exact tie: the local copy is never silently dropped.
    let merged = merge_pull(Some(local("e1", 200, true, "mine")), remote("e1", 200, "theirs"));
    assert_eq!(merged.fields, "mine");
}

#[test]
fn clean_local_rows_adopt_remote() {
    let merged = merge_pull(Some(local("e1", 500, false, "mine")), remote("e1", 200, "theirs"));
    assert_eq!(merged.fields, "theirs");
    assert!(merged.is_synced);
}

#[test]
fn missing_local_rows_insert_as_synced() {
    let merged = merge_pull(None, remote("e1", 200, "theirs"));
    assert_eq!(merged.fields, "theirs");
    assert!(merged.is_synced);
    assert_eq!(merged.local_updated_at, 200);
    assert_eq!(merged.created_at, 0);
}

#[test]
fn tombstone_wins_unless_live_side_is_strictly_later() {
    // Remote tombstone at 200 vs live local at 200: the tombstone wins.
    let mut r = remote("e1", 200, "gone");
    r.deleted_at = Some(200);
    let merged = merge_pull(Some(local("e1", 200, true, "mine")), r);
    assert_eq!(merged.deleted_at, Some(200));
    assert!(merged.is_synced);
    // A strictly later live local edit resurrects the record.
    let mut r = remote("e1", 200, "gone");
    r.deleted_at = Some(200);
    let merged = merge_pull(Some(local("e1", 201, true, "mine")), r);
    assert!(merged.deleted_at.is_none());
    assert_eq!(merged.fields, "mine");
    // A local tombstone with an equal-or-later stamp also wins.
    let mut l = local("e1", 300, true, "mine");
    l.deleted_at = Some(300);
    let merged = merge_pull(Some(l), remote("e1", 300, "theirs"));
    assert_eq!(merged.deleted_at, Some(300));
}

#[test]
fn push_sends_dirty_records_oldest_first() {
    let records = vec![
        local("a", 300, true, "x"),
        local("b", 100, false, "y"),
        local("c", 200, true, "z"),
        local("d", 100, true, "w"),
    ];
    let snaps = push_snapshots(&records);
    assert_eq!(snaps.len(), 3);
    assert_eq!(snaps[0].local_updated_at, 100);
    assert_eq!(snaps[0].id, "d");
    assert_eq!(snaps[1].id, "c");
    assert_eq!(snaps[2].id, "a");
}

#[test]
fn acknowledgement_marks_synced_only_when_unchanged() {
    let mut records = vec![local("a", 100, true, "x")];
    let snaps = push_snapshots(&records);
    assert!(acknowledge_push(&mut records, &snaps[0]));
    assert!(records[0].is_synced);
}

#[test]
fn push_race_keeps_edited_records_dirty() {
    let mut records = vec![local("a", 100, true, "x")];
    let snaps = push_snapshots(&records);
    // A local edit lands between the snapshot read and the ack.
    mark_local_edit(&mut records[0], 150);
    assert!(!acknowledge_push(&mut records, &snaps[0]));
    assert!(!records[0].is_synced);
    assert_eq!(records[0].local_updated_at, 150);
}

#[test]
fn watermark_advances_monotonically() {
    let mut w = 100i64;
    advance_watermark(&mut w, 50);
    assert_eq!(w, 100);
    advance_watermark(&mut w, 170);
    assert_eq!(w, 170);
}

#[test]
fn pull_applies_and_is_idempotent_to_retry() {
    let mut records: Vec<SyncRecord<String>> = Vec::new();
    let mut w = 0i64;
    apply_remote(&mut records, remote("e1", 200, "v1"), &mut w);
    assert_eq!(records.len(), 1);
    assert_eq!(records[0].fields, "v1");
    assert!(records[0].is_synced);
    assert_eq!(w, 200);
    // A crash between apply and watermark advance means the same
    // record is pulled again: nothing changes.
    apply_remote(&mut records, remote("e1", 200, "v1"), &mut w);
    assert_eq!(records.len(), 1);
    assert_eq!(records[0].fields, "v1");
    assert_eq!(w, 200);
    // A dirty local edit with a later stamp survives the next pull.
    mark_local_edit(&mut records[0], 300);
    records[0].fields = "local-edit".to_string();
    apply_remote(&mut records, remote("e1", 250, "v2"), &mut w);
    assert_eq!(records[0].fields, "local-edit");
    assert!(!records[0].is_synced);
    assert_eq!(w, 250);
}


#[test]
fn pull_batches_apply_parents_before_children() {
    // Rank 0 marks parents (lists), rank 1 their children (tasks).
    let batch = vec![
        (1u8, remote("task-a", 300, "child")),
        (0u8, remote("list-a", 200, "parent")),
        (1u8, remote("task-b", 250, "child")),
    ];
    let ordered = order_pull_batch(batch);
    assert_eq!(ordered.len(), 3);
    assert_eq!(ordered[0].1.id, "list-a");
    assert!(ordered[1].0 <= ordered[2].0);
}
