use cling_core::habits::update_habit_streak;
use cling_core::ids::{current_timestamp, generate_id};
use cling_core::lists::lists_delete;
use cling_core::seed::{seed_database, seed_with_ids};
use cling_core::shortcuts::get_shortcut_list;
use cling_core::store::{Store, StoreError};

#[test]
fn generated_ids_are_uuid_shaped() {
    let id = generate_id();
    let chars: Vec<char> = id.chars().collect();
    assert_eq!(chars.len(), 36);
    for (i, c) in chars.iter().enumerate() {
        if i == 8 || i == 13 || i == 18 || i == 23 {
            assert_eq!(*c, '-');
        } else {
            assert!(c.is_ascii_hexdigit() && !c.is_ascii_uppercase());
        }
    }
}

#[test]
fn timestamps_fit_the_store_clock() {
    let now = current_timestamp();
    let mut store = Store::new();
    let tag = cling_core::tags::tags_create(
        &mut store,
        generate_id(),
        now,
        "fresh".to_string(),
        None,
    )
    .unwrap();
    assert_eq!(tag.created_at, now);
}

#[test]
fn shortcut_list_has_six_bindings() {
    let list = get_shortcut_list();
    assert_eq!(list.len(), 6);
    assert_eq!(list[0], ("CmdOrCtrl+Shift+A", "Quick Add Task"));
    assert_eq!(list[5], ("CmdOrCtrl+Shift+N", "Show Notifications"));
}

#[test]
fn seeding_fills_an_empty_store() {
    let mut store = Store::new();
    seed_database(&mut store, 1_000, 20_000).unwrap();
    assert_eq!(store.tags.len(), 3);
    assert_eq!(store.tags[0].name, "uni");
    assert_eq!(store.lists.len(), 3);
    assert_eq!(store.lists[0].name, "Inbox");
    assert!(store.lists[0].is_default);
    assert_eq!(store.tasks.len(), 11);
    assert_eq!(store.tasks[0].title, "Review project proposal");
    assert_eq!(store.habits.len(), 3);
    assert_eq!(store.habits[0].streak, 5);
    assert_eq!(store.habits[1].streak, 12);
    assert_eq!(store.habits[2].streak, 8);
    assert_eq!(store.habit_logs.len(), 25);
    assert_eq!(store.focus_sessions.len(), 4);
    // One workspace, and eight task-tag links.
    assert_eq!(store.workspaces.len(), 1);
    assert_eq!(store.workspaces[0].name, "My Workspace");
    assert_eq!(store.workspaces[0].owner_id, "local-user");
    assert_eq!(store.tags[0].workspace_id, store.workspaces[0].id);
    assert_eq!(store.task_tags.len(), 8);
    assert_eq!(store.task_tags[0].task_id, store.tasks[0].id);
    assert_eq!(store.task_tags[0].tag_id, store.tags[0].id);
    // The overdue sample task ends two days before now.
    assert_eq!(store.tasks[9].end_at, Some(1_000 - 172_800));
    assert_eq!(store.tasks[3].start_at, Some(1_000 + 86_400));
    // Everything seeded is dirty, awaiting a first push.
    assert!(store.tasks.iter().all(|t| !t.is_synced));
}

#[test]
fn seeded_backfill_matches_declared_streaks() {
    let mut store = Store::new();
    seed_database(&mut store, 1_000, 20_000).unwrap();
    // Recomputing each habit's streak from the backfilled logs lands
    // exactly on the declared value.
    for k in 0..3 {
        let id = store.habits[k].id.clone();
        assert!(update_habit_streak(&mut store, &id, 1_001));
    }
    assert_eq!(store.habits[0].streak, 5);
    assert_eq!(store.habits[1].streak, 12);
    assert_eq!(store.habits[2].streak, 8);
}

#[test]
fn seeded_default_list_is_protected() {
    let mut store = Store::new();
    seed_database(&mut store, 1_000, 20_000).unwrap();
    let inbox_id = store.lists[0].id.clone();
    let err = lists_delete(&mut store, &inbox_id, 1_002).unwrap_err();
    assert_eq!(err, StoreError::DefaultListProtected);
    assert_eq!(store.lists.len(), 3);
}

#[test]
fn seeding_with_explicit_ids_is_exact() {
    let mut store = Store::new();
    let ids: Vec<String> = (0..50).map(|i| format!("id-{:02}", i)).collect();
    seed_with_ids(&mut store, 500, 10_000, &ids).unwrap();
    assert_eq!(store.tags[0].id, "id-00");
    assert_eq!(store.lists[0].id, "id-03");
    assert_eq!(store.tasks[0].id, "id-06");
    assert_eq!(store.habits[0].id, "id-17");
    assert_eq!(store.habit_logs[0].id, "id-20");
    assert_eq!(store.habit_logs[0].date, 10_000);
    assert_eq!(store.habit_logs[4].date, 9_996);
    assert_eq!(store.focus_sessions[0].id, "id-45");
    assert_eq!(store.workspaces[0].id, "id-49");
    // The join rows link the sample tasks to the seeded tags.
    assert_eq!(store.task_tags[1].task_id, "id-07");
    assert_eq!(store.task_tags[1].tag_id, "id-02");
    assert_eq!(store.task_tags[7].task_id, "id-15");
    assert_eq!(store.task_tags[7].tag_id, "id-01");
}
