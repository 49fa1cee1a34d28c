use cling_core::calendar::{calendar_delete_timeblock, calendar_events, calendar_timeblock};
use cling_core::comments::{comments_add, comments_delete, comments_list, comments_update};
use cling_core::attachments::{attachments_add, attachments_delete, attachments_list};
use cling_core::focus::{focus_sessions_list, focus_start, focus_stats, focus_stop};
use cling_core::habits::{
    current_streak, habits_create, habits_delete, habits_list, habits_log, habits_stats,
    habits_update, update_habit_streak, HabitLog, Schedule,
};
use cling_core::lists::{
    lists_create, lists_delete, lists_get, lists_list, lists_update, CreateListParams,
    UpdateListParams,
};
use cling_core::store::{Store, StoreError};
use cling_core::tags::{
    tags_assign, tags_create, tags_delete, tags_get, tags_list, tags_remove, tags_update,
    tags_upsert,
};
use cling_core::tasks::{tasks_create, tasks_delete, tasks_get, tasks_list, tasks_search,
    tasks_update, CreateTaskParams, UpdateTaskParams};

fn task_params(list_id: &str, title: &str) -> CreateTaskParams {
    CreateTaskParams {
        list_id: list_id.to_string(),
        title: title.to_string(),
        description: None,
        priority: None,
        start_at: None,
        end_at: None,
        all_day: None,
        duration_min: None,
        recurrence_rrule: None,
        status: None,
        estimate_pomos: None,
        tags: None,
    }
}

#[test]
fn create_marks_dirty_and_stamps_clock() {
    let mut store = Store::new();
    let tag = tags_create(&mut store, "t1".to_string(), 100, "work".to_string(), None).unwrap();
    assert!(!tag.is_synced);
    assert_eq!(tag.created_at, 100);
    assert_eq!(tag.local_updated_at, 100);
    assert_eq!(tag.workspace_id, "local-workspace");
    assert_eq!(store.clock_floor(), 100);
}

#[test]
fn update_advances_local_updated_at_and_dirties() {
    let mut store = Store::new();
    tags_create(&mut store, "t1".to_string(), 100, "work".to_string(), None).unwrap();
    // Pretend a sync marked it clean.
    store.tags[0].is_synced = true;
    let tag = tags_update(&mut store, &"t1".to_string(), Some("job".to_string()), None, 150)
        .unwrap();
    assert!(!tag.is_synced);
    assert_eq!(tag.local_updated_at, 150);
    assert_eq!(tag.name, "job");
    assert_eq!(tag.created_at, 100);
}

#[test]
fn soft_delete_sets_tombstone_and_keeps_row() {
    let mut store = Store::new();
    tags_create(&mut store, "t1".to_string(), 100, "work".to_string(), None).unwrap();
    assert!(tags_delete(&mut store, &"t1".to_string(), 160));
    assert_eq!(store.tags.len(), 1);
    assert_eq!(store.tags[0].deleted_at, Some(160));
    assert!(!store.tags[0].is_synced);
    assert_eq!(store.tags[0].local_updated_at, 160);
    // The tombstoned tag is invisible to lookups and listings.
    assert!(tags_get(&store, &"t1".to_string()).is_none());
    assert_eq!(tags_list(&store).len(), 0);
}

#[test]
fn duplicate_id_is_a_constraint_error() {
    let mut store = Store::new();
    tags_create(&mut store, "t1".to_string(), 100, "a".to_string(), None).unwrap();
    let err = tags_create(&mut store, "t1".to_string(), 101, "b".to_string(), None).unwrap_err();
    assert_eq!(err, StoreError::Constraint);
    assert_eq!(store.tags.len(), 1);
}

#[test]
fn missing_id_is_not_found() {
    let mut store = Store::new();
    let err = tags_update(&mut store, &"nope".to_string(), None, None, 100).unwrap_err();
    assert_eq!(err, StoreError::NotFound);
}

#[test]
fn upsert_updates_colour_or_creates() {
    let mut store = Store::new();
    let t1 = tags_upsert(&mut store, "t1".to_string(), 100, "work".to_string(),
        Some("#111111".to_string())).unwrap();
    assert_eq!(t1.id, "t1");
    let t2 = tags_upsert(&mut store, "t2".to_string(), 110, "work".to_string(),
        Some("#222222".to_string())).unwrap();
    // Same name: the existing tag is updated, not duplicated.
    assert_eq!(t2.id, "t1");
    assert_eq!(t2.color.as_deref(), Some("#222222"));
    assert_eq!(store.tags.len(), 1);
}

#[test]
fn assigning_a_tag_twice_is_rejected() {
    let mut store = Store::new();
    assert!(tags_assign(&mut store, "task1".to_string(), "tag1".to_string(), 100).unwrap());
    let err = tags_assign(&mut store, "task1".to_string(), "tag1".to_string(), 101).unwrap_err();
    assert_eq!(err, StoreError::Constraint);
    assert!(tags_remove(&mut store, &"task1".to_string(), &"tag1".to_string()));
    assert!(!tags_remove(&mut store, &"task1".to_string(), &"tag1".to_string()));
}

#[test]
fn task_create_defaults_and_get() {
    let mut store = Store::new();
    let t = tasks_create(&mut store, "a1".to_string(), 100, task_params("l1", "Write the report"))
        .unwrap();
    assert_eq!(t.status, "todo");
    assert_eq!(t.tags.as_ref().unwrap().len(), 0);
    assert!(!t.is_synced);
    let got = tasks_get(&store, &"a1".to_string()).unwrap();
    assert_eq!(got.title, "Write the report");
    assert!(tasks_get(&store, &"zz".to_string()).is_err());
}

#[test]
fn task_update_keeps_unsupplied_fields() {
    let mut store = Store::new();
    let mut p = task_params("l1", "Original");
    p.description = Some("kept".to_string());
    tasks_create(&mut store, "a1".to_string(), 100, p).unwrap();
    let up = UpdateTaskParams {
        id: "a1".to_string(),
        list_id: None,
        title: Some("Renamed".to_string()),
        description: None,
        priority: Some(2),
        start_at: None,
        end_at: None,
        all_day: None,
        duration_min: None,
        recurrence_rrule: None,
        status: None,
        estimate_pomos: None,
        tags: None,
    };
    let t = tasks_update(&mut store, up, 120).unwrap();
    assert_eq!(t.title, "Renamed");
    assert_eq!(t.description.as_deref(), Some("kept"));
    assert_eq!(t.priority, Some(2));
    assert_eq!(t.updated_at, 120);
    assert!(!t.is_synced);
}

#[test]
fn task_delete_is_soft_and_list_filters_it() {
    let mut store = Store::new();
    tasks_create(&mut store, "a1".to_string(), 100, task_params("l1", "One")).unwrap();
    tasks_create(&mut store, "a2".to_string(), 101, task_params("l1", "Two")).unwrap();
    assert!(tasks_delete(&mut store, &"a1".to_string(), 130));
    assert_eq!(store.tasks.len(), 2);
    let live = tasks_list(&store);
    assert_eq!(live.len(), 1);
    assert_eq!(live[0].title, "Two");
}

#[test]
fn search_is_case_insensitive_substring() {
    let mut store = Store::new();
    tasks_create(&mut store, "a1".to_string(), 100, task_params("l1", "Review Project Proposal"))
        .unwrap();
    let mut p = task_params("l1", "Chores");
    p.description = Some("buy GROCERIES today".to_string());
    tasks_create(&mut store, "a2".to_string(), 101, p).unwrap();
    tasks_create(&mut store, "a3".to_string(), 102, task_params("l1", "Unrelated")).unwrap();
    assert_eq!(tasks_search(&store, "project").len(), 1);
    assert_eq!(tasks_search(&store, "groceries").len(), 1);
    assert_eq!(tasks_search(&store, "PROPOSAL").len(), 1);
    assert_eq!(tasks_search(&store, "nothing-here").len(), 0);
    assert_eq!(tasks_search(&store, "").len(), 3);
}

#[test]
fn default_list_deletion_is_rejected() {
    let mut store = Store::new();
    lists_create(&mut store, "l1".to_string(), 100, CreateListParams {
        name: "Inbox".to_string(),
        description: None,
        color: None,
        icon: None,
    }).unwrap();
    store.lists[0].is_default = true;
    let before = store.lists.len();
    let err = lists_delete(&mut store, &"l1".to_string(), 120).unwrap_err();
    assert_eq!(err, StoreError::DefaultListProtected);
    // The list table is unchanged.
    assert_eq!(store.lists.len(), before);
    assert_eq!(store.lists[0].name, "Inbox");
}

#[test]
fn deleting_a_list_reassigns_its_tasks() {
    let mut store = Store::new();
    lists_create(&mut store, "l1".to_string(), 100, CreateListParams {
        name: "Inbox".to_string(), description: None, color: None, icon: None,
    }).unwrap();
    store.lists[0].is_default = true;
    lists_create(&mut store, "l2".to_string(), 101, CreateListParams {
        name: "Side".to_string(), description: None, color: None, icon: None,
    }).unwrap();
    tasks_create(&mut store, "a1".to_string(), 102, task_params("l2", "Homeless soon")).unwrap();
    assert!(lists_delete(&mut store, &"l2".to_string(), 120).unwrap());
    assert_eq!(store.lists.len(), 1);
    assert_eq!(store.tasks[0].list_id, "l1");
}

#[test]
fn list_sort_orders_count_up() {
    let mut store = Store::new();
    let a = lists_create(&mut store, "l1".to_string(), 100, CreateListParams {
        name: "A".to_string(), description: None, color: None, icon: None,
    }).unwrap();
    let b = lists_create(&mut store, "l2".to_string(), 101, CreateListParams {
        name: "B".to_string(), description: None, color: None, icon: None,
    }).unwrap();
    assert_eq!(a.sort_order, 1);
    assert_eq!(b.sort_order, 2);
    let all = lists_list(&store);
    assert_eq!(all.len(), 2);
    let renamed = lists_update(&mut store, UpdateListParams {
        id: "l2".to_string(),
        name: Some("B2".to_string()),
        description: None,
        color: None,
        icon: None,
        sort_order: Some(9),
    }, 130).unwrap();
    assert_eq!(renamed.sort_order, 9);
    assert_eq!(lists_get(&store, &"l2".to_string()).unwrap().name, "B2");
}

#[test]
fn streak_counts_consecutive_days_only() {
    // Logs for days d, d-1, d-2 with positive values and a gap at d-3:
    // the streak is exactly three, even though an older run exists.
    let d = 20000i64;
    let mk = |id: &str, date: i64, value: i32| HabitLog {
        id: id.to_string(),
        habit_id: "h1".to_string(),
        date,
        value,
        created_at: 100,
        updated_at: 100,
        is_synced: false,
        local_updated_at: 100,
    };
    let logs = vec![
        mk("g1", d - 5, 1),
        mk("g2", d - 1, 1),
        mk("g3", d, 2),
        mk("g4", d - 2, 1),
        mk("g5", d - 3, 0), // a zero-valued log does not extend the run
    ];
    assert_eq!(current_streak(&logs, &"h1".to_string()), 3);
}

#[test]
fn streak_of_unlogged_habit_is_zero() {
    let logs: Vec<HabitLog> = Vec::new();
    assert_eq!(current_streak(&logs, &"h1".to_string()), 0);
}

#[test]
fn habit_log_updates_streak() {
    let mut store = Store::new();
    habits_create(&mut store, "h1".to_string(), 100, "Read".to_string(), None,
        Schedule::Daily { days: vec![1, 2, 3, 4, 5, 6, 7] }).unwrap();
    let d = 20000i64;
    habits_log(&mut store, "g1".to_string(), 101, "h1".to_string(), d - 2, 1).unwrap();
    habits_log(&mut store, "g2".to_string(), 102, "h1".to_string(), d - 1, 1).unwrap();
    habits_log(&mut store, "g3".to_string(), 103, "h1".to_string(), d, 1).unwrap();
    assert_eq!(store.habits[0].streak, 3);
    // Logging the same day again replaces the value, not the day.
    let again = habits_log(&mut store, "g9".to_string(), 104, "h1".to_string(), d, 5).unwrap();
    assert_eq!(again.value, 5);
    assert_eq!(store.habit_logs.len(), 3);
    assert!(update_habit_streak(&mut store, &"h1".to_string(), 105));
    assert_eq!(store.habits[0].streak, 3);
}

#[test]
fn habit_update_and_delete() {
    let mut store = Store::new();
    habits_create(&mut store, "h1".to_string(), 100, "Read".to_string(), None,
        Schedule::Daily { days: vec![1] }).unwrap();
    let h = habits_update(&mut store, &"h1".to_string(), Some("Read more".to_string()), None,
        None, 110).unwrap();
    assert_eq!(h.title, "Read more");
    assert!(!h.is_synced);
    assert!(habits_delete(&mut store, &"h1".to_string(), 120));
    assert_eq!(habits_list(&store).len(), 0);
}

#[test]
fn habit_stats_count_live_and_today() {
    let mut store = Store::new();
    habits_create(&mut store, "h1".to_string(), 100, "A".to_string(), None,
        Schedule::Daily { days: vec![1] }).unwrap();
    habits_create(&mut store, "h2".to_string(), 101, "B".to_string(), None,
        Schedule::Daily { days: vec![1] }).unwrap();
    let d = 20000i64;
    habits_log(&mut store, "g1".to_string(), 102, "h1".to_string(), d, 1).unwrap();
    habits_delete(&mut store, &"h2".to_string(), 103);
    let stats = habits_stats(&store, d);
    assert_eq!(stats.total_habits, 1);
    assert_eq!(stats.active_streaks, 1);
    assert_eq!(stats.total_logs_today, 1);
}

#[test]
fn comments_round_trip() {
    let mut store = Store::new();
    let c = comments_add(&mut store, "c1".to_string(), 100, "task1".to_string(),
        "first".to_string()).unwrap();
    assert!(!c.is_synced);
    let c2 = comments_update(&mut store, &"c1".to_string(), "edited".to_string(), 110).unwrap();
    assert_eq!(c2.body, "edited");
    assert_eq!(comments_list(&store, &"task1".to_string()).len(), 1);
    assert!(comments_delete(&mut store, &"c1".to_string(), 120));
    assert_eq!(comments_list(&store, &"task1".to_string()).len(), 0);
}

#[test]
fn attachments_round_trip() {
    let mut store = Store::new();
    let a = attachments_add(&mut store, "f1".to_string(), 100, "task1".to_string(),
        "/tmp/a.png".to_string(), "a.png".to_string(), "image/png".to_string(), 1234).unwrap();
    assert_eq!(a.file_size_bytes, 1234);
    assert_eq!(attachments_list(&store, &"task1".to_string()).len(), 1);
    assert!(attachments_delete(&mut store, &"f1".to_string(), 110));
    assert_eq!(attachments_list(&store, &"task1".to_string()).len(), 0);
}

#[test]
fn focus_sessions_and_stats() {
    let mut store = Store::new();
    focus_start(&mut store, "s1".to_string(), 100, None, 1500).unwrap();
    focus_start(&mut store, "s2".to_string(), 200, None, 300).unwrap();
    store.focus_sessions[1].is_break = true;
    let stopped = focus_stop(&mut store, &"s1".to_string(), 1600).unwrap();
    assert_eq!(stopped.ended_at, Some(1600));
    // The day [0, 150) holds only the first session.
    let stats = focus_stats(&store, 0, 150);
    assert_eq!(stats.total_sessions, 2);
    assert_eq!(stats.total_work_time, 1500);
    assert_eq!(stats.total_break_time, 300);
    assert_eq!(stats.today_sessions, 1);
    assert_eq!(stats.today_work_time, 1500);
    let newest_first = focus_sessions_list(&store, None);
    assert_eq!(newest_first.len(), 2);
    assert_eq!(newest_first[0].id, "s2");
    assert_eq!(focus_sessions_list(&store, Some(1)).len(), 1);
}

#[test]
fn calendar_events_follow_priority_colours() {
    let mut store = Store::new();
    let mut p = task_params("l1", "Scheduled");
    p.priority = Some(1);
    p.start_at = Some(5000);
    tasks_create(&mut store, "a1".to_string(), 100, p).unwrap();
    let mut q = task_params("l1", "Outside window");
    q.start_at = Some(9000);
    tasks_create(&mut store, "a2".to_string(), 101, q).unwrap();
    let events = calendar_events(&store, 4000, 6000);
    assert_eq!(events.len(), 1);
    assert_eq!(events[0].title, "Scheduled");
    assert_eq!(events[0].start_time, 5000);
    assert_eq!(events[0].color.as_deref(), Some("#ef4444"));
}

#[test]
fn timeblocks_round_trip() {
    let mut store = Store::new();
    calendar_timeblock(&mut store, "b1".to_string(), 100, "task1".to_string(), 5000, 6000)
        .unwrap();
    let blocks = calendar_events_by_task_helper(&store);
    assert_eq!(blocks.len(), 1);
    assert_eq!(blocks[0].start_time, 5000);
    assert!(calendar_delete_timeblock(&mut store, &"b1".to_string()));
    assert_eq!(store.time_blocks.len(), 0);
}

fn calendar_events_by_task_helper(store: &Store) -> Vec<cling_core::calendar::TimeBlock> {
    cling_core::calendar::calendar_events_by_task(store, &"task1".to_string())
}


#[test]
fn listings_come_out_in_the_original_orders() {
    let mut store = Store::new();
    // Tags list by name ascending.
    tags_create(&mut store, "t1".to_string(), 100, "zeta".to_string(), None).unwrap();
    tags_create(&mut store, "t2".to_string(), 101, "alpha".to_string(), None).unwrap();
    let tags = tags_list(&store);
    assert_eq!(tags[0].name, "alpha");
    assert_eq!(tags[1].name, "zeta");
    // Tasks list newest creation first.
    tasks_create(&mut store, "a1".to_string(), 110, task_params("l1", "older")).unwrap();
    tasks_create(&mut store, "a2".to_string(), 120, task_params("l1", "newer")).unwrap();
    let tasks = tasks_list(&store);
    assert_eq!(tasks[0].title, "newer");
    assert_eq!(tasks[1].title, "older");
    let found = tasks_search(&store, "er");
    assert_eq!(found[0].title, "newer");
    // Habits list by title ascending.
    habits_create(&mut store, "h1".to_string(), 130, "Walk".to_string(), None,
        Schedule::Daily { days: vec![1] }).unwrap();
    habits_create(&mut store, "h2".to_string(), 131, "Cook".to_string(), None,
        Schedule::Daily { days: vec![1] }).unwrap();
    let habits = habits_list(&store);
    assert_eq!(habits[0].title, "Cook");
    assert_eq!(habits[1].title, "Walk");
}

#[test]
fn lists_order_follows_sort_order_after_updates() {
    let mut store = Store::new();
    lists_create(&mut store, "l1".to_string(), 100, CreateListParams {
        name: "First".to_string(), description: None, color: None, icon: None,
    }).unwrap();
    lists_create(&mut store, "l2".to_string(), 101, CreateListParams {
        name: "Second".to_string(), description: None, color: None, icon: None,
    }).unwrap();
    // Push the first list behind the second.
    lists_update(&mut store, UpdateListParams {
        id: "l1".to_string(), name: None, description: None, color: None, icon: None,
        sort_order: Some(9),
    }, 110).unwrap();
    let all = lists_list(&store);
    assert_eq!(all[0].name, "Second");
    assert_eq!(all[1].name, "First");
}

#[test]
fn attachments_list_newest_upload_first() {
    let mut store = Store::new();
    attachments_add(&mut store, "f1".to_string(), 100, "task1".to_string(),
        "/tmp/a".to_string(), "a".to_string(), "text/plain".to_string(), 1).unwrap();
    attachments_add(&mut store, "f2".to_string(), 200, "task1".to_string(),
        "/tmp/b".to_string(), "b".to_string(), "text/plain".to_string(), 2).unwrap();
    let atts = attachments_list(&store, &"task1".to_string());
    assert_eq!(atts[0].id, "f2");
    assert_eq!(atts[1].id, "f1");
}

#[test]
fn timeblocks_list_earliest_start_first() {
    let mut store = Store::new();
    calendar_timeblock(&mut store, "b1".to_string(), 100, "task1".to_string(), 9_000, 9_500)
        .unwrap();
    calendar_timeblock(&mut store, "b2".to_string(), 101, "task1".to_string(), 4_000, 4_500)
        .unwrap();
    let blocks = cling_core::calendar::calendar_events_by_task(&store, &"task1".to_string());
    assert_eq!(blocks[0].id, "b2");
    assert_eq!(blocks[1].id, "b1");
}

#[test]
fn calendar_events_earliest_start_first() {
    let mut store = Store::new();
    let mut p = task_params("l1", "Late");
    p.start_at = Some(6_000);
    tasks_create(&mut store, "a1".to_string(), 100, p).unwrap();
    let mut q = task_params("l1", "Early");
    q.start_at = Some(4_500);
    tasks_create(&mut store, "a2".to_string(), 101, q).unwrap();
    let events = calendar_events(&store, 4_000, 7_000);
    assert_eq!(events.len(), 2);
    assert_eq!(events[0].title, "Early");
    assert_eq!(events[1].title, "Late");
}

#[test]
fn updating_a_day_log_recomputes_the_streak() {
    let mut store = Store::new();
    habits_create(&mut store, "h1".to_string(), 100, "Read".to_string(), None,
        Schedule::Daily { days: vec![1] }).unwrap();
    let d = 20_000i64;
    habits_log(&mut store, "g1".to_string(), 101, "h1".to_string(), d - 2, 1).unwrap();
    habits_log(&mut store, "g2".to_string(), 102, "h1".to_string(), d - 1, 1).unwrap();
    habits_log(&mut store, "g3".to_string(), 103, "h1".to_string(), d, 1).unwrap();
    assert_eq!(store.habits[0].streak, 3);
    // Zeroing the latest day's value shortens the run at once.
    habits_log(&mut store, "g9".to_string(), 104, "h1".to_string(), d, 0).unwrap();
    assert_eq!(store.habit_logs.len(), 3);
    assert_eq!(store.habits[0].streak, 2);
}
