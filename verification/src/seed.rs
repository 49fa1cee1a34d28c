#![verifier::loop_isolation(false)]

//! The seed loader: fills an empty store with one fixed workspace of
//! sample data — tags, lists (the first one the default), tasks,
//! habits with a log backfill matching each declared streak, and a few
//! focus sessions.

use vstd::prelude::*;

use crate::habits::{Habit, HabitLog, Schedule};
use crate::ids::generate_id;
use crate::lists::List;
use crate::store::{Store, StoreError};
use crate::tags::Tag;
use crate::tasks::Task;
use crate::focus::FocusSession;

verus! {

/// How many fresh identifiers one seeding consumes.
pub const SEED_ID_COUNT: usize = 50;

/// What seeding an empty store leaves behind.  Identifiers are fresh
/// and unique; everything is stamped with `now` and dirty, ready for a
/// first push.
pub open spec fn seeded_store(pre: Store, post: Store, now: i64, today: i64) -> bool {
    &&& post.clock == now
    &&& post.tags@.len() == 3
    &&& post.workspaces@.len() == 1
    &&& post.workspaces@[0].name@ == "My Workspace"@
    &&& post.workspaces@[0].owner_id@ == "local-user"@
    &&& post.tags@[0].name@ == "uni"@
    &&& post.tags@[1].name@ == "work"@
    &&& post.tags@[2].name@ == "home"@
    &&& forall|i: int|
        0 <= i < post.tags@.len()
            ==> (#[trigger] post.tags@[i]).created_at == now && !post.tags@[i].is_synced
                && post.tags@[i].deleted_at.is_none()
                && post.tags@[i].workspace_id@ == post.workspaces@[0].id@
    &&& post.lists@.len() == 3
    &&& post.lists@[0].name@ == "Inbox"@
    &&& post.lists@[1].name@ == "Sprint"@
    &&& post.lists@[2].name@ == "Personal"@
    &&& post.lists@[0].is_default
    &&& !post.lists@[1].is_default && !post.lists@[2].is_default
    &&& post.lists@[0].sort_order == 0
    &&& post.lists@[1].sort_order == 1
    &&& post.lists@[2].sort_order == 2
    &&& post.tasks@.len() == 11
    &&& post.tasks@[0].title@ == "Review project proposal"@
    &&& forall|i: int|
        0 <= i < post.tasks@.len()
            ==> (#[trigger] post.tasks@[i]).created_at == now && !post.tasks@[i].is_synced
                && post.tasks@[i].deleted_at.is_none()
    &&& forall|i: int|
        0 <= i < post.tasks@.len()
            ==> (#[trigger] post.tasks@[i]).list_id@ == (
                if i < 3 || i == 9 {
                    post.lists@[0].id@
                } else if i < 6 {
                    post.lists@[1].id@
                } else {
                    post.lists@[2].id@
                }
            )
    // The original's sample schedule: several tasks carry start/end
    // offsets from now, one is already overdue.
    &&& post.tasks@[0].start_at.is_none() && post.tasks@[0].end_at.is_none()
    &&& post.tasks@[1].start_at.is_none() && post.tasks@[1].end_at == Some((now + 86400) as i64)
    &&& post.tasks@[2].start_at.is_none() && post.tasks@[2].end_at == Some((now + 259200) as i64)
    &&& post.tasks@[3].start_at == Some((now + 86400) as i64)
        && post.tasks@[3].end_at == Some((now + 259200) as i64)
    &&& post.tasks@[4].start_at == Some((now + 172800) as i64)
        && post.tasks@[4].end_at == Some((now + 345600) as i64)
    &&& post.tasks@[5].start_at == Some((now + 7200) as i64)
        && post.tasks@[5].end_at == Some((now + 21600) as i64)
    &&& post.tasks@[6].start_at.is_none() && post.tasks@[6].end_at == Some((now + 604800) as i64)
    &&& post.tasks@[7].start_at == Some((now + 432000) as i64)
        && post.tasks@[7].end_at == Some((now + 604800) as i64)
    &&& post.tasks@[8].start_at.is_none() && post.tasks@[8].end_at.is_none()
    &&& post.tasks@[9].start_at.is_none() && post.tasks@[9].end_at == Some((now - 172800) as i64)
    &&& post.tasks@[10].start_at.is_none() && post.tasks@[10].end_at == Some((now - 86400) as i64)
    // Eight of the sample tasks are linked to the seeded tags.
    &&& post.task_tags@.len() == 8
    &&& post.task_tags@[0].task_id@ == post.tasks@[0].id@
        && post.task_tags@[0].tag_id@ == post.tags@[0].id@
    &&& post.task_tags@[1].task_id@ == post.tasks@[1].id@
        && post.task_tags@[1].tag_id@ == post.tags@[2].id@
    &&& post.task_tags@[2].task_id@ == post.tasks@[3].id@
        && post.task_tags@[2].tag_id@ == post.tags@[1].id@
    &&& post.task_tags@[3].task_id@ == post.tasks@[4].id@
        && post.task_tags@[3].tag_id@ == post.tags@[1].id@
    &&& post.task_tags@[4].task_id@ == post.tasks@[5].id@
        && post.task_tags@[4].tag_id@ == post.tags@[1].id@
    &&& post.task_tags@[5].task_id@ == post.tasks@[7].id@
        && post.task_tags@[5].tag_id@ == post.tags@[2].id@
    &&& post.task_tags@[6].task_id@ == post.tasks@[8].id@
        && post.task_tags@[6].tag_id@ == post.tags@[2].id@
    &&& post.task_tags@[7].task_id@ == post.tasks@[9].id@
        && post.task_tags@[7].tag_id@ == post.tags@[1].id@
    &&& forall|i: int|
        0 <= i < post.task_tags@.len()
            ==> (#[trigger] post.task_tags@[i]).created_at == now
                && post.task_tags@[i].local_updated_at == now
    &&& post.habits@.len() == 3
    &&& post.habits@[0].title@ == "Read 20 minutes"@ && post.habits@[0].streak == 5
    &&& post.habits@[1].title@ == "Workout"@ && post.habits@[1].streak == 12
    &&& post.habits@[2].title@ == "Practice Arabic"@ && post.habits@[2].streak == 8
    &&& forall|i: int|
        0 <= i < post.habits@.len()
            ==> (#[trigger] post.habits@[i]).workspace_id@ == post.workspaces@[0].id@
    &&& post.habit_logs@.len() == 25
    &&& forall|i: int|
        0 <= i < post.habit_logs@.len()
            ==> (#[trigger] post.habit_logs@[i]).value == 1
    &&& forall|i: int|
        0 <= i < 5
            ==> (#[trigger] post.habit_logs@[i]).habit_id@ == post.habits@[0].id@
                && post.habit_logs@[i].date == today - i
    &&& forall|i: int|
        5 <= i < 17
            ==> (#[trigger] post.habit_logs@[i]).habit_id@ == post.habits@[1].id@
                && post.habit_logs@[i].date == today - (i - 5)
    &&& forall|i: int|
        17 <= i < 25
            ==> (#[trigger] post.habit_logs@[i]).habit_id@ == post.habits@[2].id@
                && post.habit_logs@[i].date == today - (i - 17)
    &&& post.focus_sessions@.len() == 4
    &&& post.focus_sessions@[0].duration_sec == 1500 && !post.focus_sessions@[0].is_break
    &&& post.focus_sessions@[1].duration_sec == 300 && post.focus_sessions@[1].is_break
    &&& post.focus_sessions@[2].duration_sec == 1500 && !post.focus_sessions@[2].is_break
    &&& post.focus_sessions@[3].duration_sec == 900 && post.focus_sessions@[3].is_break
    &&& post.comments@ == pre.comments@
    &&& post.attachments@ == pre.attachments@
    &&& post.time_blocks@ == pre.time_blocks@
}

/// The store is empty of seedable rows.
pub open spec fn store_empty(s: Store) -> bool {
    &&& s.workspaces@.len() == 0
    &&& s.task_tags@.len() == 0
    &&& s.lists@.len() == 0
    &&& s.tasks@.len() == 0
    &&& s.tags@.len() == 0
    &&& s.habits@.len() == 0
    &&& s.habit_logs@.len() == 0
    &&& s.focus_sessions@.len() == 0
}

fn seed_tag(
    id: String,
    workspace_id: String,
    now: i64,
    name: &'static str,
    color: &'static str,
) -> (r: Tag)
    ensures
        r.id == id,
        r.workspace_id == workspace_id,
        r.name@ == name@,
        r.color matches Some(c) && c@ == color@,
        r.created_at == now,
        r.updated_at == now,
        r.local_updated_at == now,
        r.deleted_at.is_none(),
        !r.is_synced,
{
    Tag {
        id,
        workspace_id,
        name: String::from_str(name),
        color: Some(String::from_str(color)),
        created_at: now,
        updated_at: now,
        deleted_at: None,
        is_synced: false,
        local_updated_at: now,
    }
}

fn seed_list(
    id: String,
    now: i64,
    name: &'static str,
    color: &'static str,
    is_default: bool,
    sort_order: i32,
) -> (r: List)
    ensures
        r.id == id,
        r.name@ == name@,
        r.is_default == is_default,
        r.sort_order == sort_order,
        r.created_at == now,
        r.updated_at == now,
{
    List {
        id,
        name: String::from_str(name),
        description: None,
        color: Some(String::from_str(color)),
        icon: None,
        is_default,
        sort_order,
        created_at: now,
        updated_at: now,
    }
}

fn seed_task(
    id: String,
    now: i64,
    list_id: String,
    title: &'static str,
    description: &'static str,
    priority: i32,
    start_at: Option<i64>,
    end_at: Option<i64>,
    status: &'static str,
) -> (r: Task)
    ensures
        r.id == id,
        r.list_id == list_id,
        r.title@ == title@,
        r.description matches Some(d) && d@ == description@,
        r.priority == Some(priority),
        r.status@ == status@,
        r.start_at == start_at,
        r.end_at == end_at,
        r.created_at == now,
        r.updated_at == now,
        r.local_updated_at == now,
        r.deleted_at.is_none(),
        !r.is_synced,
        r.tags matches Some(v) && v@.len() == 0,
{
    Task {
        id,
        list_id,
        title: String::from_str(title),
        description: Some(String::from_str(description)),
        priority: Some(priority),
        status: String::from_str(status),
        due_at: None,
        start_at,
        end_at,
        all_day: false,
        duration_min: None,
        recurrence_rrule: None,
        estimate_pomos: None,
        tags: Some(Vec::new()),
        created_at: now,
        updated_at: now,
        deleted_at: None,
        is_synced: false,
        local_updated_at: now,
    }
}

fn seed_habit(
    id: String,
    workspace_id: String,
    now: i64,
    title: &'static str,
    schedule: Schedule,
    streak: i32,
) -> (r: Habit)
    ensures
        r.id == id,
        r.workspace_id == workspace_id,
        r.title@ == title@,
        r.streak == streak,
        r.created_at == now,
        r.updated_at == now,
        r.local_updated_at == now,
        r.deleted_at.is_none(),
        !r.is_synced,
{
    Habit {
        id,
        workspace_id,
        title: String::from_str(title),
        description: None,
        schedule,
        streak,
        created_at: now,
        updated_at: now,
        deleted_at: None,
        is_synced: false,
        local_updated_at: now,
    }
}

fn seed_session(id: String, now: i64, duration_sec: i32, is_break: bool) -> (r: FocusSession)
    ensures
        r.id == id,
        r.duration_sec == duration_sec,
        r.is_break == is_break,
        r.started_at == now,
        r.created_at == now,
        r.updated_at == now,
        r.local_updated_at == now,
        !r.is_synced,
{
    FocusSession {
        id,
        task_id: None,
        started_at: now,
        ended_at: None,
        duration_sec,
        is_break,
        created_at: now,
        updated_at: now,
        is_synced: false,
        local_updated_at: now,
    }
}

fn seed_link(task_id: String, tag_id: String, now: i64) -> (r: crate::tags::TaskTag)
    ensures
        r.task_id == task_id,
        r.tag_id == tag_id,
        r.created_at == now,
        r.local_updated_at == now,
{
    crate::tags::TaskTag { task_id, tag_id, created_at: now, local_updated_at: now }
}

/// Seeds an empty store from a supply of distinct fresh identifiers.
/// `now` stamps every row; `today` is the day number the habit-log
/// backfill counts back from, one run of consecutive days per habit,
/// as long as the habit's declared streak.
pub fn seed_with_ids(
    store: &mut Store,
    now: i64,
    today: i64,
    ids: &Vec<String>,
) -> (r: Result<(), StoreError>)
    requires
        old(store).wf(),
        store_empty(*old(store)),
        now >= old(store).clock,
        ids@.len() >= SEED_ID_COUNT,
        forall|i: int, j: int|
            0 <= i < j < ids@.len() ==> (#[trigger] ids@[i]@) != (#[trigger] ids@[j]@),
        today > i64::MIN + 32,
        i64::MIN + 604800 < now < i64::MAX - 604800,
    ensures
        final(store).wf(),
        r.is_ok(),
        seeded_store(*old(store), *final(store), now, today),
{
    let mut workspaces: Vec<crate::store::Workspace> = Vec::new();
    workspaces.push(crate::store::Workspace {
        id: ids[49].clone(),
        owner_id: String::from_str("local-user"),
        name: String::from_str("My Workspace"),
    });
    let ws = ids[49].clone();

    let mut tags: Vec<Tag> = Vec::new();
    tags.push(seed_tag(ids[0].clone(), ws.clone(), now, "uni", "#3b82f6"));
    tags.push(seed_tag(ids[1].clone(), ws.clone(), now, "work", "#f97316"));
    tags.push(seed_tag(ids[2].clone(), ws.clone(), now, "home", "#10b981"));

    let mut lists: Vec<List> = Vec::new();
    lists.push(seed_list(ids[3].clone(), now, "Inbox", "#6b7280", true, 0));
    lists.push(seed_list(ids[4].clone(), now, "Sprint", "#3b82f6", false, 1));
    lists.push(seed_list(ids[5].clone(), now, "Personal", "#10b981", false, 2));

    let inbox = ids[3].clone();
    let sprint = ids[4].clone();
    let personal = ids[5].clone();

    let mut tasks: Vec<Task> = Vec::new();
    tasks.push(seed_task(
        ids[6].clone(),
        now,
        inbox.clone(),
        "Review project proposal",
        "Need to review the Q4 project proposal and provide feedback",
        1,
        None,
        None,
        "todo",
    ));
    tasks.push(seed_task(
        ids[7].clone(),
        now,
        inbox.clone(),
        "Buy groceries",
        "Milk, bread, eggs, and vegetables",
        4,
        None,
        Some(now + 86400),
        "todo",
    ));
    tasks.push(seed_task(
        ids[8].clone(),
        now,
        inbox.clone(),
        "Call dentist",
        "Schedule annual checkup",
        3,
        None,
        Some(now + 259200),
        "todo",
    ));
    tasks.push(seed_task(
        ids[9].clone(),
        now,
        sprint.clone(),
        "Implement user authentication",
        "Add login/logout functionality with JWT tokens",
        1,
        Some(now + 86400),
        Some(now + 259200),
        "in-progress",
    ));
    tasks.push(seed_task(
        ids[10].clone(),
        now,
        sprint.clone(),
        "Write API documentation",
        "Document all endpoints with examples",
        2,
        Some(now + 172800),
        Some(now + 345600),
        "todo",
    ));
    tasks.push(seed_task(
        ids[11].clone(),
        now,
        sprint.clone(),
        "Setup CI/CD pipeline",
        "Configure GitHub Actions for automated testing and deployment",
        1,
        Some(now + 7200),
        Some(now + 21600),
        "done",
    ));
    tasks.push(seed_task(
        ids[12].clone(),
        now,
        personal.clone(),
        "Read 'Atomic Habits'",
        "Continue reading chapter 5",
        3,
        None,
        Some(now + 604800),
        "todo",
    ));
    tasks.push(seed_task(
        ids[13].clone(),
        now,
        personal.clone(),
        "Plan weekend trip",
        "Research destinations and book accommodation",
        2,
        Some(now + 432000),
        Some(now + 604800),
        "todo",
    ));
    tasks.push(seed_task(
        ids[14].clone(),
        now,
        personal.clone(),
        "Organize photos",
        "Sort and backup photos from last vacation",
        4,
        None,
        None,
        "todo",
    ));
    tasks.push(seed_task(
        ids[15].clone(),
        now,
        inbox.clone(),
        "Submit expense report",
        "Submit Q3 expense report to accounting",
        1,
        None,
        Some(now - 172800),
        "todo",
    ));
    tasks.push(seed_task(
        ids[16].clone(),
        now,
        personal.clone(),
        "Update resume",
        "Add recent projects and skills",
        2,
        None,
        Some(now - 86400),
        "done",
    ));

    let mut habit_days: Vec<u8> = Vec::new();
    habit_days.push(1);
    habit_days.push(2);
    habit_days.push(3);
    habit_days.push(4);
    habit_days.push(5);
    let mut workout_days: Vec<u8> = Vec::new();
    workout_days.push(1);
    workout_days.push(3);
    workout_days.push(5);

    let mut habits: Vec<Habit> = Vec::new();
    habits.push(seed_habit(
        ids[17].clone(),
        ws.clone(),
        now,
        "Read 20 minutes",
        Schedule::Daily { days: habit_days },
        5,
    ));
    habits.push(seed_habit(
        ids[18].clone(),
        ws.clone(),
        now,
        "Workout",
        Schedule::Weekly { days: workout_days },
        12,
    ));
    let mut arabic_days: Vec<u8> = Vec::new();
    arabic_days.push(1);
    arabic_days.push(2);
    arabic_days.push(3);
    arabic_days.push(4);
    arabic_days.push(5);
    habits.push(seed_habit(
        ids[19].clone(),
        ws.clone(),
        now,
        "Practice Arabic",
        Schedule::Daily { days: arabic_days },
        8,
    ));

    // Backfill one log per day of each habit's declared streak.
    let mut habit_logs: Vec<HabitLog> = Vec::new();
    let mut i: usize = 0;
    while i < 5
        invariant
            0 <= i <= 5,
            habits@.len() == 3,
            ids@.len() >= SEED_ID_COUNT,
            habit_logs@.len() == i,
            forall|m: int|
                0 <= m < i
                    ==> (#[trigger] habit_logs@[m]).habit_id@ == habits@[0].id@
                        && habit_logs@[m].date == today - m
                        && habit_logs@[m].value == 1
                        && habit_logs@[m].id@ == ids@[20 + m]@
                        && habit_logs@[m].created_at == now
                        && habit_logs@[m].local_updated_at == now,
        decreases 5 - i,
    {
        habit_logs.push(HabitLog {
            id: ids[20 + i].clone(),
            habit_id: habits[0].id.clone(),
            date: today - (i as i64),
            value: 1,
            created_at: now,
            updated_at: now,
            is_synced: false,
            local_updated_at: now,
        });
        i += 1;
    }
    let mut j: usize = 0;
    while j < 12
        invariant
            0 <= j <= 12,
            habits@.len() == 3,
            ids@.len() >= SEED_ID_COUNT,
            habit_logs@.len() == 5 + j,
            forall|m: int|
                0 <= m < 5
                    ==> (#[trigger] habit_logs@[m]).habit_id@ == habits@[0].id@
                        && habit_logs@[m].date == today - m
                        && habit_logs@[m].value == 1
                        && habit_logs@[m].id@ == ids@[20 + m]@
                        && habit_logs@[m].created_at == now
                        && habit_logs@[m].local_updated_at == now,
            forall|m: int|
                5 <= m < 5 + j
                    ==> (#[trigger] habit_logs@[m]).habit_id@ == habits@[1].id@
                        && habit_logs@[m].date == today - (m - 5)
                        && habit_logs@[m].value == 1
                        && habit_logs@[m].id@ == ids@[20 + m]@
                        && habit_logs@[m].created_at == now
                        && habit_logs@[m].local_updated_at == now,
        decreases 12 - j,
    {
        habit_logs.push(HabitLog {
            id: ids[25 + j].clone(),
            habit_id: habits[1].id.clone(),
            date: today - (j as i64),
            value: 1,
            created_at: now,
            updated_at: now,
            is_synced: false,
            local_updated_at: now,
        });
        j += 1;
    }
    let mut k: usize = 0;
    while k < 8
        invariant
            0 <= k <= 8,
            habits@.len() == 3,
            ids@.len() >= SEED_ID_COUNT,
            habit_logs@.len() == 17 + k,
            forall|m: int|
                0 <= m < 5
                    ==> (#[trigger] habit_logs@[m]).habit_id@ == habits@[0].id@
                        && habit_logs@[m].date == today - m
                        && habit_logs@[m].value == 1
                        && habit_logs@[m].id@ == ids@[20 + m]@
                        && habit_logs@[m].created_at == now
                        && habit_logs@[m].local_updated_at == now,
            forall|m: int|
                5 <= m < 17
                    ==> (#[trigger] habit_logs@[m]).habit_id@ == habits@[1].id@
                        && habit_logs@[m].date == today - (m - 5)
                        && habit_logs@[m].value == 1
                        && habit_logs@[m].id@ == ids@[20 + m]@
                        && habit_logs@[m].created_at == now
                        && habit_logs@[m].local_updated_at == now,
            forall|m: int|
                17 <= m < 17 + k
                    ==> (#[trigger] habit_logs@[m]).habit_id@ == habits@[2].id@
                        && habit_logs@[m].date == today - (m - 17)
                        && habit_logs@[m].value == 1
                        && habit_logs@[m].id@ == ids@[20 + m]@
                        && habit_logs@[m].created_at == now
                        && habit_logs@[m].local_updated_at == now,
        decreases 8 - k,
    {
        habit_logs.push(HabitLog {
            id: ids[37 + k].clone(),
            habit_id: habits[2].id.clone(),
            date: today - (k as i64),
            value: 1,
            created_at: now,
            updated_at: now,
            is_synced: false,
            local_updated_at: now,
        });
        k += 1;
    }

    let mut sessions: Vec<FocusSession> = Vec::new();
    sessions.push(seed_session(ids[45].clone(), now, 1500, false));
    sessions.push(seed_session(ids[46].clone(), now, 300, true));
    sessions.push(seed_session(ids[47].clone(), now, 1500, false));
    sessions.push(seed_session(ids[48].clone(), now, 900, true));

    // Link eight of the sample tasks to the seeded tags, as the join
    // table of the live data would hold them.
    let mut task_tags: Vec<crate::tags::TaskTag> = Vec::new();
    task_tags.push(seed_link(ids[6].clone(), ids[0].clone(), now));
    task_tags.push(seed_link(ids[7].clone(), ids[2].clone(), now));
    task_tags.push(seed_link(ids[9].clone(), ids[1].clone(), now));
    task_tags.push(seed_link(ids[10].clone(), ids[1].clone(), now));
    task_tags.push(seed_link(ids[11].clone(), ids[1].clone(), now));
    task_tags.push(seed_link(ids[13].clone(), ids[2].clone(), now));
    task_tags.push(seed_link(ids[14].clone(), ids[2].clone(), now));
    task_tags.push(seed_link(ids[15].clone(), ids[1].clone(), now));

    store.workspaces = workspaces;
    store.tags = tags;
    store.lists = lists;
    store.tasks = tasks;
    store.task_tags = task_tags;
    store.habits = habits;
    store.habit_logs = habit_logs;
    store.focus_sessions = sessions;
    store.clock = now;

    proof {
        assert forall|p: int, q: int| 0 <= p < q < store.task_tags@.len()
            implies !((#[trigger] store.task_tags@[p].task_id@)
                == (#[trigger] store.task_tags@[q].task_id@)
                && store.task_tags@[p].tag_id@ == store.task_tags@[q].tag_id@) by {
        }
        assert forall|p: int, q: int| 0 <= p < q < store.habit_logs@.len()
            implies !((#[trigger] store.habit_logs@[p].habit_id@)
                == (#[trigger] store.habit_logs@[q].habit_id@)
                && store.habit_logs@[p].date == store.habit_logs@[q].date) by {
            if p < 5 && q < 5 {
            } else if 5 <= p < 17 && 5 <= q < 17 {
            } else if 17 <= p && 17 <= q {
            } else {
                if p < 5 && 5 <= q < 17 {
                    assert(store.habit_logs@[p].habit_id@ == store.habits@[0].id@);
                    assert(store.habit_logs@[q].habit_id@ == store.habits@[1].id@);
                    assert(ids@[17]@ != ids@[18]@);
                } else if p < 5 {
                    assert(ids@[17]@ != ids@[19]@);
                } else {
                    assert(ids@[18]@ != ids@[19]@);
                }
            }
        }
        assert forall|p: int, q: int| 0 <= p < q < store.habit_logs@.len()
            implies (#[trigger] store.habit_logs@[p].id@)
                != (#[trigger] store.habit_logs@[q].id@) by {
            assert(store.habit_logs@[p].id@ == ids@[20 + p]@);
            assert(store.habit_logs@[q].id@ == ids@[20 + q]@);
        }
    }
    Ok(())
}

/// Seeds an empty store with fresh random identifiers.  The generator
/// is outside the proofs, so the (practically impossible) case of a
/// collision among the drawn identifiers is surfaced as an error and
/// leaves the store untouched.
pub fn seed_database(store: &mut Store, now: i64, today: i64) -> (r: Result<(), StoreError>)
    requires
        old(store).wf(),
        store_empty(*old(store)),
        now >= old(store).clock,
        today > i64::MIN + 32,
        i64::MIN + 604800 < now < i64::MAX - 604800,
    ensures
        final(store).wf(),
        match r {
            Ok(u) => seeded_store(*old(store), *final(store), now, today),
            Err(e) => e == StoreError::Constraint && *final(store) == *old(store),
        },
{
    let mut ids: Vec<String> = Vec::new();
    let mut i: usize = 0;
    while i < SEED_ID_COUNT
        invariant
            0 <= i <= SEED_ID_COUNT,
            ids@.len() == i,
        decreases SEED_ID_COUNT - i,
    {
        ids.push(generate_id());
        i += 1;
    }
    // The ids are random: check they are pairwise distinct before
    // seeding rests on it.
    let mut p: usize = 0;
    while p < SEED_ID_COUNT
        invariant
            0 <= p <= SEED_ID_COUNT,
            ids@.len() == SEED_ID_COUNT,
            *store == *old(store),
            forall|a: int, b: int|
                0 <= a < b < ids@.len() && a < p ==> (#[trigger] ids@[a]@) != (#[trigger] ids@[b]@),
        decreases SEED_ID_COUNT - p,
    {
        let mut q: usize = p + 1;
        while q < SEED_ID_COUNT
            invariant
                0 <= p < q <= SEED_ID_COUNT,
                ids@.len() == SEED_ID_COUNT,
                *store == *old(store),
                forall|b: int| p < b < q ==> (#[trigger] ids@[b]@) != ids@[p as int]@,
            decreases SEED_ID_COUNT - q,
        {
            if ids[p] == ids[q] {
                return Err(StoreError::Constraint);
            }
            q += 1;
        }
        p += 1;
    }
    seed_with_ids(store, now, today, &ids)
}

} // verus!
