//! Habits, their daily logs, and the streak: the length of the
//! unbroken run of days with a positive log, counted backward from the
//! most recent such day.

#![verifier::loop_isolation(false)]

use vstd::prelude::*;
use vstd::multiset::Multiset;

use crate::store::{Store, StoreError, clone_opt_string};

verus! {

/// When a habit is due: every day, or on given weekdays.
#[derive(Debug)]
pub enum Schedule {
    Daily { days: Vec<u8> },
    Weekly { days: Vec<u8> },
}

#[derive(Debug)]
pub struct Habit {
    pub id: String,
    pub workspace_id: String,
    pub title: String,
    pub description: Option<String>,
    pub schedule: Schedule,
    pub streak: i32,
    pub created_at: i64,
    pub updated_at: i64,
    pub deleted_at: Option<i64>,
    pub is_synced: bool,
    pub local_updated_at: i64,
}

/// One day's log for a habit.  `date` is a day number; a positive
/// `value` counts toward the streak.
#[derive(Debug)]
pub struct HabitLog {
    pub id: String,
    pub habit_id: String,
    pub date: i64,
    pub value: i32,
    pub created_at: i64,
    pub updated_at: i64,
    pub is_synced: bool,
    pub local_updated_at: i64,
}

/// Aggregates over the live habits, saturating into i64.
#[derive(Debug)]
pub struct HabitStats {
    pub total_habits: i64,
    pub active_streaks: i64,
    pub total_logs_today: i64,
}

fn clone_u8_vec(v: &Vec<u8>) -> (r: Vec<u8>)
    ensures
        r@ == v@,
{
    let mut r: Vec<u8> = Vec::new();
    let n = v.len();
    let mut i: usize = 0;
    while i < n
        invariant
            0 <= i <= n,
            n == v@.len(),
            r@ =~= v@.take(i as int),
        decreases n - i,
    {
        r.push(v[i]);
        proof {
            assert(r@ =~= v@.take(i as int + 1));
        }
        i += 1;
    }
    proof {
        assert(v@.take(n as int) =~= v@);
    }
    r
}

/// Two schedules hold the same values; the day vectors are compared
/// by their contents.
pub open spec fn same_schedule(a: Schedule, b: Schedule) -> bool {
    match (a, b) {
        (Schedule::Daily { days: x }, Schedule::Daily { days: y }) => x@ == y@,
        (Schedule::Weekly { days: x }, Schedule::Weekly { days: y }) => x@ == y@,
        _ => false,
    }
}

/// Two habits hold the same values.
pub open spec fn same_habit(a: Habit, b: Habit) -> bool {
    &&& a.id == b.id
    &&& a.workspace_id == b.workspace_id
    &&& a.title == b.title
    &&& a.description == b.description
    &&& same_schedule(a.schedule, b.schedule)
    &&& a.streak == b.streak
    &&& a.created_at == b.created_at
    &&& a.updated_at == b.updated_at
    &&& a.deleted_at == b.deleted_at
    &&& a.is_synced == b.is_synced
    &&& a.local_updated_at == b.local_updated_at
}

impl Schedule {
    /// A value-for-value copy.
    pub fn duplicate(&self) -> (r: Schedule)
        ensures
            same_schedule(r, *self),
    {
        match self {
            Schedule::Daily { days } => Schedule::Daily { days: clone_u8_vec(days) },
            Schedule::Weekly { days } => Schedule::Weekly { days: clone_u8_vec(days) },
        }
    }
}

impl Habit {
    /// A value-for-value copy.
    pub fn duplicate(&self) -> (r: Habit)
        ensures
            same_habit(r, *self),
    {
        Habit {
            id: self.id.clone(),
            workspace_id: self.workspace_id.clone(),
            title: self.title.clone(),
            description: clone_opt_string(&self.description),
            schedule: self.schedule.duplicate(),
            streak: self.streak,
            created_at: self.created_at,
            updated_at: self.updated_at,
            deleted_at: self.deleted_at,
            is_synced: self.is_synced,
            local_updated_at: self.local_updated_at,
        }
    }
}

impl HabitLog {
    /// A value-for-value copy.
    pub fn duplicate(&self) -> (r: HabitLog)
        ensures
            r == *self,
    {
        HabitLog {
            id: self.id.clone(),
            habit_id: self.habit_id.clone(),
            date: self.date,
            value: self.value,
            created_at: self.created_at,
            updated_at: self.updated_at,
            is_synced: self.is_synced,
            local_updated_at: self.local_updated_at,
        }
    }
}

pub open spec fn habits_wf(s: Seq<Habit>, clock: int) -> bool {
    &&& forall|i: int, j: int|
        0 <= i < j < s.len() ==> (#[trigger] s[i].id@) != (#[trigger] s[j].id@)
    &&& forall|i: int|
        0 <= i < s.len()
            ==> (#[trigger] s[i]).created_at <= s[i].local_updated_at <= clock
}

/// Logs have unique ids, and one log per habit and day.
pub open spec fn habit_logs_wf(s: Seq<HabitLog>, clock: int) -> bool {
    &&& forall|i: int, j: int|
        0 <= i < j < s.len() ==> (#[trigger] s[i].id@) != (#[trigger] s[j].id@)
    &&& forall|i: int, j: int|
        0 <= i < j < s.len()
            ==> !((#[trigger] s[i].habit_id@) == (#[trigger] s[j].habit_id@)
                && s[i].date == s[j].date)
    &&& forall|i: int|
        0 <= i < s.len()
            ==> (#[trigger] s[i]).created_at <= s[i].local_updated_at <= clock
}

pub open spec fn has_habit_id(s: Seq<Habit>, id: Seq<char>) -> bool {
    exists|i: int| 0 <= i < s.len() && (#[trigger] s[i].id@) == id
}

pub open spec fn has_log_id(s: Seq<HabitLog>, id: Seq<char>) -> bool {
    exists|i: int| 0 <= i < s.len() && (#[trigger] s[i].id@) == id
}

/// Some log already covers this habit and day.
pub open spec fn has_log_for_day(s: Seq<HabitLog>, habit: Seq<char>, day: i64) -> bool {
    exists|i: int|
        0 <= i < s.len() && (#[trigger] s[i].habit_id@) == habit && s[i].date == day
}

/// A positive-valued log of this habit on this day exists.
pub open spec fn has_pos_log(logs: Seq<HabitLog>, habit: Seq<char>, day: int) -> bool {
    exists|i: int|
        0 <= i < logs.len() && (#[trigger] logs[i]).habit_id@ == habit && logs[i].date == day
            && logs[i].value > 0
}

/// The habit has no positive-valued log at all.
pub open spec fn no_pos_logs(logs: Seq<HabitLog>, habit: Seq<char>) -> bool {
    forall|i: int|
        0 <= i < logs.len()
            ==> !((#[trigger] logs[i]).habit_id@ == habit && logs[i].value > 0)
}

/// `d0` is the most recent day with a positive log of this habit.
pub open spec fn latest_pos_day(logs: Seq<HabitLog>, habit: Seq<char>, d0: int) -> bool {
    &&& has_pos_log(logs, habit, d0)
    &&& forall|i: int|
        0 <= i < logs.len() && (#[trigger] logs[i]).habit_id@ == habit && logs[i].value > 0
            ==> logs[i].date <= d0
}

/// `r` is the streak: the maximal count of consecutive days with a
/// positive log, ending at the most recent logged day; zero when the
/// habit has no positive log.
pub open spec fn is_streak_of(logs: Seq<HabitLog>, habit: Seq<char>, r: int) -> bool {
    if no_pos_logs(logs, habit) {
        r == 0
    } else {
        exists|d0: int|
            {
                &&& #[trigger] latest_pos_day(logs, habit, d0)
                &&& r >= 1
                &&& forall|d: int| d0 - r < d <= d0 ==> #[trigger] has_pos_log(logs, habit, d)
                &&& !has_pos_log(logs, habit, d0 - r)
            }
    }
}

/// Everything but habits (and the clock) is untouched.
pub open spec fn only_habits_changed(pre: Store, post: Store) -> bool {
    &&& post.workspaces@ == pre.workspaces@
    &&& post.lists@ == pre.lists@
    &&& post.tasks@ == pre.tasks@
    &&& post.tags@ == pre.tags@
    &&& post.task_tags@ == pre.task_tags@
    &&& post.comments@ == pre.comments@
    &&& post.attachments@ == pre.attachments@
    &&& post.habit_logs@ == pre.habit_logs@
    &&& post.focus_sessions@ == pre.focus_sessions@
    &&& post.time_blocks@ == pre.time_blocks@
}

/// Everything but habits and their logs (and the clock) is untouched.
pub open spec fn only_habits_and_logs_changed(pre: Store, post: Store) -> bool {
    &&& post.workspaces@ == pre.workspaces@
    &&& post.lists@ == pre.lists@
    &&& post.tasks@ == pre.tasks@
    &&& post.tags@ == pre.tags@
    &&& post.task_tags@ == pre.task_tags@
    &&& post.comments@ == pre.comments@
    &&& post.attachments@ == pre.attachments@
    &&& post.focus_sessions@ == pre.focus_sessions@
    &&& post.time_blocks@ == pre.time_blocks@
}

/// `v` is the streak of this habit, held inside the i32 range.
pub open spec fn stored_streak(v: int, logs: Seq<HabitLog>, habit: Seq<char>) -> bool {
    exists|run: int|
        #[trigger] is_streak_of(logs, habit, run) && v == if run > i32::MAX as int {
            i32::MAX as int
        } else {
            run
        }
}

/// Computes the streak of one habit from the logs.
pub fn current_streak(logs: &Vec<HabitLog>, habit_id: &String) -> (r: usize)
    requires
        forall|i: int, j: int|
            0 <= i < j < logs@.len()
                ==> !((#[trigger] logs@[i].habit_id@) == (#[trigger] logs@[j].habit_id@)
                    && logs@[i].date == logs@[j].date),
    ensures
        is_streak_of(logs@, habit_id@, r as int),
{
    broadcast use vstd::seq_lib::group_to_multiset_ensures;
    broadcast use vstd::multiset::group_multiset_axioms;

    // Collect the days that have a positive log of this habit,
    // remembering which log witnessed each day.
    let n = logs.len();
    let mut dates: Vec<i64> = Vec::new();
    let ghost mut widx: Seq<int> = Seq::empty();
    let mut i: usize = 0;
    while i < n
        invariant
            0 <= i <= n,
            n == logs@.len(),
            forall|i2: int, j2: int|
                0 <= i2 < j2 < logs@.len()
                    ==> !((#[trigger] logs@[i2].habit_id@) == (#[trigger] logs@[j2].habit_id@)
                        && logs@[i2].date == logs@[j2].date),
            widx.len() == dates@.len(),
            forall|p: int|
                0 <= p < dates@.len()
                    ==> 0 <= (#[trigger] widx[p]) < i
                        && logs@[widx[p]].habit_id@ == habit_id@
                        && logs@[widx[p]].value > 0
                        && logs@[widx[p]].date == dates@[p],
            forall|j: int|
                0 <= j < i && (#[trigger] logs@[j]).habit_id@ == habit_id@ && logs@[j].value > 0
                    ==> dates@.contains(logs@[j].date),
            forall|p: int, q: int|
                0 <= p < q < dates@.len() ==> (#[trigger] dates@[p]) != (#[trigger] dates@[q]),
        decreases n - i,
    {
        let ghost dates_pre = dates@;
        let matched = logs[i].habit_id == *habit_id && logs[i].value > 0;
        if matched {
            dates.push(logs[i].date);
            proof {
                widx = widx.push(i as int);
                assert forall|p: int, q: int| 0 <= p < q < dates@.len()
                    implies (#[trigger] dates@[p]) != (#[trigger] dates@[q]) by {
                    if q == dates@.len() - 1 {
                        assert(dates@[p] == dates_pre[p]);
                        let j = widx[p];
                        assert(!(logs@[j].habit_id@ == logs@[i as int].habit_id@
                            && logs@[j].date == logs@[i as int].date));
                    } else {
                        assert(dates@[p] == dates_pre[p]);
                        assert(dates@[q] == dates_pre[q]);
                    }
                }
                assert forall|j: int|
                    0 <= j < i + 1 && (#[trigger] logs@[j]).habit_id@ == habit_id@
                        && logs@[j].value > 0
                    implies dates@.contains(logs@[j].date) by {
                    if j < i as int {
                        assert(dates_pre.contains(logs@[j].date));
                        let p = choose|p: int|
                            0 <= p < dates_pre.len() && dates_pre[p] == logs@[j].date;
                        assert(dates@[p] == logs@[j].date);
                    } else {
                        assert(dates@[dates@.len() - 1] == logs@[j].date);
                    }
                }
            }
        }
        i += 1;
    }
    if dates.len() == 0 {
        proof {
            assert forall|j: int| 0 <= j < logs@.len()
                implies !((#[trigger] logs@[j]).habit_id@ == habit_id@ && logs@[j].value > 0) by {
                if logs@[j].habit_id@ == habit_id@ && logs@[j].value > 0 {
                    assert(dates@.contains(logs@[j].date));
                }
            }
        }
        return 0;
    }
    // Sort the days, most recent first.
    let ghost dates_seq = dates@;
    let mut src = dates;
    let mut sorted: Vec<i64> = Vec::new();
    proof {
        assert(sorted@.to_multiset().add(src@.to_multiset()) =~= dates_seq.to_multiset());
    }
    while src.len() > 0
        invariant
            sorted@.to_multiset().add(src@.to_multiset()) == dates_seq.to_multiset(),
            forall|p: int, q: int|
                0 <= p < q < sorted@.len() ==> (#[trigger] sorted@[p]) >= (#[trigger] sorted@[q]),
            forall|p: int, q: int|
                0 <= p < sorted@.len() && 0 <= q < src@.len()
                    ==> (#[trigger] sorted@[p]) >= (#[trigger] src@[q]),
        decreases src.len(),
    {
        let mut m: usize = 0;
        let mut k: usize = 1;
        while k < src.len()
            invariant
                src@.len() > 0,
                0 <= m < k <= src@.len(),
                forall|j: int| 0 <= j < k ==> (#[trigger] src@[j]) <= src@[m as int],
            decreases src.len() - k,
        {
            if src[k] > src[m] {
                m = k;
            }
            k += 1;
        }
        let ghost pre = src@;
        let picked = src.remove(m);
        let ghost sorted_pre = sorted@;
        sorted.push(picked);
        proof {
            assert(pre.contains(picked));
            pre.to_multiset_ensures();
            assert(pre.to_multiset().count(picked) > 0);
            assert(src@ == pre.remove(m as int));
            vstd::seq_lib::to_multiset_remove(pre, m as int);
            vstd::seq_lib::to_multiset_build(sorted_pre, picked);
            assert(sorted@.to_multiset().add(src@.to_multiset()) =~= dates_seq.to_multiset());
            assert forall|q: int| 0 <= q < src@.len()
                implies picked >= (#[trigger] src@[q]) by {
                if q < m as int {
                    assert(src@[q] == pre[q]);
                } else {
                    assert(src@[q] == pre[q + 1]);
                }
            }
        }
    }
    proof {
        assert(src@.to_multiset() =~= Multiset::empty());
        assert(sorted@.to_multiset() =~= dates_seq.to_multiset());
        sorted@.to_multiset_ensures();
        dates_seq.to_multiset_ensures();
        // Same days, still distinct, now ordered.
        assert forall|d: i64| dates_seq.contains(d) implies sorted@.contains(d) by {
            assert(dates_seq.to_multiset().count(d) > 0);
            assert(sorted@.to_multiset().count(d) > 0);
        }
        assert forall|d: i64| sorted@.contains(d) implies dates_seq.contains(d) by {
            assert(sorted@.to_multiset().count(d) > 0);
            assert(dates_seq.to_multiset().count(d) > 0);
        }
        dates_seq.lemma_multiset_has_no_duplicates();
        sorted@.lemma_multiset_has_no_duplicates_conv();
    }
    let d0 = sorted[0];
    let mut run: usize = 1;
    while run < sorted.len() && (sorted[run] as i128) == (d0 as i128) - (run as i128)
        invariant
            1 <= run <= sorted@.len(),
            sorted@.len() > 0,
            d0 == sorted@[0],
            forall|m2: int| 0 <= m2 < run ==> (#[trigger] sorted@[m2]) == d0 - m2,
        decreases sorted@.len() - run,
    {
        run += 1;
    }
    proof {
        let habit = habit_id@;
        let s = sorted@;
        let r = run as int;
        // d0 is the most recent positive day.
        assert(s.contains(s[0]));
        assert(dates_seq.contains(s[0]));
        assert(has_pos_log(logs@, habit, d0 as int)) by {
            let p = choose|p: int| 0 <= p < dates_seq.len() && dates_seq[p] == s[0];
            let j = widx[p];
            assert(logs@[j].habit_id@ == habit && logs@[j].value > 0);
            assert(logs@[j].date == d0);
        }
        assert(!no_pos_logs(logs@, habit)) by {
            let j = choose|j: int|
                0 <= j < logs@.len() && (#[trigger] logs@[j]).habit_id@ == habit
                    && logs@[j].date == d0 as int && logs@[j].value > 0;
            assert(logs@[j].habit_id@ == habit && logs@[j].value > 0);
        }
        assert(latest_pos_day(logs@, habit, d0 as int)) by {
            assert forall|i2: int|
                0 <= i2 < logs@.len() && (#[trigger] logs@[i2]).habit_id@ == habit
                    && logs@[i2].value > 0
                implies logs@[i2].date <= d0 as int by {
                assert(dates_seq.contains(logs@[i2].date));
                assert(s.contains(logs@[i2].date));
                let p = choose|p: int| 0 <= p < s.len() && s[p] == logs@[i2].date;
                if p > 0 {
                    assert(s[0] >= s[p]);
                }
            }
        }
        // Every day of the run has a positive log.
        assert forall|d: int| d0 - r < d <= d0 implies has_pos_log(logs@, habit, d) by {
            let k2 = d0 - d;
            assert(0 <= k2 < r);
            assert(s[k2] == d0 - k2);
            assert(s.contains(s[k2]));
            assert(dates_seq.contains(s[k2]));
            let p = choose|p: int| 0 <= p < dates_seq.len() && dates_seq[p] == s[k2];
            let j = widx[p];
            assert(logs@[j].habit_id@ == habit && logs@[j].value > 0);
            assert(logs@[j].date == d);
        }
        // And the day before the run has none.
        assert(!has_pos_log(logs@, habit, d0 - r)) by {
            if has_pos_log(logs@, habit, d0 - r) {
                let j = choose|j: int|
                    0 <= j < logs@.len() && (#[trigger] logs@[j]).habit_id@ == habit
                        && logs@[j].date == d0 - r && logs@[j].value > 0;
                assert(dates_seq.contains(logs@[j].date));
                assert(s.contains(logs@[j].date));
                let p = choose|p: int| 0 <= p < s.len() && s[p] == d0 - r;
                if p < r {
                    assert(s[p] == d0 - p);
                } else {
                    assert(r < s.len());
                    assert(s[r] != d0 - r);
                    assert(s[r - 1] == d0 - (r - 1));
                    if p == r {
                    } else {
                        assert(s[r] >= s[p]);
                        assert(s[r - 1] >= s[r]);
                        assert(s[r - 1] != s[r]);
                        assert(s[r] < d0 - (r - 1));
                    }
                    assert(s[r] >= s[p]) by {
                        if p > r {
                            assert(s[r] >= s[p]);
                        }
                    }
                    assert(s[r - 1] >= s[r] && s[r - 1] != s[r]);
                    assert(s[r] < d0 - (r - 1));
                    assert(s[p] <= s[r]);
                    assert(s[p] < d0 - r + 1);
                    assert(s[p] != d0 - r);
                }
            }
        }
        assert(is_streak_of(logs@, habit, r));
    }
    run
}

/// Recomputes and stores one habit's streak from the logs.  The
/// recomputation is local bookkeeping: it stamps the habit's
/// timestamps but deliberately leaves `is_synced` as it was.  Returns
/// whether the habit exists.
pub fn update_habit_streak(store: &mut Store, habit_id: &String, now: i64) -> (r: bool)
    requires
        old(store).wf(),
        now >= old(store).clock,
    ensures
        final(store).wf(),
        only_habits_changed(*old(store), *final(store)),
        r == has_habit_id(old(store).habits@, habit_id@),
        r ==> exists|i: int|
            {
                &&& 0 <= i < old(store).habits@.len()
                &&& (#[trigger] old(store).habits@[i].id@) == habit_id@
                &&& final(store).habits@ == old(store).habits@.update(i, Habit {
                    streak: final(store).habits@[i].streak,
                    updated_at: now,
                    local_updated_at: now,
                    ..old(store).habits@[i]
                })
                &&& stored_streak(
                    final(store).habits@[i].streak as int,
                    old(store).habit_logs@,
                    habit_id@,
                )
                &&& final(store).clock == now
            },
        !r ==> *final(store) == *old(store),
{
    let n = store.habits.len();
    let mut i: usize = 0;
    while i < n
        invariant
            0 <= i <= n,
            n == store.habits@.len(),
            *store == *old(store),
            forall|j: int| 0 <= j < i ==> (#[trigger] store.habits@[j].id@) != habit_id@,
        decreases n - i,
    {
        if store.habits[i].id == *habit_id {
            let run = current_streak(&store.habit_logs, habit_id);
            let streak: i32 = if run > i32::MAX as usize {
                i32::MAX
            } else {
                run as i32
            };
            let mut habit = store.habits.remove(i);
            habit.streak = streak;
            habit.updated_at = now;
            habit.local_updated_at = now;
            store.habits.insert(i, habit);
            store.clock = now;
            proof {
                assert(store.habits@ =~= old(store).habits@.update(
                    i as int,
                    store.habits@[i as int],
                ));
                assert(stored_streak(streak as int, old(store).habit_logs@, habit_id@));
                assert forall|p: int, q: int| 0 <= p < q < store.habits@.len()
                    implies (#[trigger] store.habits@[p].id@)
                        != (#[trigger] store.habits@[q].id@) by {
                    assert(store.habits@[p].id@ == old(store).habits@[p].id@);
                    assert(store.habits@[q].id@ == old(store).habits@[q].id@);
                }
            }
            return true;
        }
        i += 1;
    }
    false
}

/// Creates a habit in the single local workspace, with no streak yet,
/// stamped dirty.
pub fn habits_create(
    store: &mut Store,
    id: String,
    now: i64,
    title: String,
    description: Option<String>,
    schedule: Schedule,
) -> (r: Result<Habit, StoreError>)
    requires
        old(store).wf(),
        now >= old(store).clock,
    ensures
        final(store).wf(),
        only_habits_changed(*old(store), *final(store)),
        match r {
            Ok(h) => {
                &&& !has_habit_id(old(store).habits@, h.id@)
                &&& final(store).habits@.len() == old(store).habits@.len() + 1
                &&& final(store).habits@.take(old(store).habits@.len() as int)
                    == old(store).habits@
                &&& same_habit(h, final(store).habits@.last())
                &&& final(store).clock == now
                &&& h.id@ == id@
                &&& h.workspace_id@ == "local-workspace"@
                &&& h.title == title
                &&& h.description == description
                &&& same_schedule(h.schedule, schedule)
                &&& h.streak == 0
                &&& h.created_at == now
                &&& h.updated_at == now
                &&& h.local_updated_at == now
                &&& h.deleted_at.is_none()
                &&& !h.is_synced
            },
            Err(e) => {
                &&& e == StoreError::Constraint
                &&& has_habit_id(old(store).habits@, id@)
                &&& *final(store) == *old(store)
            },
        },
{
    let n = store.habits.len();
    let mut i: usize = 0;
    while i < n
        invariant
            0 <= i <= n,
            n == store.habits@.len(),
            *store == *old(store),
            forall|j: int| 0 <= j < i ==> (#[trigger] store.habits@[j].id@) != id@,
        decreases n - i,
    {
        if store.habits[i].id == id {
            return Err(StoreError::Constraint);
        }
        i += 1;
    }
    let habit = Habit {
        id,
        workspace_id: String::from_str("local-workspace"),
        title,
        description,
        schedule,
        streak: 0,
        created_at: now,
        updated_at: now,
        deleted_at: None,
        is_synced: false,
        local_updated_at: now,
    };
    let result = habit.duplicate();
    store.habits.push(habit);
    store.clock = now;
    proof {
        assert(store.habits@.take(old(store).habits@.len() as int) =~= old(store).habits@);
        assert forall|p: int, q: int| 0 <= p < q < store.habits@.len()
            implies (#[trigger] store.habits@[p].id@) != (#[trigger] store.habits@[q].id@) by {
            if q < store.habits@.len() - 1 {
                assert(store.habits@[p] == old(store).habits@[p]);
                assert(store.habits@[q] == old(store).habits@[q]);
            } else {
                assert(store.habits@[p] == old(store).habits@[p]);
            }
        }
    }
    Ok(result)
}

/// `h` holds the same values as some element of `s`.
pub open spec fn habit_in(h: Habit, s: Seq<Habit>) -> bool {
    exists|j: int| 0 <= j < s.len() && same_habit(h, #[trigger] s[j])
}

/// Habits are listed in title order.
pub open spec fn habits_sorted_by_title(s: Seq<Habit>) -> bool {
    forall|i: int, j: int|
        0 <= i < j < s.len()
            ==> crate::order::lex_le(#[trigger] s[i].title@, #[trigger] s[j].title@)
}

/// All live habits, in ascending title order: the result and the live
/// habits hold the same values, element for element.
pub fn habits_list(store: &Store) -> (r: Vec<Habit>)
    requires
        store.wf(),
    ensures
        r@.len() == store.habits@.filter(|h: Habit| h.deleted_at.is_none()).len(),
        forall|i: int|
            0 <= i < r@.len()
                ==> habit_in(
                    #[trigger] r@[i],
                    store.habits@.filter(|h: Habit| h.deleted_at.is_none()),
                ),
        forall|j: int|
            0 <= j < store.habits@.len() && (#[trigger] store.habits@[j]).deleted_at.is_none()
                ==> habit_in(store.habits@[j], r@),
        habits_sorted_by_title(r@),
{
    broadcast use vstd::seq_lib::group_to_multiset_ensures;
    broadcast use vstd::multiset::group_multiset_axioms;

    let ghost live = |h: Habit| h.deleted_at.is_none();
    let mut r: Vec<Habit> = Vec::new();
    let n = store.habits.len();
    let mut i: usize = 0;
    proof {
        assert(store.habits@.take(0).filter(live) =~= Seq::<Habit>::empty());
    }
    while i < n
        invariant
            0 <= i <= n,
            n == store.habits@.len(),
            r@.len() == store.habits@.take(i as int).filter(live).len(),
            forall|j: int|
                0 <= j < r@.len()
                    ==> same_habit(#[trigger] r@[j], store.habits@.take(i as int).filter(live)[j]),
            live == (|h: Habit| h.deleted_at.is_none()),
        decreases n - i,
    {
        if store.habits[i].deleted_at.is_none() {
            r.push(store.habits[i].duplicate());
        }
        proof {
            reveal(Seq::filter);
            let k = i as int;
            assert(store.habits@.take(k + 1).drop_last() =~= store.habits@.take(k));
            assert(store.habits@.take(k + 1).last() == store.habits@[k]);
            if live(store.habits@[k]) {
                assert(store.habits@.take(k + 1).filter(live)
                    == store.habits@.take(k).filter(live).push(store.habits@[k]));
                assert(same_habit(r@.last(), store.habits@[k]));
            } else {
                assert(store.habits@.take(k + 1).filter(live)
                    == store.habits@.take(k).filter(live));
            }
        }
        i += 1;
    }
    proof {
        assert(store.habits@.take(n as int) =~= store.habits@);
    }
    // Order the copies by title.
    let ghost flt = store.habits@.filter(|h: Habit| h.deleted_at.is_none());
    let ghost fwd_seq = r@;
    let mut src = r;
    let mut out: Vec<Habit> = Vec::new();
    proof {
        assert(out@.to_multiset().add(src@.to_multiset()) =~= fwd_seq.to_multiset());
    }
    while src.len() > 0
        invariant
            out@.to_multiset().add(src@.to_multiset()) == fwd_seq.to_multiset(),
            out@.len() + src@.len() == fwd_seq.len(),
            habits_sorted_by_title(out@),
            forall|i: int, j: int|
                0 <= i < out@.len() && 0 <= j < src@.len()
                    ==> crate::order::lex_le(
                        #[trigger] out@[i].title@,
                        #[trigger] src@[j].title@,
                    ),
        decreases src.len(),
    {
        let mut m: usize = 0;
        let mut k: usize = 1;
        proof {
            crate::order::lemma_lex_le_refl(src@[0].title@);
        }
        while k < src.len()
            invariant
                src@.len() > 0,
                0 <= m < k <= src@.len(),
                forall|j: int|
                    0 <= j < k
                        ==> crate::order::lex_le(
                            src@[m as int].title@,
                            #[trigger] src@[j].title@,
                        ),
            decreases src.len() - k,
        {
            if crate::order::str_le(src[k].title.as_str(), src[m].title.as_str()) {
                proof {
                    assert forall|j: int| 0 <= j < k
                        implies crate::order::lex_le(
                            src@[k as int].title@,
                            #[trigger] src@[j].title@,
                        ) by {
                        crate::order::lemma_lex_le_trans(
                            src@[k as int].title@,
                            src@[m as int].title@,
                            src@[j].title@,
                        );
                    }
                    crate::order::lemma_lex_le_refl(src@[k as int].title@);
                }
                m = k;
            } else {
                proof {
                    crate::order::lemma_lex_le_total(
                        src@[k as int].title@,
                        src@[m as int].title@,
                    );
                }
            }
            k += 1;
        }
        let ghost pre = src@;
        let picked = src.remove(m);
        let ghost out_pre = out@;
        out.push(picked);
        proof {
            assert(pre.contains(picked));
            pre.to_multiset_ensures();
            assert(pre.to_multiset().count(picked) > 0);
            assert(src@ == pre.remove(m as int));
            vstd::seq_lib::to_multiset_remove(pre, m as int);
            vstd::seq_lib::to_multiset_build(out_pre, picked);
            assert(out@.to_multiset().add(src@.to_multiset()) =~= fwd_seq.to_multiset());
            assert forall|j: int| 0 <= j < src@.len()
                implies crate::order::lex_le(
                    picked.title@,
                    #[trigger] src@[j].title@,
                ) by {
                if j < m as int {
                    assert(src@[j] == pre[j]);
                } else {
                    assert(src@[j] == pre[j + 1]);
                }
            }
        }
    }
    proof {
        assert(src@.to_multiset() =~= vstd::multiset::Multiset::empty());
        assert(out@.to_multiset() =~= fwd_seq.to_multiset());
        out@.to_multiset_ensures();
        fwd_seq.to_multiset_ensures();
        assert forall|i: int| 0 <= i < out@.len()
            implies habit_in(#[trigger] out@[i], flt) by {
            assert(out@.contains(out@[i]));
            assert(out@.to_multiset().count(out@[i]) > 0);
            assert(fwd_seq.to_multiset().count(out@[i]) > 0);
            assert(fwd_seq.contains(out@[i]));
            let k = choose|k: int| 0 <= k < fwd_seq.len() && fwd_seq[k] == out@[i];
            assert(same_habit(fwd_seq[k], flt[k]));
            assert(same_habit(out@[i], flt[k]));
        }
        assert forall|j: int|
            0 <= j < store.habits@.len() && (#[trigger] store.habits@[j]).deleted_at.is_none()
            implies habit_in(store.habits@[j], out@) by {
            store.habits@.lemma_filter_contains(|h: Habit| h.deleted_at.is_none(), j);
            assert(flt.contains(store.habits@[j]));
            let p = choose|p: int| 0 <= p < flt.len() && flt[p] == store.habits@[j];
            assert(fwd_seq.contains(fwd_seq[p]));
            assert(fwd_seq.to_multiset().count(fwd_seq[p]) > 0);
            assert(out@.to_multiset().count(fwd_seq[p]) > 0);
            assert(out@.contains(fwd_seq[p]));
            let i = choose|i: int| 0 <= i < out@.len() && out@[i] == fwd_seq[p];
            assert(same_habit(fwd_seq[p], flt[p]));
            assert(same_habit(flt[p], out@[i]));
            assert(same_habit(store.habits@[j], out@[i]));
        }
    }
    out
}

/// Updates a habit's title, description or schedule; absent parameters
/// leave the fields unchanged.  Stamps the habit dirty.
pub fn habits_update(
    store: &mut Store,
    id: &String,
    title: Option<String>,
    description: Option<String>,
    schedule: Option<Schedule>,
    now: i64,
) -> (r: Result<Habit, StoreError>)
    requires
        old(store).wf(),
        now >= old(store).clock,
    ensures
        final(store).wf(),
        only_habits_changed(*old(store), *final(store)),
        match r {
            Ok(h) => exists|i: int|
                {
                    &&& 0 <= i < old(store).habits@.len()
                    &&& (#[trigger] old(store).habits@[i].id@) == id@
                    &&& final(store).clock == now
                    &&& same_habit(h, final(store).habits@[i])
                    &&& final(store).habits@ == old(store).habits@.update(i, Habit {
                        title: match title {
                            Some(v) => v,
                            None => old(store).habits@[i].title,
                        },
                        description: match description {
                            Some(v) => Some(v),
                            None => old(store).habits@[i].description,
                        },
                        schedule: match schedule {
                            Some(v) => v,
                            None => old(store).habits@[i].schedule,
                        },
                        updated_at: now,
                        local_updated_at: now,
                        is_synced: false,
                        ..old(store).habits@[i]
                    })
                },
            Err(e) => {
                &&& e == StoreError::NotFound
                &&& !has_habit_id(old(store).habits@, id@)
                &&& *final(store) == *old(store)
            },
        },
{
    let n = store.habits.len();
    let mut i: usize = 0;
    while i < n
        invariant
            0 <= i <= n,
            n == store.habits@.len(),
            *store == *old(store),
            forall|j: int| 0 <= j < i ==> (#[trigger] store.habits@[j].id@) != id@,
        decreases n - i,
    {
        if store.habits[i].id == *id {
            let mut habit = store.habits.remove(i);
            if let Some(v) = title {
                habit.title = v;
            }
            if let Some(v) = description {
                habit.description = Some(v);
            }
            if let Some(v) = schedule {
                habit.schedule = v;
            }
            habit.updated_at = now;
            habit.local_updated_at = now;
            habit.is_synced = false;
            let result = habit.duplicate();
            store.habits.insert(i, habit);
            store.clock = now;
            proof {
                assert(store.habits@ =~= old(store).habits@.update(
                    i as int,
                    store.habits@[i as int],
                ));
                assert forall|p: int, q: int| 0 <= p < q < store.habits@.len()
                    implies (#[trigger] store.habits@[p].id@)
                        != (#[trigger] store.habits@[q].id@) by {
                    assert(store.habits@[p].id@ == old(store).habits@[p].id@);
                    assert(store.habits@[q].id@ == old(store).habits@[q].id@);
                }
            }
            return Ok(result);
        }
        i += 1;
    }
    Err(StoreError::NotFound)
}

/// Soft-deletes a habit.  Returns whether a row was affected.
pub fn habits_delete(store: &mut Store, id: &String, now: i64) -> (r: bool)
    requires
        old(store).wf(),
        now >= old(store).clock,
    ensures
        final(store).wf(),
        only_habits_changed(*old(store), *final(store)),
        r == has_habit_id(old(store).habits@, id@),
        r ==> exists|i: int|
            {
                &&& 0 <= i < old(store).habits@.len()
                &&& (#[trigger] old(store).habits@[i].id@) == id@
                &&& final(store).habits@ == old(store).habits@.update(i, Habit {
                    deleted_at: Some(now),
                    local_updated_at: now,
                    is_synced: false,
                    ..old(store).habits@[i]
                })
                &&& final(store).clock == now
            },
        !r ==> *final(store) == *old(store),
{
    let n = store.habits.len();
    let mut i: usize = 0;
    while i < n
        invariant
            0 <= i <= n,
            n == store.habits@.len(),
            *store == *old(store),
            forall|j: int| 0 <= j < i ==> (#[trigger] store.habits@[j].id@) != id@,
        decreases n - i,
    {
        if store.habits[i].id == *id {
            let mut habit = store.habits.remove(i);
            habit.deleted_at = Some(now);
            habit.local_updated_at = now;
            habit.is_synced = false;
            store.habits.insert(i, habit);
            store.clock = now;
            proof {
                assert(store.habits@ =~= old(store).habits@.update(
                    i as int,
                    store.habits@[i as int],
                ));
                assert forall|p: int, q: int| 0 <= p < q < store.habits@.len()
                    implies (#[trigger] store.habits@[p].id@)
                        != (#[trigger] store.habits@[q].id@) by {
                    assert(store.habits@[p].id@ == old(store).habits@[p].id@);
                    assert(store.habits@[q].id@ == old(store).habits@[q].id@);
                }
            }
            return true;
        }
        i += 1;
    }
    false
}

/// Records one day's value for a habit.  A second log for the same
/// habit and day replaces the first one's value; a fresh day inserts a
/// log.  Either way the habit's streak is recomputed from the logs as
/// they now stand.  The write fails only when a fresh day's log is
/// asked to reuse an id that another log already carries.
pub fn habits_log(
    store: &mut Store,
    id: String,
    now: i64,
    habit_id: String,
    date: i64,
    value: i32,
) -> (r: Result<HabitLog, StoreError>)
    requires
        old(store).wf(),
        now >= old(store).clock,
    ensures
        final(store).wf(),
        only_habits_and_logs_changed(*old(store), *final(store)),
        match r {
            Ok(log) => {
                ||| (exists|i: int|
                    {
                        &&& 0 <= i < old(store).habit_logs@.len()
                        &&& (#[trigger] old(store).habit_logs@[i].habit_id@) == habit_id@
                        &&& old(store).habit_logs@[i].date == date
                        &&& final(store).habit_logs@ == old(store).habit_logs@.update(i, HabitLog {
                            value,
                            updated_at: now,
                            local_updated_at: now,
                            is_synced: false,
                            ..old(store).habit_logs@[i]
                        })
                        &&& log == final(store).habit_logs@[i]
                        &&& final(store).clock == now
                        &&& (has_habit_id(old(store).habits@, habit_id@) ==> exists|h: int|
                            {
                                &&& 0 <= h < old(store).habits@.len()
                                &&& (#[trigger] old(store).habits@[h].id@) == habit_id@
                                &&& final(store).habits@ == old(store).habits@.update(h, Habit {
                                    streak: final(store).habits@[h].streak,
                                    updated_at: now,
                                    local_updated_at: now,
                                    ..old(store).habits@[h]
                                })
                                &&& stored_streak(
                                    final(store).habits@[h].streak as int,
                                    final(store).habit_logs@,
                                    habit_id@,
                                )
                            })
                        &&& (!has_habit_id(old(store).habits@, habit_id@)
                            ==> final(store).habits@ == old(store).habits@)
                    })
                ||| {
                    &&& (forall|i: int|
                        0 <= i < old(store).habit_logs@.len()
                            ==> !((#[trigger] old(store).habit_logs@[i].habit_id@) == habit_id@
                                && old(store).habit_logs@[i].date == date))
                    &&& final(store).habit_logs@.len() == old(store).habit_logs@.len() + 1
                    &&& final(store).habit_logs@.take(old(store).habit_logs@.len() as int)
                        == old(store).habit_logs@
                    &&& log == final(store).habit_logs@.last()
                    &&& log.id@ == id@
                    &&& log.habit_id@ == habit_id@
                    &&& log.date == date
                    &&& log.value == value
                    &&& log.created_at == now
                    &&& log.updated_at == now
                    &&& log.local_updated_at == now
                    &&& !log.is_synced
                    &&& final(store).clock == now
                    &&& (has_habit_id(old(store).habits@, habit_id@) ==> exists|h: int|
                        {
                            &&& 0 <= h < old(store).habits@.len()
                            &&& (#[trigger] old(store).habits@[h].id@) == habit_id@
                            &&& final(store).habits@ == old(store).habits@.update(h, Habit {
                                streak: final(store).habits@[h].streak,
                                updated_at: now,
                                local_updated_at: now,
                                ..old(store).habits@[h]
                            })
                            &&& stored_streak(
                                final(store).habits@[h].streak as int,
                                final(store).habit_logs@,
                                habit_id@,
                            )
                        })
                    &&& (!has_habit_id(old(store).habits@, habit_id@)
                        ==> final(store).habits@ == old(store).habits@)
                }
            },
            Err(e) => {
                &&& e == StoreError::Constraint
                &&& *final(store) == *old(store)
                &&& !has_log_for_day(old(store).habit_logs@, habit_id@, date)
                &&& has_log_id(old(store).habit_logs@, id@)
            },
        },
{
    let n = store.habit_logs.len();
    let mut i: usize = 0;
    while i < n
        invariant
            0 <= i <= n,
            n == store.habit_logs@.len(),
            *store == *old(store),
            forall|j: int|
                0 <= j < i
                    ==> !((#[trigger] store.habit_logs@[j].habit_id@) == habit_id@
                        && store.habit_logs@[j].date == date),
        decreases n - i,
    {
        if store.habit_logs[i].habit_id == habit_id && store.habit_logs[i].date == date {
            let mut log = store.habit_logs.remove(i);
            log.value = value;
            log.updated_at = now;
            log.local_updated_at = now;
            log.is_synced = false;
            let result = log.duplicate();
            store.habit_logs.insert(i, log);
            store.clock = now;
            proof {
                assert(store.habit_logs@ =~= old(store).habit_logs@.update(
                    i as int,
                    store.habit_logs@[i as int],
                ));
                assert forall|p: int, q: int| 0 <= p < q < store.habit_logs@.len()
                    implies (#[trigger] store.habit_logs@[p].id@)
                        != (#[trigger] store.habit_logs@[q].id@) by {
                    assert(store.habit_logs@[p].id@ == old(store).habit_logs@[p].id@);
                    assert(store.habit_logs@[q].id@ == old(store).habit_logs@[q].id@);
                }
                assert forall|p: int, q: int| 0 <= p < q < store.habit_logs@.len()
                    implies !((#[trigger] store.habit_logs@[p].habit_id@)
                        == (#[trigger] store.habit_logs@[q].habit_id@)
                        && store.habit_logs@[p].date == store.habit_logs@[q].date) by {
                    assert(store.habit_logs@[p].habit_id@
                        == old(store).habit_logs@[p].habit_id@);
                    assert(store.habit_logs@[q].habit_id@
                        == old(store).habit_logs@[q].habit_id@);
                    assert(store.habit_logs@[p].date == old(store).habit_logs@[p].date);
                    assert(store.habit_logs@[q].date == old(store).habit_logs@[q].date);
                }
            }
            update_habit_streak(store, &habit_id, now);
            return Ok(result);
        }
        i += 1;
    }
    // A fresh day: the log id must be fresh too.
    let mut j: usize = 0;
    while j < n
        invariant
            0 <= j <= n,
            n == store.habit_logs@.len(),
            *store == *old(store),
            forall|m: int| 0 <= m < j ==> (#[trigger] store.habit_logs@[m].id@) != id@,
            forall|m: int|
                0 <= m < n
                    ==> !((#[trigger] store.habit_logs@[m].habit_id@) == habit_id@
                        && store.habit_logs@[m].date == date),
        decreases n - j,
    {
        if store.habit_logs[j].id == id {
            return Err(StoreError::Constraint);
        }
        j += 1;
    }
    let log = HabitLog {
        id,
        habit_id: habit_id.clone(),
        date,
        value,
        created_at: now,
        updated_at: now,
        is_synced: false,
        local_updated_at: now,
    };
    let result = log.duplicate();
    store.habit_logs.push(log);
    store.clock = now;
    proof {
        assert(store.habit_logs@.take(old(store).habit_logs@.len() as int)
            =~= old(store).habit_logs@);
        assert forall|p: int, q: int| 0 <= p < q < store.habit_logs@.len()
            implies (#[trigger] store.habit_logs@[p].id@)
                != (#[trigger] store.habit_logs@[q].id@) by {
            if q < store.habit_logs@.len() - 1 {
                assert(store.habit_logs@[p] == old(store).habit_logs@[p]);
                assert(store.habit_logs@[q] == old(store).habit_logs@[q]);
            } else {
                assert(store.habit_logs@[p] == old(store).habit_logs@[p]);
            }
        }
        assert forall|p: int, q: int| 0 <= p < q < store.habit_logs@.len()
            implies !((#[trigger] store.habit_logs@[p].habit_id@)
                == (#[trigger] store.habit_logs@[q].habit_id@)
                && store.habit_logs@[p].date == store.habit_logs@[q].date) by {
            if q < store.habit_logs@.len() - 1 {
                assert(store.habit_logs@[p] == old(store).habit_logs@[p]);
                assert(store.habit_logs@[q] == old(store).habit_logs@[q]);
            } else {
                assert(store.habit_logs@[p] == old(store).habit_logs@[p]);
            }
        }
    }
    update_habit_streak(store, &habit_id, now);
    Ok(result)
}

/// How many live habits there are, saturating.
pub open spec fn habit_count_of(s: Seq<Habit>) -> int
    decreases s.len(),
{
    if s.len() == 0 {
        0
    } else if s.last().deleted_at.is_none() {
        crate::focus::add_sat(habit_count_of(s.drop_last()), 1)
    } else {
        habit_count_of(s.drop_last())
    }
}

/// How many live habits carry a positive streak, saturating.
pub open spec fn active_streak_count_of(s: Seq<Habit>) -> int
    decreases s.len(),
{
    if s.len() == 0 {
        0
    } else if s.last().deleted_at.is_none() && s.last().streak > 0 {
        crate::focus::add_sat(active_streak_count_of(s.drop_last()), 1)
    } else {
        active_streak_count_of(s.drop_last())
    }
}

/// How many logs there are for the given day, saturating.
pub open spec fn logs_on_day_count_of(s: Seq<HabitLog>, day: i64) -> int
    decreases s.len(),
{
    if s.len() == 0 {
        0
    } else if s.last().date == day {
        crate::focus::add_sat(logs_on_day_count_of(s.drop_last(), day), 1)
    } else {
        logs_on_day_count_of(s.drop_last(), day)
    }
}

/// Aggregates over the live habits and today's logs.
pub fn habits_stats(store: &Store, today: i64) -> (r: HabitStats)
    requires
        store.wf(),
    ensures
        r.total_habits == habit_count_of(store.habits@),
        r.active_streaks == active_streak_count_of(store.habits@),
        r.total_logs_today == logs_on_day_count_of(store.habit_logs@, today),
{
    let mut total: i64 = 0;
    let mut active: i64 = 0;
    let n = store.habits.len();
    let mut i: usize = 0;
    proof {
        assert(store.habits@.take(0) =~= Seq::<Habit>::empty());
    }
    while i < n
        invariant
            0 <= i <= n,
            n == store.habits@.len(),
            total == habit_count_of(store.habits@.take(i as int)),
            active == active_streak_count_of(store.habits@.take(i as int)),
        decreases n - i,
    {
        if store.habits[i].deleted_at.is_none() {
            total = crate::focus::add_sat_exec(total, 1);
            if store.habits[i].streak > 0 {
                active = crate::focus::add_sat_exec(active, 1);
            }
        }
        proof {
            let k = i as int;
            assert(store.habits@.take(k + 1).drop_last() =~= store.habits@.take(k));
            assert(store.habits@.take(k + 1).last() == store.habits@[k]);
        }
        i += 1;
    }
    let mut logs_today: i64 = 0;
    let m = store.habit_logs.len();
    let mut j: usize = 0;
    proof {
        assert(store.habits@.take(n as int) =~= store.habits@);
        assert(store.habit_logs@.take(0) =~= Seq::<HabitLog>::empty());
    }
    while j < m
        invariant
            0 <= j <= m,
            m == store.habit_logs@.len(),
            logs_today == logs_on_day_count_of(store.habit_logs@.take(j as int), today),
        decreases m - j,
    {
        if store.habit_logs[j].date == today {
            logs_today = crate::focus::add_sat_exec(logs_today, 1);
        }
        proof {
            let k = j as int;
            assert(store.habit_logs@.take(k + 1).drop_last() =~= store.habit_logs@.take(k));
            assert(store.habit_logs@.take(k + 1).last() == store.habit_logs@[k]);
        }
        j += 1;
    }
    proof {
        assert(store.habit_logs@.take(m as int) =~= store.habit_logs@);
    }
    HabitStats { total_habits: total, active_streaks: active, total_logs_today: logs_today }
}

} // verus!
