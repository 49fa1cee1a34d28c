//! Focus (pomodoro) sessions and their aggregate statistics.

#![verifier::loop_isolation(false)]

use vstd::prelude::*;

use crate::store::{Store, StoreError, clone_opt_string};

verus! {

#[derive(Debug)]
pub struct FocusSession {
    pub id: String,
    pub task_id: Option<String>,
    pub started_at: i64,
    pub ended_at: Option<i64>,
    pub duration_sec: i32,
    pub is_break: bool,
    pub created_at: i64,
    pub updated_at: i64,
    pub is_synced: bool,
    pub local_updated_at: i64,
}

/// Aggregates over the recorded sessions.  Times are clamped, second
/// by second, into the i64 range.
#[derive(Debug)]
pub struct FocusStats {
    pub total_sessions: i64,
    pub total_work_time: i64,
    pub total_break_time: i64,
    pub today_sessions: i64,
    pub today_work_time: i64,
}

impl FocusSession {
    /// A value-for-value copy.
    pub fn duplicate(&self) -> (r: FocusSession)
        ensures
            r == *self,
    {
        FocusSession {
            id: self.id.clone(),
            task_id: clone_opt_string(&self.task_id),
            started_at: self.started_at,
            ended_at: self.ended_at,
            duration_sec: self.duration_sec,
            is_break: self.is_break,
            created_at: self.created_at,
            updated_at: self.updated_at,
            is_synced: self.is_synced,
            local_updated_at: self.local_updated_at,
        }
    }
}

pub open spec fn focus_sessions_wf(s: Seq<FocusSession>, clock: int) -> bool {
    &&& forall|i: int, j: int|
        0 <= i < j < s.len() ==> (#[trigger] s[i].id@) != (#[trigger] s[j].id@)
    &&& forall|i: int|
        0 <= i < s.len()
            ==> (#[trigger] s[i]).created_at <= s[i].local_updated_at <= clock
    &&& forall|i: int| 0 <= i < s.len() ==> (#[trigger] s[i]).started_at <= clock
    &&& forall|i: int, j: int|
        0 <= i < j < s.len() ==> (#[trigger] s[i]).started_at <= (#[trigger] s[j]).started_at
}

pub open spec fn has_session_id(s: Seq<FocusSession>, id: Seq<char>) -> bool {
    exists|i: int| 0 <= i < s.len() && (#[trigger] s[i].id@) == id
}

/// Everything but focus sessions (and the clock) is untouched.
pub open spec fn only_focus_changed(pre: Store, post: Store) -> bool {
    &&& post.workspaces@ == pre.workspaces@
    &&& post.lists@ == pre.lists@
    &&& post.tasks@ == pre.tasks@
    &&& post.tags@ == pre.tags@
    &&& post.task_tags@ == pre.task_tags@
    &&& post.comments@ == pre.comments@
    &&& post.attachments@ == pre.attachments@
    &&& post.habits@ == pre.habits@
    &&& post.habit_logs@ == pre.habit_logs@
    &&& post.time_blocks@ == pre.time_blocks@
}

/// Addition held inside the i64 range.
pub open spec fn add_sat(a: int, b: int) -> int {
    if a + b > i64::MAX {
        i64::MAX as int
    } else if a + b < i64::MIN {
        i64::MIN as int
    } else {
        a + b
    }
}

/// Seconds of work (non-break sessions), saturating.
pub open spec fn work_time_of(s: Seq<FocusSession>) -> int
    decreases s.len(),
{
    if s.len() == 0 {
        0
    } else if !s.last().is_break {
        add_sat(work_time_of(s.drop_last()), s.last().duration_sec as int)
    } else {
        work_time_of(s.drop_last())
    }
}

/// Seconds of break, saturating.
pub open spec fn break_time_of(s: Seq<FocusSession>) -> int
    decreases s.len(),
{
    if s.len() == 0 {
        0
    } else if s.last().is_break {
        add_sat(break_time_of(s.drop_last()), s.last().duration_sec as int)
    } else {
        break_time_of(s.drop_last())
    }
}

/// A session counts as today's when it started inside the given day.
pub open spec fn started_today(x: FocusSession, day_start: i64, day_end: i64) -> bool {
    day_start <= x.started_at < day_end
}

/// How many sessions started today, saturating.
pub open spec fn today_count_of(s: Seq<FocusSession>, day_start: i64, day_end: i64) -> int
    decreases s.len(),
{
    if s.len() == 0 {
        0
    } else if started_today(s.last(), day_start, day_end) {
        add_sat(today_count_of(s.drop_last(), day_start, day_end), 1)
    } else {
        today_count_of(s.drop_last(), day_start, day_end)
    }
}

/// Seconds of work done today, saturating.
pub open spec fn today_work_of(s: Seq<FocusSession>, day_start: i64, day_end: i64) -> int
    decreases s.len(),
{
    if s.len() == 0 {
        0
    } else if !s.last().is_break && started_today(s.last(), day_start, day_end) {
        add_sat(today_work_of(s.drop_last(), day_start, day_end), s.last().duration_sec as int)
    } else {
        today_work_of(s.drop_last(), day_start, day_end)
    }
}

/// Count of all sessions, saturating.
pub open spec fn session_count_of(s: Seq<FocusSession>) -> int
    decreases s.len(),
{
    if s.len() == 0 {
        0
    } else {
        add_sat(session_count_of(s.drop_last()), 1)
    }
}

pub fn add_sat_exec(a: i64, b: i64) -> (r: i64)
    ensures
        r == add_sat(a as int, b as int),
{
    if b >= 0 {
        if a > i64::MAX - b {
            i64::MAX
        } else {
            a + b
        }
    } else {
        if a < i64::MIN - b {
            i64::MIN
        } else {
            a + b
        }
    }
}

/// Starts a work session now, stamped dirty.
pub fn focus_start(
    store: &mut Store,
    id: String,
    now: i64,
    task_id: Option<String>,
    duration_sec: i32,
) -> (r: Result<FocusSession, StoreError>)
    requires
        old(store).wf(),
        now >= old(store).clock,
    ensures
        final(store).wf(),
        only_focus_changed(*old(store), *final(store)),
        match r {
            Ok(x) => {
                &&& !has_session_id(old(store).focus_sessions@, x.id@)
                &&& final(store).focus_sessions@ == old(store).focus_sessions@.push(x)
                &&& final(store).clock == now
                &&& x.id@ == id@
                &&& x.task_id == task_id
                &&& x.started_at == now
                &&& x.ended_at.is_none()
                &&& x.duration_sec == duration_sec
                &&& !x.is_break
                &&& x.created_at == now
                &&& x.updated_at == now
                &&& x.local_updated_at == now
                &&& !x.is_synced
            },
            Err(e) => {
                &&& e == StoreError::Constraint
                &&& has_session_id(old(store).focus_sessions@, id@)
                &&& *final(store) == *old(store)
            },
        },
{
    let n = store.focus_sessions.len();
    let mut i: usize = 0;
    while i < n
        invariant
            0 <= i <= n,
            n == store.focus_sessions@.len(),
            *store == *old(store),
            forall|j: int| 0 <= j < i ==> (#[trigger] store.focus_sessions@[j].id@) != id@,
        decreases n - i,
    {
        if store.focus_sessions[i].id == id {
            return Err(StoreError::Constraint);
        }
        i += 1;
    }
    let session = FocusSession {
        id,
        task_id,
        started_at: now,
        ended_at: None,
        duration_sec,
        is_break: false,
        created_at: now,
        updated_at: now,
        is_synced: false,
        local_updated_at: now,
    };
    let result = session.duplicate();
    store.focus_sessions.push(session);
    store.clock = now;
    proof {
        assert forall|p: int, q: int| 0 <= p < q < store.focus_sessions@.len()
            implies (#[trigger] store.focus_sessions@[p].id@)
                != (#[trigger] store.focus_sessions@[q].id@) by {
            if q < store.focus_sessions@.len() - 1 {
                assert(store.focus_sessions@[p] == old(store).focus_sessions@[p]);
                assert(store.focus_sessions@[q] == old(store).focus_sessions@[q]);
            } else {
                assert(store.focus_sessions@[p] == old(store).focus_sessions@[p]);
            }
        }
        assert forall|p: int, q: int| 0 <= p < q < store.focus_sessions@.len()
            implies (#[trigger] store.focus_sessions@[p]).started_at
                <= (#[trigger] store.focus_sessions@[q]).started_at by {
            if q < store.focus_sessions@.len() - 1 {
                assert(store.focus_sessions@[p] == old(store).focus_sessions@[p]);
                assert(store.focus_sessions@[q] == old(store).focus_sessions@[q]);
            } else {
                assert(store.focus_sessions@[p] == old(store).focus_sessions@[p]);
            }
        }
    }
    Ok(result)
}

/// Ends a session now, stamping it dirty.
pub fn focus_stop(store: &mut Store, session_id: &String, now: i64) -> (r: Result<
    FocusSession,
    StoreError,
>)
    requires
        old(store).wf(),
        now >= old(store).clock,
    ensures
        final(store).wf(),
        only_focus_changed(*old(store), *final(store)),
        match r {
            Ok(x) => exists|i: int|
                {
                    &&& 0 <= i < old(store).focus_sessions@.len()
                    &&& (#[trigger] old(store).focus_sessions@[i].id@) == session_id@
                    &&& final(store).focus_sessions@ == old(store).focus_sessions@.update(i, x)
                    &&& final(store).clock == now
                    &&& x == (FocusSession {
                        ended_at: Some(now),
                        updated_at: now,
                        local_updated_at: now,
                        is_synced: false,
                        ..old(store).focus_sessions@[i]
                    })
                },
            Err(e) => {
                &&& e == StoreError::NotFound
                &&& !has_session_id(old(store).focus_sessions@, session_id@)
                &&& *final(store) == *old(store)
            },
        },
{
    let n = store.focus_sessions.len();
    let mut i: usize = 0;
    while i < n
        invariant
            0 <= i <= n,
            n == store.focus_sessions@.len(),
            *store == *old(store),
            forall|j: int| 0 <= j < i ==> (#[trigger] store.focus_sessions@[j].id@) != session_id@,
        decreases n - i,
    {
        if store.focus_sessions[i].id == *session_id {
            let mut session = store.focus_sessions.remove(i);
            session.ended_at = Some(now);
            session.updated_at = now;
            session.local_updated_at = now;
            session.is_synced = false;
            let result = session.duplicate();
            store.focus_sessions.insert(i, session);
            store.clock = now;
            proof {
                assert(store.focus_sessions@ =~= old(store).focus_sessions@.update(
                    i as int,
                    store.focus_sessions@[i as int],
                ));
                assert forall|p: int, q: int| 0 <= p < q < store.focus_sessions@.len()
                    implies (#[trigger] store.focus_sessions@[p].id@)
                        != (#[trigger] store.focus_sessions@[q].id@) by {
                    assert(store.focus_sessions@[p].id@ == old(store).focus_sessions@[p].id@);
                    assert(store.focus_sessions@[q].id@ == old(store).focus_sessions@[q].id@);
                }
                assert forall|p: int, q: int| 0 <= p < q < store.focus_sessions@.len()
                    implies (#[trigger] store.focus_sessions@[p]).started_at
                        <= (#[trigger] store.focus_sessions@[q]).started_at by {
                    assert(store.focus_sessions@[p].started_at
                        == old(store).focus_sessions@[p].started_at);
                    assert(store.focus_sessions@[q].started_at
                        == old(store).focus_sessions@[q].started_at);
                }
            }
            return Ok(result);
        }
        i += 1;
    }
    Err(StoreError::NotFound)
}

/// Aggregates all sessions, and today's, where today is the half-open
/// interval `[day_start, day_end)` of the local day.
pub fn focus_stats(store: &Store, day_start: i64, day_end: i64) -> (r: FocusStats)
    requires
        store.wf(),
    ensures
        r.total_sessions == session_count_of(store.focus_sessions@),
        r.total_work_time == work_time_of(store.focus_sessions@),
        r.total_break_time == break_time_of(store.focus_sessions@),
        r.today_sessions == today_count_of(store.focus_sessions@, day_start, day_end),
        r.today_work_time == today_work_of(store.focus_sessions@, day_start, day_end),
{
    let n = store.focus_sessions.len();
    let mut i: usize = 0;
    let mut total_sessions: i64 = 0;
    let mut total_work: i64 = 0;
    let mut total_break: i64 = 0;
    let mut today_sessions: i64 = 0;
    let mut today_work: i64 = 0;
    proof {
        assert(store.focus_sessions@.take(0) =~= Seq::<FocusSession>::empty());
    }
    while i < n
        invariant
            0 <= i <= n,
            n == store.focus_sessions@.len(),
            total_sessions == session_count_of(store.focus_sessions@.take(i as int)),
            total_work == work_time_of(store.focus_sessions@.take(i as int)),
            total_break == break_time_of(store.focus_sessions@.take(i as int)),
            today_sessions == today_count_of(
                store.focus_sessions@.take(i as int),
                day_start,
                day_end,
            ),
            today_work == today_work_of(store.focus_sessions@.take(i as int), day_start, day_end),
        decreases n - i,
    {
        let x = &store.focus_sessions[i];
        total_sessions = add_sat_exec(total_sessions, 1);
        if !x.is_break {
            total_work = add_sat_exec(total_work, x.duration_sec as i64);
        } else {
            total_break = add_sat_exec(total_break, x.duration_sec as i64);
        }
        let today = day_start <= x.started_at && x.started_at < day_end;
        if today {
            today_sessions = add_sat_exec(today_sessions, 1);
            if !x.is_break {
                today_work = add_sat_exec(today_work, x.duration_sec as i64);
            }
        }
        proof {
            let k = i as int;
            assert(store.focus_sessions@.take(k + 1).drop_last() =~= store.focus_sessions@.take(k));
            assert(store.focus_sessions@.take(k + 1).last() == store.focus_sessions@[k]);
        }
        i += 1;
    }
    proof {
        assert(store.focus_sessions@.take(n as int) =~= store.focus_sessions@);
    }
    FocusStats {
        total_sessions,
        total_work_time: total_work,
        total_break_time: total_break,
        today_sessions,
        today_work_time: today_work,
    }
}

/// The most recent sessions, newest first, at most `limit` of them
/// (fifty when unspecified).
pub fn focus_sessions_list(store: &Store, limit: Option<usize>) -> (r: Vec<FocusSession>)
    requires
        store.wf(),
    ensures
        r@.len() == if (match limit {
            Some(l) => l as int,
            None => 50,
        }) < store.focus_sessions@.len() {
            match limit {
                Some(l) => l as int,
                None => 50,
            }
        } else {
            store.focus_sessions@.len() as int
        },
        forall|j: int|
            0 <= j < r@.len()
                ==> #[trigger] r@[j] == store.focus_sessions@[store.focus_sessions@.len() - 1 - j],
        // newest first: the underlying sessions are ordered by start
        forall|p: int, q: int|
            0 <= p < q < r@.len()
                ==> (#[trigger] r@[p]).started_at >= (#[trigger] r@[q]).started_at,
{
    let n = store.focus_sessions.len();
    let k = match limit {
        Some(l) => if l < n {
            l
        } else {
            n
        },
        None => if 50 < n {
            50
        } else {
            n
        },
    };
    let mut r: Vec<FocusSession> = Vec::new();
    let mut j: usize = 0;
    while j < k
        invariant
            0 <= j <= k <= n,
            n == store.focus_sessions@.len(),
            r@.len() == j,
            forall|m: int|
                0 <= m < j
                    ==> #[trigger] r@[m] == store.focus_sessions@[
                        store.focus_sessions@.len() - 1 - m
                    ],
        decreases k - j,
    {
        r.push(store.focus_sessions[n - 1 - j].duplicate());
        j += 1;
    }
    proof {
        assert forall|p: int, q: int| 0 <= p < q < r@.len()
            implies (#[trigger] r@[p]).started_at >= (#[trigger] r@[q]).started_at by {
            let ip = store.focus_sessions@.len() - 1 - p;
            let iq = store.focus_sessions@.len() - 1 - q;
            assert(store.focus_sessions@[iq].started_at <= store.focus_sessions@[ip].started_at);
        }
    }
    r
}

} // verus!
