//! Time blocks, and the calendar view computed from scheduled tasks.

#![verifier::loop_isolation(false)]

use vstd::prelude::*;

use crate::store::{Store, StoreError, clone_opt_string};
use crate::tasks::Task;

verus! {

#[derive(Debug)]
pub struct TimeBlock {
    pub id: String,
    pub task_id: String,
    pub start_time: i64,
    pub end_time: i64,
    pub created_at: i64,
    pub updated_at: i64,
    pub is_synced: bool,
    pub local_updated_at: i64,
}

/// A calendar entry derived from a scheduled task.
#[derive(Debug)]
pub struct CalendarEvent {
    pub id: String,
    pub title: String,
    pub start_time: i64,
    pub end_time: Option<i64>,
    pub all_day: bool,
    pub task_id: Option<String>,
    pub color: Option<String>,
}

impl TimeBlock {
    /// A value-for-value copy.
    pub fn duplicate(&self) -> (r: TimeBlock)
        ensures
            r == *self,
    {
        TimeBlock {
            id: self.id.clone(),
            task_id: self.task_id.clone(),
            start_time: self.start_time,
            end_time: self.end_time,
            created_at: self.created_at,
            updated_at: self.updated_at,
            is_synced: self.is_synced,
            local_updated_at: self.local_updated_at,
        }
    }
}

pub open spec fn time_blocks_wf(s: Seq<TimeBlock>, clock: int) -> bool {
    &&& forall|i: int, j: int|
        0 <= i < j < s.len() ==> (#[trigger] s[i].id@) != (#[trigger] s[j].id@)
    &&& forall|i: int|
        0 <= i < s.len()
            ==> (#[trigger] s[i]).created_at <= s[i].local_updated_at <= clock
}

pub open spec fn has_time_block_id(s: Seq<TimeBlock>, id: Seq<char>) -> bool {
    exists|i: int| 0 <= i < s.len() && (#[trigger] s[i].id@) == id
}

/// Everything but time blocks (and the clock) is untouched.
pub open spec fn only_time_blocks_changed(pre: Store, post: Store) -> bool {
    &&& post.workspaces@ == pre.workspaces@
    &&& post.lists@ == pre.lists@
    &&& post.tasks@ == pre.tasks@
    &&& post.tags@ == pre.tags@
    &&& post.task_tags@ == pre.task_tags@
    &&& post.comments@ == pre.comments@
    &&& post.attachments@ == pre.attachments@
    &&& post.habits@ == pre.habits@
    &&& post.habit_logs@ == pre.habit_logs@
    &&& post.focus_sessions@ == pre.focus_sessions@
}

/// Blocks out time on the calendar for a task, stamped dirty.
pub fn calendar_timeblock(
    store: &mut Store,
    id: String,
    now: i64,
    task_id: String,
    start_time: i64,
    end_time: i64,
) -> (r: Result<TimeBlock, StoreError>)
    requires
        old(store).wf(),
        now >= old(store).clock,
    ensures
        final(store).wf(),
        only_time_blocks_changed(*old(store), *final(store)),
        match r {
            Ok(b) => {
                &&& !has_time_block_id(old(store).time_blocks@, b.id@)
                &&& final(store).time_blocks@ == old(store).time_blocks@.push(b)
                &&& final(store).clock == now
                &&& b.id@ == id@
                &&& b.task_id == task_id
                &&& b.start_time == start_time
                &&& b.end_time == end_time
                &&& b.created_at == now
                &&& b.updated_at == now
                &&& b.local_updated_at == now
                &&& !b.is_synced
            },
            Err(e) => {
                &&& e == StoreError::Constraint
                &&& has_time_block_id(old(store).time_blocks@, id@)
                &&& *final(store) == *old(store)
            },
        },
{
    let n = store.time_blocks.len();
    let mut i: usize = 0;
    while i < n
        invariant
            0 <= i <= n,
            n == store.time_blocks@.len(),
            *store == *old(store),
            forall|j: int| 0 <= j < i ==> (#[trigger] store.time_blocks@[j].id@) != id@,
        decreases n - i,
    {
        if store.time_blocks[i].id == id {
            return Err(StoreError::Constraint);
        }
        i += 1;
    }
    let block = TimeBlock {
        id,
        task_id,
        start_time,
        end_time,
        created_at: now,
        updated_at: now,
        is_synced: false,
        local_updated_at: now,
    };
    let result = block.duplicate();
    store.time_blocks.push(block);
    store.clock = now;
    proof {
        assert forall|p: int, q: int| 0 <= p < q < store.time_blocks@.len()
            implies (#[trigger] store.time_blocks@[p].id@)
                != (#[trigger] store.time_blocks@[q].id@) by {
            if q < store.time_blocks@.len() - 1 {
                assert(store.time_blocks@[p] == old(store).time_blocks@[p]);
                assert(store.time_blocks@[q] == old(store).time_blocks@[q]);
            } else {
                assert(store.time_blocks@[p] == old(store).time_blocks@[p]);
            }
        }
    }
    Ok(result)
}

/// The colour a task shows on the calendar: red, orange and blue for
/// the top three priorities, grey otherwise.
pub open spec fn spec_priority_color(p: Option<i32>) -> Seq<char> {
    match p {
        Some(1i32) => "#ef4444"@,
        Some(2i32) => "#f97316"@,
        Some(3i32) => "#3b82f6"@,
        _ => "#6b7280"@,
    }
}

fn priority_color(p: &Option<i32>) -> (r: String)
    ensures
        r@ == spec_priority_color(*p),
{
    match p {
        Some(1i32) => String::from_str("#ef4444"),
        Some(2i32) => String::from_str("#f97316"),
        Some(3i32) => String::from_str("#3b82f6"),
        _ => String::from_str("#6b7280"),
    }
}

/// A task appears in the window when it is live and scheduled to start
/// inside it.
pub open spec fn in_window(t: Task, start_date: i64, end_date: i64) -> bool {
    &&& t.deleted_at.is_none()
    &&& match t.start_at {
        Some(s) => start_date <= s <= end_date,
        None => false,
    }
}

/// The event a scheduled task shows as.
pub open spec fn event_matches(e: CalendarEvent, t: Task) -> bool {
    &&& e.id == t.id
    &&& e.title == t.title
    &&& t.start_at matches Some(s) && e.start_time == s
    &&& e.end_time == t.end_at
    &&& e.all_day == t.all_day
    &&& e.task_id == Some(t.id)
    &&& e.color matches Some(c) && c@ == spec_priority_color(t.priority)
}

/// `e` is the event of some task in `s`.
pub open spec fn event_of_some(e: CalendarEvent, s: Seq<Task>) -> bool {
    exists|j: int| 0 <= j < s.len() && event_matches(e, #[trigger] s[j])
}

/// Some event in `evs` shows the task `t`.
pub open spec fn has_event_for(t: Task, evs: Seq<CalendarEvent>) -> bool {
    exists|i: int| 0 <= i < evs.len() && event_matches(#[trigger] evs[i], t)
}

/// Events are listed by start time.
pub open spec fn events_sorted(s: Seq<CalendarEvent>) -> bool {
    forall|i: int, j: int|
        0 <= i < j < s.len()
            ==> (#[trigger] s[i]).start_time <= (#[trigger] s[j]).start_time
}

/// The calendar events of the live tasks scheduled in the window,
/// earliest start first.
pub fn calendar_events(store: &Store, start_date: i64, end_date: i64) -> (r: Vec<CalendarEvent>)
    requires
        store.wf(),
    ensures
        r@.len() == store.tasks@.filter(|t: Task| in_window(t, start_date, end_date)).len(),
        forall|i: int|
            0 <= i < r@.len()
                ==> event_of_some(
                    #[trigger] r@[i],
                    store.tasks@.filter(|t: Task| in_window(t, start_date, end_date)),
                ),
        forall|j: int|
            0 <= j < store.tasks@.len()
                && in_window(#[trigger] store.tasks@[j], start_date, end_date)
                ==> has_event_for(store.tasks@[j], r@),
        events_sorted(r@),
{
    broadcast use vstd::seq_lib::group_to_multiset_ensures;
    broadcast use vstd::multiset::group_multiset_axioms;

    let ghost pred = |t: Task| in_window(t, start_date, end_date);
    let mut r: Vec<CalendarEvent> = Vec::new();
    let n = store.tasks.len();
    let mut i: usize = 0;
    proof {
        assert(store.tasks@.take(0).filter(pred) =~= Seq::<Task>::empty());
    }
    while i < n
        invariant
            0 <= i <= n,
            n == store.tasks@.len(),
            r@.len() == store.tasks@.take(i as int).filter(pred).len(),
            forall|j: int|
                0 <= j < r@.len()
                    ==> event_matches(
                        #[trigger] r@[j],
                        store.tasks@.take(i as int).filter(pred)[j],
                    ),
            pred == (|t: Task| in_window(t, start_date, end_date)),
        decreases n - i,
    {
        let ghost r_pre = r@;
        let mut keep = false;
        if store.tasks[i].deleted_at.is_none() {
            if let Some(s) = store.tasks[i].start_at {
                if start_date <= s && s <= end_date {
                    keep = true;
                }
            }
        }
        if keep {
            let t = &store.tasks[i];
            let event = CalendarEvent {
                id: t.id.clone(),
                title: t.title.clone(),
                start_time: match t.start_at {
                    Some(s) => s,
                    None => 0,
                },
                end_time: t.end_at,
                all_day: t.all_day,
                task_id: Some(t.id.clone()),
                color: Some(priority_color(&t.priority)),
            };
            r.push(event);
        }
        proof {
            assert(keep == pred(store.tasks@[i as int]));
            reveal(Seq::filter);
            let k = i as int;
            assert(store.tasks@.take(k + 1).drop_last() =~= store.tasks@.take(k));
            assert(store.tasks@.take(k + 1).last() == store.tasks@[k]);
            if pred(store.tasks@[k]) {
                assert(store.tasks@.take(k + 1).filter(pred)
                    == store.tasks@.take(k).filter(pred).push(store.tasks@[k]));
                assert(event_matches(r@.last(), store.tasks@[k]));
            }
        }
        i += 1;
    }
    proof {
        assert(store.tasks@.take(n as int) =~= store.tasks@);
    }
    // Order the events, earliest start first.
    let ghost flt = store.tasks@.filter(|t: Task| in_window(t, start_date, end_date));
    let ghost fwd_seq = r@;
    let mut src = r;
    let mut out: Vec<CalendarEvent> = Vec::new();
    proof {
        assert(out@.to_multiset().add(src@.to_multiset()) =~= fwd_seq.to_multiset());
    }
    while src.len() > 0
        invariant
            out@.to_multiset().add(src@.to_multiset()) == fwd_seq.to_multiset(),
            out@.len() + src@.len() == fwd_seq.len(),
            events_sorted(out@),
            forall|i: int, j: int|
                0 <= i < out@.len() && 0 <= j < src@.len()
                    ==> (#[trigger] out@[i]).start_time <= (#[trigger] src@[j]).start_time,
        decreases src.len(),
    {
        let mut m: usize = 0;
        let mut k: usize = 1;
        while k < src.len()
            invariant
                src@.len() > 0,
                0 <= m < k <= src@.len(),
                forall|j: int|
                    0 <= j < k
                        ==> src@[m as int].start_time <= (#[trigger] src@[j]).start_time,
            decreases src.len() - k,
        {
            if src[k].start_time < src[m].start_time {
                m = k;
            }
            k += 1;
        }
        let ghost pre = src@;
        let picked = src.remove(m);
        let ghost out_pre = out@;
        out.push(picked);
        proof {
            assert(pre.contains(picked));
            pre.to_multiset_ensures();
            assert(pre.to_multiset().count(picked) > 0);
            assert(src@ == pre.remove(m as int));
            vstd::seq_lib::to_multiset_remove(pre, m as int);
            vstd::seq_lib::to_multiset_build(out_pre, picked);
            assert(out@.to_multiset().add(src@.to_multiset()) =~= fwd_seq.to_multiset());
            assert forall|j: int| 0 <= j < src@.len()
                implies picked.start_time <= (#[trigger] src@[j]).start_time by {
                if j < m as int {
                    assert(src@[j] == pre[j]);
                } else {
                    assert(src@[j] == pre[j + 1]);
                }
            }
        }
    }
    proof {
        assert(src@.to_multiset() =~= vstd::multiset::Multiset::empty());
        assert(out@.to_multiset() =~= fwd_seq.to_multiset());
        out@.to_multiset_ensures();
        fwd_seq.to_multiset_ensures();
        assert forall|i: int| 0 <= i < out@.len()
            implies event_of_some(#[trigger] out@[i], flt) by {
            assert(out@.contains(out@[i]));
            assert(out@.to_multiset().count(out@[i]) > 0);
            assert(fwd_seq.to_multiset().count(out@[i]) > 0);
            assert(fwd_seq.contains(out@[i]));
            let k = choose|k: int| 0 <= k < fwd_seq.len() && fwd_seq[k] == out@[i];
            assert(event_matches(fwd_seq[k], flt[k]));
            assert(event_matches(out@[i], flt[k]));
        }
        assert forall|j: int|
            0 <= j < store.tasks@.len()
                && in_window(#[trigger] store.tasks@[j], start_date, end_date)
            implies has_event_for(store.tasks@[j], out@) by {
            store.tasks@.lemma_filter_contains(
                |t: Task| in_window(t, start_date, end_date),
                j,
            );
            assert(flt.contains(store.tasks@[j]));
            let p = choose|p: int| 0 <= p < flt.len() && flt[p] == store.tasks@[j];
            assert(fwd_seq.contains(fwd_seq[p]));
            assert(fwd_seq.to_multiset().count(fwd_seq[p]) > 0);
            assert(out@.to_multiset().count(fwd_seq[p]) > 0);
            assert(out@.contains(fwd_seq[p]));
            let i = choose|i: int| 0 <= i < out@.len() && out@[i] == fwd_seq[p];
            assert(event_matches(fwd_seq[p], flt[p]));
            assert(event_matches(out@[i], store.tasks@[j]));
        }
    }
    out
}

/// Time blocks are listed by start time.
pub open spec fn time_blocks_sorted(s: Seq<TimeBlock>) -> bool {
    forall|i: int, j: int|
        0 <= i < j < s.len()
            ==> (#[trigger] s[i]).start_time <= (#[trigger] s[j]).start_time
}

/// The time blocks of one task, earliest start first.
pub fn calendar_events_by_task(store: &Store, task_id: &String) -> (r: Vec<TimeBlock>)
    requires
        store.wf(),
    ensures
        r@.len() == store.time_blocks@.filter(|b: TimeBlock| b.task_id@ == task_id@).len(),
        r@.to_multiset() == store.time_blocks@.filter(
            |b: TimeBlock| b.task_id@ == task_id@,
        ).to_multiset(),
        time_blocks_sorted(r@),
{
    broadcast use vstd::seq_lib::group_to_multiset_ensures;
    broadcast use vstd::multiset::group_multiset_axioms;

    let ghost keep = |b: TimeBlock| b.task_id@ == task_id@;
    let mut r: Vec<TimeBlock> = Vec::new();
    let n = store.time_blocks.len();
    let mut i: usize = 0;
    proof {
        assert(store.time_blocks@.take(0).filter(keep) =~= Seq::<TimeBlock>::empty());
    }
    while i < n
        invariant
            0 <= i <= n,
            n == store.time_blocks@.len(),
            r@ == store.time_blocks@.take(i as int).filter(keep),
            keep == (|b: TimeBlock| b.task_id@ == task_id@),
        decreases n - i,
    {
        let ghost r_pre = r@;
        if store.time_blocks[i].task_id == *task_id {
            r.push(store.time_blocks[i].duplicate());
        }
        proof {
            reveal(Seq::filter);
            let k = i as int;
            assert(store.time_blocks@.take(k + 1).drop_last() =~= store.time_blocks@.take(k));
            assert(store.time_blocks@.take(k + 1).last() == store.time_blocks@[k]);
            if keep(store.time_blocks@[k]) {
                assert(r@ =~= r_pre.push(store.time_blocks@[k]));
            }
            assert(r@ == store.time_blocks@.take(k + 1).filter(keep));
        }
        i += 1;
    }
    proof {
        assert(store.time_blocks@.take(n as int) =~= store.time_blocks@);
    }
    // Order the results.
    let ghost flt = store.time_blocks@.filter(|b: TimeBlock| b.task_id@ == task_id@);
    let mut src = r;
    let mut out: Vec<TimeBlock> = Vec::new();
    proof {
        assert(out@.to_multiset().add(src@.to_multiset()) =~= flt.to_multiset());
    }
    while src.len() > 0
        invariant
            out@.to_multiset().add(src@.to_multiset()) == flt.to_multiset(),
            out@.len() + src@.len() == flt.len(),
            time_blocks_sorted(out@),
            forall|i: int, j: int|
                0 <= i < out@.len() && 0 <= j < src@.len()
                    ==> (#[trigger] out@[i]).start_time <= (#[trigger] src@[j]).start_time,
        decreases src.len(),
    {
        let mut m: usize = 0;
        let mut k: usize = 1;
        while k < src.len()
            invariant
                src@.len() > 0,
                0 <= m < k <= src@.len(),
                forall|j: int| 0 <= j < k ==> src@[m as int].start_time <= (#[trigger] src@[j]).start_time,
            decreases src.len() - k,
        {
            if src[k].start_time < src[m].start_time {
                m = k;
            }
            k += 1;
        }
        let ghost pre = src@;
        let picked = src.remove(m);
        let ghost out_pre = out@;
        out.push(picked);
        proof {
            assert(pre.contains(picked));
            pre.to_multiset_ensures();
            assert(pre.to_multiset().count(picked) > 0);
            assert(src@ == pre.remove(m as int));
            vstd::seq_lib::to_multiset_remove(pre, m as int);
            vstd::seq_lib::to_multiset_build(out_pre, picked);
            assert(out@.to_multiset().add(src@.to_multiset()) =~= flt.to_multiset());
            assert forall|j: int| 0 <= j < src@.len() implies picked.start_time <= (#[trigger] src@[j]).start_time by {
                if j < m as int {
                    assert(src@[j] == pre[j]);
                } else {
                    assert(src@[j] == pre[j + 1]);
                }
            }
        }
    }
    proof {
        assert(src@.to_multiset() =~= vstd::multiset::Multiset::empty());
        assert(out@.to_multiset() =~= flt.to_multiset());
    }
    out
}

/// Removes a time block outright.  Returns whether a row was affected.
pub fn calendar_delete_timeblock(store: &mut Store, timeblock_id: &String) -> (r: bool)
    requires
        old(store).wf(),
    ensures
        final(store).wf(),
        only_time_blocks_changed(*old(store), *final(store)),
        final(store).clock == old(store).clock,
        r == has_time_block_id(old(store).time_blocks@, timeblock_id@),
        r ==> exists|i: int|
            {
                &&& 0 <= i < old(store).time_blocks@.len()
                &&& (#[trigger] old(store).time_blocks@[i].id@) == timeblock_id@
                &&& final(store).time_blocks@ == old(store).time_blocks@.remove(i)
            },
        !r ==> *final(store) == *old(store),
{
    let n = store.time_blocks.len();
    let mut i: usize = 0;
    while i < n
        invariant
            0 <= i <= n,
            n == store.time_blocks@.len(),
            *store == *old(store),
            forall|j: int| 0 <= j < i ==> (#[trigger] store.time_blocks@[j].id@) != timeblock_id@,
        decreases n - i,
    {
        if store.time_blocks[i].id == *timeblock_id {
            store.time_blocks.remove(i);
            proof {
                assert forall|p: int, q: int| 0 <= p < q < store.time_blocks@.len()
                    implies (#[trigger] store.time_blocks@[p].id@)
                        != (#[trigger] store.time_blocks@[q].id@) by {
                    let pp = if p < i as int { p } else { p + 1 };
                    let qq = if q < i as int { q } else { q + 1 };
                    assert(store.time_blocks@[p] == old(store).time_blocks@[pp]);
                    assert(store.time_blocks@[q] == old(store).time_blocks@[qq]);
                }
                assert forall|k: int| 0 <= k < store.time_blocks@.len()
                    implies (#[trigger] store.time_blocks@[k]).created_at
                        <= store.time_blocks@[k].local_updated_at <= store.clock by {
                    let kk = if k < i as int { k } else { k + 1 };
                    assert(store.time_blocks@[k] == old(store).time_blocks@[kk]);
                }
            }
            return true;
        }
        i += 1;
    }
    false
}

} // verus!
