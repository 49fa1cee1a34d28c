//! Tasks: the primary syncable entity.

#![verifier::loop_isolation(false)]

use vstd::prelude::*;

use crate::store::{Store, StoreError, clone_opt_string, clone_opt_string_vec, clone_string_vec};

verus! {

#[derive(Debug)]
pub struct Task {
    pub id: String,
    pub list_id: String,
    pub title: String,
    pub description: Option<String>,
    pub priority: Option<i32>,
    pub status: String,
    pub due_at: Option<i64>,
    pub start_at: Option<i64>,
    pub end_at: Option<i64>,
    pub all_day: bool,
    pub duration_min: Option<i32>,
    pub recurrence_rrule: Option<String>,
    pub estimate_pomos: Option<i32>,
    pub tags: Option<Vec<String>>,
    pub created_at: i64,
    pub updated_at: i64,
    pub deleted_at: Option<i64>,
    pub is_synced: bool,
    pub local_updated_at: i64,
}

#[derive(Debug)]
pub struct CreateTaskParams {
    pub list_id: String,
    pub title: String,
    pub description: Option<String>,
    pub priority: Option<i32>,
    pub start_at: Option<i64>,
    pub end_at: Option<i64>,
    pub all_day: Option<bool>,
    pub duration_min: Option<i32>,
    pub recurrence_rrule: Option<String>,
    pub status: Option<String>,
    pub estimate_pomos: Option<i32>,
    pub tags: Option<Vec<String>>,
}

#[derive(Debug)]
pub struct UpdateTaskParams {
    pub id: String,
    pub list_id: Option<String>,
    pub title: Option<String>,
    pub description: Option<String>,
    pub priority: Option<i32>,
    pub start_at: Option<i64>,
    pub end_at: Option<i64>,
    pub all_day: Option<bool>,
    pub duration_min: Option<i32>,
    pub recurrence_rrule: Option<String>,
    pub status: Option<String>,
    pub estimate_pomos: Option<i32>,
    pub tags: Option<Vec<String>>,
}

impl Task {
    /// A value-for-value copy.
    pub fn duplicate(&self) -> (r: Task)
        ensures
            same_task(r, *self),
    {
        Task {
            id: self.id.clone(),
            list_id: self.list_id.clone(),
            title: self.title.clone(),
            description: clone_opt_string(&self.description),
            priority: self.priority,
            status: self.status.clone(),
            due_at: self.due_at,
            start_at: self.start_at,
            end_at: self.end_at,
            all_day: self.all_day,
            duration_min: self.duration_min,
            recurrence_rrule: clone_opt_string(&self.recurrence_rrule),
            estimate_pomos: self.estimate_pomos,
            tags: clone_opt_string_vec(&self.tags),
            created_at: self.created_at,
            updated_at: self.updated_at,
            deleted_at: self.deleted_at,
            is_synced: self.is_synced,
            local_updated_at: self.local_updated_at,
        }
    }
}

/// Two tasks hold the same values; the tag vectors are compared by
/// their contents.
pub open spec fn same_task(a: Task, b: Task) -> bool {
    &&& a.id == b.id
    &&& a.list_id == b.list_id
    &&& a.title == b.title
    &&& a.description == b.description
    &&& a.priority == b.priority
    &&& a.status == b.status
    &&& a.due_at == b.due_at
    &&& a.start_at == b.start_at
    &&& a.end_at == b.end_at
    &&& a.all_day == b.all_day
    &&& a.duration_min == b.duration_min
    &&& a.recurrence_rrule == b.recurrence_rrule
    &&& a.estimate_pomos == b.estimate_pomos
    &&& crate::store::same_opt_string_vec(a.tags, b.tags)
    &&& a.created_at == b.created_at
    &&& a.updated_at == b.updated_at
    &&& a.deleted_at == b.deleted_at
    &&& a.is_synced == b.is_synced
    &&& a.local_updated_at == b.local_updated_at
}

pub open spec fn tasks_wf(s: Seq<Task>, clock: int) -> bool {
    &&& forall|i: int, j: int|
        0 <= i < j < s.len() ==> (#[trigger] s[i].id@) != (#[trigger] s[j].id@)
    &&& forall|i: int|
        0 <= i < s.len()
            ==> (#[trigger] s[i]).created_at <= s[i].local_updated_at <= clock
}

pub open spec fn has_task_id(s: Seq<Task>, id: Seq<char>) -> bool {
    exists|i: int| 0 <= i < s.len() && (#[trigger] s[i].id@) == id
}

/// Everything but tasks (and the clock) is untouched.
pub open spec fn only_tasks_changed(pre: Store, post: Store) -> bool {
    &&& post.workspaces@ == pre.workspaces@
    &&& post.lists@ == pre.lists@
    &&& post.tags@ == pre.tags@
    &&& post.task_tags@ == pre.task_tags@
    &&& post.comments@ == pre.comments@
    &&& post.attachments@ == pre.attachments@
    &&& post.habits@ == pre.habits@
    &&& post.habit_logs@ == pre.habit_logs@
    &&& post.focus_sessions@ == pre.focus_sessions@
    &&& post.time_blocks@ == pre.time_blocks@
}

/// Creates a task, stamped dirty.  Defaults: status "todo", not
/// all-day, no tags.
pub fn tasks_create(
    store: &mut Store,
    id: String,
    now: i64,
    params: CreateTaskParams,
) -> (r: Result<Task, StoreError>)
    requires
        old(store).wf(),
        now >= old(store).clock,
    ensures
        final(store).wf(),
        only_tasks_changed(*old(store), *final(store)),
        match r {
            Ok(t) => {
                &&& !has_task_id(old(store).tasks@, t.id@)
                &&& final(store).tasks@.len() == old(store).tasks@.len() + 1
                &&& final(store).tasks@.take(old(store).tasks@.len() as int)
                    == old(store).tasks@
                &&& same_task(t, final(store).tasks@.last())
                &&& final(store).clock == now
                &&& t.id@ == id@
                &&& t.list_id == params.list_id
                &&& t.title == params.title
                &&& t.description == params.description
                &&& t.priority == params.priority
                &&& match params.status {
                    Some(s) => t.status == s,
                    None => t.status@ == "todo"@,
                }
                &&& t.due_at.is_none()
                &&& t.start_at == params.start_at
                &&& t.end_at == params.end_at
                &&& t.all_day == (params.all_day matches Some(true))
                &&& t.duration_min == params.duration_min
                &&& t.recurrence_rrule == params.recurrence_rrule
                &&& match params.tags {
                    Some(tags) => t.tags matches Some(v) && v@ == tags@,
                    None => t.tags matches Some(v) && v@.len() == 0,
                }
                &&& t.created_at == now
                &&& t.updated_at == now
                &&& t.local_updated_at == now
                &&& t.deleted_at.is_none()
                &&& !t.is_synced
            },
            Err(e) => {
                &&& e == StoreError::Constraint
                &&& has_task_id(old(store).tasks@, id@)
                &&& *final(store) == *old(store)
            },
        },
{
    let n = store.tasks.len();
    let mut i: usize = 0;
    while i < n
        invariant
            0 <= i <= n,
            n == store.tasks@.len(),
            *store == *old(store),
            forall|j: int| 0 <= j < i ==> (#[trigger] store.tasks@[j].id@) != id@,
        decreases n - i,
    {
        if store.tasks[i].id == id {
            return Err(StoreError::Constraint);
        }
        i += 1;
    }
    let task = Task {
        id,
        list_id: params.list_id,
        title: params.title,
        description: params.description,
        priority: params.priority,
        status: match params.status {
            Some(s) => s,
            None => String::from_str("todo"),
        },
        due_at: None,
        start_at: params.start_at,
        end_at: params.end_at,
        all_day: match params.all_day {
            Some(b) => b,
            None => false,
        },
        duration_min: params.duration_min,
        recurrence_rrule: params.recurrence_rrule,
        estimate_pomos: params.estimate_pomos,
        tags: match params.tags {
            Some(tags) => Some(tags),
            None => Some(Vec::new()),
        },
        created_at: now,
        updated_at: now,
        deleted_at: None,
        is_synced: false,
        local_updated_at: now,
    };
    let result = task.duplicate();
    store.tasks.push(task);
    store.clock = now;
    proof {
        assert(store.tasks@.take(old(store).tasks@.len() as int) =~= old(store).tasks@);
        assert forall|p: int, q: int| 0 <= p < q < store.tasks@.len()
            implies (#[trigger] store.tasks@[p].id@) != (#[trigger] store.tasks@[q].id@) by {
            if q < store.tasks@.len() - 1 {
                assert(store.tasks@[p] == old(store).tasks@[p]);
                assert(store.tasks@[q] == old(store).tasks@[q]);
            } else {
                assert(store.tasks@[p] == old(store).tasks@[p]);
            }
        }
    }
    Ok(result)
}

/// Looks a task up by id.  Tombstoned tasks stay addressable here, for
/// sync's sake.
pub fn tasks_get(store: &Store, id: &String) -> (r: Result<Task, StoreError>)
    requires
        store.wf(),
    ensures
        match r {
            Ok(t) => exists|i: int|
                0 <= i < store.tasks@.len() && same_task(#[trigger] store.tasks@[i], t)
                    && t.id@ == id@,
            Err(e) => {
                &&& e == StoreError::NotFound
                &&& !has_task_id(store.tasks@, id@)
            },
        },
{
    let n = store.tasks.len();
    let mut i: usize = 0;
    while i < n
        invariant
            0 <= i <= n,
            n == store.tasks@.len(),
            forall|j: int| 0 <= j < i ==> (#[trigger] store.tasks@[j].id@) != id@,
        decreases n - i,
    {
        if store.tasks[i].id == *id {
            return Ok(store.tasks[i].duplicate());
        }
        i += 1;
    }
    Err(StoreError::NotFound)
}

/// Updates a task; absent parameters leave fields unchanged.  Stamps
/// the task dirty.
#[verifier::rlimit(60)]
pub fn tasks_update(
    store: &mut Store,
    params: UpdateTaskParams,
    now: i64,
) -> (r: Result<Task, StoreError>)
    requires
        old(store).wf(),
        now >= old(store).clock,
    ensures
        final(store).wf(),
        only_tasks_changed(*old(store), *final(store)),
        match r {
            Ok(t) => exists|i: int|
                {
                    &&& 0 <= i < old(store).tasks@.len()
                    &&& (#[trigger] old(store).tasks@[i].id@) == params.id@
                    &&& final(store).clock == now
                    &&& same_task(t, final(store).tasks@[i])
                    &&& final(store).tasks@ == old(store).tasks@.update(i, Task {
                        list_id: match params.list_id {
                            Some(v) => v,
                            None => old(store).tasks@[i].list_id,
                        },
                        title: match params.title {
                            Some(v) => v,
                            None => old(store).tasks@[i].title,
                        },
                        description: match params.description {
                            Some(v) => Some(v),
                            None => old(store).tasks@[i].description,
                        },
                        priority: match params.priority {
                            Some(v) => Some(v),
                            None => old(store).tasks@[i].priority,
                        },
                        status: match params.status {
                            Some(v) => v,
                            None => old(store).tasks@[i].status,
                        },
                        start_at: match params.start_at {
                            Some(v) => Some(v),
                            None => old(store).tasks@[i].start_at,
                        },
                        end_at: match params.end_at {
                            Some(v) => Some(v),
                            None => old(store).tasks@[i].end_at,
                        },
                        all_day: match params.all_day {
                            Some(v) => v,
                            None => old(store).tasks@[i].all_day,
                        },
                        duration_min: match params.duration_min {
                            Some(v) => Some(v),
                            None => old(store).tasks@[i].duration_min,
                        },
                        recurrence_rrule: match params.recurrence_rrule {
                            Some(v) => Some(v),
                            None => old(store).tasks@[i].recurrence_rrule,
                        },
                        estimate_pomos: match params.estimate_pomos {
                            Some(v) => Some(v),
                            None => old(store).tasks@[i].estimate_pomos,
                        },
                        tags: match params.tags {
                            Some(v) => Some(v),
                            None => old(store).tasks@[i].tags,
                        },
                        updated_at: now,
                        local_updated_at: now,
                        is_synced: false,
                        ..old(store).tasks@[i]
                    })
                },
            Err(e) => {
                &&& e == StoreError::NotFound
                &&& !has_task_id(old(store).tasks@, params.id@)
                &&& *final(store) == *old(store)
            },
        },
{
    let UpdateTaskParams {
        id,
        list_id,
        title,
        description,
        priority,
        start_at,
        end_at,
        all_day,
        duration_min,
        recurrence_rrule,
        status,
        estimate_pomos,
        tags,
    } = params;
    let n = store.tasks.len();
    let mut i: usize = 0;
    while i < n
        invariant
            0 <= i <= n,
            n == store.tasks@.len(),
            *store == *old(store),
            forall|j: int| 0 <= j < i ==> (#[trigger] store.tasks@[j].id@) != id@,
        decreases n - i,
    {
        if store.tasks[i].id == id {
            let mut task = store.tasks.remove(i);
            if let Some(v) = list_id {
                task.list_id = v;
            }
            if let Some(v) = title {
                task.title = v;
            }
            if let Some(v) = description {
                task.description = Some(v);
            }
            if let Some(v) = priority {
                task.priority = Some(v);
            }
            if let Some(v) = status {
                task.status = v;
            }
            if let Some(v) = start_at {
                task.start_at = Some(v);
            }
            if let Some(v) = end_at {
                task.end_at = Some(v);
            }
            if let Some(v) = all_day {
                task.all_day = v;
            }
            if let Some(v) = duration_min {
                task.duration_min = Some(v);
            }
            if let Some(v) = recurrence_rrule {
                task.recurrence_rrule = Some(v);
            }
            if let Some(v) = estimate_pomos {
                task.estimate_pomos = Some(v);
            }
            if let Some(v) = tags {
                task.tags = Some(v);
            }
            task.updated_at = now;
            task.local_updated_at = now;
            task.is_synced = false;
            let result = task.duplicate();
            store.tasks.insert(i, task);
            store.clock = now;
            proof {
                assert(store.tasks@ =~= old(store).tasks@.update(
                    i as int,
                    store.tasks@[i as int],
                ));
                assert forall|p: int, q: int| 0 <= p < q < store.tasks@.len()
                    implies (#[trigger] store.tasks@[p].id@)
                        != (#[trigger] store.tasks@[q].id@) by {
                    assert(store.tasks@[p].id@ == old(store).tasks@[p].id@);
                    assert(store.tasks@[q].id@ == old(store).tasks@[q].id@);
                }
            }
            return Ok(result);
        }
        i += 1;
    }
    Err(StoreError::NotFound)
}

/// Soft-deletes a task: tombstoned, never removed.  Returns whether a
/// row was affected.
pub fn tasks_delete(store: &mut Store, id: &String, now: i64) -> (r: bool)
    requires
        old(store).wf(),
        now >= old(store).clock,
    ensures
        final(store).wf(),
        only_tasks_changed(*old(store), *final(store)),
        r == has_task_id(old(store).tasks@, id@),
        r ==> exists|i: int|
            {
                &&& 0 <= i < old(store).tasks@.len()
                &&& (#[trigger] old(store).tasks@[i].id@) == id@
                &&& final(store).tasks@ == old(store).tasks@.update(i, Task {
                    deleted_at: Some(now),
                    local_updated_at: now,
                    is_synced: false,
                    ..old(store).tasks@[i]
                })
                &&& final(store).clock == now
            },
        !r ==> *final(store) == *old(store),
{
    let n = store.tasks.len();
    let mut i: usize = 0;
    while i < n
        invariant
            0 <= i <= n,
            n == store.tasks@.len(),
            *store == *old(store),
            forall|j: int| 0 <= j < i ==> (#[trigger] store.tasks@[j].id@) != id@,
        decreases n - i,
    {
        if store.tasks[i].id == *id {
            let mut task = store.tasks.remove(i);
            task.deleted_at = Some(now);
            task.local_updated_at = now;
            task.is_synced = false;
            store.tasks.insert(i, task);
            store.clock = now;
            proof {
                assert(store.tasks@ =~= old(store).tasks@.update(
                    i as int,
                    store.tasks@[i as int],
                ));
                assert forall|p: int, q: int| 0 <= p < q < store.tasks@.len()
                    implies (#[trigger] store.tasks@[p].id@)
                        != (#[trigger] store.tasks@[q].id@) by {
                    assert(store.tasks@[p].id@ == old(store).tasks@[p].id@);
                    assert(store.tasks@[q].id@ == old(store).tasks@[q].id@);
                }
            }
            return true;
        }
        i += 1;
    }
    false
}

/// `t` holds the same values as some element of `s`.
pub open spec fn task_in(t: Task, s: Seq<Task>) -> bool {
    exists|j: int| 0 <= j < s.len() && same_task(t, #[trigger] s[j])
}

/// Tasks are listed newest creation first.
pub open spec fn tasks_sorted_newest_first(s: Seq<Task>) -> bool {
    forall|i: int, j: int|
        0 <= i < j < s.len()
            ==> (#[trigger] s[i]).created_at >= (#[trigger] s[j]).created_at
}

/// All live tasks, newest creation first: the result and the live
/// tasks hold the same values, element for element.
pub fn tasks_list(store: &Store) -> (r: Vec<Task>)
    requires
        store.wf(),
    ensures
        r@.len() == store.tasks@.filter(|t: Task| t.deleted_at.is_none()).len(),
        forall|i: int|
            0 <= i < r@.len()
                ==> task_in(#[trigger] r@[i], store.tasks@.filter(|t: Task| t.deleted_at.is_none())),
        forall|j: int|
            0 <= j < store.tasks@.len() && (#[trigger] store.tasks@[j]).deleted_at.is_none()
                ==> task_in(store.tasks@[j], r@),
        tasks_sorted_newest_first(r@),
{
    broadcast use vstd::seq_lib::group_to_multiset_ensures;
    broadcast use vstd::multiset::group_multiset_axioms;

    let ghost live = |t: Task| t.deleted_at.is_none();
    let mut r: Vec<Task> = Vec::new();
    let n = store.tasks.len();
    let mut i: usize = 0;
    proof {
        assert(store.tasks@.take(0).filter(live) =~= Seq::<Task>::empty());
    }
    while i < n
        invariant
            0 <= i <= n,
            n == store.tasks@.len(),
            r@.len() == store.tasks@.take(i as int).filter(live).len(),
            forall|j: int|
                0 <= j < r@.len()
                    ==> same_task(#[trigger] r@[j], store.tasks@.take(i as int).filter(live)[j]),
            live == (|t: Task| t.deleted_at.is_none()),
        decreases n - i,
    {
        let ghost r_pre = r@;
        if store.tasks[i].deleted_at.is_none() {
            r.push(store.tasks[i].duplicate());
        }
        proof {
            reveal(Seq::filter);
            let k = i as int;
            assert(store.tasks@.take(k + 1).drop_last() =~= store.tasks@.take(k));
            assert(store.tasks@.take(k + 1).last() == store.tasks@[k]);
            if live(store.tasks@[k]) {
                assert(store.tasks@.take(k + 1).filter(live)
                    == store.tasks@.take(k).filter(live).push(store.tasks@[k]));
                assert(same_task(r@.last(), store.tasks@[k]));
            } else {
                assert(store.tasks@.take(k + 1).filter(live)
                    == store.tasks@.take(k).filter(live));
            }
        }
        i += 1;
    }
    proof {
        assert(store.tasks@.take(n as int) =~= store.tasks@);
    }
    // Order the copies, newest creation first.
    let ghost flt = store.tasks@.filter(|t: Task| t.deleted_at.is_none());
    let ghost fwd_seq = r@;
    let mut src = r;
    let mut out: Vec<Task> = Vec::new();
    proof {
        assert(out@.to_multiset().add(src@.to_multiset()) =~= fwd_seq.to_multiset());
    }
    while src.len() > 0
        invariant
            out@.to_multiset().add(src@.to_multiset()) == fwd_seq.to_multiset(),
            out@.len() + src@.len() == fwd_seq.len(),
            tasks_sorted_newest_first(out@),
            forall|i: int, j: int|
                0 <= i < out@.len() && 0 <= j < src@.len()
                    ==> (#[trigger] out@[i]).created_at >= (#[trigger] src@[j]).created_at,
        decreases src.len(),
    {
        let mut m: usize = 0;
        let mut k: usize = 1;
        while k < src.len()
            invariant
                src@.len() > 0,
                0 <= m < k <= src@.len(),
                forall|j: int|
                    0 <= j < k
                        ==> src@[m as int].created_at >= (#[trigger] src@[j]).created_at,
            decreases src.len() - k,
        {
            if src[k].created_at > src[m].created_at {
                m = k;
            }
            k += 1;
        }
        let ghost pre = src@;
        let picked = src.remove(m);
        let ghost out_pre = out@;
        out.push(picked);
        proof {
            assert(pre.contains(picked));
            pre.to_multiset_ensures();
            assert(pre.to_multiset().count(picked) > 0);
            assert(src@ == pre.remove(m as int));
            vstd::seq_lib::to_multiset_remove(pre, m as int);
            vstd::seq_lib::to_multiset_build(out_pre, picked);
            assert(out@.to_multiset().add(src@.to_multiset()) =~= fwd_seq.to_multiset());
            assert forall|j: int| 0 <= j < src@.len()
                implies picked.created_at >= (#[trigger] src@[j]).created_at by {
                if j < m as int {
                    assert(src@[j] == pre[j]);
                } else {
                    assert(src@[j] == pre[j + 1]);
                }
            }
        }
    }
    proof {
        assert(src@.to_multiset() =~= vstd::multiset::Multiset::empty());
        assert(out@.to_multiset() =~= fwd_seq.to_multiset());
        out@.to_multiset_ensures();
        fwd_seq.to_multiset_ensures();
        assert forall|i: int| 0 <= i < out@.len()
            implies task_in(#[trigger] out@[i], flt) by {
            assert(out@.contains(out@[i]));
            assert(out@.to_multiset().count(out@[i]) > 0);
            assert(fwd_seq.to_multiset().count(out@[i]) > 0);
            assert(fwd_seq.contains(out@[i]));
            let k = choose|k: int| 0 <= k < fwd_seq.len() && fwd_seq[k] == out@[i];
            assert(same_task(fwd_seq[k], flt[k]));
            assert(same_task(out@[i], flt[k]));
        }
        assert forall|j: int|
            0 <= j < store.tasks@.len() && (#[trigger] store.tasks@[j]).deleted_at.is_none()
            implies task_in(store.tasks@[j], out@) by {
            store.tasks@.lemma_filter_contains(|t: Task| t.deleted_at.is_none(), j);
            assert(flt.contains(store.tasks@[j]));
            let p = choose|p: int| 0 <= p < flt.len() && flt[p] == store.tasks@[j];
            assert(fwd_seq.contains(fwd_seq[p]));
            assert(fwd_seq.to_multiset().count(fwd_seq[p]) > 0);
            assert(out@.to_multiset().count(fwd_seq[p]) > 0);
            assert(out@.contains(fwd_seq[p]));
            let i = choose|i: int| 0 <= i < out@.len() && out@[i] == fwd_seq[p];
            assert(same_task(fwd_seq[p], flt[p]));
            assert(same_task(store.tasks@[j], out@[i]));
        }
    }
    out
}

/// ASCII letters compare case-insensitively, as the store's pattern
/// match does; everything else compares exactly.
pub open spec fn lower_char(c: char) -> char {
    if 'A' <= c && c <= 'Z' {
        (((c as u8) + 32) as char)
    } else {
        c
    }
}

/// `needle` occurs in `hay` starting at position `p`.
pub open spec fn matches_at(hay: Seq<char>, needle: Seq<char>, p: int) -> bool {
    forall|k: int|
        0 <= k < needle.len() ==> lower_char(#[trigger] hay[p + k]) == lower_char(needle[k])
}

/// `needle` occurs somewhere in `hay`, ignoring ASCII case.
pub open spec fn contains_ci(hay: Seq<char>, needle: Seq<char>) -> bool {
    exists|p: int| 0 <= p <= hay.len() - needle.len() && matches_at(hay, needle, p)
}

fn lower_char_exec(c: char) -> (r: char)
    ensures
        r == lower_char(c),
{
    if c >= 'A' && c <= 'Z' {
        ((c as u8) + 32) as char
    } else {
        c
    }
}

/// Case-insensitive substring search, the library's own account of the
/// store's `LIKE '%needle%'` filter.
pub fn str_contains_ci(hay: &str, needle: &str) -> (r: bool)
    ensures
        r == contains_ci(hay@, needle@),
{
    let hlen = hay.unicode_len();
    let nlen = needle.unicode_len();
    if nlen > hlen {
        proof {
            assert(!contains_ci(hay@, needle@));
        }
        return false;
    }
    let mut p: usize = 0;
    while p <= hlen - nlen
        invariant
            0 <= p <= hlen - nlen + 1,
            nlen <= hlen,
            hlen == hay@.len(),
            nlen == needle@.len(),
            forall|q: int| 0 <= q < p ==> !matches_at(hay@, needle@, q),
        decreases hlen - nlen + 1 - p,
    {
        let mut k: usize = 0;
        let mut matched = true;
        while k < nlen
            invariant
                0 <= k <= nlen,
                0 <= p <= hlen - nlen,
                hlen == hay@.len(),
                nlen == needle@.len(),
                matched ==> forall|m: int|
                    0 <= m < k
                        ==> lower_char(#[trigger] hay@[p + m]) == lower_char(needle@[m]),
                !matched ==> !matches_at(hay@, needle@, p as int),
            decreases nlen - k,
        {
            let hc = lower_char_exec(hay.get_char(p + k));
            let nc = lower_char_exec(needle.get_char(k));
            if hc != nc {
                proof {
                    assert(lower_char(hay@[p + k]) != lower_char(needle@[k as int]));
                    assert(!matches_at(hay@, needle@, p as int));
                }
                matched = false;
                k = nlen;
            } else {
                k += 1;
            }
        }
        if matched {
            proof {
                assert(matches_at(hay@, needle@, p as int));
            }
            return true;
        }
        p += 1;
    }
    proof {
        assert forall|q: int| 0 <= q <= hay@.len() - needle@.len()
            implies !matches_at(hay@, needle@, q) by {
        }
        assert(!contains_ci(hay@, needle@));
    }
    false
}

/// The search predicate: a live task whose title or description holds
/// the query, ignoring ASCII case.
pub open spec fn search_hit(t: Task, query: Seq<char>) -> bool {
    &&& t.deleted_at.is_none()
    &&& (contains_ci(t.title@, query) || match t.description {
        Some(d) => contains_ci(d@, query),
        None => false,
    })
}

/// The live tasks whose title or description holds the query, newest
/// creation first.  The query is matched literally, character for
/// character (with ASCII case folded): unlike a SQL LIKE pattern, `%`
/// and `_` carry no special meaning here.
pub fn tasks_search(store: &Store, query: &str) -> (r: Vec<Task>)
    requires
        store.wf(),
    ensures
        r@.len() == store.tasks@.filter(|t: Task| search_hit(t, query@)).len(),
        forall|i: int|
            0 <= i < r@.len()
                ==> task_in(#[trigger] r@[i], store.tasks@.filter(|t: Task| search_hit(t, query@))),
        forall|j: int|
            0 <= j < store.tasks@.len() && search_hit(#[trigger] store.tasks@[j], query@)
                ==> task_in(store.tasks@[j], r@),
        tasks_sorted_newest_first(r@),
{
    broadcast use vstd::seq_lib::group_to_multiset_ensures;
    broadcast use vstd::multiset::group_multiset_axioms;

    let ghost hit = |t: Task| search_hit(t, query@);
    let mut r: Vec<Task> = Vec::new();
    let n = store.tasks.len();
    let mut i: usize = 0;
    proof {
        assert(store.tasks@.take(0).filter(hit) =~= Seq::<Task>::empty());
    }
    while i < n
        invariant
            0 <= i <= n,
            n == store.tasks@.len(),
            r@.len() == store.tasks@.take(i as int).filter(hit).len(),
            forall|j: int|
                0 <= j < r@.len()
                    ==> same_task(#[trigger] r@[j], store.tasks@.take(i as int).filter(hit)[j]),
            hit == (|t: Task| search_hit(t, query@)),
        decreases n - i,
    {
        let ghost r_pre = r@;
        let mut keep = false;
        if store.tasks[i].deleted_at.is_none() {
            if str_contains_ci(store.tasks[i].title.as_str(), query) {
                keep = true;
            } else {
                if let Some(d) = &store.tasks[i].description {
                    if str_contains_ci(d.as_str(), query) {
                        keep = true;
                    }
                }
            }
        }
        if keep {
            r.push(store.tasks[i].duplicate());
        }
        proof {
            assert(keep == hit(store.tasks@[i as int]));
            reveal(Seq::filter);
            let k = i as int;
            assert(store.tasks@.take(k + 1).drop_last() =~= store.tasks@.take(k));
            assert(store.tasks@.take(k + 1).last() == store.tasks@[k]);
            if hit(store.tasks@[k]) {
                assert(store.tasks@.take(k + 1).filter(hit)
                    == store.tasks@.take(k).filter(hit).push(store.tasks@[k]));
                assert(same_task(r@.last(), store.tasks@[k]));
            } else {
                assert(store.tasks@.take(k + 1).filter(hit)
                    == store.tasks@.take(k).filter(hit));
            }
        }
        i += 1;
    }
    proof {
        assert(store.tasks@.take(n as int) =~= store.tasks@);
    }
    // Order the copies, newest creation first.
    let ghost flt = store.tasks@.filter(|t: Task| search_hit(t, query@));
    let ghost fwd_seq = r@;
    let mut src = r;
    let mut out: Vec<Task> = Vec::new();
    proof {
        assert(out@.to_multiset().add(src@.to_multiset()) =~= fwd_seq.to_multiset());
    }
    while src.len() > 0
        invariant
            out@.to_multiset().add(src@.to_multiset()) == fwd_seq.to_multiset(),
            out@.len() + src@.len() == fwd_seq.len(),
            tasks_sorted_newest_first(out@),
            forall|i: int, j: int|
                0 <= i < out@.len() && 0 <= j < src@.len()
                    ==> (#[trigger] out@[i]).created_at >= (#[trigger] src@[j]).created_at,
        decreases src.len(),
    {
        let mut m: usize = 0;
        let mut k: usize = 1;
        while k < src.len()
            invariant
                src@.len() > 0,
                0 <= m < k <= src@.len(),
                forall|j: int|
                    0 <= j < k
                        ==> src@[m as int].created_at >= (#[trigger] src@[j]).created_at,
            decreases src.len() - k,
        {
            if src[k].created_at > src[m].created_at {
                m = k;
            }
            k += 1;
        }
        let ghost pre = src@;
        let picked = src.remove(m);
        let ghost out_pre = out@;
        out.push(picked);
        proof {
            assert(pre.contains(picked));
            pre.to_multiset_ensures();
            assert(pre.to_multiset().count(picked) > 0);
            assert(src@ == pre.remove(m as int));
            vstd::seq_lib::to_multiset_remove(pre, m as int);
            vstd::seq_lib::to_multiset_build(out_pre, picked);
            assert(out@.to_multiset().add(src@.to_multiset()) =~= fwd_seq.to_multiset());
            assert forall|j: int| 0 <= j < src@.len()
                implies picked.created_at >= (#[trigger] src@[j]).created_at by {
                if j < m as int {
                    assert(src@[j] == pre[j]);
                } else {
                    assert(src@[j] == pre[j + 1]);
                }
            }
        }
    }
    proof {
        assert(src@.to_multiset() =~= vstd::multiset::Multiset::empty());
        assert(out@.to_multiset() =~= fwd_seq.to_multiset());
        out@.to_multiset_ensures();
        fwd_seq.to_multiset_ensures();
        assert forall|i: int| 0 <= i < out@.len()
            implies task_in(#[trigger] out@[i], flt) by {
            assert(out@.contains(out@[i]));
            assert(out@.to_multiset().count(out@[i]) > 0);
            assert(fwd_seq.to_multiset().count(out@[i]) > 0);
            assert(fwd_seq.contains(out@[i]));
            let k = choose|k: int| 0 <= k < fwd_seq.len() && fwd_seq[k] == out@[i];
            assert(same_task(fwd_seq[k], flt[k]));
            assert(same_task(out@[i], flt[k]));
        }
        assert forall|j: int|
            0 <= j < store.tasks@.len() && search_hit(#[trigger] store.tasks@[j], query@)
            implies task_in(store.tasks@[j], out@) by {
            store.tasks@.lemma_filter_contains(|t: Task| search_hit(t, query@), j);
            assert(flt.contains(store.tasks@[j]));
            let p = choose|p: int| 0 <= p < flt.len() && flt[p] == store.tasks@[j];
            assert(fwd_seq.contains(fwd_seq[p]));
            assert(fwd_seq.to_multiset().count(fwd_seq[p]) > 0);
            assert(out@.to_multiset().count(fwd_seq[p]) > 0);
            assert(out@.contains(fwd_seq[p]));
            let i = choose|i: int| 0 <= i < out@.len() && out@[i] == fwd_seq[p];
            assert(same_task(fwd_seq[p], flt[p]));
            assert(same_task(store.tasks@[j], out@[i]));
        }
    }
    out
}

} // verus!
