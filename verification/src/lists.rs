//! Task lists, and the parent-deletion policy: deleting a list moves
//! its tasks to the default list, and the default list itself can
//! never be deleted.
//!
//! Lists deliberately keep the plain row shape without the
//! change-tracking fields: deleting a list is the one sanctioned hard
//! delete, so a list row never carries a tombstone, and a transport
//! that syncs lists wraps them in the engine's generic record instead.

#![verifier::loop_isolation(false)]

use vstd::prelude::*;

use crate::store::{Store, StoreError, clone_opt_string};
use crate::tasks::Task;

verus! {

#[derive(Debug)]
pub struct List {
    pub id: String,
    pub name: String,
    pub description: Option<String>,
    pub color: Option<String>,
    pub icon: Option<String>,
    pub is_default: bool,
    pub sort_order: i32,
    pub created_at: i64,
    pub updated_at: i64,
}

#[derive(Debug)]
pub struct CreateListParams {
    pub name: String,
    pub description: Option<String>,
    pub color: Option<String>,
    pub icon: Option<String>,
}

#[derive(Debug)]
pub struct UpdateListParams {
    pub id: String,
    pub name: Option<String>,
    pub description: Option<String>,
    pub color: Option<String>,
    pub icon: Option<String>,
    pub sort_order: Option<i32>,
}

impl List {
    /// A value-for-value copy.
    pub fn duplicate(&self) -> (r: List)
        ensures
            r == *self,
    {
        List {
            id: self.id.clone(),
            name: self.name.clone(),
            description: clone_opt_string(&self.description),
            color: clone_opt_string(&self.color),
            icon: clone_opt_string(&self.icon),
            is_default: self.is_default,
            sort_order: self.sort_order,
            created_at: self.created_at,
            updated_at: self.updated_at,
        }
    }
}

pub open spec fn lists_wf(s: Seq<List>) -> bool {
    forall|i: int, j: int|
        0 <= i < j < s.len() ==> (#[trigger] s[i].id@) != (#[trigger] s[j].id@)
}

pub open spec fn has_list_id(s: Seq<List>, id: Seq<char>) -> bool {
    exists|i: int| 0 <= i < s.len() && (#[trigger] s[i].id@) == id
}

pub open spec fn has_default_list(s: Seq<List>) -> bool {
    exists|i: int| 0 <= i < s.len() && (#[trigger] s[i]).is_default
}

/// The next sort order: one past the largest handed out so far, from a
/// floor of zero, held at the top of the range.
pub open spec fn next_sort_order(s: Seq<List>) -> int
    decreases s.len(),
{
    if s.len() == 0 {
        1
    } else {
        let rest = next_sort_order(s.drop_last());
        if s.last().sort_order + 1 > rest {
            if s.last().sort_order == i32::MAX {
                i32::MAX as int
            } else {
                s.last().sort_order + 1
            }
        } else {
            rest
        }
    }
}

/// Everything but lists (and the clock) is untouched.
pub open spec fn only_lists_changed(pre: Store, post: Store) -> bool {
    &&& post.workspaces@ == pre.workspaces@
    &&& post.tasks@ == pre.tasks@
    &&& post.tags@ == pre.tags@
    &&& post.task_tags@ == pre.task_tags@
    &&& post.comments@ == pre.comments@
    &&& post.attachments@ == pre.attachments@
    &&& post.habits@ == pre.habits@
    &&& post.habit_logs@ == pre.habit_logs@
    &&& post.focus_sessions@ == pre.focus_sessions@
    &&& post.time_blocks@ == pre.time_blocks@
}

/// Everything but lists and tasks (and the clock) is untouched.
pub open spec fn only_lists_and_tasks_changed(pre: Store, post: Store) -> bool {
    &&& post.workspaces@ == pre.workspaces@
    &&& post.tags@ == pre.tags@
    &&& post.task_tags@ == pre.task_tags@
    &&& post.comments@ == pre.comments@
    &&& post.attachments@ == pre.attachments@
    &&& post.habits@ == pre.habits@
    &&& post.habit_logs@ == pre.habit_logs@
    &&& post.focus_sessions@ == pre.focus_sessions@
    &&& post.time_blocks@ == pre.time_blocks@
}

/// Creates a list with the next sort order.  New lists are never the
/// default; the default is established by seeding.
pub fn lists_create(
    store: &mut Store,
    id: String,
    now: i64,
    params: CreateListParams,
) -> (r: Result<List, StoreError>)
    requires
        old(store).wf(),
    ensures
        final(store).wf(),
        only_lists_changed(*old(store), *final(store)),
        final(store).clock == old(store).clock,
        match r {
            Ok(l) => {
                &&& !has_list_id(old(store).lists@, l.id@)
                &&& final(store).lists@ == old(store).lists@.push(l)
                &&& l.id@ == id@
                &&& l.name == params.name
                &&& l.description == params.description
                &&& l.color == params.color
                &&& l.icon == params.icon
                &&& !l.is_default
                &&& l.sort_order == next_sort_order(old(store).lists@)
                &&& l.created_at == now
                &&& l.updated_at == now
            },
            Err(e) => {
                &&& e == StoreError::Constraint
                &&& has_list_id(old(store).lists@, id@)
                &&& *final(store) == *old(store)
            },
        },
{
    let n = store.lists.len();
    let mut i: usize = 0;
    let mut order: i32 = 1;
    proof {
        assert(next_sort_order(store.lists@.take(0)) == 1);
    }
    while i < n
        invariant
            0 <= i <= n,
            n == store.lists@.len(),
            *store == *old(store),
            order == next_sort_order(store.lists@.take(i as int)),
            forall|j: int| 0 <= j < i ==> (#[trigger] store.lists@[j].id@) != id@,
        decreases n - i,
    {
        if store.lists[i].id == id {
            return Err(StoreError::Constraint);
        }
        let candidate = if store.lists[i].sort_order == i32::MAX {
            i32::MAX
        } else {
            store.lists[i].sort_order + 1
        };
        if candidate > order {
            order = candidate;
        }
        proof {
            let k = i as int;
            assert(store.lists@.take(k + 1).drop_last() =~= store.lists@.take(k));
            assert(store.lists@.take(k + 1).last() == store.lists@[k]);
        }
        i += 1;
    }
    proof {
        assert(store.lists@.take(n as int) =~= store.lists@);
    }
    let list = List {
        id,
        name: params.name,
        description: params.description,
        color: params.color,
        icon: params.icon,
        is_default: false,
        sort_order: order,
        created_at: now,
        updated_at: now,
    };
    let result = list.duplicate();
    store.lists.push(list);
    proof {
        assert forall|p: int, q: int| 0 <= p < q < store.lists@.len()
            implies (#[trigger] store.lists@[p].id@) != (#[trigger] store.lists@[q].id@) by {
            if q < store.lists@.len() - 1 {
                assert(store.lists@[p] == old(store).lists@[p]);
                assert(store.lists@[q] == old(store).lists@[q]);
            } else {
                assert(store.lists@[p] == old(store).lists@[p]);
            }
        }
    }
    Ok(result)
}

/// Looks a list up by id.
pub fn lists_get(store: &Store, id: &String) -> (r: Result<List, StoreError>)
    requires
        store.wf(),
    ensures
        match r {
            Ok(l) => exists|i: int|
                0 <= i < store.lists@.len() && #[trigger] store.lists@[i] == l && l.id@ == id@,
            Err(e) => {
                &&& e == StoreError::NotFound
                &&& !has_list_id(store.lists@, id@)
            },
        },
{
    let n = store.lists.len();
    let mut i: usize = 0;
    while i < n
        invariant
            0 <= i <= n,
            n == store.lists@.len(),
            forall|j: int| 0 <= j < i ==> (#[trigger] store.lists@[j].id@) != id@,
        decreases n - i,
    {
        if store.lists[i].id == *id {
            return Ok(store.lists[i].duplicate());
        }
        i += 1;
    }
    Err(StoreError::NotFound)
}

/// Updates a list's fields; an absent parameter leaves the field
/// unchanged.
pub fn lists_update(
    store: &mut Store,
    params: UpdateListParams,
    now: i64,
) -> (r: Result<List, StoreError>)
    requires
        old(store).wf(),
    ensures
        final(store).wf(),
        only_lists_changed(*old(store), *final(store)),
        final(store).clock == old(store).clock,
        match r {
            Ok(l) => exists|i: int|
                {
                    &&& 0 <= i < old(store).lists@.len()
                    &&& (#[trigger] old(store).lists@[i].id@) == params.id@
                    &&& final(store).lists@ == old(store).lists@.update(i, l)
                    &&& l == (List {
                        name: match params.name {
                            Some(v) => v,
                            None => old(store).lists@[i].name,
                        },
                        description: match params.description {
                            Some(v) => Some(v),
                            None => old(store).lists@[i].description,
                        },
                        color: match params.color {
                            Some(v) => Some(v),
                            None => old(store).lists@[i].color,
                        },
                        icon: match params.icon {
                            Some(v) => Some(v),
                            None => old(store).lists@[i].icon,
                        },
                        sort_order: match params.sort_order {
                            Some(v) => v,
                            None => old(store).lists@[i].sort_order,
                        },
                        updated_at: now,
                        ..old(store).lists@[i]
                    })
                },
            Err(e) => {
                &&& e == StoreError::NotFound
                &&& !has_list_id(old(store).lists@, params.id@)
                &&& *final(store) == *old(store)
            },
        },
{
    let UpdateListParams { id, name, description, color, icon, sort_order } = params;
    let n = store.lists.len();
    let mut i: usize = 0;
    while i < n
        invariant
            0 <= i <= n,
            n == store.lists@.len(),
            *store == *old(store),
            forall|j: int| 0 <= j < i ==> (#[trigger] store.lists@[j].id@) != id@,
        decreases n - i,
    {
        if store.lists[i].id == id {
            let mut list = store.lists.remove(i);
            if let Some(v) = name {
                list.name = v;
            }
            if let Some(v) = description {
                list.description = Some(v);
            }
            if let Some(v) = color {
                list.color = Some(v);
            }
            if let Some(v) = icon {
                list.icon = Some(v);
            }
            if let Some(v) = sort_order {
                list.sort_order = v;
            }
            list.updated_at = now;
            let result = list.duplicate();
            store.lists.insert(i, list);
            proof {
                assert(store.lists@ =~= old(store).lists@.update(
                    i as int,
                    store.lists@[i as int],
                ));
                assert forall|p: int, q: int| 0 <= p < q < store.lists@.len()
                    implies (#[trigger] store.lists@[p].id@)
                        != (#[trigger] store.lists@[q].id@) by {
                    assert(store.lists@[p].id@ == old(store).lists@[p].id@);
                    assert(store.lists@[q].id@ == old(store).lists@[q].id@);
                }
            }
            return Ok(result);
        }
        i += 1;
    }
    Err(StoreError::NotFound)
}

/// The index of the list with this id, scanning from the front.
fn find_list_index(lists: &Vec<List>, id: &String) -> (r: Option<usize>)
    ensures
        match r {
            Some(i) => 0 <= i < lists@.len() && lists@[i as int].id@ == id@,
            None => !has_list_id(lists@, id@),
        },
{
    let n = lists.len();
    let mut i: usize = 0;
    while i < n
        invariant
            0 <= i <= n,
            n == lists@.len(),
            forall|j: int| 0 <= j < i ==> (#[trigger] lists@[j].id@) != id@,
        decreases n - i,
    {
        if lists[i].id == *id {
            return Some(i);
        }
        i += 1;
    }
    None
}

/// The index of the first default list.
fn find_default_index(lists: &Vec<List>) -> (r: Option<usize>)
    ensures
        match r {
            Some(i) => 0 <= i < lists@.len() && lists@[i as int].is_default
                && forall|e: int| 0 <= e < i ==> !(#[trigger] lists@[e]).is_default,
            None => !has_default_list(lists@),
        },
{
    let n = lists.len();
    let mut i: usize = 0;
    while i < n
        invariant
            0 <= i <= n,
            n == lists@.len(),
            forall|e: int| 0 <= e < i ==> !(#[trigger] lists@[e]).is_default,
        decreases n - i,
    {
        if lists[i].is_default {
            return Some(i);
        }
        i += 1;
    }
    None
}

/// Deletes a list.  The default list is protected: asking to delete it
/// is an error and the store is untouched.  Any other list's tasks are
/// first moved to the first default list, then the list row itself is
/// removed — the one place a row is removed rather than tombstoned.
pub fn lists_delete(store: &mut Store, id: &String, now: i64) -> (r: Result<bool, StoreError>)
    requires
        old(store).wf(),
    ensures
        final(store).wf(),
        only_lists_and_tasks_changed(*old(store), *final(store)),
        final(store).clock == old(store).clock,
        match r {
            Ok(b) => {
                &&& b
                &&& exists|li: int, d: int|
                    {
                        &&& 0 <= li < old(store).lists@.len()
                        &&& (#[trigger] old(store).lists@[li].id@) == id@
                        &&& !old(store).lists@[li].is_default
                        &&& 0 <= d < old(store).lists@.len()
                        &&& (#[trigger] old(store).lists@[d]).is_default
                        &&& forall|e: int| 0 <= e < d ==> !(#[trigger] old(store).lists@[e]).is_default
                        &&& final(store).lists@ == old(store).lists@.remove(li)
                        &&& final(store).tasks@.len() == old(store).tasks@.len()
                        &&& forall|t: int|
                            0 <= t < old(store).tasks@.len()
                                ==> #[trigger] final(store).tasks@[t] == (
                                if old(store).tasks@[t].list_id@ == id@ {
                                    Task { list_id: old(store).lists@[d].id, ..old(store).tasks@[t] }
                                } else {
                                    old(store).tasks@[t]
                                }
                            )
                    }
            },
            Err(e) => {
                &&& *final(store) == *old(store)
                &&& e == StoreError::DefaultListProtected ==> exists|li: int|
                    0 <= li < old(store).lists@.len()
                        && (#[trigger] old(store).lists@[li].id@) == id@
                        && old(store).lists@[li].is_default
                &&& (e == StoreError::NotFound || e == StoreError::DefaultListProtected)
                &&& e == StoreError::NotFound ==> (!has_list_id(old(store).lists@, id@)
                    || !has_default_list(old(store).lists@))
            },
        },
{
    let li_opt = find_list_index(&store.lists, id);
    let li = match li_opt {
        Some(i) => i,
        None => {
            return Err(StoreError::NotFound);
        },
    };
    if store.lists[li].is_default {
        return Err(StoreError::DefaultListProtected);
    }
    let d_opt = find_default_index(&store.lists);
    let d = match d_opt {
        Some(i) => i,
        None => {
            return Err(StoreError::NotFound);
        },
    };
    let n = store.lists.len();
    // Move the list's tasks to the default list.
    let tn = store.tasks.len();
    let mut t: usize = 0;
    while t < tn
        invariant
            0 <= t <= tn,
            tn == store.tasks@.len(),
            n == store.lists@.len(),
            store.workspaces@ == old(store).workspaces@,
            store.lists@ == old(store).lists@,
            store.tags@ == old(store).tags@,
            store.task_tags@ == old(store).task_tags@,
            store.comments@ == old(store).comments@,
            store.attachments@ == old(store).attachments@,
            store.habits@ == old(store).habits@,
            store.habit_logs@ == old(store).habit_logs@,
            store.focus_sessions@ == old(store).focus_sessions@,
            store.time_blocks@ == old(store).time_blocks@,
            store.clock == old(store).clock,
            0 <= d < n,
            forall|j: int|
                t <= j < tn ==> #[trigger] store.tasks@[j] == old(store).tasks@[j],
            forall|j: int|
                0 <= j < t ==> #[trigger] store.tasks@[j] == (
                    if old(store).tasks@[j].list_id@ == id@ {
                        Task { list_id: old(store).lists@[d as int].id, ..old(store).tasks@[j] }
                    } else {
                        old(store).tasks@[j]
                    }
                ),
        decreases tn - t,
    {
        if store.tasks[t].list_id == *id {
            let new_list_id = store.lists[d].id.clone();
            let ghost pre_tasks = store.tasks@;
            let mut task = store.tasks.remove(t);
            task.list_id = new_list_id;
            store.tasks.insert(t, task);
            proof {
                assert(store.tasks@ =~= pre_tasks.update(t as int, store.tasks@[t as int]));
            }
        }
        t += 1;
    }
    // Remove the list row itself.
    store.lists.remove(li);
    proof {
        assert forall|p: int, q: int| 0 <= p < q < store.lists@.len()
            implies (#[trigger] store.lists@[p].id@) != (#[trigger] store.lists@[q].id@) by {
            let pp = if p < li as int { p } else { p + 1 };
            let qq = if q < li as int { q } else { q + 1 };
            assert(store.lists@[p] == old(store).lists@[pp]);
            assert(store.lists@[q] == old(store).lists@[qq]);
        }
        assert forall|p: int, q: int| 0 <= p < q < store.tasks@.len()
            implies (#[trigger] store.tasks@[p].id@) != (#[trigger] store.tasks@[q].id@) by {
            assert(store.tasks@[p].id@ == old(store).tasks@[p].id@);
            assert(store.tasks@[q].id@ == old(store).tasks@[q].id@);
        }
        assert forall|k: int| 0 <= k < store.tasks@.len()
            implies (#[trigger] store.tasks@[k]).created_at <= store.tasks@[k].local_updated_at
                <= store.clock by {
            assert(store.tasks@[k].created_at == old(store).tasks@[k].created_at);
            assert(store.tasks@[k].local_updated_at == old(store).tasks@[k].local_updated_at);
        }
    }
    Ok(true)
}

/// Lists are ordered by sort order, ties broken by creation time.
pub open spec fn list_le(a: List, b: List) -> bool {
    a.sort_order < b.sort_order || (a.sort_order == b.sort_order && a.created_at <= b.created_at)
}

pub open spec fn lists_sorted(s: Seq<List>) -> bool {
    forall|i: int, j: int| 0 <= i < j < s.len() ==> list_le(#[trigger] s[i], #[trigger] s[j])
}

/// All lists, by ascending sort order, ties by creation time.
pub fn lists_list(store: &Store) -> (r: Vec<List>)
    requires
        store.wf(),
    ensures
        r@.len() == store.lists@.len(),
        r@.to_multiset() == store.lists@.to_multiset(),
        lists_sorted(r@),
{
    broadcast use vstd::seq_lib::group_to_multiset_ensures;
    broadcast use vstd::multiset::group_multiset_axioms;

    let mut r: Vec<List> = Vec::new();
    let n = store.lists.len();
    let mut i: usize = 0;
    while i < n
        invariant
            0 <= i <= n,
            n == store.lists@.len(),
            r@ =~= store.lists@.take(i as int),
        decreases n - i,
    {
        r.push(store.lists[i].duplicate());
        proof {
            assert(r@ =~= store.lists@.take(i as int + 1));
        }
        i += 1;
    }
    proof {
        assert(store.lists@.take(n as int) =~= store.lists@);
    }
    // Order the copies.
    let ghost all = store.lists@;
    let mut src = r;
    let mut out: Vec<List> = Vec::new();
    proof {
        assert(out@.to_multiset().add(src@.to_multiset()) =~= all.to_multiset());
    }
    while src.len() > 0
        invariant
            out@.to_multiset().add(src@.to_multiset()) == all.to_multiset(),
            out@.len() + src@.len() == all.len(),
            lists_sorted(out@),
            forall|i: int, j: int|
                0 <= i < out@.len() && 0 <= j < src@.len()
                    ==> list_le(#[trigger] out@[i], #[trigger] src@[j]),
        decreases src.len(),
    {
        let mut m: usize = 0;
        let mut k: usize = 1;
        while k < src.len()
            invariant
                src@.len() > 0,
                0 <= m < k <= src@.len(),
                forall|j: int| 0 <= j < k ==> list_le(src@[m as int], #[trigger] src@[j]),
            decreases src.len() - k,
        {
            if src[k].sort_order < src[m].sort_order
                || (src[k].sort_order == src[m].sort_order
                    && src[k].created_at < src[m].created_at) {
                m = k;
            }
            k += 1;
        }
        let ghost pre = src@;
        let picked = src.remove(m);
        let ghost out_pre = out@;
        out.push(picked);
        proof {
            assert(pre.contains(picked));
            pre.to_multiset_ensures();
            assert(pre.to_multiset().count(picked) > 0);
            assert(src@ == pre.remove(m as int));
            vstd::seq_lib::to_multiset_remove(pre, m as int);
            vstd::seq_lib::to_multiset_build(out_pre, picked);
            assert(out@.to_multiset().add(src@.to_multiset()) =~= all.to_multiset());
            assert forall|j: int| 0 <= j < src@.len()
                implies list_le(picked, #[trigger] src@[j]) by {
                if j < m as int {
                    assert(src@[j] == pre[j]);
                } else {
                    assert(src@[j] == pre[j + 1]);
                }
            }
        }
    }
    proof {
        assert(src@.to_multiset() =~= vstd::multiset::Multiset::empty());
        assert(out@.to_multiset() =~= all.to_multiset());
    }
    out
}

} // verus!
