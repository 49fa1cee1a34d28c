//! Tags, and the join rows that attach them to tasks.

#![verifier::loop_isolation(false)]

use vstd::prelude::*;

use crate::store::{Store, StoreError, clone_opt_string};

verus! {

#[derive(Debug)]
pub struct Tag {
    pub id: String,
    pub workspace_id: String,
    pub name: String,
    pub color: Option<String>,
    pub created_at: i64,
    pub updated_at: i64,
    pub deleted_at: Option<i64>,
    pub is_synced: bool,
    pub local_updated_at: i64,
}

/// One row of the task/tag join table.
#[derive(Debug)]
pub struct TaskTag {
    pub task_id: String,
    pub tag_id: String,
    pub created_at: i64,
    pub local_updated_at: i64,
}

impl Tag {
    /// A value-for-value copy.
    pub fn duplicate(&self) -> (r: Tag)
        ensures
            r == *self,
    {
        Tag {
            id: self.id.clone(),
            workspace_id: self.workspace_id.clone(),
            name: self.name.clone(),
            color: clone_opt_string(&self.color),
            created_at: self.created_at,
            updated_at: self.updated_at,
            deleted_at: self.deleted_at,
            is_synced: self.is_synced,
            local_updated_at: self.local_updated_at,
        }
    }
}

/// Tags have unique ids and clock-bounded change tracking.
pub open spec fn tags_wf(s: Seq<Tag>, clock: int) -> bool {
    &&& forall|i: int, j: int|
        0 <= i < j < s.len() ==> (#[trigger] s[i].id@) != (#[trigger] s[j].id@)
    &&& forall|i: int|
        0 <= i < s.len()
            ==> (#[trigger] s[i]).created_at <= s[i].local_updated_at <= clock
}

/// Join rows are unique per (task, tag) pair.
pub open spec fn task_tags_wf(s: Seq<TaskTag>, clock: int) -> bool {
    &&& forall|i: int, j: int|
        0 <= i < j < s.len()
            ==> !((#[trigger] s[i].task_id@) == (#[trigger] s[j].task_id@)
                && s[i].tag_id@ == s[j].tag_id@)
    &&& forall|i: int|
        0 <= i < s.len()
            ==> (#[trigger] s[i]).created_at <= s[i].local_updated_at <= clock
}

/// Some tag carries this id.
pub open spec fn has_tag_id(s: Seq<Tag>, id: Seq<char>) -> bool {
    exists|i: int| 0 <= i < s.len() && (#[trigger] s[i].id@) == id
}

/// Some live (untombstoned) tag carries this name.
pub open spec fn has_live_tag_named(s: Seq<Tag>, name: Seq<char>) -> bool {
    exists|i: int|
        0 <= i < s.len() && (#[trigger] s[i].name@) == name && s[i].deleted_at.is_none()
}

/// The join table holds the pair.
pub open spec fn has_task_tag(s: Seq<TaskTag>, task: Seq<char>, tag: Seq<char>) -> bool {
    exists|i: int|
        0 <= i < s.len() && (#[trigger] s[i].task_id@) == task && s[i].tag_id@ == tag
}

/// Everything but tags (and the clock) is untouched.
pub open spec fn only_tags_changed(pre: Store, post: Store) -> bool {
    &&& post.workspaces@ == pre.workspaces@
    &&& post.lists@ == pre.lists@
    &&& post.tasks@ == pre.tasks@
    &&& post.task_tags@ == pre.task_tags@
    &&& post.comments@ == pre.comments@
    &&& post.attachments@ == pre.attachments@
    &&& post.habits@ == pre.habits@
    &&& post.habit_logs@ == pre.habit_logs@
    &&& post.focus_sessions@ == pre.focus_sessions@
    &&& post.time_blocks@ == pre.time_blocks@
}

/// Everything but the join table (and the clock) is untouched.
pub open spec fn only_task_tags_changed(pre: Store, post: Store) -> bool {
    &&& post.workspaces@ == pre.workspaces@
    &&& post.lists@ == pre.lists@
    &&& post.tasks@ == pre.tasks@
    &&& post.tags@ == pre.tags@
    &&& post.comments@ == pre.comments@
    &&& post.attachments@ == pre.attachments@
    &&& post.habits@ == pre.habits@
    &&& post.habit_logs@ == pre.habit_logs@
    &&& post.focus_sessions@ == pre.focus_sessions@
    &&& post.time_blocks@ == pre.time_blocks@
}

/// Creates a tag in the single local workspace, stamped dirty.
pub fn tags_create(
    store: &mut Store,
    id: String,
    now: i64,
    name: String,
    color: Option<String>,
) -> (r: Result<Tag, StoreError>)
    requires
        old(store).wf(),
        now >= old(store).clock,
    ensures
        final(store).wf(),
        only_tags_changed(*old(store), *final(store)),
        match r {
            Ok(t) => {
                &&& !has_tag_id(old(store).tags@, t.id@)
                &&& final(store).tags@ == old(store).tags@.push(t)
                &&& final(store).clock == now
                &&& t.id@ == id@
                &&& t.workspace_id@ == "local-workspace"@
                &&& t.name == name
                &&& t.color == color
                &&& t.created_at == now
                &&& t.updated_at == now
                &&& t.local_updated_at == now
                &&& t.deleted_at.is_none()
                &&& !t.is_synced
            },
            Err(e) => {
                &&& e == StoreError::Constraint
                &&& has_tag_id(old(store).tags@, id@)
                &&& *final(store) == *old(store)
            },
        },
{
    let n = store.tags.len();
    let mut i: usize = 0;
    while i < n
        invariant
            0 <= i <= n,
            n == store.tags@.len(),
            *store == *old(store),
            forall|j: int| 0 <= j < i ==> (#[trigger] store.tags@[j].id@) != id@,
        decreases n - i,
    {
        if store.tags[i].id == id {
            return Err(StoreError::Constraint);
        }
        i += 1;
    }
    let tag = Tag {
        id,
        workspace_id: String::from_str("local-workspace"),
        name,
        color,
        created_at: now,
        updated_at: now,
        deleted_at: None,
        is_synced: false,
        local_updated_at: now,
    };
    let result = tag.duplicate();
    store.tags.push(tag);
    store.clock = now;
    proof {
        assert forall|p: int, q: int| 0 <= p < q < store.tags@.len()
            implies (#[trigger] store.tags@[p].id@) != (#[trigger] store.tags@[q].id@) by {
            if q < store.tags@.len() - 1 {
                assert(store.tags@[p] == old(store).tags@[p]);
                assert(store.tags@[q] == old(store).tags@[q]);
            } else {
                assert(store.tags@[p] == old(store).tags@[p]);
            }
        }
    }
    Ok(result)
}

/// Looks a tag up by id; tombstoned tags are invisible here.
pub fn tags_get(store: &Store, id: &String) -> (r: Option<Tag>)
    requires
        store.wf(),
    ensures
        match r {
            Some(t) => exists|i: int|
                0 <= i < store.tags@.len() && #[trigger] store.tags@[i] == t
                    && t.id@ == id@ && t.deleted_at.is_none(),
            None => forall|i: int|
                0 <= i < store.tags@.len() && (#[trigger] store.tags@[i].id@) == id@
                    ==> store.tags@[i].deleted_at.is_some(),
        },
{
    let n = store.tags.len();
    let mut i: usize = 0;
    while i < n
        invariant
            0 <= i <= n,
            n == store.tags@.len(),
            forall|j: int|
                0 <= j < i && (#[trigger] store.tags@[j].id@) == id@
                    ==> store.tags@[j].deleted_at.is_some(),
        decreases n - i,
    {
        if store.tags[i].id == *id && store.tags[i].deleted_at.is_none() {
            return Some(store.tags[i].duplicate());
        }
        i += 1;
    }
    None
}

/// Updates a tag's name and colour; an absent parameter leaves the
/// field unchanged.  Stamps the tag dirty.
pub fn tags_update(
    store: &mut Store,
    id: &String,
    name: Option<String>,
    color: Option<String>,
    now: i64,
) -> (r: Result<Tag, StoreError>)
    requires
        old(store).wf(),
        now >= old(store).clock,
    ensures
        final(store).wf(),
        only_tags_changed(*old(store), *final(store)),
        match r {
            Ok(t) => exists|i: int|
                {
                    &&& 0 <= i < old(store).tags@.len()
                    &&& (#[trigger] old(store).tags@[i].id@) == id@
                    &&& final(store).tags@ == old(store).tags@.update(i, t)
                    &&& final(store).clock == now
                    &&& t == (Tag {
                        name: match name { Some(n) => n, None => old(store).tags@[i].name },
                        color: match color {
                            Some(c) => Some(c),
                            None => old(store).tags@[i].color,
                        },
                        updated_at: now,
                        local_updated_at: now,
                        is_synced: false,
                        ..old(store).tags@[i]
                    })
                },
            Err(e) => {
                &&& e == StoreError::NotFound
                &&& !has_tag_id(old(store).tags@, id@)
                &&& *final(store) == *old(store)
            },
        },
{
    let n = store.tags.len();
    let mut i: usize = 0;
    while i < n
        invariant
            0 <= i <= n,
            n == store.tags@.len(),
            *store == *old(store),
            forall|j: int| 0 <= j < i ==> (#[trigger] store.tags@[j].id@) != id@,
        decreases n - i,
    {
        if store.tags[i].id == *id {
            let mut tag = store.tags.remove(i);
            if let Some(new_name) = name {
                tag.name = new_name;
            }
            if let Some(new_color) = color {
                tag.color = Some(new_color);
            }
            tag.updated_at = now;
            tag.local_updated_at = now;
            tag.is_synced = false;
            let result = tag.duplicate();
            store.tags.insert(i, tag);
            store.clock = now;
            proof {
                assert(store.tags@ =~= old(store).tags@.update(i as int, store.tags@[i as int]));
                assert forall|p: int, q: int| 0 <= p < q < store.tags@.len()
                    implies (#[trigger] store.tags@[p].id@) != (#[trigger] store.tags@[q].id@) by {
                    assert(store.tags@[p].id@ == old(store).tags@[p].id@);
                    assert(store.tags@[q].id@ == old(store).tags@[q].id@);
                }
            }
            return Ok(result);
        }
        i += 1;
    }
    Err(StoreError::NotFound)
}

/// Soft-deletes a tag: the tombstone and `local_updated_at` are set,
/// the row stays.  Returns whether a row was affected.
pub fn tags_delete(store: &mut Store, id: &String, now: i64) -> (r: bool)
    requires
        old(store).wf(),
        now >= old(store).clock,
    ensures
        final(store).wf(),
        only_tags_changed(*old(store), *final(store)),
        r == has_tag_id(old(store).tags@, id@),
        r ==> exists|i: int|
            {
                &&& 0 <= i < old(store).tags@.len()
                &&& (#[trigger] old(store).tags@[i].id@) == id@
                &&& final(store).tags@ == old(store).tags@.update(i, Tag {
                    deleted_at: Some(now),
                    local_updated_at: now,
                    is_synced: false,
                    ..old(store).tags@[i]
                })
                &&& final(store).clock == now
            },
        !r ==> *final(store) == *old(store),
{
    let n = store.tags.len();
    let mut i: usize = 0;
    while i < n
        invariant
            0 <= i <= n,
            n == store.tags@.len(),
            *store == *old(store),
            forall|j: int| 0 <= j < i ==> (#[trigger] store.tags@[j].id@) != id@,
        decreases n - i,
    {
        if store.tags[i].id == *id {
            let mut tag = store.tags.remove(i);
            tag.deleted_at = Some(now);
            tag.local_updated_at = now;
            tag.is_synced = false;
            store.tags.insert(i, tag);
            store.clock = now;
            proof {
                assert(store.tags@ =~= old(store).tags@.update(i as int, store.tags@[i as int]));
                assert forall|p: int, q: int| 0 <= p < q < store.tags@.len()
                    implies (#[trigger] store.tags@[p].id@) != (#[trigger] store.tags@[q].id@) by {
                    assert(store.tags@[p].id@ == old(store).tags@[p].id@);
                    assert(store.tags@[q].id@ == old(store).tags@[q].id@);
                }
            }
            return true;
        }
        i += 1;
    }
    false
}

/// Live tags are listed in name order.
pub open spec fn tags_sorted_by_name(s: Seq<Tag>) -> bool {
    forall|i: int, j: int|
        0 <= i < j < s.len()
            ==> crate::order::lex_le(#[trigger] s[i].name@, #[trigger] s[j].name@)
}

/// All live tags, in ascending name order.
pub fn tags_list(store: &Store) -> (r: Vec<Tag>)
    requires
        store.wf(),
    ensures
        r@.len() == store.tags@.filter(|t: Tag| t.deleted_at.is_none()).len(),
        r@.to_multiset() == store.tags@.filter(|t: Tag| t.deleted_at.is_none()).to_multiset(),
        tags_sorted_by_name(r@),
{
    broadcast use vstd::seq_lib::group_to_multiset_ensures;
    broadcast use vstd::multiset::group_multiset_axioms;

    let ghost live = |t: Tag| t.deleted_at.is_none();
    let mut r: Vec<Tag> = Vec::new();
    let n = store.tags.len();
    let mut i: usize = 0;
    proof {
        assert(store.tags@.take(0).filter(live) =~= Seq::<Tag>::empty());
    }
    while i < n
        invariant
            0 <= i <= n,
            n == store.tags@.len(),
            r@ == store.tags@.take(i as int).filter(live),
            live == (|t: Tag| t.deleted_at.is_none()),
        decreases n - i,
    {
        let ghost r_pre = r@;
        if store.tags[i].deleted_at.is_none() {
            r.push(store.tags[i].duplicate());
        }
        proof {
            reveal(Seq::filter);
            let k = i as int;
            assert(store.tags@.take(k + 1).drop_last() =~= store.tags@.take(k));
            assert(store.tags@.take(k + 1).last() == store.tags@[k]);
            if store.tags@[k].deleted_at.is_none() {
                assert(r@ =~= r_pre.push(store.tags@[k]));
            }
            assert(r@ == store.tags@.take(k + 1).filter(live));
        }
        i += 1;
    }
    proof {
        assert(store.tags@.take(n as int) =~= store.tags@);
    }
    // Order the live tags by name.
    let ghost flt = store.tags@.filter(|t: Tag| t.deleted_at.is_none());
    let mut src = r;
    let mut out: Vec<Tag> = Vec::new();
    proof {
        assert(out@.to_multiset().add(src@.to_multiset()) =~= flt.to_multiset());
    }
    while src.len() > 0
        invariant
            out@.to_multiset().add(src@.to_multiset()) == flt.to_multiset(),
            out@.len() + src@.len() == flt.len(),
            tags_sorted_by_name(out@),
            forall|i: int, j: int|
                0 <= i < out@.len() && 0 <= j < src@.len()
                    ==> crate::order::lex_le(
                        #[trigger] out@[i].name@,
                        #[trigger] src@[j].name@,
                    ),
        decreases src.len(),
    {
        let mut m: usize = 0;
        let mut k: usize = 1;
        proof {
            crate::order::lemma_lex_le_refl(src@[0].name@);
        }
        while k < src.len()
            invariant
                src@.len() > 0,
                0 <= m < k <= src@.len(),
                forall|j: int|
                    0 <= j < k
                        ==> crate::order::lex_le(
                            src@[m as int].name@,
                            #[trigger] src@[j].name@,
                        ),
            decreases src.len() - k,
        {
            if crate::order::str_le(src[k].name.as_str(), src[m].name.as_str()) {
                proof {
                    assert forall|j: int| 0 <= j < k
                        implies crate::order::lex_le(
                            src@[k as int].name@,
                            #[trigger] src@[j].name@,
                        ) by {
                        crate::order::lemma_lex_le_trans(
                            src@[k as int].name@,
                            src@[m as int].name@,
                            src@[j].name@,
                        );
                    }
                    crate::order::lemma_lex_le_refl(src@[k as int].name@);
                }
                m = k;
            } else {
                proof {
                    crate::order::lemma_lex_le_total(
                        src@[k as int].name@,
                        src@[m as int].name@,
                    );
                }
            }
            k += 1;
        }
        let ghost pre = src@;
        let picked = src.remove(m);
        let ghost out_pre = out@;
        out.push(picked);
        proof {
            assert(pre.contains(picked));
            pre.to_multiset_ensures();
            assert(pre.to_multiset().count(picked) > 0);
            assert(src@ == pre.remove(m as int));
            vstd::seq_lib::to_multiset_remove(pre, m as int);
            vstd::seq_lib::to_multiset_build(out_pre, picked);
            assert(out@.to_multiset().add(src@.to_multiset()) =~= flt.to_multiset());
            assert forall|j: int| 0 <= j < src@.len()
                implies crate::order::lex_le(picked.name@, #[trigger] src@[j].name@) by {
                if j < m as int {
                    assert(src@[j] == pre[j]);
                } else {
                    assert(src@[j] == pre[j + 1]);
                }
            }
        }
    }
    proof {
        assert(src@.to_multiset() =~= vstd::multiset::Multiset::empty());
        assert(out@.to_multiset() =~= flt.to_multiset());
    }
    out
}

/// Finds a live tag by name in the local workspace, updating its
/// colour if one is supplied; creates the tag when none exists.  The
/// only failure is asking to create under an id another tag already
/// carries.  Afterwards at least one live tag carries the name; it is
/// the only one provided the name was not already duplicated — neither
/// this store nor its upstream enforces name uniqueness on plain
/// creates.
pub fn tags_upsert(
    store: &mut Store,
    id: String,
    now: i64,
    name: String,
    color: Option<String>,
) -> (r: Result<Tag, StoreError>)
    requires
        old(store).wf(),
        now >= old(store).clock,
    ensures
        final(store).wf(),
        only_tags_changed(*old(store), *final(store)),
        match r {
            Ok(t) => {
                ||| (has_live_tag_named(old(store).tags@, name@) && exists|i: int|
                    {
                        &&& 0 <= i < old(store).tags@.len()
                        &&& (#[trigger] old(store).tags@[i].name@) == name@
                        &&& old(store).tags@[i].deleted_at.is_none()
                        &&& match color {
                            Some(c) => final(store).tags@ == old(store).tags@.update(i, t)
                                && t == (Tag {
                                    color: Some(c),
                                    updated_at: now,
                                    local_updated_at: now,
                                    is_synced: false,
                                    ..old(store).tags@[i]
                                }) && final(store).clock == now,
                            None => t == old(store).tags@[i] && *final(store) == *old(store),
                        }
                    })
                ||| (!has_live_tag_named(old(store).tags@, name@)
                    && final(store).tags@ == old(store).tags@.push(t)
                    && final(store).clock == now
                    && t.id@ == id@ && t.name == name && t.color == color
                    && t.created_at == now && t.local_updated_at == now
                    && t.deleted_at.is_none() && !t.is_synced)
            },
            Err(e) => {
                &&& e == StoreError::Constraint
                &&& *final(store) == *old(store)
                &&& !has_live_tag_named(old(store).tags@, name@)
                &&& has_tag_id(old(store).tags@, id@)
            },
        },
{
    let n = store.tags.len();
    let mut i: usize = 0;
    while i < n
        invariant
            0 <= i <= n,
            n == store.tags@.len(),
            *store == *old(store),
            forall|j: int|
                0 <= j < i
                    ==> !((#[trigger] store.tags@[j].name@) == name@
                        && store.tags@[j].deleted_at.is_none()),
        decreases n - i,
    {
        if store.tags[i].name == name && store.tags[i].deleted_at.is_none() {
            if let Some(new_color) = color {
                let mut tag = store.tags.remove(i);
                tag.color = Some(new_color);
                tag.updated_at = now;
                tag.local_updated_at = now;
                tag.is_synced = false;
                let result = tag.duplicate();
                store.tags.insert(i, tag);
                store.clock = now;
                proof {
                    assert(store.tags@ =~= old(store).tags@.update(
                        i as int,
                        store.tags@[i as int],
                    ));
                    assert forall|p: int, q: int| 0 <= p < q < store.tags@.len()
                        implies (#[trigger] store.tags@[p].id@)
                            != (#[trigger] store.tags@[q].id@) by {
                        assert(store.tags@[p].id@ == old(store).tags@[p].id@);
                        assert(store.tags@[q].id@ == old(store).tags@[q].id@);
                    }
                }
                return Ok(result);
            } else {
                return Ok(store.tags[i].duplicate());
            }
        }
        i += 1;
    }
    tags_create(store, id, now, name, color)
}

/// Attaches a tag to a task.  A second attachment of the same pair is
/// a constraint violation, as the join table's key would be.
pub fn tags_assign(
    store: &mut Store,
    task_id: String,
    tag_id: String,
    now: i64,
) -> (r: Result<bool, StoreError>)
    requires
        old(store).wf(),
        now >= old(store).clock,
    ensures
        final(store).wf(),
        only_task_tags_changed(*old(store), *final(store)),
        match r {
            Ok(b) => {
                &&& b
                &&& !has_task_tag(old(store).task_tags@, task_id@, tag_id@)
                &&& final(store).task_tags@ == old(store).task_tags@.push(TaskTag {
                    task_id,
                    tag_id,
                    created_at: now,
                    local_updated_at: now,
                })
                &&& final(store).clock == now
            },
            Err(e) => {
                &&& e == StoreError::Constraint
                &&& has_task_tag(old(store).task_tags@, task_id@, tag_id@)
                &&& *final(store) == *old(store)
            },
        },
{
    let n = store.task_tags.len();
    let mut i: usize = 0;
    while i < n
        invariant
            0 <= i <= n,
            n == store.task_tags@.len(),
            *store == *old(store),
            forall|j: int|
                0 <= j < i
                    ==> !((#[trigger] store.task_tags@[j].task_id@) == task_id@
                        && store.task_tags@[j].tag_id@ == tag_id@),
        decreases n - i,
    {
        if store.task_tags[i].task_id == task_id && store.task_tags[i].tag_id == tag_id {
            return Err(StoreError::Constraint);
        }
        i += 1;
    }
    store.task_tags.push(TaskTag { task_id, tag_id, created_at: now, local_updated_at: now });
    store.clock = now;
    proof {
        assert forall|p: int, q: int| 0 <= p < q < store.task_tags@.len()
            implies !((#[trigger] store.task_tags@[p].task_id@)
                == (#[trigger] store.task_tags@[q].task_id@)
                && store.task_tags@[p].tag_id@ == store.task_tags@[q].tag_id@) by {
            if q < store.task_tags@.len() - 1 {
                assert(store.task_tags@[p] == old(store).task_tags@[p]);
                assert(store.task_tags@[q] == old(store).task_tags@[q]);
            } else {
                assert(store.task_tags@[p] == old(store).task_tags@[p]);
            }
        }
    }
    Ok(true)
}

/// Detaches a tag from a task; the join row is removed outright.
/// Returns whether a row was affected.
pub fn tags_remove(store: &mut Store, task_id: &String, tag_id: &String) -> (r: bool)
    requires
        old(store).wf(),
    ensures
        final(store).wf(),
        only_task_tags_changed(*old(store), *final(store)),
        final(store).clock == old(store).clock,
        r == has_task_tag(old(store).task_tags@, task_id@, tag_id@),
        r ==> exists|i: int|
            {
                &&& 0 <= i < old(store).task_tags@.len()
                &&& (#[trigger] old(store).task_tags@[i].task_id@) == task_id@
                &&& old(store).task_tags@[i].tag_id@ == tag_id@
                &&& final(store).task_tags@ == old(store).task_tags@.remove(i)
            },
        !r ==> *final(store) == *old(store),
{
    let n = store.task_tags.len();
    let mut i: usize = 0;
    while i < n
        invariant
            0 <= i <= n,
            n == store.task_tags@.len(),
            *store == *old(store),
            forall|j: int|
                0 <= j < i
                    ==> !((#[trigger] store.task_tags@[j].task_id@) == task_id@
                        && store.task_tags@[j].tag_id@ == tag_id@),
        decreases n - i,
    {
        if store.task_tags[i].task_id == *task_id && store.task_tags[i].tag_id == *tag_id {
            store.task_tags.remove(i);
            proof {
                assert forall|p: int, q: int| 0 <= p < q < store.task_tags@.len()
                    implies !((#[trigger] store.task_tags@[p].task_id@)
                        == (#[trigger] store.task_tags@[q].task_id@)
                        && store.task_tags@[p].tag_id@ == store.task_tags@[q].tag_id@) by {
                    let pp = if p < i as int { p } else { p + 1 };
                    let qq = if q < i as int { q } else { q + 1 };
                    assert(store.task_tags@[p] == old(store).task_tags@[pp]);
                    assert(store.task_tags@[q] == old(store).task_tags@[qq]);
                }
                assert forall|k: int| 0 <= k < store.task_tags@.len()
                    implies (#[trigger] store.task_tags@[k]).created_at
                        <= store.task_tags@[k].local_updated_at <= store.clock by {
                    let kk = if k < i as int { k } else { k + 1 };
                    assert(store.task_tags@[k] == old(store).task_tags@[kk]);
                }
            }
            return true;
        }
        i += 1;
    }
    false
}

} // verus!
