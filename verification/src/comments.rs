//! Comments on tasks.

#![verifier::loop_isolation(false)]

use vstd::prelude::*;

use crate::store::{Store, StoreError};

verus! {

#[derive(Debug)]
pub struct Comment {
    pub id: String,
    pub task_id: String,
    pub body: String,
    pub created_at: i64,
    pub updated_at: i64,
    pub deleted_at: Option<i64>,
    pub is_synced: bool,
    pub local_updated_at: i64,
}

impl Comment {
    /// A value-for-value copy.
    pub fn duplicate(&self) -> (r: Comment)
        ensures
            r == *self,
    {
        Comment {
            id: self.id.clone(),
            task_id: self.task_id.clone(),
            body: self.body.clone(),
            created_at: self.created_at,
            updated_at: self.updated_at,
            deleted_at: self.deleted_at,
            is_synced: self.is_synced,
            local_updated_at: self.local_updated_at,
        }
    }
}

pub open spec fn comments_wf(s: Seq<Comment>, clock: int) -> bool {
    &&& forall|i: int, j: int|
        0 <= i < j < s.len() ==> (#[trigger] s[i].id@) != (#[trigger] s[j].id@)
    &&& forall|i: int|
        0 <= i < s.len()
            ==> (#[trigger] s[i]).created_at <= s[i].local_updated_at <= clock
}

pub open spec fn has_comment_id(s: Seq<Comment>, id: Seq<char>) -> bool {
    exists|i: int| 0 <= i < s.len() && (#[trigger] s[i].id@) == id
}

/// Everything but comments (and the clock) is untouched.
pub open spec fn only_comments_changed(pre: Store, post: Store) -> bool {
    &&& post.workspaces@ == pre.workspaces@
    &&& post.lists@ == pre.lists@
    &&& post.tasks@ == pre.tasks@
    &&& post.tags@ == pre.tags@
    &&& post.task_tags@ == pre.task_tags@
    &&& post.attachments@ == pre.attachments@
    &&& post.habits@ == pre.habits@
    &&& post.habit_logs@ == pre.habit_logs@
    &&& post.focus_sessions@ == pre.focus_sessions@
    &&& post.time_blocks@ == pre.time_blocks@
}

/// Adds a comment to a task, stamped dirty.
pub fn comments_add(
    store: &mut Store,
    id: String,
    now: i64,
    task_id: String,
    body: String,
) -> (r: Result<Comment, StoreError>)
    requires
        old(store).wf(),
        now >= old(store).clock,
    ensures
        final(store).wf(),
        only_comments_changed(*old(store), *final(store)),
        match r {
            Ok(c) => {
                &&& !has_comment_id(old(store).comments@, c.id@)
                &&& final(store).comments@ == old(store).comments@.push(c)
                &&& final(store).clock == now
                &&& c.id@ == id@
                &&& c.task_id == task_id
                &&& c.body == body
                &&& c.created_at == now
                &&& c.updated_at == now
                &&& c.local_updated_at == now
                &&& c.deleted_at.is_none()
                &&& !c.is_synced
            },
            Err(e) => {
                &&& e == StoreError::Constraint
                &&& has_comment_id(old(store).comments@, id@)
                &&& *final(store) == *old(store)
            },
        },
{
    let n = store.comments.len();
    let mut i: usize = 0;
    while i < n
        invariant
            0 <= i <= n,
            n == store.comments@.len(),
            *store == *old(store),
            forall|j: int| 0 <= j < i ==> (#[trigger] store.comments@[j].id@) != id@,
        decreases n - i,
    {
        if store.comments[i].id == id {
            return Err(StoreError::Constraint);
        }
        i += 1;
    }
    let comment = Comment {
        id,
        task_id,
        body,
        created_at: now,
        updated_at: now,
        deleted_at: None,
        is_synced: false,
        local_updated_at: now,
    };
    let result = comment.duplicate();
    store.comments.push(comment);
    store.clock = now;
    proof {
        assert forall|p: int, q: int| 0 <= p < q < store.comments@.len()
            implies (#[trigger] store.comments@[p].id@) != (#[trigger] store.comments@[q].id@) by {
            if q < store.comments@.len() - 1 {
                assert(store.comments@[p] == old(store).comments@[p]);
                assert(store.comments@[q] == old(store).comments@[q]);
            } else {
                assert(store.comments@[p] == old(store).comments@[p]);
            }
        }
    }
    Ok(result)
}

/// Comments are listed oldest first.
pub open spec fn comments_sorted(s: Seq<Comment>) -> bool {
    forall|i: int, j: int|
        0 <= i < j < s.len()
            ==> (#[trigger] s[i]).created_at <= (#[trigger] s[j]).created_at
}

/// The live comments of one task, oldest first.
pub fn comments_list(store: &Store, task_id: &String) -> (r: Vec<Comment>)
    requires
        store.wf(),
    ensures
        r@.len() == store.comments@.filter(
            |c: Comment| c.task_id@ == task_id@ && c.deleted_at.is_none(),
        ).len(),
        r@.to_multiset() == store.comments@.filter(
            |c: Comment| c.task_id@ == task_id@ && c.deleted_at.is_none(),
        ).to_multiset(),
        comments_sorted(r@),
{
    broadcast use vstd::seq_lib::group_to_multiset_ensures;
    broadcast use vstd::multiset::group_multiset_axioms;

    let ghost keep = |c: Comment| c.task_id@ == task_id@ && c.deleted_at.is_none();
    let mut r: Vec<Comment> = Vec::new();
    let n = store.comments.len();
    let mut i: usize = 0;
    proof {
        assert(store.comments@.take(0).filter(keep) =~= Seq::<Comment>::empty());
    }
    while i < n
        invariant
            0 <= i <= n,
            n == store.comments@.len(),
            r@ == store.comments@.take(i as int).filter(keep),
            keep == (|c: Comment| c.task_id@ == task_id@ && c.deleted_at.is_none()),
        decreases n - i,
    {
        let ghost r_pre = r@;
        if store.comments[i].task_id == *task_id && store.comments[i].deleted_at.is_none() {
            r.push(store.comments[i].duplicate());
        }
        proof {
            reveal(Seq::filter);
            let k = i as int;
            assert(store.comments@.take(k + 1).drop_last() =~= store.comments@.take(k));
            assert(store.comments@.take(k + 1).last() == store.comments@[k]);
            if keep(store.comments@[k]) {
                assert(r@ =~= r_pre.push(store.comments@[k]));
            }
            assert(r@ == store.comments@.take(k + 1).filter(keep));
        }
        i += 1;
    }
    proof {
        assert(store.comments@.take(n as int) =~= store.comments@);
    }
    // Order the results.
    let ghost flt = store.comments@.filter(|c: Comment| c.task_id@ == task_id@ && c.deleted_at.is_none());
    let mut src = r;
    let mut out: Vec<Comment> = Vec::new();
    proof {
        assert(out@.to_multiset().add(src@.to_multiset()) =~= flt.to_multiset());
    }
    while src.len() > 0
        invariant
            out@.to_multiset().add(src@.to_multiset()) == flt.to_multiset(),
            out@.len() + src@.len() == flt.len(),
            comments_sorted(out@),
            forall|i: int, j: int|
                0 <= i < out@.len() && 0 <= j < src@.len()
                    ==> (#[trigger] out@[i]).created_at <= (#[trigger] src@[j]).created_at,
        decreases src.len(),
    {
        let mut m: usize = 0;
        let mut k: usize = 1;
        while k < src.len()
            invariant
                src@.len() > 0,
                0 <= m < k <= src@.len(),
                forall|j: int| 0 <= j < k ==> src@[m as int].created_at <= (#[trigger] src@[j]).created_at,
            decreases src.len() - k,
        {
            if src[k].created_at < src[m].created_at {
                m = k;
            }
            k += 1;
        }
        let ghost pre = src@;
        let picked = src.remove(m);
        let ghost out_pre = out@;
        out.push(picked);
        proof {
            assert(pre.contains(picked));
            pre.to_multiset_ensures();
            assert(pre.to_multiset().count(picked) > 0);
            assert(src@ == pre.remove(m as int));
            vstd::seq_lib::to_multiset_remove(pre, m as int);
            vstd::seq_lib::to_multiset_build(out_pre, picked);
            assert(out@.to_multiset().add(src@.to_multiset()) =~= flt.to_multiset());
            assert forall|j: int| 0 <= j < src@.len() implies picked.created_at <= (#[trigger] src@[j]).created_at by {
                if j < m as int {
                    assert(src@[j] == pre[j]);
                } else {
                    assert(src@[j] == pre[j + 1]);
                }
            }
        }
    }
    proof {
        assert(src@.to_multiset() =~= vstd::multiset::Multiset::empty());
        assert(out@.to_multiset() =~= flt.to_multiset());
    }
    out
}

/// Replaces a comment's body, stamping it dirty.
pub fn comments_update(
    store: &mut Store,
    id: &String,
    body: String,
    now: i64,
) -> (r: Result<Comment, StoreError>)
    requires
        old(store).wf(),
        now >= old(store).clock,
    ensures
        final(store).wf(),
        only_comments_changed(*old(store), *final(store)),
        match r {
            Ok(c) => exists|i: int|
                {
                    &&& 0 <= i < old(store).comments@.len()
                    &&& (#[trigger] old(store).comments@[i].id@) == id@
                    &&& final(store).comments@ == old(store).comments@.update(i, c)
                    &&& final(store).clock == now
                    &&& c == (Comment {
                        body,
                        updated_at: now,
                        local_updated_at: now,
                        is_synced: false,
                        ..old(store).comments@[i]
                    })
                },
            Err(e) => {
                &&& e == StoreError::NotFound
                &&& !has_comment_id(old(store).comments@, id@)
                &&& *final(store) == *old(store)
            },
        },
{
    let n = store.comments.len();
    let mut i: usize = 0;
    while i < n
        invariant
            0 <= i <= n,
            n == store.comments@.len(),
            *store == *old(store),
            forall|j: int| 0 <= j < i ==> (#[trigger] store.comments@[j].id@) != id@,
        decreases n - i,
    {
        if store.comments[i].id == *id {
            let mut comment = store.comments.remove(i);
            comment.body = body;
            comment.updated_at = now;
            comment.local_updated_at = now;
            comment.is_synced = false;
            let result = comment.duplicate();
            store.comments.insert(i, comment);
            store.clock = now;
            proof {
                assert(store.comments@ =~= old(store).comments@.update(
                    i as int,
                    store.comments@[i as int],
                ));
                assert forall|p: int, q: int| 0 <= p < q < store.comments@.len()
                    implies (#[trigger] store.comments@[p].id@)
                        != (#[trigger] store.comments@[q].id@) by {
                    assert(store.comments@[p].id@ == old(store).comments@[p].id@);
                    assert(store.comments@[q].id@ == old(store).comments@[q].id@);
                }
            }
            return Ok(result);
        }
        i += 1;
    }
    Err(StoreError::NotFound)
}

/// Soft-deletes a comment.  Returns whether a row was affected.
pub fn comments_delete(store: &mut Store, id: &String, now: i64) -> (r: bool)
    requires
        old(store).wf(),
        now >= old(store).clock,
    ensures
        final(store).wf(),
        only_comments_changed(*old(store), *final(store)),
        r == has_comment_id(old(store).comments@, id@),
        r ==> exists|i: int|
            {
                &&& 0 <= i < old(store).comments@.len()
                &&& (#[trigger] old(store).comments@[i].id@) == id@
                &&& final(store).comments@ == old(store).comments@.update(i, Comment {
                    deleted_at: Some(now),
                    local_updated_at: now,
                    is_synced: false,
                    ..old(store).comments@[i]
                })
                &&& final(store).clock == now
            },
        !r ==> *final(store) == *old(store),
{
    let n = store.comments.len();
    let mut i: usize = 0;
    while i < n
        invariant
            0 <= i <= n,
            n == store.comments@.len(),
            *store == *old(store),
            forall|j: int| 0 <= j < i ==> (#[trigger] store.comments@[j].id@) != id@,
        decreases n - i,
    {
        if store.comments[i].id == *id {
            let mut comment = store.comments.remove(i);
            comment.deleted_at = Some(now);
            comment.local_updated_at = now;
            comment.is_synced = false;
            store.comments.insert(i, comment);
            store.clock = now;
            proof {
                assert(store.comments@ =~= old(store).comments@.update(
                    i as int,
                    store.comments@[i as int],
                ));
                assert forall|p: int, q: int| 0 <= p < q < store.comments@.len()
                    implies (#[trigger] store.comments@[p].id@)
                        != (#[trigger] store.comments@[q].id@) by {
                    assert(store.comments@[p].id@ == old(store).comments@[p].id@);
                    assert(store.comments@[q].id@ == old(store).comments@[q].id@);
                }
            }
            return true;
        }
        i += 1;
    }
    false
}

} // verus!
