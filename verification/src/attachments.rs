//! File attachments on tasks.  The store keeps the metadata; the bytes
//! live wherever `file_path` points.

#![verifier::loop_isolation(false)]

use vstd::prelude::*;

use crate::store::{Store, StoreError};

verus! {

#[derive(Debug)]
pub struct Attachment {
    pub id: String,
    pub task_id: String,
    pub file_path: String,
    pub file_name: String,
    pub mime_type: String,
    pub file_size_bytes: i64,
    pub uploaded_at: i64,
    pub deleted_at: Option<i64>,
    pub is_synced: bool,
    pub local_updated_at: i64,
}

impl Attachment {
    /// A value-for-value copy.
    pub fn duplicate(&self) -> (r: Attachment)
        ensures
            r == *self,
    {
        Attachment {
            id: self.id.clone(),
            task_id: self.task_id.clone(),
            file_path: self.file_path.clone(),
            file_name: self.file_name.clone(),
            mime_type: self.mime_type.clone(),
            file_size_bytes: self.file_size_bytes,
            uploaded_at: self.uploaded_at,
            deleted_at: self.deleted_at,
            is_synced: self.is_synced,
            local_updated_at: self.local_updated_at,
        }
    }
}

pub open spec fn attachments_wf(s: Seq<Attachment>, clock: int) -> bool {
    &&& forall|i: int, j: int|
        0 <= i < j < s.len() ==> (#[trigger] s[i].id@) != (#[trigger] s[j].id@)
    &&& forall|i: int|
        0 <= i < s.len()
            ==> (#[trigger] s[i]).uploaded_at <= s[i].local_updated_at <= clock
}

pub open spec fn has_attachment_id(s: Seq<Attachment>, id: Seq<char>) -> bool {
    exists|i: int| 0 <= i < s.len() && (#[trigger] s[i].id@) == id
}

/// Everything but attachments (and the clock) is untouched.
pub open spec fn only_attachments_changed(pre: Store, post: Store) -> bool {
    &&& post.workspaces@ == pre.workspaces@
    &&& post.lists@ == pre.lists@
    &&& post.tasks@ == pre.tasks@
    &&& post.tags@ == pre.tags@
    &&& post.task_tags@ == pre.task_tags@
    &&& post.comments@ == pre.comments@
    &&& post.habits@ == pre.habits@
    &&& post.habit_logs@ == pre.habit_logs@
    &&& post.focus_sessions@ == pre.focus_sessions@
    &&& post.time_blocks@ == pre.time_blocks@
}

/// Records an attachment on a task, stamped dirty.
pub fn attachments_add(
    store: &mut Store,
    id: String,
    now: i64,
    task_id: String,
    file_path: String,
    file_name: String,
    mime_type: String,
    file_size_bytes: i64,
) -> (r: Result<Attachment, StoreError>)
    requires
        old(store).wf(),
        now >= old(store).clock,
    ensures
        final(store).wf(),
        only_attachments_changed(*old(store), *final(store)),
        match r {
            Ok(a) => {
                &&& !has_attachment_id(old(store).attachments@, a.id@)
                &&& final(store).attachments@ == old(store).attachments@.push(a)
                &&& final(store).clock == now
                &&& a.id@ == id@
                &&& a.task_id == task_id
                &&& a.file_path == file_path
                &&& a.file_name == file_name
                &&& a.mime_type == mime_type
                &&& a.file_size_bytes == file_size_bytes
                &&& a.uploaded_at == now
                &&& a.local_updated_at == now
                &&& a.deleted_at.is_none()
                &&& !a.is_synced
            },
            Err(e) => {
                &&& e == StoreError::Constraint
                &&& has_attachment_id(old(store).attachments@, id@)
                &&& *final(store) == *old(store)
            },
        },
{
    let n = store.attachments.len();
    let mut i: usize = 0;
    while i < n
        invariant
            0 <= i <= n,
            n == store.attachments@.len(),
            *store == *old(store),
            forall|j: int| 0 <= j < i ==> (#[trigger] store.attachments@[j].id@) != id@,
        decreases n - i,
    {
        if store.attachments[i].id == id {
            return Err(StoreError::Constraint);
        }
        i += 1;
    }
    let attachment = Attachment {
        id,
        task_id,
        file_path,
        file_name,
        mime_type,
        file_size_bytes,
        uploaded_at: now,
        deleted_at: None,
        is_synced: false,
        local_updated_at: now,
    };
    let result = attachment.duplicate();
    store.attachments.push(attachment);
    store.clock = now;
    proof {
        assert forall|p: int, q: int| 0 <= p < q < store.attachments@.len()
            implies (#[trigger] store.attachments@[p].id@)
                != (#[trigger] store.attachments@[q].id@) by {
            if q < store.attachments@.len() - 1 {
                assert(store.attachments@[p] == old(store).attachments@[p]);
                assert(store.attachments@[q] == old(store).attachments@[q]);
            } else {
                assert(store.attachments@[p] == old(store).attachments@[p]);
            }
        }
    }
    Ok(result)
}

/// Attachments are listed newest upload first.
pub open spec fn attachments_sorted(s: Seq<Attachment>) -> bool {
    forall|i: int, j: int|
        0 <= i < j < s.len()
            ==> (#[trigger] s[i]).uploaded_at >= (#[trigger] s[j]).uploaded_at
}

/// The live attachments of one task, newest upload first.
pub fn attachments_list(store: &Store, task_id: &String) -> (r: Vec<Attachment>)
    requires
        store.wf(),
    ensures
        r@.len() == store.attachments@.filter(
            |a: Attachment| a.task_id@ == task_id@ && a.deleted_at.is_none(),
        ).len(),
        r@.to_multiset() == store.attachments@.filter(
            |a: Attachment| a.task_id@ == task_id@ && a.deleted_at.is_none(),
        ).to_multiset(),
        attachments_sorted(r@),
{
    broadcast use vstd::seq_lib::group_to_multiset_ensures;
    broadcast use vstd::multiset::group_multiset_axioms;

    let ghost keep = |a: Attachment| a.task_id@ == task_id@ && a.deleted_at.is_none();
    let mut r: Vec<Attachment> = Vec::new();
    let n = store.attachments.len();
    let mut i: usize = 0;
    proof {
        assert(store.attachments@.take(0).filter(keep) =~= Seq::<Attachment>::empty());
    }
    while i < n
        invariant
            0 <= i <= n,
            n == store.attachments@.len(),
            r@ == store.attachments@.take(i as int).filter(keep),
            keep == (|a: Attachment| a.task_id@ == task_id@ && a.deleted_at.is_none()),
        decreases n - i,
    {
        let ghost r_pre = r@;
        if store.attachments[i].task_id == *task_id && store.attachments[i].deleted_at.is_none() {
            r.push(store.attachments[i].duplicate());
        }
        proof {
            reveal(Seq::filter);
            let k = i as int;
            assert(store.attachments@.take(k + 1).drop_last() =~= store.attachments@.take(k));
            assert(store.attachments@.take(k + 1).last() == store.attachments@[k]);
            if keep(store.attachments@[k]) {
                assert(r@ =~= r_pre.push(store.attachments@[k]));
            }
            assert(r@ == store.attachments@.take(k + 1).filter(keep));
        }
        i += 1;
    }
    proof {
        assert(store.attachments@.take(n as int) =~= store.attachments@);
    }
    // Order the results.
    let ghost flt = store.attachments@.filter(|a: Attachment| a.task_id@ == task_id@ && a.deleted_at.is_none());
    let mut src = r;
    let mut out: Vec<Attachment> = Vec::new();
    proof {
        assert(out@.to_multiset().add(src@.to_multiset()) =~= flt.to_multiset());
    }
    while src.len() > 0
        invariant
            out@.to_multiset().add(src@.to_multiset()) == flt.to_multiset(),
            out@.len() + src@.len() == flt.len(),
            attachments_sorted(out@),
            forall|i: int, j: int|
                0 <= i < out@.len() && 0 <= j < src@.len()
                    ==> (#[trigger] out@[i]).uploaded_at >= (#[trigger] src@[j]).uploaded_at,
        decreases src.len(),
    {
        let mut m: usize = 0;
        let mut k: usize = 1;
        while k < src.len()
            invariant
                src@.len() > 0,
                0 <= m < k <= src@.len(),
                forall|j: int| 0 <= j < k ==> src@[m as int].uploaded_at >= (#[trigger] src@[j]).uploaded_at,
            decreases src.len() - k,
        {
            if src[k].uploaded_at > src[m].uploaded_at {
                m = k;
            }
            k += 1;
        }
        let ghost pre = src@;
        let picked = src.remove(m);
        let ghost out_pre = out@;
        out.push(picked);
        proof {
            assert(pre.contains(picked));
            pre.to_multiset_ensures();
            assert(pre.to_multiset().count(picked) > 0);
            assert(src@ == pre.remove(m as int));
            vstd::seq_lib::to_multiset_remove(pre, m as int);
            vstd::seq_lib::to_multiset_build(out_pre, picked);
            assert(out@.to_multiset().add(src@.to_multiset()) =~= flt.to_multiset());
            assert forall|j: int| 0 <= j < src@.len() implies picked.uploaded_at >= (#[trigger] src@[j]).uploaded_at by {
                if j < m as int {
                    assert(src@[j] == pre[j]);
                } else {
                    assert(src@[j] == pre[j + 1]);
                }
            }
        }
    }
    proof {
        assert(src@.to_multiset() =~= vstd::multiset::Multiset::empty());
        assert(out@.to_multiset() =~= flt.to_multiset());
    }
    out
}

/// Soft-deletes an attachment.  Returns whether a row was affected.
pub fn attachments_delete(store: &mut Store, id: &String, now: i64) -> (r: bool)
    requires
        old(store).wf(),
        now >= old(store).clock,
    ensures
        final(store).wf(),
        only_attachments_changed(*old(store), *final(store)),
        r == has_attachment_id(old(store).attachments@, id@),
        r ==> exists|i: int|
            {
                &&& 0 <= i < old(store).attachments@.len()
                &&& (#[trigger] old(store).attachments@[i].id@) == id@
                &&& final(store).attachments@ == old(store).attachments@.update(i, Attachment {
                    deleted_at: Some(now),
                    local_updated_at: now,
                    is_synced: false,
                    ..old(store).attachments@[i]
                })
                &&& final(store).clock == now
            },
        !r ==> *final(store) == *old(store),
{
    let n = store.attachments.len();
    let mut i: usize = 0;
    while i < n
        invariant
            0 <= i <= n,
            n == store.attachments@.len(),
            *store == *old(store),
            forall|j: int| 0 <= j < i ==> (#[trigger] store.attachments@[j].id@) != id@,
        decreases n - i,
    {
        if store.attachments[i].id == *id {
            let mut attachment = store.attachments.remove(i);
            attachment.deleted_at = Some(now);
            attachment.local_updated_at = now;
            attachment.is_synced = false;
            store.attachments.insert(i, attachment);
            store.clock = now;
            proof {
                assert(store.attachments@ =~= old(store).attachments@.update(
                    i as int,
                    store.attachments@[i as int],
                ));
                assert forall|p: int, q: int| 0 <= p < q < store.attachments@.len()
                    implies (#[trigger] store.attachments@[p].id@)
                        != (#[trigger] store.attachments@[q].id@) by {
                    assert(store.attachments@[p].id@ == old(store).attachments@[p].id@);
                    assert(store.attachments@[q].id@ == old(store).attachments@[q].id@);
                }
            }
            return true;
        }
        i += 1;
    }
    false
}

} // verus!
