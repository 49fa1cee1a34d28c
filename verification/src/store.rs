//! The entity store: the canonical local copies of every syncable
//! entity, held in memory and persisted by the caller.
//!
//! Every mutation goes through an operation that enforces the
//! change-tracking rules: a write stamps `local_updated_at` with the
//! caller's clock reading, clears `is_synced`, and a delete only ever
//! tombstones.  The store carries the latest clock reading it has
//! seen, and asks each mutation for a reading no older than that, so
//! `local_updated_at` always advances.

use vstd::prelude::*;

use crate::attachments::Attachment;
use crate::calendar::TimeBlock;
use crate::comments::Comment;
use crate::focus::FocusSession;
use crate::habits::{Habit, HabitLog};
use crate::lists::List;
use crate::tags::{Tag, TaskTag};
use crate::tasks::Task;

verus! {

/// What a store operation can fail with.  `NotFound` when the id does
/// not name a row; `Constraint` when a write would break a uniqueness
/// constraint; `DefaultListProtected` when a caller asks to delete the
/// default list.
#[derive(PartialEq, Eq, Structural, Debug)]
pub enum StoreError {
    NotFound,
    Constraint,
    DefaultListProtected,
}

/// The single local workspace every syncable row belongs to.
#[derive(Debug)]
pub struct Workspace {
    pub id: String,
    pub owner_id: String,
    pub name: String,
}

impl Workspace {
    /// A value-for-value copy.
    pub fn duplicate(&self) -> (r: Workspace)
        ensures
            r == *self,
    {
        Workspace {
            id: self.id.clone(),
            owner_id: self.owner_id.clone(),
            name: self.name.clone(),
        }
    }
}

pub open spec fn workspaces_wf(s: Seq<Workspace>) -> bool {
    forall|i: int, j: int|
        0 <= i < j < s.len() ==> (#[trigger] s[i].id@) != (#[trigger] s[j].id@)
}

pub struct Store {
    pub workspaces: Vec<Workspace>,
    pub lists: Vec<List>,
    pub tasks: Vec<Task>,
    pub tags: Vec<Tag>,
    pub task_tags: Vec<TaskTag>,
    pub comments: Vec<Comment>,
    pub attachments: Vec<Attachment>,
    pub habits: Vec<Habit>,
    pub habit_logs: Vec<HabitLog>,
    pub focus_sessions: Vec<FocusSession>,
    pub time_blocks: Vec<TimeBlock>,
    /// The latest clock reading any mutation has seen.
    pub clock: i64,
}

impl Store {
    pub open spec fn wf(&self) -> bool {
        &&& workspaces_wf(self.workspaces@)
        &&& crate::lists::lists_wf(self.lists@)
        &&& crate::tasks::tasks_wf(self.tasks@, self.clock as int)
        &&& crate::tags::tags_wf(self.tags@, self.clock as int)
        &&& crate::tags::task_tags_wf(self.task_tags@, self.clock as int)
        &&& crate::comments::comments_wf(self.comments@, self.clock as int)
        &&& crate::attachments::attachments_wf(self.attachments@, self.clock as int)
        &&& crate::habits::habits_wf(self.habits@, self.clock as int)
        &&& crate::habits::habit_logs_wf(self.habit_logs@, self.clock as int)
        &&& crate::focus::focus_sessions_wf(self.focus_sessions@, self.clock as int)
        &&& crate::calendar::time_blocks_wf(self.time_blocks@, self.clock as int)
    }

    /// An empty store whose clock has seen nothing yet.
    pub fn new() -> (r: Store)
        ensures
            r.wf(),
            r.workspaces@.len() == 0,
            r.lists@.len() == 0,
            r.tasks@.len() == 0,
            r.tags@.len() == 0,
            r.task_tags@.len() == 0,
            r.comments@.len() == 0,
            r.attachments@.len() == 0,
            r.habits@.len() == 0,
            r.habit_logs@.len() == 0,
            r.focus_sessions@.len() == 0,
            r.time_blocks@.len() == 0,
            r.clock == i64::MIN,
    {
        Store {
            workspaces: Vec::new(),
            lists: Vec::new(),
            tasks: Vec::new(),
            tags: Vec::new(),
            task_tags: Vec::new(),
            comments: Vec::new(),
            attachments: Vec::new(),
            habits: Vec::new(),
            habit_logs: Vec::new(),
            focus_sessions: Vec::new(),
            time_blocks: Vec::new(),
            clock: i64::MIN,
        }
    }

    /// The clock reading below which no mutation is accepted.
    pub fn clock_floor(&self) -> (r: i64)
        ensures
            r == self.clock,
    {
        self.clock
    }
}

/// Copies a vector of strings, value for value.
pub fn clone_string_vec(v: &Vec<String>) -> (r: Vec<String>)
    ensures
        r@ == v@,
{
    let r = v.clone();
    proof {
        assert forall|i: int| 0 <= i < v@.len() implies r@[i] == v@[i] by {
            assert(vstd::pervasive::cloned::<String>(v@[i], r@[i]));
        }
        assert(v@ =~= r@);
    }
    r
}

/// Copies an optional string.
pub fn clone_opt_string(v: &Option<String>) -> (r: Option<String>)
    ensures
        r == *v,
{
    match v {
        Some(s) => Some(s.clone()),
        None => None,
    }
}

/// Two optional string vectors hold the same values.
pub open spec fn same_opt_string_vec(a: Option<Vec<String>>, b: Option<Vec<String>>) -> bool {
    match (a, b) {
        (Some(x), Some(y)) => x@ == y@,
        (None, None) => true,
        _ => false,
    }
}

/// Copies an optional vector of strings, value for value.
pub fn clone_opt_string_vec(v: &Option<Vec<String>>) -> (r: Option<Vec<String>>)
    ensures
        same_opt_string_vec(r, *v),
{
    match v {
        Some(s) => Some(clone_string_vec(s)),
        None => None,
    }
}

} // verus!
