//! The single-flight copy/move coordinator: one global slot holds at most
//! one live task. Admission, terminal-state recording and status reads are
//! the slot's only operations; callers serialize them behind one lock.
use vstd::prelude::*;
use crate::Error;
use crate::text::str_eq;

verus! {

/// The life of a task: `Running`, then once and for all `Succeeded` or `Failed`.
#[derive(Debug, Clone, Copy, PartialEq, Eq, Structural)]
pub enum TaskState {
    Running,
    Succeeded,
    Failed,
}

/// A copy or move of `source` to `target`, submitted by `user_id`.
#[derive(Debug)]
pub struct CopyMoveTask {
    pub uuid: String,
    pub source: String,
    pub target: String,
    pub user_id: i64,
    pub is_copy: bool,
    pub overwrite: bool,
    pub state: TaskState,
}

/// A task as a mathematical value.
pub ghost struct TaskSpec {
    pub uuid: Seq<char>,
    pub source: Seq<char>,
    pub target: Seq<char>,
    pub user_id: i64,
    pub is_copy: bool,
    pub overwrite: bool,
    pub state: TaskState,
}

impl View for CopyMoveTask {
    type V = TaskSpec;

    open spec fn view(&self) -> TaskSpec {
        TaskSpec {
            uuid: self.uuid@,
            source: self.source@,
            target: self.target@,
            user_id: self.user_id,
            is_copy: self.is_copy,
            overwrite: self.overwrite,
            state: self.state,
        }
    }
}

/// What a status query reveals of a task: everything but its owner.
#[derive(Debug)]
pub struct TaskView {
    pub uuid: String,
    pub source: String,
    pub target: String,
    pub is_copy: bool,
    pub overwrite: bool,
    pub state: TaskState,
}

/// Whether the slot holds a task that has not reached a terminal state.
pub open spec fn slot_live(s: Option<TaskSpec>) -> bool {
    s is Some && s->0.state == TaskState::Running
}

/// The slot after a submission of `t`: taken by `t` unless a live task holds it.
pub open spec fn after_admit(s: Option<TaskSpec>, t: TaskSpec) -> Option<TaskSpec> {
    if slot_live(s) {
        s
    } else {
        Some(t)
    }
}

/// The slot after the task `uuid` ends: that task, if it is the live one,
/// takes its terminal state in place; otherwise nothing changes.
pub open spec fn after_finish(s: Option<TaskSpec>, uuid: Seq<char>, succeeded: bool) -> Option<
    TaskSpec,
> {
    if slot_live(s) && s->0.uuid == uuid {
        Some(
            TaskSpec {
                state: if succeeded {
                    TaskState::Succeeded
                } else {
                    TaskState::Failed
                },
                ..s->0
            },
        )
    } else {
        s
    }
}

/// The outcome of a status query: not found unless the slot's task has that
/// identifier, rejected unless the requester owns it.
pub open spec fn status_outcome(s: Option<TaskSpec>, uuid: Seq<char>, requester: i64) -> Result<
    (),
    Error,
> {
    if s is None || s->0.uuid != uuid {
        Err(Error::NotFound)
    } else if s->0.user_id != requester {
        Err(Error::BadRequest)
    } else {
        Ok(())
    }
}

/// The one global slot for copy/move tasks.
#[derive(Debug)]
pub struct TaskSlot {
    pub task: Option<CopyMoveTask>,
}

impl View for TaskSlot {
    type V = Option<TaskSpec>;

    open spec fn view(&self) -> Option<TaskSpec> {
        match self.task {
            Some(t) => Some(t@),
            None => None,
        }
    }
}

impl TaskSlot {
    /// An idle slot.
    pub fn new() -> (r: TaskSlot)
        ensures
            r@ == None::<TaskSpec>,
    {
        TaskSlot { task: None }
    }

    /// Whether a task is running, so that a new one would be refused.
    pub fn is_running(&self) -> (r: bool)
        ensures
            r == slot_live(self@),
    {
        match &self.task {
            Some(t) => t.state == TaskState::Running,
            None => false,
        }
    }

    /// Admits a new running task under `uuid` unless a live one holds the
    /// slot; on success the task is in place before any work starts and its
    /// identifier is returned.
    pub fn try_admit(
        &mut self,
        uuid: String,
        source: String,
        target: String,
        user_id: i64,
        is_copy: bool,
        overwrite: bool,
    ) -> (r: Result<String, Error>)
        ensures
            final(self)@ == after_admit(
                old(self)@,
                TaskSpec {
                    uuid: uuid@,
                    source: source@,
                    target: target@,
                    user_id,
                    is_copy,
                    overwrite,
                    state: TaskState::Running,
                },
            ),
            slot_live(old(self)@) ==> r == Err::<String, Error>(Error::BadRequest),
            !slot_live(old(self)@) ==> r is Ok && r->Ok_0@ == uuid@,
    {
        if self.is_running() {
            return Err(Error::BadRequest);
        }
        let id = uuid.clone();
        self.task = Some(
            CopyMoveTask { uuid, source, target, user_id, is_copy, overwrite, state: TaskState::Running },
        );
        Ok(id)
    }

    /// Records the end of the task `uuid`, which keeps its place so that a
    /// later status query can see the outcome.
    pub fn finish(&mut self, uuid: &str, succeeded: bool)
        ensures
            final(self)@ == after_finish(old(self)@, uuid@, succeeded),
    {
        let live = self.is_running();
        match &mut self.task {
            Some(t) => {
                if live && str_eq(t.uuid.as_str(), uuid) {
                    t.state = if succeeded {
                        TaskState::Succeeded
                    } else {
                        TaskState::Failed
                    };
                }
            },
            None => {},
        }
    }

    /// The task `uuid` as its owner `requester` may see it.
    pub fn status(&self, uuid: &str, requester: i64) -> (r: Result<TaskView, Error>)
        ensures
            match status_outcome(self@, uuid@, requester) {
                Ok(_) => r is Ok && ({
                    let v = r->Ok_0;
                    let t = self@->0;
                    v.uuid@ == t.uuid && v.source@ == t.source && v.target@ == t.target
                        && v.is_copy == t.is_copy && v.overwrite == t.overwrite && v.state
                        == t.state
                }),
                Err(e) => r == Err::<TaskView, Error>(e),
            },
    {
        match &self.task {
            None => Err(Error::NotFound),
            Some(t) => {
                if !str_eq(t.uuid.as_str(), uuid) {
                    Err(Error::NotFound)
                } else if t.user_id != requester {
                    Err(Error::BadRequest)
                } else {
                    Ok(
                        TaskView {
                            uuid: t.uuid.clone(),
                            source: t.source.clone(),
                            target: t.target.clone(),
                            is_copy: t.is_copy,
                            overwrite: t.overwrite,
                            state: t.state,
                        },
                    )
                }
            },
        }
    }
}

/// What a worker does where the target of a copy or move may already exist.
#[derive(Debug, Clone, Copy, PartialEq, Eq, Structural)]
pub enum Transfer {
    /// The target exists and may not be overwritten: the task fails.
    Abort,
    /// Nothing is in the way.
    Fresh,
    /// The existing target is replaced.
    Replace,
}

/// The overwrite rule: an existing target is replaced only where the task
/// allows it, and otherwise the whole task aborts.
pub fn plan_transfer(target_exists: bool, overwrite: bool) -> (r: Transfer)
    ensures
        !target_exists ==> r == Transfer::Fresh,
        target_exists && overwrite ==> r == Transfer::Replace,
        target_exists && !overwrite ==> r == Transfer::Abort,
{
    if !target_exists {
        Transfer::Fresh
    } else if overwrite {
        Transfer::Replace
    } else {
        Transfer::Abort
    }
}

/// Single flight: against an idle slot the first of two submissions is
/// admitted and the second refused; once the first has ended, a new
/// submission is admitted.
pub proof fn lemma_single_flight(
    s: Option<TaskSpec>,
    first: TaskSpec,
    second: TaskSpec,
    succeeded: bool,
)
    requires
        !slot_live(s),
        first.state == TaskState::Running,
    ensures
        after_admit(s, first) == Some(first),
        slot_live(after_admit(s, first)),
        after_admit(after_admit(s, first), second) == Some(first),
        !slot_live(after_finish(Some(first), first.uuid, succeeded)),
        after_admit(after_finish(Some(first), first.uuid, succeeded), second) == Some(second),
{
}

/// A terminal state is final: recording an end again changes nothing.
pub proof fn lemma_terminal_final(s: Option<TaskSpec>, uuid: Seq<char>, succeeded: bool)
    requires
        s is Some,
        s->0.state != TaskState::Running,
    ensures
        after_finish(s, uuid, succeeded) == s,
{
}

} // verus!
