//! The task record: a unit of work with a description, an action payload,
//! a status, and a permanence flag, together with the error taxonomy of
//! the core.

use vstd::prelude::*;

verus! {

/// Lifecycle of a task: `Pending` is assigned at construction,
/// `Completed` is terminal. `InProgress` is reserved; no operation of the
/// core currently moves a task into it.
#[derive(Clone, Copy, Debug, PartialEq, Eq, Structural)]
pub enum TaskStatus {
    Pending,
    InProgress,
    Completed,
}

/// A unit of work. Two tasks are "the same task" iff their
/// `(description, action)` pairs are equal; there is no separate
/// identifier, so duplicate pairs are indistinguishable.
#[derive(Debug)]
pub struct Task {
    pub description: String,
    pub action: String,
    pub status: TaskStatus,
    pub is_permanent: bool,
}

/// Mathematical image of a `Task`: the two strings as character
/// sequences, plus the two plain fields.
#[verifier::ext_equal]
pub ghost struct TaskView {
    pub description: Seq<char>,
    pub action: Seq<char>,
    pub status: TaskStatus,
    pub is_permanent: bool,
}

impl View for Task {
    type V = TaskView;

    open spec fn view(&self) -> TaskView {
        TaskView {
            description: self.description@,
            action: self.action@,
            status: self.status,
            is_permanent: self.is_permanent,
        }
    }
}

impl TaskView {
    /// The identity key: two tasks denote the same work iff description
    /// and action agree.
    pub open spec fn key_eq(self, other: TaskView) -> bool {
        self.description == other.description && self.action == other.action
    }

    /// The same record with its status replaced.
    pub open spec fn with_status(self, status: TaskStatus) -> TaskView {
        TaskView { status, ..self }
    }
}

impl Task {
    /// Builds a task; every new task starts out `Pending`.
    pub fn new(description: String, action: String, is_permanent: bool) -> (t: Task)
        ensures
            t@.description == description@,
            t@.action == action@,
            t@.status == TaskStatus::Pending,
            t@.is_permanent == is_permanent,
    {
        Task { description, action, status: TaskStatus::Pending, is_permanent }
    }

    /// Decides whether `other` names the same work as `self`.
    pub fn key_matches(&self, other: &Task) -> (r: bool)
        ensures
            r == self@.key_eq(other@),
    {
        self.description == other.description && self.action == other.action
    }
}

impl Clone for Task {
    /// A clone carries the very same record.
    fn clone(&self) -> (t: Task)
        ensures
            t == *self,
    {
        Task {
            description: self.description.clone(),
            action: self.action.clone(),
            status: self.status,
            is_permanent: self.is_permanent,
        }
    }
}

/// The image of a stored sequence of tasks.
pub open spec fn views_of(tasks: Seq<Task>) -> Seq<TaskView> {
    tasks.map_values(|t: Task| t@)
}

/// What can go wrong inside the core: the backing store does not answer,
/// a status update names no stored task, a stored record does not parse,
/// or the external capability fails a processing call.
#[derive(Clone, Copy, Debug, PartialEq, Eq, Structural)]
pub enum CoreError {
    StoreUnavailable,
    TaskNotFound,
    SerializationFailure,
    CapabilityFailure,
}

} // verus!
