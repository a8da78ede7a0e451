//! The two entity kinds and their submission payloads, with the abstract
//! views the contracts speak of.

use vstd::prelude::*;

verus! {

/// A work item.
pub struct Task {
    /// Unique identifier, assigned once at creation, immutable.
    pub id: u64,
    /// Title of the task.
    pub title: String,
    /// A brief description of the task.
    pub description: String,
    /// The member the task is assigned to.
    pub assigned_to: String,
    /// Whether the task has been completed; transitions false to true only.
    pub is_done: bool,
    /// Host time at creation, immutable.
    pub start_time: u64,
    /// Deadline in hours from the start time; positive.
    pub deadline: u8,
    /// Host time of the last mutating update, if any.
    pub updated_at: Option<u64>,
}

/// The abstract value of a [`Task`].
#[verifier::ext_equal]
pub ghost struct TaskView {
    pub id: u64,
    pub title: Seq<char>,
    pub description: Seq<char>,
    pub assigned_to: Seq<char>,
    pub is_done: bool,
    pub start_time: u64,
    pub deadline: u8,
    pub updated_at: Option<u64>,
}

impl View for Task {
    type V = TaskView;

    open spec fn view(&self) -> TaskView {
        TaskView {
            id: self.id,
            title: self.title@,
            description: self.description@,
            assigned_to: self.assigned_to@,
            is_done: self.is_done,
            start_time: self.start_time,
            deadline: self.deadline,
            updated_at: self.updated_at,
        }
    }
}

impl Clone for Task {
    /// A clone is equal in all fields.
    fn clone(&self) -> (r: Task)
        ensures
            r@ == self@,
    {
        Task {
            id: self.id,
            title: self.title.clone(),
            description: self.description.clone(),
            assigned_to: self.assigned_to.clone(),
            is_done: self.is_done,
            start_time: self.start_time,
            deadline: self.deadline,
            updated_at: self.updated_at,
        }
    }
}

/// A registered participant.
pub struct Member {
    /// Unique identifier, assigned once at creation, immutable.
    pub id: u64,
    /// The member's identity string; not necessarily unique across members.
    pub principal_id: String,
}

/// The abstract value of a [`Member`].
#[verifier::ext_equal]
pub ghost struct MemberView {
    pub id: u64,
    pub principal_id: Seq<char>,
}

impl View for Member {
    type V = MemberView;

    open spec fn view(&self) -> MemberView {
        MemberView { id: self.id, principal_id: self.principal_id@ }
    }
}

/// The submitted fields of a task; the identifier and the timestamps are
/// assigned by the system.
pub struct TaskPayload {
    pub title: String,
    pub description: String,
    pub assigned_to: String,
    pub deadline: u8,
}

/// The abstract value of a [`TaskPayload`].
#[verifier::ext_equal]
pub ghost struct TaskPayloadView {
    pub title: Seq<char>,
    pub description: Seq<char>,
    pub assigned_to: Seq<char>,
    pub deadline: u8,
}

impl View for TaskPayload {
    type V = TaskPayloadView;

    open spec fn view(&self) -> TaskPayloadView {
        TaskPayloadView {
            title: self.title@,
            description: self.description@,
            assigned_to: self.assigned_to@,
            deadline: self.deadline,
        }
    }
}

/// The submitted fields of a member.
pub struct MemberPayload {
    pub principal_id: String,
}

impl View for MemberPayload {
    type V = Seq<char>;

    open spec fn view(&self) -> Seq<char> {
        self.principal_id@
    }
}

} // verus!
