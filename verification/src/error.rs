//! The errors the task operations report, and their messages. A message may
//! carry a hint after a `\nHint: ` line break.
use vstd::prelude::*;

use crate::text::{cat2, cat3, cat4, cat5, owned, push_str};

verus! {

/// Why an operation on the task list was refused.
#[derive(Debug)]
pub enum DexError {
    /// Two tasks share an id.
    DuplicateId { id: String },
    /// A task names a parent that does not exist.
    MissingParent { task: String, parent: String },
    /// A parent does not list a task that names it.
    ParentMissingChild { parent: String, child: String },
    /// A task lists a child that does not exist.
    MissingChild { task: String, child: String },
    /// A listed child names another parent.
    ChildParentMismatch { child: String, parent: String },
    /// A task names a blocker that does not exist.
    MissingBlocker { task: String, blocker: String },
    /// A blocker does not list the task it blocks.
    BlocksMissing { blocker: String, task: String },
    /// A task blocks a task that does not exist.
    BlocksMissingTask { task: String, blocked: String },
    /// A blocked task does not list its blocker.
    BlockedByMissing { blocked: String, task: String },
    /// The blockers form a cycle through the task.
    BlockingCycle { id: String },
    /// No task has this id.
    NotFound { id: String },
    /// A task cannot be completed while a child is open.
    IncompleteChild { id: String, child: String },
    /// A task cannot be its own parent.
    OwnParent { id: String },
    /// The parent asked for does not exist.
    ParentNotFound { parent: String },
    /// The parent asked for lies below the task.
    ParentIsSubtask { parent: String, id: String },
    /// A task cannot block itself.
    BlocksItself { id: String },
    /// The blocker asked for does not exist.
    BlockerNotFound { blocker: String },
    /// The task to archive does not exist.
    ArchiveNotFound { id: String },
    /// Only completed tasks can be archived.
    NotCompleted { id: String },
    /// An ancestor of the task to archive is open.
    IncompleteAncestor { id: String, parent: String },
    /// Tasks below the task to archive are open (listed, comma-separated).
    IncompleteSubtasks { id: String, open: String },
    /// A duration is not of the form `<number><d|w|m>`.
    InvalidDuration { value: String },
    /// A task with this id already exists.
    IdExists { id: String },
    /// A blocker named in a request does not exist.
    RequestBlockerNotFound { blocker: String },
    /// The task named in a request does not exist.
    RequestNotFound { id: String },
    /// A request made a task its own parent.
    RequestOwnParent,
    /// A request made a task block itself.
    RequestBlocksItself,
    /// A requested blocker is already blocked by the task.
    BlockerCycle { blocker: String },
    /// The task is in progress and was not forced.
    AlreadyInProgress { id: String },
    /// The task is linked to a remote item and needs a commit decision.
    CommitDecisionRequired { link: String },
    /// Deleting the task would delete subtasks and was not forced.
    HasSubtasks { id: String, count: String },
    /// The time library could not produce a timestamp.
    TimeOutOfRange,
}

/// The message of an error.
pub open spec fn message_of(e: DexError) -> Seq<char> {
    match e {
        DexError::DuplicateId { id } => "duplicate task id "@ + id@,
        DexError::MissingParent { task, parent } => "task "@ + task@ + " has missing parent "@ + parent@,
        DexError::ParentMissingChild { parent, child } => "parent "@ + parent@ + " children missing child "@ + child@,
        DexError::MissingChild { task, child } => "task "@ + task@ + " references missing child "@ + child@,
        DexError::ChildParentMismatch { child, parent } => "child "@ + child@ + " parent_id does not reference "@ + parent@,
        DexError::MissingBlocker { task, blocker } => "task "@ + task@ + " has missing blocker "@ + blocker@,
        DexError::BlocksMissing { blocker, task } => "task "@ + blocker@ + " blocks missing "@ + task@,
        DexError::BlocksMissingTask { task, blocked } => "task "@ + task@ + " blocks missing task "@ + blocked@,
        DexError::BlockedByMissing { blocked, task } => "task "@ + blocked@ + " blockedBy missing "@ + task@,
        DexError::BlockingCycle { id } => "blocking cycle involving "@ + id@,
        DexError::NotFound { id } => "task "@ + id@ + " not found"@,
        DexError::IncompleteChild { id, child } => "cannot complete "@ + id@ + ": incomplete child "@ + child@,
        DexError::OwnParent { id } => "task "@ + id@ + " cannot be its own parent"@,
        DexError::ParentNotFound { parent } => "task "@ + parent@ + " not found\nHint: The specified parent task does not exist"@,
        DexError::ParentIsSubtask { parent, id } => "task "@ + parent@ + " is a subtask of "@ + id@ + " and cannot become its parent"@,
        DexError::BlocksItself { id } => "task "@ + id@ + " cannot block itself"@,
        DexError::BlockerNotFound { blocker } => "task "@ + blocker@ + " not found\nHint: The specified blocker task does not exist"@,
        DexError::ArchiveNotFound { id } => "task "@ + id@ + " not found\nHint: Run dex list --all to see all tasks"@,
        DexError::NotCompleted { id } => "task "@ + id@ + " is not completed\nHint: Complete the task with 'dex complete "@ + id@ + " --result \"...\"' first"@,
        DexError::IncompleteAncestor { id, parent } => "task "@ + id@ + " has incomplete ancestor "@ + parent@,
        DexError::IncompleteSubtasks { id, open } => "task "@ + id@ + " has incomplete subtasks: "@ + open@,
        DexError::InvalidDuration { value } => "Invalid duration format: "@ + value@ + "\nHint: Expected format: 30d (days), 12w (weeks), 6m (months)"@,
        DexError::IdExists { id } => "Task with ID '"@ + id@ + "' already exists\nHint: Use a different ID or omit to auto-generate"@,
        DexError::RequestBlockerNotFound { blocker } => "Task \""@ + blocker@ + "\" not found\nHint: The specified blocker task does not exist"@,
        DexError::RequestNotFound { id } => "Task \""@ + id@ + "\" not found\nHint: Run \"dex list --all\" to see all available tasks"@,
        DexError::RequestOwnParent => "Task cannot be its own parent\nHint: Choose a different task as the parent"@,
        DexError::RequestBlocksItself => "Task cannot block itself\nHint: Remove the task's own ID from the add_blocked_by list"@,
        DexError::BlockerCycle { blocker } => "Cannot add blocker "@ + blocker@ + ": would create a cycle\nHint: The specified task is already blocked by the task being edited (directly or indirectly)"@,
        DexError::AlreadyInProgress { id } => "task "@ + id@ + " is already in progress and may be being worked on by someone else\nHint: Use --force to re-claim the task"@,
        DexError::CommitDecisionRequired { link } => "Task is linked to "@ + link@ + ".\n  Use --commit <sha> to link a commit (closes issue when merged)\n  Use --no-commit to complete without a commit (issue stays open)"@,
        DexError::HasSubtasks { id, count } => "task "@ + id@ + " has "@ + count@ + " subtasks that would also be deleted\nHint: Use --force to delete the task and its subtasks"@,
        DexError::TimeOutOfRange => "time out of range"@,
    }
}

impl DexError {
    /// The text shown for the error.
    pub fn message(&self) -> (r: String)
        ensures
            r@ == message_of(*self),
    {
        match self {
            DexError::DuplicateId { id } => cat2("duplicate task id ", id),
            DexError::MissingParent { task, parent } => cat4("task ", task, " has missing parent ", parent),
            DexError::ParentMissingChild { parent, child } => cat4("parent ", parent, " children missing child ", child),
            DexError::MissingChild { task, child } => cat4("task ", task, " references missing child ", child),
            DexError::ChildParentMismatch { child, parent } => cat4("child ", child, " parent_id does not reference ", parent),
            DexError::MissingBlocker { task, blocker } => cat4("task ", task, " has missing blocker ", blocker),
            DexError::BlocksMissing { blocker, task } => cat4("task ", blocker, " blocks missing ", task),
            DexError::BlocksMissingTask { task, blocked } => cat4("task ", task, " blocks missing task ", blocked),
            DexError::BlockedByMissing { blocked, task } => cat4("task ", blocked, " blockedBy missing ", task),
            DexError::BlockingCycle { id } => cat2("blocking cycle involving ", id),
            DexError::NotFound { id } => cat3("task ", id, " not found"),
            DexError::IncompleteChild { id, child } => cat4("cannot complete ", id, ": incomplete child ", child),
            DexError::OwnParent { id } => cat3("task ", id, " cannot be its own parent"),
            DexError::ParentNotFound { parent } => cat3("task ", parent, " not found\nHint: The specified parent task does not exist"),
            DexError::ParentIsSubtask { parent, id } => cat5("task ", parent, " is a subtask of ", id, " and cannot become its parent"),
            DexError::BlocksItself { id } => cat3("task ", id, " cannot block itself"),
            DexError::BlockerNotFound { blocker } => cat3("task ", blocker, " not found\nHint: The specified blocker task does not exist"),
            DexError::ArchiveNotFound { id } => cat3("task ", id, " not found\nHint: Run dex list --all to see all tasks"),
            DexError::NotCompleted { id } => {
                let mut r = cat4("task ", id, " is not completed\nHint: Complete the task with 'dex complete ", id);
                push_str(&mut r, " --result \"...\"' first");
                r
            },
            DexError::IncompleteAncestor { id, parent } => cat4("task ", id, " has incomplete ancestor ", parent),
            DexError::IncompleteSubtasks { id, open } => cat4("task ", id, " has incomplete subtasks: ", open),
            DexError::InvalidDuration { value } => cat3("Invalid duration format: ", value, "\nHint: Expected format: 30d (days), 12w (weeks), 6m (months)"),
            DexError::IdExists { id } => cat3("Task with ID '", id, "' already exists\nHint: Use a different ID or omit to auto-generate"),
            DexError::RequestBlockerNotFound { blocker } => cat3("Task \"", blocker, "\" not found\nHint: The specified blocker task does not exist"),
            DexError::RequestNotFound { id } => cat3("Task \"", id, "\" not found\nHint: Run \"dex list --all\" to see all available tasks"),
            DexError::RequestOwnParent => owned("Task cannot be its own parent\nHint: Choose a different task as the parent"),
            DexError::RequestBlocksItself => owned("Task cannot block itself\nHint: Remove the task's own ID from the add_blocked_by list"),
            DexError::BlockerCycle { blocker } => cat3("Cannot add blocker ", blocker, ": would create a cycle\nHint: The specified task is already blocked by the task being edited (directly or indirectly)"),
            DexError::AlreadyInProgress { id } => cat3("task ", id, " is already in progress and may be being worked on by someone else\nHint: Use --force to re-claim the task"),
            DexError::CommitDecisionRequired { link } => cat3("Task is linked to ", link, ".\n  Use --commit <sha> to link a commit (closes issue when merged)\n  Use --no-commit to complete without a commit (issue stays open)"),
            DexError::HasSubtasks { id, count } => cat5("task ", id, " has ", count, " subtasks that would also be deleted\nHint: Use --force to delete the task and its subtasks"),
            DexError::TimeOutOfRange => owned("time out of range"),
        }
    }
}

} // verus!
