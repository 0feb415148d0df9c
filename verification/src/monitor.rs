//! The life of a task as a dashboard shows it.

use vstd::prelude::*;

verus! {

/// Where a task stands.
#[derive(Clone, Copy, Debug, PartialEq, Eq, Structural)]
pub enum TaskStatus {
    /// Registered, no progress reported yet.
    Waiting,
    /// Progress was reported.
    Processing,
    /// Ended with a solution that was accepted.
    Completed,
    /// Ended without one.
    Failed,
}

impl TaskStatus {
    /// The status after a progress report: a waiting task starts processing,
    /// any other task stays as it is. The flag tells whether the task started
    /// processing by this report, so that it is counted once.
    pub fn after_progress(self) -> (r: (TaskStatus, bool))
        ensures
            self == TaskStatus::Waiting ==> r == (TaskStatus::Processing, true),
            self != TaskStatus::Waiting ==> r == (self, false),
    {
        match self {
            TaskStatus::Waiting => (TaskStatus::Processing, true),
            other => (other, false),
        }
    }

    /// The status of a task that ended.
    pub fn after_completion(success: bool) -> (r: TaskStatus)
        ensures
            r == if success {
                TaskStatus::Completed
            } else {
                TaskStatus::Failed
            },
    {
        if success {
            TaskStatus::Completed
        } else {
            TaskStatus::Failed
        }
    }
}

} // verus!
