//! Background jobs: their lifecycle state and cooperative cancellation.

use crate::errors::{error_text, VisionError};
use std::sync::atomic::{AtomicBool, Ordering};
use std::sync::Arc;
use vstd::prelude::*;

verus! {

/// Lifecycle of a job. `Failed` keeps the error's display text so the state
/// serializes easily.
#[derive(Debug, Clone, PartialEq, Eq)]
pub enum JobState {
    Queued,
    Running,
    Completed,
    Cancelled,
    Failed(String),
}

/// A handle passed to engines/operations to check if they should stop work
/// early. Clones share one flag.
#[derive(Clone)]
pub struct CancellationHandle {
    is_cancelled: Arc<AtomicBool>,
}

/// What `check` answers for a flag that reads `cancelled`.
pub open spec fn check_outcome(cancelled: bool) -> Result<(), VisionError> {
    if cancelled {
        Err(VisionError::CancellationError)
    } else {
        Ok(())
    }
}

/// Turns a reading of the cancellation flag into the result of `check`:
/// `Err(CancellationError)` when set, `Ok(())` otherwise.
pub fn cancellation_outcome(cancelled: bool) -> (r: Result<(), VisionError>)
    ensures
        r == check_outcome(cancelled),
{
    if cancelled {
        Err(VisionError::CancellationError)
    } else {
        Ok(())
    }
}

impl CancellationHandle {
    /// A fresh handle whose flag is not set. The flag lives in an atomic
    /// shared by every clone, whose value Verus does not model, so no clause
    /// states it.
    pub fn new() -> Self {
        CancellationHandle { is_cancelled: Arc::new(AtomicBool::new(false)) }
    }

    /// Mark the job as cancelled (seen by every clone of this handle).
    pub fn cancel(&self) {
        self.is_cancelled.store(true, Ordering::Relaxed);
    }

    /// Whether the job has been cancelled. Engines should call this
    /// periodically. Another thread may cancel at any time, so nothing is
    /// promised of a single reading.
    pub fn is_cancelled(&self) -> bool {
        self.is_cancelled.load(Ordering::Relaxed)
    }

    /// `Err(CancellationError)` if the job has been cancelled, allowing an
    /// early return via `?`; `Ok(())` otherwise. Which of the two depends on
    /// a reading of the shared flag; `cancellation_outcome` states the answer
    /// for each reading.
    pub fn check(&self) -> (r: Result<(), VisionError>)
        ensures
            r == Ok::<(), VisionError>(()) || r == Err::<(), VisionError>(VisionError::CancellationError),
    {
        let cancelled = self.is_cancelled();
        cancellation_outcome(cancelled)
    }
}

impl Default for CancellationHandle {
    fn default() -> Self {
        CancellationHandle::new()
    }
}

/// Represents an asynchronous job running in the background.
pub struct Job {
    pub id: String,
    pub state: JobState,
    pub cancellation_handle: CancellationHandle,
}

/// States from which no transition but `mark_completed`/`mark_failed` moves.
pub open spec fn is_settled(s: JobState) -> bool {
    match s {
        JobState::Queued | JobState::Running => false,
        _ => true,
    }
}

/// State after `cancel`: queued and running jobs become cancelled.
pub open spec fn after_cancel(s: JobState) -> JobState {
    match s {
        JobState::Queued | JobState::Running => JobState::Cancelled,
        other => other,
    }
}

/// State after `mark_running`: only a queued job starts.
pub open spec fn after_mark_running(s: JobState) -> JobState {
    match s {
        JobState::Queued => JobState::Running,
        other => other,
    }
}

impl Job {
    /// A queued job with the given id and a fresh cancellation handle.
    pub fn new(id: &str) -> (r: Job)
        ensures
            r.id@ == id@,
            r.state == JobState::Queued,
    {
        Job { id: id.to_string(), state: JobState::Queued, cancellation_handle: CancellationHandle::new() }
    }

    /// Cancels a queued or running job: its handle is cancelled and its state
    /// becomes `Cancelled`. A settled job is left as it is.
    pub fn cancel(&mut self)
        ensures
            final(self).state == after_cancel(old(self).state),
            final(self).id == old(self).id,
            final(self).cancellation_handle == old(self).cancellation_handle,
    {
        match self.state {
            JobState::Queued | JobState::Running => {
                self.cancellation_handle.cancel();
                self.state = JobState::Cancelled;
            },
            _ => {},
        }
    }

    /// A queued job starts running; any other state is kept.
    pub fn mark_running(&mut self)
        ensures
            final(self).state == after_mark_running(old(self).state),
            final(self).id == old(self).id,
            final(self).cancellation_handle == old(self).cancellation_handle,
    {
        match self.state {
            JobState::Queued => {
                self.state = JobState::Running;
            },
            _ => {},
        }
    }

    /// The job is completed.
    pub fn mark_completed(&mut self)
        ensures
            final(self).state == JobState::Completed,
            final(self).id == old(self).id,
            final(self).cancellation_handle == old(self).cancellation_handle,
    {
        self.state = JobState::Completed;
    }

    /// The job failed with `err`; its state keeps the error's display text.
    pub fn mark_failed(&mut self, err: VisionError)
        ensures
            final(self).state matches JobState::Failed(m) && m@ == error_text(err),
            final(self).id == old(self).id,
            final(self).cancellation_handle == old(self).cancellation_handle,
    {
        self.state = JobState::Failed(err.message());
    }
}

/// Cancelling twice is the same as cancelling once.
pub proof fn law_cancel_idempotent(s: JobState)
    ensures
        after_cancel(after_cancel(s)) == after_cancel(s),
{
}

/// A job that was cancelled never starts running afterwards.
pub proof fn law_cancelled_job_never_runs(s: JobState)
    ensures
        after_mark_running(after_cancel(s)) == after_cancel(s),
        after_mark_running(after_cancel(s)) != JobState::Running,
{
}

/// Cancelling settles every job, and a settled job is unchanged by `cancel`
/// and `mark_running`.
pub proof fn law_settled_states_are_stable(s: JobState)
    ensures
        is_settled(after_cancel(s)),
        is_settled(s) ==> after_cancel(s) == s && after_mark_running(s) == s,
{
}

/// A queued job that starts and is then cancelled ends cancelled.
pub proof fn law_running_job_can_be_cancelled()
    ensures
        after_cancel(after_mark_running(JobState::Queued)) == JobState::Cancelled,
{
}

/// `check` answers `Err(CancellationError)` exactly when the flag reads set.
pub proof fn law_check_reports_cancellation(cancelled: bool)
    ensures
        check_outcome(cancelled) is Err <==> cancelled,
        check_outcome(cancelled) is Err ==> check_outcome(cancelled) == Err::<(), VisionError>(VisionError::CancellationError),
{
}

} // verus!
