//! Handles of spawned work.
//!
//! Dropping a handle detaches the work it stands for: nothing is cancelled
//! unless `abort` is called.
use std::future::Future;
use vstd::prelude::*;

verus! {

/// The handle of a task on the executor. Awaiting it gives the task's
/// output, or `Err` where the task did not run to its end.
pub trait AsyncHandle<T>: Future<Output = Result<T, ()>> + Send {
    /// Whether the task has run to its end.
    fn is_finished(&self) -> bool;

    /// Lets the task run on with nobody waiting for it.
    fn detach(self);

    /// Stops the task.
    fn abort(self);
}

/// The handle of a blocking job on a worker thread. Awaiting it gives the
/// job's output, or `Err` where the job did not run to its end.
pub trait ThreadHandle<T>: Future<Output = Result<T, ()>> {
    /// Whether the job has run to its end.
    fn is_finished(&self) -> bool;
}

} // verus!
