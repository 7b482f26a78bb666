//! The wake capability.

use vstd::prelude::*;

verus! {

/// A cloneable capability bound to exactly one task. Invoking it re-submits
/// that task to the executor's ready queue; it is safe to invoke any number
/// of times, including after the task has completed (the executor then finds
/// an empty slot and skips the stale entry).
#[derive(Clone, Copy, PartialEq, Eq, Debug)]
pub struct WakeHandle {
    /// Index of the task this capability re-submits.
    pub task_id: usize,
}

impl WakeHandle {
    /// The capability that re-submits the task with index `task_id`.
    pub fn for_task(task_id: usize) -> (w: WakeHandle)
        ensures
            w == (WakeHandle { task_id }),
    {
        WakeHandle { task_id }
    }
}

} // verus!
