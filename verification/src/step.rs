//! Step outcomes and step actions.

use vstd::prelude::*;

verus! {

/// Outcome of advancing a suspendable computation by one step: either the
/// computation finished with its final value, or it is not done yet and has
/// arranged to be woken when it can make progress.
#[derive(Debug)]
pub enum StepResult<T> {
    Done(T),
    NotDone,
}

/// What a step asks its surroundings to do besides recording the outcome.
#[derive(Clone, Copy, PartialEq, Eq, Debug)]
pub enum StepAction {
    /// Start the one helper that waits until `deadline` and then delivers
    /// the elapse event for the timer that requested it.
    SpawnHelper { deadline: u64 },
    /// The computation re-queued itself: it can make progress immediately.
    SelfWake,
    /// Nothing to do; the computation either finished or is already waiting.
    NoAction,
}

/// The fixed marker a timer yields when its deadline has passed.
#[derive(Clone, Copy, PartialEq, Eq, Debug)]
pub struct CompletionMarker;

} // verus!
