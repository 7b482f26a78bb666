//! A timer: a suspendable computation that is ready once a deadline passes.
//!
//! Time is an absolute instant in plain units (for example milliseconds).
//! The blocking wait itself is delegated to a helper outside this module:
//! a step taken before the deadline asks, once per timer, for such a helper
//! to be spawned (`StepAction::SpawnHelper`), and the helper later delivers
//! the elapse event by calling [`TimerFuture::elapse`] and invoking the wake
//! capability it hands back.

use vstd::prelude::*;

use crate::step::CompletionMarker;
use crate::step::StepAction;
use crate::step::StepResult;
use crate::wake::WakeHandle;

verus! {

/// State shared between a timer's step function and the helper waiting for
/// its deadline: whether the wait has elapsed, and the wake capability to
/// invoke when it does.
#[derive(Clone, Copy, PartialEq, Eq, Debug)]
pub struct SharedTimerState {
    /// Set exactly once, when the deadline has been reached.
    pub elapsed: bool,
    /// The wake capability registered by the latest not-done step; the
    /// elapse event consumes it.
    pub pending_wake: Option<WakeHandle>,
}

/// A suspendable computation that is ready once its deadline passes. The
/// first step before the deadline requests one helper; later steps before
/// the deadline only re-register the latest wake capability.
#[derive(Clone, Copy, PartialEq, Eq, Debug)]
pub struct TimerFuture {
    /// Absolute time at which the timer becomes ready.
    pub deadline: u64,
    /// Whether the single helper was already requested.
    pub helper_spawned: bool,
    /// State shared with that helper.
    pub state: SharedTimerState,
}

impl TimerFuture {
    /// Internal consistency: a wake capability is registered only once the
    /// helper that will consume it was requested.
    pub open spec fn wf(self) -> bool {
        self.state.pending_wake is Some ==> self.helper_spawned
    }

    /// Time discipline at instant `now`: the elapse event fires no earlier
    /// than the deadline, so an elapsed timer's deadline has passed.
    pub open spec fn time_ok(self, now: u64) -> bool {
        self.state.elapsed ==> self.deadline <= now
    }

    /// The timer state after one step at time `now` with capability `wake`.
    pub open spec fn spec_step_state(self, now: u64, wake: WakeHandle) -> TimerFuture {
        if now >= self.deadline {
            TimerFuture {
                deadline: self.deadline,
                helper_spawned: self.helper_spawned,
                state: SharedTimerState {
                    elapsed: true,
                    pending_wake: self.state.pending_wake,
                },
            }
        } else {
            TimerFuture {
                deadline: self.deadline,
                helper_spawned: true,
                state: SharedTimerState { elapsed: false, pending_wake: Some(wake) },
            }
        }
    }

    /// The action one step at time `now` requests from its surroundings.
    pub open spec fn spec_step_action(self, now: u64) -> StepAction {
        if now < self.deadline && !self.helper_spawned {
            StepAction::SpawnHelper { deadline: self.deadline }
        } else {
            StepAction::NoAction
        }
    }

    /// A timer that becomes ready `duration` after the instant `now`.
    pub fn new(now: u64, duration: u64) -> (t: TimerFuture)
        requires
            now + duration <= u64::MAX,
        ensures
            t.deadline == now + duration,
            !t.helper_spawned,
            !t.state.elapsed,
            t.state.pending_wake is None,
    {
        TimerFuture {
            deadline: now + duration,
            helper_spawned: false,
            state: SharedTimerState { elapsed: false, pending_wake: None },
        }
    }

    /// Advance the timer by one step at time `now`, registering `wake` as
    /// the capability to invoke when the deadline is reached. Returns `Done`
    /// exactly when the deadline has passed; a step before the deadline
    /// requests a helper only if none was requested before.
    pub fn step(&mut self, now: u64, wake: WakeHandle) -> (r: (
        StepResult<CompletionMarker>,
        StepAction,
    ))
        requires
            old(self).time_ok(now),
        ensures
            *final(self) == old(self).spec_step_state(now, wake),
            r.0 is Done <==> now >= old(self).deadline,
            r.1 == old(self).spec_step_action(now),
            old(self).wf() ==> final(self).wf(),
            final(self).time_ok(now),
    {
        if self.state.elapsed {
            (StepResult::Done(CompletionMarker), StepAction::NoAction)
        } else if now >= self.deadline {
            self.state.elapsed = true;
            (StepResult::Done(CompletionMarker), StepAction::NoAction)
        } else {
            self.state.pending_wake = Some(wake);
            let action = if !self.helper_spawned {
                self.helper_spawned = true;
                StepAction::SpawnHelper { deadline: self.deadline }
            } else {
                StepAction::NoAction
            };
            (StepResult::NotDone, action)
        }
    }

    /// The helper's final act once the deadline is reached: record that the
    /// wait has elapsed and hand back the registered wake capability, which
    /// the caller invokes exactly once if present.
    pub fn elapse(&mut self) -> (w: Option<WakeHandle>)
        ensures
            final(self).deadline == old(self).deadline,
            final(self).helper_spawned == old(self).helper_spawned,
            final(self).state.elapsed,
            final(self).state.pending_wake is None,
            w == old(self).state.pending_wake,
    {
        self.state.elapsed = true;
        self.state.pending_wake.take()
    }
}

/// A timer spawns at most one helper, however many not-done steps it takes.
/// The step that requests the helper marks it requested, every step
/// preserves the mark, and a step taken with the mark set requests none —
/// so along any sequence of steps at most one request occurs.
pub proof fn lemma_timer_single_helper(t: TimerFuture, now: u64, wake: WakeHandle)
    ensures
        t.spec_step_action(now) is SpawnHelper ==> t.spec_step_state(now, wake).helper_spawned,
        t.helper_spawned ==> t.spec_step_state(now, wake).helper_spawned,
        t.helper_spawned ==> t.spec_step_action(now) !is SpawnHelper,
{
}

} // verus!
