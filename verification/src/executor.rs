//! The cooperative executor: a task table, a bounded FIFO ready queue,
//! spawner handles, and a run loop that advances tasks one step at a time.
//!
//! The executor owns every spawned task. A task's slot holds its computation
//! until the computation reports done; the slot then stays empty, so a stale
//! wake finds the empty slot and is skipped. Re-submission happens only
//! through wake capabilities: a countdown re-queues itself on every not-done
//! step, while a timer registers its capability and is re-queued when the
//! elapse event for its deadline is delivered.
//!
//! Every operation is specified as a transition of [`ExecutorModel`], the
//! executor state seen as mathematics (sequences instead of vectors).

use vstd::prelude::*;

use crate::step::StepAction;
use crate::step::StepResult;
use crate::timer::SharedTimerState;
use crate::timer::TimerFuture;
use crate::wake::WakeHandle;

verus! {

/// Largest number of queued tasks a newly created executor admits.
pub const MAX_QUEUED_TASKS: usize = 10000;

/// The error of the executor: submitting or re-submitting a task when the
/// ready queue is already at capacity.
#[derive(Clone, Copy, PartialEq, Eq, Debug)]
pub enum ExecError {
    QueueFull,
}

/// A computation that needs a bounded number of steps: it completes once its
/// count reaches zero, and every not-done step re-queues it immediately.
#[derive(Clone, Copy, PartialEq, Eq, Debug)]
pub struct Countdown {
    /// Number of further not-done steps before the computation completes.
    pub remaining: u64,
}

/// The unit of work the executor schedules, as a tagged variant over the
/// computations this crate models.
#[derive(Clone, Copy, PartialEq, Eq, Debug)]
pub enum Computation {
    /// Ready once its deadline passes; re-queued by its helper's elapse event.
    Timer(TimerFuture),
    /// Completes after a bounded number of self-woken steps.
    Countdown(Countdown),
}

impl Computation {
    /// Whether one step at time `now` completes the computation.
    pub open spec fn spec_completes(self, now: u64) -> bool {
        match self {
            Computation::Timer(t) => now >= t.deadline,
            Computation::Countdown(c) => c.remaining == 0,
        }
    }

    /// The computation after one step at time `now` that did not complete it.
    pub open spec fn spec_step_state(self, now: u64, wake: WakeHandle) -> Computation
        recommends
            !self.spec_completes(now),
    {
        match self {
            Computation::Timer(t) => Computation::Timer(t.spec_step_state(now, wake)),
            Computation::Countdown(c) => Computation::Countdown(
                Countdown { remaining: (c.remaining - 1) as u64 },
            ),
        }
    }

    /// The action one step at time `now` requests from its surroundings.
    pub open spec fn spec_step_action(self, now: u64) -> StepAction {
        match self {
            Computation::Timer(t) => t.spec_step_action(now),
            Computation::Countdown(c) => if c.remaining == 0 {
                StepAction::NoAction
            } else {
                StepAction::SelfWake
            },
        }
    }

    /// Internal consistency of the computation.
    pub open spec fn wf(self) -> bool {
        match self {
            Computation::Timer(t) => t.wf(),
            Computation::Countdown(_) => true,
        }
    }

    /// Time discipline at instant `now`.
    pub open spec fn time_ok(self, now: u64) -> bool {
        match self {
            Computation::Timer(t) => t.time_ok(now),
            Computation::Countdown(_) => true,
        }
    }

    /// The wake capability the computation has registered with an external
    /// event source, if any.
    pub open spec fn pending_wake(self) -> Option<WakeHandle> {
        match self {
            Computation::Timer(t) => t.state.pending_wake,
            Computation::Countdown(_) => None,
        }
    }

    /// Bound on the number of self-woken steps the computation still takes.
    pub open spec fn fuel(self) -> nat {
        match self {
            Computation::Timer(_) => 0,
            Computation::Countdown(c) => c.remaining as nat,
        }
    }

    /// Advance the computation one step at time `now`, handing it `wake` as
    /// the capability to register or to use for re-queueing.
    pub fn step(&mut self, now: u64, wake: WakeHandle) -> (r: (StepResult<()>, StepAction))
        requires
            old(self).time_ok(now),
        ensures
            r.0 is Done <==> old(self).spec_completes(now),
            r.1 == old(self).spec_step_action(now),
            !old(self).spec_completes(now) ==> *final(self) == old(self).spec_step_state(
                now,
                wake,
            ),
            old(self).wf() ==> final(self).wf(),
            final(self).time_ok(now),
    {
        let c = *self;
        match c {
            Computation::Timer(mut t) => {
                let (r, action) = t.step(now, wake);
                *self = Computation::Timer(t);
                match r {
                    StepResult::Done(_) => (StepResult::Done(()), action),
                    StepResult::NotDone => (StepResult::NotDone, action),
                }
            },
            Computation::Countdown(k) => {
                if k.remaining == 0 {
                    (StepResult::Done(()), StepAction::NoAction)
                } else {
                    *self = Computation::Countdown(Countdown { remaining: k.remaining - 1 });
                    (StepResult::NotDone, StepAction::SelfWake)
                }
            },
        }
    }
}

/// One scheduled unit: the slot holding its computation. The slot becomes
/// and stays empty once the computation reports done.
#[derive(Clone, Copy, PartialEq, Eq, Debug)]
pub struct Task {
    pub computation: Option<Computation>,
}

impl Task {
    /// Whether the task still holds a computation.
    pub open spec fn live(self) -> bool {
        self.computation is Some
    }

    /// The wake capability the task's computation has registered, if any.
    pub open spec fn pending_wake(self) -> Option<WakeHandle> {
        match self.computation {
            Some(c) => c.pending_wake(),
            None => None,
        }
    }

    /// Bound on the number of self-woken steps the task still takes.
    pub open spec fn fuel(self) -> nat {
        match self.computation {
            Some(c) => c.fuel(),
            None => 0,
        }
    }

    /// Internal consistency of the stored computation.
    pub open spec fn wf(self) -> bool {
        match self.computation {
            Some(c) => c.wf(),
            None => true,
        }
    }

    /// Time discipline of the stored computation at instant `now`.
    pub open spec fn time_ok(self, now: u64) -> bool {
        match self.computation {
            Some(c) => c.time_ok(now),
            None => true,
        }
    }
}

/// Number of live tasks in `s`.
pub open spec fn live_count(s: Seq<Task>) -> nat
    decreases s.len(),
{
    if s.len() == 0 {
        0
    } else {
        (if s[0].live() {
            1nat
        } else {
            0nat
        }) + live_count(s.drop_first())
    }
}

/// Total remaining self-wake fuel of the tasks in `s`.
pub open spec fn fuel_total(s: Seq<Task>) -> nat
    decreases s.len(),
{
    if s.len() == 0 {
        0
    } else {
        s[0].fuel() + fuel_total(s.drop_first())
    }
}

proof fn lemma_live_count_push(s: Seq<Task>, t: Task)
    ensures
        live_count(s.push(t)) == live_count(s) + (if t.live() {
            1nat
        } else {
            0nat
        }),
    decreases s.len(),
{
    assert(s.push(t).len() == s.len() + 1);
    if s.len() == 0 {
        assert(s.push(t)[0] == t);
        assert(s.push(t).drop_first() =~= Seq::<Task>::empty());
        assert(live_count(s.push(t)) == (if s.push(t)[0].live() {
            1nat
        } else {
            0nat
        }) + live_count(s.push(t).drop_first()));
        assert(live_count(s) == 0);
    } else {
        assert(s.push(t)[0] == s[0]);
        assert(s.push(t).drop_first() =~= s.drop_first().push(t));
        lemma_live_count_push(s.drop_first(), t);
        assert(live_count(s.push(t)) == (if s.push(t)[0].live() {
            1nat
        } else {
            0nat
        }) + live_count(s.push(t).drop_first()));
        assert(live_count(s) == (if s[0].live() {
            1nat
        } else {
            0nat
        }) + live_count(s.drop_first()));
    }
}

proof fn lemma_live_count_update(s: Seq<Task>, i: int, t: Task)
    requires
        0 <= i < s.len(),
    ensures
        live_count(s.update(i, t)) + (if s[i].live() {
            1nat
        } else {
            0nat
        }) == live_count(s) + (if t.live() {
            1nat
        } else {
            0nat
        }),
    decreases s.len(),
{
    if i == 0 {
        assert(s.update(0, t).drop_first() =~= s.drop_first());
    } else {
        assert(s.update(i, t).drop_first() =~= s.drop_first().update(i - 1, t));
        lemma_live_count_update(s.drop_first(), i - 1, t);
    }
}

proof fn lemma_fuel_total_update(s: Seq<Task>, i: int, t: Task)
    requires
        0 <= i < s.len(),
    ensures
        fuel_total(s.update(i, t)) + s[i].fuel() == fuel_total(s) + t.fuel(),
    decreases s.len(),
{
    if i == 0 {
        assert(s.update(0, t).drop_first() =~= s.drop_first());
    } else {
        assert(s.update(i, t).drop_first() =~= s.drop_first().update(i - 1, t));
        lemma_fuel_total_update(s.drop_first(), i - 1, t);
    }
}

proof fn lemma_live_count_all_dead(s: Seq<Task>)
    requires
        forall|i: int| 0 <= i < s.len() ==> !(#[trigger] s[i]).live(),
    ensures
        live_count(s) == 0,
    decreases s.len(),
{
    if s.len() > 0 {
        assert(!s[0].live());
        assert forall|i: int| 0 <= i < s.drop_first().len() implies !(#[trigger] s.drop_first()[
        i]).live() by {
            assert(s.drop_first()[i] == s[i + 1]);
        }
        lemma_live_count_all_dead(s.drop_first());
    }
}

proof fn lemma_prefix_step(a: Seq<usize>, b: Seq<usize>, c: Seq<usize>)
    requires
        a.is_prefix_of(b),
        c == b || exists|x: usize| c == b.push(x),
    ensures
        a.is_prefix_of(c),
{
    if c != b {
        let x = choose|x: usize| c == b.push(x);
        assert(a =~= c.subrange(0, a.len() as int)) by {
            assert forall|i: int| 0 <= i < a.len() implies a[i] == c[i] by {
                assert(a[i] == b.subrange(0, a.len() as int)[i]);
                assert(b[i] == b.push(x)[i]);
            }
        }
    }
}

/// The executor state seen as mathematics: the task table, the FIFO ready
/// queue of task indexes (front first), the queue capacity, the number of
/// live spawner handles, and the indexes of completed tasks in completion
/// order.
#[verifier::ext_equal]
pub struct ExecutorModel {
    pub tasks: Seq<Task>,
    pub queue: Seq<usize>,
    pub capacity: nat,
    pub spawners: nat,
    pub completed: Seq<usize>,
}

impl ExecutorModel {
    /// Whether `id` indexes a spawned task.
    pub open spec fn valid_id(self, id: usize) -> bool {
        (id as int) < self.tasks.len()
    }

    /// Every queue entry indexes a spawned task.
    pub open spec fn queue_ids_valid(self) -> bool {
        forall|i: int| 0 <= i < self.queue.len() ==> self.valid_id(#[trigger] self.queue[i])
    }

    /// Every task is internally consistent.
    pub open spec fn tasks_wf(self) -> bool {
        forall|i: int| 0 <= i < self.tasks.len() ==> (#[trigger] self.tasks[i]).wf()
    }

    /// The completion record lists, without duplicates, exactly the tasks
    /// whose slots are empty: each spawned computation is observed done at
    /// most once, and an empty slot means it was observed.
    pub open spec fn completed_ok(self) -> bool {
        &&& forall|i: int|
            0 <= i < self.completed.len() ==> self.valid_id(#[trigger] self.completed[i])
                && !self.tasks[self.completed[i] as int].live()
        &&& self.completed.no_duplicates()
        &&& self.completed.len() + live_count(self.tasks) == self.tasks.len()
    }

    /// Every live task can still be reached: it is queued, or it has
    /// registered a wake capability with an external event source.
    pub open spec fn scheduled_or_waiting(self) -> bool {
        forall|id: usize|
            (id as int) < self.tasks.len() && (#[trigger] self.tasks[id as int]).live()
                ==> self.queue.contains(id) || self.tasks[id as int].pending_wake() is Some
    }

    /// A registered wake capability is bound to the task that registered
    /// it: invoking it re-submits exactly that task.
    pub open spec fn wakes_bound(self) -> bool {
        forall|i: int|
            0 <= i < self.tasks.len() ==> ((#[trigger] self.tasks[i]).pending_wake() matches Some(
                w,
            ) ==> w.task_id as int == i)
    }

    /// The executor invariant.
    pub open spec fn wf(self) -> bool {
        &&& self.queue.len() <= self.capacity
        &&& self.queue_ids_valid()
        &&& self.tasks_wf()
        &&& self.completed_ok()
        &&& self.scheduled_or_waiting()
        &&& self.wakes_bound()
    }

    /// Time discipline of every task at instant `now`.
    pub open spec fn time_ok(self, now: u64) -> bool {
        forall|i: int| 0 <= i < self.tasks.len() ==> (#[trigger] self.tasks[i]).time_ok(now)
    }

    /// Whether the ready queue can take one more entry.
    pub open spec fn has_room(self) -> bool {
        self.queue.len() < self.capacity
    }

    /// Whether some task has registered a wake capability that was not yet
    /// consumed: such a capability keeps the executor running.
    pub open spec fn has_pending_wake(self) -> bool {
        exists|i: int| 0 <= i < self.tasks.len() && (#[trigger] self.tasks[i]).pending_wake() is Some
    }

    /// No task holds a timer: every live computation completes within a
    /// bounded number of steps without external events.
    pub open spec fn all_bounded(self) -> bool {
        forall|i: int|
            0 <= i < self.tasks.len() ==> !((#[trigger] self.tasks[i]).computation matches Some(
                Computation::Timer(_),
            ))
    }

    /// The model after submitting `c` as a new task (when there is room).
    pub open spec fn spawn(self, c: Computation) -> ExecutorModel {
        ExecutorModel {
            tasks: self.tasks.push(Task { computation: Some(c) }),
            queue: self.queue.push(self.tasks.len() as usize),
            ..self
        }
    }

    /// The model after one invocation of task `id`'s wake capability (when
    /// there is room): the task is re-submitted to the ready queue.
    pub open spec fn wake(self, id: usize) -> ExecutorModel {
        ExecutorModel { queue: self.queue.push(id), ..self }
    }

    /// The model and event after receiving the front of the ready queue and
    /// advancing that task one step at time `now`: an empty slot is skipped;
    /// a completing step empties the slot and records the completion; a
    /// suspending step stores the stepped computation back, re-queueing the
    /// task at the back only if the step woke itself.
    pub open spec fn step_front(self, now: u64) -> (ExecutorModel, StepEvent) {
        if self.queue.len() == 0 {
            (self, StepEvent::QueueEmpty)
        } else {
            let id = self.queue[0];
            let rest = self.queue.drop_first();
            match self.tasks[id as int].computation {
                None => (ExecutorModel { queue: rest, ..self }, StepEvent::Skipped { id }),
                Some(c) => {
                    if c.spec_completes(now) {
                        (
                            ExecutorModel {
                                tasks: self.tasks.update(id as int, Task { computation: None }),
                                queue: rest,
                                completed: self.completed.push(id),
                                ..self
                            },
                            StepEvent::Completed { id },
                        )
                    } else {
                        let action = c.spec_step_action(now);
                        let stepped = c.spec_step_state(now, WakeHandle { task_id: id });
                        let queue2 = if action is SelfWake {
                            rest.push(id)
                        } else {
                            rest
                        };
                        (
                            ExecutorModel {
                                tasks: self.tasks.update(
                                    id as int,
                                    Task { computation: Some(stepped) },
                                ),
                                queue: queue2,
                                ..self
                            },
                            StepEvent::Suspended { id, action },
                        )
                    }
                },
            }
        }
    }

    /// The model after the elapse event for task `id` is delivered: if the
    /// task still holds a timer, the timer's wait is recorded as elapsed and
    /// the registered wake capability, if any, is consumed to re-submit the
    /// task. A stale event (empty slot, or no timer) changes nothing.
    pub open spec fn elapse(self, id: usize) -> ExecutorModel {
        match self.tasks[id as int].computation {
            Some(Computation::Timer(t)) => {
                let t2 = TimerFuture {
                    deadline: t.deadline,
                    helper_spawned: t.helper_spawned,
                    state: SharedTimerState { elapsed: true, pending_wake: None },
                };
                let tasks2 = self.tasks.update(
                    id as int,
                    Task { computation: Some(Computation::Timer(t2)) },
                );
                if t.state.pending_wake is Some {
                    ExecutorModel { tasks: tasks2, queue: self.queue.push(id), ..self }
                } else {
                    ExecutorModel { tasks: tasks2, ..self }
                }
            },
            _ => self,
        }
    }
}

/// What one receive-and-step turn of the executor observed.
#[derive(Clone, Copy, PartialEq, Eq, Debug)]
pub enum StepEvent {
    /// The ready queue was empty; nothing was received.
    QueueEmpty,
    /// The received task's slot was empty: a stale wake, skipped.
    Skipped { id: usize },
    /// The received task's computation reported done and was dropped.
    Completed { id: usize },
    /// The received task suspended again; `action` is what the step asked
    /// its surroundings to do.
    Suspended { id: usize, action: StepAction },
}

/// Why the run loop returned.
#[derive(Clone, Copy, PartialEq, Eq, Debug)]
pub enum RunOutcome {
    /// The queue is empty and no spawner handle or registered wake
    /// capability is left: no task can ever be submitted again.
    Terminated,
    /// The queue is empty but a spawner handle or a registered wake
    /// capability is still live: the caller must deliver the next event
    /// before running again.
    WouldBlock,
}

/// The write end of the executor's submission interface: while at least one
/// spawner handle is live, the executor's run loop does not terminate, it
/// waits for further submissions.
#[derive(Debug)]
pub struct Spawner {}

/// The executor: task table, bounded FIFO ready queue, spawner-handle count
/// and completion record. See [`ExecutorModel`] for the meaning of the
/// fields and [`ExecutorModel::wf`] for the invariant every operation
/// preserves.
#[derive(Debug)]
pub struct Executor {
    pub tasks: Vec<Task>,
    pub queue: Vec<usize>,
    pub capacity: usize,
    pub spawners: usize,
    pub completed: Vec<usize>,
}

impl View for Executor {
    type V = ExecutorModel;

    open spec fn view(&self) -> ExecutorModel {
        ExecutorModel {
            tasks: self.tasks@,
            queue: self.queue@,
            capacity: self.capacity as nat,
            spawners: self.spawners as nat,
            completed: self.completed@,
        }
    }
}

/// A fresh executor with a ready queue of the given capacity, together with
/// the first spawner handle for it.
pub fn new_executor_and_spawner_with_capacity(capacity: usize) -> (r: (Executor, Spawner))
    ensures
        r.0@.wf(),
        r.0@.tasks.len() == 0,
        r.0@.queue.len() == 0,
        r.0@.completed.len() == 0,
        r.0@.capacity == capacity as nat,
        r.0@.spawners == 1,
{
    let executor = Executor {
        tasks: Vec::new(),
        queue: Vec::new(),
        capacity,
        spawners: 1,
        completed: Vec::new(),
    };
    (executor, Spawner {})
}

/// A fresh executor with the default queue capacity, and the first spawner
/// handle for it.
pub fn new_executor_and_spawner() -> (r: (Executor, Spawner))
    ensures
        r.0@.wf(),
        r.0@.tasks.len() == 0,
        r.0@.queue.len() == 0,
        r.0@.completed.len() == 0,
        r.0@.capacity == MAX_QUEUED_TASKS as nat,
        r.0@.spawners == 1,
{
    new_executor_and_spawner_with_capacity(MAX_QUEUED_TASKS)
}

impl Executor {
    /// A further spawner handle for this executor's queue.
    pub fn clone_spawner(&mut self, _spawner: &Spawner) -> (r: Spawner)
        requires
            old(self)@.spawners >= 1,
            old(self)@.spawners < usize::MAX as nat,
        ensures
            final(self)@ =~= (ExecutorModel {
                spawners: old(self)@.spawners + 1,
                ..old(self)@
            }),
            old(self)@.wf() ==> final(self)@.wf(),
    {
        self.spawners = self.spawners + 1;
        Spawner {}
    }

    /// Give up one spawner handle. Once the last one is gone, only already
    /// registered wake capabilities can still submit tasks; when those are
    /// gone too, the run loop terminates.
    pub fn drop_spawner(&mut self, _spawner: Spawner)
        requires
            old(self)@.spawners >= 1,
        ensures
            final(self)@ =~= (ExecutorModel {
                spawners: (old(self)@.spawners - 1) as nat,
                ..old(self)@
            }),
            old(self)@.wf() ==> final(self)@.wf(),
    {
        self.spawners = self.spawners - 1;
    }

    /// Receive the task at the front of the ready queue and advance it one
    /// step at time `now`. A task whose slot is already empty is skipped; a
    /// completing step empties the slot and records the completion; a
    /// suspending step stores the stepped computation back. Re-queueing on
    /// suspension happens only through the task's wake capability — here
    /// only when the step woke itself.
    pub fn step_once(&mut self, now: u64) -> (e: StepEvent)
        requires
            old(self)@.wf(),
            old(self)@.time_ok(now),
        ensures
            final(self)@.wf(),
            final(self)@.time_ok(now),
            final(self)@ =~= old(self)@.step_front(now).0,
            e == old(self)@.step_front(now).1,
            old(self)@.queue.len() > 0 ==> fuel_total(final(self)@.tasks) + final(self)@.queue.len()
                < fuel_total(old(self)@.tasks) + old(self)@.queue.len(),
    {
        let ghost m0 = old(self)@;
        if self.queue.len() == 0 {
            return StepEvent::QueueEmpty;
        }
        proof {
            assert(m0.valid_id(m0.queue[0]));
        }
        let id = self.queue.remove(0);
        proof {
            assert(self.queue@ =~= m0.queue.drop_first());
        }
        let task = self.tasks[id];
        match task.computation {
            None => {
                proof {
                    let m1 = self@;
                    assert forall|i: int| 0 <= i < m1.queue.len() implies m1.valid_id(
                        #[trigger] m1.queue[i],
                    ) by {
                        assert(m1.queue[i] == m0.queue[i + 1]);
                    }
                    assert forall|id2: usize|
                        (id2 as int) < m1.tasks.len() && (#[trigger] m1.tasks[id2 as int]).live()
                        implies m1.queue.contains(id2) || m1.tasks[id2 as int].pending_wake() is Some by {
                        if m0.queue.contains(id2) {
                            let k = choose|k: int| 0 <= k < m0.queue.len() && m0.queue[k] == id2;
                            assert(k != 0);
                            assert(m1.queue[k - 1] == id2);
                        }
                    }
                    assert(m1 =~= m0.step_front(now).0);
                    assert(fuel_total(m1.tasks) == fuel_total(m0.tasks));
                    assert(m1.queue.len() < m0.queue.len());
                }
                StepEvent::Skipped { id }
            },
            Some(c0) => {
                let mut c = c0;
                let wake = WakeHandle::for_task(id);
                proof {
                    assert(m0.tasks[id as int].time_ok(now));
                }
                let (r, action) = c.step(now, wake);
                match r {
                    StepResult::Done(_) => {
                        self.tasks.set(id, Task { computation: None });
                        self.completed.push(id);
                        proof {
                            let m1 = self@;
                            let dead = Task { computation: None };
                            assert(m1.tasks =~= m0.tasks.update(id as int, dead));
                            lemma_live_count_update(m0.tasks, id as int, dead);
                            lemma_fuel_total_update(m0.tasks, id as int, dead);
                            assert(!m0.completed.contains(id)) by {
                                if m0.completed.contains(id) {
                                    let k = choose|k: int|
                                        0 <= k < m0.completed.len() && m0.completed[k] == id;
                                    assert(!m0.tasks[m0.completed[k] as int].live());
                                }
                            }
                            assert forall|i: int, j: int|
                                0 <= i < j < m1.completed.len() implies m1.completed[i]
                                != m1.completed[j] by {
                                if j < m0.completed.len() {
                                    assert(m0.completed.no_duplicates());
                                } else {
                                    assert(m1.completed[j] == id);
                                    assert(m0.completed.contains(m0.completed[i]));
                                }
                            }
                            assert forall|i: int| 0 <= i < m1.queue.len() implies m1.valid_id(
                                #[trigger] m1.queue[i],
                            ) by {
                                assert(m1.queue[i] == m0.queue[i + 1]);
                            }
                            assert forall|i: int| 0 <= i < m1.tasks.len() implies (#[trigger] m1
                                .tasks[i]).wf() by {
                                if i != id as int {
                                    assert(m1.tasks[i] == m0.tasks[i]);
                                }
                            }
                            assert forall|i: int|
                                0 <= i < m1.tasks.len() implies ((#[trigger] m1.tasks[
                            i]).pending_wake() matches Some(w) ==> w.task_id as int == i) by {
                                if i != id as int {
                                    assert(m1.tasks[i] == m0.tasks[i]);
                                }
                            }
                            assert forall|i: int| 0 <= i < m1.completed.len() implies m1.valid_id(
                                #[trigger] m1.completed[i],
                            ) && !m1.tasks[m1.completed[i] as int].live() by {
                                if i < m0.completed.len() {
                                    assert(m0.valid_id(m0.completed[i]));
                                    assert(!m0.tasks[m0.completed[i] as int].live());
                                    assert(m0.completed[i] != id);
                                }
                            }
                            assert forall|id2: usize|
                                (id2 as int) < m1.tasks.len() && (#[trigger] m1.tasks[
                                id2 as int]).live() implies m1.queue.contains(id2) || m1.tasks[
                                id2 as int].pending_wake() is Some by {
                                assert(id2 != id);
                                assert(m1.tasks[id2 as int] == m0.tasks[id2 as int]);
                                if m0.queue.contains(id2) {
                                    let k = choose|k: int|
                                        0 <= k < m0.queue.len() && m0.queue[k] == id2;
                                    assert(k != 0);
                                    assert(m1.queue[k - 1] == id2);
                                }
                            }
                            assert forall|i: int| 0 <= i < m1.tasks.len() implies (#[trigger] m1
                                .tasks[i]).time_ok(now) by {
                                if i != id as int {
                                    assert(m1.tasks[i] == m0.tasks[i]);
                                }
                            }
                            assert(m1 =~= m0.step_front(now).0);
                            assert(dead.fuel() == 0);
                            assert(fuel_total(m1.tasks) <= fuel_total(m0.tasks));
                            assert(m1.queue.len() < m0.queue.len());
                        }
                        StepEvent::Completed { id }
                    },
                    StepResult::NotDone => {
                        self.tasks.set(id, Task { computation: Some(c) });
                        let is_self_wake = match action {
                            StepAction::SelfWake => true,
                            _ => false,
                        };
                        if is_self_wake {
                            self.queue.push(id);
                        }
                        proof {
                            let m1 = self@;
                            let stepped = Task { computation: Some(c) };
                            assert(m1.tasks =~= m0.tasks.update(id as int, stepped));
                            lemma_live_count_update(m0.tasks, id as int, stepped);
                            lemma_fuel_total_update(m0.tasks, id as int, stepped);
                            assert(!(action is SelfWake) ==> stepped.pending_wake() is Some);
                            assert(action is SelfWake ==> stepped.fuel() < m0.tasks[
                                id as int].fuel());
                            assert(stepped.pending_wake() matches Some(w) ==> w == wake);
                            assert forall|i: int|
                                0 <= i < m1.tasks.len() implies ((#[trigger] m1.tasks[
                            i]).pending_wake() matches Some(w) ==> w.task_id as int == i) by {
                                if i != id as int {
                                    assert(m1.tasks[i] == m0.tasks[i]);
                                }
                            }
                            assert(!m0.completed.contains(id)) by {
                                if m0.completed.contains(id) {
                                    let k = choose|k: int|
                                        0 <= k < m0.completed.len() && m0.completed[k] == id;
                                    assert(!m0.tasks[m0.completed[k] as int].live());
                                }
                            }
                            assert forall|i: int| 0 <= i < m1.queue.len() implies m1.valid_id(
                                #[trigger] m1.queue[i],
                            ) by {
                                if i < m0.queue.len() - 1 {
                                    assert(m1.queue[i] == m0.queue[i + 1]);
                                } else if i == m0.queue.len() - 1 && !(action is SelfWake) {
                                    assert(m1.queue[i] == m0.queue[i + 1]);
                                }
                            }
                            assert forall|i: int| 0 <= i < m1.tasks.len() implies (#[trigger] m1
                                .tasks[i]).wf() by {
                                if i != id as int {
                                    assert(m1.tasks[i] == m0.tasks[i]);
                                }
                            }
                            assert forall|i: int| 0 <= i < m1.completed.len() implies m1.valid_id(
                                #[trigger] m1.completed[i],
                            ) && !m1.tasks[m1.completed[i] as int].live() by {
                                assert(m0.valid_id(m0.completed[i]));
                                assert(!m0.tasks[m0.completed[i] as int].live());
                                assert(m0.completed[i] != id);
                            }
                            assert forall|id2: usize|
                                (id2 as int) < m1.tasks.len() && (#[trigger] m1.tasks[
                                id2 as int]).live() implies m1.queue.contains(id2) || m1.tasks[
                                id2 as int].pending_wake() is Some by {
                                if id2 == id {
                                    if action is SelfWake {
                                        assert(m1.queue[m1.queue.len() - 1] == id);
                                    }
                                } else {
                                    assert(m1.tasks[id2 as int] == m0.tasks[id2 as int]);
                                    if m0.queue.contains(id2) {
                                        let k = choose|k: int|
                                            0 <= k < m0.queue.len() && m0.queue[k] == id2;
                                        assert(k != 0);
                                        assert(m1.queue[k - 1] == id2);
                                    }
                                }
                            }
                            assert forall|i: int| 0 <= i < m1.tasks.len() implies (#[trigger] m1
                                .tasks[i]).time_ok(now) by {
                                if i != id as int {
                                    assert(m1.tasks[i] == m0.tasks[i]);
                                }
                            }
                            assert(m1 =~= m0.step_front(now).0);
                            if action is SelfWake {
                                assert(fuel_total(m1.tasks) < fuel_total(m0.tasks));
                                assert(m1.queue.len() == m0.queue.len());
                            } else {
                                assert(m0.tasks[id as int].fuel() == 0 && stepped.fuel() == 0);
                                assert(fuel_total(m1.tasks) == fuel_total(m0.tasks));
                                assert(m1.queue.len() < m0.queue.len());
                            }
                        }
                        StepEvent::Suspended { id, action }
                    },
                }
            },
        }
    }

    /// Deliver the elapse event for task `id` at time `now`: the helper
    /// waiting for that task's timer deadline has finished its wait. If the
    /// task still holds its timer, the wait is recorded as elapsed and the
    /// registered wake capability, if any, is consumed — invoked exactly
    /// once — to re-submit the task. A stale event (empty slot, or not a
    /// timer) changes nothing. Returns whether a wake capability was
    /// invoked; fails exactly when one had to be and the queue is full.
    pub fn elapse_timer(&mut self, id: usize, now: u64) -> (r: Result<bool, ExecError>)
        requires
            old(self)@.wf(),
            old(self)@.valid_id(id),
            old(self)@.tasks[id as int].computation matches Some(Computation::Timer(t)) ==> now
                >= t.deadline,
        ensures
            final(self)@.wf(),
            old(self)@.tasks[id as int].pending_wake() is Some && !old(self)@.has_room() ==> (
            r is Err && final(self)@ =~= old(self)@),
            old(self)@.tasks[id as int].pending_wake() is None || old(self)@.has_room() ==> (
            r matches Ok(woke) && woke == (old(self)@.tasks[id as int].pending_wake() is Some)
                && final(self)@ =~= old(self)@.elapse(id)),
            forall|n: u64| now <= n && old(self)@.time_ok(n) ==> final(self)@.time_ok(n),
    {
        let ghost m0 = old(self)@;
        let task = self.tasks[id];
        match task.computation {
            Some(Computation::Timer(mut t)) => {
                let had_wake = t.state.pending_wake.is_some();
                if had_wake && self.queue.len() >= self.capacity {
                    return Err(ExecError::QueueFull);
                }
                let _ = t.elapse();
                self.tasks.set(id, Task { computation: Some(Computation::Timer(t)) });
                if had_wake {
                    self.queue.push(id);
                }
                proof {
                    let m1 = self@;
                    let woken = Task { computation: Some(Computation::Timer(t)) };
                    assert(m1.tasks =~= m0.tasks.update(id as int, woken));
                    lemma_live_count_update(m0.tasks, id as int, woken);
                    assert forall|i: int| 0 <= i < m1.queue.len() implies m1.valid_id(
                        #[trigger] m1.queue[i],
                    ) by {
                        if i < m0.queue.len() {
                            assert(m1.queue[i] == m0.queue[i]);
                        }
                    }
                    assert forall|i: int| 0 <= i < m1.tasks.len() implies (#[trigger] m1
                        .tasks[i]).wf() by {
                        if i != id as int {
                            assert(m1.tasks[i] == m0.tasks[i]);
                        }
                    }
                    assert forall|i: int|
                        0 <= i < m1.tasks.len() implies ((#[trigger] m1.tasks[i]).pending_wake()
                        matches Some(w) ==> w.task_id as int == i) by {
                        if i != id as int {
                            assert(m1.tasks[i] == m0.tasks[i]);
                        }
                    }
                    assert forall|i: int| 0 <= i < m1.completed.len() implies m1.valid_id(
                        #[trigger] m1.completed[i],
                    ) && !m1.tasks[m1.completed[i] as int].live() by {
                        assert(m0.valid_id(m0.completed[i]));
                        assert(!m0.tasks[m0.completed[i] as int].live());
                        assert(m0.completed[i] != id);
                    }
                    assert forall|id2: usize|
                        (id2 as int) < m1.tasks.len() && (#[trigger] m1.tasks[id2 as int]).live()
                        implies m1.queue.contains(id2) || m1.tasks[id2 as int].pending_wake()
                        is Some by {
                        if id2 == id {
                            if had_wake {
                                assert(m1.queue[m1.queue.len() - 1] == id);
                            } else {
                                if m0.queue.contains(id2) {
                                    let k = choose|k: int|
                                        0 <= k < m0.queue.len() && m0.queue[k] == id2;
                                    assert(m1.queue[k] == id2);
                                }
                            }
                        } else {
                            assert(m1.tasks[id2 as int] == m0.tasks[id2 as int]);
                            if m0.queue.contains(id2) {
                                let k = choose|k: int|
                                    0 <= k < m0.queue.len() && m0.queue[k] == id2;
                                assert(m1.queue[k] == id2);
                            }
                        }
                    }
                    assert(m1 =~= m0.elapse(id));
                    assert forall|n: u64| now <= n && m0.time_ok(n) implies m1.time_ok(n) by {
                        assert forall|i: int| 0 <= i < m1.tasks.len() implies (#[trigger] m1
                            .tasks[i]).time_ok(n) by {
                            if i != id as int {
                                assert(m1.tasks[i] == m0.tasks[i]);
                            }
                        }
                    }
                }
                Ok(had_wake)
            },
            _ => {
                proof {
                    assert(self@ =~= m0.elapse(id));
                }
                Ok(false)
            },
        }
    }

    /// Whether some task still holds a registered wake capability that was
    /// not yet consumed. Such a capability can still submit work, so the
    /// run loop must not report termination while one exists.
    pub fn any_pending_wake(&self) -> (b: bool)
        ensures
            b == self@.has_pending_wake(),
    {
        let mut i: usize = 0;
        let n = self.tasks.len();
        while i < n
            invariant
                i <= n,
                n as int == self@.tasks.len(),
                forall|j: int| 0 <= j < i ==> (#[trigger] self@.tasks[j]).pending_wake() is None,
            decreases n - i,
        {
            let t = self.tasks[i];
            match t.computation {
                Some(Computation::Timer(tf)) => {
                    if tf.state.pending_wake.is_some() {
                        proof {
                            assert(self@.tasks[i as int].pending_wake() is Some);
                        }
                        return true;
                    }
                },
                _ => {},
            }
            i = i + 1;
        }
        false
    }

    /// Run until the ready queue is drained: receive each queued task and
    /// advance it one step at time `now`, dropping computations that report
    /// done and skipping stale entries. Returns `Terminated` exactly when,
    /// with the queue empty, no spawner handle and no registered wake
    /// capability is left — nothing can ever submit a task again. While a
    /// task is still live (for example a timer whose elapse event has not
    /// been delivered), the outcome is `WouldBlock`, never `Terminated`:
    /// on termination every spawned computation has completed, and each was
    /// observed done exactly once.
    pub fn run(&mut self, now: u64) -> (r: RunOutcome)
        requires
            old(self)@.wf(),
            old(self)@.time_ok(now),
        ensures
            final(self)@.wf(),
            final(self)@.time_ok(now),
            final(self)@.queue.len() == 0,
            final(self)@.capacity == old(self)@.capacity,
            final(self)@.spawners == old(self)@.spawners,
            final(self)@.tasks.len() == old(self)@.tasks.len(),
            old(self)@.completed.is_prefix_of(final(self)@.completed),
            r is Terminated <==> (final(self)@.spawners == 0 && !final(self)@.has_pending_wake()),
            r is Terminated ==> forall|i: int|
                0 <= i < final(self)@.tasks.len() ==> !(#[trigger] final(self)@.tasks[i]).live(),
            r is Terminated ==> final(self)@.completed.len() == final(self)@.tasks.len()
                && final(self)@.completed.no_duplicates(),
            old(self)@.all_bounded() ==> final(self)@.all_bounded(),
            old(self)@.all_bounded() && old(self)@.spawners == 0 ==> r is Terminated,
    {
        let ghost m0 = old(self)@;
        proof {
            assert(m0.completed.subrange(0, m0.completed.len() as int) =~= m0.completed);
        }
        loop
            invariant
                self@.wf(),
                self@.time_ok(now),
                self@.capacity == m0.capacity,
                self@.spawners == m0.spawners,
                self@.tasks.len() == m0.tasks.len(),
                m0.completed.is_prefix_of(self@.completed),
                m0.all_bounded() ==> self@.all_bounded(),
            ensures
                self@.queue.len() == 0,
            decreases fuel_total(self@.tasks) + self@.queue.len(),
        {
            if self.queue.len() == 0 {
                break ;
            }
            let ghost prev = self@;
            let _event = self.step_once(now);
            proof {
                let m1 = self@;
                lemma_prefix_step(m0.completed, prev.completed, m1.completed);
                assert(m0.all_bounded() ==> m1.all_bounded()) by {
                    if m0.all_bounded() {
                        assert forall|i: int|
                            0 <= i < m1.tasks.len() implies !((#[trigger] m1.tasks[i]).computation
                        matches Some(Computation::Timer(_))) by {
                            if prev.queue.len() > 0 && i == prev.queue[0] as int {
                            } else {
                                assert(m1.tasks[i] == prev.tasks[i]);
                            }
                        }
                    }
                }
            }
        }
        let n = self.tasks.len();
        let spawners_gone = self.spawners == 0;
        if spawners_gone && !self.any_pending_wake() {
            proof {
                let m1 = self@;
                assert(m1.tasks.len() == n as int);
                assert forall|i: int| 0 <= i < m1.tasks.len() implies !(#[trigger] m1
                    .tasks[i]).live() by {
                    if m1.tasks[i].live() {
                        let idu: usize = i as usize;
                        assert(m1.tasks[idu as int].live());
                        assert(m1.queue.contains(idu) || m1.tasks[idu as int].pending_wake()
                            is Some);
                        if m1.queue.contains(idu) {
                            let k = choose|k: int| 0 <= k < m1.queue.len() && m1.queue[k] == idu;
                            assert(false);
                        }
                        assert(m1.has_pending_wake());
                    }
                }
                lemma_live_count_all_dead(m1.tasks);
            }
            RunOutcome::Terminated
        } else {
            proof {
                if m0.all_bounded() && m0.spawners == 0 {
                    assert(self@.all_bounded());
                    assert forall|i: int|
                        0 <= i < self@.tasks.len() implies (#[trigger] self@
                        .tasks[i]).pending_wake() is None by {}
                    assert(!self@.has_pending_wake());
                }
            }
            RunOutcome::WouldBlock
        }
    }

    /// One invocation of a wake capability: re-submit its task at the back
    /// of the ready queue. Safe for any task, including one that already
    /// completed — the executor later finds the empty slot and skips the
    /// entry. Fails exactly when the queue is at capacity.
    pub fn wake_by_ref(&mut self, wake: WakeHandle) -> (r: Result<(), ExecError>)
        requires
            old(self)@.wf(),
            old(self)@.valid_id(wake.task_id),
        ensures
            final(self)@.wf(),
            forall|now: u64| old(self)@.time_ok(now) ==> final(self)@.time_ok(now),
            old(self)@.has_room() ==> r is Ok && final(self)@ =~= old(self)@.wake(wake.task_id),
            !old(self)@.has_room() ==> r is Err && final(self)@ =~= old(self)@,
    {
        if self.queue.len() < self.capacity {
            self.queue.push(wake.task_id);
            proof {
                let m0 = old(self)@;
                let m1 = self@;
                assert forall|i: int| 0 <= i < m1.queue.len() implies m1.valid_id(
                    #[trigger] m1.queue[i],
                ) by {
                    if i < m0.queue.len() {
                        assert(m1.queue[i] == m0.queue[i]);
                    }
                }
                assert forall|id2: usize|
                    (id2 as int) < m1.tasks.len() && (#[trigger] m1.tasks[id2 as int]).live()
                    implies m1.queue.contains(id2) || m1.tasks[id2 as int].pending_wake() is Some by {
                    if m0.queue.contains(id2) {
                        let k = choose|k: int| 0 <= k < m0.queue.len() && m0.queue[k] == id2;
                        assert(m1.queue[k] == id2);
                    }
                }
            }
            Ok(())
        } else {
            Err(ExecError::QueueFull)
        }
    }
}

impl Spawner {
    /// Submit `computation`: wrap it as a new task and push the task onto
    /// the ready queue. Returns the new task's index, or fails exactly when
    /// the queue is at capacity.
    pub fn spawn(&self, executor: &mut Executor, computation: Computation) -> (r: Result<
        usize,
        ExecError,
    >)
        requires
            old(executor)@.wf(),
            old(executor)@.spawners >= 1,
            computation.wf(),
            computation.pending_wake() is None,
        ensures
            final(executor)@.wf(),
            old(executor)@.has_room() ==> (r matches Ok(id) && (id as int)
                == old(executor)@.tasks.len() && final(executor)@ =~= old(executor)@.spawn(
                computation,
            )),
            !old(executor)@.has_room() ==> r is Err && final(executor)@ =~= old(executor)@,
    {
        if executor.queue.len() < executor.capacity {
            let id = executor.tasks.len();
            executor.tasks.push(Task { computation: Some(computation) });
            executor.queue.push(id);
            proof {
                let m0 = old(executor)@;
                let m1 = executor@;
                lemma_live_count_push(m0.tasks, Task { computation: Some(computation) });
                assert forall|i: int| 0 <= i < m1.queue.len() implies m1.valid_id(
                    #[trigger] m1.queue[i],
                ) by {
                    if i < m0.queue.len() {
                        assert(m1.queue[i] == m0.queue[i]);
                    }
                }
                assert forall|i: int| 0 <= i < m1.tasks.len() implies (#[trigger] m1.tasks[i]).wf()
                by {
                    if i < m0.tasks.len() {
                        assert(m1.tasks[i] == m0.tasks[i]);
                    }
                }
                assert forall|i: int|
                    0 <= i < m1.tasks.len() implies ((#[trigger] m1.tasks[i]).pending_wake()
                    matches Some(w) ==> w.task_id as int == i) by {
                    if i < m0.tasks.len() {
                        assert(m1.tasks[i] == m0.tasks[i]);
                    }
                }
                assert forall|i: int| 0 <= i < m1.completed.len() implies m1.valid_id(
                    #[trigger] m1.completed[i],
                ) && !m1.tasks[m1.completed[i] as int].live() by {
                    assert(m0.valid_id(m0.completed[i]));
                    assert(m1.tasks[m1.completed[i] as int] == m0.tasks[m0.completed[i] as int]);
                }
                assert forall|id2: usize|
                    (id2 as int) < m1.tasks.len() && (#[trigger] m1.tasks[id2 as int]).live()
                    implies m1.queue.contains(id2) || m1.tasks[id2 as int].pending_wake() is Some by {
                    if (id2 as int) < m0.tasks.len() {
                        assert(m1.tasks[id2 as int] == m0.tasks[id2 as int]);
                        if m0.queue.contains(id2) {
                            let k = choose|k: int| 0 <= k < m0.queue.len() && m0.queue[k] == id2;
                            assert(m1.queue[k] == id2);
                        }
                    } else {
                        assert(m1.queue[m1.queue.len() - 1] == id2);
                    }
                }
            }
            Ok(id)
        } else {
            Err(ExecError::QueueFull)
        }
    }
}

/// Law: invoking a task's wake capability after its computation already
/// reported done is harmless. The stale entry is received and skipped: no
/// task changes, no completion is recorded twice, and the queue drains back
/// to empty.
pub proof fn lemma_stale_wake_skipped(m: ExecutorModel, id: usize, now: u64)
    requires
        m.wf(),
        m.has_room(),
        m.valid_id(id),
        !m.tasks[id as int].live(),
        m.queue.len() == 0,
    ensures
        ({
            let woken = m.wake(id);
            let (after, e) = woken.step_front(now);
            &&& e == (StepEvent::Skipped { id })
            &&& after.tasks == m.tasks
            &&& after.completed == m.completed
            &&& after.queue.len() == 0
        }),
{
    let woken = m.wake(id);
    assert(woken.queue[0] == id);
    assert(woken.queue.drop_first() =~= m.queue);
}

/// Law: several invocations of one task's wake capability before its next
/// step yield several queue entries, but at most one is meaningfully
/// processed. Here for a step that completes the task: the first entry
/// records the one completion, the second finds the empty slot and is
/// skipped, and nothing is completed twice.
pub proof fn lemma_duplicate_wakes_one_completion(m: ExecutorModel, id: usize, now: u64)
    requires
        m.wf(),
        m.valid_id(id),
        m.queue.len() == 0,
        m.capacity >= 2,
        m.tasks[id as int].live(),
        m.tasks[id as int].computation matches Some(c) && c.spec_completes(now),
    ensures
        ({
            let woken = m.wake(id).wake(id);
            let (after1, e1) = woken.step_front(now);
            let (after2, e2) = after1.step_front(now);
            &&& e1 == (StepEvent::Completed { id })
            &&& e2 == (StepEvent::Skipped { id })
            &&& after2.completed == m.completed.push(id)
            &&& after2.queue.len() == 0
        }),
{
    let woken = m.wake(id).wake(id);
    assert(woken.queue.len() == 2);
    assert(woken.queue[0] == id);
    assert(woken.queue[1] == id);
    let (after1, e1) = woken.step_front(now);
    assert(woken.queue.drop_first() =~= seq![id]);
    assert(after1.queue[0] == id);
    assert(!after1.tasks[id as int].live());
    let (after2, e2) = after1.step_front(now);
    assert(after2.queue =~= after1.queue.drop_first());
}

/// Law: a registered wake capability counts as a live submission handle.
/// While some task still holds one — a timer whose elapse event was not yet
/// delivered — a drained executor reports `WouldBlock`, never `Terminated`
/// (see the run loop's contract), even after every spawner handle is gone.
pub proof fn lemma_registered_wake_keeps_running(m: ExecutorModel, id: usize)
    requires
        m.valid_id(id),
        m.tasks[id as int].pending_wake() is Some,
    ensures
        m.has_pending_wake(),
{
}

} // verus!
