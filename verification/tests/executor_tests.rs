use coop_executor::executor::new_executor_and_spawner;
use coop_executor::executor::new_executor_and_spawner_with_capacity;
use coop_executor::executor::Computation;
use coop_executor::executor::Countdown;
use coop_executor::executor::ExecError;
use coop_executor::executor::RunOutcome;
use coop_executor::executor::StepEvent;
use coop_executor::executor::MAX_QUEUED_TASKS;
use coop_executor::step::StepAction;
use coop_executor::timer::TimerFuture;
use coop_executor::wake::WakeHandle;

fn countdown(remaining: u64) -> Computation {
    Computation::Countdown(Countdown { remaining })
}

#[test]
fn default_capacity_matches_constant() {
    let (executor, _spawner) = new_executor_and_spawner();
    assert_eq!(executor.capacity, MAX_QUEUED_TASKS);
    assert_eq!(executor.spawners, 1);
    assert!(executor.tasks.is_empty());
    assert!(executor.queue.is_empty());
}

#[test]
fn run_completes_bounded_computations() {
    let (mut executor, spawner) = new_executor_and_spawner_with_capacity(16);
    let a = spawner.spawn(&mut executor, countdown(3)).unwrap();
    let b = spawner.spawn(&mut executor, countdown(0)).unwrap();
    assert_eq!(a, 0);
    assert_eq!(b, 1);
    executor.drop_spawner(spawner);
    let outcome = executor.run(0);
    assert_eq!(outcome, RunOutcome::Terminated);
    // exactly one completion per spawned computation, the short one first
    assert_eq!(executor.completed, vec![1, 0]);
}

#[test]
fn immediate_computations_all_complete() {
    // a queue of capacity N takes N immediately-done timers without blocking
    let n = 8;
    let (mut executor, spawner) = new_executor_and_spawner_with_capacity(n);
    for i in 0..n {
        let id = spawner
            .spawn(&mut executor, Computation::Timer(TimerFuture::new(40, 0)))
            .unwrap();
        assert_eq!(id, i);
    }
    executor.drop_spawner(spawner);
    let outcome = executor.run(40);
    assert_eq!(outcome, RunOutcome::Terminated);
    assert_eq!(executor.completed.len(), n);
    let mut seen = executor.completed.clone();
    seen.sort();
    assert_eq!(seen, (0..n).collect::<Vec<_>>());
}

#[test]
fn shorter_timer_completes_first() {
    // A waits 50 time units, B only 10: B's completion is recorded strictly
    // before A's under the executor's single-threaded step serialization.
    let (mut executor, spawner) = new_executor_and_spawner_with_capacity(8);
    let a = spawner
        .spawn(&mut executor, Computation::Timer(TimerFuture::new(0, 50)))
        .unwrap();
    let b = spawner
        .spawn(&mut executor, Computation::Timer(TimerFuture::new(0, 10)))
        .unwrap();
    executor.drop_spawner(spawner);

    assert_eq!(executor.run(0), RunOutcome::WouldBlock);
    assert!(executor.completed.is_empty());

    // B's helper fires at its deadline
    assert_eq!(executor.elapse_timer(b, 10), Ok(true));
    assert_eq!(executor.run(10), RunOutcome::WouldBlock);
    assert_eq!(executor.completed, vec![b]);

    // A's helper fires later
    assert_eq!(executor.elapse_timer(a, 50), Ok(true));
    assert_eq!(executor.run(50), RunOutcome::Terminated);
    assert_eq!(executor.completed, vec![b, a]);
}

#[test]
fn run_waits_for_pending_timer_after_spawners_drop() {
    // dropping every spawner handle while a timer is pending must not end
    // the run loop early: the timer's wake still submits work
    let (mut executor, spawner) = new_executor_and_spawner_with_capacity(4);
    let id = spawner
        .spawn(&mut executor, Computation::Timer(TimerFuture::new(0, 50)))
        .unwrap();
    executor.drop_spawner(spawner);

    let outcome = executor.run(0);
    assert_eq!(outcome, RunOutcome::WouldBlock);
    assert!(executor.completed.is_empty());

    assert_eq!(executor.elapse_timer(id, 50), Ok(true));
    assert_eq!(executor.run(50), RunOutcome::Terminated);
    assert_eq!(executor.completed, vec![id]);
}

#[test]
fn wake_after_done_is_skipped() {
    let (mut executor, spawner) = new_executor_and_spawner_with_capacity(4);
    let id = spawner.spawn(&mut executor, countdown(0)).unwrap();
    executor.drop_spawner(spawner);
    assert_eq!(executor.run(0), RunOutcome::Terminated);
    assert_eq!(executor.completed, vec![id]);

    // a stale wake: accepted, then found empty and skipped
    assert_eq!(executor.wake_by_ref(WakeHandle::for_task(id)), Ok(()));
    assert_eq!(executor.step_once(0), StepEvent::Skipped { id });
    assert_eq!(executor.completed, vec![id]);
    assert_eq!(executor.run(0), RunOutcome::Terminated);
    assert_eq!(executor.completed, vec![id]);
}

#[test]
fn duplicate_wakes_yield_one_completion() {
    let (mut executor, spawner) = new_executor_and_spawner_with_capacity(8);
    let id = spawner.spawn(&mut executor, countdown(0)).unwrap();
    executor.drop_spawner(spawner);

    // two more wake invocations before the task is next stepped
    assert_eq!(executor.wake_by_ref(WakeHandle::for_task(id)), Ok(()));
    assert_eq!(executor.wake_by_ref(WakeHandle::for_task(id)), Ok(()));
    assert_eq!(executor.queue.len(), 3);

    assert_eq!(executor.step_once(0), StepEvent::Completed { id });
    assert_eq!(executor.step_once(0), StepEvent::Skipped { id });
    assert_eq!(executor.step_once(0), StepEvent::Skipped { id });
    assert_eq!(executor.step_once(0), StepEvent::QueueEmpty);
    assert_eq!(executor.completed, vec![id]);
}

#[test]
fn spawn_fails_when_queue_full() {
    let (mut executor, spawner) = new_executor_and_spawner_with_capacity(1);
    assert!(spawner.spawn(&mut executor, countdown(1)).is_ok());
    assert_eq!(
        spawner.spawn(&mut executor, countdown(1)),
        Err(ExecError::QueueFull)
    );
    assert_eq!(
        executor.wake_by_ref(WakeHandle::for_task(0)),
        Err(ExecError::QueueFull)
    );
    executor.drop_spawner(spawner);
}

#[test]
fn elapse_fails_when_queue_full() {
    let (mut executor, spawner) = new_executor_and_spawner_with_capacity(1);
    let id = spawner
        .spawn(&mut executor, Computation::Timer(TimerFuture::new(0, 20)))
        .unwrap();
    executor.drop_spawner(spawner);
    // the timer suspends and registers its wake capability
    assert!(matches!(executor.step_once(0), StepEvent::Suspended { .. }));
    // an extra wake fills the queue to capacity
    assert_eq!(executor.wake_by_ref(WakeHandle::for_task(id)), Ok(()));
    // the elapse event must re-submit, but there is no room
    assert_eq!(executor.elapse_timer(id, 20), Err(ExecError::QueueFull));
    // after the queue drains, delivering the event again succeeds
    assert!(matches!(executor.step_once(20), StepEvent::Completed { .. }));
    assert_eq!(executor.elapse_timer(id, 20), Ok(false));
    assert_eq!(executor.run(20), RunOutcome::Terminated);
    assert_eq!(executor.completed, vec![id]);
}

#[test]
fn cloned_spawner_keeps_executor_open() {
    let (mut executor, spawner) = new_executor_and_spawner_with_capacity(4);
    let second = executor.clone_spawner(&spawner);
    executor.drop_spawner(spawner);
    assert_eq!(executor.run(0), RunOutcome::WouldBlock);
    executor.drop_spawner(second);
    assert_eq!(executor.run(0), RunOutcome::Terminated);
}

#[test]
fn step_once_reports_each_event() {
    let (mut executor, spawner) = new_executor_and_spawner_with_capacity(4);
    assert_eq!(executor.step_once(0), StepEvent::QueueEmpty);
    let id = spawner.spawn(&mut executor, countdown(1)).unwrap();
    executor.drop_spawner(spawner);
    assert_eq!(
        executor.step_once(0),
        StepEvent::Suspended {
            id,
            action: StepAction::SelfWake
        }
    );
    assert_eq!(executor.step_once(0), StepEvent::Completed { id });
    assert_eq!(executor.completed, vec![id]);
}

#[test]
fn suspending_timer_requests_one_helper() {
    let (mut executor, spawner) = new_executor_and_spawner_with_capacity(4);
    let id = spawner
        .spawn(&mut executor, Computation::Timer(TimerFuture::new(0, 30)))
        .unwrap();
    executor.drop_spawner(spawner);
    assert_eq!(
        executor.step_once(0),
        StepEvent::Suspended {
            id,
            action: StepAction::SpawnHelper { deadline: 30 }
        }
    );
    // a further wake before the deadline re-registers, but asks for no
    // second helper
    assert_eq!(executor.wake_by_ref(WakeHandle::for_task(id)), Ok(()));
    assert_eq!(
        executor.step_once(10),
        StepEvent::Suspended {
            id,
            action: StepAction::NoAction
        }
    );
    assert_eq!(executor.elapse_timer(id, 30), Ok(true));
    assert_eq!(executor.step_once(30), StepEvent::Completed { id });
}

#[test]
fn stale_elapse_is_noop() {
    let (mut executor, spawner) = new_executor_and_spawner_with_capacity(4);
    let id = spawner.spawn(&mut executor, countdown(0)).unwrap();
    executor.drop_spawner(spawner);
    // not a timer: the elapse event changes nothing and wakes nobody
    assert_eq!(executor.elapse_timer(id, 5), Ok(false));
    assert_eq!(executor.queue.len(), 1);
    assert_eq!(executor.run(5), RunOutcome::Terminated);
    // after completion the slot is empty: a late elapse is again a no-op
    assert_eq!(executor.elapse_timer(id, 9), Ok(false));
    assert_eq!(executor.completed, vec![id]);
}
