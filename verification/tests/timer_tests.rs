use coop_executor::step::StepAction;
use coop_executor::step::StepResult;
use coop_executor::timer::TimerFuture;
use coop_executor::wake::WakeHandle;

#[test]
fn not_done_before_deadline_done_after() {
    // duration 50 starting at 100: every step strictly before 150 is
    // NotDone, every step at or after 150 is Done
    let mut timer = TimerFuture::new(100, 50);
    assert_eq!(timer.deadline, 150);
    let wake = WakeHandle::for_task(0);

    for now in [100, 120, 149] {
        let (result, _action) = timer.step(now, wake);
        assert!(matches!(result, StepResult::NotDone));
    }
    let (result, _action) = timer.step(150, wake);
    assert!(matches!(result, StepResult::Done(_)));
    let (result, _action) = timer.step(200, wake);
    assert!(matches!(result, StepResult::Done(_)));
}

#[test]
fn at_most_one_helper_is_requested() {
    let mut timer = TimerFuture::new(0, 50);
    let wake = WakeHandle::for_task(3);
    let (_, first) = timer.step(0, wake);
    assert_eq!(first, StepAction::SpawnHelper { deadline: 50 });
    // however many further not-done steps occur, no second helper
    for now in [10, 20, 40, 49] {
        let (_, action) = timer.step(now, wake);
        assert_eq!(action, StepAction::NoAction);
    }
}

#[test]
fn zero_duration_completes_without_helper() {
    let mut timer = TimerFuture::new(7, 0);
    let (result, action) = timer.step(7, WakeHandle::for_task(0));
    assert!(matches!(result, StepResult::Done(_)));
    assert_eq!(action, StepAction::NoAction);
    assert!(!timer.helper_spawned);
}

#[test]
fn each_step_registers_latest_wake() {
    let mut timer = TimerFuture::new(0, 100);
    let first = WakeHandle::for_task(1);
    let second = WakeHandle::for_task(2);
    timer.step(0, first);
    assert_eq!(timer.state.pending_wake, Some(first));
    // a later step replaces the stored capability with the newest clone
    timer.step(1, second);
    assert_eq!(timer.state.pending_wake, Some(second));
}

#[test]
fn elapse_hands_out_the_wake_exactly_once() {
    let mut timer = TimerFuture::new(0, 20);
    let wake = WakeHandle::for_task(4);
    timer.step(0, wake);
    assert_eq!(timer.elapse(), Some(wake));
    assert!(timer.state.elapsed);
    // the capability was consumed: a second elapse finds none
    assert_eq!(timer.elapse(), None);
    // and once elapsed, a step is Done
    let (result, _action) = timer.step(20, wake);
    assert!(matches!(result, StepResult::Done(_)));
}

#[test]
fn elapse_before_any_step_has_no_wake() {
    let mut timer = TimerFuture::new(0, 5);
    assert_eq!(timer.elapse(), None);
    assert!(timer.state.elapsed);
}
