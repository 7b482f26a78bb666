use coop_executor::computation::AndThenFut;
use coop_executor::computation::FiniteSteps;
use coop_executor::computation::Join;
use coop_executor::computation::Socket;
use coop_executor::computation::SocketRead;
use coop_executor::computation::SuspendableComputation;
use coop_executor::step::StepResult;
use coop_executor::wake::WakeHandle;

#[test]
fn socket_read_returns_available_data() {
    let mut read = SocketRead {
        socket: Socket::with_data(vec![1, 2, 3]),
    };
    match read.step(WakeHandle::for_task(0)) {
        StepResult::Done(data) => assert_eq!(data, vec![1, 2, 3]),
        StepResult::NotDone => panic!("data was available"),
    }
}

#[test]
fn socket_read_registers_callback_and_resumes() {
    let wake = WakeHandle::for_task(5);
    let mut read = SocketRead {
        socket: Socket::new(),
    };
    assert!(matches!(read.step(wake), StepResult::NotDone));
    assert_eq!(read.socket.readable_callback, Some(wake));

    // the external event: data arrives and hands back the callback to invoke
    let woken = read.socket.deliver_data(vec![9, 9]);
    assert_eq!(woken, Some(wake));
    match read.step(wake) {
        StepResult::Done(data) => assert_eq!(data, vec![9, 9]),
        StepResult::NotDone => panic!("data had arrived"),
    }
}

#[test]
fn finite_steps_counts_down() {
    let wake = WakeHandle::for_task(0);
    let mut c = FiniteSteps::new(2);
    assert!(matches!(c.step(wake), StepResult::NotDone));
    assert!(matches!(c.step(wake), StepResult::NotDone));
    assert!(matches!(c.step(wake), StepResult::Done(())));
    assert!(c.done);
}

#[test]
fn join_completes_when_both_complete() {
    let wake = WakeHandle::for_task(0);
    let mut join = Join::new(FiniteSteps::new(0), FiniteSteps::new(2));
    // the ready child completes and is dropped; the other suspends
    assert!(matches!(join.step(wake), StepResult::NotDone));
    assert!(join.a.is_none());
    assert!(join.b.is_some());

    assert!(matches!(join.step(wake), StepResult::NotDone));
    assert!(matches!(join.step(wake), StepResult::Done(())));
    assert!(join.b.is_none());
}

#[test]
fn join_of_two_ready_children_is_done_in_one_step() {
    let wake = WakeHandle::for_task(0);
    let mut join = Join::new(FiniteSteps::new(0), FiniteSteps::new(0));
    assert!(matches!(join.step(wake), StepResult::Done(())));
}

#[test]
fn and_then_runs_first_before_second() {
    let wake = WakeHandle::for_task(0);
    let mut seq = AndThenFut::new(FiniteSteps::new(1), FiniteSteps::new(0));
    // while the first suspends, the second is not stepped
    assert!(matches!(seq.step(wake), StepResult::NotDone));
    assert!(seq.first.is_some());
    assert_eq!(seq.second.remaining, 0);
    assert!(!seq.second.done);

    // the first completes, and the ready second completes in the same step
    assert!(matches!(seq.step(wake), StepResult::Done(())));
    assert!(seq.first.is_none());
    assert!(seq.second.done);
}

#[test]
fn and_then_waits_for_second() {
    let wake = WakeHandle::for_task(0);
    let mut seq = AndThenFut::new(FiniteSteps::new(0), FiniteSteps::new(1));
    assert!(matches!(seq.step(wake), StepResult::NotDone));
    assert!(seq.first.is_none());
    assert!(matches!(seq.step(wake), StepResult::Done(())));
}
