//! The abstract suspendable-computation interface, and small combinators
//! built on it.
//!
//! A suspendable computation advances through a step function: each step
//! either yields the final value or reports that the computation is not done
//! yet, having arranged for the given wake capability to be invoked when it
//! can make progress. A computation must never be stepped again after it
//! reported done; every implementation here tracks enough state to resume
//! where it left off.

use vstd::prelude::*;

use crate::step::StepResult;
use crate::wake::WakeHandle;

verus! {

/// The abstract unit of suspendable work.
pub trait SuspendableComputation: Sized {
    type Output;

    /// Internal consistency the computation maintains across steps.
    spec fn wf(&self) -> bool;

    /// Whether the computation has reported done.
    spec fn completed(&self) -> bool;

    /// Advance by one step. Yields `Done` exactly when the computation has
    /// now completed; on `NotDone` the computation has retained its state
    /// and arranged for `wake` to be invoked later. Stepping again after
    /// `Done` is a caller error and is excluded.
    fn step(&mut self, wake: WakeHandle) -> (r: StepResult<Self::Output>)
        requires
            old(self).wf(),
            !old(self).completed(),
        ensures
            final(self).wf(),
            (r is Done) == final(self).completed(),
    ;
}

/// The peer a [`SocketRead`] waits on, modeled as plain data: at most one
/// burst of incoming bytes, whether that burst was read, and the callback
/// registered to fire when data arrives.
pub struct Socket {
    /// Data that has arrived and was not read yet.
    pub incoming: Option<Vec<u8>>,
    /// Whether the burst of data was read.
    pub consumed: bool,
    /// The callback to invoke when data arrives.
    pub readable_callback: Option<WakeHandle>,
}

impl Socket {
    /// A socket with no data yet.
    pub fn new() -> (s: Socket)
        ensures
            s.incoming is None,
            !s.consumed,
            s.readable_callback is None,
    {
        Socket { incoming: None, consumed: false, readable_callback: None }
    }

    /// A socket whose data has already arrived.
    pub fn with_data(data: Vec<u8>) -> (s: Socket)
        ensures
            s.incoming == Some(data),
            !s.consumed,
            s.readable_callback is None,
    {
        Socket { incoming: Some(data), consumed: false, readable_callback: None }
    }

    /// Whether a read would return data right now.
    pub fn has_data_to_read(&self) -> (b: bool)
        ensures
            b == (self.incoming is Some),
    {
        self.incoming.is_some()
    }

    /// Take the data that has arrived.
    pub fn read_buf(&mut self) -> (data: Vec<u8>)
        requires
            old(self).incoming is Some,
        ensures
            old(self).incoming == Some(data),
            final(self).incoming is None,
            final(self).consumed,
            final(self).readable_callback == old(self).readable_callback,
    {
        self.consumed = true;
        let data = self.incoming.take();
        data.unwrap()
    }

    /// Register the callback to invoke when data arrives, replacing any
    /// earlier one.
    pub fn set_readable_callback(&mut self, wake: WakeHandle)
        ensures
            final(self).incoming == old(self).incoming,
            final(self).consumed == old(self).consumed,
            final(self).readable_callback == Some(wake),
    {
        self.readable_callback = Some(wake);
    }

    /// The external event: `data` arrives on the socket. Hands back the
    /// registered callback, which the caller invokes if present.
    pub fn deliver_data(&mut self, data: Vec<u8>) -> (w: Option<WakeHandle>)
        ensures
            final(self).incoming == Some(data),
            final(self).consumed == old(self).consumed,
            final(self).readable_callback is None,
            w == old(self).readable_callback,
    {
        self.incoming = Some(data);
        self.readable_callback.take()
    }
}

/// A computation that reads one burst of data from a socket: done as soon
/// as data is available, otherwise it registers the wake capability as the
/// socket's readable-callback and suspends.
pub struct SocketRead {
    pub socket: Socket,
}

impl SuspendableComputation for SocketRead {
    type Output = Vec<u8>;

    open spec fn wf(&self) -> bool {
        true
    }

    open spec fn completed(&self) -> bool {
        self.socket.consumed
    }

    fn step(&mut self, wake: WakeHandle) -> (r: StepResult<Vec<u8>>)
        ensures
            (r is Done) == (old(self).socket.incoming is Some),
            r matches StepResult::Done(data) ==> old(self).socket.incoming == Some(data),
            r is NotDone ==> final(self).socket.incoming is None
                && final(self).socket.readable_callback == Some(wake),
    {
        if self.socket.has_data_to_read() {
            StepResult::Done(self.socket.read_buf())
        } else {
            self.socket.set_readable_callback(wake);
            StepResult::NotDone
        }
    }
}

/// A leaf computation that suspends a given number of times and then
/// completes. It needs no external event: it can be stepped again at once,
/// so it asks nothing of the wake capability it is handed.
pub struct FiniteSteps {
    /// Not-done steps left before the computation completes.
    pub remaining: u64,
    /// Whether the computation has reported done.
    pub done: bool,
}

impl FiniteSteps {
    /// A computation that completes after `remaining` not-done steps.
    pub fn new(remaining: u64) -> (c: FiniteSteps)
        ensures
            c.remaining == remaining,
            !c.done,
    {
        FiniteSteps { remaining, done: false }
    }
}

impl SuspendableComputation for FiniteSteps {
    type Output = ();

    open spec fn wf(&self) -> bool {
        true
    }

    open spec fn completed(&self) -> bool {
        self.done
    }

    fn step(&mut self, _wake: WakeHandle) -> (r: StepResult<()>)
        ensures
            (r is Done) == (old(self).remaining == 0),
            r is NotDone ==> final(self).remaining == old(self).remaining - 1,
    {
        if self.remaining == 0 {
            self.done = true;
            StepResult::Done(())
        } else {
            self.remaining = self.remaining - 1;
            StepResult::NotDone
        }
    }
}

/// Runs two computations concurrently; done once both are done. A child
/// that completes is dropped from its slot, so it is never stepped again.
pub struct Join<FutureA, FutureB> {
    pub a: Option<FutureA>,
    pub b: Option<FutureB>,
}

impl<FutureA, FutureB> Join<FutureA, FutureB> where
    FutureA: SuspendableComputation<Output = ()>,
    FutureB: SuspendableComputation<Output = ()>,
 {
    /// Join two not-yet-completed computations.
    pub fn new(a: FutureA, b: FutureB) -> (j: Join<FutureA, FutureB>)
        requires
            a.wf(),
            !a.completed(),
            b.wf(),
            !b.completed(),
        ensures
            j.wf(),
            !j.completed(),
            j.a == Some(a),
            j.b == Some(b),
    {
        Join { a: Some(a), b: Some(b) }
    }
}

impl<FutureA, FutureB> SuspendableComputation for Join<FutureA, FutureB> where
    FutureA: SuspendableComputation<Output = ()>,
    FutureB: SuspendableComputation<Output = ()>,
 {
    type Output = ();

    open spec fn wf(&self) -> bool {
        &&& (self.a matches Some(a) ==> a.wf() && !a.completed())
        &&& (self.b matches Some(b) ==> b.wf() && !b.completed())
    }

    open spec fn completed(&self) -> bool {
        self.a is None && self.b is None
    }

    fn step(&mut self, wake: WakeHandle) -> (r: StepResult<()>)
        ensures
            old(self).a is None ==> final(self).a is None,
            old(self).b is None ==> final(self).b is None,
    {
        let a_opt = self.a.take();
        match a_opt {
            Some(mut a) => {
                match a.step(wake) {
                    StepResult::Done(_) => {},
                    StepResult::NotDone => {
                        self.a = Some(a);
                    },
                }
            },
            None => {},
        }
        let b_opt = self.b.take();
        match b_opt {
            Some(mut b) => {
                match b.step(wake) {
                    StepResult::Done(_) => {},
                    StepResult::NotDone => {
                        self.b = Some(b);
                    },
                }
            },
            None => {},
        }
        if self.a.is_none() && self.b.is_none() {
            StepResult::Done(())
        } else {
            StepResult::NotDone
        }
    }
}

/// Runs one computation to completion, then a second: done once the second
/// is done. The first is dropped from its slot when it completes.
pub struct AndThenFut<FutureA, FutureB> {
    pub first: Option<FutureA>,
    pub second: FutureB,
}

impl<FutureA, FutureB> AndThenFut<FutureA, FutureB> where
    FutureA: SuspendableComputation<Output = ()>,
    FutureB: SuspendableComputation<Output = ()>,
 {
    /// Sequence two not-yet-completed computations.
    pub fn new(first: FutureA, second: FutureB) -> (f: AndThenFut<FutureA, FutureB>)
        requires
            first.wf(),
            !first.completed(),
            second.wf(),
            !second.completed(),
        ensures
            f.wf(),
            !f.completed(),
            f.first == Some(first),
            f.second == second,
    {
        AndThenFut { first: Some(first), second }
    }
}

impl<FutureA, FutureB> SuspendableComputation for AndThenFut<FutureA, FutureB> where
    FutureA: SuspendableComputation<Output = ()>,
    FutureB: SuspendableComputation<Output = ()>,
 {
    type Output = ();

    open spec fn wf(&self) -> bool {
        &&& (self.first matches Some(f) ==> f.wf() && !f.completed())
        &&& self.second.wf()
        &&& (self.first is Some ==> !self.second.completed())
    }

    open spec fn completed(&self) -> bool {
        self.first is None && self.second.completed()
    }

    fn step(&mut self, wake: WakeHandle) -> (r: StepResult<()>)
        ensures
            old(self).first is None ==> final(self).first is None,
    {
        let first_opt = self.first.take();
        match first_opt {
            Some(mut f) => {
                match f.step(wake) {
                    StepResult::Done(_) => {},
                    StepResult::NotDone => {
                        self.first = Some(f);
                        return StepResult::NotDone;
                    },
                }
            },
            None => {},
        }
        self.second.step(wake)
    }
}

} // verus!
