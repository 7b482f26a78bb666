//! A minimal cooperative task executor, modeled and verified.
//!
//! The crate centers on a single-threaded scheduler that runs suspendable
//! computations to completion, driven by explicit wake events instead of
//! polling in a tight loop:
//!
//! * [`step`] — the step outcome and the actions a step may request.
//! * [`wake`] — the wake capability that re-submits a task to the scheduler.
//! * [`timer`] — a computation that becomes ready once a deadline passes,
//!   delegating the wait to a helper that fires the wake capability.
//! * [`executor`] — the ready queue, task table, spawner handles and run loop.
//! * [`computation`] — the abstract suspendable-computation interface and
//!   small combinators built on it.
//! * [`http`] — the pure request/response decisions of the demo servers.
//! * [`pinned`] — a self-referential record kept behind an explicit
//!   initialization flag.

pub mod computation;
pub mod executor;
pub mod http;
pub mod pinned;
pub mod step;
pub mod timer;
pub mod wake;
