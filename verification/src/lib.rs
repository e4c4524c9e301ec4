//! A priority-preemptive, run-to-completion task scheduler for a small
//! reactive controller: two periodic tasks share one digital output under a
//! priority-ceiling lock, and a wrapping millisecond clock drives their
//! delayed re-activation.
//!
//! The parts, leaves first:
//!
//! - [`clock`]: tick values that wrap, their wraparound-safe ordering, and
//!   the clock state with its armed wakeup.
//! - [`task`]: the closed set of tasks with priorities and periods.
//! - [`resource`]: the shared output and its priority ceiling.
//! - [`timer_queue`]: the delayed activations that are outstanding.
//! - [`model`]: the scheduler as a state machine, its invariant, and what
//!   follows from it: mutual exclusion on the shared output, strict
//!   preemption, and when a delayed activation starts.
//! - [`dispatcher`]: the executable scheduler; each operation performs one
//!   transition of the state machine.
//! - [`tasks`]: the bodies of the tasks and the start of the system.
//!
//! The scheduler does no input or output. Its caller reads the hardware
//! clock, hands the reading to [`dispatcher::Dispatcher::advance`], and
//! carries the level of the output over to the pin.
//!
//! Decisions that the design leaves to the implementation:
//!
//! - Capacity. Each task has room for one outstanding activation, armed or
//!   pending. A further request is turned down with
//!   [`timer_queue::SpawnError::Busy`] and changes nothing; what to do then
//!   (drop the request, halt) is up to the caller.
//! - Order. Delayed activations are served in the order of their deadlines;
//!   of two that fall due at the same tick the task of higher priority comes
//!   first, then the one declared first. Pending tasks of equal priority
//!   start in the order in which they became pending.
//! - Period. A task re-arms itself relative to the time at which it runs, not
//!   to the deadline it was started for, so that lateness accumulates.
//! - A deadline that is already reached when it is asked for makes the task
//!   pending at once.
//! - Nothing can be cancelled.
//! - Locking twice within one activation is ruled out by the precondition of
//!   the lock.

pub mod clock;
pub mod dispatcher;
pub mod model;
pub mod resource;
pub mod task;
pub mod tasks;
pub mod timer_queue;
