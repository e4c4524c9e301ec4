//! The tasks of the system: a closed set of identities with their static
//! priorities, their periods and the resources they may lock.

use crate::clock::{millis, secs};
use vstd::prelude::*;

verus! {

/// The number of tasks.
pub const TASK_COUNT: usize = 2;

/// The identity of a task.
#[derive(Clone, Copy, PartialEq, Eq, Debug, Structural)]
pub enum TaskId {
    /// Toggles the output once a second.
    Blink,
    /// Toggles the output every 300 milliseconds.
    Blink2,
}

impl TaskId {
    /// The position of the task in the task table.
    pub open spec fn spec_index(self) -> usize {
        match self {
            TaskId::Blink => 0,
            TaskId::Blink2 => 1,
        }
    }

    /// The task at position `i` of the task table.
    pub open spec fn spec_from_index(i: usize) -> Option<TaskId> {
        if i == 0 {
            Some(TaskId::Blink)
        } else if i == 1 {
            Some(TaskId::Blink2)
        } else {
            None
        }
    }

    /// The static priority of the task: the larger number preempts the smaller.
    pub open spec fn spec_priority(self) -> u8 {
        match self {
            TaskId::Blink => 1,
            TaskId::Blink2 => 2,
        }
    }

    /// Whether the task may lock the shared output.
    pub open spec fn spec_uses_led(self) -> bool {
        true
    }

    /// The delay, in ticks, after which an activation of the task re-arms itself.
    pub open spec fn spec_period(self) -> u64 {
        match self {
            TaskId::Blink => 1000,
            TaskId::Blink2 => 300,
        }
    }

    /// The position of the task in the task table.
    #[verifier::when_used_as_spec(spec_index)]
    pub fn index(self) -> (i: usize)
        ensures
            i == self.spec_index(),
            i < TASK_COUNT,
    {
        match self {
            TaskId::Blink => 0,
            TaskId::Blink2 => 1,
        }
    }

    /// The task at position `i` of the task table, if there is one.
    pub fn from_index(i: usize) -> (task: Option<TaskId>)
        ensures
            task == TaskId::spec_from_index(i),
            i < TASK_COUNT <==> task.is_some(),
            task matches Some(t) ==> t.index() == i,
    {
        if i == 0 {
            Some(TaskId::Blink)
        } else if i == 1 {
            Some(TaskId::Blink2)
        } else {
            None
        }
    }

    /// The static priority of the task.
    #[verifier::when_used_as_spec(spec_priority)]
    pub fn priority(self) -> (p: u8)
        ensures
            p == self.spec_priority(),
            p >= 1,
    {
        match self {
            TaskId::Blink => 1,
            TaskId::Blink2 => 2,
        }
    }

    /// Whether the task may lock the shared output.
    #[verifier::when_used_as_spec(spec_uses_led)]
    pub fn uses_led(self) -> (uses: bool)
        ensures
            uses == self.spec_uses_led(),
    {
        true
    }

    /// The delay, in ticks, after which an activation of the task re-arms
    /// itself: one second for `Blink`, 300 milliseconds for `Blink2`.
    #[verifier::when_used_as_spec(spec_period)]
    pub fn period(self) -> (ticks: u64)
        ensures
            ticks == self.spec_period(),
    {
        match self {
            TaskId::Blink => secs(1),
            TaskId::Blink2 => millis(300),
        }
    }
}

} // verus!
