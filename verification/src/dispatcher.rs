//! The dispatcher: the executable scheduler, each of whose operations performs
//! one transition of the state machine.

use crate::clock::{MonotonicClock, Tick};
use crate::model::{
    front_runner, is_front_runner, lemma_acquired_inv, lemma_advanced_inv, lemma_armed_inv,
    lemma_completed_inv, lemma_dispatched_inv, lemma_front_runner_unique, lemma_initial_inv,
    lemma_released_inv, lemma_spawned_inv, serves, step, Event, Frame, State, TaskState,
};
use crate::resource::Led;
use crate::task::TaskId;
use crate::timer_queue::{is_due_order, is_soonest, not_due, SpawnError, TimerQueue};
use vstd::prelude::*;

verus! {

/// The scheduler: the clock, the timer queue, the pending tasks, the
/// preemption stack and the shared output, which it owns and hands to a task
/// only for the length of a critical section.
pub struct Dispatcher {
    clock: MonotonicClock,
    timers: TimerQueue,
    ready: Vec<TaskId>,
    stack: Vec<Frame>,
    led: Led,
}

impl View for Dispatcher {
    type V = State;

    closed spec fn view(&self) -> State {
        State {
            now: self.clock.now(),
            wakeup: self.clock.wakeup(),
            timers: self.timers@,
            ready: self.ready@,
            stack: self.stack@,
            led: self.led,
        }
    }
}

impl Dispatcher {
    /// Whether the scheduler is in a state that the system can reach.
    pub closed spec fn wf(&self) -> bool {
        self.timers.wf() && self@.inv()
    }

    /// A well-formed scheduler satisfies the invariant of the state machine.
    pub proof fn lemma_wf_inv(&self)
        requires
            self.wf(),
        ensures
            self@.inv(),
    {
    }

    /// The scheduler as it stands once the clock runs, at instant `start`:
    /// every task idle, nothing armed, the output low.
    pub fn new(start: Tick) -> (d: Dispatcher)
        ensures
            d.wf(),
            d@ == State::initial(start),
    {
        let d = Dispatcher {
            clock: MonotonicClock::starting_at(start),
            timers: TimerQueue::new(),
            ready: Vec::new(),
            stack: Vec::new(),
            led: Led::new(),
        };
        proof {
            lemma_initial_inv(start);
            assert(d@ =~= State::initial(start));
        }
        d
    }

    /// The current logical time.
    pub fn now(&self) -> (t: Tick)
        ensures
            t == self@.now,
    {
        self.clock.now()
    }

    /// The deadline for which a wakeup is armed.
    pub fn wakeup(&self) -> (w: Option<Tick>)
        ensures
            w == self@.wakeup,
    {
        self.clock.wakeup()
    }

    /// The shared output, to look at.
    pub fn led(&self) -> (led: Led)
        ensures
            led == self@.led,
    {
        self.led
    }

    /// The task that runs now.
    pub fn current(&self) -> (task: Option<TaskId>)
        ensures
            task == self@.current(),
    {
        let n = self.stack.len();
        if n > 0 {
            Some(self.stack[n - 1].task)
        } else {
            None
        }
    }

    /// The priority at which the processor runs.
    pub fn priority(&self) -> (p: u8)
        ensures
            p == self@.priority(),
    {
        let n = self.stack.len();
        if n > 0 {
            self.stack[n - 1].level()
        } else {
            0
        }
    }

    /// Whether the running activation is inside its critical section.
    pub fn in_critical(&self) -> (locked: bool)
        ensures
            locked == self@.in_critical(),
    {
        let n = self.stack.len();
        n > 0 && self.stack[n - 1].locked
    }

    /// Whether an activation of `task` is pending.
    pub fn is_pending(&self, task: TaskId) -> (pending: bool)
        ensures
            pending == self@.ready.contains(task),
    {
        let mut i: usize = 0;
        while i < self.ready.len()
            invariant
                i <= self.ready@.len(),
                forall|k: int| 0 <= k < i ==> self.ready@[k] != task,
            decreases self.ready@.len() - i,
        {
            if self.ready[i] == task {
                return true;
            }
            i = i + 1;
        }
        false
    }

    /// Whether an activation of `task` has started and not yet returned.
    pub fn is_running(&self, task: TaskId) -> (running: bool)
        ensures
            running == self@.is_running(task),
    {
        let mut i: usize = 0;
        while i < self.stack.len()
            invariant
                i <= self.stack@.len(),
                forall|k: int| 0 <= k < i ==> self.stack@[k].task != task,
            decreases self.stack@.len() - i,
        {
            if self.stack[i].task == task {
                return true;
            }
            i = i + 1;
        }
        false
    }

    /// Where `task` stands in its cycle.
    pub fn task_state(&self, task: TaskId) -> (state: TaskState)
        ensures
            state == self@.task_state(task),
    {
        if self.is_running(task) {
            TaskState::Running
        } else if self.is_pending(task) {
            TaskState::Pending
        } else {
            TaskState::Idle
        }
    }

    /// The instant at which the delayed activation of `task` falls due, if
    /// one is armed.
    pub fn due_of(&self, task: TaskId) -> (due: Option<Tick>)
        requires
            self.wf(),
        ensures
            due == if self@.timers.contains_key(task) {
                Some(self@.timers[task])
            } else {
                None
            },
    {
        self.timers.due_of(task)
    }

    /// Requests an immediate activation of `task`. A task of which an
    /// activation is still outstanding is left as it is, and the request
    /// fails with `Busy`.
    pub fn spawn(&mut self, task: TaskId) -> (result: Result<(), SpawnError>)
        requires
            old(self).wf(),
        ensures
            final(self).wf(),
            old(self)@.outstanding(task) ==> result == Err::<(), SpawnError>(SpawnError::Busy)
                && final(self)@ == old(self)@,
            !old(self)@.outstanding(task) ==> result == Ok::<(), SpawnError>(()) && final(self)@
                == old(self)@.spawned(task),
            step(old(self)@, Event::Spawn(task), final(self)@),
    {
        if self.is_pending(task) || self.timers.due_of(task).is_some() {
            return Err(SpawnError::Busy);
        }
        self.ready.push(task);
        proof {
            lemma_spawned_inv(old(self)@, task);
            assert(self@ =~= old(self)@.spawned(task));
        }
        Ok(())
    }

    /// Requests an activation of `task` after `delay` ticks from now. A task
    /// of which an activation is still outstanding is left as it is, and the
    /// request fails with `Busy`; nothing is overwritten.
    pub fn spawn_after(&mut self, task: TaskId, delay: u64) -> (result: Result<(), SpawnError>)
        requires
            old(self).wf(),
        ensures
            final(self).wf(),
            old(self)@.outstanding(task) ==> result == Err::<(), SpawnError>(SpawnError::Busy)
                && final(self)@ == old(self)@,
            !old(self)@.outstanding(task) ==> result == Ok::<(), SpawnError>(()) && final(self)@
                == old(self)@.armed(task, delay),
            step(old(self)@, Event::SpawnAfter(task, delay), final(self)@),
    {
        if self.is_pending(task) {
            return Err(SpawnError::Busy);
        }
        let now = self.clock.now();
        let due = now.after(delay);
        if due.reached_by(now) {
            // Nothing to wait for: the task is pending at once, if its slot is free.
            if self.timers.due_of(task).is_some() {
                return Err(SpawnError::Busy);
            }
            self.ready.push(task);
        } else {
            match self.timers.enqueue(&self.clock, task, delay) {
                Ok(()) => {
                    self.clock.schedule_wakeup(due);
                },
                Err(e) => {
                    return Err(e);
                },
            }
        }
        proof {
            lemma_armed_inv(old(self)@, task, delay);
            assert(self@ =~= old(self)@.armed(task, delay));
        }
        Ok(())
    }

    /// Takes a reading of the clock and serves the timer queue: every delayed
    /// activation that is due at the new time becomes pending, in the order
    /// in which the queue serves them, and the wakeup is armed for the
    /// nearest deadline that is left. Returns the tasks that became pending.
    pub fn advance(&mut self, reading: Tick) -> (fired: Vec<TaskId>)
        requires
            old(self).wf(),
        ensures
            final(self).wf(),
            is_due_order(old(self)@.timers, old(self)@.time_after(reading), fired@),
            is_soonest(final(self)@.timers, final(self)@.now, final(self)@.wakeup),
            final(self)@ == old(self)@.advanced(reading, fired@, final(self)@.wakeup),
            old(self)@.now.reached_by(final(self)@.now),
            step(old(self)@, Event::Advance(reading), final(self)@),
    {
        self.clock.advance_to(reading);
        let now = self.clock.now();
        let fired = self.timers.pop_due(now);
        let mut i: usize = 0;
        while i < fired.len()
            invariant
                i <= fired@.len(),
                self.ready@ == old(self).ready@ + fired@.subrange(0, i as int),
                self.clock.now() == now,
                self.clock.wakeup() == old(self).clock.wakeup(),
                self.timers.wf(),
                self.timers@ == not_due(old(self).timers@, now),
                self.stack == old(self).stack,
                self.led == old(self).led,
            decreases fired@.len() - i,
        {
            self.ready.push(fired[i]);
            assert(fired@.subrange(0, i + 1) =~= fired@.subrange(0, i as int).push(
                fired@[i as int],
            ));
            i = i + 1;
        }
        self.clock.cancel_wakeup();
        match self.timers.next_due(now) {
            Some(d) => {
                self.clock.schedule_wakeup(d);
            },
            None => {},
        }
        proof {
            assert(fired@.subrange(0, fired@.len() as int) =~= fired@);
            lemma_advanced_inv(old(self)@, reading, fired@, self@.wakeup);
            assert(self@ =~= old(self)@.advanced(reading, fired@, self@.wakeup));
            assert(serves(old(self)@, reading, fired@, self@.wakeup, self@));
        }
        fired
    }

    /// One dispatch step: starts the pending task of the highest priority,
    /// the one that has waited longest among equals, if its priority exceeds
    /// the one at which the processor runs; the activation that ran until
    /// then is preempted. Returns the task that started.
    pub fn dispatch(&mut self) -> (started: Option<TaskId>)
        requires
            old(self).wf(),
        ensures
            final(self).wf(),
            started == old(self)@.next_task(),
            final(self)@ == old(self)@.dispatched(),
            step(old(self)@, Event::Dispatch, final(self)@),
    {
        let n = self.ready.len();
        if n == 0 {
            return None;
        }
        let mut best: usize = 0;
        let mut i: usize = 1;
        while i < n
            invariant
                n == self.ready@.len(),
                1 <= i <= n,
                best < i,
                forall|q: int|
                    0 <= q < i ==> (#[trigger] self.ready@[q]).priority()
                        < self.ready@[best as int].priority() || (self.ready@[q].priority()
                        == self.ready@[best as int].priority() && best <= q),
            decreases n - i,
        {
            if self.ready[i].priority() > self.ready[best].priority() {
                best = i;
            }
            i = i + 1;
        }
        proof {
            assert(is_front_runner(self.ready@, best as int));
            lemma_front_runner_unique(self.ready@, best as int, front_runner(self.ready@));
            lemma_dispatched_inv(self@);
        }
        let task = self.ready[best];
        if task.priority() > self.priority() {
            self.ready.remove(best);
            self.stack.push(Frame { task, locked: false });
            assert(self@ =~= old(self)@.dispatched());
            Some(task)
        } else {
            None
        }
    }

    /// The running activation enters its critical section on the shared
    /// output: the processor's priority rises to the ceiling. This always
    /// succeeds; the ceiling keeps every other locker from running meanwhile.
    pub fn acquire(&mut self)
        requires
            old(self).wf(),
            old(self)@.stack.len() > 0,
            old(self)@.stack.last().task.uses_led(),
            !old(self)@.in_critical(),
        ensures
            final(self).wf(),
            final(self)@ == old(self)@.with_lock(true),
            step(old(self)@, Event::Acquire, final(self)@),
    {
        let n = self.stack.len();
        let task = self.stack[n - 1].task;
        self.stack[n - 1] = Frame { task, locked: true };
        proof {
            lemma_acquired_inv(old(self)@);
            assert(self@ =~= old(self)@.with_lock(true));
        }
    }

    /// Hands the shared output to `critical_section`, which runs while the
    /// running activation is inside its critical section, and stores what it
    /// returns.
    pub fn access<F: FnOnce(Led) -> Led>(&mut self, critical_section: F)
        requires
            old(self).wf(),
            old(self)@.in_critical(),
            critical_section.requires((old(self)@.led,)),
        ensures
            final(self).wf(),
            critical_section.ensures((old(self)@.led,), final(self)@.led),
            final(self)@ == old(self)@.with_led(final(self)@.led),
            step(old(self)@, Event::Access(final(self)@.led), final(self)@),
    {
        let led = critical_section(self.led);
        self.led = led;
        proof {
            assert(self@ =~= old(self)@.with_led(led));
        }
    }

    /// The running activation leaves its critical section: the processor's
    /// priority falls back to the task's own.
    pub fn release(&mut self)
        requires
            old(self).wf(),
            old(self)@.in_critical(),
        ensures
            final(self).wf(),
            final(self)@ == old(self)@.with_lock(false),
            step(old(self)@, Event::Release, final(self)@),
    {
        let n = self.stack.len();
        let task = self.stack[n - 1].task;
        self.stack[n - 1] = Frame { task, locked: false };
        proof {
            lemma_released_inv(old(self)@);
            assert(self@ =~= old(self)@.with_lock(false));
        }
    }

    /// Runs `critical_section` on the shared output under the lock: the
    /// running activation enters its critical section, the closure gets the
    /// output and returns its new value, and the activation leaves the
    /// critical section again.
    pub fn lock<F: FnOnce(Led) -> Led>(&mut self, critical_section: F)
        requires
            old(self).wf(),
            old(self)@.stack.len() > 0,
            old(self)@.stack.last().task.uses_led(),
            !old(self)@.in_critical(),
            critical_section.requires((old(self)@.led,)),
        ensures
            final(self).wf(),
            critical_section.ensures((old(self)@.led,), final(self)@.led),
            final(self)@ == old(self)@.with_led(final(self)@.led),
    {
        self.acquire();
        self.access(critical_section);
        self.release();
        proof {
            assert(self@.stack =~= old(self)@.stack);
            assert(self@ =~= old(self)@.with_led(self@.led));
        }
    }

    /// The running activation returns: its task is idle again, or pending
    /// where it has been activated anew meanwhile, and the activation that it
    /// had preempted resumes. Returns the task that has returned.
    pub fn complete(&mut self) -> (task: TaskId)
        requires
            old(self).wf(),
            old(self)@.stack.len() > 0,
            !old(self)@.in_critical(),
        ensures
            final(self).wf(),
            Some(task) == old(self)@.current(),
            final(self)@ == old(self)@.completed(),
            step(old(self)@, Event::Complete, final(self)@),
    {
        let n = self.stack.len();
        let frame = self.stack[n - 1];
        self.stack.pop();
        proof {
            lemma_completed_inv(old(self)@);
            assert(self@ =~= old(self)@.completed());
        }
        frame.task
    }
}

} // verus!
