//! The scheduler as a state machine: its state, the transitions that events
//! cause, the invariant that every reachable state satisfies, and what
//! follows from it.

use crate::clock::{nearer_wakeup, Tick, HALF_RANGE};
use crate::resource::{lemma_led_ceiling, raised, Led, LED_CEILING};
use crate::task::TaskId;
use crate::timer_queue::{is_due_order, is_soonest, not_due};
use vstd::prelude::*;

verus! {

/// One activation on the preemption stack: a task that has started and not
/// yet returned, and whether it is inside its critical section on the shared
/// output.
#[derive(Clone, Copy, PartialEq, Eq, Debug, Structural)]
pub struct Frame {
    /// The task whose activation this is.
    pub task: TaskId,
    /// Whether the activation is inside its critical section.
    pub locked: bool,
}

impl Frame {
    /// The effective priority of the activation: the task's own priority,
    /// raised to the ceiling of the shared output while it holds the lock.
    pub open spec fn spec_level(self) -> u8 {
        if self.locked {
            raised(self.task.priority())
        } else {
            self.task.priority()
        }
    }

    /// The effective priority of the activation.
    #[verifier::when_used_as_spec(spec_level)]
    pub fn level(self) -> (p: u8)
        ensures
            p == self.spec_level(),
            p >= self.task.priority(),
    {
        if self.locked {
            raised(self.task.priority())
        } else {
            self.task.priority()
        }
    }
}

/// Where a task stands in its cycle.
#[derive(Clone, Copy, PartialEq, Eq, Debug, Structural)]
pub enum TaskState {
    /// No activation is waiting to run or running.
    Idle,
    /// An activation has been requested and waits for the processor.
    Pending,
    /// An activation has started and not yet returned; it may be preempted.
    Running,
}

/// The state of the scheduler.
#[verifier::ext_equal]
pub struct State {
    /// The latest reading of the clock.
    pub now: Tick,
    /// The deadline for which a wakeup is armed.
    pub wakeup: Option<Tick>,
    /// The delayed activations that are outstanding, by task, with the
    /// instant at which each falls due.
    pub timers: Map<TaskId, Tick>,
    /// The tasks with a pending activation, in the order in which they became
    /// pending.
    pub ready: Seq<TaskId>,
    /// The activations that have started, from the one that started first to
    /// the one that runs now; all but the last are preempted.
    pub stack: Seq<Frame>,
    /// The shared output.
    pub led: Led,
}

/// Whether position `p` of `ready` holds the task to start next: none in the
/// queue has a higher priority, and none of the same priority stands before it.
pub open spec fn is_front_runner(ready: Seq<TaskId>, p: int) -> bool {
    &&& 0 <= p < ready.len()
    &&& forall|q: int|
        0 <= q < ready.len() ==> (#[trigger] ready[q]).priority() < ready[p].priority() || (
        ready[q].priority() == ready[p].priority() && p <= q)
}

/// The position in `ready` of the task to start next.
pub open spec fn front_runner(ready: Seq<TaskId>) -> int {
    choose|p: int| is_front_runner(ready, p)
}

impl State {
    /// The state in which the system starts at instant `start`: every task
    /// idle, nothing armed, the output low.
    pub open spec fn initial(start: Tick) -> State {
        State {
            now: start,
            wakeup: None,
            timers: Map::empty(),
            ready: Seq::empty(),
            stack: Seq::empty(),
            led: Led { on: false },
        }
    }

    /// Whether an activation of `task` is outstanding: armed in the timer
    /// queue, or pending.
    pub open spec fn outstanding(self, task: TaskId) -> bool {
        self.timers.contains_key(task) || self.ready.contains(task)
    }

    /// Whether an activation of `task` has started and not yet returned.
    pub open spec fn is_running(self, task: TaskId) -> bool {
        exists|i: int| 0 <= i < self.stack.len() && (#[trigger] self.stack[i]).task == task
    }

    /// Where `task` stands in its cycle.
    pub open spec fn task_state(self, task: TaskId) -> TaskState {
        if self.is_running(task) {
            TaskState::Running
        } else if self.ready.contains(task) {
            TaskState::Pending
        } else {
            TaskState::Idle
        }
    }

    /// The task that runs now.
    pub open spec fn current(self) -> Option<TaskId> {
        if self.stack.len() > 0 {
            Some(self.stack.last().task)
        } else {
            None
        }
    }

    /// The priority at which the processor runs: that of the running
    /// activation, raised while it holds the lock, and zero when nothing runs.
    pub open spec fn priority(self) -> u8 {
        if self.stack.len() > 0 {
            self.stack.last().level()
        } else {
            0
        }
    }

    /// Whether the running activation is inside its critical section.
    pub open spec fn in_critical(self) -> bool {
        self.stack.len() > 0 && self.stack.last().locked
    }

    /// What holds in every state that the system can reach.
    pub open spec fn inv(self) -> bool {
        &&& self.ready.no_duplicates()
        &&& forall|t: TaskId| !(#[trigger] self.ready.contains(t) && self.timers.contains_key(t))
        &&& forall|i: int, j: int|
            0 <= i < j < self.stack.len() ==> (#[trigger] self.stack[i]).level() < (
            #[trigger] self.stack[j]).task.priority()
        &&& forall|i: int|
            0 <= i < self.stack.len() && (#[trigger] self.stack[i]).locked
                ==> self.stack[i].task.uses_led()
        &&& forall|t: TaskId| #[trigger]
            self.timers.contains_key(t) ==> !self.timers[t].reached_by(self.now)
        &&& forall|t: TaskId| #[trigger]
            self.timers.contains_key(t) ==> self.wakeup.is_some() && self.now.until(
                self.wakeup.unwrap(),
            ) <= self.now.until(self.timers[t])
    }

    /// The state after an immediate activation of `task` was accepted.
    pub open spec fn spawned(self, task: TaskId) -> State {
        State { ready: self.ready.push(task), ..self }
    }

    /// The state after a delayed activation of `task` was accepted: armed in
    /// the timer queue, with a wakeup no later than its deadline, or pending
    /// at once where the deadline is already reached.
    pub open spec fn armed(self, task: TaskId, delay: u64) -> State {
        let due = self.now.after(delay);
        if due.reached_by(self.now) {
            State { ready: self.ready.push(task), ..self }
        } else {
            State {
                timers: self.timers.insert(task, due),
                wakeup: Some(nearer_wakeup(self.now, self.wakeup, due)),
                ..self
            }
        }
    }

    /// The time after a reading of the clock: the reading, unless it lies
    /// before the current time.
    pub open spec fn time_after(self, reading: Tick) -> Tick {
        if self.now.reached_by(reading) {
            reading
        } else {
            self.now
        }
    }

    /// The state after the clock was read and the timer queue served: the
    /// tasks in `fired` have become pending in that order, and the wakeup is
    /// armed anew at `wakeup`.
    pub open spec fn advanced(
        self,
        reading: Tick,
        fired: Seq<TaskId>,
        wakeup: Option<Tick>,
    ) -> State {
        State {
            now: self.time_after(reading),
            wakeup,
            timers: not_due(self.timers, self.time_after(reading)),
            ready: self.ready + fired,
            ..self
        }
    }

    /// The task that a dispatch step starts: the front runner of the pending
    /// tasks, if its priority exceeds the one at which the processor runs.
    pub open spec fn next_task(self) -> Option<TaskId> {
        if self.ready.len() > 0 && self.ready[front_runner(self.ready)].priority()
            > self.priority() {
            Some(self.ready[front_runner(self.ready)])
        } else {
            None
        }
    }

    /// The state after a dispatch step.
    pub open spec fn dispatched(self) -> State {
        match self.next_task() {
            Some(task) => State {
                ready: self.ready.remove(front_runner(self.ready)),
                stack: self.stack.push(Frame { task, locked: false }),
                ..self
            },
            None => self,
        }
    }

    /// The state after the running activation has entered or left its
    /// critical section.
    pub open spec fn with_lock(self, locked: bool) -> State {
        State {
            stack: self.stack.update(
                self.stack.len() - 1,
                Frame { task: self.stack.last().task, locked },
            ),
            ..self
        }
    }

    /// The state after the shared output has taken the value `led`.
    pub open spec fn with_led(self, led: Led) -> State {
        State { led, ..self }
    }

    /// The state after the shared output has been toggled.
    pub open spec fn toggled(self) -> State {
        self.with_led(Led { on: !self.led.on })
    }

    /// The state after the running activation has returned.
    pub open spec fn completed(self) -> State {
        State { stack: self.stack.drop_last(), ..self }
    }

    /// The state after one whole activation of the task that a dispatch step
    /// starts: the task toggles the shared output inside its critical
    /// section, re-arms itself after its period, and returns. Where no task
    /// can start, nothing changes.
    pub open spec fn activated(self) -> State {
        match self.next_task() {
            Some(task) => {
                self.dispatched().toggled().armed(task, task.period()).completed()
            },
            None => self,
        }
    }
}

/// No two positions of a queue are front runners.
pub proof fn lemma_front_runner_unique(ready: Seq<TaskId>, p: int, q: int)
    requires
        is_front_runner(ready, p),
        is_front_runner(ready, q),
    ensures
        p == q,
{
    let a = ready[p];
    let b = ready[q];
}

/// A queue that is not empty has a front runner.
pub proof fn lemma_front_runner_exists(ready: Seq<TaskId>)
    requires
        ready.len() > 0,
    ensures
        is_front_runner(ready, front_runner(ready)),
    decreases ready.len(),
{
    let last = ready.len() - 1;
    if ready.len() == 1 {
        assert(is_front_runner(ready, 0));
    } else {
        let rest = ready.drop_last();
        lemma_front_runner_exists(rest);
        let p = front_runner(rest);
        if ready[last].priority() > rest[p].priority() {
            assert forall|q: int| 0 <= q < ready.len() implies (#[trigger] ready[q]).priority()
                < ready[last].priority() || (ready[q].priority() == ready[last].priority() && last
                <= q) by {
                if q < last {
                    assert(rest[q] == ready[q]);
                }
            }
            assert(is_front_runner(ready, last));
        } else {
            assert forall|q: int| 0 <= q < ready.len() implies (#[trigger] ready[q]).priority()
                < ready[p].priority() || (ready[q].priority() == ready[p].priority() && p <= q) by {
                if q < last {
                    assert(rest[q] == ready[q]);
                }
            }
            assert(is_front_runner(ready, p));
        }
    }
}

/// The initial state satisfies the invariant.
pub proof fn lemma_initial_inv(start: Tick)
    ensures
        State::initial(start).inv(),
{
}

/// An accepted immediate activation preserves the invariant.
pub proof fn lemma_spawned_inv(s: State, task: TaskId)
    requires
        s.inv(),
        !s.outstanding(task),
    ensures
        s.spawned(task).inv(),
{
    let r = s.spawned(task);
    assert forall|t: TaskId| #[trigger] r.ready.contains(t) implies t == task || s.ready.contains(
        t,
    ) by {
        let k = choose|k: int| 0 <= k < r.ready.len() && r.ready[k] == t;
        if k < s.ready.len() {
            assert(s.ready[k] == t);
        }
    }
    assert forall|i: int, j: int| 0 <= i < j < r.ready.len() implies r.ready[i] != r.ready[j] by {
        if j == s.ready.len() {
            assert(s.ready[i] == r.ready[i]);
        }
    }
}

/// An accepted delayed activation preserves the invariant.
pub proof fn lemma_armed_inv(s: State, task: TaskId, delay: u64)
    requires
        s.inv(),
        !s.outstanding(task),
    ensures
        s.armed(task, delay).inv(),
{
    let due = s.now.after(delay);
    if due.reached_by(s.now) {
        lemma_spawned_inv(s, task);
    }
}

/// Reading the clock and serving the timer queue preserves the invariant.
pub proof fn lemma_advanced_inv(s: State, reading: Tick, fired: Seq<TaskId>, wakeup: Option<Tick>)
    requires
        s.inv(),
        is_due_order(s.timers, s.time_after(reading), fired),
        is_soonest(not_due(s.timers, s.time_after(reading)), s.time_after(reading), wakeup),
    ensures
        s.advanced(reading, fired, wakeup).inv(),
        fired.no_duplicates(),
{
    let r = s.advanced(reading, fired, wakeup);
    let now = s.time_after(reading);
    assert forall|a: int, b: int| 0 <= a < b < fired.len() implies fired[a] != fired[b] by {
        assert(crate::timer_queue::served_before(
            now,
            s.timers[fired[a]],
            fired[a],
            s.timers[fired[b]],
            fired[b],
        ));
    }
    assert forall|i: int, j: int| 0 <= i < j < r.ready.len() implies r.ready[i] != r.ready[j] by {
        if j >= s.ready.len() {
            assert(fired.contains(fired[j - s.ready.len()]));
            if i < s.ready.len() {
                assert(s.ready.contains(s.ready[i]));
            }
        }
    }
    assert forall|t: TaskId| !(#[trigger] r.ready.contains(t) && r.timers.contains_key(t)) by {
        if r.ready.contains(t) {
            let k = choose|k: int| 0 <= k < r.ready.len() && r.ready[k] == t;
            if k < s.ready.len() {
                assert(s.ready.contains(s.ready[k]));
            } else {
                assert(fired.contains(fired[k - s.ready.len()]));
            }
        }
    }
}

/// A dispatch step preserves the invariant.
pub proof fn lemma_dispatched_inv(s: State)
    requires
        s.inv(),
    ensures
        s.dispatched().inv(),
{
    let r = s.dispatched();
    if s.next_task().is_some() {
        let p = front_runner(s.ready);
        lemma_front_runner_exists(s.ready);
        s.ready.remove_ensures(p);
        assert forall|t: TaskId| #[trigger] r.ready.contains(t) implies s.ready.contains(t) by {
            let k = choose|k: int| 0 <= k < r.ready.len() && r.ready[k] == t;
            if k < p {
                assert(s.ready[k] == t);
            } else {
                assert(s.ready[k + 1] == t);
            }
        }
        assert forall|i: int, j: int| 0 <= i < j < r.ready.len() implies r.ready[i]
            != r.ready[j] by {
            let a = if i < p {
                i
            } else {
                i + 1
            };
            let b = if j < p {
                j
            } else {
                j + 1
            };
            assert(r.ready[i] == s.ready[a]);
            assert(r.ready[j] == s.ready[b]);
        }
        assert forall|i: int, j: int| 0 <= i < j < r.stack.len() implies (
        #[trigger] r.stack[i]).level() < (#[trigger] r.stack[j]).task.priority() by {
            if j == s.stack.len() {
                if i < s.stack.len() - 1 {
                    assert(s.stack[i].level() < s.stack[s.stack.len() - 1].task.priority());
                }
            }
        }
    }
}

/// A task that has just started has no activation outstanding, so that it can
/// re-arm itself.
pub proof fn lemma_started_not_outstanding(s: State, task: TaskId)
    requires
        s.inv(),
        s.next_task() == Some(task),
    ensures
        !s.dispatched().outstanding(task),
        !s.dispatched().toggled().outstanding(task),
        s.dispatched().current() == Some(task),
        !s.dispatched().in_critical(),
{
    let r = s.dispatched();
    let p = front_runner(s.ready);
    lemma_front_runner_exists(s.ready);
    s.ready.remove_ensures(p);
    assert(s.ready.contains(s.ready[p]));
    if r.ready.contains(task) {
        let k = choose|k: int| 0 <= k < r.ready.len() && r.ready[k] == task;
        if k < p {
            assert(s.ready[k] == task);
        } else {
            assert(s.ready[k + 1] == task);
        }
    }
    assert(r.stack[r.stack.len() - 1].task == task);
}

/// Entering the critical section preserves the invariant.
pub proof fn lemma_acquired_inv(s: State)
    requires
        s.inv(),
        s.stack.len() > 0,
        s.stack.last().task.uses_led(),
    ensures
        s.with_lock(true).inv(),
{
    let r = s.with_lock(true);
    assert forall|i: int, j: int| 0 <= i < j < r.stack.len() implies (
    #[trigger] r.stack[i]).level() < (#[trigger] r.stack[j]).task.priority() by {
        assert(s.stack[i].level() < s.stack[j].task.priority());
    }
}

/// Leaving the critical section preserves the invariant.
pub proof fn lemma_released_inv(s: State)
    requires
        s.inv(),
        s.stack.len() > 0,
    ensures
        s.with_lock(false).inv(),
{
    let r = s.with_lock(false);
    assert forall|i: int, j: int| 0 <= i < j < r.stack.len() implies (
    #[trigger] r.stack[i]).level() < (#[trigger] r.stack[j]).task.priority() by {
        assert(s.stack[i].level() < s.stack[j].task.priority());
    }
}

/// The return of the running activation preserves the invariant.
pub proof fn lemma_completed_inv(s: State)
    requires
        s.inv(),
        s.stack.len() > 0,
    ensures
        s.completed().inv(),
{
    let r = s.completed();
    assert forall|i: int, j: int| 0 <= i < j < r.stack.len() implies (
    #[trigger] r.stack[i]).level() < (#[trigger] r.stack[j]).task.priority() by {
        assert(s.stack[i].level() < s.stack[j].task.priority());
    }
}

/// Mutual exclusion on the shared output: in a state that satisfies the
/// invariant no two activations are inside their critical sections at once.
pub proof fn lemma_mutual_exclusion(s: State, i: int, j: int)
    requires
        s.inv(),
        0 <= i < s.stack.len(),
        0 <= j < s.stack.len(),
        s.stack[i].locked,
        s.stack[j].locked,
    ensures
        i == j,
{
    lemma_led_ceiling();
    if i < j {
        assert(s.stack[i].level() < s.stack[j].task.priority());
    } else if j < i {
        assert(s.stack[j].level() < s.stack[i].task.priority());
    }
}

/// The lock never blocks: when the running activation is of a task that may
/// lock the shared output and is not inside its critical section, no
/// preempted activation is inside one either.
pub proof fn lemma_lock_is_free(s: State, i: int)
    requires
        s.inv(),
        s.stack.len() > 0,
        s.stack.last().task.uses_led(),
        !s.stack.last().locked,
        0 <= i < s.stack.len(),
    ensures
        !s.stack[i].locked,
{
    lemma_led_ceiling();
    if i < s.stack.len() - 1 {
        assert(s.stack[i].level() < s.stack[s.stack.len() - 1].task.priority());
    }
}

/// The ceiling shuts the lockers out: while the running activation is inside
/// its critical section, a dispatch step starts no task at or below the
/// ceiling, and so none that may lock the shared output.
pub proof fn lemma_ceiling_blocks(s: State)
    requires
        s.inv(),
        s.in_critical(),
    ensures
        s.next_task() matches Some(t) ==> t.priority() > LED_CEILING && !t.uses_led(),
{
    lemma_led_ceiling();
}

/// A task of lower or equal priority never preempts: every activation on the
/// stack has a higher priority than each one that started before it, and than
/// the ceiling where that one holds the lock.
pub proof fn lemma_preemption_is_strict(s: State, i: int, j: int)
    requires
        s.inv(),
        0 <= i < j < s.stack.len(),
    ensures
        s.stack[i].task.priority() < s.stack[j].task.priority(),
        s.stack[i].locked ==> LED_CEILING < s.stack[j].task.priority(),
        s.stack[i].task != s.stack[j].task,
{
    assert(s.stack[i].level() < s.stack[j].task.priority());
}

/// Once no dispatch step starts a task any more, the running activation has
/// the highest priority of all: none of the pending tasks exceeds the
/// priority at which the processor runs.
pub proof fn lemma_settled(s: State, task: TaskId)
    requires
        s.inv(),
        s.next_task().is_none(),
        s.ready.contains(task),
    ensures
        task.priority() <= s.priority(),
{
    lemma_front_runner_exists(s.ready);
    let k = choose|k: int| 0 <= k < s.ready.len() && s.ready[k] == task;
    assert(s.ready[k].priority() <= s.ready[front_runner(s.ready)].priority());
}

/// A pending task starts within one dispatch step where nothing contends
/// with it: if no other pending task has its priority or a higher one, and
/// the processor runs below its priority, the next dispatch step starts it.
pub proof fn lemma_starts_within_one_dispatch(s: State, task: TaskId)
    requires
        s.inv(),
        s.ready.contains(task),
        forall|u: TaskId| #[trigger]
            s.ready.contains(u) && u != task ==> u.priority() < task.priority(),
        s.priority() < task.priority(),
    ensures
        s.next_task() == Some(task),
        s.dispatched().current() == Some(task),
        s.dispatched().task_state(task) == TaskState::Running,
{
    let k = choose|k: int| 0 <= k < s.ready.len() && s.ready[k] == task;
    assert forall|q: int| 0 <= q < s.ready.len() implies (#[trigger] s.ready[q]).priority()
        < s.ready[k].priority() || (s.ready[q].priority() == s.ready[k].priority() && k <= q) by {
        assert(s.ready.contains(s.ready[q]));
    }
    assert(is_front_runner(s.ready, k));
    lemma_front_runner_unique(s.ready, k, front_runner(s.ready));
    let r = s.dispatched();
    assert(r.stack[r.stack.len() - 1].task == task);
}

/// A delayed activation that is accepted with a delay of at least one tick
/// and below half the counter's range is armed for the instant that lies
/// `delay` ticks after the current time, and is not pending before then.
pub proof fn lemma_armed_deadline(s: State, task: TaskId, delay: u64)
    requires
        s.inv(),
        !s.outstanding(task),
        0 < delay < HALF_RANGE,
    ensures
        s.armed(task, delay).timers.contains_key(task),
        s.armed(task, delay).timers[task] == s.now.after(delay),
        !s.armed(task, delay).ready.contains(task),
        s.armed(task, delay).now == s.now,
{
    crate::clock::lemma_order_across_wraparound(s.now, delay, 0);
}

/// A delayed activation becomes pending no earlier than its delay has
/// elapsed, and with the first reading from then on: where the task was armed
/// at instant `armed_at` with `delay`, serving the timer queue on the reading
/// `elapsed` ticks after `armed_at` fires it exactly when `elapsed` is at
/// least `delay`. This holds wherever `armed_at` lies and also where the
/// counter wraps in between, as long as the reading lies before the deadline
/// by less than half the counter's range, or after it by no more than half
/// the range and two ticks.
pub proof fn lemma_fires_when_delay_elapsed(
    s: State,
    task: TaskId,
    armed_at: Tick,
    delay: u64,
    elapsed: u64,
    fired: Seq<TaskId>,
)
    requires
        s.timers.contains_key(task),
        s.timers[task] == armed_at.after(delay),
        delay > elapsed ==> delay - elapsed < HALF_RANGE,
        delay <= elapsed ==> elapsed - delay <= HALF_RANGE + 2,
        s.now.reached_by(armed_at.after(elapsed)),
        is_due_order(s.timers, s.time_after(armed_at.after(elapsed)), fired),
    ensures
        s.time_after(armed_at.after(elapsed)) == armed_at.after(elapsed),
        fired.contains(task) <==> delay <= elapsed,
{
    crate::clock::lemma_order_across_wraparound(armed_at, delay, elapsed);
}

/// What can happen to the scheduler.
pub enum Event {
    /// An immediate activation of the task is requested.
    Spawn(TaskId),
    /// An activation of the task after so many ticks is requested.
    SpawnAfter(TaskId, u64),
    /// The clock is read, with this reading, and the timer queue is served.
    Advance(Tick),
    /// A dispatch step is taken.
    Dispatch,
    /// The running activation enters its critical section.
    Acquire,
    /// The critical section leaves the shared output at this value.
    Access(Led),
    /// The running activation leaves its critical section.
    Release,
    /// The running activation returns.
    Complete,
}

/// Whether serving the timer queue on `reading` leads from `pre` to `post`,
/// with the tasks in `fired` becoming pending and the wakeup armed at `wakeup`.
pub open spec fn serves(
    pre: State,
    reading: Tick,
    fired: Seq<TaskId>,
    wakeup: Option<Tick>,
    post: State,
) -> bool {
    &&& is_due_order(pre.timers, pre.time_after(reading), fired)
    &&& is_soonest(not_due(pre.timers, pre.time_after(reading)), pre.time_after(reading), wakeup)
    &&& post == pre.advanced(reading, fired, wakeup)
}

/// Whether reading the clock at `reading` and serving the timer queue leads
/// from `pre` to `post`.
pub open spec fn advances(pre: State, reading: Tick, post: State) -> bool {
    exists|fired: Seq<TaskId>, wakeup: Option<Tick>| #[trigger]
        serves(pre, reading, fired, wakeup, post)
}

/// Whether `event` leads from `pre` to `post`. A request that meets an
/// outstanding activation changes nothing; a step of the running activation
/// is possible only where it is in order: the critical section is entered
/// from outside and left from inside, and an activation returns outside it.
pub open spec fn step(pre: State, event: Event, post: State) -> bool {
    match event {
        Event::Spawn(task) => post == if pre.outstanding(task) {
            pre
        } else {
            pre.spawned(task)
        },
        Event::SpawnAfter(task, delay) => post == if pre.outstanding(task) {
            pre
        } else {
            pre.armed(task, delay)
        },
        Event::Advance(reading) => advances(pre, reading, post),
        Event::Dispatch => post == pre.dispatched(),
        Event::Acquire => pre.stack.len() > 0 && pre.stack.last().task.uses_led()
            && !pre.in_critical() && post == pre.with_lock(true),
        Event::Access(led) => pre.in_critical() && post == pre.with_led(led),
        Event::Release => pre.in_critical() && post == pre.with_lock(false),
        Event::Complete => pre.stack.len() > 0 && !pre.in_critical() && post == pre.completed(),
    }
}

/// Whether `states` is a run of the system from instant `start` under
/// `events`: it begins in the initial state, and each event leads from one
/// state to the next.
pub open spec fn is_run(start: Tick, states: Seq<State>, events: Seq<Event>) -> bool {
    &&& states.len() == events.len() + 1
    &&& states[0] == State::initial(start)
    &&& forall|k: int|
        0 <= k < events.len() ==> #[trigger] step(states[k], events[k], states[k + 1])
}

/// Every event preserves the invariant.
pub proof fn lemma_step_inv(pre: State, event: Event, post: State)
    requires
        pre.inv(),
        step(pre, event, post),
    ensures
        post.inv(),
{
    match event {
        Event::Spawn(task) => {
            if !pre.outstanding(task) {
                lemma_spawned_inv(pre, task);
            }
        },
        Event::SpawnAfter(task, delay) => {
            if !pre.outstanding(task) {
                lemma_armed_inv(pre, task, delay);
            }
        },
        Event::Advance(reading) => {
            let (fired, wakeup) = choose|fired: Seq<TaskId>, wakeup: Option<Tick>| #[trigger]
                serves(pre, reading, fired, wakeup, post);
            lemma_advanced_inv(pre, reading, fired, wakeup);
        },
        Event::Dispatch => {
            lemma_dispatched_inv(pre);
        },
        Event::Acquire => {
            lemma_acquired_inv(pre);
        },
        Event::Access(led) => {},
        Event::Release => {
            lemma_released_inv(pre);
        },
        Event::Complete => {
            lemma_completed_inv(pre);
        },
    }
}

/// Whether a task may pass from state `before` to state `after` under
/// `event`: it stays where it is, or it moves one station on in its cycle. A
/// request or a timer makes an idle task pending, a dispatch step starts a
/// pending one, and the return of its activation makes a running one idle
/// again, or pending where it has been requested anew meanwhile.
pub open spec fn follows_cycle(before: TaskState, event: Event, after: TaskState) -> bool {
    ||| after == before
    ||| before == TaskState::Idle && after == TaskState::Pending && (event is Spawn
        || event is SpawnAfter || event is Advance)
    ||| before == TaskState::Pending && after == TaskState::Running && event is Dispatch
    ||| before == TaskState::Running && after != TaskState::Running && event is Complete
}

/// Every task follows its cycle: no event takes it from one state to another
/// but along idle, pending, running and back.
pub proof fn lemma_step_follows_cycle(pre: State, event: Event, post: State, task: TaskId)
    requires
        pre.inv(),
        step(pre, event, post),
    ensures
        follows_cycle(pre.task_state(task), event, post.task_state(task)),
{
    match event {
        Event::Spawn(t) => {
            if !pre.outstanding(t) {
                lemma_push_contains(pre.ready, t, task);
            }
        },
        Event::SpawnAfter(t, delay) => {
            if !pre.outstanding(t) && pre.now.after(delay).reached_by(pre.now) {
                lemma_push_contains(pre.ready, t, task);
            }
        },
        Event::Advance(reading) => {
            let (fired, wakeup) = choose|fired: Seq<TaskId>, wakeup: Option<Tick>| #[trigger]
                serves(pre, reading, fired, wakeup, post);
            if pre.ready.contains(task) {
                let k = choose|k: int| 0 <= k < pre.ready.len() && pre.ready[k] == task;
                assert(post.ready[k] == task);
            }
        },
        Event::Dispatch => {
            lemma_dispatch_follows_cycle(pre, task);
        },
        Event::Acquire => {
            lemma_with_lock_running(pre, true, task);
        },
        Event::Access(led) => {},
        Event::Release => {
            lemma_with_lock_running(pre, false, task);
        },
        Event::Complete => {
            lemma_complete_follows_cycle(pre, task);
        },
    }
}

/// A dispatch step takes the task that it starts from pending to running and
/// leaves every other task where it is.
proof fn lemma_dispatch_follows_cycle(pre: State, task: TaskId)
    requires
        pre.inv(),
    ensures
        pre.next_task() == Some(task) ==> pre.task_state(task) == TaskState::Pending
            && pre.dispatched().task_state(task) == TaskState::Running,
        pre.next_task() != Some(task) ==> pre.dispatched().task_state(task) == pre.task_state(
            task,
        ),
{
    let post = pre.dispatched();
    if pre.next_task().is_some() {
        let p = front_runner(pre.ready);
        let t = pre.ready[p];
        let top = pre.stack.len() - 1;
        lemma_front_runner_exists(pre.ready);
        pre.ready.remove_ensures(p);
        assert(pre.ready.contains(pre.ready[p]));
        assert(post.stack[post.stack.len() - 1].task == t);
        assert(post.is_running(t));
        assert(!pre.is_running(t)) by {
            if pre.is_running(t) {
                let i = choose|i: int| 0 <= i < pre.stack.len() && pre.stack[i].task == t;
                if i < top {
                    assert(pre.stack[i].level() < pre.stack[top].task.priority());
                }
            }
        }
        if task != t {
            lemma_remove_contains(pre.ready, p, task);
            lemma_push_running(pre.stack, Frame { task: t, locked: false }, task);
        }
    }
}

/// The return of the running activation takes its task out of the running
/// state and leaves every other task where it is.
proof fn lemma_complete_follows_cycle(pre: State, task: TaskId)
    requires
        pre.inv(),
        pre.stack.len() > 0,
    ensures
        pre.current() == Some(task) ==> pre.task_state(task) == TaskState::Running
            && pre.completed().task_state(task) != TaskState::Running,
        pre.current() != Some(task) ==> pre.completed().task_state(task) == pre.task_state(task),
{
    let post = pre.completed();
    let top = pre.stack.len() - 1;
    let t = pre.stack[top].task;
    assert(pre.is_running(t));
    assert(!post.is_running(t)) by {
        if post.is_running(t) {
            let i = choose|i: int| 0 <= i < post.stack.len() && post.stack[i].task == t;
            assert(pre.stack[i].level() < pre.stack[top].task.priority());
        }
    }
    if task != t {
        assert(pre.stack =~= post.stack.push(pre.stack[top]));
        lemma_push_running(post.stack, pre.stack[top], task);
    }
}

/// A stack with `frame` on top holds an activation of `task` exactly when it
/// did before or `frame` is one.
proof fn lemma_push_running(stack: Seq<Frame>, frame: Frame, task: TaskId)
    ensures
        (exists|i: int| 0 <= i < stack.push(frame).len() && (#[trigger] stack.push(
            frame,
        )[i]).task == task) <==> (exists|i: int|
            0 <= i < stack.len() && (#[trigger] stack[i]).task == task) || frame.task == task,
{
    let r = stack.push(frame);
    if exists|i: int| 0 <= i < r.len() && (#[trigger] r[i]).task == task {
        let i = choose|i: int| 0 <= i < r.len() && (#[trigger] r[i]).task == task;
        if i < stack.len() {
            assert(stack[i].task == task);
        }
    }
    if exists|i: int| 0 <= i < stack.len() && (#[trigger] stack[i]).task == task {
        let i = choose|i: int| 0 <= i < stack.len() && (#[trigger] stack[i]).task == task;
        assert(r[i].task == task);
    }
    if frame.task == task {
        assert(r[stack.len() as int].task == task);
    }
}

/// A queue without the task at position `p` holds every other task that it
/// held before, and no new one.
proof fn lemma_remove_contains(ready: Seq<TaskId>, p: int, task: TaskId)
    requires
        0 <= p < ready.len(),
        task != ready[p],
    ensures
        ready.remove(p).contains(task) <==> ready.contains(task),
{
    let r = ready.remove(p);
    ready.remove_ensures(p);
    if r.contains(task) {
        let k = choose|k: int| 0 <= k < r.len() && r[k] == task;
        if k < p {
            assert(ready[k] == task);
        } else {
            assert(ready[k + 1] == task);
        }
    }
    if ready.contains(task) {
        let k = choose|k: int| 0 <= k < ready.len() && ready[k] == task;
        if k < p {
            assert(r[k] == task);
        } else {
            assert(r[k - 1] == task);
        }
    }
}

/// A queue with `added` at its end holds what it held before, and `added`.
proof fn lemma_push_contains(ready: Seq<TaskId>, added: TaskId, task: TaskId)
    ensures
        ready.push(added).contains(task) <==> ready.contains(task) || task == added,
{
    let r = ready.push(added);
    if r.contains(task) {
        let k = choose|k: int| 0 <= k < r.len() && r[k] == task;
        if k < ready.len() {
            assert(ready[k] == task);
        }
    }
    if ready.contains(task) {
        let k = choose|k: int| 0 <= k < ready.len() && ready[k] == task;
        assert(r[k] == task);
    }
    if task == added {
        assert(r[ready.len() as int] == task);
    }
}

/// Entering or leaving the critical section changes no task's state.
proof fn lemma_with_lock_running(s: State, locked: bool, task: TaskId)
    requires
        s.stack.len() > 0,
    ensures
        s.with_lock(locked).is_running(task) <==> s.is_running(task),
{
    let r = s.with_lock(locked);
    if r.is_running(task) {
        let i = choose|i: int| 0 <= i < r.stack.len() && r.stack[i].task == task;
        assert(s.stack[i].task == task);
    }
    if s.is_running(task) {
        let i = choose|i: int| 0 <= i < s.stack.len() && s.stack[i].task == task;
        assert(r.stack[i].task == task);
    }
}

/// Every state of every run satisfies the invariant.
pub proof fn lemma_run_inv(start: Tick, states: Seq<State>, events: Seq<Event>, k: int)
    requires
        is_run(start, states, events),
        0 <= k < states.len(),
    ensures
        states[k].inv(),
    decreases k,
{
    if k == 0 {
        lemma_initial_inv(start);
    } else {
        lemma_run_inv(start, states, events, k - 1);
        assert(step(states[k - 1], events[k - 1], states[k - 1 + 1]));
        lemma_step_inv(states[k - 1], events[k - 1], states[k]);
    }
}

/// No interleaving brings two activations into their critical sections at
/// once: whatever the events and their order, in no state of the run do two
/// activations hold the lock on the shared output.
pub proof fn lemma_no_run_shares_the_led(
    start: Tick,
    states: Seq<State>,
    events: Seq<Event>,
    k: int,
    i: int,
    j: int,
)
    requires
        is_run(start, states, events),
        0 <= k < states.len(),
        0 <= i < states[k].stack.len(),
        0 <= j < states[k].stack.len(),
        states[k].stack[i].locked,
        states[k].stack[j].locked,
    ensures
        i == j,
{
    lemma_run_inv(start, states, events, k);
    lemma_mutual_exclusion(states[k], i, j);
}

} // verus!
