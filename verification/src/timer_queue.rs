//! The timer queue: the delayed activations that are outstanding, one slot
//! per task, and the order in which they are served once they are due.

use crate::clock::{MonotonicClock, Tick};
use crate::task::{TaskId, TASK_COUNT};
use vstd::prelude::*;

verus! {

/// Why a request to activate a task was turned down.
#[derive(Clone, Copy, PartialEq, Eq, Debug, Structural)]
pub enum SpawnError {
    /// An earlier activation of the same task is still outstanding, and a
    /// task has room for one only.
    Busy,
}

/// Whether an entry for task `a` due at `due_a` is served before one for task
/// `b` due at `due_b`, both being due at `now`: the entry that is longer
/// overdue goes first; of two that fell due at the same tick the task of
/// higher priority goes first, and of two of equal priority the one declared
/// first.
pub open spec fn served_before(now: Tick, due_a: Tick, a: TaskId, due_b: Tick, b: TaskId) -> bool {
    let late_a = now.since(due_a);
    let late_b = now.since(due_b);
    late_a > late_b || (late_a == late_b && (a.priority() > b.priority() || (a.priority()
        == b.priority() && a.index() < b.index())))
}

/// Whether `order` lists the tasks whose entries in `timers` are due at `now`,
/// each once, in the order in which they are served.
pub open spec fn is_due_order(timers: Map<TaskId, Tick>, now: Tick, order: Seq<TaskId>) -> bool {
    &&& forall|t: TaskId| #[trigger]
        order.contains(t) <==> timers.contains_key(t) && timers[t].reached_by(now)
    &&& forall|i: int, j: int|
        0 <= i < j < order.len() ==> served_before(
            now,
            timers[#[trigger] order[i]],
            order[i],
            timers[#[trigger] order[j]],
            order[j],
        )
}

/// The entries of `timers` that are not yet due at `now`.
pub open spec fn not_due(timers: Map<TaskId, Tick>, now: Tick) -> Map<TaskId, Tick> {
    Map::new(
        |t: TaskId| timers.contains_key(t) && !timers[t].reached_by(now),
        |t: TaskId| timers[t],
    )
}

/// Whether `soonest` is the deadline among the entries of `timers` with the
/// fewest ticks left from `now`, or nothing where there are no entries.
pub open spec fn is_soonest(timers: Map<TaskId, Tick>, now: Tick, soonest: Option<Tick>) -> bool {
    match soonest {
        Some(d) => {
            &&& exists|t: TaskId| #[trigger] timers.contains_key(t) && timers[t] == d
            &&& forall|t: TaskId| #[trigger]
                timers.contains_key(t) ==> now.until(d) <= now.until(timers[t])
        },
        None => forall|t: TaskId| !#[trigger] timers.contains_key(t),
    }
}

/// Computes whether one due entry is served before another.
fn serves_before(now: Tick, due_a: Tick, a: TaskId, due_b: Tick, b: TaskId) -> (before: bool)
    ensures
        before == served_before(now, due_a, a, due_b, b),
{
    let late_a = now.since(due_a);
    let late_b = now.since(due_b);
    if late_a != late_b {
        late_a > late_b
    } else if a.priority() != b.priority() {
        a.priority() > b.priority()
    } else {
        a.index() < b.index()
    }
}

/// The delayed activations that are outstanding: for each task at most one,
/// with the instant at which it falls due.
pub struct TimerQueue {
    slots: Vec<Option<Tick>>,
}

impl View for TimerQueue {
    type V = Map<TaskId, Tick>;

    closed spec fn view(&self) -> Map<TaskId, Tick> {
        Map::new(
            |t: TaskId| self.slots@[t.index() as int].is_some(),
            |t: TaskId| self.slots@[t.index() as int].unwrap(),
        )
    }
}

impl TimerQueue {
    /// Whether the queue has one slot for each task.
    pub closed spec fn wf(&self) -> bool {
        self.slots@.len() == TASK_COUNT
    }

    /// A queue with no entries.
    pub fn new() -> (queue: TimerQueue)
        ensures
            queue.wf(),
            queue@ == Map::<TaskId, Tick>::empty(),
    {
        let mut slots: Vec<Option<Tick>> = Vec::new();
        let mut i: usize = 0;
        while i < TASK_COUNT
            invariant
                i <= TASK_COUNT,
                slots@.len() == i,
                forall|k: int| 0 <= k < i ==> slots@[k].is_none(),
            decreases TASK_COUNT - i,
        {
            slots.push(None);
            i = i + 1;
        }
        let queue = TimerQueue { slots };
        assert(queue@ =~= Map::<TaskId, Tick>::empty());
        queue
    }

    /// The instant at which the outstanding entry of `task` falls due, if it
    /// has one.
    pub fn due_of(&self, task: TaskId) -> (due: Option<Tick>)
        requires
            self.wf(),
        ensures
            due == if self@.contains_key(task) {
                Some(self@[task])
            } else {
                None
            },
    {
        self.slots[task.index()]
    }

    /// Enters a delayed activation of `task`, due `delay` ticks after the
    /// current time of `clock`. A task that already has an entry keeps it, and
    /// the request fails with `Busy`.
    pub fn enqueue(&mut self, clock: &MonotonicClock, task: TaskId, delay: u64) -> (result: Result<
        (),
        SpawnError,
    >)
        requires
            old(self).wf(),
        ensures
            final(self).wf(),
            old(self)@.contains_key(task) ==> result == Err::<(), SpawnError>(SpawnError::Busy)
                && final(self)@ == old(self)@,
            !old(self)@.contains_key(task) ==> result == Ok::<(), SpawnError>(()) && final(self)@
                == old(self)@.insert(task, clock.now().after(delay)),
    {
        let i = task.index();
        if self.slots[i].is_some() {
            return Err(SpawnError::Busy);
        }
        let due = clock.now().after(delay);
        self.slots[i] = Some(due);
        assert(self@ =~= old(self)@.insert(task, due));
        Ok(())
    }

    /// Takes out every entry that is due at `now` and returns their tasks in
    /// the order in which they are to be served.
    pub fn pop_due(&mut self, now: Tick) -> (due: Vec<TaskId>)
        requires
            old(self).wf(),
        ensures
            final(self).wf(),
            final(self)@ == not_due(old(self)@, now),
            is_due_order(old(self)@, now, due@),
            due@.no_duplicates(),
    {
        let mut out: Vec<TaskId> = Vec::new();
        let mut i: usize = 0;
        while i < TASK_COUNT
            invariant
                i <= TASK_COUNT,
                self.wf(),
                self.slots@ == old(self).slots@,
                forall|t: TaskId| #[trigger]
                    out@.contains(t) <==> t.index() < i && self@.contains_key(t)
                        && self@[t].reached_by(now),
                forall|a: int, b: int|
                    0 <= a < b < out@.len() ==> served_before(
                        now,
                        self@[#[trigger] out@[a]],
                        out@[a],
                        self@[#[trigger] out@[b]],
                        out@[b],
                    ),
            decreases TASK_COUNT - i,
        {
            match (self.slots[i], TaskId::from_index(i)) {
                (Some(d), Some(t)) => {
                    if d.reached_by(now) {
                        assert forall|k: int| 0 <= k < out@.len() implies self@.contains_key(
                            #[trigger] out@[k],
                        ) by {
                            assert(out@.contains(out@[k]));
                        }
                        let mut p: usize = 0;
                        while p < out.len() && serves_before(
                            now,
                            self.slots[out[p].index()].unwrap(),
                            out[p],
                            d,
                            t,
                        )
                            invariant
                                p <= out@.len(),
                                self.wf(),
                                self@.contains_key(t),
                                self@[t] == d,
                                forall|k: int|
                                    0 <= k < out@.len() ==> self@.contains_key(#[trigger] out@[k]),
                                forall|k: int|
                                    0 <= k < p ==> served_before(
                                        now,
                                        self@[#[trigger] out@[k]],
                                        out@[k],
                                        d,
                                        t,
                                    ),
                            decreases out@.len() - p,
                        {
                            p = p + 1;
                        }
                        let ghost before = out@;
                        proof {
                            before.insert_ensures(p as int, t);
                            assert forall|k: int| 0 <= k < before.len() implies before[k] != t by {
                                assert(before.contains(before[k]));
                            }
                            if p < before.len() {
                                assert(before.contains(before[p as int]));
                            }
                        }
                        out.insert(p, t);
                        proof {
                            let after = out@;
                            assert forall|u: TaskId| #[trigger]
                                after.contains(u) <==> u.index() < i + 1 && self@.contains_key(u)
                                    && self@[u].reached_by(now) by {
                                if after.contains(u) {
                                    let k = choose|k: int| 0 <= k < after.len() && after[k] == u;
                                    if k < p {
                                        assert(before.contains(before[k]));
                                    } else if k > p {
                                        assert(before.contains(before[k - 1]));
                                    }
                                }
                                if u.index() < i + 1 && self@.contains_key(u)
                                    && self@[u].reached_by(now) {
                                    if u == t {
                                        assert(after[p as int] == u);
                                    } else {
                                        assert(before.contains(u));
                                        let k = choose|k: int|
                                            0 <= k < before.len() && before[k] == u;
                                        if k < p {
                                            assert(after[k] == u);
                                        } else {
                                            assert(after[k + 1] == u);
                                        }
                                    }
                                }
                            }
                            assert forall|a: int, b: int|
                                0 <= a < b < after.len() implies served_before(
                                now,
                                self@[#[trigger] after[a]],
                                after[a],
                                self@[#[trigger] after[b]],
                                after[b],
                            ) by {
                                if b < p {
                                } else if b == p {
                                } else if a < p {
                                    assert(after[b] == before[b - 1]);
                                } else if a == p {
                                    assert(after[b] == before[b - 1]);
                                    assert(before.contains(before[p as int]));
                                    if b - 1 > p {
                                        assert(served_before(
                                            now,
                                            self@[before[p as int]],
                                            before[p as int],
                                            self@[before[b - 1]],
                                            before[b - 1],
                                        ));
                                    }
                                } else {
                                    assert(after[a] == before[a - 1]);
                                    assert(after[b] == before[b - 1]);
                                }
                            }
                        }
                    }
                },
                _ => {},
            }
            i = i + 1;
        }
        let mut k: usize = 0;
        while k < TASK_COUNT
            invariant
                k <= TASK_COUNT,
                self.wf(),
                forall|j: int|
                    0 <= j < k ==> #[trigger] self.slots@[j] == match old(self).slots@[j] {
                        Some(d) => if d.reached_by(now) {
                            None
                        } else {
                            Some(d)
                        },
                        None => None,
                    },
                forall|j: int|
                    k <= j < TASK_COUNT ==> #[trigger] self.slots@[j] == old(self).slots@[j],
            decreases TASK_COUNT - k,
        {
            match self.slots[k] {
                Some(d) => {
                    if d.reached_by(now) {
                        self.slots[k] = None;
                    }
                },
                None => {},
            }
            k = k + 1;
        }
        proof {
            assert(self@ =~= not_due(old(self)@, now));
            assert forall|a: int, b: int| 0 <= a < b < out@.len() implies out@[a] != out@[b] by {
                assert(served_before(
                    now,
                    old(self)@[out@[a]],
                    out@[a],
                    old(self)@[out@[b]],
                    out@[b],
                ));
            }
        }
        out
    }

    /// The deadline that falls due next: among the outstanding entries the
    /// one with the fewest ticks left from `now`.
    pub fn next_due(&self, now: Tick) -> (soonest: Option<Tick>)
        requires
            self.wf(),
        ensures
            is_soonest(self@, now, soonest),
    {
        let mut best: Option<Tick> = None;
        let mut i: usize = 0;
        while i < TASK_COUNT
            invariant
                i <= TASK_COUNT,
                self.wf(),
                match best {
                    Some(d) => {
                        &&& exists|t: TaskId|
                            t.index() < i && #[trigger] self@.contains_key(t) && self@[t] == d
                        &&& forall|t: TaskId|
                            t.index() < i && #[trigger] self@.contains_key(t) ==> now.until(d)
                                <= now.until(self@[t])
                    },
                    None => forall|t: TaskId| t.index() < i ==> !#[trigger] self@.contains_key(t),
                },
            decreases TASK_COUNT - i,
        {
            match (self.slots[i], TaskId::from_index(i)) {
                (Some(d), Some(t)) => {
                    assert(self@.contains_key(t) && self@[t] == d);
                    let better = match best {
                        Some(b) => now.until(d) < now.until(b),
                        None => true,
                    };
                    if better {
                        best = Some(d);
                    }
                },
                _ => {},
            }
            i = i + 1;
        }
        best
    }
}

} // verus!
