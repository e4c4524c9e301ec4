//! The application: what the two tasks do when they run, how the system
//! starts, and how one activation is run from start to return.

use crate::clock::Tick;
use crate::dispatcher::Dispatcher;
use crate::model::{lemma_started_not_outstanding, State};
use crate::resource::Led;
use crate::task::TaskId;
use crate::timer_queue::SpawnError;
use vstd::prelude::*;

verus! {

/// Starts the system at the clock's zero: both tasks are requested at once,
/// `Blink` first, and nothing runs yet.
pub fn init() -> (d: Dispatcher)
    ensures
        d.wf(),
        d@ == State::initial(Tick { ticks: 0 }).spawned(TaskId::Blink).spawned(TaskId::Blink2),
{
    let mut d = Dispatcher::new(Tick::zero());
    let first = d.spawn(TaskId::Blink);
    let second = d.spawn(TaskId::Blink2);
    assert(first.is_ok() && second.is_ok()) by {
        let s = State::initial(Tick { ticks: 0 });
        assert(!s.ready.contains(TaskId::Blink));
        let r = s.spawned(TaskId::Blink);
        assert(r.ready =~= seq![TaskId::Blink]);
        assert(!r.ready.contains(TaskId::Blink2));
    }
    d
}

/// The body that both tasks share: toggles the shared output under the lock,
/// then asks for the next activation of `task` after its period. Fails with
/// `Busy`, the output toggled, where an activation of `task` is outstanding.
pub fn toggle_and_rearm(d: &mut Dispatcher, task: TaskId) -> (result: Result<(), SpawnError>)
    requires
        old(d).wf(),
        old(d)@.current() == Some(task),
        !old(d)@.in_critical(),
    ensures
        final(d).wf(),
        old(d)@.outstanding(task) ==> result == Err::<(), SpawnError>(SpawnError::Busy)
            && final(d)@ == old(d)@.toggled(),
        !old(d)@.outstanding(task) ==> result == Ok::<(), SpawnError>(())
            && final(d)@ == old(d)@.toggled().armed(task, task.period()),
{
    d.lock(Led::toggled);
    assert(d@ == old(d)@.toggled());
    d.spawn_after(task, task.period())
}

/// The activation of `Blink`: toggles the output and re-arms itself after
/// one second.
pub fn blink(d: &mut Dispatcher) -> (result: Result<(), SpawnError>)
    requires
        old(d).wf(),
        old(d)@.current() == Some(TaskId::Blink),
        !old(d)@.in_critical(),
    ensures
        final(d).wf(),
        old(d)@.outstanding(TaskId::Blink) ==> result == Err::<(), SpawnError>(SpawnError::Busy)
            && final(d)@ == old(d)@.toggled(),
        !old(d)@.outstanding(TaskId::Blink) ==> result == Ok::<(), SpawnError>(()) && final(d)@
            == old(d)@.toggled().armed(TaskId::Blink, 1000),
{
    toggle_and_rearm(d, TaskId::Blink)
}

/// The activation of `Blink2`: toggles the output and re-arms itself after
/// 300 milliseconds.
pub fn blink2(d: &mut Dispatcher) -> (result: Result<(), SpawnError>)
    requires
        old(d).wf(),
        old(d)@.current() == Some(TaskId::Blink2),
        !old(d)@.in_critical(),
    ensures
        final(d).wf(),
        old(d)@.outstanding(TaskId::Blink2) ==> result == Err::<(), SpawnError>(SpawnError::Busy)
            && final(d)@ == old(d)@.toggled(),
        !old(d)@.outstanding(TaskId::Blink2) ==> result == Ok::<(), SpawnError>(()) && final(d)@
            == old(d)@.toggled().armed(TaskId::Blink2, 300),
{
    toggle_and_rearm(d, TaskId::Blink2)
}

/// Runs one activation from start to return: a dispatch step starts the task
/// that is due to run, its body runs, and it returns. Returns the task that
/// ran, or nothing where no task could start. The task's request for its next
/// activation cannot fail here, since the activation that has just started
/// was its only outstanding one.
pub fn run_next(d: &mut Dispatcher) -> (ran: Option<TaskId>)
    requires
        old(d).wf(),
    ensures
        final(d).wf(),
        ran == old(d)@.next_task(),
        final(d)@ == old(d)@.activated(),
{
    match d.dispatch() {
        Some(task) => {
            proof {
                old(d).lemma_wf_inv();
                lemma_started_not_outstanding(old(d)@, task);
            }
            let rearmed = match task {
                TaskId::Blink => blink(d),
                TaskId::Blink2 => blink2(d),
            };
            assert(rearmed.is_ok());
            d.complete();
            Some(task)
        },
        None => None,
    }
}

} // verus!
