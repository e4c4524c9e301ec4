use blink_scheduler::clock::{Tick, HALF_RANGE};
use blink_scheduler::dispatcher::Dispatcher;
use blink_scheduler::model::TaskState;
use blink_scheduler::resource::Led;
use blink_scheduler::task::TaskId;
use blink_scheduler::timer_queue::SpawnError;

fn at(ticks: u64) -> Tick {
    Tick::from_ticks(ticks)
}

#[test]
fn new_dispatcher_is_idle() {
    let d = Dispatcher::new(at(7));
    assert_eq!(d.now(), at(7));
    assert_eq!(d.wakeup(), None);
    assert_eq!(d.led(), Led { on: false });
    assert_eq!(d.current(), None);
    assert_eq!(d.priority(), 0);
    assert!(!d.in_critical());
    for task in [TaskId::Blink, TaskId::Blink2] {
        assert_eq!(d.task_state(task), TaskState::Idle);
        assert!(!d.is_pending(task));
        assert!(!d.is_running(task));
        assert_eq!(d.due_of(task), None);
    }
}

#[test]
fn spawn_makes_pending() {
    let mut d = Dispatcher::new(at(0));
    assert_eq!(d.spawn(TaskId::Blink), Ok(()));
    assert_eq!(d.task_state(TaskId::Blink), TaskState::Pending);
    assert_eq!(d.task_state(TaskId::Blink2), TaskState::Idle);
    assert!(d.is_pending(TaskId::Blink));
    assert_eq!(d.current(), None);
}

#[test]
fn spawn_of_a_pending_task_is_busy() {
    let mut d = Dispatcher::new(at(0));
    assert_eq!(d.spawn(TaskId::Blink), Ok(()));
    assert_eq!(d.spawn(TaskId::Blink), Err(SpawnError::Busy));
    assert_eq!(d.spawn_after(TaskId::Blink, 10), Err(SpawnError::Busy));
    assert_eq!(d.task_state(TaskId::Blink), TaskState::Pending);
    assert_eq!(d.due_of(TaskId::Blink), None);
}

#[test]
fn spawn_of_an_armed_task_is_busy() {
    let mut d = Dispatcher::new(at(0));
    assert_eq!(d.spawn_after(TaskId::Blink, 1000), Ok(()));
    assert_eq!(d.spawn(TaskId::Blink), Err(SpawnError::Busy));
    assert_eq!(d.task_state(TaskId::Blink), TaskState::Idle);
    assert_eq!(d.due_of(TaskId::Blink), Some(at(1000)));
}

#[test]
fn second_delayed_spawn_is_busy_and_overwrites_nothing() {
    let mut d = Dispatcher::new(at(100));
    assert_eq!(d.spawn_after(TaskId::Blink, 1000), Ok(()));
    assert_eq!(d.due_of(TaskId::Blink), Some(at(1100)));
    assert_eq!(d.wakeup(), Some(at(1100)));
    assert_eq!(d.spawn_after(TaskId::Blink, 5), Err(SpawnError::Busy));
    assert_eq!(d.due_of(TaskId::Blink), Some(at(1100)));
    assert_eq!(d.wakeup(), Some(at(1100)));
    assert_eq!(d.spawn_after(TaskId::Blink, 5000), Err(SpawnError::Busy));
    assert_eq!(d.due_of(TaskId::Blink), Some(at(1100)));
    assert_eq!(d.task_state(TaskId::Blink), TaskState::Idle);
    // The other task is not affected.
    assert_eq!(d.spawn_after(TaskId::Blink2, 5), Ok(()));
    assert_eq!(d.due_of(TaskId::Blink2), Some(at(105)));
    assert_eq!(d.wakeup(), Some(at(105)));
}

#[test]
fn spawn_after_arms_the_wakeup_for_the_nearest_deadline() {
    let mut d = Dispatcher::new(at(0));
    d.spawn_after(TaskId::Blink2, 300).unwrap();
    assert_eq!(d.wakeup(), Some(at(300)));
    d.spawn_after(TaskId::Blink, 1000).unwrap();
    assert_eq!(d.wakeup(), Some(at(300)));
}

#[test]
fn spawn_after_with_no_delay_is_pending_at_once() {
    let mut d = Dispatcher::new(at(50));
    assert_eq!(d.spawn_after(TaskId::Blink, 0), Ok(()));
    assert_eq!(d.task_state(TaskId::Blink), TaskState::Pending);
    assert_eq!(d.due_of(TaskId::Blink), None);
    assert_eq!(d.wakeup(), None);
}

#[test]
fn spawn_after_with_a_deadline_in_the_past_is_pending_at_once() {
    let mut d = Dispatcher::new(at(50));
    assert_eq!(d.spawn_after(TaskId::Blink2, HALF_RANGE + 7), Ok(()));
    assert_eq!(d.task_state(TaskId::Blink2), TaskState::Pending);
    assert_eq!(d.due_of(TaskId::Blink2), None);
}

#[test]
fn advance_fires_what_is_due() {
    let mut d = Dispatcher::new(at(0));
    d.spawn_after(TaskId::Blink, 1000).unwrap();
    d.spawn_after(TaskId::Blink2, 300).unwrap();
    assert_eq!(d.advance(at(299)), vec![]);
    assert_eq!(d.now(), at(299));
    assert_eq!(d.task_state(TaskId::Blink2), TaskState::Idle);
    assert_eq!(d.advance(at(300)), vec![TaskId::Blink2]);
    assert_eq!(d.task_state(TaskId::Blink2), TaskState::Pending);
    assert_eq!(d.due_of(TaskId::Blink2), None);
    assert_eq!(d.wakeup(), Some(at(1000)));
    assert_eq!(d.advance(at(999)), vec![]);
    assert_eq!(d.advance(at(1000)), vec![TaskId::Blink]);
    assert_eq!(d.task_state(TaskId::Blink), TaskState::Pending);
    assert_eq!(d.wakeup(), None);
}

#[test]
fn delayed_task_is_not_pending_before_its_deadline() {
    for start in [0u64, 12345, u64::MAX - 150, u64::MAX] {
        let mut d = Dispatcher::new(at(start));
        d.spawn_after(TaskId::Blink2, 300).unwrap();
        for elapsed in 0..300u64 {
            assert_eq!(d.advance(at(start).after(elapsed)), vec![]);
            assert_eq!(d.task_state(TaskId::Blink2), TaskState::Idle);
        }
        assert_eq!(d.advance(at(start).after(300)), vec![TaskId::Blink2]);
        assert_eq!(d.task_state(TaskId::Blink2), TaskState::Pending);
        assert_eq!(d.dispatch(), Some(TaskId::Blink2));
        assert_eq!(d.task_state(TaskId::Blink2), TaskState::Running);
    }
}

#[test]
fn late_reading_fires_too() {
    let mut d = Dispatcher::new(at(u64::MAX - 10));
    d.spawn_after(TaskId::Blink, 1000).unwrap();
    assert_eq!(d.due_of(TaskId::Blink), Some(at(989)));
    assert_eq!(d.advance(at(5000)), vec![TaskId::Blink]);
}

#[test]
fn advance_drops_a_reading_from_the_past() {
    let mut d = Dispatcher::new(at(1000));
    d.spawn_after(TaskId::Blink, 10).unwrap();
    assert_eq!(d.advance(at(900)), vec![]);
    assert_eq!(d.now(), at(1000));
    assert_eq!(d.advance(at(1010)), vec![TaskId::Blink]);
    assert_eq!(d.now(), at(1010));
}

#[test]
fn advance_fires_in_due_time_order() {
    let mut d = Dispatcher::new(at(0));
    d.spawn_after(TaskId::Blink2, 900).unwrap();
    d.spawn_after(TaskId::Blink, 1000).unwrap();
    assert_eq!(d.advance(at(1000)), vec![TaskId::Blink2, TaskId::Blink]);
    let mut d = Dispatcher::new(at(0));
    d.spawn_after(TaskId::Blink2, 1000).unwrap();
    d.spawn_after(TaskId::Blink, 900).unwrap();
    assert_eq!(d.advance(at(1000)), vec![TaskId::Blink, TaskId::Blink2]);
}

#[test]
fn dispatch_on_nothing_pending() {
    let mut d = Dispatcher::new(at(0));
    assert_eq!(d.dispatch(), None);
    assert_eq!(d.current(), None);
}

#[test]
fn dispatch_starts_the_highest_priority() {
    let mut d = Dispatcher::new(at(0));
    d.spawn(TaskId::Blink).unwrap();
    d.spawn(TaskId::Blink2).unwrap();
    assert_eq!(d.dispatch(), Some(TaskId::Blink2));
    assert_eq!(d.current(), Some(TaskId::Blink2));
    assert_eq!(d.priority(), 2);
    assert_eq!(d.task_state(TaskId::Blink2), TaskState::Running);
    assert_eq!(d.task_state(TaskId::Blink), TaskState::Pending);
    // The lower priority waits until the higher one has returned.
    assert_eq!(d.dispatch(), None);
    assert_eq!(d.complete(), TaskId::Blink2);
    assert_eq!(d.task_state(TaskId::Blink2), TaskState::Idle);
    assert_eq!(d.dispatch(), Some(TaskId::Blink));
    assert_eq!(d.priority(), 1);
    assert_eq!(d.complete(), TaskId::Blink);
    assert_eq!(d.dispatch(), None);
    assert_eq!(d.priority(), 0);
}

#[test]
fn higher_priority_preempts() {
    let mut d = Dispatcher::new(at(0));
    d.spawn(TaskId::Blink).unwrap();
    assert_eq!(d.dispatch(), Some(TaskId::Blink));
    d.spawn(TaskId::Blink2).unwrap();
    assert_eq!(d.dispatch(), Some(TaskId::Blink2));
    assert_eq!(d.current(), Some(TaskId::Blink2));
    // The preempted activation is suspended, not gone.
    assert!(d.is_running(TaskId::Blink));
    assert_eq!(d.task_state(TaskId::Blink), TaskState::Running);
    assert_eq!(d.complete(), TaskId::Blink2);
    assert_eq!(d.current(), Some(TaskId::Blink));
    assert_eq!(d.complete(), TaskId::Blink);
    assert_eq!(d.current(), None);
}

#[test]
fn equal_priority_does_not_preempt_itself() {
    let mut d = Dispatcher::new(at(0));
    d.spawn(TaskId::Blink2).unwrap();
    assert_eq!(d.dispatch(), Some(TaskId::Blink2));
    // A running task may be activated anew; the new activation waits.
    assert_eq!(d.spawn(TaskId::Blink2), Ok(()));
    assert_eq!(d.dispatch(), None);
    assert_eq!(d.task_state(TaskId::Blink2), TaskState::Running);
    assert_eq!(d.complete(), TaskId::Blink2);
    assert_eq!(d.task_state(TaskId::Blink2), TaskState::Pending);
    assert_eq!(d.dispatch(), Some(TaskId::Blink2));
}

#[test]
fn lock_raises_to_the_ceiling_and_restores() {
    let mut d = Dispatcher::new(at(0));
    d.spawn(TaskId::Blink).unwrap();
    d.dispatch();
    assert_eq!(d.priority(), 1);
    d.acquire();
    assert!(d.in_critical());
    assert_eq!(d.priority(), 2);
    d.access(Led::toggled);
    assert_eq!(d.led(), Led { on: true });
    d.release();
    assert!(!d.in_critical());
    assert_eq!(d.priority(), 1);
    assert_eq!(d.current(), Some(TaskId::Blink));
}

#[test]
fn lock_runs_the_critical_section() {
    let mut d = Dispatcher::new(at(0));
    d.spawn(TaskId::Blink2).unwrap();
    d.dispatch();
    d.lock(Led::toggled);
    assert_eq!(d.led(), Led { on: true });
    assert!(!d.in_critical());
    assert_eq!(d.priority(), 2);
    d.lock(|led: Led| Led { on: led.on });
    assert_eq!(d.led(), Led { on: true });
    d.lock(|_led: Led| Led { on: false });
    assert_eq!(d.led(), Led { on: false });
}

#[test]
fn no_preemption_inside_the_critical_section() {
    // Blink holds the lock; Blink2 falls due and is forced on the dispatcher
    // at every step. It must not start before the lock is released.
    let mut d = Dispatcher::new(at(0));
    d.spawn(TaskId::Blink).unwrap();
    d.spawn_after(TaskId::Blink2, 300).unwrap();
    assert_eq!(d.dispatch(), Some(TaskId::Blink));
    d.acquire();
    assert_eq!(d.advance(at(300)), vec![TaskId::Blink2]);
    assert_eq!(d.task_state(TaskId::Blink2), TaskState::Pending);
    assert_eq!(d.dispatch(), None);
    assert!(d.in_critical());
    assert_eq!(d.current(), Some(TaskId::Blink));
    d.access(Led::toggled);
    assert_eq!(d.dispatch(), None);
    d.release();
    // Now it preempts at once.
    assert_eq!(d.dispatch(), Some(TaskId::Blink2));
    assert_eq!(d.current(), Some(TaskId::Blink2));
    assert!(!d.in_critical());
    d.acquire();
    assert!(d.in_critical());
    d.access(Led::toggled);
    d.release();
    assert_eq!(d.complete(), TaskId::Blink2);
    assert_eq!(d.complete(), TaskId::Blink);
    assert_eq!(d.led(), Led { on: false });
}

#[test]
fn preemption_stress_never_shares_the_critical_section() {
    // Every interleaving of one activation each: Blink2 is requested at each
    // possible point of Blink's activation, and a dispatch step is forced
    // after every step.
    for arrival in 0..5 {
        let mut d = Dispatcher::new(at(0));
        d.spawn(TaskId::Blink).unwrap();
        assert_eq!(d.dispatch(), Some(TaskId::Blink));
        let mut inside = 0;
        let mut toggles = 0;
        let mut started_at = None;
        let mut force = |d: &mut Dispatcher, inside: &mut i32, step: i32| {
            if step == arrival {
                d.spawn(TaskId::Blink2).unwrap();
            }
            if d.dispatch() == Some(TaskId::Blink2) {
                started_at = Some(step);
                d.acquire();
                *inside += 1;
                assert_eq!(*inside, 1);
                d.access(Led::toggled);
                toggles += 1;
                *inside -= 1;
                d.release();
                assert_eq!(d.complete(), TaskId::Blink2);
            }
        };
        force(&mut d, &mut inside, 0);
        d.acquire();
        inside += 1;
        force(&mut d, &mut inside, 1);
        d.access(Led::toggled);
        force(&mut d, &mut inside, 2);
        assert_eq!(inside, 1);
        inside -= 1;
        d.release();
        force(&mut d, &mut inside, 3);
        assert_eq!(d.complete(), TaskId::Blink);
        force(&mut d, &mut inside, 4);
        assert_eq!(toggles, 1);
        // Requested inside the critical section, it starts right after it.
        let expected = if arrival == 1 || arrival == 2 { 3 } else { arrival };
        assert_eq!(started_at, Some(expected));
        assert_eq!(d.led(), Led { on: false });
        assert_eq!(d.current(), None);
    }
}
