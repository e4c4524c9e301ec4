use blink_scheduler::clock::{MonotonicClock, Tick, HALF_RANGE};
use blink_scheduler::task::TaskId;
use blink_scheduler::timer_queue::{SpawnError, TimerQueue};

fn clock_at(ticks: u64) -> MonotonicClock {
    MonotonicClock::starting_at(Tick::from_ticks(ticks))
}

#[test]
fn new_queue_is_empty() {
    let mut q = TimerQueue::new();
    assert_eq!(q.due_of(TaskId::Blink), None);
    assert_eq!(q.due_of(TaskId::Blink2), None);
    assert_eq!(q.next_due(Tick::zero()), None);
    assert_eq!(q.pop_due(Tick::from_ticks(1_000_000)), vec![]);
}

#[test]
fn enqueue_computes_the_deadline() {
    let mut q = TimerQueue::new();
    assert_eq!(q.enqueue(&clock_at(250), TaskId::Blink, 1000), Ok(()));
    assert_eq!(q.due_of(TaskId::Blink), Some(Tick::from_ticks(1250)));
    assert_eq!(q.due_of(TaskId::Blink2), None);
}

#[test]
fn enqueue_twice_is_busy() {
    let mut q = TimerQueue::new();
    assert_eq!(q.enqueue(&clock_at(0), TaskId::Blink, 1000), Ok(()));
    assert_eq!(q.enqueue(&clock_at(10), TaskId::Blink, 50), Err(SpawnError::Busy));
    // The first entry stands as it was.
    assert_eq!(q.due_of(TaskId::Blink), Some(Tick::from_ticks(1000)));
    // The other task has a slot of its own.
    assert_eq!(q.enqueue(&clock_at(10), TaskId::Blink2, 50), Ok(()));
    assert_eq!(q.enqueue(&clock_at(10), TaskId::Blink2, 50), Err(SpawnError::Busy));
}

#[test]
fn slot_is_free_again_after_pop() {
    let mut q = TimerQueue::new();
    assert_eq!(q.enqueue(&clock_at(0), TaskId::Blink, 5), Ok(()));
    assert_eq!(q.pop_due(Tick::from_ticks(5)), vec![TaskId::Blink]);
    assert_eq!(q.due_of(TaskId::Blink), None);
    assert_eq!(q.enqueue(&clock_at(5), TaskId::Blink, 5), Ok(()));
    assert_eq!(q.due_of(TaskId::Blink), Some(Tick::from_ticks(10)));
}

#[test]
fn pop_due_leaves_what_is_not_due() {
    let mut q = TimerQueue::new();
    q.enqueue(&clock_at(0), TaskId::Blink, 1000).unwrap();
    q.enqueue(&clock_at(0), TaskId::Blink2, 300).unwrap();
    assert_eq!(q.pop_due(Tick::from_ticks(299)), vec![]);
    assert_eq!(q.pop_due(Tick::from_ticks(300)), vec![TaskId::Blink2]);
    assert_eq!(q.due_of(TaskId::Blink2), None);
    assert_eq!(q.due_of(TaskId::Blink), Some(Tick::from_ticks(1000)));
    assert_eq!(q.pop_due(Tick::from_ticks(300)), vec![]);
    assert_eq!(q.pop_due(Tick::from_ticks(1000)), vec![TaskId::Blink]);
    assert_eq!(q.pop_due(Tick::from_ticks(2000)), vec![]);
}

#[test]
fn pop_due_in_due_time_order() {
    let mut q = TimerQueue::new();
    q.enqueue(&clock_at(0), TaskId::Blink, 100).unwrap();
    q.enqueue(&clock_at(0), TaskId::Blink2, 200).unwrap();
    assert_eq!(q.pop_due(Tick::from_ticks(500)), vec![TaskId::Blink, TaskId::Blink2]);

    let mut q = TimerQueue::new();
    q.enqueue(&clock_at(0), TaskId::Blink, 200).unwrap();
    q.enqueue(&clock_at(0), TaskId::Blink2, 100).unwrap();
    assert_eq!(q.pop_due(Tick::from_ticks(500)), vec![TaskId::Blink2, TaskId::Blink]);
}

#[test]
fn pop_due_breaks_ties_by_priority() {
    let mut q = TimerQueue::new();
    q.enqueue(&clock_at(0), TaskId::Blink, 3000).unwrap();
    q.enqueue(&clock_at(2700), TaskId::Blink2, 300).unwrap();
    assert_eq!(q.pop_due(Tick::from_ticks(3000)), vec![TaskId::Blink2, TaskId::Blink]);
}

#[test]
fn pop_due_across_wraparound() {
    let mut q = TimerQueue::new();
    let start = u64::MAX - 100;
    q.enqueue(&clock_at(start), TaskId::Blink, 1000).unwrap();
    q.enqueue(&clock_at(start), TaskId::Blink2, 50).unwrap();
    assert_eq!(q.due_of(TaskId::Blink), Some(Tick::from_ticks(899)));
    assert_eq!(q.due_of(TaskId::Blink2), Some(Tick::from_ticks(u64::MAX - 50)));
    assert_eq!(q.pop_due(Tick::from_ticks(u64::MAX - 51)), vec![]);
    assert_eq!(q.pop_due(Tick::from_ticks(898)), vec![TaskId::Blink2]);
    assert_eq!(q.pop_due(Tick::from_ticks(899)), vec![TaskId::Blink]);

    let mut q = TimerQueue::new();
    q.enqueue(&clock_at(start), TaskId::Blink, 1000).unwrap();
    q.enqueue(&clock_at(start), TaskId::Blink2, 50).unwrap();
    assert_eq!(q.pop_due(Tick::from_ticks(5000)), vec![TaskId::Blink2, TaskId::Blink]);
}

#[test]
fn delay_of_half_the_range_is_due_at_once() {
    let mut q = TimerQueue::new();
    q.enqueue(&clock_at(0), TaskId::Blink, HALF_RANGE).unwrap();
    q.enqueue(&clock_at(0), TaskId::Blink2, HALF_RANGE - 1).unwrap();
    assert_eq!(q.pop_due(Tick::zero()), vec![TaskId::Blink]);
    assert_eq!(q.due_of(TaskId::Blink2), Some(Tick::from_ticks(HALF_RANGE - 1)));
}

#[test]
fn next_due_is_the_nearest_deadline() {
    let mut q = TimerQueue::new();
    q.enqueue(&clock_at(0), TaskId::Blink, 1000).unwrap();
    assert_eq!(q.next_due(Tick::zero()), Some(Tick::from_ticks(1000)));
    q.enqueue(&clock_at(0), TaskId::Blink2, 300).unwrap();
    assert_eq!(q.next_due(Tick::zero()), Some(Tick::from_ticks(300)));
    assert_eq!(q.next_due(Tick::from_ticks(299)), Some(Tick::from_ticks(300)));
    q.pop_due(Tick::from_ticks(300));
    assert_eq!(q.next_due(Tick::from_ticks(300)), Some(Tick::from_ticks(1000)));
}

#[test]
fn next_due_across_wraparound() {
    let mut q = TimerQueue::new();
    let start = u64::MAX - 100;
    q.enqueue(&clock_at(start), TaskId::Blink, 1000).unwrap();
    q.enqueue(&clock_at(start), TaskId::Blink2, 300).unwrap();
    assert_eq!(q.next_due(Tick::from_ticks(start)), Some(Tick::from_ticks(199)));
}
