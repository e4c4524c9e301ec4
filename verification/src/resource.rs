//! The shared resource and its priority ceiling.

use crate::task::{TaskId, TASK_COUNT};
use vstd::prelude::*;

verus! {

/// The ceiling of the shared output: the highest static priority among the
/// tasks that may lock it.
pub const LED_CEILING: u8 = 2;

/// Whether `c` is the highest priority among the tasks that may lock the
/// shared output.
pub open spec fn is_led_ceiling(c: u8) -> bool {
    &&& forall|t: TaskId| t.uses_led() ==> #[trigger] t.priority() <= c
    &&& exists|t: TaskId| t.uses_led() && #[trigger] t.priority() == c
}

/// The declared ceiling is the highest priority among the lockers.
pub proof fn lemma_led_ceiling()
    ensures
        is_led_ceiling(LED_CEILING),
{
    assert(TaskId::Blink2.uses_led() && TaskId::Blink2.priority() == LED_CEILING);
}

/// Computes the ceiling of the shared output from the task table.
pub fn led_ceiling() -> (c: u8)
    ensures
        is_led_ceiling(c),
        c == LED_CEILING,
{
    let mut c: u8 = 0;
    let mut found: bool = false;
    let mut i: usize = 0;
    while i < TASK_COUNT
        invariant
            i <= TASK_COUNT,
            forall|t: TaskId| t.index() < i && t.uses_led() ==> #[trigger] t.priority() <= c,
            found ==> exists|t: TaskId| t.uses_led() && #[trigger] t.priority() == c,
            found <==> exists|t: TaskId| #[trigger] t.index() < i && t.uses_led(),
        decreases TASK_COUNT - i,
    {
        match TaskId::from_index(i) {
            Some(t) => {
                if t.uses_led() {
                    if !found || t.priority() > c {
                        c = t.priority();
                    }
                    found = true;
                }
            },
            None => {},
        }
        i = i + 1;
    }
    proof {
        lemma_led_ceiling();
        assert(TaskId::Blink.index() < i && TaskId::Blink.uses_led());
    }
    c
}

/// The effective priority of a task of static priority `base` while it is
/// inside a critical section on the shared output: raised to the ceiling.
pub open spec fn spec_raised(base: u8) -> u8 {
    if base < LED_CEILING {
        LED_CEILING
    } else {
        base
    }
}

/// The effective priority of a task of static priority `base` while it is
/// inside a critical section on the shared output.
#[verifier::when_used_as_spec(spec_raised)]
pub fn raised(base: u8) -> (p: u8)
    ensures
        p == spec_raised(base),
        p >= base,
        p >= LED_CEILING,
{
    if base < LED_CEILING {
        LED_CEILING
    } else {
        base
    }
}

/// The logical level of the digital output line.
#[derive(Clone, Copy, PartialEq, Eq, Debug, Structural)]
pub struct Led {
    /// Whether the line is at high level.
    pub on: bool,
}

/// The level of the line after `n` toggles, starting from `on`.
pub open spec fn after_toggles(on: bool, n: nat) -> bool
    decreases n,
{
    if n == 0 {
        on
    } else {
        !after_toggles(on, (n - 1) as nat)
    }
}

impl Led {
    /// The line at low level.
    pub fn new() -> (led: Led)
        ensures
            !led.on,
    {
        Led { on: false }
    }

    /// Whether the line is at high level.
    pub fn is_on(&self) -> (on: bool)
        ensures
            on == self.on,
    {
        self.on
    }

    /// Inverts the level of the line.
    pub fn toggle(&mut self)
        ensures
            final(self).on == after_toggles(old(self).on, 1),
            final(self).on == !old(self).on,
    {
        proof {
            reveal_with_fuel(after_toggles, 2);
        }
        self.on = !self.on;
    }

    /// The line with its level inverted.
    pub fn toggled(self) -> (led: Led)
        ensures
            led.on == after_toggles(self.on, 1),
            led.on == !self.on,
    {
        proof {
            reveal_with_fuel(after_toggles, 2);
        }
        Led { on: !self.on }
    }
}

/// Toggling `n` times brings the line back to the level it started from exactly when
/// `n` is even.
pub proof fn lemma_toggle_parity(on: bool, n: nat)
    ensures
        after_toggles(on, n) == on <==> n % 2 == 0,
    decreases n,
{
    if n > 0 {
        lemma_toggle_parity(on, (n - 1) as nat);
    }
}

} // verus!
