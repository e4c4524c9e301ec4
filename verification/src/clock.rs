//! The monotonic clock: wrapping tick values, their arithmetic and their
//! wraparound-safe ordering, and the clock state that the scheduler reads.

use systick_monotonic::fugit::{TimerDurationU64, TimerInstantU64};
use systick_monotonic::ExtU64;
use vstd::prelude::*;

verus! {

/// Ticks per second of the clock: one tick lasts one millisecond.
pub const TIMER_HZ: u32 = 1000;

/// Half of the counter's range, rounded down. Two instants are ordered by
/// whether their wrapped difference lies below or above this value.
pub const HALF_RANGE: u64 = 0x7fff_ffff_ffff_ffff;

/// The counter value `delay` ticks after `t`, wrapping at the counter's width.
pub open spec fn tick_add(t: u64, delay: u64) -> u64 {
    if t + delay > u64::MAX {
        (t + delay - 0x1_0000_0000_0000_0000) as u64
    } else {
        (t + delay) as u64
    }
}

/// The number of ticks from `earlier` up to `t`, wrapping at the counter's width.
pub open spec fn tick_since(t: u64, earlier: u64) -> u64 {
    if t < earlier {
        (t - earlier + 0x1_0000_0000_0000_0000) as u64
    } else {
        (t - earlier) as u64
    }
}

/// Whether instant `a` is at or before instant `b`: they are the same, or `a`
/// trails `b` by no more than half the counter's range.
pub open spec fn tick_le(a: u64, b: u64) -> bool {
    a == b || tick_since(a, b) >= HALF_RANGE
}

/// Trusted: `ExtU64::secs` of fugit, reached through systick-monotonic, at a
/// duration base of one millisecond. There it multiplies the value by 1000 in
/// `u64`; inputs whose product would overflow are excluded.
#[verifier::external_body]
fn secs_to_ticks(secs: u64) -> (ticks: u64)
    requires
        secs * 1000 <= u64::MAX,
    ensures
        ticks == secs * 1000,
{
    let d: TimerDurationU64<TIMER_HZ> = secs.secs();
    d.ticks()
}

/// Trusted: `ExtU64::millis` of fugit, reached through systick-monotonic, at
/// a duration base of one millisecond, where it is the identity on the value.
#[verifier::external_body]
fn millis_to_ticks(millis: u64) -> (ticks: u64)
    ensures
        ticks == millis,
{
    let d: TimerDurationU64<TIMER_HZ> = millis.millis();
    d.ticks()
}

/// Trusted: the `+` of a fugit `Instant` and a `Duration` of the same base,
/// which adds the tick counts with wraparound and never fails.
#[verifier::external_body]
fn instant_add(t: u64, delay: u64) -> (sum: u64)
    ensures
        sum == tick_add(t, delay),
{
    let at = TimerInstantU64::<TIMER_HZ>::from_ticks(t)
        + TimerDurationU64::<TIMER_HZ>::from_ticks(delay);
    at.ticks()
}

/// Trusted: the `<=` of two fugit `Instant`s. Its ordering takes the wrapped
/// difference `a - b`: equal ticks are equal, a difference above half the
/// range means `a` is earlier, one of exactly half the range counts as equal.
#[verifier::external_body]
fn instant_le(a: u64, b: u64) -> (le: bool)
    ensures
        le == tick_le(a, b),
{
    TimerInstantU64::<TIMER_HZ>::from_ticks(a) <= TimerInstantU64::<TIMER_HZ>::from_ticks(b)
}

/// The length of `n` seconds in ticks.
pub fn secs(n: u64) -> (ticks: u64)
    requires
        n * 1000 <= u64::MAX,
    ensures
        ticks == n * 1000,
{
    secs_to_ticks(n)
}

/// The length of `n` milliseconds in ticks.
pub fn millis(n: u64) -> (ticks: u64)
    ensures
        ticks == n,
{
    millis_to_ticks(n)
}

/// A value of the monotonic clock: a count of ticks that wraps at 64 bits.
///
/// Instants are not ordered by their counts but by their wrapped distance, so
/// that an instant shortly after a wraparound still counts as later than one
/// shortly before it.
#[derive(Clone, Copy, PartialEq, Eq, Debug, Structural)]
pub struct Tick {
    /// The count of ticks since the clock started, modulo the counter's range.
    pub ticks: u64,
}

impl Tick {
    /// The instant `delay` ticks after this one.
    pub open spec fn spec_after(self, delay: u64) -> Tick {
        Tick { ticks: tick_add(self.ticks, delay) }
    }

    /// Whether this instant lies at or before `now`.
    pub open spec fn spec_reached_by(self, now: Tick) -> bool {
        tick_le(self.ticks, now.ticks)
    }

    /// The ticks elapsed from `earlier` up to this instant.
    pub open spec fn spec_since(self, earlier: Tick) -> u64 {
        tick_since(self.ticks, earlier.ticks)
    }

    /// The ticks left from this instant until `at`: none once `at` is reached.
    pub open spec fn spec_until(self, at: Tick) -> u64 {
        if at.spec_reached_by(self) {
            0
        } else {
            at.spec_since(self)
        }
    }

    /// The instant with the given tick count.
    pub fn from_ticks(ticks: u64) -> (t: Tick)
        ensures
            t.ticks == ticks,
    {
        Tick { ticks }
    }

    /// The instant at which the clock starts.
    pub fn zero() -> (t: Tick)
        ensures
            t.ticks == 0,
    {
        Tick { ticks: 0 }
    }

    /// The tick count of this instant.
    pub fn ticks(self) -> (n: u64)
        ensures
            n == self.ticks,
    {
        self.ticks
    }

    /// The instant `delay` ticks after this one, wrapping at the counter's width.
    #[verifier::when_used_as_spec(spec_after)]
    pub fn after(self, delay: u64) -> (t: Tick)
        ensures
            t == self.spec_after(delay),
    {
        Tick { ticks: instant_add(self.ticks, delay) }
    }

    /// Whether this instant lies at or before `now`, wraparound taken into account.
    #[verifier::when_used_as_spec(spec_reached_by)]
    pub fn reached_by(self, now: Tick) -> (reached: bool)
        ensures
            reached == self.spec_reached_by(now),
    {
        instant_le(self.ticks, now.ticks)
    }

    /// The ticks elapsed from `earlier` up to this instant, wrapping at the
    /// counter's width.
    #[verifier::when_used_as_spec(spec_since)]
    pub fn since(self, earlier: Tick) -> (elapsed: u64)
        ensures
            elapsed == self.spec_since(earlier),
    {
        self.ticks.wrapping_sub(earlier.ticks)
    }

    /// The ticks left from this instant until `at`, zero once `at` is reached.
    #[verifier::when_used_as_spec(spec_until)]
    pub fn until(self, at: Tick) -> (left: u64)
        ensures
            left == self.spec_until(at),
    {
        if at.reached_by(self) {
            0
        } else {
            at.since(self)
        }
    }
}

/// Instants compare correctly across the wraparound boundary: a deadline
/// `delay` ticks after `start` is reached by the instant `elapsed` ticks after
/// `start` exactly when `elapsed` is at least `delay`, wherever `start` lies
/// and even where either addition wraps. This holds as long as the two
/// instants lie about half the counter's range apart at most: the deadline
/// ahead of the reading by less than half the range, or behind it by no more
/// than half the range and two ticks. Farther apart the order turns round.
pub proof fn lemma_order_across_wraparound(start: Tick, delay: u64, elapsed: u64)
    requires
        delay > elapsed ==> delay - elapsed < HALF_RANGE,
        delay <= elapsed ==> elapsed - delay <= HALF_RANGE + 2,
    ensures
        start.after(delay).reached_by(start.after(elapsed)) <==> delay <= elapsed,
{
}

/// The clock as the scheduler sees it: the latest reading of the free-running
/// tick counter, and the deadline for which a wakeup is armed.
///
/// A value of this type exists only once the tick source has been set up, so
/// no time-dependent operation can run before that.
pub struct MonotonicClock {
    now: Tick,
    wakeup: Option<Tick>,
}

/// The deadline that stays armed when a wakeup at `at` is asked for while
/// `armed` is already set: the one with fewer ticks left from `now`, the
/// earlier request winning a tie.
pub open spec fn nearer_wakeup(now: Tick, armed: Option<Tick>, at: Tick) -> Tick {
    match armed {
        Some(w) => if now.until(w) <= now.until(at) {
            w
        } else {
            at
        },
        None => at,
    }
}

impl MonotonicClock {
    /// The latest reading.
    pub closed spec fn spec_now(&self) -> Tick {
        self.now
    }

    /// The armed deadline, if any.
    pub closed spec fn spec_wakeup(&self) -> Option<Tick> {
        self.wakeup
    }

    /// A clock that starts at `start` with no wakeup armed.
    pub fn starting_at(start: Tick) -> (clock: MonotonicClock)
        ensures
            clock.now() == start,
            clock.wakeup().is_none(),
    {
        MonotonicClock { now: start, wakeup: None }
    }

    /// The current logical time.
    #[verifier::when_used_as_spec(spec_now)]
    pub fn now(&self) -> (t: Tick)
        ensures
            t == self.spec_now(),
    {
        self.now
    }

    /// The deadline for which a wakeup is armed.
    #[verifier::when_used_as_spec(spec_wakeup)]
    pub fn wakeup(&self) -> (w: Option<Tick>)
        ensures
            w == self.spec_wakeup(),
    {
        self.wakeup
    }

    /// Takes a reading of the tick counter. The clock never runs backwards:
    /// a reading that lies before the current time is dropped.
    pub fn advance_to(&mut self, reading: Tick) -> (accepted: bool)
        ensures
            accepted == old(self).now().reached_by(reading),
            final(self).now() == if accepted {
                reading
            } else {
                old(self).now()
            },
            final(self).wakeup() == old(self).wakeup(),
            old(self).now().reached_by(final(self).now()),
    {
        if self.now.reached_by(reading) {
            self.now = reading;
            true
        } else {
            false
        }
    }

    /// Arms a wakeup no later than `at`. A deadline that is already armed and
    /// nearer stays in place.
    pub fn schedule_wakeup(&mut self, at: Tick)
        ensures
            final(self).now() == old(self).now(),
            final(self).wakeup() == Some(nearer_wakeup(old(self).now(), old(self).wakeup(), at)),
    {
        let keep = match self.wakeup {
            Some(w) => self.now.until(w) <= self.now.until(at),
            None => false,
        };
        if !keep {
            self.wakeup = Some(at);
        }
    }

    /// Disarms the wakeup.
    pub fn cancel_wakeup(&mut self)
        ensures
            final(self).now() == old(self).now(),
            final(self).wakeup().is_none(),
    {
        self.wakeup = None;
    }

    /// Whether the armed deadline has been reached.
    pub fn wakeup_due(&self) -> (due: bool)
        ensures
            due == match self.wakeup() {
                Some(w) => w.reached_by(self.now()),
                None => false,
            },
    {
        match self.wakeup {
            Some(w) => w.reached_by(self.now),
            None => false,
        }
    }
}

} // verus!
