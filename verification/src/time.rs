//! The kernel's periodic tick: a timer capability and the rule that arms the
//! next tick on it.

use vstd::prelude::*;

use crate::tsc::{saturating_product, ticks_in, NANOS_PER_SEC};

verus! {

/// Length of one tick in nanoseconds.
pub const TICK_NS: u64 = 10_000_000;

/// A timer that counts ticks at a fixed frequency and can be armed to fire
/// once at a deadline.
pub trait TimerOps {
    /// The frequency in hertz; zero if it is not known.
    spec fn hz(&self) -> u64;

    /// The deadline that the timer is armed for, if it is armed.
    spec fn armed(&self) -> Option<u64>;

    /// The current count of ticks.
    fn now_ticks(&self) -> (r: u64)
    ;

    /// The frequency in hertz; zero if it is not known.
    fn frequency_hz(&self) -> (r: u64)
        ensures
            r == self.hz(),
    ;

    /// Arms the timer to fire once when the count reaches `deadline_ticks`.
    fn arm_one_shot(&mut self, deadline_ticks: u64)
        ensures
            final(self).armed() == Some(deadline_ticks),
            final(self).hz() == old(self).hz(),
    ;
}

/// The deadline of the next tick for a timer at `hz` hertz that reads `now`:
/// one tick length after `now`, wrapping at 64 bits. There is none when the
/// frequency is unknown or a tick is shorter than one count.
pub open spec fn spec_next_deadline(hz: u64, now: u64) -> Option<u64> {
    if hz == 0 || ticks_in(TICK_NS, hz) == 0 {
        None
    } else {
        Some(((now + ticks_in(TICK_NS, hz)) % 0x1_0000_0000_0000_0000) as u64)
    }
}

/// The deadline of the next tick for a timer at `hz` hertz that reads `now`.
#[verifier::when_used_as_spec(spec_next_deadline)]
pub fn next_deadline(hz: u64, now: u64) -> (r: Option<u64>)
    ensures
        r == spec_next_deadline(hz, now),
{
    if hz == 0 {
        return None;
    }
    let ticks = saturating_product(TICK_NS, hz) / NANOS_PER_SEC;
    if ticks == 0 {
        return None;
    }
    Some(now.wrapping_add(ticks))
}

/// Arms `timer` for the next tick, one tick length after its current count.
/// Leaves it alone when its frequency is unknown or a tick is shorter than
/// one count.
pub fn arm_next_tick<T: TimerOps>(timer: &mut T)
    ensures
        final(timer).hz() == old(timer).hz(),
        old(timer).hz() == 0 || ticks_in(TICK_NS, old(timer).hz()) == 0 ==> final(timer).armed()
            == old(timer).armed(),
        old(timer).hz() != 0 && ticks_in(TICK_NS, old(timer).hz()) != 0
            ==> final(timer).armed() is Some,
{
    let hz = timer.frequency_hz();
    if hz == 0 {
        return ;
    }
    if saturating_product(TICK_NS, hz) / NANOS_PER_SEC == 0 {
        return ;
    }
    let now = timer.now_ticks();
    match next_deadline(hz, now) {
        Some(deadline) => timer.arm_one_shot(deadline),
        None => {},
    }
}

/// Starts the periodic tick by arming the first one.
pub fn init<T: TimerOps>(timer: &mut T)
    ensures
        final(timer).hz() == old(timer).hz(),
        old(timer).hz() == 0 || ticks_in(TICK_NS, old(timer).hz()) == 0 ==> final(timer).armed()
            == old(timer).armed(),
        old(timer).hz() != 0 && ticks_in(TICK_NS, old(timer).hz()) != 0
            ==> final(timer).armed() is Some,
{
    arm_next_tick(timer);
}

/// Handles a tick by arming the next one.
pub fn on_timer_tick<T: TimerOps>(timer: &mut T)
    ensures
        final(timer).hz() == old(timer).hz(),
        old(timer).hz() == 0 || ticks_in(TICK_NS, old(timer).hz()) == 0 ==> final(timer).armed()
            == old(timer).armed(),
        old(timer).hz() != 0 && ticks_in(TICK_NS, old(timer).hz()) != 0
            ==> final(timer).armed() is Some,
{
    arm_next_tick(timer);
}

/// A timer whose count is set by hand.
pub struct ManualTimer {
    pub hz: u64,
    pub now: u64,
    pub deadline: Option<u64>,
}

impl TimerOps for ManualTimer {
    open spec fn hz(&self) -> u64 {
        self.hz
    }

    open spec fn armed(&self) -> Option<u64> {
        self.deadline
    }

    fn now_ticks(&self) -> (r: u64)
        ensures
            r == self.now,
    {
        self.now
    }

    fn frequency_hz(&self) -> (r: u64) {
        self.hz
    }

    fn arm_one_shot(&mut self, deadline_ticks: u64)
        ensures
            final(self).now == old(self).now,
    {
        self.deadline = Some(deadline_ticks);
    }
}

} // verus!
