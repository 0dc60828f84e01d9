//! The time-stamp counter as a time source: its frequency, once it is known,
//! and the conversion from nanoseconds to ticks.

use vstd::prelude::*;

use crate::cpuid::{has_invariant_tsc, reportable, tsc_hz};

verus! {

/// Nanoseconds in a second.
pub const NANOS_PER_SEC: u64 = 1_000_000_000;

/// The time-stamp counter with the frequency that was found for it; zero
/// stands for a frequency that is not known.
#[derive(Clone, Copy, Debug)]
pub struct TscTimer {
    hz: u64,
}

impl TscTimer {
    /// The frequency in hertz, if it is known.
    pub closed spec fn spec_hz(&self) -> Option<u64> {
        if self.hz == 0 {
            None
        } else {
            Some(self.hz)
        }
    }

    /// A time-stamp counter whose frequency is not known.
    pub fn new() -> (r: TscTimer)
        ensures
            r.spec_hz() is None,
    {
        TscTimer { hz: 0 }
    }

    /// The frequency in hertz, if it is known.
    #[verifier::when_used_as_spec(spec_hz)]
    pub fn hz(&self) -> (r: Option<u64>)
        ensures
            r == self.spec_hz(),
    {
        if self.hz == 0 {
            None
        } else {
            Some(self.hz)
        }
    }

    /// Records what processor identification found. Without an invariant
    /// counter there is no time source and the frequency is forgotten; with
    /// one the frequency is the reported one, unknown if none or zero was
    /// reported. Returns whether there is a time source.
    pub fn configure(&mut self, steady: bool, reported_hz: Option<u64>) -> (r: bool)
        ensures
            r == steady,
            final(self).spec_hz() == if steady && reported_hz is Some && reported_hz.unwrap()
                != 0 {
                reported_hz
            } else {
                None
            },
    {
        if !steady {
            self.hz = 0;
            return false;
        }
        self.hz = match reported_hz {
            Some(h) => h,
            None => 0,
        };
        true
    }
}

/// Finds out whether the time-stamp counter can serve as the time source and
/// records its frequency in `timer`, whatever `timer` held before. Without a
/// time source the frequency is unknown afterwards. With one it is unknown
/// or a frequency that the processor's leaves can report; which, the
/// machine decides.
pub fn init_time_source(timer: &mut TscTimer) -> (r: bool)
    ensures
        !r ==> final(timer).spec_hz() is None,
        final(timer).spec_hz() matches Some(hz) ==> r && hz != 0 && reportable(hz),
{
    let steady = has_invariant_tsc();
    let reported = if steady {
        tsc_hz()
    } else {
        None
    };
    timer.configure(steady, reported)
}

/// The number of ticks that `ns` nanoseconds take at `hz` ticks a second:
/// the product, capped at 64 bits, divided by the nanoseconds in a second.
pub open spec fn ticks_in(ns: u64, hz: u64) -> u64 {
    if ns * hz > u64::MAX {
        (u64::MAX / NANOS_PER_SEC) as u64
    } else {
        ((ns * hz) / (NANOS_PER_SEC as int)) as u64
    }
}

/// The product of `a` and `b`, capped at 64 bits.
pub fn saturating_product(a: u64, b: u64) -> (r: u64)
    ensures
        r == if a * b > u64::MAX {
            u64::MAX
        } else {
            (a * b) as u64
        },
{
    match a.checked_mul(b) {
        Some(p) => p,
        None => u64::MAX,
    }
}

/// Converts nanoseconds to ticks of the time-stamp counter, if its frequency
/// is known.
pub fn ticks_from_ns(timer: &TscTimer, ns: u64) -> (r: Option<u64>)
    ensures
        r == match timer.spec_hz() {
            Some(hz) => Some(ticks_in(ns, hz)),
            None => None,
        },
{
    match timer.hz() {
        Some(hz) => Some(saturating_product(ns, hz) / NANOS_PER_SEC),
        None => None,
    }
}

} // verus!
