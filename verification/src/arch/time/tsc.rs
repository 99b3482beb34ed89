//! The time stamp counter as a clock.

use vstd::prelude::*;
use crate::arch::time::{Timer, TimerKind};

verus! {

/// Priority of the time stamp counter among the clocks.
pub const TSC_PRIORITY: u8 = 10;

/// Number of measurements of the frequency.
pub const SAMPLES: usize = 3;

/// One measurement: the time stamp counter and the milliseconds of another
/// clock, before and after a wait.
#[derive(Debug, Clone, Copy, PartialEq, Eq, Structural)]
pub struct TscSample {
    pub start_cycles: u64,
    pub start_ticks: u64,
    pub end_cycles: u64,
    pub end_ticks: u64,
}

impl TscSample {
    /// A measurement from which a frequency follows: time has passed and
    /// the counter has not gone backwards.
    pub open spec fn usable(self) -> bool {
        self.end_ticks > self.start_ticks && self.end_cycles >= self.start_cycles
    }

    /// Cycles a second: the cycles a millisecond, as a whole number, times
    /// a thousand.
    pub open spec fn rate(self) -> int {
        ((self.end_cycles - self.start_cycles) / (self.end_ticks - self.start_ticks)) * 1000
    }
}

/// The frequency of the processor in cycles a second: what the KVM clock
/// says where there is one, else the mean of three measurements as a
/// whole number. `None` where a measurement is not usable or the sum of
/// the rates does not fit in 64 bits.
pub fn measure_cpu_frequency(kvm: Option<u64>, samples: &[TscSample; 3]) -> (r: Option<u64>)
    ensures
        kvm is Some ==> r == kvm,
        kvm is None ==> (r is Some <==> samples@[0].usable() && samples@[1].usable()
            && samples@[2].usable() && samples@[0].rate() + samples@[1].rate() + samples@[2].rate()
            <= u64::MAX),
        kvm is None && r is Some ==> r->0 == (samples@[0].rate() + samples@[1].rate()
            + samples@[2].rate()) / 3,
{
    match kvm {
        Some(f) => {
            return Some(f);
        },
        None => {},
    }
    let mut total: u64 = 0;
    let mut i: usize = 0;
    while i < 3
        invariant
            kvm is None,
            i <= 3,
            forall|j: int| 0 <= j < i ==> samples@[j].usable(),
            total == if i == 0 {
                0
            } else if i == 1 {
                samples@[0].rate()
            } else if i == 2 {
                samples@[0].rate() + samples@[1].rate()
            } else {
                samples@[0].rate() + samples@[1].rate() + samples@[2].rate()
            },
            forall|j: int| 0 <= j < 3 && samples@[j].usable() ==> samples@[j].rate() >= 0,
        decreases 3 - i,
    {
        let s = samples[i];
        if s.end_ticks <= s.start_ticks || s.end_cycles < s.start_cycles {
            return None;
        }
        let per_tick = (s.end_cycles - s.start_cycles) / (s.end_ticks - s.start_ticks);
        if per_tick > u64::MAX / 1000 {
            return None;
        }
        let rate = per_tick * 1000;
        if total > u64::MAX - rate {
            return None;
        }
        total = total + rate;
        i = i + 1;
    }
    Some(total / 3)
}

/// The time stamp counter as a clock of frequency `frequency` that was
/// set up when the counter showed `now`.
pub fn init(frequency: u64, now: u64) -> (t: Timer)
    ensures
        t == (Timer {
            kind: TimerKind::TSC,
            start: now,
            frequency,
            supported: true,
            priority: TSC_PRIORITY,
            offset: 0,
        }),
{
    Timer::new(TimerKind::TSC, now, frequency, true, TSC_PRIORITY, 0)
}

} // verus!
