//! The interval timer as one of the clocks.

use vstd::prelude::*;
use crate::arch::time::{elapsed_time_pretty, pretty_bytes, Timer, TimerKind, NS_PER_MS};
use crate::time::{PitClock, PitWrite};

verus! {

/// Priority of the interval timer among the clocks: the last resort.
pub const PIT_PRIORITY: u8 = 255;

/// The interval timer as a clock.
pub open spec fn pit_timer() -> Timer {
    Timer {
        kind: TimerKind::PIT,
        start: 0,
        frequency: 1000,
        supported: true,
        priority: PIT_PRIORITY,
        offset: 0,
    }
}

/// The writes that make the interval timer tick once a millisecond, and
/// the interval timer as a clock to register. The caller lets line 0
/// through.
pub fn init() -> (r: (Vec<PitWrite>, Timer))
    ensures
        r.0@ == seq![
            PitWrite { port: crate::time::PIT_COMMAND, value: 0x34, wide: false },
            PitWrite { port: crate::time::PIT_CHANNEL0, value: 0xA9, wide: true },
            PitWrite { port: crate::time::PIT_CHANNEL0, value: 0x04, wide: true },
        ],
        r.1 == pit_timer(),
{
    (crate::time::init(), Timer::new(TimerKind::PIT, 0, 1000, true, PIT_PRIORITY, 0))
}

/// The time counted, as text.
pub fn elapsed_pretty(clock: &PitClock, digits: u32) -> (s: String)
    requires
        digits <= 9,
        clock.elapsed_ms * NS_PER_MS <= u64::MAX,
    ensures
        vstd::utf8::encode_utf8(s@) == pretty_bytes((clock.elapsed_ms * NS_PER_MS) as u64, digits),
{
    elapsed_time_pretty(clock.elapsed_ms * NS_PER_MS, digits)
}

} // verus!
