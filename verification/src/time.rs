//! The interval timer as a count of milliseconds, and the clocks that the
//! kernel calibrates.

use vstd::prelude::*;
use crate::ints::pic::PortWrite;

pub mod kvm;
pub mod lapic;
pub mod pit;

verus! {

/// Oscillations a second of the interval timer.
pub const PIT_FREQUENCY: u32 = 1193182;

/// Command port of the interval timer.
pub const PIT_COMMAND: u16 = 0x43;

/// Data port of channel 0.
pub const PIT_CHANNEL0: u16 = 0x40;

/// Command: channel 0, low byte then high byte, rate generator.
pub const PIT_RATE_GENERATOR: u8 = 0x34;

/// A write to a port of the interval timer: a byte, or a word of 32 bits.
#[derive(Debug, Clone, Copy, PartialEq, Eq, Structural)]
pub struct PitWrite {
    pub port: u16,
    pub value: u32,
    /// Whether 32 bits are written.
    pub wide: bool,
}

/// The milliseconds that the interval timer has counted. The count starts
/// over after the largest number.
#[derive(Debug, Clone, Copy, PartialEq, Eq, Structural)]
pub struct PitClock {
    pub elapsed_ms: u64,
}

/// The writes that make the interval timer tick once a millisecond: the
/// command, then the low and the high byte of its frequency over a
/// thousand.
pub fn init() -> (w: Vec<PitWrite>)
    ensures
        w@ == seq![
            PitWrite { port: PIT_COMMAND, value: 0x34, wide: false },
            PitWrite { port: PIT_CHANNEL0, value: 0xA9, wide: true },
            PitWrite { port: PIT_CHANNEL0, value: 0x04, wide: true },
        ],
{
    let divisor: u32 = PIT_FREQUENCY / 1000;
    assert(1193u32 & 0xFF == 0xA9 && 1193u32 >> 8 == 0x04) by (bit_vector);
    let mut w = Vec::new();
    w.push(PitWrite { port: PIT_COMMAND, value: PIT_RATE_GENERATOR as u32, wide: false });
    w.push(PitWrite { port: PIT_CHANNEL0, value: divisor & 0xFF, wide: true });
    w.push(PitWrite { port: PIT_CHANNEL0, value: divisor >> 8, wide: true });
    assert(w@ =~= seq![
        PitWrite { port: PIT_COMMAND, value: 0x34, wide: false },
        PitWrite { port: PIT_CHANNEL0, value: 0xA9, wide: true },
        PitWrite { port: PIT_CHANNEL0, value: 0x04, wide: true },
    ]);
    w
}

/// What a tick makes of the count.
pub open spec fn ticked(ms: u64) -> u64 {
    if ms == u64::MAX {
        0
    } else {
        (ms + 1) as u64
    }
}

/// Counts one millisecond.
pub fn pit_tick(clock: &mut PitClock)
    ensures
        final(clock).elapsed_ms == ticked(old(clock).elapsed_ms),
{
    clock.elapsed_ms = if clock.elapsed_ms == u64::MAX {
        0
    } else {
        clock.elapsed_ms + 1
    };
}

/// The milliseconds counted.
pub fn current_pit_ticks(clock: &PitClock) -> (r: u64)
    ensures
        r == clock.elapsed_ms,
{
    clock.elapsed_ms
}

/// The interrupt of the interval timer: counts one millisecond and hands
/// back the writes that acknowledge line 0.
pub fn timer_interrupt_handler(clock: &mut PitClock) -> (w: Vec<PortWrite>)
    ensures
        final(clock).elapsed_ms == ticked(old(clock).elapsed_ms),
        w@ == seq![
            PortWrite { port: crate::ints::pic::PIC1_COMMAND, value: crate::ints::pic::PIC_EOI },
        ],
{
    pit_tick(clock);
    crate::ints::pic::send_eoi(0)
}

/// Whether a wait of `ms` milliseconds that began at the count `start` is
/// over at the count `now`.
pub fn busywait(start: u64, now: u64, ms: u64) -> (over: bool)
    requires
        start <= now,
    ensures
        over == (now - start >= ms),
{
    now - start >= ms
}

} // verus!
