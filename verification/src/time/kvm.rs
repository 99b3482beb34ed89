//! The clock that KVM offers its guests.

use vstd::prelude::*;
use crate::arch::time::{Timer, TimerKind};
use crate::utils::cpu::CpuidResult;

verus! {

/// The model specific register through which the guest names the table.
pub const MSR_SYSTEM_TIME: u32 = 0x4b564d01;

/// Bit of the features leaf: the clock is offered.
pub const FEATURE_CLOCKSOURCE2: u32 = 0x8;

/// Priority of the KVM clock among the clocks: the first choice.
pub const KVM_PRIORITY: u8 = 0;

/// The table that the host keeps up to date.
#[derive(Debug, Clone, Copy)]
pub struct PvClockVcpuTimeInfo {
    pub version: u32,
    pub pad0: u32,
    pub tsc_timestamp: u64,
    pub system_time: u64,
    pub tsc_to_system_mul: u32,
    pub tsc_shift: i8,
    pub flags: u8,
    pub pad: [u8; 2],
}

impl PvClockVcpuTimeInfo {
    /// The table with every field zero, the padding too: the table as it
    /// is before the host has written to it.
    pub fn new() -> (t: PvClockVcpuTimeInfo)
        ensures
            t.version == 0,
            t.pad0 == 0,
            t.tsc_timestamp == 0,
            t.system_time == 0,
            t.tsc_to_system_mul == 0,
            t.tsc_shift == 0,
            t.flags == 0,
            t.pad@ == seq![0u8, 0u8],
    {
        let t = PvClockVcpuTimeInfo {
            version: 0,
            pad0: 0,
            tsc_timestamp: 0,
            system_time: 0,
            tsc_to_system_mul: 0,
            tsc_shift: 0,
            flags: 0,
            pad: [0u8; 2],
        };
        assert(t.pad@ =~= seq![0u8, 0u8]);
        t
    }

    /// The cycles since the table was written, shifted as the table says.
    pub open spec fn scaled(&self, tsc: u64) -> u128 {
        let delta = (tsc - self.tsc_timestamp) as u128;
        if self.tsc_shift >= 0 {
            delta << (self.tsc_shift as u128)
        } else {
            delta >> ((-self.tsc_shift) as u128)
        }
    }

    /// The system time in nanoseconds when the time stamp counter shows
    /// `tsc`: the scaled cycles times the multiplier, over two to the 32,
    /// after the system time of the table.
    pub open spec fn time_at(&self, tsc: u64) -> int {
        (self.scaled(tsc) * self.tsc_to_system_mul) / 0x1_0000_0000 + self.system_time
    }

    /// The readings for which the table gives a time: not before the
    /// table was written, and with a time that fits in 64 bits.
    pub open spec fn covers(&self, tsc: u64) -> bool {
        &&& tsc >= self.tsc_timestamp
        &&& self.tsc_shift > -128
        &&& self.time_at(tsc) <= u64::MAX
    }

    /// The system time in nanoseconds when the time stamp counter shows
    /// `tsc`.
    pub fn system_time_at(&self, tsc: u64) -> (r: u64)
        requires
            self.covers(tsc),
        ensures
            r == self.time_at(tsc),
    {
        let delta: u128 = (tsc - self.tsc_timestamp) as u128;
        let shift = self.tsc_shift;
        let scaled: u128 = if shift >= 0 {
            delta << (shift as u128)
        } else {
            delta >> ((-shift) as u128)
        };
        let mul = self.tsc_to_system_mul as u128;
        assert(scaled * mul <= u128::MAX) by (nonlinear_arith)
            requires
                (scaled * mul) / 0x1_0000_0000 <= u64::MAX,
                mul >= 0,
                scaled >= 0,
        ;
        let product: u128 = scaled * mul;
        let high: u128 = product >> 32;
        assert(high == product / 0x1_0000_0000) by (bit_vector)
            requires
                high == product >> 32,
        ;
        (high + self.system_time as u128) as u64
    }

    /// The system time in nanoseconds when the time stamp counter shows
    /// `tsc`; `None` for a reading that the table does not cover.
    pub fn try_system_time_at(&self, tsc: u64) -> (r: Option<u64>)
        ensures
            r is Some <==> self.covers(tsc),
            r is Some ==> r->0 == self.time_at(tsc),
    {
        if tsc < self.tsc_timestamp || self.tsc_shift == -128 {
            return None;
        }
        let delta: u128 = (tsc - self.tsc_timestamp) as u128;
        let shift = self.tsc_shift;
        let scaled: u128 = if shift >= 0 {
            delta << (shift as u128)
        } else {
            delta >> ((-shift) as u128)
        };
        let mul = self.tsc_to_system_mul as u128;
        if mul != 0 && scaled > 0xFFFF_FFFF_FFFF_FFFF_FFFF_FFFFu128 / mul {
            proof {
                assert((scaled * mul) / 0x1_0000_0000 > u64::MAX) by (nonlinear_arith)
                    requires
                        mul > 0,
                        mul <= 0xFFFF_FFFF,
                        scaled > 0xFFFF_FFFF_FFFF_FFFF_FFFF_FFFFu128 / mul,
                ;
            }
            return None;
        }
        assert(scaled * mul <= 0xFFFF_FFFF_FFFF_FFFF_FFFF_FFFFu128) by (nonlinear_arith)
            requires
                mul >= 0,
                scaled >= 0,
                mul == 0 || scaled <= 0xFFFF_FFFF_FFFF_FFFF_FFFF_FFFFu128 / mul,
        ;
        let product: u128 = scaled * mul;
        let high: u128 = product >> 32;
        assert(high == product / 0x1_0000_0000) by (bit_vector)
            requires
                high == product >> 32,
        ;
        if high > (u64::MAX - self.system_time) as u128 {
            return None;
        }
        Some((high + self.system_time as u128) as u64)
    }

    /// The frequency of the time stamp counter in cycles a second, as the
    /// table implies it.
    pub open spec fn frequency(&self) -> u64 {
        let f = (0x3B9A_CA00_0000_0000u64 / (self.tsc_to_system_mul as u64)) as u64;
        if self.tsc_shift < 0 {
            f << ((-self.tsc_shift) as u64)
        } else {
            f >> (self.tsc_shift as u64)
        }
    }
}

/// Whether the KVM clock is offered: KVM has described itself, at the
/// leaf `base`, and bit 3 of its features leaf is set.
pub fn supported(base: u32, features: &CpuidResult) -> (r: bool)
    ensures
        r == (base != 0 && features.eax & FEATURE_CLOCKSOURCE2 != 0),
{
    base != 0 && (features.eax & FEATURE_CLOCKSOURCE2) != 0
}

/// The frequency of the time stamp counter in cycles a second: a billion
/// times two to the 32 over the multiplier of the table, shifted against
/// the shift of the table.
pub fn tsc_freq(table: &PvClockVcpuTimeInfo) -> (r: u64)
    requires
        table.tsc_to_system_mul != 0,
        -64 < table.tsc_shift < 64,
    ensures
        r == table.frequency(),
{
    let f: u64 = 0x3B9A_CA00_0000_0000u64 / (table.tsc_to_system_mul as u64);
    if table.tsc_shift < 0 {
        f << ((-table.tsc_shift) as u64)
    } else {
        f >> (table.tsc_shift as u64)
    }
}

/// What setting the clock up takes.
#[derive(Debug, Clone, Copy, PartialEq, Eq, Structural)]
pub struct KvmSetup {
    /// The register to write.
    pub msr: u32,
    /// What to write to it: the physical address of the table, with the
    /// bit that turns the clock on.
    pub value: u64,
    /// The clock to register.
    pub timer: Timer,
}

/// Sets the KVM clock up, where it is offered: the table at the physical
/// address `table_phys` is named to the host, and the clock is registered
/// so that it shows, at the system time `now`, the milliseconds `ticks`
/// of the interval timer over a million.
pub fn init(is_supported: bool, table_phys: u64, now: u64, ticks: u64) -> (r: Option<KvmSetup>)
    requires
        now >= ticks / 1_000_000,
    ensures
        r is Some <==> is_supported,
        r is Some ==> {
            &&& r->0.msr == MSR_SYSTEM_TIME
            &&& r->0.value == table_phys | 1
            &&& r->0.timer == (Timer {
                kind: TimerKind::KVM,
                start: 0,
                frequency: 1,
                supported: true,
                priority: KVM_PRIORITY,
                offset: (now - ticks / 1_000_000) as u64,
            })
        },
{
    if !is_supported {
        return None;
    }
    let mut timer = Timer::new(TimerKind::KVM, 0, 1, true, KVM_PRIORITY, 0);
    timer.set_offset(now - ticks / 1_000_000);
    Some(KvmSetup { msr: MSR_SYSTEM_TIME, value: table_phys | 1, timer })
}

} // verus!
