//! The timer of the local interrupt controller, which ends the quantum.

use vstd::prelude::*;
use crate::mem::{map_accepts, Pagemap, PhysMemory, RW, SMALL};

verus! {

/// Model specific register that holds the address of the controller.
pub const APIC_BASE: u32 = 0x1B;

pub const TPR: u32 = 0x80;

pub const EOI: u32 = 0xB0;

pub const SIV: u32 = 0xF0;

pub const ICRL: u32 = 0x300;

pub const ICRH: u32 = 0x310;

pub const LVT: u32 = 0x320;

pub const TIC: u32 = 0x380;

pub const TCC: u32 = 0x390;

pub const TDC: u32 = 0x3E0;

pub const DEADLINE: u32 = 0x6E0;

/// Bit of the base register that turns the controller on.
pub const APIC_ENABLE: u64 = 0x800;

/// What the spurious vector register gets: the controller enabled in
/// software, and the vector 0xFF.
pub const SPURIOUS_VALUE: u32 = 0x1FF;

/// What the divide register gets for the calibration: divide by one.
pub const DIVIDE_BY_ONE: u32 = 0xB;

/// Milliseconds that each measurement of the calibration waits.
pub const CALIBRATION_MS: u64 = 10;

/// What to write to arm the timer.
#[derive(Debug, Clone, Copy, PartialEq, Eq, Structural)]
pub struct LapicArm {
    /// For the `LVT` register: the vector, one shot, not masked.
    pub lvt_value: u32,
    /// For the `TIC` register: the ticks to count down.
    pub ticks: u32,
}

/// What to write so that the timer, which ticks `frequency` times a
/// second, fires once on `vector` after `ns` nanoseconds: the ticks are
/// the whole number of ticks in that time, as far as 32 bits hold it.
pub fn arm(ns: usize, vector: u8, frequency: u64) -> (a: LapicArm)
    ensures
        a.lvt_value == vector,
        a.ticks == ((ns * frequency) / 1_000_000_000) % 0x1_0000_0000,
{
    let v = vector as u32;
    assert(v < 256 ==> v & !(3u32 << 17) == v) by (bit_vector);
    let lvt_value = v & !(3u32 << 17);
    assert((ns as u128) * (frequency as u128) <= u128::MAX) by (nonlinear_arith)
        requires
            ns <= u64::MAX,
            frequency <= u64::MAX,
    ;
    let ticks: u128 = ((ns as u128) * (frequency as u128)) / 1_000_000_000;
    LapicArm { lvt_value, ticks: (ticks % 0x1_0000_0000) as u32 }
}

/// The frequency that one measurement gives: the ticks that were counted
/// down from the largest count, in ten milliseconds, scaled to a second.
pub open spec fn measured(count: u32) -> int {
    (0xFFFF_FFFF - count) * 1000 / (CALIBRATION_MS as int)
}

/// The frequency of the timer: the mean of three measurements, each the
/// count that was left after ten milliseconds.
pub fn calibrate_timer(counts: &[u32; 3]) -> (frequency: u64)
    ensures
        frequency == (measured(counts@[0]) + measured(counts@[1]) + measured(counts@[2])) / 3,
{
    let a = (0xFFFF_FFFFu64 - counts[0] as u64) * 1000 / CALIBRATION_MS;
    let b = (0xFFFF_FFFFu64 - counts[1] as u64) * 1000 / CALIBRATION_MS;
    let c = (0xFFFF_FFFFu64 - counts[2] as u64) * 1000 / CALIBRATION_MS;
    (a + b + c) / 3
}

/// The address of register `reg` of the controller whose registers begin
/// at `mmio`.
pub fn register_address(mmio: u64, reg: u32) -> (r: u64)
    requires
        mmio + reg <= u64::MAX,
    ensures
        r == mmio + reg,
{
    mmio + reg as u64
}

/// What setting the controller up takes.
#[derive(Debug, Clone, Copy, PartialEq, Eq, Structural)]
pub struct LapicSetup {
    /// Physical address of the registers.
    pub phys_mmio: u64,
    /// Address at which the kernel reaches the registers.
    pub mmio: u64,
    /// What to write back to the base register: what it held, with the
    /// controller turned on.
    pub base_value: u64,
    /// What to write to the task priority register.
    pub tpr: u32,
    /// What to write to the spurious vector register.
    pub siv: u32,
}

/// Sets the controller up, given what its base register holds: its
/// registers, one page, are mapped into the kernel's address space
/// through the window at the offset of the arena. `None` where the page
/// cannot be mapped.
pub fn init(base: u64, mem: &mut PhysMemory, kernel_map: &mut Pagemap) -> (r: Option<LapicSetup>)
    requires
        old(mem).wf(),
    ensures
        final(mem).wf(),
        final(mem).grows_from(old(mem)),
        final(kernel_map).top_level == old(kernel_map).top_level,
        r is Some <==> {
            let phys = base & 0xFFFF_F000;
            let virt = phys + old(mem).hhdm();
            &&& virt <= u64::MAX
            &&& map_accepts(old(mem).hhdm(), virt as u64, phys, SMALL)
            &&& old(mem).tables_needed(old(kernel_map).top_level, virt as u64, 1) is Some
            &&& old(mem).can_alloc_n(
                old(mem).tables_needed(old(kernel_map).top_level, virt as u64, 1)->0,
            )
        },
        r is None ==> final(kernel_map).used_pages == old(kernel_map).used_pages && forall|
            rt: u64,
            v: u64,
        | #[trigger]
            final(mem).translation(rt, v) == old(mem).translation(rt, v),
        r is Some ==> {
            let s = r->0;
            &&& s.phys_mmio == base & 0xFFFF_F000
            &&& s.mmio == s.phys_mmio + old(mem).hhdm()
            &&& s.base_value == base | APIC_ENABLE
            &&& s.tpr == 0
            &&& s.siv == SPURIOUS_VALUE
            &&& forall|off: u64|
                off < 0x1000 ==> #[trigger] final(mem).translation(
                    old(kernel_map).top_level,
                    (s.mmio + off) as u64,
                ) == Some((s.phys_mmio + off) as u64)
        },
{
    let phys_mmio = base & 0xFFFF_F000;
    assert(phys_mmio <= 0xFFFF_F000) by (bit_vector)
        requires
            phys_mmio == base & 0xFFFF_F000,
    ;
    let hhdm = mem.hhdm_offset();
    if hhdm > u64::MAX - phys_mmio {
        return None;
    }
    let mmio = phys_mmio + hhdm;
    proof {
        assert(3u64 & 1 != 0 && 3u64 & 0x000F_FFFF_FFFF_F000 == 0) by (bit_vector);
    }
    if !kernel_map.map(mem, mmio, phys_mmio, RW, SMALL) {
        return None;
    }
    proof {
        assert forall|off: u64| off < 0x1000 implies #[trigger] mem.translation(
            old(kernel_map).top_level,
            (mmio + off) as u64,
        ) == Some((phys_mmio + off) as u64) by {
            crate::mem::lemma_aligned_mod(mmio);
            let v = (mmio + off) as u64;
            assert(mmio <= v && v - mmio < SMALL);
        }
    }
    Some(LapicSetup { phys_mmio, mmio, base_value: base | APIC_ENABLE, tpr: 0, siv: SPURIOUS_VALUE })
}

} // verus!
