//! What the boot loader hands over, as far as the kernel computes with it.

use vstd::prelude::*;

verus! {

/// What the boot loader hands over once, at boot.
#[derive(Debug, Clone, Copy, PartialEq, Eq, Structural)]
pub struct BootInfo {
    /// Offset of the window through which all physical memory is
    /// reachable.
    pub hhdm_offset: u64,
    /// Address of the root table of the firmware, as the boot loader
    /// gives it.
    pub rsdp: usize,
    /// Physical address at which the kernel was loaded.
    pub executable_phys: u64,
    /// Virtual address at which the kernel runs.
    pub executable_virt: u64,
    /// Size in bytes of the kernel.
    pub executable_size: u64,
    /// Address of the device tree, if there is one.
    pub device_tree: Option<usize>,
}

impl BootInfo {
    pub fn get_hhdm_offset(&self) -> (r: u64)
        ensures
            r == self.hhdm_offset,
    {
        self.hhdm_offset
    }

    /// The physical address of the root table of the firmware: what the
    /// boot loader gives, taken out of the window if it lies in it.
    pub fn get_rsdp_address(&self) -> (r: usize)
        ensures
            r == rsdp_physical(self.rsdp, self.hhdm_offset),
    {
        let window = self.hhdm_offset as usize;
        if self.rsdp < window {
            self.rsdp
        } else {
            self.rsdp - window
        }
    }

    pub fn get_device_tree(&self) -> (r: Option<usize>)
        ensures
            r == self.device_tree,
    {
        self.device_tree
    }
}

/// The physical address behind `rsdp`, which may lie in the window at
/// `hhdm`. The offset counts as much of it as an address can hold.
pub open spec fn rsdp_physical(rsdp: usize, hhdm: u64) -> usize {
    if rsdp < hhdm as usize {
        rsdp
    } else {
        (rsdp - hhdm as usize) as usize
    }
}

} // verus!
