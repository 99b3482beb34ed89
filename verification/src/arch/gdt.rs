//! Segment descriptors, the task state segment and the table that holds
//! them: flat code and data segments for ring 0 and ring 3, and the one
//! stack that the processor switches to when a trap raises the privilege
//! level.

use vstd::prelude::*;
use vstd::std_specs::convert::FromSpecImpl;
use vstd::bytes::{spec_u16_to_le_bytes, spec_u32_to_le_bytes, spec_u64_to_le_bytes};
use crate::utils::bytes::{push_le16, push_le32, push_le64};

verus! {

/// Size in bytes of the task state segment.
pub const TSS_SIZE: u32 = 104;

/// Size in bytes of the descriptor table: six descriptors of eight bytes
/// and one of sixteen.
pub const GDT_SIZE: u16 = 64;

/// What a segment register holds: the place of a descriptor in its table,
/// which of the two tables, and the privilege level asked for.
#[derive(Debug, Clone, Copy, PartialEq, Eq, Structural)]
pub struct SegmentSelector(pub u16);

impl SegmentSelector {
    /// The selector of descriptor `index` in the global (0) or local (1)
    /// table, asked for from `ring`.
    pub fn new(index: u16, table_indicator: u8, ring: u8) -> (s: SegmentSelector)
        ensures
            s.0 == (index << 3) | ((table_indicator as u16) << 2) | (ring as u16),
            index < 0x2000 && table_indicator < 2 && ring < 4 ==> s.0 == index * 8
                + table_indicator * 4 + ring,
    {
        let t = table_indicator as u16;
        let r = ring as u16;
        assert(index < 0x2000 && t < 2 && r < 4 ==> (index << 3) | (t << 2) | r == index * 8 + t * 4
            + r) by (bit_vector);
        SegmentSelector((index << 3) | (t << 2) | r)
    }
}

/// What the processor is told of the descriptor table: its last byte and
/// its address.
#[derive(Debug, Clone, Copy, PartialEq, Eq, Structural)]
pub struct GdtPtr {
    pub limit: u16,
    pub base: u64,
}

impl GdtPtr {
    /// The ten bytes of the pointer as they lie in memory.
    pub open spec fn bytes(self) -> Seq<u8> {
        spec_u16_to_le_bytes(self.limit) + spec_u64_to_le_bytes(self.base)
    }

    /// The ten bytes of the pointer as they lie in memory.
    pub fn to_bytes(&self) -> (b: Vec<u8>)
        ensures
            b@ == self.bytes(),
    {
        let mut b: Vec<u8> = Vec::new();
        push_le16(&mut b, self.limit);
        push_le64(&mut b, self.base);
        b
    }

    /// The pointer to the descriptor table at `base`.
    pub fn new(base: u64) -> (p: GdtPtr)
        ensures
            p.base == base,
            p.limit == GDT_SIZE - 1,
    {
        GdtPtr { limit: GDT_SIZE - 1, base }
    }
}

/// One segment descriptor of eight bytes.
#[derive(Debug, Clone, Copy, PartialEq, Eq, Structural)]
pub struct GdtEntry {
    pub limit_low: u16,
    pub base_low: u16,
    pub base_middle: u8,
    pub access: u8,
    pub granularity: u8,
    pub base_high: u8,
}

/// Access byte: present, ring 0, code, readable.
pub const ACCESS_KERNEL_CODE: u8 = 0x9A;

/// Access byte: present, ring 0, data, writable.
pub const ACCESS_KERNEL_DATA: u8 = 0x92;

/// Access byte: present, ring 3, code, readable.
pub const ACCESS_USER_CODE: u8 = 0xFA;

/// Access byte: present, ring 3, data, writable.
pub const ACCESS_USER_DATA: u8 = 0xF2;

/// Access byte: present, available 64-bit task state segment.
pub const ACCESS_TSS: u8 = 0x89;

/// Granularity byte: 64-bit segment.
pub const LONG_MODE: u8 = 0x20;

/// Granularity byte: 32-bit segment.
pub const PROTECTED_MODE: u8 = 0x40;

impl GdtEntry {
    /// A flat descriptor: base and limit zero.
    pub open spec fn flat(access: u8, granularity: u8) -> GdtEntry {
        GdtEntry {
            limit_low: 0,
            base_low: 0,
            base_middle: 0,
            access,
            granularity,
            base_high: 0,
        }
    }

    /// The ring that the access byte names: bits 5 and 6.
    pub open spec fn ring(self) -> int {
        (self.access as int / 32) % 4
    }

    /// The fields in one number: the limit on top, the high base at the
    /// bottom.
    pub open spec fn packed(self) -> int {
        self.limit_low * 0x1_0000_0000_0000 + self.base_low * 0x1_0000_0000 + self.base_middle
            * 0x100_0000 + self.access * 0x1_0000 + self.granularity * 0x100 + self.base_high
    }

    /// The eight bytes of the descriptor as they lie in memory.
    pub open spec fn bytes(self) -> Seq<u8> {
        spec_u16_to_le_bytes(self.limit_low) + spec_u16_to_le_bytes(self.base_low) + seq![
            self.base_middle,
            self.access,
            self.granularity,
            self.base_high,
        ]
    }

    /// Adds to `out` the eight bytes of the descriptor.
    pub fn push_to(&self, out: &mut Vec<u8>)
        ensures
            final(out)@ == old(out)@ + self.bytes(),
    {
        push_le16(out, self.limit_low);
        push_le16(out, self.base_low);
        out.push(self.base_middle);
        out.push(self.access);
        out.push(self.granularity);
        out.push(self.base_high);
        assert(out@ =~= old(out)@ + self.bytes());
    }

    /// The descriptor that names no segment.
    pub fn null() -> (e: GdtEntry)
        ensures
            e == GdtEntry::flat(0, 0),
    {
        GdtEntry {
            limit_low: 0,
            base_low: 0,
            base_middle: 0,
            access: 0,
            granularity: 0,
            base_high: 0,
        }
    }

    /// The 64-bit code segment of ring 0.
    pub fn kernel_code() -> (e: GdtEntry)
        ensures
            e == GdtEntry::flat(ACCESS_KERNEL_CODE, LONG_MODE),
            e.ring() == 0,
    {
        GdtEntry {
            limit_low: 0,
            base_low: 0,
            base_middle: 0,
            access: ACCESS_KERNEL_CODE,
            granularity: LONG_MODE,
            base_high: 0,
        }
    }

    /// The data segment of ring 0.
    pub fn kernel_data() -> (e: GdtEntry)
        ensures
            e == GdtEntry::flat(ACCESS_KERNEL_DATA, LONG_MODE),
            e.ring() == 0,
    {
        GdtEntry {
            limit_low: 0,
            base_low: 0,
            base_middle: 0,
            access: ACCESS_KERNEL_DATA,
            granularity: LONG_MODE,
            base_high: 0,
        }
    }

    /// The 32-bit code segment of ring 3.
    pub fn user_code_32bit() -> (e: GdtEntry)
        ensures
            e == GdtEntry::flat(ACCESS_USER_CODE, PROTECTED_MODE),
            e.ring() == 3,
    {
        GdtEntry {
            limit_low: 0,
            base_low: 0,
            base_middle: 0,
            access: ACCESS_USER_CODE,
            granularity: PROTECTED_MODE,
            base_high: 0,
        }
    }

    /// The 64-bit code segment of ring 3.
    pub fn user_code() -> (e: GdtEntry)
        ensures
            e == GdtEntry::flat(ACCESS_USER_CODE, LONG_MODE),
            e.ring() == 3,
    {
        GdtEntry {
            limit_low: 0,
            base_low: 0,
            base_middle: 0,
            access: ACCESS_USER_CODE,
            granularity: LONG_MODE,
            base_high: 0,
        }
    }

    /// The data segment of ring 3.
    pub fn user_data() -> (e: GdtEntry)
        ensures
            e == GdtEntry::flat(ACCESS_USER_DATA, LONG_MODE),
            e.ring() == 3,
    {
        GdtEntry {
            limit_low: 0,
            base_low: 0,
            base_middle: 0,
            access: ACCESS_USER_DATA,
            granularity: LONG_MODE,
            base_high: 0,
        }
    }

    /// The fields in one number.
    pub fn to_u64(self) -> (r: u64)
        ensures
            r == self.packed(),
    {
        let a = self.limit_low as u64;
        let b = self.base_low as u64;
        let c = self.base_middle as u64;
        let d = self.access as u64;
        let e = self.granularity as u64;
        let f = self.base_high as u64;
        assert(a <= 0xffff && b <= 0xffff && c <= 0xff && d <= 0xff && e <= 0xff && f <= 0xff ==> (
        a << 48) | (b << 32) | (c << 24) | (d << 16) | (e << 8) | f == a * 0x1_0000_0000_0000 + b
            * 0x1_0000_0000 + c * 0x100_0000 + d * 0x1_0000 + e * 0x100 + f) by (bit_vector);
        (a << 48) | (b << 32) | (c << 24) | (d << 16) | (e << 8) | f
    }
}

impl From<GdtEntry> for u64 {
    fn from(val: GdtEntry) -> (r: u64) {
        val.to_u64()
    }
}

impl FromSpecImpl<GdtEntry> for u64 {
    open spec fn obeys_from_spec() -> bool {
        true
    }

    open spec fn from_spec(val: GdtEntry) -> u64 {
        val.packed() as u64
    }
}

/// The descriptor of the task state segment: sixteen bytes.
#[derive(Debug, Clone, Copy, PartialEq, Eq, Structural)]
pub struct TssEntry {
    pub limit_low: u16,
    pub base_low: u16,
    pub base_middle_low: u8,
    pub access: u8,
    pub granularity: u8,
    pub base_middle_high: u8,
    pub base_high: u32,
    pub reserved: u32,
}

impl TssEntry {
    /// The address that the four base fields give.
    pub open spec fn base(self) -> int {
        self.base_low + self.base_middle_low * 0x1_0000 + self.base_middle_high * 0x100_0000
            + self.base_high * 0x1_0000_0000
    }

    /// The sixteen bytes of the descriptor as they lie in memory.
    pub open spec fn bytes(self) -> Seq<u8> {
        spec_u16_to_le_bytes(self.limit_low) + spec_u16_to_le_bytes(self.base_low) + seq![
            self.base_middle_low,
            self.access,
            self.granularity,
            self.base_middle_high,
        ] + spec_u32_to_le_bytes(self.base_high) + spec_u32_to_le_bytes(self.reserved)
    }

    /// Adds to `out` the sixteen bytes of the descriptor.
    pub fn push_to(&self, out: &mut Vec<u8>)
        ensures
            final(out)@ == old(out)@ + self.bytes(),
    {
        push_le16(out, self.limit_low);
        push_le16(out, self.base_low);
        out.push(self.base_middle_low);
        out.push(self.access);
        out.push(self.granularity);
        out.push(self.base_middle_high);
        push_le32(out, self.base_high);
        push_le32(out, self.reserved);
        assert(out@ =~= old(out)@ + self.bytes());
    }

    /// The descriptor that names no segment.
    pub fn null() -> (e: TssEntry)
        ensures
            e == (TssEntry {
                limit_low: 0,
                base_low: 0,
                base_middle_low: 0,
                access: 0,
                granularity: 0,
                base_middle_high: 0,
                base_high: 0,
                reserved: 0,
            }),
    {
        TssEntry {
            limit_low: 0,
            base_low: 0,
            base_middle_low: 0,
            access: 0,
            granularity: 0,
            base_middle_high: 0,
            base_high: 0,
            reserved: 0,
        }
    }

    /// The descriptor of the task state segment at address `base`.
    pub fn tss_segment(base: u64) -> (e: TssEntry)
        ensures
            e.base() == base,
            e.limit_low == TSS_SIZE - 1,
            e.access == ACCESS_TSS,
            e.granularity == 0,
            e.reserved == 0,
    {
        let low: u64 = base & 0xFFFF;
        let mid_low: u64 = (base >> 16) & 0xFF;
        let mid_high: u64 = (base >> 24) & 0xFF;
        let high: u64 = base >> 32;
        assert(low <= 0xFFFF && mid_low <= 0xFF && mid_high <= 0xFF && high <= 0xFFFF_FFFF && low
            + mid_low * 0x1_0000 + mid_high * 0x100_0000 + high * 0x1_0000_0000 == base)
            by (bit_vector)
            requires
                low == base & 0xFFFF,
                mid_low == (base >> 16) & 0xFF,
                mid_high == (base >> 24) & 0xFF,
                high == base >> 32,
        ;
        TssEntry {
            limit_low: (TSS_SIZE - 1) as u16,
            base_low: low as u16,
            base_middle_low: mid_low as u8,
            access: ACCESS_TSS,
            granularity: 0,
            base_middle_high: mid_high as u8,
            base_high: high as u32,
            reserved: 0,
        }
    }
}

/// The descriptor table, in the order in which its descriptors lie in
/// memory.
#[derive(Debug, Clone, Copy, PartialEq, Eq, Structural)]
pub struct GlobalDescriptorTable {
    pub null: GdtEntry,
    pub kernel_code: GdtEntry,
    pub kernel_data: GdtEntry,
    pub user_code_32bit: GdtEntry,
    pub user_code: GdtEntry,
    pub user_data: GdtEntry,
    pub tss: TssEntry,
}

impl GlobalDescriptorTable {
    /// The table without a task state segment.
    pub open spec fn initial() -> GlobalDescriptorTable {
        GlobalDescriptorTable {
            null: GdtEntry::flat(0, 0),
            kernel_code: GdtEntry::flat(ACCESS_KERNEL_CODE, LONG_MODE),
            kernel_data: GdtEntry::flat(ACCESS_KERNEL_DATA, LONG_MODE),
            user_code_32bit: GdtEntry::flat(ACCESS_USER_CODE, PROTECTED_MODE),
            user_code: GdtEntry::flat(ACCESS_USER_CODE, LONG_MODE),
            user_data: GdtEntry::flat(ACCESS_USER_DATA, LONG_MODE),
            tss: TssEntry {
                limit_low: 0,
                base_low: 0,
                base_middle_low: 0,
                access: 0,
                granularity: 0,
                base_middle_high: 0,
                base_high: 0,
                reserved: 0,
            },
        }
    }

    /// The 64 bytes of the table as they lie in memory: the descriptors
    /// one after the other.
    pub open spec fn bytes(self) -> Seq<u8> {
        self.null.bytes() + self.kernel_code.bytes() + self.kernel_data.bytes()
            + self.user_code_32bit.bytes() + self.user_code.bytes() + self.user_data.bytes()
            + self.tss.bytes()
    }

    /// The 64 bytes of the table as they lie in memory.
    pub fn to_bytes(&self) -> (b: Vec<u8>)
        ensures
            b@ == self.bytes(),
    {
        let mut b: Vec<u8> = Vec::new();
        self.null.push_to(&mut b);
        self.kernel_code.push_to(&mut b);
        self.kernel_data.push_to(&mut b);
        self.user_code_32bit.push_to(&mut b);
        self.user_code.push_to(&mut b);
        self.user_data.push_to(&mut b);
        self.tss.push_to(&mut b);
        assert(b@ =~= self.bytes());
        b
    }

    /// The table without a task state segment.
    pub fn new() -> (t: GlobalDescriptorTable)
        ensures
            t == GlobalDescriptorTable::initial(),
    {
        GlobalDescriptorTable {
            null: GdtEntry::null(),
            kernel_code: GdtEntry::kernel_code(),
            kernel_data: GdtEntry::kernel_data(),
            user_code_32bit: GdtEntry::user_code_32bit(),
            user_code: GdtEntry::user_code(),
            user_data: GdtEntry::user_data(),
            tss: TssEntry::null(),
        }
    }
}

impl Default for GlobalDescriptorTable {
    fn default() -> (t: GlobalDescriptorTable)
        ensures
            t == GlobalDescriptorTable::initial(),
    {
        GlobalDescriptorTable::new()
    }
}

/// The task state segment. Of its fields the kernel uses one: the stack
/// pointer that the processor loads on a trap from ring 3.
#[derive(Debug, Clone, Copy, PartialEq, Eq, Structural)]
pub struct TaskStateSegment {
    pub reserved0: u32,
    pub rsp0: u64,
    pub rsp1: u64,
    pub rsp2: u64,
    pub reserved1: u64,
    pub ist1: u64,
    pub ist2: u64,
    pub ist3: u64,
    pub ist4: u64,
    pub ist5: u64,
    pub ist6: u64,
    pub ist7: u64,
    pub reserved2: u64,
    pub reserved3: u16,
    pub io_map_base_address: u16,
}

impl TaskStateSegment {
    /// The segment whose ring 0 stack is the `size` bytes at `stack`: the
    /// stack pointer is the end of them. Everything else is zero.
    pub fn new(stack: u64, size: u64) -> (t: TaskStateSegment)
        requires
            stack + size <= u64::MAX,
        ensures
            t.rsp0 == stack + size,
            t == (TaskStateSegment { rsp0: t.rsp0, ..TaskStateSegment::zero() }),
    {
        TaskStateSegment {
            reserved0: 0,
            rsp0: stack + size,
            rsp1: 0,
            rsp2: 0,
            reserved1: 0,
            ist1: 0,
            ist2: 0,
            ist3: 0,
            ist4: 0,
            ist5: 0,
            ist6: 0,
            ist7: 0,
            reserved2: 0,
            reserved3: 0,
            io_map_base_address: 0,
        }
    }

    /// The 104 bytes of the segment as they lie in memory.
    pub open spec fn bytes(self) -> Seq<u8> {
        spec_u32_to_le_bytes(self.reserved0) + spec_u64_to_le_bytes(self.rsp0)
            + spec_u64_to_le_bytes(self.rsp1) + spec_u64_to_le_bytes(self.rsp2)
            + spec_u64_to_le_bytes(self.reserved1) + spec_u64_to_le_bytes(self.ist1)
            + spec_u64_to_le_bytes(self.ist2) + spec_u64_to_le_bytes(self.ist3)
            + spec_u64_to_le_bytes(self.ist4) + spec_u64_to_le_bytes(self.ist5)
            + spec_u64_to_le_bytes(self.ist6) + spec_u64_to_le_bytes(self.ist7)
            + spec_u64_to_le_bytes(self.reserved2) + spec_u16_to_le_bytes(self.reserved3)
            + spec_u16_to_le_bytes(self.io_map_base_address)
    }

    /// The 104 bytes of the segment as they lie in memory.
    pub fn to_bytes(&self) -> (b: Vec<u8>)
        ensures
            b@ == self.bytes(),
    {
        let mut b: Vec<u8> = Vec::new();
        push_le32(&mut b, self.reserved0);
        push_le64(&mut b, self.rsp0);
        push_le64(&mut b, self.rsp1);
        push_le64(&mut b, self.rsp2);
        push_le64(&mut b, self.reserved1);
        push_le64(&mut b, self.ist1);
        push_le64(&mut b, self.ist2);
        push_le64(&mut b, self.ist3);
        push_le64(&mut b, self.ist4);
        push_le64(&mut b, self.ist5);
        push_le64(&mut b, self.ist6);
        push_le64(&mut b, self.ist7);
        push_le64(&mut b, self.reserved2);
        push_le16(&mut b, self.reserved3);
        push_le16(&mut b, self.io_map_base_address);
        assert(b@ =~= self.bytes());
        b
    }

    /// The segment with every field zero.
    pub open spec fn zero() -> TaskStateSegment {
        TaskStateSegment {
            reserved0: 0,
            rsp0: 0,
            rsp1: 0,
            rsp2: 0,
            reserved1: 0,
            ist1: 0,
            ist2: 0,
            ist3: 0,
            ist4: 0,
            ist5: 0,
            ist6: 0,
            ist7: 0,
            reserved2: 0,
            reserved3: 0,
            io_map_base_address: 0,
        }
    }
}

/// The selectors of the descriptors of the table.
#[derive(Debug, Clone, Copy, PartialEq, Eq, Structural)]
pub struct Selectors {
    pub kernel_code: SegmentSelector,
    pub kernel_data: SegmentSelector,
    pub user_code_32bit: SegmentSelector,
    pub user_code: SegmentSelector,
    pub user_data: SegmentSelector,
    pub tss: SegmentSelector,
}

impl Selectors {
    /// The selectors: those of ring 0 ask for ring 0, those of ring 3 for
    /// ring 3.
    pub fn new() -> (s: Selectors)
        ensures
            s.kernel_code.0 == 0x08,
            s.kernel_data.0 == 0x10,
            s.user_code_32bit.0 == 0x1B,
            s.user_code.0 == 0x23,
            s.user_data.0 == 0x2B,
            s.tss.0 == 0x30,
    {
        Selectors {
            kernel_code: SegmentSelector::new(1, 0, 0),
            kernel_data: SegmentSelector::new(2, 0, 0),
            user_code_32bit: SegmentSelector::new(3, 0, 3),
            user_code: SegmentSelector::new(4, 0, 3),
            user_data: SegmentSelector::new(5, 0, 3),
            tss: SegmentSelector::new(6, 0, 0),
        }
    }
}

/// What is to be loaded at boot.
#[derive(Debug, Clone, Copy, PartialEq, Eq, Structural)]
pub struct GdtSetup {
    pub table: GlobalDescriptorTable,
    pub selectors: Selectors,
}

/// The descriptor table with the descriptor of the task state segment at
/// address `tss_base`, and the selectors to load: the code and data
/// segments of ring 0 and the task register.
pub fn init(tss_base: u64) -> (g: GdtSetup)
    ensures
        g.table == (GlobalDescriptorTable { tss: g.table.tss, ..GlobalDescriptorTable::initial() }),
        g.table.tss.base() == tss_base,
        g.table.tss.limit_low == TSS_SIZE - 1,
        g.table.tss.access == ACCESS_TSS,
        g.selectors.kernel_code.0 == 0x08,
        g.selectors.kernel_data.0 == 0x10,
        g.selectors.tss.0 == 0x30,
{
    let mut table = GlobalDescriptorTable::new();
    table.tss = TssEntry::tss_segment(tss_base);
    GdtSetup { table, selectors: Selectors::new() }
}

} // verus!
