//! Four-level address spaces over an arena of page-table frames.

use vstd::prelude::*;

verus! {

/// Size in bytes of every kernel stack.
pub const KERNEL_STACK_SIZE: usize = 64 * 1024;

/// Size in bytes of every user stack.
pub const USER_STACK_SIZE: usize = 16 * 1024;

/// 4 KiB page.
pub const SMALL: u64 = 0x1000;

/// 2 MiB page.
pub const MEDIUM: u64 = 0x200000;

/// 1 GiB page.
pub const LARGE: u64 = 0x40000000;

/// `n` is a power of two.
pub open spec fn is_power_of_two(n: u64) -> bool {
    n != 0 && n & ((n - 1) as u64) == 0
}

/// `addr` is a multiple of the power of two `align`: its low bits are clear.
pub open spec fn is_aligned(addr: u64, align: u64) -> bool {
    addr & ((align - 1) as u64) == 0
}

/// Rounds `addr` up to the next multiple of `align`.
pub fn align_up(addr: u64, align: u64) -> (r: u64)
    requires
        is_power_of_two(align),
        addr + align - 1 <= u64::MAX,
    ensures
        is_aligned(r, align),
        addr <= r < addr + align,
{
    let m: u64 = align - 1;
    let s: u64 = addr + m;
    let r: u64 = s & !m;
    assert(r & m == 0 && r <= s && s - r <= m && (s - r) + (r & m) == s & m) by (bit_vector)
        requires
            r == s & !m,
    ;
    assert(r >= addr) by {
        // the low bits of `addr + m` are at most `m`, and they are below
        // `m` exactly when `addr` has low bits of its own
        assert(addr & m == 0 ==> (addr + m) as u64 & m == m) by (bit_vector)
            requires
                m == (align - 1) as u64,
                align != 0,
                align & ((align - 1) as u64) == 0,
                addr + m <= u64::MAX,
        ;
        assert(addr & m != 0 ==> ((addr + m) as u64 & m) < (addr & m)) by (bit_vector)
            requires
                m == (align - 1) as u64,
                align != 0,
                align & ((align - 1) as u64) == 0,
                addr + m <= u64::MAX,
        ;
        assert(addr & m <= m) by (bit_vector);
    }
    r
}

/// Rounds `addr` down to a multiple of `align`.
pub fn align_down(addr: u64, align: u64) -> (r: u64)
    requires
        is_power_of_two(align),
    ensures
        is_aligned(r, align),
        r <= addr < r + align,
{
    let m: u64 = align - 1;
    let r: u64 = addr & !m;
    assert(r & m == 0 && r <= addr && addr - r <= m) by (bit_vector)
        requires
            r == addr & !m,
    ;
    r
}

/// Entry flag: the entry is valid.
pub const PRESENT: u64 = 0x1;

/// Entry flag: writes are allowed.
pub const WRITE: u64 = 0x2;

/// Entry flag: ring 3 may use the translation.
pub const USER: u64 = 0x4;

/// Entry flag: the entry is a large-page leaf, not a pointer to a table.
pub const LPAGES: u64 = 0x80;

/// Entry flag: instruction fetches are refused.
pub const NO_EXEC: u64 = 0x8000_0000_0000_0000;

/// Present and writable.
pub const RW: u64 = 0x3;

/// Bits of an entry that hold the address of a table or of a 4 KiB page.
pub const ADDR_MASK: u64 = 0x000F_FFFF_FFFF_F000;

/// Bits of a leaf entry that hold the address of a 2 MiB page.
pub const ADDR_MASK_MEDIUM: u64 = 0x000F_FFFF_FFE0_0000;

/// Bits of a leaf entry that hold the address of a 1 GiB page.
pub const ADDR_MASK_LARGE: u64 = 0x000F_FFFF_C000_0000;

/// Number of entries in one table.
pub const ENTRIES: usize = 512;

/// The index that `virt` selects in the table of the given level (4 is the
/// root, 1 the last table).
pub open spec fn table_index(virt: u64, level: u8) -> int {
    if level == 4 {
        ((virt >> 39) & 0x1ff) as int
    } else if level == 3 {
        ((virt >> 30) & 0x1ff) as int
    } else if level == 2 {
        ((virt >> 21) & 0x1ff) as int
    } else {
        ((virt >> 12) & 0x1ff) as int
    }
}

/// The indices that `virt` selects above the given level, folded into one
/// number: what every address translated by one table of that level shares.
pub open spec fn table_prefix(virt: u64, level: u8) -> u64 {
    if level >= 4 {
        0
    } else if level == 3 {
        (virt >> 39) & 0x1ff
    } else if level == 2 {
        (virt >> 30) & 0x3ffff
    } else {
        (virt >> 21) & 0x7ffffff
    }
}

/// The prefix of the table that entry `idx` of a table with prefix `prefix`
/// points to.
pub open spec fn child_prefix(prefix: u64, idx: int) -> int {
    prefix * 512 + idx
}

/// One more than the largest prefix a table of the given level can have.
pub open spec fn prefix_bound(level: u8) -> int {
    if level >= 4 {
        1
    } else if level == 3 {
        512
    } else if level == 2 {
        0x4_0000
    } else {
        0x800_0000
    }
}

/// `v` and `virt` select the same entry at `level` and in every table
/// above it: they lie in the same page of the size that ends at that level
/// (top bits that no table looks at aside).
pub open spec fn same_page(v: u64, virt: u64, level: u8) -> bool {
    table_prefix(v, level) == table_prefix(virt, level) && table_index(v, level) == table_index(
        virt,
        level,
    )
}

/// One of the three page sizes.
pub open spec fn is_page_size(psize: u64) -> bool {
    psize == SMALL || psize == MEDIUM || psize == LARGE
}

/// The level at which a page of the given size is entered.
pub open spec fn leaf_level(psize: u64) -> u8 {
    if psize == LARGE {
        3
    } else if psize == MEDIUM {
        2
    } else {
        1
    }
}

/// A physical address is legal unless it falls in the gap between what the
/// higher-half window at `hhdm` can reach and the window itself.
pub open spec fn legal_phys(phys: u64, hhdm: u64) -> bool {
    phys <= u64::MAX - hhdm || phys >= hhdm
}

/// The inputs that `map` accepts.
pub open spec fn map_accepts(hhdm: u64, virt: u64, phys: u64, psize: u64) -> bool {
    &&& legal_phys(phys, hhdm)
    &&& is_page_size(psize)
    &&& is_aligned(virt, psize)
    &&& is_aligned(phys, psize)
}

/// The entry that `map` writes.
pub open spec fn leaf_entry(phys: u64, flags: u64, psize: u64) -> u64 {
    if psize == SMALL {
        phys | flags
    } else {
        phys | flags | LPAGES
    }
}

/// What a walk that ends at the leaf `entry` of `level` gives for `v`.
pub open spec fn leaf_result(entry: u64, v: u64, level: u8) -> Option<u64> {
    if !is_present(entry) {
        None
    } else if level == 3 {
        Some((entry & ADDR_MASK_LARGE) | (v & 0x3FFF_FFFF))
    } else if level == 2 {
        Some((entry & ADDR_MASK_MEDIUM) | (v & 0x1F_FFFF))
    } else {
        Some((entry & ADDR_MASK) | (v & 0xfff))
    }
}

/// `v` shares no 4 KiB page with the `length` bytes from `virt` on.
pub open spec fn misses_range(v: u64, virt: u64, length: u64) -> bool {
    forall|off: u64| off < length ==> !#[trigger] same_page(v, (virt + off) as u64, 1)
}

/// The ranges that `map_range` accepts: page-aligned ends, at most half of
/// the address space, and neither end wrapping round.
pub open spec fn range_accepts(virt: u64, phys: u64, length: u64) -> bool {
    &&& virt % 0x1000 == 0
    &&& phys % 0x1000 == 0
    &&& length % 0x1000 == 0
    &&& length <= 0x8000_0000_0000
    &&& virt + length <= u64::MAX
    &&& phys + length <= ADDR_MASK + 0x1000
}

/// The largest page size that `virt` and `phys` are both aligned to and
/// that `remaining` bytes fill.
pub open spec fn best_page_size(virt: u64, phys: u64, remaining: u64) -> u64 {
    if virt % LARGE == 0 && phys % LARGE == 0 && remaining >= LARGE {
        LARGE
    } else if virt % MEDIUM == 0 && phys % MEDIUM == 0 && remaining >= MEDIUM {
        MEDIUM
    } else {
        SMALL
    }
}

/// What the boot loader says a region of physical memory holds.
#[derive(Clone, Copy, PartialEq, Eq, Structural, Debug)]
pub enum RegionKind {
    Usable,
    Reserved,
    AcpiReclaimable,
    AcpiNvs,
    BadMemory,
    BootloaderReclaimable,
    ExecutableAndModules,
    Framebuffer,
}

/// One entry of the boot loader's memory map.
#[derive(Clone, Copy, Debug)]
pub struct MemoryRegion {
    pub base: u64,
    pub length: u64,
    pub kind: RegionKind,
}

/// A run of virtual addresses and the run of physical addresses it is
/// mapped to.
#[derive(Clone, Copy, Debug)]
pub struct Span {
    pub virt: u64,
    pub phys: u64,
    pub length: u64,
}

/// The kinds of region that the kernel reaches through the direct map.
pub open spec fn is_mapped_kind(kind: RegionKind) -> bool {
    kind == RegionKind::Usable || kind == RegionKind::BootloaderReclaimable || kind
        == RegionKind::ExecutableAndModules || kind == RegionKind::Framebuffer
}

/// `x` rounded down to a page boundary.
pub open spec fn page_floor(x: int) -> int {
    x - x % 0x1000
}

/// `x` rounded up to a page boundary.
pub open spec fn page_ceil(x: int) -> int {
    page_floor(x + 0xfff)
}

/// The span through which the direct map at `hhdm` reaches `region`: its
/// pages, each at its physical address plus `hhdm`. Empty for a region of
/// another kind, and for one whose end or whose window addresses do not
/// fit in 64 bits.
pub open spec fn region_span(region: MemoryRegion, hhdm: u64) -> Span {
    let start = page_floor(region.base as int);
    let end = page_ceil(region.base + region.length);
    if is_mapped_kind(region.kind) && end + hhdm <= u64::MAX {
        Span { virt: (start + hhdm) as u64, phys: start as u64, length: (end - start) as u64 }
    } else {
        Span { virt: 0, phys: 0, length: 0 }
    }
}

/// The span of the kernel executable: `size` bytes, rounded up to whole
/// pages, from `virt` on, backed from `phys` on.
pub open spec fn exec_span(phys: u64, virt: u64, size: u64) -> Span {
    if page_ceil(size as int) <= u64::MAX {
        Span { virt, phys, length: page_ceil(size as int) as u64 }
    } else {
        Span { virt: 0, phys: 0, length: 0 }
    }
}

/// The spans that `init` maps, in the order in which it maps them: one
/// per region, then the executable.
pub open spec fn init_spans(
    regions: Seq<MemoryRegion>,
    hhdm: u64,
    exec_phys: u64,
    exec_virt: u64,
    exec_size: u64,
) -> Seq<Span> {
    Seq::new(
        regions.len() + 1,
        |i: int|
            if i < regions.len() {
                region_span(regions[i], hhdm)
            } else {
                exec_span(exec_phys, exec_virt, exec_size)
            },
    )
}

/// The 4 KiB pages of the first `n` of `spans`, all told.
pub open spec fn span_pages(spans: Seq<Span>, n: int) -> int
    decreases n,
{
    if n <= 0 {
        0
    } else {
        span_pages(spans, n - 1) + spans[n - 1].length / 0x1000
    }
}

/// Span `j` shares no page with a span before it.
pub open spec fn clear_of_earlier(spans: Seq<Span>, j: int) -> bool {
    forall|i: int, off: u64|
        0 <= i < j && off < spans[j].length ==> misses_range(
            #[trigger] ((spans[j].virt + off) as u64),
            (#[trigger] spans[i]).virt,
            spans[i].length,
        )
}

/// No span after span `k`, up to `upto`, shares a page with `v`.
pub open spec fn clear_after(spans: Seq<Span>, k: int, v: u64, upto: int) -> bool {
    forall|j: int| k < j < upto ==> misses_range(v, (#[trigger] spans[j]).virt, spans[j].length)
}

pub open spec fn is_present(entry: u64) -> bool {
    entry & PRESENT != 0
}

/// Whether an entry found at `level` ends the walk there with a large page.
pub open spec fn is_large_leaf(entry: u64, level: u8) -> bool {
    (level == 3 || level == 2) && entry & LPAGES != 0
}

/// Whether an entry found at `level` maps a page of the size that is
/// entered there: it is present, and at the levels of the large pages it
/// is a large-page leaf. An entry that points to a table below maps no
/// page of that size, though smaller pages may be mapped through it.
pub open spec fn is_mapping(entry: u64, level: u8) -> bool {
    is_present(entry) && (level <= 1 || entry & LPAGES != 0)
}

/// The address held by an entry that points to a table or to a 4 KiB page.
pub open spec fn entry_addr(entry: u64) -> u64 {
    entry & ADDR_MASK
}

/// One page table: 512 entries of 64 bits.
pub struct Table {
    pub entries: [u64; 512],
}

/// What the arena records of each frame it has handed out.
#[derive(Clone, Copy)]
pub struct FrameTag {
    /// 4 for a root table down to 1 for a last-level table.
    pub level: u8,
    /// The index prefix shared by the addresses this table translates.
    pub prefix: u64,
}

/// The physical frames that hold page tables. Frame `i` lies at physical
/// address `base + i * 0x1000`; frames are handed out in order and never
/// returned.
pub struct PhysMemory {
    base: u64,
    hhdm: u64,
    capacity: usize,
    tables: Vec<Table>,
    tags: Vec<FrameTag>,
}

impl PhysMemory {
    /// Physical address of the first frame.
    pub closed spec fn base(&self) -> u64 {
        self.base
    }

    /// Offset of the higher-half window through which all physical memory
    /// is reachable.
    pub closed spec fn hhdm(&self) -> u64 {
        self.hhdm
    }

    /// Number of frames the arena may hand out in all.
    pub closed spec fn capacity(&self) -> nat {
        self.capacity as nat
    }

    /// Number of frames handed out so far.
    pub closed spec fn frames(&self) -> nat {
        self.tables@.len()
    }

    /// Entry `idx` of frame `frame`.
    pub closed spec fn entry(&self, frame: int, idx: int) -> u64 {
        self.tables@[frame].entries@[idx]
    }

    /// Level of frame `frame`.
    pub closed spec fn level(&self, frame: int) -> u8 {
        self.tags@[frame].level
    }

    /// Prefix of frame `frame`.
    pub closed spec fn prefix(&self, frame: int) -> u64 {
        self.tags@[frame].prefix
    }

    /// Every frame has its tag.
    pub closed spec fn tagged(&self) -> bool {
        self.tags@.len() == self.tables@.len()
    }

    /// Physical address of frame `frame`.
    pub open spec fn frame_addr(&self, frame: int) -> int {
        self.base() + frame * 0x1000
    }

    /// The frame that lies at physical address `addr`, if one was handed out
    /// there.
    pub open spec fn frame_of(&self, addr: u64) -> Option<int> {
        if addr >= self.base() && (addr - self.base()) % 0x1000 == 0 && (addr - self.base())
            / 0x1000 < self.frames() {
            Some((addr - self.base()) / 0x1000)
        } else {
            None
        }
    }

    /// Entry `idx` of `frame` points to a table one level down.
    pub open spec fn is_pointer(&self, frame: int, idx: int) -> bool {
        let e = self.entry(frame, idx);
        self.level(frame) > 1 && is_present(e) && !is_large_leaf(e, self.level(frame))
    }

    /// Validity of the arena: every frame has a level, lies at an address an
    /// entry can hold, and every pointer entry leads to a frame one level
    /// down whose prefix extends that of its parent by the entry's index.
    pub open spec fn wf(&self) -> bool {
        &&& self.tagged()
        &&& self.frames() <= self.capacity()
        &&& self.frames() > 0 ==> self.base() % 0x1000 == 0
        &&& self.frames() > 0 ==> self.frame_addr(self.frames() - 1) <= ADDR_MASK
        &&& forall|f: int|
            0 <= f < self.frames() ==> 1 <= #[trigger] self.level(f) <= 4 && self.prefix(f)
                < prefix_bound(self.level(f))
        &&& forall|f: int, i: int|
            0 <= f < self.frames() && 0 <= i < 512 && #[trigger] self.is_pointer(f, i) ==> {
                let g = self.frame_of(entry_addr(self.entry(f, i)));
                &&& g is Some
                &&& self.level(g->0) == self.level(f) - 1
                &&& self.prefix(g->0) == child_prefix(self.prefix(f), i)
            }
    }

    /// The frame of the root table at `root`: a frame of level 4.
    pub open spec fn root_frame(&self, root: u64) -> Option<int> {
        match self.frame_of(root) {
            Some(f) => if self.level(f) == 4 {
                Some(f)
            } else {
                None
            },
            None => None,
        }
    }

    /// The frame that entry `idx` of `frame` points to, if it is a pointer.
    pub open spec fn next_table(&self, frame: int, idx: int) -> Option<int> {
        if self.is_pointer(frame, idx) {
            self.frame_of(entry_addr(self.entry(frame, idx)))
        } else {
            None
        }
    }

    /// The frame of the table that the walk from `root` for `virt` reaches
    /// at `level`, if the walk gets that far.
    pub open spec fn table_at(&self, root: u64, virt: u64, level: u8) -> Option<int> {
        let t4 = self.root_frame(root);
        if level >= 4 {
            t4
        } else {
            let t3 = if t4 is Some {
                self.next_table(t4->0, table_index(virt, 4))
            } else {
                None
            };
            if level == 3 {
                t3
            } else {
                let t2 = if t3 is Some {
                    self.next_table(t3->0, table_index(virt, 3))
                } else {
                    None
                };
                if level == 2 {
                    t2
                } else if t2 is Some {
                    self.next_table(t2->0, table_index(virt, 2))
                } else {
                    None
                }
            }
        }
    }

    /// The physical address that the address space rooted at `root` gives
    /// to `virt`: the walk ends at the first large-page leaf, or at the
    /// last-level entry, and fails at the first entry that is not present.
    #[verifier::opaque]
    pub open spec fn translation(&self, root: u64, virt: u64) -> Option<u64> {
        match self.table_at(root, virt, 3) {
            None => None,
            Some(t3) => {
                let e3 = self.entry(t3, table_index(virt, 3));
                if !is_present(e3) {
                    None
                } else if is_large_leaf(e3, 3) {
                    Some((e3 & ADDR_MASK_LARGE) | (virt & 0x3FFF_FFFF))
                } else {
                    match self.table_at(root, virt, 2) {
                        None => None,
                        Some(t2) => {
                            let e2 = self.entry(t2, table_index(virt, 2));
                            if !is_present(e2) {
                                None
                            } else if is_large_leaf(e2, 2) {
                                Some((e2 & ADDR_MASK_MEDIUM) | (virt & 0x1F_FFFF))
                            } else {
                                match self.table_at(root, virt, 1) {
                                    None => None,
                                    Some(t1) => {
                                        let e1 = self.entry(t1, table_index(virt, 1));
                                        if !is_present(e1) {
                                            None
                                        } else {
                                            Some((e1 & ADDR_MASK) | (virt & 0xfff))
                                        }
                                    },
                                }
                            }
                        },
                    }
                }
            },
        }
    }

    /// `self` has the setup and all the frames of `old`, with the same tags
    /// and entries but for entry `idx` of `frame`.
    pub open spec fn keeps_except(&self, old: &PhysMemory, frame: int, idx: int) -> bool {
        &&& self.base() == old.base()
        &&& self.hhdm() == old.hhdm()
        &&& self.capacity() == old.capacity()
        &&& self.frames() >= old.frames()
        &&& forall|f: int|
            0 <= f < old.frames() ==> #[trigger] self.level(f) == old.level(f) && self.prefix(f)
                == old.prefix(f)
        &&& forall|f: int, i: int|
            0 <= f < old.frames() && 0 <= i < 512 && !(f == frame && i == idx)
                ==> #[trigger] self.entry(f, i) == old.entry(f, i)
    }

    /// `self` has the setup and all the frames of `old`, unchanged.
    pub open spec fn keeps(&self, old: &PhysMemory) -> bool {
        self.keeps_except(old, -1, -1)
    }

    /// Whether a further frame can be handed out: one is left, and its
    /// address is one that an entry can hold.
    pub open spec fn can_alloc(&self) -> bool {
        &&& self.frames() < self.capacity()
        &&& self.base() % 0x1000 == 0
        &&& self.frame_addr(self.frames() as int) <= ADDR_MASK
    }

    /// Whether `n` further frames can be handed out.
    pub open spec fn can_alloc_n(&self, n: nat) -> bool {
        n > 0 ==> {
            &&& self.frames() + n <= self.capacity()
            &&& self.base() % 0x1000 == 0
            &&& self.frame_addr(self.frames() + n - 1) <= ADDR_MASK
        }
    }

    /// How many tables are missing below `frame`, a table of level `k` on
    /// the walk for `virt`, on the way to the table of `level`; `None`
    /// where a large page lies in the way.
    pub open spec fn missing_from(&self, frame: int, virt: u64, k: u8, level: u8) -> Option<nat>
        decreases k,
    {
        if k <= level || k <= 1 {
            Some(0)
        } else {
            let i = table_index(virt, k);
            match self.next_table(frame, i) {
                Some(g) => self.missing_from(g, virt, (k - 1) as u8, level),
                None => if is_present(self.entry(frame, i)) {
                    None
                } else {
                    Some((k - level) as nat)
                },
            }
        }
    }

    /// How many tables are missing on the way from `root` to the table
    /// that holds the entry for `virt` at `level`; `None` where `root` is
    /// no root table or a large page lies in the way.
    pub open spec fn tables_needed(&self, root: u64, virt: u64, level: u8) -> Option<nat> {
        match self.root_frame(root) {
            None => None,
            Some(t4) => self.missing_from(t4, virt, 4, level),
        }
    }

    /// `self` has the setup of `old` and its frames with their tags.
    pub open spec fn grows_from(&self, old: &PhysMemory) -> bool {
        &&& self.base() == old.base()
        &&& self.hhdm() == old.hhdm()
        &&& self.capacity() == old.capacity()
        &&& self.frames() >= old.frames()
        &&& forall|f: int|
            0 <= f < old.frames() ==> #[trigger] self.level(f) == old.level(f) && self.prefix(f)
                == old.prefix(f)
    }

    /// Every address of the first `upto` spans that no later one of them
    /// shares a page with resolves, from `root`, to its place in the span.
    pub open spec fn holds_spans(&self, root: u64, spans: Seq<Span>, upto: int) -> bool {
        forall|k: int, off: u64|
            0 <= k < upto && off < spans[k].length && clear_after(
                spans,
                k,
                (spans[k].virt + off) as u64,
                upto,
            ) ==> #[trigger] self.translation(root, (spans[k].virt + off) as u64) == Some(
                (spans[k].phys + off) as u64,
            )
    }

    /// Where in `old` no large page lay in the way of a walk, none lies in
    /// its way in `self`.
    pub open spec fn keeps_free(&self, old: &PhysMemory) -> bool {
        forall|rt: u64, v: u64, l: u8|
            1 <= l <= 4 && (#[trigger] old.tables_needed(rt, v, l)) is Some ==> self.tables_needed(
                rt,
                v,
                l,
            ) is Some
    }

    /// The same, for the walks for addresses outside the page of `virt`
    /// that is entered at `level`.
    pub open spec fn keeps_free_outside(&self, old: &PhysMemory, virt: u64, level: u8) -> bool {
        forall|rt: u64, v: u64, l: u8|
            1 <= l <= 4 && !same_page(v, virt, level) && (#[trigger] old.tables_needed(rt, v, l))
                is Some ==> self.tables_needed(rt, v, l) is Some
    }

    /// The same, for the walks for addresses that share no page with the
    /// `length` bytes from `virt` on.
    pub open spec fn keeps_free_beside(&self, old: &PhysMemory, virt: u64, length: u64) -> bool {
        forall|rt: u64, v: u64, l: u8|
            1 <= l <= 4 && misses_range(v, virt, length) && (#[trigger] old.tables_needed(
                rt,
                v,
                l,
            )) is Some ==> self.tables_needed(rt, v, l) is Some
    }

    /// Whether the walk from `a` for `v` and the walk from `b` for `w` come
    /// to one and the same table at some level from `lo` up.
    pub open spec fn meets(&self, a: u64, v: u64, b: u64, w: u64, lo: u8) -> bool {
        exists|m: u8|
            lo <= m <= 4 && (#[trigger] self.table_at(a, v, m)) is Some && self.table_at(a, v, m)
                == self.table_at(b, w, m)
    }

    /// What one step down from `frame` makes of the walks: every walk
    /// comes to the tables that it came to in `old` or to the one that the
    /// step handed out, and a walk that did not come to `frame` comes to
    /// the tables that it came to.
    #[verifier::opaque]
    pub open spec fn step_from(&self, old: &PhysMemory, frame: int) -> bool {
        forall|rt: u64, v: u64, l: u8|
            ((#[trigger] self.table_at(rt, v, l)) is Some ==> self.table_at(rt, v, l)
                == old.table_at(rt, v, l) || self.table_at(rt, v, l) == Some(old.frames() as int))
                && (old.table_at(rt, v, old.level(frame)) != Some(frame) ==> self.table_at(rt, v, l)
                == old.table_at(rt, v, l))
    }

    /// Every walk comes in `self` to the tables that it came to in `old`,
    /// or to tables that `old` had not handed out.
    #[verifier::opaque]
    pub open spec fn gains_from(&self, old: &PhysMemory) -> bool {
        forall|rt: u64, v: u64, l: u8|
            (#[trigger] self.table_at(rt, v, l)) is Some ==> self.table_at(rt, v, l)
                == old.table_at(rt, v, l) || self.table_at(rt, v, l)->0 >= old.frames()
    }

    /// Every walk that in `old` met the walk from `root` for `virt` at no
    /// level from `lo` up comes in `self` to the tables, and to the
    /// result, that it came to in `old`.
    #[verifier::opaque]
    pub open spec fn strangers_kept(&self, old: &PhysMemory, root: u64, virt: u64, lo: u8) -> bool {
        forall|rt: u64, v: u64|
            !old.meets(rt, v, root, virt, lo) ==> #[trigger] self.translation(rt, v)
                == old.translation(rt, v) && forall|l: u8| #[trigger]
                self.table_at(rt, v, l) == old.table_at(rt, v, l)
    }

    /// The root tables of `old` hold in `self` what they held, but for the
    /// entry for `virt` of the root table at `root`.
    #[verifier::opaque]
    pub open spec fn roots_kept(&self, old: &PhysMemory, root: u64, virt: u64) -> bool {
        forall|f: int, i: int|
            0 <= f < old.frames() && 0 <= i < 512 && old.level(f) == 4 && !(old.root_frame(root)
                == Some(f) && i == table_index(virt, 4)) ==> #[trigger] self.entry(f, i)
                == old.entry(f, i)
    }

    /// The address space rooted at `b` is in `self` what it was in `old`:
    /// every walk from `b` comes to the same tables and to the same
    /// result.
    pub open spec fn same_walks(&self, old: &PhysMemory, b: u64) -> bool {
        &&& forall|x: u64| #[trigger] self.translation(b, x) == old.translation(b, x)
        &&& forall|x: u64, l: u8| #[trigger] self.table_at(b, x, l) == old.table_at(b, x, l)
    }

    /// Whatever is done to the lower half of the address space rooted at
    /// `root` leaves alone every address space that was apart from it,
    /// and leaves the two apart.
    pub open spec fn others_kept(&self, old: &PhysMemory, root: u64) -> bool {
        forall|b: u64| (#[trigger] old.apart(root, b)) ==> self.left_alone(old, root, b)
    }

    /// The address space rooted at `b` is what it was, and still apart
    /// from the one rooted at `root`.
    pub open spec fn left_alone(&self, old: &PhysMemory, root: u64, b: u64) -> bool {
        self.apart(root, b) && self.same_walks(old, b)
    }

    /// Two address spaces with root tables of their own whose lower halves
    /// share no table: no walk from `a` for an address of the lower half
    /// comes to a table that a walk from `b` for such an address comes to.
    pub open spec fn apart(&self, a: u64, b: u64) -> bool {
        &&& self.root_frame(a) is Some
        &&& self.root_frame(b) is Some
        &&& self.root_frame(a) != self.root_frame(b)
        &&& forall|v: u64, w: u64, l: u8|
            table_index(v, 4) < 256 && table_index(w, 4) < 256 && 1 <= l <= 3 && (
            #[trigger] self.table_at(a, v, l)) is Some ==> self.table_at(a, v, l) != (
            #[trigger] self.table_at(b, w, l))
    }

    /// The first `done` bytes from `virt` on resolve, from `root`, to the
    /// first `done` bytes from `phys` on.
    #[verifier::opaque]
    pub open spec fn resolves_upto(&self, root: u64, virt: u64, phys: u64, done: u64) -> bool {
        forall|off: u64|
            off < done ==> #[trigger] self.translation(root, (virt + off) as u64) == Some(
                (phys + off) as u64,
            )
    }

    /// No large page lies in the way of the walk from `root` for any of
    /// the bytes from `done` to `length` behind `virt`.
    #[verifier::opaque]
    pub open spec fn free_from(&self, root: u64, virt: u64, done: u64, length: u64) -> bool {
        forall|off: u64|
            done <= off < length ==> (#[trigger] self.tables_needed(root, (virt + off) as u64, 1))
                is Some
    }

    /// Every address that shares no page with the `length` bytes from
    /// `virt` on resolves in `self` as in `old`, from every root.
    #[verifier::opaque]
    pub open spec fn same_beside(&self, old: &PhysMemory, virt: u64, length: u64) -> bool {
        forall|rt: u64, v: u64|
            misses_range(v, virt, length) ==> #[trigger] self.translation(rt, v) == old.translation(
                rt,
                v,
            )
    }

    /// Whether the `length` bytes from `virt` on can be mapped from `root`
    /// to the `length` bytes from `phys` on for certain: the range is one
    /// that `map_range` accepts, every physical address of it is legal,
    /// no large page lies in the way of any address of it, and three
    /// frames are left for each of its pages.
    pub open spec fn range_ready(&self, root: u64, virt: u64, phys: u64, length: u64) -> bool {
        &&& range_accepts(virt, phys, length)
        &&& self.can_alloc_n((3 * (length / 0x1000)) as nat)
        &&& forall|off: u64|
            off < length ==> (#[trigger] self.tables_needed(root, (virt + off) as u64, 1)) is Some
                && legal_phys((phys + off) as u64, self.hhdm())
    }

    /// Whether `init` builds the address space for certain: a frame is
    /// left for the root table and three for each page to map, every span
    /// is one that `map_range` accepts, with legal physical addresses, and
    /// no two spans share a page.
    pub open spec fn init_ready(&self, spans: Seq<Span>) -> bool {
        &&& self.can_alloc_n((1 + 3 * span_pages(spans, spans.len() as int)) as nat)
        &&& forall|j: int|
            0 <= j < spans.len() ==> {
                &&& range_accepts((#[trigger] spans[j]).virt, spans[j].phys, spans[j].length)
                &&& clear_of_earlier(spans, j)
                &&& forall|off: u64|
                    off < spans[j].length ==> legal_phys(
                        #[trigger] ((spans[j].phys + off) as u64),
                        self.hhdm(),
                    )
            }
    }

    /// `self` is `old` with some 4 KiB pages unmapped: the same frames and
    /// tables, and every address resolves as before or not at all.
    pub open spec fn shrunk_from(&self, old: &PhysMemory) -> bool {
        &&& self.grows_from(old)
        &&& self.frames() == old.frames()
        &&& forall|rt: u64| #[trigger] self.root_frame(rt) == old.root_frame(rt)
        &&& forall|rt: u64, v: u64|
            (#[trigger] self.translation(rt, v)) is None || self.translation(rt, v)
                == old.translation(rt, v)
        &&& forall|rt: u64, v: u64, l: u8| #[trigger]
            self.table_at(rt, v, l) == old.table_at(rt, v, l)
    }

    /// An arena of `capacity` frames starting at physical address `base`.
    pub fn new(base: u64, hhdm: u64, capacity: usize) -> (mem: PhysMemory)
        ensures
            mem.wf(),
            mem.base() == base,
            mem.hhdm() == hhdm,
            mem.capacity() == capacity,
            mem.frames() == 0,
    {
        PhysMemory { base, hhdm, capacity, tables: Vec::new(), tags: Vec::new() }
    }

    /// The offset of the higher-half window.
    pub fn hhdm_offset(&self) -> (r: u64)
        ensures
            r == self.hhdm(),
    {
        self.hhdm
    }

    /// The frame at physical address `addr`.
    pub fn frame_index(&self, addr: u64) -> (r: Option<usize>)
        requires
            self.wf(),
        ensures
            r is Some == self.frame_of(addr) is Some,
            r is Some ==> r->0 == self.frame_of(addr)->0,
    {
        if addr < self.base {
            return None;
        }
        let off: u64 = addr - self.base;
        if off % 0x1000 != 0 {
            return None;
        }
        let idx: u64 = off / 0x1000;
        if idx >= self.tables.len() as u64 {
            return None;
        }
        Some(idx as usize)
    }

    /// Reads entry `idx` of frame `frame`.
    pub fn read(&self, frame: usize, idx: usize) -> (e: u64)
        requires
            self.wf(),
            frame < self.frames(),
            idx < 512,
        ensures
            e == self.entry(frame as int, idx as int),
    {
        self.tables[frame].entries[idx]
    }

    /// The prefix of frame `frame`.
    pub fn frame_prefix(&self, frame: usize) -> (p: u64)
        requires
            self.wf(),
            frame < self.frames(),
        ensures
            p == self.prefix(frame as int),
    {
        self.tags[frame].prefix
    }

    /// The physical address of frame `frame`.
    pub fn frame_address(&self, frame: usize) -> (a: u64)
        requires
            self.wf(),
            frame < self.frames(),
        ensures
            a == self.frame_addr(frame as int),
            a % 0x1000 == 0,
            a <= ADDR_MASK,
            self.frame_of(a) == Some(frame as int),
    {
        self.base + (frame as u64) * 0x1000
    }

    /// The level of frame `frame`.
    pub fn frame_level(&self, frame: usize) -> (l: u8)
        requires
            self.wf(),
            frame < self.frames(),
        ensures
            l == self.level(frame as int),
    {
        self.tags[frame].level
    }

    /// Follows entry `idx` of `frame` one level down.
    pub fn descend(&self, frame: usize, idx: usize) -> (r: Option<usize>)
        requires
            self.wf(),
            frame < self.frames(),
            idx < 512,
        ensures
            r is Some == self.next_table(frame as int, idx as int) is Some,
            r is Some ==> r->0 == self.next_table(frame as int, idx as int)->0,
            r is Some ==> r->0 < self.frames() && self.level(r->0 as int) == self.level(
                frame as int,
            ) - 1,
    {
        let e = self.read(frame, idx);
        let level = self.frame_level(frame);
        if level <= 1 || e & PRESENT == 0 {
            return None;
        }
        if (level == 3 || level == 2) && e & LPAGES != 0 {
            return None;
        }
        assert(self.is_pointer(frame as int, idx as int));
        self.frame_index(e & ADDR_MASK)
    }

    /// Hands out the next frame, zeroed, as a table of the given level and
    /// prefix, and returns its index.
    pub fn alloc_table(&mut self, level: u8, prefix: u64) -> (r: Option<usize>)
        requires
            old(self).wf(),
            1 <= level <= 4,
            prefix < prefix_bound(level),
        ensures
            final(self).wf(),
            final(self).keeps(old(self)),
            r is Some <==> old(self).can_alloc(),
            r is None ==> *final(self) == *old(self),
            r is Some ==> {
                &&& r->0 == old(self).frames()
                &&& final(self).frames() == old(self).frames() + 1
                &&& final(self).level(r->0 as int) == level
                &&& final(self).prefix(r->0 as int) == prefix
                &&& forall|i: int| 0 <= i < 512 ==> #[trigger] final(self).entry(r->0 as int, i) == 0
            },
    {
        let n = self.tables.len();
        if n >= self.capacity || self.base % 0x1000 != 0 {
            return None;
        }
        if n as u64 > (ADDR_MASK - self.base % 0x1000) / 0x1000 {
            return None;
        }
        if self.base > ADDR_MASK - (n as u64) * 0x1000 {
            return None;
        }
        proof {
            lemma_entry_bits(0, 1);
        }
        self.tables.push(Table { entries: [0u64; 512] });
        self.tags.push(FrameTag { level, prefix });
        assert forall|f: int| 0 <= f < self.frames() implies 1 <= #[trigger] self.level(f) <= 4
            && self.prefix(f) < prefix_bound(self.level(f)) by {
            if f < n {
                assert(self.level(f) == old(self).level(f));
            }
        }
        assert forall|f: int, i: int|
            0 <= f < self.frames() && 0 <= i < 512 && #[trigger] self.is_pointer(f, i) implies {
            let g = self.frame_of(entry_addr(self.entry(f, i)));
            &&& g is Some
            &&& self.level(g->0) == self.level(f) - 1
            &&& self.prefix(g->0) == child_prefix(self.prefix(f), i)
        } by {
            assert(f < n);
            assert(self.entry(f, i) == old(self).entry(f, i));
            assert(old(self).is_pointer(f, i));
        }
        Some(n)
    }

    /// Writes `value` into entry `idx` of `frame`. Where the value is a
    /// pointer at that level, it must lead one level down to a frame with
    /// the matching prefix.
    pub fn write(&mut self, frame: usize, idx: usize, value: u64)
        requires
            old(self).wf(),
            frame < old(self).frames(),
            idx < 512,
            old(self).level(frame as int) > 1 && is_present(value) && !is_large_leaf(
                value,
                old(self).level(frame as int),
            ) ==> {
                let g = old(self).frame_of(entry_addr(value));
                &&& g is Some
                &&& old(self).level(g->0) == old(self).level(frame as int) - 1
                &&& old(self).prefix(g->0) == child_prefix(old(self).prefix(frame as int), idx as int)
            },
        ensures
            final(self).wf(),
            final(self).keeps_except(old(self), frame as int, idx as int),
            final(self).frames() == old(self).frames(),
            final(self).entry(frame as int, idx as int) == value,
    {
        self.tables[frame].entries[idx] = value;
        assert forall|f: int| 0 <= f < self.frames() implies 1 <= #[trigger] self.level(f) <= 4
            && self.prefix(f) < prefix_bound(self.level(f)) by {
            assert(self.level(f) == old(self).level(f));
        }
        assert forall|f: int, i: int|
            0 <= f < self.frames() && 0 <= i < 512 && #[trigger] self.is_pointer(f, i) implies {
            let g = self.frame_of(entry_addr(self.entry(f, i)));
            &&& g is Some
            &&& self.level(g->0) == self.level(f) - 1
            &&& self.prefix(g->0) == child_prefix(self.prefix(f), i)
        } by {
            assert(self.level(f) == old(self).level(f));
            if !(f == frame && i == idx) {
                assert(self.entry(f, i) == old(self).entry(f, i));
                assert(old(self).is_pointer(f, i));
            }
        }
    }

    /// Number of frames handed out so far.
    pub fn frame_count(&self) -> (r: usize)
        requires
            self.wf(),
        ensures
            r == self.frames(),
    {
        self.tables.len()
    }
}

/// Facts on the bits of an entry: zero is not present, and a pointer entry
/// made from a frame's address gives that address back.
pub proof fn lemma_entry_bits(addr: u64, level: u8)
    ensures
        !is_present(0),
        addr % 0x1000 == 0 && addr <= ADDR_MASK ==> {
            let e = addr | RW | USER;
            is_present(e) && !is_large_leaf(e, level) && entry_addr(e) == addr
        },
{
    assert(0u64 & 1 == 0 && (addr % 0x1000 == 0 && addr <= 0x000F_FFFF_FFFF_F000 ==> (addr | 3 | 4)
        & 1 != 0 && (addr | 3 | 4) & 0x80 == 0 && (addr | 3 | 4) & 0x000F_FFFF_FFFF_F000 == addr))
        by (bit_vector);
}

/// The table below entry `idx` of `frame`. Where the entry is not present
/// and `allocate` is set, a zeroed table is handed out and linked there.
/// No translation of any address space changes.
pub fn get_next_level(mem: &mut PhysMemory, frame: usize, idx: usize, allocate: bool) -> (r:
    Option<usize>)
    requires
        old(mem).wf(),
        frame < old(mem).frames(),
        idx < 512,
    ensures
        final(mem).wf(),
        final(mem).keeps_except(old(mem), frame as int, idx as int),
        forall|root: u64, v: u64| #[trigger]
            final(mem).translation(root, v) == old(mem).translation(root, v),
        forall|rt: u64| #[trigger] final(mem).root_frame(rt) == old(mem).root_frame(rt),
        final(mem).keeps_free(old(mem)),
        final(mem).step_from(old(mem), frame as int),
        r is Some ==> final(mem).next_table(frame as int, idx as int) == Some(r->0 as int) && r->0
            < final(mem).frames() && final(mem).level(r->0 as int) == final(mem).level(
            frame as int,
        ) - 1 && final(mem).prefix(r->0 as int) == child_prefix(
            final(mem).prefix(frame as int),
            idx as int,
        ),
        old(mem).next_table(frame as int, idx as int) is Some ==> r is Some && r->0 == old(
            mem,
        ).next_table(frame as int, idx as int)->0 && *final(mem) == *old(mem),
        r is Some <==> old(mem).next_table(frame as int, idx as int) is Some || (allocate
            && old(mem).level(frame as int) > 1 && !is_present(
            old(mem).entry(frame as int, idx as int),
        ) && old(mem).can_alloc()),
        r is None ==> *final(mem) == *old(mem),
        old(mem).next_table(frame as int, idx as int) is None && r is Some ==> {
            &&& r->0 == old(mem).frames()
            &&& final(mem).frames() == old(mem).frames() + 1
            &&& forall|i: int| 0 <= i < 512 ==> #[trigger] final(mem).entry(r->0 as int, i) == 0
        },
{
    proof {
        reveal(PhysMemory::step_from);
    }
    let e = mem.read(frame, idx);
    let level = mem.frame_level(frame);
    if e & PRESENT != 0 {
        return mem.descend(frame, idx);
    }
    if !allocate || level <= 1 {
        return None;
    }
    let ghost before = *mem;
    let prefix = mem.frame_prefix(frame) * 512 + idx as u64;
    let next = match mem.alloc_table(level - 1, prefix) {
        Some(f) => f,
        None => { return None; },
    };
    let addr = mem.frame_address(next);
    proof {
        lemma_entry_bits(addr, level);
    }
    let ghost mid = *mem;
    mem.write(frame, idx, addr | RW | USER);
    assert forall|rt: u64| #[trigger] mem.root_frame(rt) == before.root_frame(rt) by {
        if mem.frame_of(rt) is Some && mem.frame_of(rt)->0 < before.frames() {
            assert(mem.level(mem.frame_of(rt)->0) == before.level(mem.frame_of(rt)->0));
        }
    }
    assert forall|root: u64, v: u64| #[trigger]
        mem.translation(root, v) == before.translation(root, v) by {
        lemma_link_keeps_translation(&before, mem, frame as int, idx as int, root, v);
    }
    assert forall|rt: u64, v: u64, l: u8|
        1 <= l <= 4 && (#[trigger] before.tables_needed(rt, v, l)) is Some implies mem.tables_needed(
        rt,
        v,
        l,
    ) is Some by {
        lemma_link_keeps_needed(&before, mem, frame as int, idx as int, rt, v, l);
    }
    assert(mem.step_from(&before, frame as int)) by {
        assert forall|rt: u64, v: u64, l: u8|
            ((#[trigger] mem.table_at(rt, v, l)) is Some ==> mem.table_at(rt, v, l)
                == before.table_at(rt, v, l) || mem.table_at(rt, v, l) == Some(
                before.frames() as int,
            )) && (before.table_at(rt, v, before.level(frame as int)) != Some(frame as int)
                ==> mem.table_at(rt, v, l) == before.table_at(rt, v, l)) by {
            lemma_link_tables(&before, mem, frame as int, idx as int, rt, v, l);
        }
    }
    Some(next)
}

/// Walks from `root` to the table that holds the entry for `virt` at
/// `level`, handing out the tables that are missing where `allocate` is
/// set. No translation of any address space changes.
pub fn walk_to(mem: &mut PhysMemory, root: u64, virt: u64, level: u8, allocate: bool) -> (r: Option<
    usize,
>)
    requires
        old(mem).wf(),
        1 <= level <= 3,
    ensures
        final(mem).wf(),
        final(mem).grows_from(old(mem)),
        final(mem).frames() <= old(mem).frames() + 3,
        forall|rt: u64, v: u64| #[trigger]
            final(mem).translation(rt, v) == old(mem).translation(rt, v),
        forall|rt: u64| #[trigger] final(mem).root_frame(rt) == old(mem).root_frame(rt),
        final(mem).keeps_free(old(mem)),
        final(mem).gains_from(old(mem)),
        final(mem).strangers_kept(old(mem), root, virt, (level + 1) as u8),
        final(mem).roots_kept(old(mem), root, virt),
        r is Some ==> final(mem).table_at(root, virt, level) == Some(r->0 as int) && r->0
            < final(mem).frames(),
        !allocate ==> *final(mem) == *old(mem) && (r is Some <==> old(mem).table_at(
            root,
            virt,
            level,
        ) is Some),
        allocate ==> (r is Some <==> old(mem).tables_needed(root, virt, level) is Some && old(
            mem,
        ).can_alloc_n(old(mem).tables_needed(root, virt, level)->0)),
{
    proof {
        lemma_same_state(old(mem), root, virt, (level + 1) as u8);
    }
    let mut cur = match mem.frame_index(root) {
        Some(f) => f,
        None => { return None; },
    };
    if mem.frame_level(cur) != 4 {
        return None;
    }
    let mut k: u8 = 4;
    let ghost owed = old(mem).tables_needed(root, virt, level) is Some && old(mem).can_alloc_n(
        old(mem).tables_needed(root, virt, level)->0,
    );
    while k > level
        invariant
            1 <= level <= 3,
            level <= k <= 4,
            old(mem).wf(),
            mem.wf(),
            mem.grows_from(old(mem)),
            mem.frames() + k <= old(mem).frames() + 4,
            forall|rt: u64, v: u64| #[trigger]
                mem.translation(rt, v) == old(mem).translation(rt, v),
            forall|rt: u64| #[trigger] mem.root_frame(rt) == old(mem).root_frame(rt),
            mem.keeps_free(old(mem)),
            mem.gains_from(old(mem)),
            mem.strangers_kept(old(mem), root, virt, (level + 1) as u8),
            mem.roots_kept(old(mem), root, virt),
            cur < mem.frames(),
            mem.table_at(root, virt, k) == Some(cur as int),
            !allocate ==> *mem == *old(mem),
            owed <==> old(mem).tables_needed(root, virt, level) is Some && old(mem).can_alloc_n(
                old(mem).tables_needed(root, virt, level)->0,
            ),
            owed <==> mem.missing_from(cur as int, virt, k, level) is Some && mem.can_alloc_n(
                mem.missing_from(cur as int, virt, k, level)->0,
            ),
        decreases k,
    {
        let ghost before = *mem;
        proof {
            lemma_walk_tags(mem, root, virt);
            lemma_index_bounds(virt);
            lemma_entry_bits(0, 1);
        }
        let next = match get_next_level(mem, cur, index_at(virt, k), allocate) {
            Some(f) => f,
            None => {
                proof {
                    lemma_step_keeps_path(&before, &before, cur as int, k, virt, root);
                    lemma_walk_stops(&before, root, virt, (k - 1) as u8, level);
                }
                return None;
            },
        };
        proof {
            lemma_grows_trans(old(mem), &before, mem);
            assert(mem.keeps_free(old(mem))) by {
                assert forall|rt: u64, v: u64, l: u8|
                    1 <= l <= 4 && (#[trigger] old(mem).tables_needed(rt, v, l))
                        is Some implies mem.tables_needed(rt, v, l) is Some by {
                    assert(before.tables_needed(rt, v, l) is Some);
                }
            }
            lemma_step_keeps_path(&before, mem, cur as int, k, virt, root);
            if before.next_table(cur as int, table_index(virt, k)) is None {
                lemma_missing_empty(mem, next as int, virt, (k - 1) as u8, level);
            }
            lemma_walk_step(
                old(mem),
                &before,
                mem,
                root,
                virt,
                (level + 1) as u8,
                k,
                cur as int,
            );
        }
        cur = next;
        k = k - 1;
    }
    Some(cur)
}

/// A state is to itself as a state after a walk is to the state before.
pub proof fn lemma_same_state(mem: &PhysMemory, root: u64, virt: u64, lo: u8)
    ensures
        mem.gains_from(mem),
        mem.strangers_kept(mem, root, virt, lo),
        mem.roots_kept(mem, root, virt),
{
    reveal(PhysMemory::gains_from);
    reveal(PhysMemory::strangers_kept);
    reveal(PhysMemory::roots_kept);
}

/// One step of a walk, down from the table `cur` that it has come to at
/// level `k`: what held of the walks and of the root tables since the
/// walk began holds a step later.
pub proof fn lemma_walk_step(
    first: &PhysMemory,
    before: &PhysMemory,
    after: &PhysMemory,
    root: u64,
    virt: u64,
    lo: u8,
    k: u8,
    cur: int,
)
    requires
        first.wf(),
        before.wf(),
        before.grows_from(first),
        before.gains_from(first),
        before.strangers_kept(first, root, virt, lo),
        before.roots_kept(first, root, virt),
        forall|rt: u64| #[trigger] before.root_frame(rt) == first.root_frame(rt),
        2 <= lo <= k <= 4,
        before.table_at(root, virt, k) == Some(cur),
        after.step_from(before, cur),
        after.keeps_except(before, cur, table_index(virt, k)),
        forall|rt: u64, v: u64| #[trigger] after.translation(rt, v) == before.translation(rt, v),
    ensures
        after.gains_from(first),
        after.strangers_kept(first, root, virt, lo),
        after.roots_kept(first, root, virt),
{
    reveal(PhysMemory::gains_from);
    reveal(PhysMemory::strangers_kept);
    reveal(PhysMemory::roots_kept);
    reveal(PhysMemory::step_from);
    lemma_walk_tags(before, root, virt);
    lemma_index_bounds(virt);
    assert forall|rt: u64, v: u64, l: u8| (#[trigger] after.table_at(rt, v, l)) is Some implies (
    after.table_at(rt, v, l) == first.table_at(rt, v, l) || after.table_at(rt, v, l)->0
        >= first.frames()) by {
        if after.table_at(rt, v, l) == before.table_at(rt, v, l) {
            assert(before.table_at(rt, v, l) is Some);
        }
    }
    assert forall|rt: u64, v: u64| !first.meets(rt, v, root, virt, lo) implies #[trigger]
        after.translation(rt, v) == first.translation(rt, v) && forall|l: u8| #[trigger]
        after.table_at(rt, v, l) == first.table_at(rt, v, l) by {
        assert(before.translation(rt, v) == first.translation(rt, v));
        assert(before.table_at(rt, v, k) == first.table_at(rt, v, k));
        lemma_walk_tags(first, rt, v);
        if before.table_at(rt, v, k) == Some(cur) {
            assert(first.table_at(rt, v, k) == Some(cur));
            assert(cur < first.frames());
            assert(before.table_at(root, virt, k) is Some);
            assert(first.table_at(root, virt, k) == Some(cur));
            assert(first.meets(rt, v, root, virt, lo));
        }
        assert forall|l: u8| #[trigger] after.table_at(rt, v, l) == first.table_at(rt, v, l) by {
            assert(before.table_at(rt, v, l) == first.table_at(rt, v, l));
        }
    }
    assert forall|f: int, i: int|
        0 <= f < first.frames() && 0 <= i < 512 && first.level(f) == 4 && !(first.root_frame(root)
            == Some(f) && i == table_index(virt, 4)) implies #[trigger] after.entry(f, i)
        == first.entry(f, i) by {
        assert(before.entry(f, i) == first.entry(f, i));
        assert(before.level(f) == first.level(f));
        if f == cur && i == table_index(virt, k) {
            assert(k == 4);
            assert(before.table_at(root, virt, 4) == before.root_frame(root));
        }
    }
}

/// A write of a leaf, or of nothing, to an entry of `frame`: every walk
/// comes to the tables that it came to, if it comes to any; a walk that
/// did not come to `frame` comes to all of them and to its old result.
pub proof fn lemma_write_tables(
    old: &PhysMemory,
    new: &PhysMemory,
    frame: int,
    idx: int,
    rt: u64,
    v: u64,
    l: u8,
)
    requires
        old.wf(),
        new.wf(),
        new.keeps_except(old, frame, idx),
        new.frames() == old.frames(),
        0 <= frame < old.frames(),
        0 <= idx < 512,
        1 <= old.level(frame) <= 3,
        !new.is_pointer(frame, idx),
    ensures
        new.root_frame(rt) == old.root_frame(rt),
        new.table_at(rt, v, l) is Some ==> new.table_at(rt, v, l) == old.table_at(rt, v, l),
        old.table_at(rt, v, old.level(frame)) != Some(frame) ==> new.table_at(rt, v, l)
            == old.table_at(rt, v, l) && new.translation(rt, v) == old.translation(rt, v),
{
    reveal(PhysMemory::translation);
    lemma_walk_tags(old, rt, v);
    lemma_walk_tags(new, rt, v);
    lemma_index_bounds(v);
}

/// The write that ends `map` or `unmap`, to the table `t` that the walk
/// from `root` for `virt` has come to at `level`: what held of the walks
/// and of the root tables after the walk holds after the write, of the
/// walks that met that walk at no level from `level` up.
pub proof fn lemma_walk_written(
    first: &PhysMemory,
    mid: &PhysMemory,
    new: &PhysMemory,
    root: u64,
    virt: u64,
    level: u8,
    t: int,
)
    requires
        first.wf(),
        mid.wf(),
        new.wf(),
        1 <= level <= 3,
        mid.grows_from(first),
        mid.gains_from(first),
        mid.strangers_kept(first, root, virt, (level + 1) as u8),
        mid.roots_kept(first, root, virt),
        mid.table_at(root, virt, level) == Some(t),
        new.keeps_except(mid, t, table_index(virt, level)),
        new.frames() == mid.frames(),
        !new.is_pointer(t, table_index(virt, level)),
    ensures
        new.gains_from(first),
        new.strangers_kept(first, root, virt, level),
        new.roots_kept(first, root, virt),
{
    reveal(PhysMemory::gains_from);
    reveal(PhysMemory::strangers_kept);
    reveal(PhysMemory::roots_kept);
    lemma_walk_tags(mid, root, virt);
    lemma_index_bounds(virt);
    let idx = table_index(virt, level);
    assert forall|rt: u64, v: u64, l: u8| (#[trigger] new.table_at(rt, v, l)) is Some implies (
    new.table_at(rt, v, l) == first.table_at(rt, v, l) || new.table_at(rt, v, l)->0
        >= first.frames()) by {
        lemma_write_tables(mid, new, t, idx, rt, v, l);
        assert(mid.table_at(rt, v, l) is Some);
    }
    assert forall|rt: u64, v: u64| !first.meets(rt, v, root, virt, level) implies #[trigger]
        new.translation(rt, v) == first.translation(rt, v) && forall|l: u8| #[trigger]
        new.table_at(rt, v, l) == first.table_at(rt, v, l) by {
        assert(!first.meets(rt, v, root, virt, (level + 1) as u8)) by {
            if first.meets(rt, v, root, virt, (level + 1) as u8) {
                let m = choose|m: u8|
                    level + 1 <= m <= 4 && (#[trigger] first.table_at(rt, v, m)) is Some
                        && first.table_at(rt, v, m) == first.table_at(root, virt, m);
                assert(level <= m <= 4 && first.table_at(rt, v, m) is Some);
            }
        }
        assert(mid.translation(rt, v) == first.translation(rt, v));
        assert(mid.table_at(rt, v, level) == first.table_at(rt, v, level));
        lemma_walk_tags(first, rt, v);
        if mid.table_at(rt, v, level) == Some(t) {
            assert(t < first.frames());
            assert(mid.table_at(root, virt, level) is Some);
            assert(first.table_at(root, virt, level) == Some(t));
            assert(first.table_at(rt, v, level) is Some);
            assert(first.meets(rt, v, root, virt, level));
        }
        lemma_write_tables(mid, new, t, idx, rt, v, level);
        assert forall|l: u8| #[trigger] new.table_at(rt, v, l) == first.table_at(rt, v, l) by {
            lemma_write_tables(mid, new, t, idx, rt, v, l);
            assert(mid.table_at(rt, v, l) == first.table_at(rt, v, l));
        }
    }
    assert forall|f: int, i: int|
        0 <= f < first.frames() && 0 <= i < 512 && first.level(f) == 4 && !(first.root_frame(root)
            == Some(f) && i == table_index(virt, 4)) implies #[trigger] new.entry(f, i)
        == first.entry(f, i) by {
        assert(mid.entry(f, i) == first.entry(f, i));
        assert(mid.level(f) == first.level(f));
    }
}

/// A walk that meets another at no level from `lo` up meets it at none
/// from a level above `lo` up.
pub proof fn lemma_strangers_more(
    new: &PhysMemory,
    old: &PhysMemory,
    root: u64,
    virt: u64,
    lo: u8,
    hi: u8,
)
    requires
        lo <= hi,
        new.strangers_kept(old, root, virt, hi),
    ensures
        new.strangers_kept(old, root, virt, lo),
{
    reveal(PhysMemory::strangers_kept);
    assert forall|rt: u64, v: u64| !old.meets(rt, v, root, virt, lo) implies #[trigger]
        new.translation(rt, v) == old.translation(rt, v) && forall|l: u8| #[trigger]
        new.table_at(rt, v, l) == old.table_at(rt, v, l) by {
        if old.meets(rt, v, root, virt, hi) {
            let m = choose|m: u8|
                hi <= m <= 4 && (#[trigger] old.table_at(rt, v, m)) is Some && old.table_at(rt, v, m)
                    == old.table_at(root, virt, m);
            assert(lo <= m <= 4 && old.table_at(rt, v, m) is Some);
        }
    }
}

/// What leaves the other address spaces alone step by step leaves them
/// alone in all.
pub proof fn lemma_others_trans(a: &PhysMemory, b: &PhysMemory, c: &PhysMemory, root: u64)
    requires
        b.others_kept(a, root),
        c.others_kept(b, root),
    ensures
        c.others_kept(a, root),
{
    assert forall|x: u64| (#[trigger] a.apart(root, x)) implies c.left_alone(a, root, x) by {
        assert(b.left_alone(a, root, x));
        assert(b.apart(root, x));
        assert(c.left_alone(b, root, x));
        assert forall|y: u64| #[trigger] c.translation(x, y) == a.translation(x, y) by {
            assert(b.translation(x, y) == a.translation(x, y));
        }
        assert forall|y: u64, l: u8| #[trigger] c.table_at(x, y, l) == a.table_at(x, y, l) by {
            assert(b.table_at(x, y, l) == a.table_at(x, y, l));
        }
    }
}

/// An address below the middle of the address space is one of the lower
/// half.
pub proof fn lemma_lower_half(v: u64)
    requires
        v < 0x8000_0000_0000,
    ensures
        table_index(v, 4) < 256,
{
    assert(v < 0x8000_0000_0000 ==> (v >> 39) & 0x1ff < 256) by (bit_vector);
}

/// Nothing done, nothing changed.
pub proof fn lemma_others_same(mem: &PhysMemory, root: u64)
    ensures
        mem.others_kept(mem, root),
{
}

/// What is done to the lower half of the address space rooted at `a`, at
/// `virt`, leaves alone every address space that was apart from it, and
/// leaves the two apart: the walks from the other root meet the walk for
/// `virt` nowhere, and the tables that the walks from `a` gain are new.
pub proof fn lemma_others_kept(first: &PhysMemory, new: &PhysMemory, a: u64, virt: u64, level: u8)
    requires
        first.wf(),
        1 <= level <= 3,
        table_index(virt, 4) < 256,
        new.gains_from(first),
        new.strangers_kept(first, a, virt, level),
        forall|rt: u64| #[trigger] new.root_frame(rt) == first.root_frame(rt),
    ensures
        new.others_kept(first, a),
{
    assert forall|b: u64| (#[trigger] first.apart(a, b)) implies new.left_alone(first, a, b) by {
        lemma_apart_kept(first, new, a, b, virt, level);
    }
}

/// The same, for one other address space.
pub proof fn lemma_apart_kept(
    first: &PhysMemory,
    new: &PhysMemory,
    a: u64,
    b: u64,
    virt: u64,
    level: u8,
)
    requires
        first.wf(),
        1 <= level <= 3,
        table_index(virt, 4) < 256,
        first.apart(a, b),
        new.gains_from(first),
        new.strangers_kept(first, a, virt, level),
        forall|rt: u64| #[trigger] new.root_frame(rt) == first.root_frame(rt),
    ensures
        new.apart(a, b),
        new.same_walks(first, b),
{
    reveal(PhysMemory::gains_from);
    reveal(PhysMemory::strangers_kept);
    assert forall|x: u64| !first.meets(b, x, a, virt, level) by {
        if first.meets(b, x, a, virt, level) {
            let m = choose|m: u8|
                level <= m <= 4 && (#[trigger] first.table_at(b, x, m)) is Some && first.table_at(
                    b,
                    x,
                    m,
                ) == first.table_at(a, virt, m);
            lemma_walk_tags(first, b, x);
            lemma_walk_tags(first, a, virt);
            lemma_prefix_step(x);
            lemma_prefix_step(virt);
            lemma_index_bounds(x);
            lemma_index_bounds(virt);
            if m == 4 {
                assert(first.table_at(b, x, 4) == first.root_frame(b));
                assert(first.table_at(a, virt, 4) == first.root_frame(a));
            } else {
                assert(table_prefix(x, m) == table_prefix(virt, m));
                assert(table_index(x, 4) == table_index(virt, 4));
                assert(first.table_at(a, virt, m) is Some);
            }
        }
    }
    assert forall|x: u64| #[trigger] new.translation(b, x) == first.translation(b, x) by {
        assert(!first.meets(b, x, a, virt, level));
    }
    assert forall|x: u64, l: u8| #[trigger] new.table_at(b, x, l) == first.table_at(b, x, l) by {
        assert(!first.meets(b, x, a, virt, level));
        assert(new.translation(b, x) == first.translation(b, x));
    }
    assert forall|v: u64, w: u64, l: u8|
        table_index(v, 4) < 256 && table_index(w, 4) < 256 && 1 <= l <= 3 && (
        #[trigger] new.table_at(a, v, l)) is Some implies new.table_at(a, v, l) != (
    #[trigger] new.table_at(b, w, l)) by {
        assert(new.table_at(b, w, l) == first.table_at(b, w, l));
        lemma_walk_tags(first, b, w);
        if new.table_at(a, v, l) == first.table_at(a, v, l) {
            assert(first.table_at(a, v, l) is Some);
        }
    }
}

/// An address space whose root table holds nothing in its lower half is
/// apart from every other, either way round.
pub proof fn lemma_empty_apart(mem: &PhysMemory, a: u64, b: u64)
    requires
        mem.wf(),
        mem.root_frame(a) is Some,
        mem.root_frame(b) is Some,
        mem.root_frame(a) != mem.root_frame(b),
        forall|i: int| 0 <= i < 256 ==> #[trigger] mem.entry(mem.root_frame(a)->0, i) == 0,
    ensures
        mem.apart(a, b),
        mem.apart(b, a),
{
    lemma_entry_bits(0, 1);
    assert forall|v: u64, l: u8| table_index(v, 4) < 256 && 1 <= l <= 3 implies (
    #[trigger] mem.table_at(a, v, l)) is None by {
        lemma_index_bounds(v);
    }
}

/// Below an empty table every table is missing.
pub proof fn lemma_missing_empty(mem: &PhysMemory, frame: int, virt: u64, k: u8, level: u8)
    requires
        forall|i: int| 0 <= i < 512 ==> #[trigger] mem.entry(frame, i) == 0,
        1 <= level <= k <= 3,
    ensures
        mem.missing_from(frame, virt, k, level) == Some((k - level) as nat),
{
    lemma_entry_bits(0, 1);
    lemma_index_bounds(virt);
}

/// A walk that has stopped does not reach a lower level.
pub proof fn lemma_walk_stops(mem: &PhysMemory, root: u64, virt: u64, k: u8, level: u8)
    requires
        1 <= level <= k <= 4,
        mem.table_at(root, virt, k) is None,
    ensures
        mem.table_at(root, virt, level) is None,
{
}

/// A change to the entry that the walk for `virt` reads at level `k`
/// keeps the walk down to that level, and what it finds below is what the
/// entry now points to.
pub proof fn lemma_step_keeps_path(
    old: &PhysMemory,
    new: &PhysMemory,
    frame: int,
    k: u8,
    virt: u64,
    root: u64,
)
    requires
        old.wf(),
        new.wf(),
        2 <= k <= 4,
        new.keeps_except(old, frame, table_index(virt, k)),
        old.table_at(root, virt, k) == Some(frame),
    ensures
        new.table_at(root, virt, k) == Some(frame),
        new.table_at(root, virt, (k - 1) as u8) == new.next_table(frame, table_index(virt, k)),
        old.table_at(root, virt, (k - 1) as u8) == old.next_table(frame, table_index(virt, k)),
{
    lemma_walk_tags(old, root, virt);
    lemma_index_bounds(virt);
}

/// Linking a fresh, empty table below an entry that was not present
/// changes the translation of no address.
pub proof fn lemma_link_keeps_translation(
    old: &PhysMemory,
    new: &PhysMemory,
    frame: int,
    idx: int,
    root: u64,
    v: u64,
)
    requires
        old.wf(),
        new.wf(),
        new.keeps_except(old, frame, idx),
        0 <= frame < old.frames(),
        0 <= idx < 512,
        !is_present(old.entry(frame, idx)),
        new.frames() == old.frames() + 1,
        new.next_table(frame, idx) == Some(old.frames() as int),
        forall|i: int| 0 <= i < 512 ==> #[trigger] new.entry(old.frames() as int, i) == 0,
    ensures
        new.translation(root, v) == old.translation(root, v),
{
    reveal(PhysMemory::translation);
    lemma_entry_bits(0, 1);
    lemma_walk_tags(old, root, v);
    lemma_walk_tags(new, root, v);
    lemma_index_bounds(v);
}

/// Linking a fresh, empty table below an entry that was not present puts
/// no large page in the way of any walk.
pub proof fn lemma_link_keeps_needed(
    old: &PhysMemory,
    new: &PhysMemory,
    frame: int,
    idx: int,
    root: u64,
    v: u64,
    level: u8,
)
    requires
        old.wf(),
        new.wf(),
        new.keeps_except(old, frame, idx),
        0 <= frame < old.frames(),
        0 <= idx < 512,
        !is_present(old.entry(frame, idx)),
        new.frames() == old.frames() + 1,
        new.next_table(frame, idx) == Some(old.frames() as int),
        forall|i: int| 0 <= i < 512 ==> #[trigger] new.entry(old.frames() as int, i) == 0,
        1 <= level <= 4,
        old.tables_needed(root, v, level) is Some,
    ensures
        new.tables_needed(root, v, level) is Some,
{
    reveal_with_fuel(PhysMemory::missing_from, 5);
    lemma_entry_bits(0, 1);
    lemma_walk_tags(old, root, v);
    lemma_walk_tags(new, root, v);
    lemma_index_bounds(v);
}

/// A write to the entry for `virt` at `level` puts no large page in the
/// way of a walk for an address outside that page.
pub proof fn lemma_write_keeps_needed(
    old: &PhysMemory,
    new: &PhysMemory,
    frame: int,
    level: u8,
    virt: u64,
    root: u64,
    v: u64,
    target: u8,
)
    requires
        old.wf(),
        new.wf(),
        1 <= level <= 3,
        0 <= frame < old.frames(),
        new.frames() == old.frames(),
        new.keeps_except(old, frame, table_index(virt, level)),
        old.level(frame) == level,
        old.prefix(frame) == table_prefix(virt, level),
        !same_page(v, virt, level),
        1 <= target <= 4,
    ensures
        new.tables_needed(root, v, target) == old.tables_needed(root, v, target),
{
    reveal_with_fuel(PhysMemory::missing_from, 5);
    lemma_walk_tags(old, root, v);
    lemma_index_bounds(v);
    lemma_index_bounds(virt);
    assert(new.root_frame(root) == old.root_frame(root));
    if old.root_frame(root) is Some && target < 4 {
        let t4 = old.root_frame(root)->0;
        let i4 = table_index(v, 4);
        assert(old.table_at(root, v, 4) == Some(t4));
        assert(new.entry(t4, i4) == old.entry(t4, i4));
        assert(new.next_table(t4, i4) == old.next_table(t4, i4));
        if old.next_table(t4, i4) is Some && target < 3 {
            let t3 = old.next_table(t4, i4)->0;
            let i3 = table_index(v, 3);
            assert(old.table_at(root, v, 3) == Some(t3));
            assert(new.entry(t3, i3) == old.entry(t3, i3));
            assert(new.next_table(t3, i3) == old.next_table(t3, i3));
            if old.next_table(t3, i3) is Some && target < 2 {
                let t2 = old.next_table(t3, i3)->0;
                let i2 = table_index(v, 2);
                assert(old.table_at(root, v, 2) == Some(t2));
                assert(new.entry(t2, i2) == old.entry(t2, i2));
                assert(new.next_table(t2, i2) == old.next_table(t2, i2));
            }
        }
    }
}

/// Where no large page lies in the way to the last level, none lies in
/// the way to a level above it, and at most three tables are missing.
pub proof fn lemma_needed_levels(mem: &PhysMemory, root: u64, v: u64, level: u8)
    requires
        1 <= level <= 3,
        mem.tables_needed(root, v, 1) is Some,
    ensures
        mem.tables_needed(root, v, level) is Some,
        mem.tables_needed(root, v, level)->0 <= 3,
{
    reveal_with_fuel(PhysMemory::missing_from, 5);
}

/// Linking a fresh, empty table below an entry of `frame` that was not
/// present: every walk comes to the tables that it came to, or to the
/// fresh one; a walk that did not come to `frame` comes to the tables
/// that it came to.
pub proof fn lemma_link_tables(
    old: &PhysMemory,
    new: &PhysMemory,
    frame: int,
    idx: int,
    rt: u64,
    v: u64,
    l: u8,
)
    requires
        old.wf(),
        new.wf(),
        new.keeps_except(old, frame, idx),
        0 <= frame < old.frames(),
        0 <= idx < 512,
        !is_present(old.entry(frame, idx)),
        new.frames() == old.frames() + 1,
        new.next_table(frame, idx) == Some(old.frames() as int),
        forall|i: int| 0 <= i < 512 ==> #[trigger] new.entry(old.frames() as int, i) == 0,
        forall|r: u64| #[trigger] new.root_frame(r) == old.root_frame(r),
    ensures
        new.table_at(rt, v, l) is Some ==> new.table_at(rt, v, l) == old.table_at(rt, v, l)
            || new.table_at(rt, v, l) == Some(old.frames() as int),
        old.table_at(rt, v, old.level(frame)) != Some(frame) ==> new.table_at(rt, v, l)
            == old.table_at(rt, v, l),
{
    lemma_entry_bits(0, 1);
    lemma_walk_tags(old, rt, v);
    lemma_walk_tags(new, rt, v);
    lemma_index_bounds(v);
}

/// Every index is below 512.
pub proof fn lemma_index_bounds(v: u64)
    ensures
        forall|level: u8| 0 <= #[trigger] table_index(v, level) < 512,
{
    assert(((v >> 39) & 0x1ff) < 512 && ((v >> 30) & 0x1ff) < 512 && ((v >> 21) & 0x1ff) < 512 && ((
    v >> 12) & 0x1ff) < 512) by (bit_vector);
}

/// How the prefix of one level grows into that of the next.
pub proof fn lemma_prefix_step(v: u64)
    ensures
        table_prefix(v, 4) == 0,
        table_prefix(v, 3) == child_prefix(table_prefix(v, 4), table_index(v, 4)),
        table_prefix(v, 2) == child_prefix(table_prefix(v, 3), table_index(v, 3)),
        table_prefix(v, 1) == child_prefix(table_prefix(v, 2), table_index(v, 2)),
{
    assert(((v >> 39) & 0x1ff) * 512 + ((v >> 30) & 0x1ff) == (v >> 30) & 0x3ffff && ((v >> 30)
        & 0x3ffff) * 512 + ((v >> 21) & 0x1ff) == (v >> 21) & 0x7ffffff) by (bit_vector);
}

/// The table that a walk reaches at a level is a frame of that level whose
/// prefix is that of the address walked.
pub proof fn lemma_walk_tags(mem: &PhysMemory, root: u64, v: u64)
    requires
        mem.wf(),
    ensures
        forall|level: u8|
            1 <= level <= 4 && (#[trigger] mem.table_at(root, v, level)) is Some ==> {
                let f = mem.table_at(root, v, level)->0;
                &&& 0 <= f < mem.frames()
                &&& mem.level(f) == level
                &&& mem.prefix(f) == table_prefix(v, level)
            },
{
    lemma_prefix_step(v);
    lemma_index_bounds(v);
    let t4 = mem.table_at(root, v, 4);
    if t4 is Some {
        assert(mem.level(t4->0) == 4);
        assert(mem.prefix(t4->0) == 0);
        let t3 = mem.table_at(root, v, 3);
        if t3 is Some {
            assert(mem.is_pointer(t4->0, table_index(v, 4)));
            let t2 = mem.table_at(root, v, 2);
            if t2 is Some {
                assert(mem.is_pointer(t3->0, table_index(v, 3)));
                let t1 = mem.table_at(root, v, 1);
                if t1 is Some {
                    assert(mem.is_pointer(t2->0, table_index(v, 2)));
                }
            }
        }
    }
}

/// Frames and tags are kept along a chain of states.
pub proof fn lemma_grows_trans(a: &PhysMemory, b: &PhysMemory, c: &PhysMemory)
    requires
        b.grows_from(a),
        c.grows_from(b) || exists|f: int, i: int| c.keeps_except(b, f, i),
    ensures
        c.grows_from(a),
{
    assert forall|f: int| 0 <= f < a.frames() implies #[trigger] c.level(f) == a.level(f)
        && c.prefix(f) == a.prefix(f) by {
        assert(b.level(f) == a.level(f));
        assert(c.level(f) == b.level(f));
    }
}

/// An entry with the large-page bit set has it set.
pub proof fn lemma_lpages_bit(e: u64)
    ensures
        (e | LPAGES) & LPAGES != 0,
{
    assert((e | 0x80) & 0x80 != 0) by (bit_vector);
}

/// A write to the entry for `virt` at `level` leaves the walk for `virt`
/// down to that level as it was, and the root tables where they were.
pub proof fn lemma_write_keeps_path(
    old: &PhysMemory,
    new: &PhysMemory,
    frame: int,
    level: u8,
    virt: u64,
    root: u64,
)
    requires
        old.wf(),
        new.wf(),
        1 <= level <= 3,
        new.frames() == old.frames(),
        new.keeps_except(old, frame, table_index(virt, level)),
        old.table_at(root, virt, level) == Some(frame),
    ensures
        new.table_at(root, virt, level) == Some(frame),
        forall|rt: u64| #[trigger] new.root_frame(rt) == old.root_frame(rt),
{
    lemma_walk_tags(old, root, virt);
    lemma_index_bounds(virt);
}

/// Clearing an entry takes translations away and changes none.
pub proof fn lemma_clear_shrinks(
    old: &PhysMemory,
    new: &PhysMemory,
    frame: int,
    idx: int,
    root: u64,
    v: u64,
)
    requires
        old.wf(),
        new.wf(),
        new.keeps_except(old, frame, idx),
        new.frames() == old.frames(),
        0 <= frame < old.frames(),
        0 <= idx < 512,
        new.entry(frame, idx) == 0,
    ensures
        new.translation(root, v) is None || new.translation(root, v) == old.translation(root, v),
{
    reveal(PhysMemory::translation);
    lemma_entry_bits(0, 1);
    lemma_walk_tags(old, root, v);
    lemma_walk_tags(new, root, v);
    lemma_index_bounds(v);
}

/// A write to a last-level table changes the way to no table.
pub proof fn lemma_last_level_keeps_tables(
    old: &PhysMemory,
    new: &PhysMemory,
    frame: int,
    idx: int,
    root: u64,
    v: u64,
    level: u8,
)
    requires
        old.wf(),
        new.wf(),
        new.keeps_except(old, frame, idx),
        new.frames() == old.frames(),
        0 <= frame < old.frames(),
        old.level(frame) == 1,
    ensures
        new.table_at(root, v, level) == old.table_at(root, v, level),
{
    lemma_walk_tags(old, root, v);
    lemma_walk_tags(new, root, v);
    lemma_index_bounds(v);
}

/// Unmapping after unmapping is unmapping.
pub proof fn lemma_shrunk_trans(a: &PhysMemory, b: &PhysMemory, c: &PhysMemory)
    requires
        b.shrunk_from(a),
        c.shrunk_from(b),
    ensures
        c.shrunk_from(a),
{
    assert forall|f: int| 0 <= f < a.frames() implies #[trigger] c.level(f) == a.level(f)
        && c.prefix(f) == a.prefix(f) by {
        assert(b.level(f) == a.level(f));
        assert(c.level(f) == b.level(f));
    }
    assert forall|rt: u64| #[trigger] c.root_frame(rt) == a.root_frame(rt) by {
        assert(b.root_frame(rt) == a.root_frame(rt));
    }
    assert forall|rt: u64, v: u64|
        (#[trigger] c.translation(rt, v)) is None || c.translation(rt, v) == a.translation(
            rt,
            v,
        ) by {
        assert(b.translation(rt, v) is None || b.translation(rt, v) == a.translation(rt, v));
    }
    assert forall|rt: u64, v: u64, l: u8| #[trigger] c.table_at(rt, v, l) == a.table_at(rt, v, l) by {
        assert(b.table_at(rt, v, l) == a.table_at(rt, v, l));
    }
}

/// Addresses with the same page number lie in the same page.
pub proof fn lemma_page_number(v: u64, virt: u64, psize: u64)
    requires
        is_page_size(psize),
        v / psize == virt / psize,
    ensures
        same_page(v, virt, leaf_level(psize)),
{
    assert((v / 0x1000 == virt / 0x1000 ==> (v >> 21) & 0x7ffffff == (virt >> 21) & 0x7ffffff && (v
        >> 12) & 0x1ff == (virt >> 12) & 0x1ff) && (v / 0x20_0000 == virt / 0x20_0000 ==> (v >> 30)
        & 0x3ffff == (virt >> 30) & 0x3ffff && (v >> 21) & 0x1ff == (virt >> 21) & 0x1ff) && (v
        / 0x4000_0000 == virt / 0x4000_0000 ==> (v >> 39) & 0x1ff == (virt >> 39) & 0x1ff && (v
        >> 30) & 0x1ff == (virt >> 30) & 0x1ff)) by (bit_vector);
}

/// Frames that were added, and that no old entry points to, change no
/// translation of an address space that was there before.
pub proof fn lemma_grown_keeps_translation(old: &PhysMemory, new: &PhysMemory, root: u64, v: u64)
    requires
        old.wf(),
        new.wf(),
        new.keeps(old),
        old.root_frame(root) is Some,
    ensures
        new.translation(root, v) == old.translation(root, v),
        new.root_frame(root) == old.root_frame(root),
{
    reveal(PhysMemory::translation);
    lemma_walk_tags(old, root, v);
    lemma_walk_tags(new, root, v);
    lemma_index_bounds(v);
}

/// Two states that differ only in entries of root tables: where the root
/// table at `b` in the new state holds, for `v`, the entry that the root
/// table at `a` held in the old one, `v` resolves from `b` as it did from
/// `a`.
pub proof fn lemma_root_entries_decide(old: &PhysMemory, new: &PhysMemory, a: u64, b: u64, v: u64)
    requires
        old.wf(),
        new.wf(),
        new.grows_from(old),
        new.frames() == old.frames(),
        forall|f: int, i: int|
            0 <= f < old.frames() && 0 <= i < 512 && old.level(f) != 4 ==> #[trigger] new.entry(f, i)
                == old.entry(f, i),
        old.root_frame(a) is Some == new.root_frame(b) is Some,
        old.root_frame(a) is Some ==> new.entry(new.root_frame(b)->0, table_index(v, 4))
            == old.entry(old.root_frame(a)->0, table_index(v, 4)),
    ensures
        new.translation(b, v) == old.translation(a, v),
{
    reveal(PhysMemory::translation);
    lemma_index_bounds(v);
    if old.root_frame(a) is Some {
        let ta = old.root_frame(a)->0;
        let tb = new.root_frame(b)->0;
        let i4 = table_index(v, 4);
        assert(old.is_pointer(ta, i4) == new.is_pointer(tb, i4));
        if old.is_pointer(ta, i4) {
            let t3 = old.next_table(ta, i4)->0;
            assert(new.next_table(tb, i4) == Some(t3));
            assert(old.level(t3) == 3);
            let i3 = table_index(v, 3);
            assert(new.entry(t3, i3) == old.entry(t3, i3));
            assert(old.is_pointer(t3, i3) == new.is_pointer(t3, i3));
            if old.is_pointer(t3, i3) {
                let t2 = old.next_table(t3, i3)->0;
                assert(new.next_table(t3, i3) == Some(t2));
                assert(old.level(t2) == 2);
                let i2 = table_index(v, 2);
                assert(new.entry(t2, i2) == old.entry(t2, i2));
                assert(old.is_pointer(t2, i2) == new.is_pointer(t2, i2));
                if old.is_pointer(t2, i2) {
                    let t1 = old.next_table(t2, i2)->0;
                    assert(new.next_table(t2, i2) == Some(t1));
                    assert(old.level(t1) == 1);
                    assert(new.entry(t1, table_index(v, 1)) == old.entry(t1, table_index(v, 1)));
                }
            }
        }
    }
}

/// Addresses of one page select the same entries down to the page's level.
pub proof fn lemma_same_page_indices(v: u64, virt: u64, level: u8)
    requires
        same_page(v, virt, level),
        1 <= level <= 3,
    ensures
        forall|l: u8| level <= l <= 4 ==> #[trigger] table_index(v, l) == table_index(virt, l),
{
    assert(((v >> 30) & 0x3ffff == (virt >> 30) & 0x3ffff ==> (v >> 39) & 0x1ff == (virt >> 39)
        & 0x1ff && (v >> 30) & 0x1ff == (virt >> 30) & 0x1ff) && ((v >> 21) & 0x7ffffff == (virt
        >> 21) & 0x7ffffff ==> (v >> 39) & 0x1ff == (virt >> 39) & 0x1ff && (v >> 30) & 0x1ff == (
    virt >> 30) & 0x1ff && (v >> 21) & 0x1ff == (virt >> 21) & 0x1ff)) by (bit_vector);
    assert forall|l: u8| level <= l <= 4 implies #[trigger] table_index(v, l) == table_index(
        virt,
        l,
    ) by {
        assert(l == 1 || l == 2 || l == 3 || l == 4);
    }
}

/// A write to the entry for `virt` at `level` leaves the translation of
/// every address outside that page as it was, in every address space.
pub proof fn lemma_write_keeps_others(
    old: &PhysMemory,
    new: &PhysMemory,
    frame: int,
    level: u8,
    virt: u64,
    root: u64,
    v: u64,
)
    requires
        old.wf(),
        new.wf(),
        1 <= level <= 3,
        0 <= frame < old.frames(),
        new.frames() == old.frames(),
        new.keeps_except(old, frame, table_index(virt, level)),
        old.level(frame) == level,
        old.prefix(frame) == table_prefix(virt, level),
        !same_page(v, virt, level),
    ensures
        new.translation(root, v) == old.translation(root, v),
{
    reveal(PhysMemory::translation);
    lemma_walk_tags(old, root, v);
    lemma_walk_tags(new, root, v);
    lemma_index_bounds(v);
    lemma_index_bounds(virt);
}

/// Where the walk for `virt` reaches `level` and the entry there is a leaf
/// or not present, that entry decides every address of the page.
pub proof fn lemma_leaf_decides(mem: &PhysMemory, root: u64, virt: u64, level: u8, v: u64)
    requires
        mem.wf(),
        1 <= level <= 3,
        mem.table_at(root, virt, level) is Some,
        !mem.is_pointer(mem.table_at(root, virt, level)->0, table_index(virt, level)),
        same_page(v, virt, level),
    ensures
        mem.translation(root, v) == leaf_result(
            mem.entry(mem.table_at(root, virt, level)->0, table_index(virt, level)),
            v,
            level,
        ),
{
    reveal(PhysMemory::translation);
    lemma_same_page_indices(v, virt, level);
    lemma_walk_tags(mem, root, virt);
    lemma_index_bounds(virt);
    assert(table_index(v, 4) == table_index(virt, 4));
    assert(level <= 3 ==> table_index(v, 3) == table_index(virt, 3));
    assert(level <= 2 ==> table_index(v, 2) == table_index(virt, 2));
    assert(level <= 1 ==> table_index(v, 1) == table_index(virt, 1));
}

/// The address arithmetic of a leaf: an aligned physical address joined
/// with flags that keep clear of it gives, for an address `off` bytes into
/// the page, the physical address `off` bytes into the frame.
pub proof fn lemma_leaf_address(virt: u64, phys: u64, flags: u64, psize: u64, v: u64)
    requires
        is_page_size(psize),
        is_aligned(virt, psize),
        is_aligned(phys, psize),
        phys <= ADDR_MASK,
        is_present(flags),
        flags & ADDR_MASK == 0,
        virt <= v,
        v - virt < psize,
    ensures
        same_page(v, virt, leaf_level(psize)),
        leaf_result(leaf_entry(phys, flags, psize), v, leaf_level(psize)) == Some(
            (phys + (v - virt)) as u64,
        ),
{
    if psize == SMALL {
        assert(virt & 0xfff == 0 && phys & 0xfff == 0 && phys <= 0x000F_FFFF_FFFF_F000 && flags & 1
            != 0 && flags & 0x000F_FFFF_FFFF_F000 == 0 && virt <= v && v - virt < 0x1000 ==> (v
            >> 21) & 0x7ffffff == (virt >> 21) & 0x7ffffff && (v >> 12) & 0x1ff == (virt >> 12)
            & 0x1ff && (phys | flags) & 1 != 0 && ((phys | flags) & 0x000F_FFFF_FFFF_F000) | (v
            & 0xfff) == phys + (v - virt)) by (bit_vector);
    } else if psize == MEDIUM {
        assert(virt & 0x1f_ffff == 0 && phys & 0x1f_ffff == 0 && phys <= 0x000F_FFFF_FFFF_F000
            && flags & 1 != 0 && flags & 0x000F_FFFF_FFFF_F000 == 0 && virt <= v && v - virt
            < 0x20_0000 ==> (v >> 30) & 0x3ffff == (virt >> 30) & 0x3ffff && (v >> 21) & 0x1ff == (
        virt >> 21) & 0x1ff && (phys | flags | 0x80) & 1 != 0 && ((phys | flags | 0x80)
            & 0x000F_FFFF_FFE0_0000) | (v & 0x1f_ffff) == phys + (v - virt)) by (bit_vector);
    } else {
        assert(virt & 0x3fff_ffff == 0 && phys & 0x3fff_ffff == 0 && phys <= 0x000F_FFFF_FFFF_F000
            && flags & 1 != 0 && flags & 0x000F_FFFF_FFFF_F000 == 0 && virt <= v && v - virt
            < 0x4000_0000 ==> (v >> 39) & 0x1ff == (virt >> 39) & 0x1ff && (v >> 30) & 0x1ff == (
        virt >> 30) & 0x1ff && (phys | flags | 0x80) & 1 != 0 && ((phys | flags | 0x80)
            & 0x000F_FFFF_C000_0000) | (v & 0x3fff_ffff) == phys + (v - virt)) by (bit_vector);
    }
    lemma_entry_bits(0, 1);
}

/// Divisibility by a page size, said with the mask.
pub proof fn lemma_aligned_mod(x: u64)
    ensures
        is_aligned(x, SMALL) <==> x % SMALL == 0,
        is_aligned(x, MEDIUM) <==> x % MEDIUM == 0,
        is_aligned(x, LARGE) <==> x % LARGE == 0,
        x % LARGE == 0 ==> x % MEDIUM == 0,
        x % MEDIUM == 0 ==> x % SMALL == 0,
{
    assert((x & 0xfff == 0 <==> x % 0x1000 == 0) && (x & 0x1f_ffff == 0 <==> x % 0x20_0000 == 0)
        && (x & 0x3fff_ffff == 0 <==> x % 0x4000_0000 == 0) && (x % 0x4000_0000 == 0 ==> x
        % 0x20_0000 == 0) && (x % 0x20_0000 == 0 ==> x % 0x1000 == 0)) by (bit_vector);
}

/// A page that starts at most half an address space above `v` does not
/// hold `v`.
pub proof fn lemma_page_above(v: u64, w: u64, psize: u64)
    requires
        is_page_size(psize),
        is_aligned(w, psize),
        v < w,
        w - v <= 0x8000_0000_0000,
    ensures
        !same_page(v, w, leaf_level(psize)),
{
    assert(w & 0xfff == 0 && v < w && w - v <= 0x8000_0000_0000 ==> !((v >> 21) & 0x7ffffff == (w
        >> 21) & 0x7ffffff && (v >> 12) & 0x1ff == (w >> 12) & 0x1ff)) by (bit_vector);
    assert(w & 0x1f_ffff == 0 && v < w && w - v <= 0x8000_0000_0000 ==> !((v >> 30) & 0x3ffff == (w
        >> 30) & 0x3ffff && (v >> 21) & 0x1ff == (w >> 21) & 0x1ff)) by (bit_vector);
    assert(w & 0x3fff_ffff == 0 && v < w && w - v <= 0x8000_0000_0000 ==> !((v >> 39) & 0x1ff == (w
        >> 39) & 0x1ff && (v >> 30) & 0x1ff == (w >> 30) & 0x1ff)) by (bit_vector);
}

/// A page that ends at most half an address space below `v` does not
/// hold `v`.
pub proof fn lemma_page_below(v: u64, w: u64, psize: u64)
    requires
        is_page_size(psize),
        is_aligned(w, psize),
        w + psize <= v,
        v - w <= 0x8000_0000_0000,
    ensures
        !same_page(v, w, leaf_level(psize)),
{
    assert(w & 0xfff == 0 && w + 0x1000 <= v && v - w <= 0x8000_0000_0000 ==> !((v >> 21)
        & 0x7ffffff == (w >> 21) & 0x7ffffff && (v >> 12) & 0x1ff == (w >> 12) & 0x1ff))
        by (bit_vector);
    assert(w & 0x1f_ffff == 0 && w + 0x20_0000 <= v && v - w <= 0x8000_0000_0000 ==> !((v >> 30)
        & 0x3ffff == (w >> 30) & 0x3ffff && (v >> 21) & 0x1ff == (w >> 21) & 0x1ff))
        by (bit_vector);
    assert(w & 0x3fff_ffff == 0 && w + 0x4000_0000 <= v && v - w <= 0x8000_0000_0000 ==> !((v
        >> 39) & 0x1ff == (w >> 39) & 0x1ff && (v >> 30) & 0x1ff == (w >> 30) & 0x1ff))
        by (bit_vector);
}

/// An address in the page at `w` shares a 4 KiB page with some address
/// less than `psize` bytes above `w`.
pub proof fn lemma_page_covers(v: u64, w: u64, psize: u64) -> (off: u64)
    requires
        is_page_size(psize),
        is_aligned(w, psize),
        w + psize - 1 <= u64::MAX,
        same_page(v, w, leaf_level(psize)),
    ensures
        off < psize,
        same_page(v, (w + off) as u64, 1),
{
    let off = (v & ((psize - 1) as u64)) & !0xfffu64;
    assert(w & 0xfff == 0 && (v >> 21) & 0x7ffffff == (w >> 21) & 0x7ffffff && (v >> 12) & 0x1ff == (
    w >> 12) & 0x1ff ==> (v & 0xfff) & !0xfffu64 == 0) by (bit_vector);
    assert(w & 0x1f_ffff == 0 && w <= 0xffff_ffff_ffe0_0000 && (v >> 30) & 0x3ffff == (w >> 30)
        & 0x3ffff && (v >> 21) & 0x1ff == (w >> 21) & 0x1ff ==> {
        let o = (v & 0x1f_ffff) & !0xfffu64;
        o < 0x20_0000 && (v >> 21) & 0x7ffffff == ((w + o) as u64 >> 21) & 0x7ffffff && (v >> 12)
            & 0x1ff == ((w + o) as u64 >> 12) & 0x1ff
    }) by (bit_vector);
    assert(w & 0x3fff_ffff == 0 && w <= 0xffff_ffff_c000_0000 && (v >> 39) & 0x1ff == (w >> 39)
        & 0x1ff && (v >> 30) & 0x1ff == (w >> 30) & 0x1ff ==> {
        let o = (v & 0x3fff_ffff) & !0xfffu64;
        o < 0x4000_0000 && (v >> 21) & 0x7ffffff == ((w + o) as u64 >> 21) & 0x7ffffff && (v >> 12)
            & 0x1ff == ((w + o) as u64 >> 12) & 0x1ff
    }) by (bit_vector);
    off
}

/// What holds beside a range over one step and over the next holds over
/// both.
pub proof fn lemma_beside_trans(
    a: &PhysMemory,
    b: &PhysMemory,
    c: &PhysMemory,
    virt: u64,
    length: u64,
)
    requires
        b.same_beside(a, virt, length),
        c.same_beside(b, virt, length),
        b.keeps_free_beside(a, virt, length),
        c.keeps_free_beside(b, virt, length),
    ensures
        c.same_beside(a, virt, length),
        c.keeps_free_beside(a, virt, length),
{
    reveal(PhysMemory::same_beside);
    assert forall|rt: u64, v: u64| misses_range(v, virt, length) implies #[trigger]
        c.translation(rt, v) == a.translation(rt, v) by {
        assert(b.translation(rt, v) == a.translation(rt, v));
    }
    assert forall|rt: u64, v: u64, l: u8|
        1 <= l <= 4 && misses_range(v, virt, length) && (#[trigger] a.tables_needed(rt, v, l))
            is Some implies c.tables_needed(rt, v, l) is Some by {
        assert(b.tables_needed(rt, v, l) is Some);
    }
}

/// Where a range was ready and at most three frames went into each page
/// mapped so far, the next page has a legal address and three frames.
pub proof fn lemma_ready_step(
    first: &PhysMemory,
    now: &PhysMemory,
    root: u64,
    virt: u64,
    phys: u64,
    length: u64,
    done: u64,
)
    requires
        first.range_ready(root, virt, phys, length),
        now.grows_from(first),
        done < length,
        done % 0x1000 == 0,
        now.frames() <= first.frames() + 3 * (done / 0x1000),
    ensures
        legal_phys((phys + done) as u64, now.hhdm()),
        now.can_alloc_n(3),
{
    assert(first.tables_needed(root, (virt + done) as u64, 1) is Some);
    assert(done / 0x1000 + 1 <= length / 0x1000);
}

/// One step of `map_range`, at `done` bytes into the range: what held
/// beside the range before the step holds after it, the step changing
/// nothing outside its own page.
pub proof fn lemma_range_beside(
    first: &PhysMemory,
    before: &PhysMemory,
    after: &PhysMemory,
    virt: u64,
    length: u64,
    done: u64,
    psize: u64,
)
    requires
        virt + length <= u64::MAX,
        done < length,
        done + psize <= length,
        is_page_size(psize),
        is_aligned((virt + done) as u64, psize),
        forall|rt: u64, v: u64|
            misses_range(v, virt, length) ==> #[trigger] before.translation(rt, v)
                == first.translation(rt, v),
        before.keeps_free_beside(first, virt, length),
        forall|rt: u64, v: u64|
            !same_page(v, (virt + done) as u64, leaf_level(psize)) ==> #[trigger] after.translation(
                rt,
                v,
            ) == before.translation(rt, v),
        after.keeps_free_outside(before, (virt + done) as u64, leaf_level(psize)),
    ensures
        forall|rt: u64, v: u64|
            misses_range(v, virt, length) ==> #[trigger] after.translation(rt, v)
                == first.translation(rt, v),
        after.keeps_free_beside(first, virt, length),
{
    let w = (virt + done) as u64;
    let level = leaf_level(psize);
    assert forall|rt: u64, v: u64| misses_range(v, virt, length) implies #[trigger]
        after.translation(rt, v) == first.translation(rt, v) by {
        if same_page(v, w, level) {
            let o = lemma_page_covers(v, w, psize);
            assert(same_page(v, (virt + (done + o) as u64) as u64, 1));
        }
        assert(before.translation(rt, v) == first.translation(rt, v));
    }
    assert forall|rt: u64, v: u64, l: u8|
        1 <= l <= 4 && misses_range(v, virt, length) && (#[trigger] first.tables_needed(rt, v, l))
            is Some implies after.tables_needed(rt, v, l) is Some by {
        assert(before.tables_needed(rt, v, l) is Some);
        if same_page(v, w, level) {
            let o = lemma_page_covers(v, w, psize);
            assert(same_page(v, (virt + (done + o) as u64) as u64, 1));
        }
    }
}

/// One step of `map_range`: the walks for what is left of the range stay
/// free of large pages.
pub proof fn lemma_range_free(
    before: &PhysMemory,
    after: &PhysMemory,
    root: u64,
    virt: u64,
    length: u64,
    done: u64,
    psize: u64,
)
    requires
        virt + length <= u64::MAX,
        length <= 0x8000_0000_0000,
        done < length,
        done + psize <= length,
        is_page_size(psize),
        is_aligned((virt + done) as u64, psize),
        forall|off: u64|
            done <= off < length ==> (#[trigger] before.tables_needed(
                root,
                (virt + off) as u64,
                1,
            )) is Some,
        after.keeps_free_outside(before, (virt + done) as u64, leaf_level(psize)),
    ensures
        forall|off: u64|
            done + psize <= off < length ==> (#[trigger] after.tables_needed(
                root,
                (virt + off) as u64,
                1,
            )) is Some,
{
    let w = (virt + done) as u64;
    assert forall|off: u64| done + psize <= off < length implies (#[trigger] after.tables_needed(
        root,
        (virt + off) as u64,
        1,
    )) is Some by {
        let v = (virt + off) as u64;
        assert(before.tables_needed(root, v, 1) is Some);
        lemma_page_below(v, w, psize);
    }
}

/// One step of `map_range`: the range resolves as far as it is mapped.
pub proof fn lemma_range_holds(
    before: &PhysMemory,
    after: &PhysMemory,
    root: u64,
    virt: u64,
    phys: u64,
    length: u64,
    done: u64,
    psize: u64,
)
    requires
        virt + length <= u64::MAX,
        phys + length <= u64::MAX,
        length <= 0x8000_0000_0000,
        done < length,
        done + psize <= length,
        is_page_size(psize),
        is_aligned((virt + done) as u64, psize),
        forall|off: u64|
            off < done ==> #[trigger] before.translation(root, (virt + off) as u64) == Some(
                (phys + off) as u64,
            ),
        forall|rt: u64, v: u64|
            !same_page(v, (virt + done) as u64, leaf_level(psize)) ==> #[trigger] after.translation(
                rt,
                v,
            ) == before.translation(rt, v),
        forall|v: u64|
            virt + done <= v && v - (virt + done) < psize ==> #[trigger] after.translation(root, v)
                == Some((phys + done + (v - (virt + done))) as u64),
    ensures
        forall|off: u64|
            off < done + psize ==> #[trigger] after.translation(root, (virt + off) as u64) == Some(
                (phys + off) as u64,
            ),
{
    let w = (virt + done) as u64;
    assert forall|off: u64| off < done + psize implies #[trigger] after.translation(
        root,
        (virt + off) as u64,
    ) == Some((phys + off) as u64) by {
        let v = (virt + off) as u64;
        if off < done {
            lemma_page_above(v, w, psize);
            assert(before.translation(root, v) == Some((phys + off) as u64));
        } else {
            assert(w <= v && v - w < psize);
        }
    }
}

/// The largest page size that fits at `virt` and `phys` with `remaining`
/// bytes to go.
pub fn select_page_size(virt: u64, phys: u64, remaining: u64) -> (psize: u64)
    ensures
        psize == best_page_size(virt, phys, remaining),
        is_page_size(psize),
{
    if virt % LARGE == 0 && phys % LARGE == 0 && remaining >= LARGE {
        LARGE
    } else if virt % MEDIUM == 0 && phys % MEDIUM == 0 && remaining >= MEDIUM {
        MEDIUM
    } else {
        SMALL
    }
}

/// The span through which the direct map reaches `region`.
pub fn span_of_region(region: &MemoryRegion, hhdm: u64) -> (r: Span)
    ensures
        r == region_span(*region, hhdm),
{
    let empty = Span { virt: 0, phys: 0, length: 0 };
    let mapped = match region.kind {
        RegionKind::Usable => true,
        RegionKind::BootloaderReclaimable => true,
        RegionKind::ExecutableAndModules => true,
        RegionKind::Framebuffer => true,
        _ => false,
    };
    if !mapped {
        return empty;
    }
    let start: u64 = region.base - region.base % 0x1000;
    if region.base > u64::MAX - region.length {
        return empty;
    }
    let last: u64 = region.base + region.length;
    if last > u64::MAX - 0xfff {
        return empty;
    }
    let end: u64 = (last + 0xfff) - (last + 0xfff) % 0x1000;
    if end > u64::MAX - hhdm {
        return empty;
    }
    Span { virt: start + hhdm, phys: start, length: end - start }
}

/// Builds the kernel's address space from the boot loader's memory map:
/// a fresh root table, each region of a mapped kind reached at its
/// physical address plus the direct-map offset, and the executable of
/// `exec_size` bytes at `exec_virt` backed from `exec_phys` on, all
/// present and writable. `None` where the arena runs out of frames or a
/// span is one that `map_range` refuses.
pub fn init(
    mem: &mut PhysMemory,
    regions: &Vec<MemoryRegion>,
    exec_phys: u64,
    exec_virt: u64,
    exec_size: u64,
) -> (r: Option<Pagemap>)
    requires
        old(mem).wf(),
    ensures
        final(mem).wf(),
        final(mem).grows_from(old(mem)),
        forall|rt: u64|
            old(mem).root_frame(rt) is Some ==> #[trigger] final(mem).root_frame(rt) == old(
                mem,
            ).root_frame(rt),
        !old(mem).can_alloc() ==> r is None,
        old(mem).init_ready(
            init_spans(regions@, old(mem).hhdm(), exec_phys, exec_virt, exec_size),
        ) ==> r is Some,
        r is Some ==> {
            let spans = init_spans(regions@, old(mem).hhdm(), exec_phys, exec_virt, exec_size);
            &&& old(mem).root_frame(r->0.top_level) is None
            &&& final(mem).root_frame(r->0.top_level) is Some
            &&& forall|k: int| 0 <= k < spans.len() ==> spans[k].length == 0 || range_accepts(
                    (#[trigger] spans[k]).virt,
                    spans[k].phys,
                    spans[k].length,
                )
            &&& final(mem).holds_spans(r->0.top_level, spans, spans.len() as int)
        },
{
    let hhdm = mem.hhdm_offset();
    let ghost spans = init_spans(regions@, hhdm, exec_phys, exec_virt, exec_size);
    let ghost ready = old(mem).init_ready(spans);
    proof {
        lemma_span_pages(spans, 0, spans.len() as int);
    }
    let mut pmap = match Pagemap::new(mem) {
        Some(p) => p,
        None => { return None; },
    };
    let root = pmap.top_level;
    let ghost fresh = *mem;
    proof {
        assert(3u64 & 1 != 0 && 3u64 & 0x000F_FFFF_FFFF_F000 == 0) by (bit_vector);
        assert forall|v: u64| (#[trigger] fresh.tables_needed(root, v, 1)) is Some by {
            reveal_with_fuel(PhysMemory::missing_from, 2);
            lemma_entry_bits(0, 1);
            lemma_index_bounds(v);
        }
    }
    let mut i: usize = 0;
    while i < regions.len()
        invariant
            i <= regions.len(),
            spans.len() == regions@.len() + 1,
            ready == old(mem).init_ready(spans),
            fresh.frames() == old(mem).frames() + 1,
            fresh.base() == old(mem).base(),
            fresh.capacity() == old(mem).capacity(),
            ready ==> mem.frames() <= fresh.frames() + 3 * span_pages(spans, i as int),
            ready ==> forall|j: int, off: u64|
                i <= j < spans.len() && off < spans[j].length ==> (#[trigger] mem.tables_needed(
                    root,
                    (spans[j].virt + off) as u64,
                    1,
                )) is Some,
            old(mem).wf(),
            mem.wf(),
            fresh.wf(),
            fresh.grows_from(old(mem)),
            mem.grows_from(&fresh),
            forall|rt: u64| #[trigger] mem.root_frame(rt) == fresh.root_frame(rt),
            pmap.top_level == root,
            hhdm == old(mem).hhdm(),
            spans == init_spans(regions@, hhdm, exec_phys, exec_virt, exec_size),
            is_present(RW) && RW & ADDR_MASK == 0,
            forall|k: int| 0 <= k < i ==> spans[k].length == 0 || range_accepts(
                    (#[trigger] spans[k]).virt,
                    spans[k].phys,
                    spans[k].length,
                ),
            mem.holds_spans(root, spans, i as int),
        decreases regions.len() - i,
    {
        let span = span_of_region(&regions[i], hhdm);
        let ghost before = *mem;
        assert(span == spans[i as int]);
        proof {
            if ready {
                lemma_span_ready(old(mem), &fresh, &before, root, spans, i as int);
            }
        }
        if span.length > 0 {
            if !pmap.map_range(mem, span.virt, span.phys, span.length, RW) {
                return None;
            }
        }
        proof {
            lemma_grows_trans(&fresh, &before, mem);
            lemma_span_added(&before, mem, root, spans, i as int);
            if ready {
                lemma_spans_stay_free(&before, mem, root, spans, i as int);
            }
        }
        i = i + 1;
    }
    let span = span_of_exec(exec_phys, exec_virt, exec_size);
    let ghost before = *mem;
    assert(span == spans[i as int]);
    proof {
        if ready {
            lemma_span_ready(old(mem), &fresh, &before, root, spans, i as int);
        }
    }
    if span.length > 0 {
        if !pmap.map_range(mem, span.virt, span.phys, span.length, RW) {
            return None;
        }
    }
    proof {
        lemma_grows_trans(&fresh, &before, mem);
        lemma_grows_trans(old(mem), &fresh, mem);
        lemma_span_added(&before, mem, root, spans, i as int);
    }
    Some(pmap)
}

/// The span of the kernel executable.
pub fn span_of_exec(phys: u64, virt: u64, size: u64) -> (r: Span)
    ensures
        r == exec_span(phys, virt, size),
{
    if size > u64::MAX - 0xfff {
        return Span { virt: 0, phys: 0, length: 0 };
    }
    Span { virt, phys, length: (size + 0xfff) - (size + 0xfff) % 0x1000 }
}

/// The pages of the first spans are not more than those of all.
pub proof fn lemma_span_pages(spans: Seq<Span>, a: int, b: int)
    requires
        0 <= a <= b,
    ensures
        0 <= span_pages(spans, a) <= span_pages(spans, b),
    decreases b,
{
    if a < b {
        lemma_span_pages(spans, a, b - 1);
    } else if a > 0 {
        lemma_span_pages_bottom(spans, a);
    }
}

/// Spans have no fewer than no pages.
pub proof fn lemma_span_pages_bottom(spans: Seq<Span>, a: int)
    ensures
        0 <= span_pages(spans, a),
    decreases a,
{
    if a > 0 {
        lemma_span_pages_bottom(spans, a - 1);
    }
}

/// Where `init` is ready and the spans before span `i` took at most three
/// frames a page, span `i` is ready to be mapped.
pub proof fn lemma_span_ready(
    first: &PhysMemory,
    fresh: &PhysMemory,
    now: &PhysMemory,
    root: u64,
    spans: Seq<Span>,
    i: int,
)
    requires
        0 <= i < spans.len(),
        first.init_ready(spans),
        fresh.frames() == first.frames() + 1,
        fresh.base() == first.base(),
        fresh.capacity() == first.capacity(),
        now.base() == first.base(),
        now.capacity() == first.capacity(),
        now.hhdm() == first.hhdm(),
        now.frames() <= fresh.frames() + 3 * span_pages(spans, i),
        forall|j: int, off: u64|
            i <= j < spans.len() && off < spans[j].length ==> (#[trigger] now.tables_needed(
                root,
                (spans[j].virt + off) as u64,
                1,
            )) is Some,
    ensures
        spans[i].length > 0 ==> now.range_ready(root, spans[i].virt, spans[i].phys, spans[i].length),
{
    lemma_span_pages(spans, i + 1, spans.len() as int);
    lemma_span_pages(spans, 0, i);
    let span = spans[i];
    if span.length > 0 {
        assert(range_accepts(span.virt, span.phys, span.length));
        assert(span_pages(spans, i + 1) == span_pages(spans, i) + span.length / 0x1000);
        assert(span.length / 0x1000 >= 1);
        assert forall|off: u64| off < span.length implies (#[trigger] now.tables_needed(
            root,
            (span.virt + off) as u64,
            1,
        )) is Some && legal_phys((span.phys + off) as u64, now.hhdm()) by {
            assert(legal_phys((spans[i].phys + off) as u64, first.hhdm()));
        }
    }
}

/// Mapping span `i` leaves the walks for the spans behind it free of
/// large pages, those spans sharing no page with it.
pub proof fn lemma_spans_stay_free(
    before: &PhysMemory,
    after: &PhysMemory,
    root: u64,
    spans: Seq<Span>,
    i: int,
)
    requires
        0 <= i < spans.len(),
        forall|j: int| 0 <= j < spans.len() ==> clear_of_earlier(spans, j),
        after.keeps_free_beside(before, spans[i].virt, spans[i].length) || *after == *before,
        forall|j: int, off: u64|
            i <= j < spans.len() && off < spans[j].length ==> (#[trigger] before.tables_needed(
                root,
                (spans[j].virt + off) as u64,
                1,
            )) is Some,
    ensures
        forall|j: int, off: u64|
            i + 1 <= j < spans.len() && off < spans[j].length ==> (#[trigger] after.tables_needed(
                root,
                (spans[j].virt + off) as u64,
                1,
            )) is Some,
{
    assert forall|j: int, off: u64| i + 1 <= j < spans.len() && off < spans[j].length implies (
    #[trigger] after.tables_needed(root, (spans[j].virt + off) as u64, 1)) is Some by {
        let v = (spans[j].virt + off) as u64;
        assert(before.tables_needed(root, v, 1) is Some);
        assert(clear_of_earlier(spans, j));
        assert(misses_range(v, spans[i].virt, spans[i].length));
    }
}

/// Mapping span `i` after the spans before it keeps what those hold,
/// as far as span `i` shares no page with it.
pub proof fn lemma_span_added(
    before: &PhysMemory,
    after: &PhysMemory,
    root: u64,
    spans: Seq<Span>,
    i: int,
)
    requires
        0 <= i < spans.len(),
        before.holds_spans(root, spans, i),
        forall|off: u64|
            off < spans[i].length ==> #[trigger] after.translation(
                root,
                (spans[i].virt + off) as u64,
            ) == Some((spans[i].phys + off) as u64),
        forall|rt: u64, v: u64|
            misses_range(v, spans[i].virt, spans[i].length) ==> #[trigger] after.translation(rt, v)
                == before.translation(rt, v),
    ensures
        after.holds_spans(root, spans, i + 1),
{
    assert forall|k: int, off: u64|
        0 <= k < i + 1 && off < spans[k].length && clear_after(
            spans,
            k,
            (spans[k].virt + off) as u64,
            i + 1,
        ) implies #[trigger] after.translation(root, (spans[k].virt + off) as u64) == Some(
        (spans[k].phys + off) as u64,
    ) by {
        let v = (spans[k].virt + off) as u64;
        if k < i {
            assert(misses_range(v, spans[i].virt, spans[i].length));
            assert(clear_after(spans, k, v, i));
            assert(before.translation(root, v) == Some((spans[k].phys + off) as u64));
        }
    }
}

/// The index that `virt` selects at `level`.
pub fn index_at(virt: u64, level: u8) -> (r: usize)
    ensures
        r == table_index(virt, level),
        r < 512,
{
    assert(((virt >> 39) & 0x1ff) < 512 && ((virt >> 30) & 0x1ff) < 512 && ((virt >> 21) & 0x1ff)
        < 512 && ((virt >> 12) & 0x1ff) < 512) by (bit_vector);
    if level == 4 {
        ((virt >> 39) & 0x1ff) as usize
    } else if level == 3 {
        ((virt >> 30) & 0x1ff) as usize
    } else if level == 2 {
        ((virt >> 21) & 0x1ff) as usize
    } else {
        ((virt >> 12) & 0x1ff) as usize
    }
}

/// One address space: the physical address of its root table and a count
/// of the 4 KiB pages mapped through it.
#[derive(Clone, Copy)]
pub struct Pagemap {
    pub top_level: u64,
    pub used_pages: u64,
}

impl Pagemap {
    /// Installs the translation of the page of size `psize` at `virt` to the
    /// frame at `phys`, with `flags`, handing out the tables that are
    /// missing on the way.
    ///
    /// Refused, with nothing changed that any translation could show:
    /// a physical address outside the direct-map window, a size that is
    /// not a page size, an address that is not aligned to the size, a root
    /// that is no root table, a large page in the way, and an arena too
    /// full for the missing tables. The page counter counts 4 KiB mappings
    /// and stops at its maximum.
    ///
    /// Of the root tables only the entry for `virt` of this one can
    /// change. A mapping in the lower half leaves alone every address
    /// space whose lower half shares no table with this one.
    pub fn map(&mut self, mem: &mut PhysMemory, virt: u64, phys: u64, flags: u64, psize: u64) -> (ok:
        bool)
        requires
            old(mem).wf(),
        ensures
            final(mem).wf(),
            final(mem).grows_from(old(mem)),
            final(mem).frames() <= old(mem).frames() + 3,
            forall|rt: u64| #[trigger] final(mem).root_frame(rt) == old(mem).root_frame(rt),
            final(self).top_level == old(self).top_level,
            ok <==> {
                &&& map_accepts(old(mem).hhdm(), virt, phys, psize)
                &&& old(mem).tables_needed(old(self).top_level, virt, leaf_level(psize)) is Some
                &&& old(mem).can_alloc_n(
                    old(mem).tables_needed(old(self).top_level, virt, leaf_level(psize))->0,
                )
            },
            !ok ==> final(self).used_pages == old(self).used_pages && forall|rt: u64, v: u64| #[trigger]
                final(mem).translation(rt, v) == old(mem).translation(rt, v),
            final(mem).keeps_free_outside(old(mem), virt, leaf_level(psize)),
            final(mem).gains_from(old(mem)),
            final(mem).strangers_kept(old(mem), old(self).top_level, virt, leaf_level(psize)),
            final(mem).roots_kept(old(mem), old(self).top_level, virt),
            table_index(virt, 4) < 256 ==> final(mem).others_kept(old(mem), old(self).top_level),
            ok ==> {
                let level = leaf_level(psize);
                let root = old(self).top_level;
                &&& final(self).used_pages == if psize != SMALL || old(self).used_pages
                    == u64::MAX {
                    old(self).used_pages
                } else {
                    (old(self).used_pages + 1) as u64
                }
                &&& final(mem).table_at(root, virt, level) is Some
                &&& final(mem).entry(
                    final(mem).table_at(root, virt, level)->0,
                    table_index(virt, level),
                ) == leaf_entry(phys, flags, psize)
                &&& forall|v: u64|
                    same_page(v, virt, level) ==> #[trigger] final(mem).translation(root, v)
                        == leaf_result(leaf_entry(phys, flags, psize), v, level)
                &&& forall|rt: u64, v: u64|
                    !same_page(v, virt, level) ==> #[trigger] final(mem).translation(rt, v)
                        == old(mem).translation(rt, v)
            },
            ok && is_present(flags) && flags & ADDR_MASK == 0 && phys <= ADDR_MASK ==> forall|
                v: u64,
            |
                virt <= v && v - virt < psize ==> #[trigger] final(mem).translation(
                    old(self).top_level,
                    v,
                ) == Some((phys + (v - virt)) as u64),
    {
        proof {
            lemma_same_state(old(mem), self.top_level, virt, leaf_level(psize));
            lemma_others_same(old(mem), self.top_level);
        }
        let hhdm = mem.hhdm_offset();
        if !(phys <= u64::MAX - hhdm || phys >= hhdm) {
            return false;
        }
        let level: u8 = if psize == LARGE {
            3
        } else if psize == MEDIUM {
            2
        } else if psize == SMALL {
            1
        } else {
            return false;
        };
        if virt & (psize - 1) != 0 || phys & (psize - 1) != 0 {
            return false;
        }
        let root = self.top_level;
        let t = match walk_to(mem, root, virt, level, true) {
            Some(t) => t,
            None => {
                proof {
                    lemma_strangers_more(mem, old(mem), root, virt, level, (level + 1) as u8);
                    if table_index(virt, 4) < 256 {
                        lemma_others_kept(old(mem), mem, root, virt, level);
                    }
                }
                return false;
            },
        };
        let entry = if level == 1 {
            phys | flags
        } else {
            phys | flags | LPAGES
        };
        let ghost mid = *mem;
        proof {
            lemma_walk_tags(&mid, root, virt);
            lemma_lpages_bit(phys | flags);
        }
        mem.write(t, index_at(virt, level), entry);
        if level == 1 && self.used_pages < u64::MAX {
            self.used_pages = self.used_pages + 1;
        }
        proof {
            lemma_grows_trans(old(mem), &mid, mem);
            lemma_write_keeps_path(&mid, mem, t as int, level, virt, root);
            lemma_walk_written(old(mem), &mid, mem, root, virt, level, t as int);
            if table_index(virt, 4) < 256 {
                lemma_others_kept(old(mem), mem, root, virt, level);
            }
            assert forall|rt: u64, v: u64, l: u8|
                1 <= l <= 4 && !same_page(v, virt, level) && (#[trigger] old(mem).tables_needed(
                    rt,
                    v,
                    l,
                )) is Some implies mem.tables_needed(rt, v, l) is Some by {
                assert(mid.tables_needed(rt, v, l) is Some);
                lemma_write_keeps_needed(&mid, mem, t as int, level, virt, rt, v, l);
            }
            assert forall|v: u64| same_page(v, virt, level) implies #[trigger] mem.translation(
                root,
                v,
            ) == leaf_result(leaf_entry(phys, flags, psize), v, level) by {
                lemma_leaf_decides(mem, root, virt, level, v);
            }
            assert forall|rt: u64, v: u64| !same_page(v, virt, level) implies #[trigger]
                mem.translation(rt, v) == old(mem).translation(rt, v) by {
                lemma_write_keeps_others(&mid, mem, t as int, level, virt, rt, v);
            }
            if is_present(flags) && flags & ADDR_MASK == 0 && phys <= ADDR_MASK {
                assert forall|v: u64| virt <= v && v - virt < psize implies #[trigger]
                    mem.translation(root, v) == Some((phys + (v - virt)) as u64) by {
                    lemma_leaf_address(virt, phys, flags, psize, v);
                }
            }
        }
        true
    }

    /// Unmaps the page of size `psize` that holds `virt`: clears its entry
    /// and with it every translation of that page. Fails, with nothing
    /// changed, where `psize` is no page size, where a table on the way to
    /// the entry is missing, and where the entry maps no page of that size:
    /// it is not present, or, for a large page, it points to a table of
    /// smaller pages. The page counter goes down by one for a 4 KiB page
    /// and stops at zero. In the lower half, every address space whose
    /// lower half shares no table with this one is left alone.
    pub fn unmap(&mut self, mem: &mut PhysMemory, virt: u64, psize: u64) -> (ok: bool)
        requires
            old(mem).wf(),
        ensures
            final(mem).wf(),
            final(mem).grows_from(old(mem)),
            final(mem).frames() == old(mem).frames(),
            forall|rt: u64| #[trigger] final(mem).root_frame(rt) == old(mem).root_frame(rt),
            final(self).top_level == old(self).top_level,
            ok <==> {
                let level = leaf_level(psize);
                let t = old(mem).table_at(old(self).top_level, virt, level);
                &&& is_page_size(psize)
                &&& t is Some
                &&& is_mapping(old(mem).entry(t->0, table_index(virt, level)), level)
            },
            !ok ==> *final(mem) == *old(mem) && final(self).used_pages == old(self).used_pages,
            ok ==> {
                let level = leaf_level(psize);
                let root = old(self).top_level;
                &&& final(self).used_pages == if psize != SMALL || old(self).used_pages == 0 {
                    old(self).used_pages
                } else {
                    (old(self).used_pages - 1) as u64
                }
                &&& forall|v: u64|
                    same_page(v, virt, level) ==> #[trigger] final(mem).translation(root, v)
                        is None
                &&& forall|v: u64|
                    v / psize == virt / psize ==> #[trigger] final(mem).translation(root, v)
                        is None
                &&& forall|rt: u64, v: u64|
                    !same_page(v, virt, level) ==> #[trigger] final(mem).translation(rt, v)
                        == old(mem).translation(rt, v)
            },
            forall|rt: u64, v: u64|
                (#[trigger] final(mem).translation(rt, v)) is None || final(mem).translation(rt, v)
                    == old(mem).translation(rt, v),
            psize == SMALL ==> forall|rt: u64, v: u64, l: u8| #[trigger]
                final(mem).table_at(rt, v, l) == old(mem).table_at(rt, v, l),
            final(mem).gains_from(old(mem)),
            final(mem).strangers_kept(old(mem), old(self).top_level, virt, leaf_level(psize)),
            final(mem).roots_kept(old(mem), old(self).top_level, virt),
            table_index(virt, 4) < 256 ==> final(mem).others_kept(old(mem), old(self).top_level),
    {
        proof {
            lemma_same_state(old(mem), self.top_level, virt, leaf_level(psize));
            lemma_others_same(old(mem), self.top_level);
        }
        let level: u8 = if psize == LARGE {
            3
        } else if psize == MEDIUM {
            2
        } else if psize == SMALL {
            1
        } else {
            return false;
        };
        let root = self.top_level;
        let t = match walk_to(mem, root, virt, level, false) {
            Some(t) => t,
            None => { return false; },
        };
        let ghost mid = *mem;
        proof {
            lemma_walk_tags(&mid, root, virt);
            lemma_entry_bits(0, 1);
        }
        let entry = mem.read(t, index_at(virt, level));
        if entry & PRESENT == 0 || (level > 1 && entry & LPAGES == 0) {
            return false;
        }
        mem.write(t, index_at(virt, level), 0);
        if level == 1 && self.used_pages > 0 {
            self.used_pages = self.used_pages - 1;
        }
        proof {
            lemma_grows_trans(old(mem), &mid, mem);
            lemma_write_keeps_path(&mid, mem, t as int, level, virt, root);
            lemma_same_state(old(mem), root, virt, (level + 1) as u8);
            lemma_walk_written(old(mem), &mid, mem, root, virt, level, t as int);
            if table_index(virt, 4) < 256 {
                lemma_others_kept(old(mem), mem, root, virt, level);
            }
            assert forall|v: u64| same_page(v, virt, level) implies #[trigger] mem.translation(
                root,
                v,
            ) is None by {
                lemma_leaf_decides(mem, root, virt, level, v);
            }
            assert forall|v: u64| v / psize == virt / psize implies #[trigger] mem.translation(
                root,
                v,
            ) is None by {
                lemma_page_number(v, virt, psize);
            }
            assert forall|rt: u64, v: u64| !same_page(v, virt, level) implies #[trigger]
                mem.translation(rt, v) == old(mem).translation(rt, v) by {
                lemma_write_keeps_others(&mid, mem, t as int, level, virt, rt, v);
            }
            assert forall|rt: u64, v: u64|
                (#[trigger] mem.translation(rt, v)) is None || mem.translation(rt, v) == old(
                    mem,
                ).translation(rt, v) by {
                lemma_index_bounds(virt);
                lemma_clear_shrinks(&mid, mem, t as int, table_index(virt, level), rt, v);
            }
            if psize == SMALL {
                assert forall|rt: u64, v: u64, l: u8| #[trigger]
                    mem.table_at(rt, v, l) == old(mem).table_at(rt, v, l) by {
                    lemma_index_bounds(virt);
                    lemma_last_level_keeps_tables(&mid, mem, t as int, table_index(virt, 1), rt, v, l);
                }
            }
        }
        true
    }

    /// Unmaps the 4 KiB pages of the user stack at `ustack`. Every page of
    /// it whose last-level table is there resolves to nothing afterwards.
    pub fn unmap_stack(&mut self, mem: &mut PhysMemory, ustack: u64)
        requires
            old(mem).wf(),
            ustack % 0x1000 == 0,
            ustack + USER_STACK_SIZE <= u64::MAX,
        ensures
            final(mem).wf(),
            final(mem).shrunk_from(old(mem)),
            final(self).top_level == old(self).top_level,
            ustack + USER_STACK_SIZE <= 0x8000_0000_0000 ==> final(mem).others_kept(
                old(mem),
                old(self).top_level,
            ),
            forall|off: u64|
                off < USER_STACK_SIZE && old(mem).table_at(
                    old(self).top_level,
                    (ustack + off) as u64,
                    1,
                ) is Some ==> (#[trigger] final(mem).translation(
                    old(self).top_level,
                    (ustack + off) as u64,
                )) is None,
    {
        let root = self.top_level;
        let mut done: u64 = 0;
        while done < USER_STACK_SIZE as u64
            invariant
                done <= USER_STACK_SIZE,
                done % 0x1000 == 0,
                ustack % 0x1000 == 0,
                ustack + USER_STACK_SIZE <= u64::MAX,
                old(mem).wf(),
                mem.wf(),
                mem.grows_from(old(mem)),
                mem.frames() == old(mem).frames(),
                self.top_level == root,
                root == old(self).top_level,
                forall|rt: u64| #[trigger] mem.root_frame(rt) == old(mem).root_frame(rt),
                forall|rt: u64, v: u64|
                    (#[trigger] mem.translation(rt, v)) is None || mem.translation(rt, v) == old(
                        mem,
                    ).translation(rt, v),
                forall|rt: u64, v: u64, l: u8| #[trigger]
                    mem.table_at(rt, v, l) == old(mem).table_at(rt, v, l),
                forall|off: u64|
                    off < done && old(mem).table_at(root, (ustack + off) as u64, 1) is Some ==> (
                    #[trigger] mem.translation(root, (ustack + off) as u64)) is None,
                ustack + USER_STACK_SIZE <= 0x8000_0000_0000 ==> mem.others_kept(old(mem), root),
            decreases USER_STACK_SIZE - done,
        {
            let ghost before = *mem;
            let page: u64 = ustack + done;
            let ok = self.unmap(mem, page, SMALL);
            proof {
                lemma_grows_trans(old(mem), &before, mem);
                if ustack + USER_STACK_SIZE <= 0x8000_0000_0000 {
                    lemma_lower_half(page);
                    lemma_others_trans(old(mem), &before, mem, root);
                }
                assert forall|off: u64|
                    off < done + 0x1000 && old(mem).table_at(root, (ustack + off) as u64, 1)
                        is Some implies (#[trigger] mem.translation(root, (ustack + off) as u64))
                    is None by {
                    let v = (ustack + off) as u64;
                    if off >= done {
                        assert(v / 0x1000 == page / 0x1000);
                        lemma_page_number(v, page, SMALL);
                        lemma_same_page_indices(v, page, 1);
                        assert(before.table_at(root, v, 1) == before.table_at(root, page, 1));
                        if !ok {
                            lemma_walk_tags(&before, root, page);
                            lemma_leaf_decides(&before, root, page, 1, v);
                        }
                    } else {
                        assert(before.translation(root, v) is None);
                    }
                }
                assert forall|rt: u64, v: u64|
                    (#[trigger] mem.translation(rt, v)) is None || mem.translation(rt, v) == old(
                        mem,
                    ).translation(rt, v) by {
                    assert(before.translation(rt, v) is None || before.translation(rt, v) == old(
                        mem,
                    ).translation(rt, v));
                }
                assert forall|rt: u64, v: u64, l: u8| #[trigger]
                    mem.table_at(rt, v, l) == old(mem).table_at(rt, v, l) by {
                    assert(before.table_at(rt, v, l) == old(mem).table_at(rt, v, l));
                }
            }
            done = done + 0x1000;
        }
    }

    /// A fresh address space with nothing mapped: a zeroed root table from
    /// the arena. `None` where the arena has no frame left.
    pub fn new(mem: &mut PhysMemory) -> (r: Option<Pagemap>)
        requires
            old(mem).wf(),
        ensures
            final(mem).wf(),
            final(mem).keeps(old(mem)),
            r is Some <==> old(mem).can_alloc(),
            r is None ==> *final(mem) == *old(mem),
            forall|rt: u64, v: u64|
                old(mem).root_frame(rt) is Some ==> #[trigger] final(mem).translation(rt, v)
                    == old(mem).translation(rt, v),
            forall|rt: u64|
                old(mem).root_frame(rt) is Some ==> #[trigger] final(mem).root_frame(rt) == old(
                    mem,
                ).root_frame(rt),
            r is Some ==> {
                &&& final(mem).frames() == old(mem).frames() + 1
                &&& r->0.used_pages == 0
                &&& r->0.top_level == old(mem).frame_addr(old(mem).frames() as int)
                &&& final(mem).root_frame(r->0.top_level) == Some(old(mem).frames() as int)
                &&& old(mem).root_frame(r->0.top_level) is None
                &&& forall|i: int|
                    0 <= i < 512 ==> #[trigger] final(mem).entry(old(mem).frames() as int, i) == 0
                &&& forall|v: u64| #[trigger] final(mem).translation(r->0.top_level, v) is None
            },
    {
        let f = match mem.alloc_table(4, 0) {
            Some(f) => f,
            None => { return None; },
        };
        let top_level = mem.frame_address(f);
        proof {
            assert forall|v: u64| #[trigger] mem.translation(top_level, v) is None by {
                reveal(PhysMemory::translation);
                lemma_entry_bits(0, 1);
                lemma_index_bounds(v);
            }
            assert forall|rt: u64, v: u64| old(mem).root_frame(rt) is Some implies #[trigger]
                mem.translation(rt, v) == old(mem).translation(rt, v) by {
                lemma_grown_keeps_translation(old(mem), mem, rt, v);
            }
        }
        Some(Pagemap { top_level, used_pages: 0 })
    }

    /// Copies the upper half of the root table of `kernel`, entries 256 to
    /// 511, into the root table of this address space, which from then on
    /// resolves every upper-half address as `kernel` does. Nothing happens
    /// where either is no root table of the arena.
    pub fn copy_kernel_map(self, mem: &mut PhysMemory, kernel: &Pagemap) -> (r: Pagemap)
        requires
            old(mem).wf(),
        ensures
            r == self,
            final(mem).wf(),
            final(mem).grows_from(old(mem)),
            final(mem).frames() == old(mem).frames(),
            forall|rt: u64| #[trigger] final(mem).root_frame(rt) == old(mem).root_frame(rt),
            old(mem).root_frame(self.top_level) is None || old(mem).root_frame(kernel.top_level)
                is None ==> *final(mem) == *old(mem),
            old(mem).root_frame(self.top_level) is Some && old(mem).root_frame(kernel.top_level)
                is Some ==> {
                let dst = old(mem).root_frame(self.top_level)->0;
                let src = old(mem).root_frame(kernel.top_level)->0;
                &&& forall|i: int|
                    256 <= i < 512 ==> #[trigger] final(mem).entry(dst, i) == old(mem).entry(src, i)
                &&& forall|f: int, i: int|
                    0 <= f < old(mem).frames() && 0 <= i < 512 && !(f == dst && i >= 256)
                        ==> #[trigger] final(mem).entry(f, i) == old(mem).entry(f, i)
                &&& forall|v: u64|
                    table_index(v, 4) >= 256 ==> #[trigger] final(mem).translation(
                        self.top_level,
                        v,
                    ) == old(mem).translation(kernel.top_level, v)
                &&& forall|v: u64|
                    table_index(v, 4) < 256 ==> #[trigger] final(mem).translation(self.top_level, v)
                        == old(mem).translation(self.top_level, v)
                &&& forall|rt: u64, v: u64|
                    rt != self.top_level ==> #[trigger] final(mem).translation(rt, v) == old(
                        mem,
                    ).translation(rt, v)
            },
    {
        let dst = match mem.frame_index(self.top_level) {
            Some(f) => f,
            None => { return self; },
        };
        let src = match mem.frame_index(kernel.top_level) {
            Some(f) => f,
            None => { return self; },
        };
        if mem.frame_level(dst) != 4 || mem.frame_level(src) != 4 {
            return self;
        }
        let mut i: usize = 256;
        while i < 512
            invariant
                256 <= i <= 512,
                old(mem).wf(),
                mem.wf(),
                mem.grows_from(old(mem)),
                mem.frames() == old(mem).frames(),
                dst < mem.frames(),
                src < mem.frames(),
                old(mem).level(dst as int) == 4,
                old(mem).level(src as int) == 4,
                forall|j: int| 256 <= j < i ==> #[trigger] mem.entry(dst as int, j) == old(mem).entry(
                    src as int,
                    j,
                ),
                forall|f: int, j: int|
                    0 <= f < old(mem).frames() && 0 <= j < 512 && !(f == dst && 256 <= j < i)
                        ==> #[trigger] mem.entry(f, j) == old(mem).entry(f, j),
            decreases 512 - i,
        {
            let ghost before = *mem;
            let e = mem.read(src, i);
            proof {
                assert(before.level(dst as int) == 4 && before.level(src as int) == 4);
                assert(before.prefix(dst as int) == 0 && before.prefix(src as int) == 0);
                if is_present(e) {
                    assert(before.is_pointer(src as int, i as int));
                }
            }
            mem.write(dst, i, e);
            proof {
                lemma_grows_trans(old(mem), &before, mem);
            }
            i = i + 1;
        }
        proof {
            assert forall|rt: u64| #[trigger] mem.root_frame(rt) == old(mem).root_frame(rt) by {
                if mem.frame_of(rt) is Some {
                    assert(mem.level(mem.frame_of(rt)->0) == old(mem).level(mem.frame_of(rt)->0));
                }
            }
            assert forall|v: u64| table_index(v, 4) >= 256 implies #[trigger] mem.translation(
                self.top_level,
                v,
            ) == old(mem).translation(kernel.top_level, v) by {
                lemma_index_bounds(v);
                lemma_root_entries_decide(old(mem), mem, kernel.top_level, self.top_level, v);
            }
            assert forall|v: u64| table_index(v, 4) < 256 implies #[trigger] mem.translation(
                self.top_level,
                v,
            ) == old(mem).translation(self.top_level, v) by {
                lemma_index_bounds(v);
                lemma_root_entries_decide(old(mem), mem, self.top_level, self.top_level, v);
            }
            assert forall|rt: u64, v: u64| rt != self.top_level implies #[trigger] mem.translation(
                rt,
                v,
            ) == old(mem).translation(rt, v) by {
                lemma_index_bounds(v);
                if old(mem).root_frame(rt) is Some {
                    assert(old(mem).root_frame(rt)->0 != dst);
                }
                lemma_root_entries_decide(old(mem), mem, rt, rt, v);
            }
        }
        self
    }

    /// Maps the `length` bytes from `virt` on to the `length` bytes from
    /// `phys` on, each step with the largest page size that fits what is
    /// left. Stops at the first page that `map` refuses; the pages mapped
    /// until then stay.
    pub fn map_range(&mut self, mem: &mut PhysMemory, virt: u64, phys: u64, length: u64, flags: u64)
        -> (ok: bool)
        requires
            old(mem).wf(),
        ensures
            final(mem).wf(),
            final(mem).grows_from(old(mem)),
            forall|rt: u64| #[trigger] final(mem).root_frame(rt) == old(mem).root_frame(rt),
            final(self).top_level == old(self).top_level,
            ok ==> range_accepts(virt, phys, length),
            old(mem).range_ready(old(self).top_level, virt, phys, length) ==> ok,
            final(mem).keeps_free_beside(old(mem), virt, length),
            virt + length <= 0x8000_0000_0000 ==> final(mem).others_kept(
                old(mem),
                old(self).top_level,
            ),
            final(mem).frames() <= old(mem).frames() + 3 * (length / 0x1000),
            !range_accepts(virt, phys, length) ==> *final(mem) == *old(mem) && final(self).used_pages
                == old(self).used_pages,
            ok && is_present(flags) && flags & ADDR_MASK == 0 ==> forall|off: u64|
                off < length ==> #[trigger] final(mem).translation(
                    old(self).top_level,
                    (virt + off) as u64,
                ) == Some((phys + off) as u64),
            forall|rt: u64, v: u64|
                misses_range(v, virt, length) ==> #[trigger] final(mem).translation(rt, v) == old(
                    mem,
                ).translation(rt, v),
    {
        if virt % 0x1000 != 0 || phys % 0x1000 != 0 || length % 0x1000 != 0 || length
            > 0x8000_0000_0000 {
            return false;
        }
        if virt > u64::MAX - length || phys > ADDR_MASK + 0x1000 - length {
            return false;
        }
        let root = self.top_level;
        let mut done: u64 = 0;
        let ghost ready = old(mem).range_ready(root, virt, phys, length);
        let ghost good = is_present(flags) && flags & ADDR_MASK == 0;
        proof {
            reveal(PhysMemory::resolves_upto);
            reveal(PhysMemory::free_from);
            reveal(PhysMemory::same_beside);
        }
        while done < length
            invariant
                range_accepts(virt, phys, length),
                done <= length,
                done % 0x1000 == 0,
                old(mem).wf(),
                mem.wf(),
                mem.grows_from(old(mem)),
                ready == old(mem).range_ready(root, virt, phys, length),
                good == (is_present(flags) && flags & ADDR_MASK == 0),
                forall|rt: u64| #[trigger] mem.root_frame(rt) == old(mem).root_frame(rt),
                self.top_level == root,
                root == old(self).top_level,
                mem.frames() <= old(mem).frames() + 3 * (done / 0x1000),
                mem.same_beside(old(mem), virt, length),
                mem.keeps_free_beside(old(mem), virt, length),
                virt + length <= 0x8000_0000_0000 ==> mem.others_kept(old(mem), root),
                good ==> mem.resolves_upto(root, virt, phys, done),
                ready ==> mem.free_from(root, virt, done, length),
            decreases length - done,
        {
            let ghost before = *mem;
            proof {
                if ready {
                    lemma_ready_step(old(mem), &before, root, virt, phys, length, done);
                }
            }
            let step = self.map_next(mem, virt, phys, length, flags, done);
            proof {
                lemma_grows_trans(old(mem), &before, mem);
                lemma_beside_trans(old(mem), &before, mem, virt, length);
                if virt + length <= 0x8000_0000_0000 {
                    lemma_others_trans(old(mem), &before, mem, root);
                }
            }
            match step {
                Some(psize) => {
                    done = done + psize;
                },
                None => {
                    proof {
                        reveal(PhysMemory::same_beside);
                    }
                    return false;
                },
            }
        }
        proof {
            reveal(PhysMemory::resolves_upto);
            reveal(PhysMemory::same_beside);
        }
        true
    }

    /// One step of `map_range`, `done` bytes into the range: maps the page
    /// there, of the largest size that fits what is left, and hands back
    /// its size. `None` where `map` refuses the page.
    pub fn map_next(
        &mut self,
        mem: &mut PhysMemory,
        virt: u64,
        phys: u64,
        length: u64,
        flags: u64,
        done: u64,
    ) -> (r: Option<u64>)
        requires
            old(mem).wf(),
            range_accepts(virt, phys, length),
            done < length,
            done % 0x1000 == 0,
        ensures
            final(mem).wf(),
            final(mem).grows_from(old(mem)),
            final(mem).frames() <= old(mem).frames() + 3,
            forall|rt: u64| #[trigger] final(mem).root_frame(rt) == old(mem).root_frame(rt),
            final(self).top_level == old(self).top_level,
            r is Some ==> r->0 == best_page_size(
                (virt + done) as u64,
                (phys + done) as u64,
                (length - done) as u64,
            ) && done + r->0 <= length && r->0 >= 0x1000 && r->0 % 0x1000 == 0,
            r is None ==> final(self).used_pages == old(self).used_pages,
            final(mem).same_beside(old(mem), virt, length),
            final(mem).keeps_free_beside(old(mem), virt, length),
            virt + length <= 0x8000_0000_0000 ==> final(mem).others_kept(
                old(mem),
                old(self).top_level,
            ),
            r is Some && is_present(flags) && flags & ADDR_MASK == 0 && old(mem).resolves_upto(
                old(self).top_level,
                virt,
                phys,
                done,
            ) ==> final(mem).resolves_upto(old(self).top_level, virt, phys, (done + r->0) as u64),
            r is Some && old(mem).free_from(old(self).top_level, virt, done, length) ==> final(mem).free_from(old(self).top_level, virt, (done + r->0) as u64, length),
            old(mem).free_from(old(self).top_level, virt, done, length) && legal_phys(
                (phys + done) as u64,
                old(mem).hhdm(),
            ) && old(mem).can_alloc_n(3) ==> r is Some,
    {
        let root = self.top_level;
        let w: u64 = virt + done;
        let q: u64 = phys + done;
        let psize = select_page_size(w, q, length - done);
        proof {
            reveal(PhysMemory::resolves_upto);
            reveal(PhysMemory::free_from);
            reveal(PhysMemory::same_beside);
            lemma_aligned_mod(w);
            lemma_aligned_mod(q);
            if virt + length <= 0x8000_0000_0000 {
                lemma_lower_half(w);
            }
            if old(mem).free_from(root, virt, done, length) {
                assert(old(mem).tables_needed(root, (virt + done) as u64, 1) is Some);
                lemma_needed_levels(old(mem), root, w, leaf_level(psize));
            }
        }
        let ok = self.map(mem, w, q, flags, psize);
        proof {
            lemma_range_beside(old(mem), old(mem), mem, virt, length, done, psize);
            if ok {
                if old(mem).free_from(root, virt, done, length) {
                    lemma_range_free(old(mem), mem, root, virt, length, done, psize);
                }
                if is_present(flags) && flags & ADDR_MASK == 0 && old(mem).resolves_upto(
                    root,
                    virt,
                    phys,
                    done,
                ) {
                    lemma_range_holds(old(mem), mem, root, virt, phys, length, done, psize);
                }
            }
        }
        if ok {
            Some(psize)
        } else {
            None
        }
    }

    /// Resolves `virt` in this address space.
    pub fn translate(&self, mem: &PhysMemory, virt: u64) -> (r: Option<u64>)
        requires
            mem.wf(),
        ensures
            r == mem.translation(self.top_level, virt),
    {
        reveal(PhysMemory::translation);
        let t4 = match mem.frame_index(self.top_level) {
            Some(f) => f,
            None => { return None; },
        };
        if mem.frame_level(t4) != 4 {
            return None;
        }
        let t3 = match mem.descend(t4, index_at(virt, 4)) {
            Some(f) => f,
            None => { return None; },
        };
        let e3 = mem.read(t3, index_at(virt, 3));
        if e3 & PRESENT == 0 {
            return None;
        }
        if e3 & LPAGES != 0 {
            return Some((e3 & ADDR_MASK_LARGE) | (virt & 0x3FFF_FFFF));
        }
        let t2 = match mem.descend(t3, index_at(virt, 3)) {
            Some(f) => f,
            None => { return None; },
        };
        let e2 = mem.read(t2, index_at(virt, 2));
        if e2 & PRESENT == 0 {
            return None;
        }
        if e2 & LPAGES != 0 {
            return Some((e2 & ADDR_MASK_MEDIUM) | (virt & 0x1F_FFFF));
        }
        let t1 = match mem.descend(t2, index_at(virt, 2)) {
            Some(f) => f,
            None => { return None; },
        };
        let e1 = mem.read(t1, index_at(virt, 1));
        if e1 & PRESENT == 0 {
            return None;
        }
        Some((e1 & ADDR_MASK) | (virt & 0xfff))
    }
}

} // verus!
