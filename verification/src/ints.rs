//! Trap frames, interrupt descriptors and the dispatch of a trap to its
//! handler.

use vstd::prelude::*;
use vstd::bytes::{spec_u16_to_le_bytes, spec_u32_to_le_bytes, spec_u64_to_le_bytes};
use crate::utils::bytes::{push_le16, push_le32, push_le64};

pub mod pic;

verus! {

/// Number of vectors, and of words in a trap frame.
pub const VECTORS: usize = 256;

pub const FRAME_WORDS: usize = 22;

/// Vector of the page fault.
pub const PAGE_FAULT: u64 = 14;

/// Vectors below this one are the exceptions that the processor defines.
pub const EXCEPTIONS: u64 = 32;

/// Vector of the legacy tick timer.
pub const TICK_TIMER: u8 = 0x20;

/// Vector of the keyboard.
pub const KEYBOARD: u8 = 0x21;

/// Vector of the preemption timer, which a yielding thread raises too.
pub const PREEMPTION: u8 = 0xFF;

/// Kind of a descriptor that only ring 0 may raise.
pub const GATE_KERNEL: u8 = 0x8E;

/// Kind of a descriptor that ring 3 may raise.
pub const GATE_USER: u8 = 0xEE;

/// The registers that the trap stub saves, in the order in which they lie
/// in memory from the stack pointer up.
#[derive(Debug, Clone, Copy, PartialEq, Eq, Structural)]
pub struct StackFrame {
    pub r15: u64,
    pub r14: u64,
    pub r13: u64,
    pub r12: u64,
    pub r11: u64,
    pub r10: u64,
    pub r9: u64,
    pub r8: u64,
    pub rbp: u64,
    pub rdi: u64,
    pub rsi: u64,
    pub rdx: u64,
    pub rcx: u64,
    pub rbx: u64,
    pub rax: u64,
    pub vector: u64,
    pub ec: u64,
    pub rip: u64,
    pub cs: u64,
    pub rflags: u64,
    pub rsp: u64,
    pub ss: u64,
}

impl StackFrame {
    /// The frame with every register zero.
    pub open spec fn zero() -> StackFrame {
        StackFrame {
            r15: 0,
            r14: 0,
            r13: 0,
            r12: 0,
            r11: 0,
            r10: 0,
            r9: 0,
            r8: 0,
            rbp: 0,
            rdi: 0,
            rsi: 0,
            rdx: 0,
            rcx: 0,
            rbx: 0,
            rax: 0,
            vector: 0,
            ec: 0,
            rip: 0,
            cs: 0,
            rflags: 0,
            rsp: 0,
            ss: 0,
        }
    }

    /// The words of the frame as they lie in memory.
    pub open spec fn words(self) -> Seq<u64> {
        seq![
            self.r15,
            self.r14,
            self.r13,
            self.r12,
            self.r11,
            self.r10,
            self.r9,
            self.r8,
            self.rbp,
            self.rdi,
            self.rsi,
            self.rdx,
            self.rcx,
            self.rbx,
            self.rax,
            self.vector,
            self.ec,
            self.rip,
            self.cs,
            self.rflags,
            self.rsp,
            self.ss,
        ]
    }

    /// The 22 words of the frame, lowest address first.
    pub fn to_words(&self) -> (w: [u64; 22])
        ensures
            w@ == self.words(),
    {
        let w = [
            self.r15,
            self.r14,
            self.r13,
            self.r12,
            self.r11,
            self.r10,
            self.r9,
            self.r8,
            self.rbp,
            self.rdi,
            self.rsi,
            self.rdx,
            self.rcx,
            self.rbx,
            self.rax,
            self.vector,
            self.ec,
            self.rip,
            self.cs,
            self.rflags,
            self.rsp,
            self.ss,
        ];
        assert(w@ =~= self.words());
        w
    }

    /// The frame that 22 words in memory hold.
    pub fn from_words(w: &[u64; 22]) -> (f: StackFrame)
        ensures
            f.words() == w@,
    {
        let f = StackFrame {
            r15: w[0],
            r14: w[1],
            r13: w[2],
            r12: w[3],
            r11: w[4],
            r10: w[5],
            r9: w[6],
            r8: w[7],
            rbp: w[8],
            rdi: w[9],
            rsi: w[10],
            rdx: w[11],
            rcx: w[12],
            rbx: w[13],
            rax: w[14],
            vector: w[15],
            ec: w[16],
            rip: w[17],
            cs: w[18],
            rflags: w[19],
            rsp: w[20],
            ss: w[21],
        };
        assert(f.words() =~= w@);
        f
    }
}

impl Default for StackFrame {
    fn default() -> (f: StackFrame)
        ensures
            f == StackFrame::zero(),
    {
        StackFrame {
            r15: 0,
            r14: 0,
            r13: 0,
            r12: 0,
            r11: 0,
            r10: 0,
            r9: 0,
            r8: 0,
            rbp: 0,
            rdi: 0,
            rsi: 0,
            rdx: 0,
            rcx: 0,
            rbx: 0,
            rax: 0,
            vector: 0,
            ec: 0,
            rip: 0,
            cs: 0,
            rflags: 0,
            rsp: 0,
            ss: 0,
        }
    }
}

/// Two frames with the same words in memory are the same frame.
pub proof fn lemma_words_decide(a: StackFrame, b: StackFrame)
    requires
        a.words() == b.words(),
    ensures
        a == b,
{
    let wa = a.words();
    let wb = b.words();
    assert(wa[0] == wb[0] && wa[1] == wb[1] && wa[2] == wb[2] && wa[3] == wb[3] && wa[4] == wb[4]
        && wa[5] == wb[5] && wa[6] == wb[6] && wa[7] == wb[7] && wa[8] == wb[8] && wa[9] == wb[9]
        && wa[10] == wb[10]);
    assert(wa[11] == wb[11] && wa[12] == wb[12] && wa[13] == wb[13] && wa[14] == wb[14] && wa[15]
        == wb[15] && wa[16] == wb[16] && wa[17] == wb[17] && wa[18] == wb[18] && wa[19] == wb[19]
        && wa[20] == wb[20] && wa[21] == wb[21]);
}

/// What the processor is told of the descriptor table: its last byte and
/// its address.
#[derive(Debug, Clone, Copy, PartialEq, Eq, Structural)]
pub struct IdtPtr {
    pub limit: u16,
    pub base: u64,
}

impl IdtPtr {
    /// The ten bytes of the pointer as they lie in memory.
    pub open spec fn bytes(self) -> Seq<u8> {
        spec_u16_to_le_bytes(self.limit) + spec_u64_to_le_bytes(self.base)
    }

    /// The ten bytes of the pointer as they lie in memory.
    pub fn to_bytes(&self) -> (b: Vec<u8>)
        ensures
            b@ == self.bytes(),
    {
        let mut b: Vec<u8> = Vec::new();
        push_le16(&mut b, self.limit);
        push_le64(&mut b, self.base);
        b
    }

    /// The pointer to a table of 256 descriptors of 16 bytes at `base`.
    pub fn new(base: u64) -> (p: IdtPtr)
        ensures
            p.base == base,
            p.limit == 16 * 256 - 1,
    {
        IdtPtr { limit: 4095, base }
    }
}

/// One interrupt descriptor: the handler's address in three pieces, the
/// code segment to run it in, the index of its interrupt stack and its
/// kind.
#[derive(Debug, Clone, Copy, PartialEq, Eq, Structural)]
pub struct IdtEntry {
    pub offset0: u16,
    pub selector: u16,
    pub ist: u8,
    pub typeattr: u8,
    pub offset1: u16,
    pub offset2: u32,
    pub zero: u32,
}

impl IdtEntry {
    /// The address that the three offset fields give.
    pub open spec fn handler(self) -> int {
        self.offset0 + self.offset1 * 0x1_0000 + self.offset2 * 0x1_0000_0000
    }

    /// The sixteen bytes of the descriptor as they lie in memory.
    pub open spec fn bytes(self) -> Seq<u8> {
        spec_u16_to_le_bytes(self.offset0) + spec_u16_to_le_bytes(self.selector) + seq![
            self.ist,
            self.typeattr,
        ] + spec_u16_to_le_bytes(self.offset1) + spec_u32_to_le_bytes(self.offset2)
            + spec_u32_to_le_bytes(self.zero)
    }

    /// Adds to `out` the sixteen bytes of the descriptor.
    pub fn push_to(&self, out: &mut Vec<u8>)
        ensures
            final(out)@ == old(out)@ + self.bytes(),
    {
        push_le16(out, self.offset0);
        push_le16(out, self.selector);
        out.push(self.ist);
        out.push(self.typeattr);
        push_le16(out, self.offset1);
        push_le32(out, self.offset2);
        push_le32(out, self.zero);
        assert(out@ =~= old(out)@ + self.bytes());
    }

    /// The empty descriptor.
    pub fn new() -> (e: IdtEntry)
        ensures
            e == (IdtEntry {
                offset0: 0,
                selector: 0,
                ist: 0,
                typeattr: 0,
                offset1: 0,
                offset2: 0,
                zero: 0,
            }),
    {
        IdtEntry { offset0: 0, selector: 0, ist: 0, typeattr: 0, offset1: 0, offset2: 0, zero: 0 }
    }

    /// Points the descriptor at the routine at `isr`, to run in the code
    /// segment `selector`. Without a kind the descriptor is an interrupt
    /// descriptor for ring 0, and without an index it has no interrupt
    /// stack.
    pub fn set(&mut self, isr: u64, typeattr: Option<u8>, ist: Option<u8>, selector: u16)
        ensures
            final(self).handler() == isr,
            final(self).selector == selector,
            final(self).typeattr == (match typeattr {
                Some(t) => t,
                None => GATE_KERNEL,
            }),
            final(self).ist == (match ist {
                Some(i) => i,
                None => 0u8,
            }),
            final(self).zero == old(self).zero,
    {
        self.typeattr = match typeattr {
            Some(t) => t,
            None => GATE_KERNEL,
        };
        self.ist = match ist {
            Some(i) => i,
            None => 0,
        };
        let low: u64 = isr & 0xFFFF;
        let mid: u64 = (isr >> 16) & 0xFFFF;
        let high: u64 = isr >> 32;
        assert(low <= 0xFFFF && mid <= 0xFFFF && high <= 0xFFFF_FFFF && low + mid * 0x1_0000 + high
            * 0x1_0000_0000 == isr) by (bit_vector)
            requires
                low == isr & 0xFFFF,
                mid == (isr >> 16) & 0xFFFF,
                high == isr >> 32,
        ;
        self.offset0 = low as u16;
        self.offset1 = mid as u16;
        self.offset2 = high as u32;
        self.selector = selector;
    }
}

/// The descriptor table: one descriptor per vector.
pub struct Idt {
    pub entries: [IdtEntry; 256],
}

/// The bytes of the first `n` descriptors of `entries`, one after the
/// other.
pub open spec fn table_bytes(entries: Seq<IdtEntry>, n: int) -> Seq<u8>
    decreases n,
{
    if n <= 0 {
        Seq::empty()
    } else {
        table_bytes(entries, n - 1) + entries[n - 1].bytes()
    }
}

impl Idt {
    /// The 4096 bytes of the table as they lie in memory.
    pub fn to_bytes(&self) -> (b: Vec<u8>)
        ensures
            b@ == table_bytes(self.entries@, 256),
    {
        let mut b: Vec<u8> = Vec::new();
        let mut i: usize = 0;
        while i < 256
            invariant
                i <= 256,
                b@ == table_bytes(self.entries@, i as int),
            decreases 256 - i,
        {
            let e = self.entries[i];
            e.push_to(&mut b);
            i = i + 1;
        }
        b
    }
}

/// Builds the descriptor table from the addresses of the 256 trap stubs:
/// every vector gets a kernel interrupt gate to its stub in the code
/// segment `selector`, but vector 0x80, which ring 3 may raise.
pub fn init(stubs: &[u64; 256], selector: u16) -> (idt: Idt)
    ensures
        forall|v: int|
            0 <= v < 256 ==> {
                let e = #[trigger] idt.entries@[v];
                &&& e.handler() == stubs@[v]
                &&& e.selector == selector
                &&& e.ist == 0
                &&& e.zero == 0
                &&& e.typeattr == if v == 0x80 {
                    GATE_USER
                } else {
                    GATE_KERNEL
                }
            },
{
    let mut idt = Idt { entries: [IdtEntry::new(); 256] };
    let mut i: usize = 0;
    while i < 256
        invariant
            i <= 256,
            forall|v: int| i <= v < 256 ==> (#[trigger] idt.entries@[v]).zero == 0,
            forall|v: int|
                0 <= v < i ==> {
                    let e = #[trigger] idt.entries@[v];
                    &&& e.handler() == stubs@[v]
                    &&& e.selector == selector
                    &&& e.ist == 0
                    &&& e.zero == 0
                    &&& e.typeattr == if v == 0x80 {
                        GATE_USER
                    } else {
                        GATE_KERNEL
                    }
                },
        decreases 256 - i,
    {
        let mut e = idt.entries[i];
        e.set(
            stubs[i],
            if i == 0x80 {
                Some(GATE_USER)
            } else {
                Some(GATE_KERNEL)
            },
            None,
            selector,
        );
        idt.entries[i] = e;
        i = i + 1;
    }
    idt
}

/// What a vector is for.
#[derive(Debug, Clone, Copy, PartialEq, Eq, Structural)]
pub enum VectorClass {
    /// One of the first 32: an exception that the processor defines.
    Exception,
    /// The legacy tick timer.
    TickTimer,
    /// The keyboard.
    Keyboard,
    /// The preemption timer and the yield.
    Preemption,
    /// Free for registration.
    Free,
}

pub open spec fn class_of(vector: u8) -> VectorClass {
    if vector < 32 {
        VectorClass::Exception
    } else if vector == TICK_TIMER {
        VectorClass::TickTimer
    } else if vector == KEYBOARD {
        VectorClass::Keyboard
    } else if vector == PREEMPTION {
        VectorClass::Preemption
    } else {
        VectorClass::Free
    }
}

/// What `vector` is for.
pub fn classify(vector: u8) -> (c: VectorClass)
    ensures
        c == class_of(vector),
{
    if vector < 32 {
        VectorClass::Exception
    } else if vector == TICK_TIMER {
        VectorClass::TickTimer
    } else if vector == KEYBOARD {
        VectorClass::Keyboard
    } else if vector == PREEMPTION {
        VectorClass::Preemption
    } else {
        VectorClass::Free
    }
}

/// The vectors on which the processor itself pushes an error code.
pub open spec fn has_error_code(vector: u8) -> bool {
    vector == 8 || (10 <= vector <= 14) || vector == 17 || vector == 21 || vector == 29 || vector
        == 30
}

/// Whether the processor pushes an error code on `vector`; on every other
/// vector the stub pushes a zero in its place, so that all frames have one
/// shape.
pub fn pushes_error_code(vector: u8) -> (r: bool)
    ensures
        r == has_error_code(vector),
{
    vector == 8 || (10 <= vector && vector <= 14) || vector == 17 || vector == 21 || vector == 29
        || vector == 30
}

/// The name of exception `vector`.
pub open spec fn exception_name_of(vector: u64) -> &'static str {
    if vector == 0 {
        "divide by zero"
    } else if vector == 1 {
        "debug"
    } else if vector == 2 {
        "non-maskable interrupt"
    } else if vector == 3 {
        "breakpoint"
    } else if vector == 4 {
        "detected overflow"
    } else if vector == 5 {
        "out-of-bounds"
    } else if vector == 6 {
        "invalid opcode"
    } else if vector == 7 {
        "no coprocessor"
    } else if vector == 8 {
        "double fault"
    } else if vector == 9 {
        "coprocessor segment overrun"
    } else if vector == 10 {
        "bad TSS"
    } else if vector == 11 {
        "segment not present"
    } else if vector == 12 {
        "stack fault"
    } else if vector == 13 {
        "general protection fault"
    } else if vector == 14 {
        "page fault"
    } else if vector == 15 {
        "unknown interrupt"
    } else if vector == 16 {
        "coprocessor fault"
    } else if vector == 17 {
        "alignment check"
    } else if vector == 18 {
        "machine check"
    } else {
        "reserved"
    }
}

/// The name of exception `vector`.
pub fn exception_name(vector: u64) -> (name: &'static str)
    requires
        vector < 32,
    ensures
        name == exception_name_of(vector),
{
    if vector == 0 {
        "divide by zero"
    } else if vector == 1 {
        "debug"
    } else if vector == 2 {
        "non-maskable interrupt"
    } else if vector == 3 {
        "breakpoint"
    } else if vector == 4 {
        "detected overflow"
    } else if vector == 5 {
        "out-of-bounds"
    } else if vector == 6 {
        "invalid opcode"
    } else if vector == 7 {
        "no coprocessor"
    } else if vector == 8 {
        "double fault"
    } else if vector == 9 {
        "coprocessor segment overrun"
    } else if vector == 10 {
        "bad TSS"
    } else if vector == 11 {
        "segment not present"
    } else if vector == 12 {
        "stack fault"
    } else if vector == 13 {
        "general protection fault"
    } else if vector == 14 {
        "page fault"
    } else if vector == 15 {
        "unknown interrupt"
    } else if vector == 16 {
        "coprocessor fault"
    } else if vector == 17 {
        "alignment check"
    } else if vector == 18 {
        "machine check"
    } else {
        "reserved"
    }
}

/// What the dispatcher decides for one trap.
#[derive(Debug, Clone, Copy, PartialEq, Eq, Structural)]
pub enum TrapAction {
    /// A page fault at the given address: report and halt.
    PageFault { address: u64 },
    /// Another exception: report and halt.
    Exception { vector: u64 },
    /// Run the handler registered under this token.
    Handle { handler: u64 },
    /// No handler is registered: drop the interrupt.
    Ignore,
}

/// The handlers registered per vector. A handler is a token that the
/// caller of the dispatcher knows how to run.
pub struct Handlers {
    pub slots: [Option<u64>; 256],
}

impl Handlers {
    /// The table with the two handlers that the kernel installs itself:
    /// that of the tick timer and that of the keyboard.
    pub fn new(tick: u64, keyboard: u64) -> (h: Handlers)
        ensures
            forall|v: int|
                0 <= v < 256 ==> #[trigger] h.slots@[v] == if v == TICK_TIMER {
                    Some(tick)
                } else if v == KEYBOARD {
                    Some(keyboard)
                } else {
                    None
                },
    {
        let mut h = Handlers { slots: [None; 256] };
        h.slots[0x20] = Some(tick);
        h.slots[0x21] = Some(keyboard);
        h
    }

    /// Registers `handler` for `vector`, in place of what was there.
    pub fn install_interrupt(&mut self, vector: u8, handler: u64)
        ensures
            final(self).slots@ == old(self).slots@.update(vector as int, Some(handler)),
    {
        self.slots[vector as usize] = Some(handler);
    }

    /// Removes the handler of `vector`.
    pub fn clear_interrupt(&mut self, vector: u8)
        ensures
            final(self).slots@ == old(self).slots@.update(vector as int, None),
    {
        self.slots[vector as usize] = None;
    }

    /// What is to happen on the trap whose frame is `regs`, with
    /// `fault_address` the address that the processor reports for a page
    /// fault.
    pub open spec fn action(&self, regs: StackFrame, fault_address: u64) -> TrapAction {
        if regs.vector == PAGE_FAULT {
            TrapAction::PageFault { address: fault_address }
        } else if regs.vector < EXCEPTIONS {
            TrapAction::Exception { vector: regs.vector }
        } else {
            match self.slots@[regs.vector as int] {
                Some(handler) => TrapAction::Handle { handler },
                None => TrapAction::Ignore,
            }
        }
    }

    /// Decides what is to happen on a trap: a page fault and every other
    /// exception are fatal, any other vector goes to its handler or is
    /// dropped.
    pub fn isr_handler(&self, regs: &StackFrame, fault_address: u64) -> (a: TrapAction)
        requires
            regs.vector < 256,
        ensures
            a == self.action(*regs, fault_address),
    {
        if regs.vector == PAGE_FAULT {
            return TrapAction::PageFault { address: fault_address };
        }
        if regs.vector < EXCEPTIONS {
            return TrapAction::Exception { vector: regs.vector };
        }
        match self.slots[regs.vector as usize] {
            Some(handler) => TrapAction::Handle { handler },
            None => TrapAction::Ignore,
        }
    }
}

} // verus!
