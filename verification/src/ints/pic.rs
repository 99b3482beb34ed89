//! The two cascaded 8259 interrupt controllers: what to write to their
//! ports, and in which order.

use vstd::prelude::*;

verus! {

pub const PIC_EOI: u8 = 0x20;

pub const ICW1_ICW4: u8 = 0x01;

pub const ICW4_8086: u8 = 0x01;

pub const ICW1_INIT: u8 = 0x10;

pub const PIC1_COMMAND: u16 = 0x20;

pub const PIC2_COMMAND: u16 = 0xA0;

pub const PIC1_DATA: u16 = 0x21;

pub const PIC2_DATA: u16 = 0xA1;

/// Vector base of the first controller after the remap.
pub const PIC1_OFFSET: u8 = 0x20;

/// Vector base of the second controller after the remap.
pub const PIC2_OFFSET: u8 = 0x28;

/// One byte to write to one port.
#[derive(Debug, Clone, Copy, PartialEq, Eq, Structural)]
pub struct PortWrite {
    pub port: u16,
    pub value: u8,
}

/// The data port of the controller that line `irq` belongs to.
pub open spec fn port_of(irq: u8) -> u16 {
    if irq < 8 {
        PIC1_DATA
    } else {
        PIC2_DATA
    }
}

/// The bit of line `irq` in the mask of its controller.
pub open spec fn line_bit(irq: u8) -> u8 {
    if irq < 8 {
        1u8 << irq
    } else {
        1u8 << ((irq - 8) as u8)
    }
}

/// The data port of the controller that line `irq` belongs to.
pub fn data_port(irq: u8) -> (port: u16)
    ensures
        port == port_of(irq),
{
    if irq < 8 {
        PIC1_DATA
    } else {
        PIC2_DATA
    }
}

/// The writes that acknowledge interrupt line `irq`: to the second
/// controller first where the line is one of its own, then to the first.
pub fn send_eoi(irq: u8) -> (w: Vec<PortWrite>)
    ensures
        w@ == if irq >= 8 {
            seq![
                PortWrite { port: PIC2_COMMAND, value: PIC_EOI },
                PortWrite { port: PIC1_COMMAND, value: PIC_EOI },
            ]
        } else {
            seq![PortWrite { port: PIC1_COMMAND, value: PIC_EOI }]
        },
{
    let mut w = Vec::new();
    if irq >= 8 {
        w.push(PortWrite { port: PIC2_COMMAND, value: PIC_EOI });
    }
    w.push(PortWrite { port: PIC1_COMMAND, value: PIC_EOI });
    assert(w@ =~= if irq >= 8 {
        seq![
            PortWrite { port: PIC2_COMMAND, value: PIC_EOI },
            PortWrite { port: PIC1_COMMAND, value: PIC_EOI },
        ]
    } else {
        seq![PortWrite { port: PIC1_COMMAND, value: PIC_EOI }]
    });
    w
}

/// Whether the saved flags have interrupts enabled: bit 9.
pub fn interrupts_enabled(rflags: u64) -> (r: bool)
    ensures
        r == (rflags & 0x200 != 0),
{
    (rflags & 0x200) != 0
}

/// The writes that let every line through.
pub fn unmask_all() -> (w: Vec<PortWrite>)
    ensures
        w@ == seq![
            PortWrite { port: PIC1_DATA, value: 0 },
            PortWrite { port: PIC2_DATA, value: 0 },
        ],
{
    let mut w = Vec::new();
    w.push(PortWrite { port: PIC1_DATA, value: 0 });
    w.push(PortWrite { port: PIC2_DATA, value: 0 });
    assert(w@ =~= seq![
        PortWrite { port: PIC1_DATA, value: 0 },
        PortWrite { port: PIC2_DATA, value: 0 },
    ]);
    w
}

/// The writes that hold every line back.
pub fn mask_all() -> (w: Vec<PortWrite>)
    ensures
        w@ == seq![
            PortWrite { port: PIC1_DATA, value: 0xff },
            PortWrite { port: PIC2_DATA, value: 0xff },
        ],
{
    let mut w = Vec::new();
    w.push(PortWrite { port: PIC1_DATA, value: 0xff });
    w.push(PortWrite { port: PIC2_DATA, value: 0xff });
    assert(w@ =~= seq![
        PortWrite { port: PIC1_DATA, value: 0xff },
        PortWrite { port: PIC2_DATA, value: 0xff },
    ]);
    w
}

/// The write that holds line `irq` back, given the mask `current` read
/// from the data port of its controller.
pub fn mask(irq: u8, current: u8) -> (w: PortWrite)
    requires
        irq < 16,
    ensures
        w.port == port_of(irq),
        w.value == current | line_bit(irq),
{
    if irq < 8 {
        PortWrite { port: PIC1_DATA, value: current | (1u8 << irq) }
    } else {
        PortWrite { port: PIC2_DATA, value: current | (1u8 << (irq - 8)) }
    }
}

/// The write that lets line `irq` through, given the mask `current` read
/// from the data port of its controller.
pub fn unmask(irq: u8, current: u8) -> (w: PortWrite)
    requires
        irq < 16,
    ensures
        w.port == port_of(irq),
        w.value == current & !line_bit(irq),
{
    if irq < 8 {
        PortWrite { port: PIC1_DATA, value: current & !(1u8 << irq) }
    } else {
        PortWrite { port: PIC2_DATA, value: current & !(1u8 << (irq - 8)) }
    }
}

/// The writes that move the two controllers to the vectors from 0x20 and
/// from 0x28 on, wire the second to line 2 of the first, put both in 8086
/// mode and give them back the masks `mask1` and `mask2` that they had.
pub fn init(mask1: u8, mask2: u8) -> (w: Vec<PortWrite>)
    ensures
        w@ == seq![
            PortWrite { port: PIC1_COMMAND, value: 0x11 },
            PortWrite { port: PIC2_COMMAND, value: 0x11 },
            PortWrite { port: PIC1_DATA, value: PIC1_OFFSET },
            PortWrite { port: PIC2_DATA, value: PIC2_OFFSET },
            PortWrite { port: PIC1_DATA, value: 0x04 },
            PortWrite { port: PIC2_DATA, value: 0x02 },
            PortWrite { port: PIC1_DATA, value: ICW4_8086 },
            PortWrite { port: PIC2_DATA, value: ICW4_8086 },
            PortWrite { port: PIC1_DATA, value: mask1 },
            PortWrite { port: PIC2_DATA, value: mask2 },
        ],
{
    assert(0x10u8 | 0x01u8 == 0x11u8) by (bit_vector);
    let mut w = Vec::new();
    w.push(PortWrite { port: PIC1_COMMAND, value: ICW1_INIT | ICW1_ICW4 });
    w.push(PortWrite { port: PIC2_COMMAND, value: ICW1_INIT | ICW1_ICW4 });
    w.push(PortWrite { port: PIC1_DATA, value: PIC1_OFFSET });
    w.push(PortWrite { port: PIC2_DATA, value: PIC2_OFFSET });
    w.push(PortWrite { port: PIC1_DATA, value: 0x04 });
    w.push(PortWrite { port: PIC2_DATA, value: 0x02 });
    w.push(PortWrite { port: PIC1_DATA, value: ICW4_8086 });
    w.push(PortWrite { port: PIC2_DATA, value: ICW4_8086 });
    w.push(PortWrite { port: PIC1_DATA, value: mask1 });
    w.push(PortWrite { port: PIC2_DATA, value: mask2 });
    assert(w@ =~= seq![
        PortWrite { port: PIC1_COMMAND, value: 0x11 },
        PortWrite { port: PIC2_COMMAND, value: 0x11 },
        PortWrite { port: PIC1_DATA, value: PIC1_OFFSET },
        PortWrite { port: PIC2_DATA, value: PIC2_OFFSET },
        PortWrite { port: PIC1_DATA, value: 0x04 },
        PortWrite { port: PIC2_DATA, value: 0x02 },
        PortWrite { port: PIC1_DATA, value: ICW4_8086 },
        PortWrite { port: PIC2_DATA, value: ICW4_8086 },
        PortWrite { port: PIC1_DATA, value: mask1 },
        PortWrite { port: PIC2_DATA, value: mask2 },
    ]);
    w
}

} // verus!
