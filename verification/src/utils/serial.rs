//! The first serial port: how it is set up, and when a byte may be sent or
//! fetched.

use vstd::prelude::*;
use crate::ints::pic::PortWrite;
use vstd::string::StringSliceAdditionalSpecFns;

pub mod color;

verus! {

pub const COM1_BASE: u16 = 0x3F8;

pub const COM1_DATA: u16 = 0x3F8;

pub const COM1_INTERRUPT_ENABLE: u16 = 0x3F9;

pub const COM1_FIFO_CONTROL: u16 = 0x3FA;

pub const COM1_LINE_CONTROL: u16 = 0x3FB;

pub const COM1_MODEM_CONTROL: u16 = 0x3FC;

pub const COM1_LINE_STATUS: u16 = 0x3FD;

/// Line status: the transmitter can take a byte.
pub const TRANSMIT_EMPTY: u8 = 0x20;

/// Line status: a byte has arrived.
pub const DATA_READY: u8 = 0x01;

/// The writes that set the port up: interrupts off, the divisor latch
/// opened, the divisor set to 3, the latch closed with 8 bits, no parity
/// and one stop bit, the queues enabled and cleared, and the modem lines
/// raised.
pub fn init() -> (w: Vec<PortWrite>)
    ensures
        w@ == seq![
            PortWrite { port: COM1_INTERRUPT_ENABLE, value: 0x00 },
            PortWrite { port: COM1_LINE_CONTROL, value: 0x80 },
            PortWrite { port: COM1_DATA, value: 0x03 },
            PortWrite { port: COM1_INTERRUPT_ENABLE, value: 0x00 },
            PortWrite { port: COM1_LINE_CONTROL, value: 0x03 },
            PortWrite { port: COM1_FIFO_CONTROL, value: 0xC7 },
            PortWrite { port: COM1_MODEM_CONTROL, value: 0x0B },
        ],
{
    let mut w = Vec::new();
    w.push(PortWrite { port: COM1_INTERRUPT_ENABLE, value: 0x00 });
    w.push(PortWrite { port: COM1_LINE_CONTROL, value: 0x80 });
    w.push(PortWrite { port: COM1_DATA, value: 0x03 });
    w.push(PortWrite { port: COM1_INTERRUPT_ENABLE, value: 0x00 });
    w.push(PortWrite { port: COM1_LINE_CONTROL, value: 0x03 });
    w.push(PortWrite { port: COM1_FIFO_CONTROL, value: 0xC7 });
    w.push(PortWrite { port: COM1_MODEM_CONTROL, value: 0x0B });
    assert(w@ =~= seq![
        PortWrite { port: COM1_INTERRUPT_ENABLE, value: 0x00 },
        PortWrite { port: COM1_LINE_CONTROL, value: 0x80 },
        PortWrite { port: COM1_DATA, value: 0x03 },
        PortWrite { port: COM1_INTERRUPT_ENABLE, value: 0x00 },
        PortWrite { port: COM1_LINE_CONTROL, value: 0x03 },
        PortWrite { port: COM1_FIFO_CONTROL, value: 0xC7 },
        PortWrite { port: COM1_MODEM_CONTROL, value: 0x0B },
    ]);
    w
}

/// The write that sends `byte`, once the line status `status` shows that
/// the transmitter can take it; `None` while it cannot.
pub fn serial_write(status: u8, byte: u8) -> (w: Option<PortWrite>)
    ensures
        w == if status & TRANSMIT_EMPTY != 0 {
            Some(PortWrite { port: COM1_DATA, value: byte })
        } else {
            None
        },
{
    if (status & TRANSMIT_EMPTY) == 0 {
        None
    } else {
        Some(PortWrite { port: COM1_DATA, value: byte })
    }
}

/// The port to fetch a byte from, once the line status `status` shows
/// that one has arrived; `None` while none has.
pub fn serial_read(status: u8) -> (port: Option<u16>)
    ensures
        port == if status & DATA_READY != 0 {
            Some(COM1_DATA)
        } else {
            None
        },
{
    if (status & DATA_READY) == 0 {
        None
    } else {
        Some(COM1_DATA)
    }
}

/// The request for the place of the cursor, which is never sent.
pub open spec fn cursor_request() -> Seq<u8> {
    seq![0x1bu8, 0x5b, 0x36, 0x6e]
}

/// What writes text to the serial port.
pub struct SerialWriter;

impl SerialWriter {
    /// The bytes to send for `s`: its own, or none where it is the
    /// request for the place of the cursor.
    pub fn write_str(&self, s: &str) -> (bytes: Vec<u8>)
        ensures
            bytes@ == if s.spec_bytes() == cursor_request() {
                Seq::<u8>::empty()
            } else {
                s.spec_bytes()
            },
    {
        let b = s.as_bytes();
        let mut out: Vec<u8> = Vec::new();
        if b.len() == 4 && b[0] == 0x1b && b[1] == 0x5b && b[2] == 0x36 && b[3] == 0x6e {
            assert(b@ =~= cursor_request());
            return out;
        }
        crate::utils::text::push_bytes(&mut out, b);
        assert(out@ =~= b@);
        out
    }
}

} // verus!
