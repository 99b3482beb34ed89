//! What is particular to the processor: its descriptor tables and its
//! clocks.

pub mod gdt;
pub mod time;
