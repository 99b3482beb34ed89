//! Helpers that the rest of the kernel rests on.

pub mod cpu;
pub mod bootloader;
pub mod bytes;
pub mod heapless;
pub mod serial;
pub mod text;
