//! The board: QEMU's `virt` machine.

pub mod memory;
