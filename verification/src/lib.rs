//! Memory management and boot-time address-space construction for a minimal
//! AArch64 kernel, with every routine checked against its contract.
//!
//! The crate keeps the machine at arm's length: physical memory is an explicit
//! [`arch::phys::PhysMemory`] value, the allocator is an explicit object, and
//! hardware registers are plain numbers that the caller programs, step by
//! step, from lists of [`arch::hw::HwStep`].
//!
//! - [`memory`] has typed addresses, ranges, attributes and page ownership.
//! - [`allocator`] has the bump allocator of the loader.
//! - [`arch`] has the translation tables, the memory management unit, the
//!   change of exception level after reset and the exception reports.
//! - [`loader`] has the work of the boot loader on memory and the kernel
//!   image.
//! - [`mmu`] and [`bsp`] describe a kernel's memory layout and the board.

pub mod common;
pub mod config;
pub mod text;
pub mod registers;
pub mod memory;
pub mod allocator;
pub mod arch;
pub mod boot;
pub mod loader;
pub mod mmu;
pub mod bsp;
