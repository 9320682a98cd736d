//! AArch64: translation tables, the memory management unit, boot-time
//! privilege changes and exception reports.

pub mod mair;
pub mod hw;
pub mod descriptor;
pub mod phys;
pub mod walk;
pub mod model;
pub mod mmu;
pub mod view;
pub mod regime;
pub mod boot;

pub mod exception;
