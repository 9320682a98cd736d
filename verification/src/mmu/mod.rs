//! An architecture agnostic description of a kernel's virtual memory
//! layout.

pub mod interface;
pub mod layout;
