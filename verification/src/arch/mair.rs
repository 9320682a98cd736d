//! Indices into the memory attribute indirection register.

use vstd::prelude::*;

verus! {

/// Index of the attribute for device memory.
pub const DEVICE: u64 = 0;

/// Index of the attribute for cacheable normal memory.
pub const NORMAL: u64 = 1;

} // verus!
