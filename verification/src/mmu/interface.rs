//! Memory management interfaces.

use vstd::prelude::*;

verus! {

/// MMU functions.
pub trait MMU {
    /// Called by the kernel during early init. Supposed to take the
    /// translation tables from the board's layout and install and activate
    /// them for the respective MMU.
    fn init(&self) -> Result<(), &'static str>;
}

} // verus!
