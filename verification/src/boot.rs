//! The record that the loader leaves for the kernel.

use vstd::prelude::*;
use vstd::string::StringExecFns;
use crate::memory::{AddressRange, Physical};

verus! {

/// Bytes that a [`BootInfo`] takes on the stack: three machine words,
/// rounded up to its alignment of 16 bytes.
pub const BOOT_INFO_SIZE: usize = 32;

/// What the loader tells the kernel: the physical pages that it has used
/// up.
pub struct BootInfo {
    pub used_pages: AddressRange<Physical>,
    pub _fill: usize,
}

impl BootInfo {
    /// The record as a line of text.
    pub open spec fn text_spec(&self) -> Seq<char> {
        "Used pages: "@ + self.used_pages.text_spec()
    }

    /// The record as a line of text.
    pub fn to_text(&self) -> (r: String)
        ensures
            r@ == self.text_spec(),
    {
        let mut out = String::from_str("Used pages: ");
        out.append(self.used_pages.to_text().as_str());
        out
    }
}

} // verus!
