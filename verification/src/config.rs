//! Board-level constants of the translation scheme.

use vstd::prelude::*;

verus! {

/// The translation granule of the board.
pub type MmuGranule = crate::mmu::layout::TranslationGranule<4096>;

/// Bytes in one translation granule.
pub const GRANULE_SIZE: usize = 4096;

/// Binary logarithm of [`GRANULE_SIZE`].
pub const GRANULE_SHIFT: usize = 12;

/// Descriptors in one translation table: a granule of 64-bit entries.
pub const ENTRY_PER_TABLE: usize = 512;

/// First address above what a descriptor's output field can name: physical
/// addresses have 48 bits.
pub const PHYSICAL_LIMIT: u64 = 0x1_0000_0000_0000;

/// The granule is a power of two, so the alignment helpers accept it.
pub proof fn lemma_granule_is_pow2()
    ensures
        vstd::arithmetic::power2::is_pow2(GRANULE_SIZE as int),
{
    reveal_with_fuel(vstd::arithmetic::power2::is_pow2, 14);
}

} // verus!
