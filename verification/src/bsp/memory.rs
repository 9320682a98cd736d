//! The board's physical memory map and the boot core's stack.

use vstd::prelude::*;
use crate::memory::{Address, AddressRange, Physical, Virtual};

verus! {

/// Bytes of the boot core's stack, which lies right below the kernel's
/// read-only data.
pub const BOOT_CORE_STACK_SIZE: usize = 0x1_0000;

/// The flash device.
pub fn flash() -> (r: AddressRange<Physical>)
    ensures
        r.wf(),
        r.base() == 0,
        r.len() == 0x0800_0000,
{
    AddressRange::new_raw(0, 0x0800_0000)
}

/// The console.
pub fn uart() -> (r: AddressRange<Physical>)
    ensures
        r.wf(),
        r.base() == 0x0900_0000,
        r.len() == 0x1000,
{
    AddressRange::new_raw(0x0900_0000, 0x0000_1000)
}

/// The general purpose pins.
pub fn gpio() -> (r: AddressRange<Physical>)
    ensures
        r.wf(),
        r.base() == 0x0903_0000,
        r.len() == 0x1000,
{
    AddressRange::new_raw(0x0903_0000, 0x0000_1000)
}

/// The first address above what the kernel maps of the board.
pub fn end() -> (r: Address<Physical>)
    ensures
        r@ == 0x4001_0000,
{
    Address::new(0x4001_0000)
}

/// Start address of the read-only range, which the linker provides.
pub fn virt_ro_start(ro_start: usize) -> (r: Address<Virtual>)
    ensures
        r@ == ro_start,
{
    Address::new(ro_start)
}

/// Start address of the boot core's stack: one stack below the read-only
/// range, which therefore has to start at least one stack above address 0.
pub fn virt_boot_core_stack_start(ro_start: usize) -> (r: Address<Virtual>)
    requires
        ro_start >= BOOT_CORE_STACK_SIZE,
    ensures
        r@ == ro_start - BOOT_CORE_STACK_SIZE,
{
    virt_ro_start(ro_start).sub(BOOT_CORE_STACK_SIZE)
}

/// Size of the boot core's stack.
pub fn boot_core_stack_size() -> (r: usize)
    ensures
        r == BOOT_CORE_STACK_SIZE,
{
    BOOT_CORE_STACK_SIZE
}

/// Exclusive end address of the boot core's stack: the start of the
/// read-only range. The kernel is mapped onto itself at this point, so the
/// physical address is the virtual one.
pub fn phys_boot_core_stack_end(ro_start: usize) -> (r: Address<Physical>)
    requires
        ro_start >= BOOT_CORE_STACK_SIZE,
    ensures
        r@ == ro_start,
{
    let end = virt_boot_core_stack_start(ro_start).into_usize() + boot_core_stack_size();
    Address::new(end)
}

/// The inclusive range spanning the .bss section, from the bounds that the
/// linker provides. The section is not empty.
pub fn bss_range_inclusive(bss_start: usize, bss_end_inclusive: usize) -> (r: (usize, usize))
    requires
        bss_start <= bss_end_inclusive,
    ensures
        r == (bss_start, bss_end_inclusive),
{
    (bss_start, bss_end_inclusive)
}

} // verus!
