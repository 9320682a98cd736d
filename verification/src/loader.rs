//! The boot loader's work on memory: its own address space, the stack of
//! the kernel, the segments of the kernel image, and the hand-over.

use vstd::prelude::*;
use vstd::bytes::{spec_u64_to_le_bytes, u64_to_le_bytes};
use crate::allocator::{StackPageAllocator, StackPageAllocatorMetadata};
use crate::arch::descriptor::page_descriptor_bits;
use crate::arch::hw::HwStep;
use crate::arch::mmu::{MemoryManagementUnit, enable_steps, range_mapped};
use crate::arch::model::Space;
use crate::common::align_up_spec;
use crate::arch::phys::PhysMemory;
use crate::arch::walk::vpn_of;
use crate::boot::{BOOT_INFO_SIZE, BootInfo};
use crate::config::{GRANULE_SIZE, PHYSICAL_LIMIT};
use crate::memory::{AccessPermissions, Address, AddressRange, AttributeFields, IdentMapper, MemAttributes, PageAllocator, Physical, Virtual, lemma_page_count, page_count_spec};

verus! {

/// Pages of the loader's pool, from which the tables, the kernel's stack
/// and the segments of the kernel image come.
pub const POOL_PAGES: usize = 1024;

/// Pages of the kernel's stack.
pub const STACK_PAGES: usize = 512;

/// Where the kernel's stack starts in the high half of the address space.
pub const STACK_VIRT_BASE: u64 = 0xFFFF_1000_0000_0000;

/// The permission bits of a segment of an ELF image.
#[derive(Copy, Clone, Debug, PartialEq, Eq, Structural)]
pub struct SegmentFlags {
    pub bits: u32,
}

/// What the loader reads of a loadable segment's header.
#[derive(Copy, Clone, Debug, PartialEq, Eq, Structural)]
pub struct LoadHeader {
    pub virtual_addr: u64,
    pub mem_size: u64,
    pub flags: SegmentFlags,
}

/// Whether segments are writable.
#[derive(Copy, Clone, Debug, PartialEq, Eq, Structural)]
pub enum WritePolicy {
    /// Every segment is mapped writable, whatever its flags say.
    AlwaysWritable,
    /// A segment is mapped writable if its flags say so.
    AsDeclared,
}

/// `is_write` of `elfloader::Flags`: whether the write bit, bit 1, is set.
#[verifier::external_body]
fn flags_is_write(bits: u32) -> (r: bool)
    ensures
        r == (bits & 0x2 == 0x2),
{
    elfloader::Flags(bits).is_write()
}

/// `is_execute` of `elfloader::Flags`: whether the execute bit, bit 0, is
/// set.
#[verifier::external_body]
fn flags_is_execute(bits: u32) -> (r: bool)
    ensures
        r == (bits & 0x1 == 0x1),
{
    elfloader::Flags(bits).is_execute()
}

impl SegmentFlags {
    /// Whether the segment may be written.
    pub open spec fn write_spec(self) -> bool {
        self.bits & 0x2 == 0x2
    }

    /// Whether the segment may be executed.
    pub open spec fn execute_spec(self) -> bool {
        self.bits & 0x1 == 0x1
    }

    /// Whether the segment may be written.
    pub fn is_write(&self) -> (r: bool)
        ensures
            r == self.write_spec(),
    {
        flags_is_write(self.bits)
    }

    /// Whether the segment may be executed.
    pub fn is_execute(&self) -> (r: bool)
        ensures
            r == self.execute_spec(),
    {
        flags_is_execute(self.bits)
    }
}

/// The attributes of a segment's pages: cacheable memory, executable if the
/// flags say so, writable by the policy.
pub open spec fn flags_to_attributes_spec(flags: SegmentFlags, policy: WritePolicy) -> AttributeFields {
    AttributeFields {
        mem_attributes: MemAttributes::CacheableDRAM,
        acc_perms: if policy == WritePolicy::AsDeclared && !flags.write_spec() {
            AccessPermissions::ReadOnly
        } else {
            AccessPermissions::ReadWrite
        },
        execute_never: !flags.execute_spec(),
    }
}

/// The attributes of a segment's pages under a policy.
pub fn flags_to_attributes_with(flags: &SegmentFlags, policy: WritePolicy) -> (r: AttributeFields)
    ensures
        r == flags_to_attributes_spec(*flags, policy),
{
    let ap = if flags.is_write() {
        AccessPermissions::ReadWrite
    } else {
        match policy {
            WritePolicy::AlwaysWritable => AccessPermissions::ReadWrite,
            WritePolicy::AsDeclared => AccessPermissions::ReadOnly,
        }
    };
    let nx = !flags.is_execute();
    AttributeFields { mem_attributes: MemAttributes::CacheableDRAM, acc_perms: ap, execute_never: nx }
}

/// The attributes of a segment's pages as the loader maps them: always
/// writable.
pub fn flags_to_attributes(flags: &SegmentFlags) -> (r: AttributeFields)
    ensures
        r == flags_to_attributes_spec(*flags, WritePolicy::AlwaysWritable),
{
    flags_to_attributes_with(flags, WritePolicy::AlwaysWritable)
}

/// The allocator of the loader: its pool of [`POOL_PAGES`] pages starts at
/// the first granule boundary at or above `load_end`, the end of the
/// loader's own image, and nothing of it is handed out. The pool has to end
/// within the machine word. An image that ends at address 0 leaves the
/// allocator uninitialized.
pub fn setup_page_pool(load_end: usize) -> (r: StackPageAllocator)
    requires
        align_up_spec(load_end as int, GRANULE_SIZE as int) + POOL_PAGES * GRANULE_SIZE
            <= usize::MAX,
    ensures
        r.state().start_spec() == align_up_spec(load_end as int, GRANULE_SIZE as int),
        r.state().top_spec() == r.state().start_spec(),
        r.state().end_spec() == r.state().start_spec() + POOL_PAGES * GRANULE_SIZE,
        load_end != 0 ==> r.inv(),
{
    proof {
        crate::config::lemma_granule_is_pow2();
        crate::common::lemma_align_up_bounds(load_end as int, GRANULE_SIZE as int);
    }
    let start = crate::common::align_up(load_end, GRANULE_SIZE);
    let mut metadata = StackPageAllocatorMetadata::new();
    metadata.init(Address::new(start), POOL_PAGES);
    StackPageAllocator::new(metadata)
}

/// What the image, the page pool and the console are mapped with in the
/// loader's own address space.
pub open spec fn image_attributes() -> AttributeFields {
    AttributeFields {
        mem_attributes: MemAttributes::CacheableDRAM,
        acc_perms: AccessPermissions::ReadWrite,
        execute_never: false,
    }
}

/// What the console's device page is mapped with.
pub open spec fn device_attributes() -> AttributeFields {
    AttributeFields {
        mem_attributes: MemAttributes::Device,
        acc_perms: AccessPermissions::ReadWrite,
        execute_never: true,
    }
}

/// What the kernel's stack is mapped with.
pub open spec fn stack_attributes() -> AttributeFields {
    AttributeFields {
        mem_attributes: MemAttributes::CacheableDRAM,
        acc_perms: AccessPermissions::ReadWrite,
        execute_never: true,
    }
}

/// The loader's own address space: the image and the page pool mapped onto
/// themselves, and the page of the console.
pub open spec fn loader_space(image: (int, int), pool: (int, int), uart: int) -> Map<int, u64> {
    range_mapped(
        range_mapped(
            Map::<int, u64>::empty(),
            image.0,
            image.0,
            image_attributes(),
            page_count_spec(image.1) as nat,
        ),
        pool.0,
        pool.0,
        image_attributes(),
        page_count_spec(pool.1) as nat,
    ).insert(vpn_of(uart as u64), page_descriptor_bits(uart as u64, device_attributes()))
}

/// What comes of building the loader's own address space on a unit: the
/// image is mapped onto itself, then the pool, then the page of the
/// console, and the first of the three that cannot be mapped ends the work
/// with its error.
pub open spec fn loader_outcome(
    space: Space<StackPageAllocator>,
    image: (int, int),
    pool: (int, int),
    uart: int,
) -> Result<Space<StackPageAllocator>, &'static str> {
    let imaged = space.map_range(
        false,
        image.0,
        image.0,
        image_attributes(),
        page_count_spec(image.1) as nat,
    );
    let pooled = imaged.0.map_range(
        false,
        pool.0,
        pool.0,
        image_attributes(),
        page_count_spec(pool.1) as nat,
    );
    let mapped = pooled.0.map_page(
        false,
        vpn_of(uart as u64),
        page_descriptor_bits(uart as u64, device_attributes()),
    );
    if imaged.1 is Err {
        Err("Failed to map image")
    } else if pooled.1 is Err {
        Err("Failed to map page pool")
    } else if mapped.1 is Err {
        Err("Failed to map UART0")
    } else {
        Ok(mapped.0)
    }
}

/// Builds the loader's own address space in the low regime and switches
/// translation on: the image and the allocator's pool are mapped onto
/// themselves, readable, writable and executable, and the page of the
/// console as device memory. The error says which of the three failed.
pub fn setup_kernel_mmu(
    alloc: StackPageAllocator,
    mem: PhysMemory,
    image: AddressRange<Physical>,
    uart: Address<Physical>,
) -> (r: Result<MemoryManagementUnit<StackPageAllocator>, &'static str>)
    requires
        alloc.inv(),
        mem.wf(),
        image.wf(),
        image.base() % (GRANULE_SIZE as int) == 0,
    ensures
        r matches Ok(mmu) ==> {
            &&& mmu.wf()
            &&& mmu.is_enabled()
            &&& mmu.page_table(true) == Map::<int, u64>::empty()
            &&& mmu.root_spec(true) is None
            &&& mmu.root_spec(false) is Some
            &&& mmu.page_table(false) == loader_space(
                (image.base(), image.len()),
                (
                    alloc.state().start_spec(),
                    alloc.state().end_spec() - alloc.state().start_spec(),
                ),
                uart@,
            )
            &&& mmu.pending_steps() == seq![HwStep::SetTtbr0(mmu.root_spec(false)->0 as u64)]
                + enable_steps()
            &&& mem.data_kept(&mmu.memory())
        },
        r matches Err(e) ==> e == "Failed to map image" || e == "Failed to map page pool" || e
            == "Failed to map UART0",
        match loader_outcome(
            Space::fresh(
                alloc,
                mem.base(),
                mem.page_count(),
                Set::new(|frame: int| mem.contains(frame) && mem.is_table(frame)),
            ),
            (image.base(), image.len()),
            (alloc.state().start_spec(), alloc.state().end_spec() - alloc.state().start_spec()),
            uart@,
        ) {
            Ok(space) => r matches Ok(mmu) && mmu.space() == space,
            Err(e) => r == Err::<MemoryManagementUnit<StackPageAllocator>, &str>(e),
        },
{
    let pool = alloc.metadata().range();
    let attributes = AttributeFields {
        mem_attributes: MemAttributes::CacheableDRAM,
        acc_perms: AccessPermissions::ReadWrite,
        execute_never: false,
    };
    let mut mmu = MemoryManagementUnit::new(alloc, mem);
    let ghost fresh = mmu;
    match mmu.map_range::<IdentMapper>(false, image, attributes) {
        Ok(()) => {},
        Err(_) => {
            return Err("Failed to map image");
        },
    }
    let ghost imaged = mmu;
    match mmu.map_range::<IdentMapper>(false, pool, attributes) {
        Ok(()) => {},
        Err(_) => {
            return Err("Failed to map page pool");
        },
    }
    let ghost pooled = mmu;
    let device = AttributeFields {
        mem_attributes: MemAttributes::Device,
        acc_perms: AccessPermissions::ReadWrite,
        execute_never: true,
    };
    let console: Address<Virtual> = Address::new(uart.into_usize());
    match mmu.map_page(false, uart, console, device) {
        Ok(()) => {},
        Err(_) => {
            return Err("Failed to map UART0");
        },
    }
    let ghost mapped = mmu;
    mmu.enable();
    proof {
        let root = mapped.root_spec(false);
        assert(mmu.root_spec(false) == root);
        assert(mapped.pending_steps() =~= seq![HwStep::SetTtbr0(root->0 as u64)]) by {
            if fresh.root_spec(false) != imaged.root_spec(false) {
            } else if imaged.root_spec(false) != pooled.root_spec(false) {
            } else {
            }
        }
        assert(mmu.page_table(false) == mapped.page_table(false));
        assert(mmu.page_table(true) == mapped.page_table(true));
        mem.lemma_data_kept_twice(&imaged.memory(), &pooled.memory());
        mem.lemma_data_kept_twice(&pooled.memory(), &mapped.memory());
    }
    Ok(mmu)
}

/// What comes of setting up the kernel's stack on a unit: the allocator is
/// asked for the pages of the stack, and they are mapped in the high regime
/// from [`STACK_VIRT_BASE`] up.
pub open spec fn stack_outcome(space: Space<StackPageAllocator>) -> (
    Space<StackPageAllocator>,
    Result<usize, &'static str>,
) {
    let taken = space.asked_for(STACK_PAGES);
    match space.alloc.alloc_spec(STACK_PAGES).1 {
        Err(_) => (taken, Err("No enough stack size")),
        Ok(base) => if STACK_VIRT_BASE > usize::MAX - STACK_PAGES * GRANULE_SIZE {
            (taken, Err("Stack does not fit the address space"))
        } else {
            let mapped = taken.map_range(
                true,
                base,
                STACK_VIRT_BASE as int,
                stack_attributes(),
                STACK_PAGES as nat,
            );
            match mapped.1 {
                Ok(()) => (mapped.0, Ok((STACK_VIRT_BASE + STACK_PAGES * GRANULE_SIZE) as usize)),
                Err(_) => (mapped.0, Err("Failed to map stack")),
            }
        },
    }
}

/// Allocates the kernel's stack and maps it into the high regime at
/// [`STACK_VIRT_BASE`], writable and not executable. Returns the first
/// address above the stack.
///
/// The stack comes from the top of the pool. Without room for it in the
/// pool nothing is mapped.
pub fn setup_kernel_stack(mmu: &mut MemoryManagementUnit<StackPageAllocator>) -> (r: Result<
    usize,
    &'static str,
>)
    requires
        old(mmu).wf(),
    ensures
        final(mmu).wf(),
        final(mmu).page_table(false) == old(mmu).page_table(false),
        final(mmu).is_enabled() == old(mmu).is_enabled(),
        old(mmu).memory().data_kept(&final(mmu).memory()),
        r matches Ok(end) ==> end == STACK_VIRT_BASE + STACK_PAGES * GRANULE_SIZE && final(mmu).page_table(true) == range_mapped(
            old(mmu).page_table(true),
            old(mmu).allocator().state().top_spec(),
            STACK_VIRT_BASE as int,
            stack_attributes(),
            STACK_PAGES as nat,
        ),
        r matches Err(e) ==> e == "No enough stack size" || e == "Failed to map stack" || e
            == "Stack does not fit the address space",
        old(mmu).allocator().state().free_pages() < STACK_PAGES ==> r == Err::<usize, &str>(
            "No enough stack size",
        ) && final(mmu).page_table(true) == old(mmu).page_table(true),
        (final(mmu).space(), r) == stack_outcome(old(mmu).space()),
{
    let ghost before = *mmu;
    let allocator = mmu.allocator_mut();
    let ghost top = allocator.state().top_spec();
    proof {
        allocator.state().lemma_bounds();
    }
    let page = match allocator.alloc_pages(STACK_PAGES) {
        Ok(p) => p,
        Err(_) => {
            proof {
                before.lemma_space_with_alloc(mmu);
            }
            return Err("No enough stack size");
        },
    };
    proof {
        before.lemma_space_with_alloc(mmu);
    }
    let stack_pages = page.range();
    if STACK_VIRT_BASE > (usize::MAX - STACK_PAGES * GRANULE_SIZE) as u64 {
        return Err("Stack does not fit the address space");
    }
    let stack_vrange = AddressRange::<Virtual>::new(
        Address::new(STACK_VIRT_BASE as usize),
        STACK_PAGES * GRANULE_SIZE,
    );
    let attributes = AttributeFields {
        mem_attributes: MemAttributes::CacheableDRAM,
        acc_perms: AccessPermissions::ReadWrite,
        execute_never: true,
    };
    proof {
        lemma_page_count(stack_pages.len());
    }
    match mmu.map_range_with(true, stack_pages, stack_vrange, attributes) {
        Ok(()) => {},
        Err(_) => {
            return Err("Failed to map stack");
        },
    }
    Ok(stack_vrange.end().into_usize())
}

/// The terminal state of the loader: where the kernel starts, on which
/// stack, and what it is told.
pub struct Handoff {
    pub entry_point: usize,
    pub stack_pointer: usize,
    pub boot_info: BootInfo,
}

impl Handoff {
    /// The step that hands control to the kernel.
    pub fn step(&self) -> (r: HwStep)
        ensures
            r == (HwStep::Jump { entry: self.entry_point as u64, stack: self.stack_pointer as u64 }),
            r.is_terminal(),
    {
        HwStep::Jump { entry: self.entry_point as u64, stack: self.stack_pointer as u64 }
    }
}

/// The bytes of a boot information as it lies on the stack: the base and
/// the size of the used pages and the filler, each as a 64-bit word with
/// the lowest byte first, and eight bytes of padding.
pub open spec fn boot_info_bytes(base: int, size: int, fill: int) -> Seq<u8> {
    spec_u64_to_le_bytes(base as u64) + spec_u64_to_le_bytes(size as u64) + spec_u64_to_le_bytes(
        fill as u64,
    ) + spec_u64_to_le_bytes(0)
}

/// The result of a copy as the result of the hand-over that rests on it.
pub open spec fn copied(r: Result<Handoff, &'static str>) -> Result<(), &'static str> {
    match r {
        Ok(_) => Ok(()),
        Err(e) => Err(e),
    }
}

/// Appends a 64-bit word to bytes, lowest byte first.
fn push_word(out: &mut Vec<u8>, word: u64)
    ensures
        final(out)@ == old(out)@ + spec_u64_to_le_bytes(word),
{
    let bytes = u64_to_le_bytes(word);
    let ghost before = out@;
    let mut i: usize = 0;
    while i < bytes.len()
        invariant
            i <= bytes@.len(),
            bytes@ == spec_u64_to_le_bytes(word),
            out@ == before + bytes@.subrange(0, i as int),
        decreases bytes@.len() - i,
    {
        out.push(bytes[i]);
        proof {
            assert(out@ =~= before + bytes@.subrange(0, i + 1));
        }
        i = i + 1;
    }
    proof {
        assert(bytes@.subrange(0, bytes@.len() as int) =~= bytes@);
    }
}

/// Prepares the jump to the kernel: the boot information tells of the
/// pages that the allocator has handed out; it is written right below the
/// end of the stack, through the high regime, and the stack pointer is its
/// address. The bytes are copied as [`MemoryManagementUnit::copy_to`]
/// copies, so a stack that is not mapped gives the error of the copy.
pub fn jump_to_entry(
    mmu: &mut MemoryManagementUnit<StackPageAllocator>,
    entry_point: usize,
    stack_end: usize,
) -> (r: Result<Handoff, &'static str>)
    requires
        old(mmu).wf(),
        stack_end >= BOOT_INFO_SIZE,
    ensures
        final(mmu).wf(),
        old(mmu).copy_post(
            final(mmu),
            true,
            stack_end - BOOT_INFO_SIZE,
            boot_info_bytes(
                old(mmu).allocator().state().start_spec(),
                old(mmu).allocator().state().top_spec() - old(mmu).allocator().state().start_spec(),
                0,
            ),
            copied(r),
        ),
        r matches Ok(h) ==> {
            &&& h.entry_point == entry_point
            &&& h.stack_pointer == stack_end - BOOT_INFO_SIZE
            &&& h.boot_info.used_pages.wf()
            &&& h.boot_info.used_pages.base() == old(mmu).allocator().state().start_spec()
            &&& h.boot_info.used_pages.len() == old(mmu).allocator().state().top_spec() - old(mmu).allocator().state().start_spec()
            &&& h.boot_info._fill == 0
        },
{
    let used = mmu.page_allocator().metadata().used();
    proof {
        used.lemma_bounds();
    }
    let boot_info = BootInfo { used_pages: used, _fill: 0 };
    let stack_pointer = stack_end - BOOT_INFO_SIZE;
    let mut bytes: Vec<u8> = Vec::new();
    push_word(&mut bytes, boot_info.used_pages.addr().into_usize() as u64);
    push_word(&mut bytes, boot_info.used_pages.size() as u64);
    push_word(&mut bytes, boot_info._fill as u64);
    push_word(&mut bytes, 0);
    proof {
        assert(bytes@ =~= boot_info_bytes(
            boot_info.used_pages.base(),
            boot_info.used_pages.len(),
            0,
        ));
        vstd::bytes::lemma_auto_spec_u64_to_from_le_bytes();
        assert(bytes@.len() == 32);
    }
    match mmu.copy_to(true, Address::new(stack_pointer), bytes.as_slice()) {
        Ok(()) => Ok(Handoff { entry_point, stack_pointer, boot_info }),
        Err(e) => Err(e),
    }
}

/// What comes of giving one segment its pages on a unit: the allocator is
/// asked for as many pages as cover the segment's size in memory, and they
/// are mapped in the high regime from the segment's virtual address up. A
/// segment that does not end within the machine word is refused first.
pub open spec fn segment_outcome(
    space: Space<StackPageAllocator>,
    header: LoadHeader,
    policy: WritePolicy,
) -> (Space<StackPageAllocator>, Result<(), &'static str>) {
    let size = align_up_spec(header.mem_size as int, GRANULE_SIZE as int);
    let pages = (size / (GRANULE_SIZE as int)) as usize;
    if header.mem_size > usize::MAX - (GRANULE_SIZE - 1) || header.virtual_addr > usize::MAX
        - size {
        (space, Err("Segment does not fit the address space"))
    } else {
        match space.alloc.alloc_spec(pages).1 {
            Err(e) => (space.asked_for(pages), Err(e)),
            Ok(base) => space.asked_for(pages).map_range(
                true,
                base,
                header.virtual_addr as int,
                flags_to_attributes_spec(header.flags, policy),
                pages as nat,
            ),
        }
    }
}

/// What comes of giving the first `count` segments their pages, one after
/// the other, until one of them fails.
pub open spec fn segments_outcome(
    space: Space<StackPageAllocator>,
    headers: Seq<LoadHeader>,
    policy: WritePolicy,
    count: nat,
) -> (Space<StackPageAllocator>, Result<(), &'static str>)
    decreases count,
{
    if count == 0 {
        (space, Ok(()))
    } else {
        let before = segments_outcome(space, headers, policy, (count - 1) as nat);
        match before.1 {
            Err(e) => before,
            Ok(()) => segment_outcome(before.0, headers[count - 1], policy),
        }
    }
}

/// Once a segment fails, the segments after it are not tried.
pub proof fn lemma_segments_stop(
    space: Space<StackPageAllocator>,
    headers: Seq<LoadHeader>,
    policy: WritePolicy,
    count: nat,
    more: nat,
)
    requires
        count <= more,
        segments_outcome(space, headers, policy, count).1 is Err,
    ensures
        segments_outcome(space, headers, policy, more) == segments_outcome(
            space,
            headers,
            policy,
            count,
        ),
    decreases more,
{
    if count < more {
        lemma_segments_stop(space, headers, policy, count, (more - 1) as nat);
    }
}

/// The high regime's mappings after the first `count` segments have been
/// given pages, segment `i` at the physical address `bases[i]`.
pub open spec fn segments_mapped(
    table: Map<int, u64>,
    headers: Seq<LoadHeader>,
    bases: Seq<int>,
    policy: WritePolicy,
    count: nat,
) -> Map<int, u64>
    decreases count,
{
    if count == 0 {
        table
    } else {
        range_mapped(
            segments_mapped(table, headers, bases, policy, (count - 1) as nat),
            bases[count - 1],
            headers[count - 1].virtual_addr as int,
            flags_to_attributes_spec(headers[count - 1].flags, policy),
            page_count_spec(headers[count - 1].mem_size as int) as nat,
        )
    }
}

/// What the first `count` segments are mapped to does not depend on the
/// addresses of later segments.
pub proof fn lemma_segments_mapped_prefix(
    table: Map<int, u64>,
    headers: Seq<LoadHeader>,
    bases: Seq<int>,
    more: Seq<int>,
    policy: WritePolicy,
    count: nat,
)
    requires
        count <= bases.len(),
    ensures
        segments_mapped(table, headers, bases + more, policy, count) == segments_mapped(
            table,
            headers,
            bases,
            policy,
            count,
        ),
    decreases count,
{
    if count > 0 {
        lemma_segments_mapped_prefix(table, headers, bases, more, policy, (count - 1) as nat);
    }
}

/// Mapping pages that were not mapped keeps every mapping that was there.
pub proof fn lemma_range_mapped_grows(
    table: Map<int, u64>,
    pbase: int,
    vbase: int,
    attributes: AttributeFields,
    count: nat,
)
    requires
        forall|i: int|
            0 <= i < count ==> !table.contains_key(
                #[trigger] vpn_of((vbase + i * GRANULE_SIZE) as u64),
            ),
    ensures
        table.submap_of(range_mapped(table, pbase, vbase, attributes, count)),
    decreases count,
{
    if count > 0 {
        lemma_range_mapped_grows(table, pbase, vbase, attributes, (count - 1) as nat);
        let key = vpn_of((vbase + (count - 1) * GRANULE_SIZE) as u64);
        assert(!table.contains_key(key));
    }
}

/// A segment of at most one granule that is given its page alone: where
/// that succeeds, the segment's virtual address translates in the high
/// regime to the page that the allocator handed out for it, as cacheable
/// memory that is executable if the segment's flags say so, and the
/// translation of no other page has changed: a page that was not mapped is
/// not mapped. The allocator's page has to lie below 2^48, which is all
/// that a descriptor can name.
pub proof fn lemma_single_segment(
    before: &KernelLoader,
    after: &KernelLoader,
    header: LoadHeader,
    r: Result<(), &'static str>,
    other: int,
)
    requires
        before.wf(),
        1 <= header.mem_size <= GRANULE_SIZE,
        header.virtual_addr % (GRANULE_SIZE as u64) == 0,
        (after.unit().space(), r) == segments_outcome(
            before.unit().space(),
            seq![header],
            before.write_policy(),
            1,
        ),
        r is Ok,
        before.unit().allocator().state().top_spec() < PHYSICAL_LIMIT,
        0 <= other <= u64::MAX,
        vpn_of(other as u64) != vpn_of(header.virtual_addr),
    ensures
        before.unit().allocator().alloc_spec(1).1 == Ok::<int, &str>(
            before.unit().allocator().state().top_spec(),
        ),
        after.unit().translate_spec(true, header.virtual_addr as int) == Some(
            (
                before.unit().allocator().state().top_spec(),
                flags_to_attributes_spec(header.flags, before.write_policy()),
            ),
        ),
        flags_to_attributes_spec(header.flags, before.write_policy()).mem_attributes
            == MemAttributes::CacheableDRAM,
        flags_to_attributes_spec(header.flags, before.write_policy()).execute_never
            == !header.flags.execute_spec(),
        after.unit().translate_spec(true, other) == before.unit().translate_spec(true, other),
        after.unit().is_mapped(true, other) == before.unit().is_mapped(true, other),
{
    let space = before.unit().space();
    let policy = before.write_policy();
    let attributes = flags_to_attributes_spec(header.flags, policy);
    let top = before.unit().allocator().state().top_spec();
    before.unit().lemma_memory_wf();
    before.unit().allocator().state().lemma_bounds();
    crate::common::lemma_align_up_bounds(header.mem_size as int, GRANULE_SIZE as int);
    assert(align_up_spec(header.mem_size as int, GRANULE_SIZE as int) == GRANULE_SIZE);
    reveal_with_fuel(segments_outcome, 2);
    assert(segments_outcome(space, seq![header], policy, 1) == segment_outcome(
        space,
        header,
        policy,
    ));
    let asked = space.asked_for(1);
    let vpn = vpn_of(header.virtual_addr);
    let desc = page_descriptor_bits(top as u64, attributes);
    reveal_with_fuel(Space::map_range, 2);
    assert(asked.map_range(true, top, header.virtual_addr as int, attributes, 1) == asked.map_page(
        true,
        vpn,
        desc,
    ));
    asked.lemma_map_page_pages(true, vpn, desc);
    assert(after.unit().page_table(true) == before.unit().page_table(true).insert(vpn, desc));
    crate::arch::descriptor::lemma_page_descriptor_round_trip(top as u64, attributes);
    crate::arch::descriptor::lemma_addr_bits(top as u64);
}

/// The loader of the kernel image: it gives the segments of the image
/// pages in the high regime and copies their bytes there.
pub struct KernelLoader {
    mmu: MemoryManagementUnit<StackPageAllocator>,
    policy: WritePolicy,
}

impl KernelLoader {
    /// The unit that the loader works on.
    pub closed spec fn unit(&self) -> MemoryManagementUnit<StackPageAllocator> {
        self.mmu
    }

    /// Whether segments are mapped writable whatever their flags say.
    pub closed spec fn write_policy(&self) -> WritePolicy {
        self.policy
    }

    /// The invariant of the loader: its unit is in order.
    pub open spec fn wf(&self) -> bool {
        self.unit().wf()
    }

    /// A loader that maps every segment writable.
    pub fn new(mmu: MemoryManagementUnit<StackPageAllocator>) -> (r: Self)
        ensures
            r.unit() == mmu,
            r.write_policy() == WritePolicy::AlwaysWritable,
    {
        Self { mmu, policy: WritePolicy::AlwaysWritable }
    }

    /// A loader with the given policy on writable segments.
    pub fn with_policy(mmu: MemoryManagementUnit<StackPageAllocator>, policy: WritePolicy) -> (r:
        Self)
        ensures
            r.unit() == mmu,
            r.write_policy() == policy,
    {
        Self { mmu, policy }
    }

    /// The unit, to read from.
    pub fn mmu(&self) -> (r: &MemoryManagementUnit<StackPageAllocator>)
        ensures
            *r == self.unit(),
    {
        &self.mmu
    }

    /// Gives up the loader and returns its unit.
    pub fn into_mmu(self) -> (r: MemoryManagementUnit<StackPageAllocator>)
        ensures
            r == self.unit(),
    {
        self.mmu
    }

    /// Gives one segment its pages: as many as cover its size in memory,
    /// fresh from the allocator, mapped at its virtual address with the
    /// attributes that its flags ask for. Returns where the pages lie.
    fn allocate_segment(&mut self, header: &LoadHeader) -> (r: Result<usize, &'static str>)
        requires
            old(self).wf(),
            header.virtual_addr % (GRANULE_SIZE as u64) == 0,
        ensures
            final(self).wf(),
            final(self).write_policy() == old(self).write_policy(),
            final(self).unit().page_table(false) == old(self).unit().page_table(false),
            final(self).unit().is_enabled() == old(self).unit().is_enabled(),
            old(self).unit().page_table(true).submap_of(final(self).unit().page_table(true)),
            old(self).unit().memory().data_kept(&final(self).unit().memory()),
            r matches Ok(base) ==> final(self).unit().page_table(true) == range_mapped(
                old(self).unit().page_table(true),
                base as int,
                header.virtual_addr as int,
                flags_to_attributes_spec(header.flags, old(self).write_policy()),
                page_count_spec(header.mem_size as int) as nat,
            ),
            final(self).unit().space() == segment_outcome(
                old(self).unit().space(),
                *header,
                old(self).write_policy(),
            ).0,
            r is Ok ==> segment_outcome(
                old(self).unit().space(),
                *header,
                old(self).write_policy(),
            ).1 is Ok,
            r matches Err(e) ==> segment_outcome(
                old(self).unit().space(),
                *header,
                old(self).write_policy(),
            ).1 == Err::<(), &str>(e),
    {
        let ghost before = self.mmu;
        if header.mem_size > (usize::MAX - (GRANULE_SIZE - 1)) as u64 {
            return Err("Segment does not fit the address space");
        }
        let mem_size = header.mem_size as usize;
        proof {
            crate::config::lemma_granule_is_pow2();
            crate::common::lemma_align_up_bounds(mem_size as int, GRANULE_SIZE as int);
            lemma_page_count(mem_size as int);
        }
        let aligned_size = crate::common::align_up(mem_size, GRANULE_SIZE);
        let pages_num = aligned_size / GRANULE_SIZE;
        if header.virtual_addr > (usize::MAX - aligned_size) as u64 {
            return Err("Segment does not fit the address space");
        }
        let pages = match self.mmu.alloc_pages(pages_num) {
            Ok(p) => p,
            Err(e) => {
                return Err(e);
            },
        };
        let ghost given = self.mmu;
        let prange = pages.range();
        let (base, _) = pages.into_raw();
        let vrange = AddressRange::<Virtual>::new_raw(header.virtual_addr as usize, aligned_size);
        let attributes = flags_to_attributes_with(&header.flags, self.policy);
        proof {
            lemma_page_count(aligned_size as int);
            assert(page_count_spec(aligned_size as int) == page_count_spec(mem_size as int));
        }
        match self.mmu.map_range_with(true, prange, vrange, attributes) {
            Ok(()) => {},
            Err(e) => {
                proof {
                    let k = choose|k: int|
                        0 <= k && (k < page_count_spec(prange.len()) || prange.len()
                            != vrange.len()) && #[trigger] range_mapped(
                            given.page_table(true),
                            prange.base(),
                            vrange.base(),
                            attributes,
                            k as nat,
                        ) == self.mmu.page_table(true) && forall|i: int|
                            0 <= i < k ==> !(#[trigger] given.is_mapped_at(
                                true,
                                vrange.base(),
                                i,
                            ));
                    assert forall|i: int| 0 <= i < k implies !given.page_table(true).contains_key(
                        #[trigger] vpn_of((vrange.base() + i * GRANULE_SIZE) as u64),
                    ) by {
                        assert(!given.is_mapped_at(true, vrange.base(), i));
                    }
                    lemma_range_mapped_grows(
                        given.page_table(true),
                        prange.base(),
                        vrange.base(),
                        attributes,
                        k as nat,
                    );
                }
                return Err(e);
            },
        }
        proof {
            let n = page_count_spec(prange.len());
            assert forall|i: int| 0 <= i < n implies !given.page_table(true).contains_key(
                #[trigger] vpn_of((vrange.base() + i * GRANULE_SIZE) as u64),
            ) by {
                assert(!given.is_mapped_at(true, vrange.base(), i));
            }
            lemma_range_mapped_grows(
                given.page_table(true),
                prange.base(),
                vrange.base(),
                attributes,
                n as nat,
            );
        }
        Ok(base.into_usize())
    }

    /// Gives every segment its pages, in the order of the headers: see
    /// [`segments_mapped`]. Each segment starts on a granule boundary.
    ///
    /// The pages of a segment are as many as cover its size in memory; they
    /// come fresh from the allocator and are mapped at the segment's
    /// virtual address in the high regime, with the attributes that its
    /// flags ask for. The first segment that finds no pages, does not fit
    /// the address space or meets a page that is mapped already ends the
    /// work with its error; what was mapped stays mapped.
    pub fn allocate(&mut self, load_headers: &Vec<LoadHeader>) -> (r: Result<(), &'static str>)
        requires
            old(self).wf(),
            forall|i: int|
                0 <= i < load_headers@.len() ==> (#[trigger] load_headers@[i]).virtual_addr % (
                GRANULE_SIZE as u64) == 0,
        ensures
            final(self).wf(),
            final(self).write_policy() == old(self).write_policy(),
            final(self).unit().page_table(false) == old(self).unit().page_table(false),
            final(self).unit().is_enabled() == old(self).unit().is_enabled(),
            old(self).unit().page_table(true).submap_of(final(self).unit().page_table(true)),
            old(self).unit().memory().data_kept(&final(self).unit().memory()),
            load_headers@.len() == 0 ==> r is Ok,
            (final(self).unit().space(), r) == segments_outcome(
                old(self).unit().space(),
                load_headers@,
                old(self).write_policy(),
                load_headers@.len(),
            ),
            r is Ok ==> exists|bases: Seq<int>|
                bases.len() == load_headers@.len() && #[trigger] segments_mapped(
                    old(self).unit().page_table(true),
                    load_headers@,
                    bases,
                    old(self).write_policy(),
                    load_headers@.len(),
                ) == final(self).unit().page_table(true),
    {
        let ghost start = self.mmu;
        let ghost mut bases: Seq<int> = Seq::empty();
        let mut i: usize = 0;
        while i < load_headers.len()
            invariant
                self.wf(),
                i <= load_headers@.len(),
                forall|j: int|
                    0 <= j < load_headers@.len() ==> (#[trigger] load_headers@[j]).virtual_addr % (
                    GRANULE_SIZE as u64) == 0,
                self.policy == old(self).policy,
                start == old(self).mmu,
                self.mmu.page_table(false) == start.page_table(false),
                self.mmu.is_enabled() == start.is_enabled(),
                start.page_table(true).submap_of(self.mmu.page_table(true)),
                start.wf(),
                start.memory().data_kept(&self.mmu.memory()),
                bases.len() == i,
                segments_outcome(start.space(), load_headers@, self.policy, i as nat) == (
                    self.mmu.space(),
                    Ok::<(), &str>(()),
                ),
                self.mmu.page_table(true) == segments_mapped(
                    start.page_table(true),
                    load_headers@,
                    bases,
                    self.policy,
                    i as nat,
                ),
            decreases load_headers@.len() - i,
        {
            let header = &load_headers[i];
            let ghost here = self.mmu;
            let base = match self.allocate_segment(header) {
                Ok(b) => b,
                Err(e) => {
                    proof {
                        start.lemma_memory_wf();
                        start.memory().lemma_data_kept_twice(&here.memory(), &self.mmu.memory());
                        vstd::map_lib::lemma_submap_of_trans(
                            start.page_table(true),
                            here.page_table(true),
                            self.mmu.page_table(true),
                        );
                        assert(segments_outcome(
                            start.space(),
                            load_headers@,
                            self.policy,
                            (i + 1) as nat,
                        ) == (self.mmu.space(), Err::<(), &str>(e)));
                        lemma_segments_stop(
                            start.space(),
                            load_headers@,
                            self.policy,
                            (i + 1) as nat,
                            load_headers@.len(),
                        );
                    }
                    return Err(e);
                },
            };
            proof {
                start.lemma_memory_wf();
                start.memory().lemma_data_kept_twice(&here.memory(), &self.mmu.memory());
                vstd::map_lib::lemma_submap_of_trans(
                    start.page_table(true),
                    here.page_table(true),
                    self.mmu.page_table(true),
                );
                lemma_segments_mapped_prefix(
                    start.page_table(true),
                    load_headers@,
                    bases,
                    seq![base as int],
                    self.policy,
                    i as nat,
                );
                bases = bases + seq![base as int];
            }
            i = i + 1;
        }
        Ok(())
    }

    /// Copies the bytes of a segment to its virtual address `base` in the
    /// high regime: see [`MemoryManagementUnit::copy_post`]. A segment that
    /// ends above the machine word of the running program is refused with
    /// nothing done.
    pub fn load(&mut self, flags: SegmentFlags, base: u64, region: &[u8]) -> (r: Result<
        (),
        &'static str,
    >)
        requires
            old(self).wf(),
        ensures
            final(self).wf(),
            final(self).write_policy() == old(self).write_policy(),
            base + region@.len() > usize::MAX ==> r == Err::<(), &str>(
                "Segment does not fit the address space",
            ) && final(self).unit() == old(self).unit(),
            base + region@.len() <= usize::MAX ==> old(self).unit().copy_post(
                &final(self).unit(),
                true,
                base as int,
                region@,
                r,
            ),
    {
        if base > usize::MAX as u64 || region.len() > usize::MAX - base as usize {
            return Err("Segment does not fit the address space");
        }
        self.mmu.copy_to(true, Address::new(base as usize), region)
    }

    /// Refuses to relocate: images that need relocation are not supported.
    /// `offset`, `info` and `addend` are the fields of the relocation
    /// entry.
    pub fn relocate(&mut self, offset: u64, info: u64, addend: u64) -> (r: Result<
        (),
        &'static str,
    >)
        ensures
            r == Err::<(), &str>("Relocation not supported"),
            *final(self) == *old(self),
    {
        Err("Relocation not supported")
    }
}

} // verus!
