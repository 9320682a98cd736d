use stellaros::allocator::{StackPageAllocator, StackPageAllocatorMetadata};
use stellaros::arch::hw::HwStep;
use stellaros::arch::mmu::MemoryManagementUnit;
use stellaros::arch::phys::PhysMemory;
use stellaros::arch::regime::MmuReigon;
use stellaros::memory::{
    AccessPermissions, Address, AddressRange, AttributeFields, IdentMapper, MemAttributes, Page,
    PageAllocator, Physical, Virtual,
};

const POOL: usize = 0x2000_0000;

fn unit(pages: usize) -> MemoryManagementUnit<StackPageAllocator> {
    let mut metadata = StackPageAllocatorMetadata::new();
    metadata.init(Address::new(POOL), pages);
    let alloc = StackPageAllocator::new(metadata);
    let mem = PhysMemory::new(Address::new(POOL), pages).unwrap();
    MemoryManagementUnit::new(alloc, mem)
}

fn normal() -> AttributeFields {
    AttributeFields {
        mem_attributes: MemAttributes::CacheableDRAM,
        acc_perms: AccessPermissions::ReadWrite,
        execute_never: false,
    }
}

fn p(a: usize) -> Address<Physical> {
    Address::new(a)
}

fn v(a: usize) -> Address<Virtual> {
    Address::new(a)
}

fn resolve(
    mmu: &MemoryManagementUnit<StackPageAllocator>,
    high: bool,
    addr: usize,
) -> Option<(usize, AttributeFields)> {
    mmu.translate(high, v(addr)).map(|(a, attrs)| (a.into_usize(), attrs))
}

#[test]
fn memory_has_to_start_on_a_granule() {
    assert_eq!(PhysMemory::new(Address::new(0x1001), 4).err(), Some("Memory base is not aligned"));
    assert_eq!(
        PhysMemory::new(Address::new(0xFFFF_FFFF_F000), 2).err(),
        Some("Memory exceeds the physical address space")
    );
    let mem = PhysMemory::new(Address::new(0x1000), 2).unwrap();
    assert_eq!(mem.start(), 0x1000);
    assert_eq!(mem.pages(), 2);
    assert!(mem.has_frame(0x2000));
    assert!(!mem.has_frame(0x3000));
    assert!(!mem.has_frame(0x1008));
    assert!(mem.has_byte(0x2FFF));
    assert!(!mem.has_byte(0x3000));
    assert!(!mem.table_at(0x1000));
}

#[test]
fn memory_bytes_are_stored_where_they_are_written() {
    let mut mem = PhysMemory::new(Address::new(0x1000), 2).unwrap();
    assert_eq!(mem.read_byte(0x1003), 0);
    mem.write_byte(0x1003, 0xAB);
    mem.write_byte(0x1004, 0xCD);
    mem.write_byte(0x2FFF, 0xEF);
    assert_eq!(mem.read_byte(0x1003), 0xAB);
    assert_eq!(mem.read_byte(0x1004), 0xCD);
    assert_eq!(mem.read_byte(0x1002), 0);
    assert_eq!(mem.read_byte(0x2FFF), 0xEF);
    assert_eq!(mem.read(0x1000, 0).value, 0x0000_00CD_AB00_0000);
    mem.write_byte(0x1003, 0x01);
    assert_eq!(mem.read(0x1000, 0).value, 0x0000_00CD_0100_0000);
}

#[test]
fn new_unit_maps_nothing() {
    let mmu = unit(8);
    assert_eq!(mmu.root(false), None);
    assert_eq!(mmu.root(true), None);
    assert_eq!(resolve(&mmu, false, 0x4000_0000), None);
    assert_eq!(resolve(&mmu, true, 0x4000_0000), None);
}

#[test]
fn mapped_page_resolves_to_its_physical_page() {
    let mut mmu = unit(8);
    assert_eq!(mmu.map_page(false, p(0x1000_0000), v(0x4000_0000), normal()), Ok(()));
    assert_eq!(resolve(&mmu, false, 0x4000_0000), Some((0x1000_0000, normal())));
    assert_eq!(resolve(&mmu, false, 0x4000_0123), Some((0x1000_0123, normal())));
    assert_eq!(resolve(&mmu, false, 0x4000_1000), None);
    assert_eq!(resolve(&mmu, false, 0x3FFF_F000), None);
    assert_eq!(resolve(&mmu, true, 0x4000_0000), None);
}

#[test]
fn first_mapping_takes_a_root_and_three_tables() {
    let mut mmu = unit(8);
    mmu.map_page(false, p(0x1000_0000), v(0x4000_0000), normal()).unwrap();
    assert_eq!(mmu.root(false), Some(POOL as u64));
    let table = mmu.mem();
    assert!(table.table_at(POOL as u64));
    assert!(table.table_at(POOL as u64 + 0x3000));
    assert!(!table.table_at(POOL as u64 + 0x4000));
    // 0x4000_0000 has index 0 at level 0, 1 at level 1, 0 at levels 2 and 3.
    assert_eq!(table.read(POOL as u64, 0).value, POOL as u64 + 0x1003);
    assert_eq!(table.read(POOL as u64 + 0x1000, 1).value, POOL as u64 + 0x2003);
    assert_eq!(table.read(POOL as u64 + 0x2000, 0).value, POOL as u64 + 0x3003);
    assert_eq!(table.read(POOL as u64 + 0x3000, 0).value, 0x0040_0000_1000_0707);
    // The next page of the same table takes no allocation.
    mmu.map_page(false, p(0x1000_1000), v(0x4000_1000), normal()).unwrap();
    assert!(!mmu.mem().table_at(POOL as u64 + 0x4000));
    assert_eq!(mmu.mem().read(POOL as u64 + 0x3000, 1).value, 0x0040_0000_1000_1707);
}

#[test]
fn attributes_come_back_as_they_were_given() {
    let mut mmu = unit(16);
    let device = AttributeFields {
        mem_attributes: MemAttributes::Device,
        acc_perms: AccessPermissions::ReadWrite,
        execute_never: true,
    };
    let read_only = AttributeFields {
        mem_attributes: MemAttributes::CacheableDRAM,
        acc_perms: AccessPermissions::ReadOnly,
        execute_never: true,
    };
    mmu.map_page(false, p(0x0900_0000), v(0x0900_0000), device).unwrap();
    mmu.map_page(false, p(0x5000_0000), v(0x0900_1000), read_only).unwrap();
    assert_eq!(resolve(&mmu, false, 0x0900_0000), Some((0x0900_0000, device)));
    assert_eq!(resolve(&mmu, false, 0x0900_1FFF), Some((0x5000_0FFF, read_only)));
}

#[test]
fn second_mapping_of_a_page_is_refused() {
    let mut mmu = unit(8);
    mmu.map_page(false, p(0x1000_0000), v(0x4000_0000), normal()).unwrap();
    let other = AttributeFields {
        mem_attributes: MemAttributes::Device,
        acc_perms: AccessPermissions::ReadOnly,
        execute_never: true,
    };
    assert_eq!(
        mmu.map_page(false, p(0x3000_0000), v(0x4000_0000), other),
        Err("Address already mapped in a page")
    );
    assert_eq!(
        mmu.map_page(false, p(0x3000_0000), v(0x4000_0FFF), other),
        Err("Address already mapped in a page")
    );
    assert_eq!(resolve(&mmu, false, 0x4000_0000), Some((0x1000_0000, normal())));
}

#[test]
fn mapping_fails_when_tables_cannot_be_allocated() {
    let mut mmu = unit(2);
    assert_eq!(
        mmu.map_page(false, p(0x1000_0000), v(0x4000_0000), normal()),
        Err("Page stack overflow")
    );
    assert_eq!(resolve(&mmu, false, 0x4000_0000), None);
    let mut empty = unit(0);
    assert_eq!(
        empty.map_page(true, p(0x1000_0000), v(0x4000_0000), normal()),
        Err("Page stack overflow")
    );
    assert_eq!(empty.root(true), None);
}

#[test]
fn the_two_regimes_are_apart() {
    let mut mmu = unit(16);
    mmu.map_page(false, p(0x1000_0000), v(0x4000_0000), normal()).unwrap();
    mmu.map_page(true, p(0x1100_0000), v(0x4000_0000), normal()).unwrap();
    assert_eq!(resolve(&mmu, false, 0x4000_0000), Some((0x1000_0000, normal())));
    assert_eq!(resolve(&mmu, true, 0x4000_0000), Some((0x1100_0000, normal())));
    assert_ne!(mmu.root(false), mmu.root(true));
    assert_eq!(
        mmu.take_steps(),
        vec![HwStep::SetTtbr0(POOL as u64), HwStep::SetTtbr1(POOL as u64 + 0x4000)]
    );
    assert_eq!(mmu.take_steps(), vec![]);
}

#[test]
fn empty_range_is_mapped_without_a_trace() {
    let mut mmu = unit(8);
    let pr: AddressRange<Physical> = AddressRange::new_raw(0x1000_0000, 0);
    let vr: AddressRange<Virtual> = AddressRange::new_raw(0x4000_0000, 0);
    assert_eq!(mmu.map_range_with(false, pr, vr, normal()), Ok(()));
    assert_eq!(mmu.map_range::<IdentMapper>(true, pr, normal()), Ok(()));
    assert_eq!(mmu.root(false), None);
    assert_eq!(mmu.root(true), None);
    assert_eq!(mmu.take_steps(), vec![]);
    assert_eq!(mmu.allocator_mut().top().into_usize(), POOL);
}

#[test]
fn ranges_of_different_sizes_are_refused() {
    let mut mmu = unit(8);
    let pr: AddressRange<Physical> = AddressRange::new_raw(0x1000_0000, 4096);
    let vr: AddressRange<Virtual> = AddressRange::new_raw(0x4000_0000, 8192);
    assert_eq!(mmu.map_range_with(false, pr, vr, normal()), Err("Ranges differ in size"));
    assert_eq!(mmu.root(false), None);
}

#[test]
fn range_is_mapped_page_by_page() {
    let mut mmu = unit(8);
    let pr: AddressRange<Physical> = AddressRange::new_raw(0x1000_0000, 3 * 4096);
    let vr: AddressRange<Virtual> = AddressRange::new_raw(0x7FFF_F000, 3 * 4096);
    assert_eq!(mmu.map_range_with(false, pr, vr, normal()), Ok(()));
    assert_eq!(resolve(&mmu, false, 0x7FFF_F000), Some((0x1000_0000, normal())));
    assert_eq!(resolve(&mmu, false, 0x8000_0000), Some((0x1000_1000, normal())));
    assert_eq!(resolve(&mmu, false, 0x8000_1FFF), Some((0x1000_2FFF, normal())));
    assert_eq!(resolve(&mmu, false, 0x8000_2000), None);
}

#[test]
fn range_stops_at_the_first_page_that_is_mapped() {
    let mut mmu = unit(8);
    mmu.map_page(false, p(0x3000_0000), v(0x4000_2000), normal()).unwrap();
    let pr: AddressRange<Physical> = AddressRange::new_raw(0x1000_0000, 4 * 4096);
    let vr: AddressRange<Virtual> = AddressRange::new_raw(0x4000_0000, 4 * 4096);
    assert_eq!(
        mmu.map_range_with(false, pr, vr, normal()),
        Err("Address already mapped in a page")
    );
    assert_eq!(resolve(&mmu, false, 0x4000_0000), Some((0x1000_0000, normal())));
    assert_eq!(resolve(&mmu, false, 0x4000_1000), Some((0x1000_1000, normal())));
    assert_eq!(resolve(&mmu, false, 0x4000_2000), Some((0x3000_0000, normal())));
    assert_eq!(resolve(&mmu, false, 0x4000_3000), None);
}

#[test]
fn allocated_pages_mapped_onto_themselves_resolve_to_themselves() {
    let mut metadata = StackPageAllocatorMetadata::new();
    metadata.init(Address::new(0x1000_0000), 4);
    let mut data = StackPageAllocator::new(metadata);
    let pages = data.alloc_pages(3).unwrap();
    assert_eq!(data.top().into_usize(), 0x1000_3000);
    assert!(data.alloc_pages(2).is_err());
    let mut mmu = unit(8);
    let low = mmu.ttbl0::<IdentMapper>();
    assert_eq!(low.map_range(&mut mmu, pages.range(), normal()), Ok(()));
    for addr in [0x1000_0000usize, 0x1000_1000, 0x1000_2000] {
        let (phys, attrs) = low.translate(&mmu, Address::new(addr)).unwrap();
        assert_eq!(phys.into_usize(), addr);
        assert_eq!(attrs.acc_perms, AccessPermissions::ReadWrite);
        assert!(!attrs.execute_never);
        assert_eq!(attrs.mem_attributes, MemAttributes::CacheableDRAM);
    }
    assert!(low.translate(&mmu, Address::new(0x1000_3000)).is_none());
}

#[test]
fn handles_name_their_regime() {
    let mut mmu = unit(16);
    let low = mmu.ttbl0::<IdentMapper>();
    let high = mmu.ttbl1::<IdentMapper>();
    assert!(!low.is_high());
    assert!(high.is_high());
    assert!(low.root(&mmu).is_none());
    assert_eq!(high.root_or_init(&mut mmu), Ok(POOL as u64));
    assert!(low.root(&mmu).is_none());
    assert!(high.root(&mmu).is_some());
    assert_eq!(high.root(&mmu).unwrap().get(0).value, 0);
    assert_eq!(high.root_or_init(&mut mmu), Ok(POOL as u64));
    assert_eq!(high.map_page(&mut mmu, p(0x1000_0000), v(0x1000), normal()), Ok(()));
    assert_eq!(resolve(&mmu, true, 0x1000), Some((0x1000_0000, normal())));
    assert_eq!(resolve(&mmu, false, 0x1000), None);
    let pr: AddressRange<Physical> = AddressRange::new_raw(0x5000_0000, 4096);
    let vr: AddressRange<Virtual> = AddressRange::new_raw(0x2000, 4096);
    assert_eq!(low.map_range_with(&mut mmu, pr, vr, normal()), Ok(()));
    assert_eq!(resolve(&mmu, false, 0x2000), Some((0x5000_0000, normal())));
}

#[test]
fn enabling_queues_the_register_writes_in_order() {
    let mut mmu = unit(8);
    mmu.enable();
    assert_eq!(
        mmu.take_steps(),
        vec![
            HwStep::SetMair(0xFF04),
            HwStep::SetTcr(0x2_B510_3518),
            HwStep::Isb,
            HwStep::SetSctlr(1),
            HwStep::Isb,
        ]
    );
}

#[test]
fn bytes_are_copied_through_the_translation() {
    let mut mmu = unit(8);
    // Tables take the first four pages of the pool; the data page is the sixth.
    let data = POOL + 0x5000;
    mmu.map_page(true, p(data), v(0x4000_0000), normal()).unwrap();
    assert_eq!(mmu.copy_to(true, v(0x4000_0010), &[1, 2, 3]), Ok(()));
    assert_eq!(mmu.mem().read_byte(data as u64 + 0x10), 1);
    assert_eq!(mmu.mem().read_byte(data as u64 + 0x11), 2);
    assert_eq!(mmu.mem().read_byte(data as u64 + 0x12), 3);
    assert_eq!(mmu.mem().read_byte(data as u64 + 0x13), 0);
    assert_eq!(mmu.copy_to(true, v(0x4000_0000), &[]), Ok(()));
}

#[test]
fn copy_stops_at_the_first_byte_without_a_target() {
    let mut mmu = unit(8);
    let data = POOL + 0x5000;
    mmu.map_page(true, p(data), v(0x4000_0000), normal()).unwrap();
    assert_eq!(mmu.copy_to(true, v(0x4000_0FFE), &[7, 8, 9]), Err("Address is not mapped"));
    assert_eq!(mmu.mem().read_byte(data as u64 + 0xFFE), 7);
    assert_eq!(mmu.mem().read_byte(data as u64 + 0xFFF), 8);
    assert_eq!(mmu.copy_to(false, v(0x4000_0000), &[1]), Err("Address is not mapped"));
}

#[test]
fn copy_refuses_targets_outside_memory_and_inside_tables() {
    let mut mmu = unit(8);
    mmu.map_page(true, p(0x9000_0000), v(0x4000_0000), normal()).unwrap();
    assert_eq!(
        mmu.copy_to(true, v(0x4000_0000), &[1]),
        Err("Mapped address is outside of the physical memory")
    );
    mmu.map_page(true, p(POOL), v(0x4000_1000), normal()).unwrap();
    assert_eq!(
        mmu.copy_to(true, v(0x4000_1000), &[1]),
        Err("Mapped address lies in a translation table")
    );
    assert_eq!(mmu.mem().read(POOL as u64, 0).value, POOL as u64 + 0x1003);
}

#[test]
fn unit_allocates_through_its_allocator() {
    let mut mmu = unit(4);
    let page = mmu.alloc_pages(2).unwrap();
    assert_eq!(page.base().into_usize(), POOL);
    assert_eq!(mmu.allocator_mut().top().into_usize(), POOL + 0x2000);
    assert!(mmu.alloc_pages(3).is_err());
}

#[test]
fn adopted_page_becomes_an_empty_table() {
    let mut mmu = unit(4);
    let page = mmu.alloc_pages(2).unwrap();
    assert_eq!(mmu.adopt(page), Ok(POOL as u64));
    assert!(mmu.mem().table_at(POOL as u64));
    assert!(!mmu.mem().table_at(POOL as u64 + 0x1000));
    assert_eq!(mmu.mem().read(POOL as u64, 511).value, 0);
    assert_eq!(mmu.root(false), None);
}

#[test]
fn page_in_service_or_outside_memory_is_not_adopted() {
    let mut mmu = unit(4);
    let page = mmu.alloc_pages(1).unwrap();
    assert_eq!(mmu.adopt(page), Ok(POOL as u64));
    let again: Page<StackPageAllocator> = Page::from_raw(p(POOL), 1);
    assert_eq!(mmu.adopt(again), Err("Page is already in use as a translation table"));
    let outside: Page<StackPageAllocator> = Page::from_raw(p(POOL + 4 * 4096), 1);
    assert_eq!(mmu.adopt(outside), Err("Page is outside of the physical memory"));
    let below: Page<StackPageAllocator> = Page::from_raw(p(0x1000), 1);
    assert_eq!(mmu.adopt(below), Err("Page is outside of the physical memory"));
}

#[test]
fn allocator_that_repeats_itself_cannot_ruin_the_tables() {
    // A pool over nothing but the root: the second table has nowhere to go.
    let mut metadata = StackPageAllocatorMetadata::new();
    metadata.init(Address::new(POOL), 8);
    let alloc = StackPageAllocator::new(metadata);
    let mem = PhysMemory::new(Address::new(POOL), 1).unwrap();
    let mut mmu = MemoryManagementUnit::new(alloc, mem);
    assert_eq!(
        mmu.map_page(false, p(0x1000_0000), v(0x4000_0000), normal()),
        Err("Page is outside of the physical memory")
    );
    assert_eq!(mmu.root(false), Some(POOL as u64));
    assert_eq!(resolve(&mmu, false, 0x4000_0000), None);
}

#[test]
fn mapping_leaves_the_bytes_of_other_granules_alone() {
    let mut mmu = unit(16);
    let data = POOL + 0x8000;
    mmu.map_page(true, p(data), v(0x4000_0000), normal()).unwrap();
    assert_eq!(mmu.copy_to(true, v(0x4000_0010), &[0x11, 0x22, 0x33]), Ok(()));
    // Four more tables for the low regime, and none of them is the granule
    // that holds the bytes.
    mmu.map_page(false, p(0x1000_0000), v(0x2000), normal()).unwrap();
    let pr: AddressRange<Physical> = AddressRange::new_raw(0x5000_0000, 3 * 4096);
    let vr: AddressRange<Virtual> = AddressRange::new_raw(0x4000_1000, 3 * 4096);
    assert_eq!(mmu.map_range_with(true, pr, vr, normal()), Ok(()));
    assert!(!mmu.mem().table_at(data as u64));
    assert_eq!(mmu.mem().read_byte(data as u64 + 0x10), 0x11);
    assert_eq!(mmu.mem().read_byte(data as u64 + 0x11), 0x22);
    assert_eq!(mmu.mem().read_byte(data as u64 + 0x12), 0x33);
    assert_eq!(mmu.mem().read_byte(data as u64 + 0x13), 0);
    // A mapping that is refused changes nothing either.
    assert_eq!(
        mmu.map_page(true, p(0x6000_0000), v(0x4000_0000), normal()),
        Err("Address already mapped in a page")
    );
    assert_eq!(mmu.mem().read_byte(data as u64 + 0x10), 0x11);
    assert_eq!(resolve(&mmu, true, 0x4000_0000), Some((data, normal())));
}

#[test]
fn fresh_root_is_zero_filled_and_taken_once() {
    let mut metadata = StackPageAllocatorMetadata::new();
    metadata.init(Address::new(POOL), 4);
    let alloc = StackPageAllocator::new(metadata);
    let mut mem = PhysMemory::new(Address::new(POOL), 4).unwrap();
    mem.write_byte(POOL as u64 + 8, 0xFF);
    mem.write_byte(POOL as u64 + 0xFFF, 0xFF);
    let mut mmu = MemoryManagementUnit::new(alloc, mem);
    let low = mmu.ttbl0::<IdentMapper>();
    assert_eq!(low.root_or_init(&mut mmu), Ok(POOL as u64));
    assert_eq!(mmu.page_allocator().top().into_usize(), POOL + 0x1000);
    assert!(mmu.mem().table_at(POOL as u64));
    for i in 0..512 {
        assert_eq!(low.root(&mmu).unwrap().get(i).value, 0);
    }
    assert_eq!(mmu.take_steps(), vec![HwStep::SetTtbr0(POOL as u64)]);
    // With a root the call returns it and takes nothing.
    assert_eq!(low.root_or_init(&mut mmu), Ok(POOL as u64));
    assert_eq!(mmu.page_allocator().top().into_usize(), POOL + 0x1000);
    assert_eq!(mmu.take_steps(), vec![]);
    assert_eq!(resolve(&mmu, false, 0), None);
}

#[test]
fn root_is_not_made_without_a_page() {
    let mut mmu = unit(0);
    let high = mmu.ttbl1::<IdentMapper>();
    assert_eq!(high.root_or_init(&mut mmu), Err("Page stack overflow"));
    assert!(high.root(&mmu).is_none());
    assert_eq!(mmu.root(true), None);
    assert_eq!(mmu.take_steps(), vec![]);
}
