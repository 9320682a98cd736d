use elfloader::{ElfBinary, ElfLoader, Flags, LoadableHeaders, Rela, VAddr, P64};
use stellaros::allocator::{StackPageAllocator, StackPageAllocatorMetadata};
use stellaros::arch::hw::HwStep;
use stellaros::arch::mmu::MemoryManagementUnit;
use stellaros::arch::phys::PhysMemory;
use stellaros::loader::{
    flags_to_attributes, flags_to_attributes_with, jump_to_entry, setup_kernel_mmu,
    setup_kernel_stack, setup_page_pool, KernelLoader, LoadHeader, SegmentFlags, WritePolicy,
};
use stellaros::memory::{
    AccessPermissions, Address, AddressRange, AttributeFields, MemAttributes, Virtual,
};

const POOL: usize = 0x4100_0000;

fn pool(pages: usize) -> StackPageAllocator {
    let mut metadata = StackPageAllocatorMetadata::new();
    metadata.init(Address::new(POOL), pages);
    StackPageAllocator::new(metadata)
}

fn unit(pages: usize) -> MemoryManagementUnit<StackPageAllocator> {
    MemoryManagementUnit::new(pool(pages), PhysMemory::new(Address::new(POOL), pages).unwrap())
}

fn resolve(
    mmu: &MemoryManagementUnit<StackPageAllocator>,
    high: bool,
    addr: usize,
) -> Option<(usize, AttributeFields)> {
    let vaddr: Address<Virtual> = Address::new(addr);
    mmu.translate(high, vaddr).map(|(a, attrs)| (a.into_usize(), attrs))
}

fn cacheable(acc: AccessPermissions, xn: bool) -> AttributeFields {
    AttributeFields { mem_attributes: MemAttributes::CacheableDRAM, acc_perms: acc, execute_never: xn }
}

struct Adapter {
    loader: KernelLoader,
}

impl ElfLoader for Adapter {
    fn allocate(&mut self, load_headers: LoadableHeaders) -> Result<(), &'static str> {
        let mut headers = Vec::new();
        for header in load_headers {
            assert_eq!(header.virtual_addr() % 4096, 0);
            headers.push(LoadHeader {
                virtual_addr: header.virtual_addr(),
                mem_size: header.mem_size(),
                flags: SegmentFlags { bits: header.flags().0 },
            });
        }
        self.loader.allocate(&headers)
    }

    fn load(&mut self, flags: Flags, base: VAddr, region: &[u8]) -> Result<(), &'static str> {
        self.loader.load(SegmentFlags { bits: flags.0 }, base, region)
    }

    fn relocate(&mut self, entry: &Rela<P64>) -> Result<(), &'static str> {
        self.loader.relocate(entry.get_offset(), entry.get_type() as u64, entry.get_addend())
    }
}

fn push16(out: &mut Vec<u8>, v: u16) {
    out.extend_from_slice(&v.to_le_bytes());
}

fn push32(out: &mut Vec<u8>, v: u32) {
    out.extend_from_slice(&v.to_le_bytes());
}

fn push64(out: &mut Vec<u8>, v: u64) {
    out.extend_from_slice(&v.to_le_bytes());
}

/// An executable with one loadable segment.
fn image(vaddr: u64, flags: u32, data: &[u8], mem_size: u64) -> Vec<u8> {
    let mut out = vec![0x7f, b'E', b'L', b'F', 2, 1, 1, 0, 0, 0, 0, 0, 0, 0, 0, 0];
    push16(&mut out, 2);
    push16(&mut out, 0xB7);
    push32(&mut out, 1);
    push64(&mut out, vaddr);
    push64(&mut out, 64);
    push64(&mut out, 0);
    push32(&mut out, 0);
    push16(&mut out, 64);
    push16(&mut out, 56);
    push16(&mut out, 1);
    push16(&mut out, 64);
    push16(&mut out, 0);
    push16(&mut out, 0);
    assert_eq!(out.len(), 64);
    push32(&mut out, 1);
    push32(&mut out, flags);
    push64(&mut out, 120);
    push64(&mut out, vaddr);
    push64(&mut out, vaddr);
    push64(&mut out, data.len() as u64);
    push64(&mut out, mem_size);
    push64(&mut out, 0x1000);
    assert_eq!(out.len(), 120);
    out.extend_from_slice(data);
    out
}

/// The bytes of `image` at an address that the parser can read tables from.
fn aligned(image: &[u8]) -> (Vec<u8>, usize) {
    let mut buffer = vec![0u8; image.len() + 16];
    let offset = buffer.as_ptr().align_offset(16);
    buffer[offset..offset + image.len()].copy_from_slice(image);
    (buffer, offset)
}

#[test]
fn flags_decide_execution_and_never_writing() {
    let rx = SegmentFlags { bits: 5 };
    let rw = SegmentFlags { bits: 6 };
    let r = SegmentFlags { bits: 4 };
    assert!(rx.is_execute());
    assert!(!rx.is_write());
    assert!(rw.is_write());
    assert!(!rw.is_execute());
    assert_eq!(flags_to_attributes(&rx), cacheable(AccessPermissions::ReadWrite, false));
    assert_eq!(flags_to_attributes(&rw), cacheable(AccessPermissions::ReadWrite, true));
    assert_eq!(flags_to_attributes(&r), cacheable(AccessPermissions::ReadWrite, true));
}

#[test]
fn declared_policy_honours_read_only_segments() {
    let rx = SegmentFlags { bits: 5 };
    let rw = SegmentFlags { bits: 6 };
    assert_eq!(
        flags_to_attributes_with(&rx, WritePolicy::AsDeclared),
        cacheable(AccessPermissions::ReadOnly, false)
    );
    assert_eq!(
        flags_to_attributes_with(&rw, WritePolicy::AsDeclared),
        cacheable(AccessPermissions::ReadWrite, true)
    );
    assert_eq!(
        flags_to_attributes_with(&rx, WritePolicy::AlwaysWritable),
        cacheable(AccessPermissions::ReadWrite, false)
    );
}

#[test]
fn loader_address_space_maps_image_pool_and_console() {
    let image: AddressRange<_> = AddressRange::new_raw(0x4008_0000, 0x2345);
    let mem = PhysMemory::new(Address::new(POOL), 32).unwrap();
    let mut mmu = setup_kernel_mmu(pool(32), mem, image, Address::new(0x0900_0000)).unwrap();
    let normal = cacheable(AccessPermissions::ReadWrite, false);
    let device = AttributeFields {
        mem_attributes: MemAttributes::Device,
        acc_perms: AccessPermissions::ReadWrite,
        execute_never: true,
    };
    assert_eq!(resolve(&mmu, false, 0x4008_0000), Some((0x4008_0000, normal)));
    assert_eq!(resolve(&mmu, false, 0x4008_2FFF), Some((0x4008_2FFF, normal)));
    assert_eq!(resolve(&mmu, false, 0x4008_3000), None);
    assert_eq!(resolve(&mmu, false, POOL), Some((POOL, normal)));
    assert_eq!(resolve(&mmu, false, POOL + 31 * 4096), Some((POOL + 31 * 4096, normal)));
    assert_eq!(resolve(&mmu, false, POOL + 32 * 4096), None);
    assert_eq!(resolve(&mmu, false, 0x0900_0000), Some((0x0900_0000, device)));
    assert_eq!(resolve(&mmu, true, 0x4008_0000), None);
    assert_eq!(
        mmu.take_steps(),
        vec![
            HwStep::SetTtbr0(POOL as u64),
            HwStep::SetMair(0xFF04),
            HwStep::SetTcr(0x2_B510_3518),
            HwStep::Isb,
            HwStep::SetSctlr(1),
            HwStep::Isb,
        ]
    );
}

#[test]
fn loader_address_space_needs_room_for_its_tables() {
    let image: AddressRange<_> = AddressRange::new_raw(0x4008_0000, 0x2000);
    let mem = PhysMemory::new(Address::new(POOL), 2).unwrap();
    let r = setup_kernel_mmu(pool(2), mem, image, Address::new(0x0900_0000));
    assert_eq!(r.err(), Some("Failed to map image"));
    let mem = PhysMemory::new(Address::new(POOL), 4).unwrap();
    let r = setup_kernel_mmu(pool(4), mem, image, Address::new(0x0900_0000));
    assert_eq!(r.err(), Some("Failed to map page pool"));
    let mem = PhysMemory::new(Address::new(POOL), 6).unwrap();
    let r = setup_kernel_mmu(pool(6), mem, image, Address::new(0x0900_0000));
    assert_eq!(r.err(), Some("Failed to map UART0"));
    let mem = PhysMemory::new(Address::new(POOL), 7).unwrap();
    assert!(setup_kernel_mmu(pool(7), mem, image, Address::new(0x0900_0000)).is_ok());
}

#[test]
fn stack_is_mapped_at_its_place_in_the_high_half() {
    let mut mmu = unit(600);
    let end = setup_kernel_stack(&mut mmu).unwrap();
    assert_eq!(end, 0xFFFF_1000_0020_0000);
    let attrs = cacheable(AccessPermissions::ReadWrite, true);
    assert_eq!(resolve(&mmu, true, 0xFFFF_1000_0000_0000), Some((POOL, attrs)));
    assert_eq!(
        resolve(&mmu, true, 0xFFFF_1000_001F_FFFF),
        Some((POOL + 512 * 4096 - 1, attrs))
    );
    assert_eq!(resolve(&mmu, true, 0xFFFF_1000_0020_0000), None);
    assert_eq!(resolve(&mmu, false, 0xFFFF_1000_0000_0000), None);
}

#[test]
fn stack_needs_its_pages() {
    let mut mmu = unit(511);
    assert_eq!(setup_kernel_stack(&mut mmu), Err("No enough stack size"));
    assert_eq!(mmu.root(true), None);
    let mut mmu = unit(513);
    assert_eq!(setup_kernel_stack(&mut mmu), Err("Failed to map stack"));
}

#[test]
fn segments_get_fresh_pages_in_the_high_half() {
    let mut loader = KernelLoader::new(unit(16));
    let headers = vec![
        LoadHeader { virtual_addr: 0x4000_0000, mem_size: 0x1001, flags: SegmentFlags { bits: 5 } },
        LoadHeader { virtual_addr: 0x4001_0000, mem_size: 1, flags: SegmentFlags { bits: 6 } },
    ];
    assert_eq!(loader.allocate(&headers), Ok(()));
    let rx = cacheable(AccessPermissions::ReadWrite, false);
    let rw = cacheable(AccessPermissions::ReadWrite, true);
    // The first segment takes two pages, then its four tables follow.
    assert_eq!(resolve(loader.mmu(), true, 0x4000_0000), Some((POOL, rx)));
    assert_eq!(resolve(loader.mmu(), true, 0x4000_1000), Some((POOL + 0x1000, rx)));
    assert_eq!(resolve(loader.mmu(), true, 0x4000_2000), None);
    assert_eq!(resolve(loader.mmu(), true, 0x4001_0000), Some((POOL + 0x6000, rw)));
    assert_eq!(resolve(loader.mmu(), false, 0x4000_0000), None);
}

#[test]
fn declared_policy_maps_read_only_segments_read_only() {
    let mut loader = KernelLoader::with_policy(unit(16), WritePolicy::AsDeclared);
    let headers =
        vec![LoadHeader { virtual_addr: 0x4000_0000, mem_size: 1, flags: SegmentFlags { bits: 5 } }];
    assert_eq!(loader.allocate(&headers), Ok(()));
    assert_eq!(
        resolve(loader.mmu(), true, 0x4000_0000),
        Some((POOL, cacheable(AccessPermissions::ReadOnly, false)))
    );
}

#[test]
fn no_segments_no_work() {
    let mut loader = KernelLoader::new(unit(4));
    assert_eq!(loader.allocate(&Vec::new()), Ok(()));
    assert_eq!(loader.mmu().root(true), None);
}

#[test]
fn segment_without_pages_fails() {
    let mut loader = KernelLoader::new(unit(4));
    let headers = vec![LoadHeader {
        virtual_addr: 0x4000_0000,
        mem_size: 5 * 4096,
        flags: SegmentFlags { bits: 5 },
    }];
    assert_eq!(loader.allocate(&headers), Err("Page stack overflow"));
    let huge =
        vec![LoadHeader { virtual_addr: 0x4000_0000, mem_size: u64::MAX, flags: SegmentFlags { bits: 5 } }];
    assert_eq!(loader.allocate(&huge), Err("Segment does not fit the address space"));
}

#[test]
fn overlapping_segments_conflict() {
    let mut loader = KernelLoader::new(unit(16));
    let headers = vec![
        LoadHeader { virtual_addr: 0x4000_0000, mem_size: 0x2000, flags: SegmentFlags { bits: 5 } },
        LoadHeader { virtual_addr: 0x4000_1000, mem_size: 0x1000, flags: SegmentFlags { bits: 6 } },
    ];
    assert_eq!(loader.allocate(&headers), Err("Address already mapped in a page"));
}

#[test]
fn relocation_is_not_supported() {
    let mut loader = KernelLoader::new(unit(4));
    assert_eq!(loader.relocate(0x1000, 8, 0), Err("Relocation not supported"));
}

#[test]
fn load_needs_allocated_segments() {
    let mut loader = KernelLoader::new(unit(16));
    assert_eq!(
        loader.load(SegmentFlags { bits: 5 }, 0x4000_0000, &[1, 2, 3]),
        Err("Address is not mapped")
    );
    assert_eq!(
        loader.load(SegmentFlags { bits: 5 }, u64::MAX, &[1, 2]),
        Err("Segment does not fit the address space")
    );
}

#[test]
fn image_with_one_byte_is_loaded() {
    let bytes = image(0x4000_0000, 5, &[0x5A], 1);
    let (buffer, offset) = aligned(&bytes);
    let binary = ElfBinary::new("test", &buffer[offset..offset + bytes.len()]).unwrap();
    assert_eq!(binary.entry_point(), 0x4000_0000);
    let mut adapter = Adapter { loader: KernelLoader::new(unit(16)) };
    assert_eq!(binary.load(&mut adapter), Ok(()));
    let mut mmu = adapter.loader.into_mmu();
    // One page for the segment, then a root and three tables.
    assert_eq!(mmu.allocator_mut().top().into_usize(), POOL + 5 * 4096);
    let (phys, attrs) = resolve(&mmu, true, 0x4000_0000).unwrap();
    assert_eq!(phys, POOL);
    assert_eq!(attrs, cacheable(AccessPermissions::ReadWrite, false));
    assert_eq!(resolve(&mmu, true, 0x4000_1000), None);
    assert_eq!(resolve(&mmu, true, 0x3FFF_F000), None);
    assert_eq!(mmu.mem().read_byte(POOL as u64), 0x5A);
    assert_eq!(mmu.mem().read_byte(POOL as u64 + 1), 0);
}

#[test]
fn image_bytes_land_at_their_virtual_addresses() {
    let data: Vec<u8> = (0..5000u32).map(|i| (i % 251) as u8).collect();
    let bytes = image(0x4000_0000, 6, &data, 3 * 4096);
    let (buffer, offset) = aligned(&bytes);
    let binary = ElfBinary::new("test", &buffer[offset..offset + bytes.len()]).unwrap();
    let mut adapter = Adapter { loader: KernelLoader::new(unit(16)) };
    assert_eq!(binary.load(&mut adapter), Ok(()));
    let mmu = adapter.loader.into_mmu();
    for (i, byte) in data.iter().enumerate() {
        let (phys, _) = resolve(&mmu, true, 0x4000_0000 + i).unwrap();
        assert_eq!(phys, POOL + i);
        assert_eq!(mmu.mem().read_byte(phys as u64), *byte);
    }
    assert!(resolve(&mmu, true, 0x4000_2FFF).is_some());
    assert!(resolve(&mmu, true, 0x4000_3000).is_none());
}

#[test]
fn handoff_puts_the_boot_information_below_the_stack_end() {
    let mut mmu = unit(600);
    let stack_end = setup_kernel_stack(&mut mmu).unwrap();
    let handoff = jump_to_entry(&mut mmu, 0x4000_0000, stack_end).unwrap();
    assert_eq!(handoff.entry_point, 0x4000_0000);
    assert_eq!(handoff.stack_pointer, 0xFFFF_1000_001F_FFE0);
    // The stack and the four tables that map it.
    assert_eq!(handoff.boot_info.used_pages.addr().into_usize(), POOL);
    assert_eq!(handoff.boot_info.used_pages.size(), 516 * 4096);
    assert_eq!(handoff.boot_info._fill, 0);
    assert_eq!(handoff.boot_info.to_text(), "Used pages: 0x41000000 + 0x204000");
    assert_eq!(
        handoff.step(),
        HwStep::Jump { entry: 0x4000_0000, stack: 0xFFFF_1000_001F_FFE0 }
    );
    let last = POOL as u64 + 511 * 4096;
    assert_eq!(mmu.mem().read(last, 508).value, POOL as u64);
    assert_eq!(mmu.mem().read(last, 509).value, 516 * 4096);
    assert_eq!(mmu.mem().read(last, 510).value, 0);
    assert_eq!(mmu.mem().read(last, 511).value, 0);
    assert_eq!(mmu.mem().read_byte(last + 4064), 0x00);
    assert_eq!(mmu.mem().read_byte(last + 4067), 0x41);
}

#[test]
fn handoff_needs_a_mapped_stack() {
    let mut mmu = unit(8);
    let r = jump_to_entry(&mut mmu, 0x4000_0000, 0xFFFF_1000_0020_0000);
    assert_eq!(r.err(), Some("Address is not mapped"));
}

#[test]
fn pool_starts_on_the_granule_above_the_image() {
    let alloc = setup_page_pool(0x4008_2345);
    assert_eq!(alloc.metadata().range().addr().into_usize(), 0x4008_3000);
    assert_eq!(alloc.metadata().range().size(), 1024 * 4096);
    assert_eq!(alloc.top().into_usize(), 0x4008_3000);
    let aligned = setup_page_pool(0x4008_3000);
    assert_eq!(aligned.top().into_usize(), 0x4008_3000);
}

#[test]
fn loader_boots_a_kernel_from_its_pool() {
    let alloc = setup_page_pool(0x4008_2345);
    let mem = PhysMemory::new(Address::new(0x4008_3000), 1024).unwrap();
    let image: AddressRange<_> = AddressRange::new_raw(0x4008_0000, 0x2345);
    let mut mmu = setup_kernel_mmu(alloc, mem, image, Address::new(0x0900_0000)).unwrap();
    let stack_end = setup_kernel_stack(&mut mmu).unwrap();
    let bytes = self::image(0xFFFF_0000_0000_0000, 5, &[0xAA, 0xBB], 2);
    let (buffer, offset) = aligned(&bytes);
    let binary = ElfBinary::new("test", &buffer[offset..offset + bytes.len()]).unwrap();
    let mut adapter = Adapter { loader: KernelLoader::new(mmu) };
    assert_eq!(binary.load(&mut adapter), Ok(()));
    let mut mmu = adapter.loader.into_mmu();
    let handoff = jump_to_entry(&mut mmu, binary.entry_point() as usize, stack_end).unwrap();
    assert_eq!(handoff.entry_point, 0xFFFF_0000_0000_0000);
    assert_eq!(handoff.stack_pointer, stack_end - 32);
    assert_eq!(handoff.boot_info.used_pages.addr().into_usize(), 0x4008_3000);
    let (code, _) = resolve(&mmu, true, 0xFFFF_0000_0000_0001).unwrap();
    assert_eq!(mmu.mem().read_byte(code as u64), 0xBB);
    let steps = mmu.take_steps();
    assert_eq!(steps.len(), 7);
    assert_eq!(steps[0], HwStep::SetTtbr0(0x4008_3000));
    assert!(matches!(steps[6], HwStep::SetTtbr1(_)));
}
