use stellaros::bsp::memory::{
    boot_core_stack_size, bss_range_inclusive, end, flash, gpio, phys_boot_core_stack_end, uart,
    virt_boot_core_stack_start, virt_ro_start,
};
use stellaros::common::{align_down, align_up, is_aligned};
use stellaros::memory::{AccessPermissions, AddrMapper, Address, AddressRange, AttributeFields, IdentMapper, MemAttributes, Physical};
use stellaros::mmu::layout::{
    AddressSpaceSize, Granule16KiB, Granule4KiB, Granule64KiB, KernelVirtualLayout, Translation,
    TranslationDescriptor,
};

fn device() -> AttributeFields {
    AttributeFields {
        mem_attributes: MemAttributes::Device,
        acc_perms: AccessPermissions::ReadWrite,
        execute_never: true,
    }
}

fn code() -> AttributeFields {
    AttributeFields {
        mem_attributes: MemAttributes::CacheableDRAM,
        acc_perms: AccessPermissions::ReadOnly,
        execute_never: false,
    }
}

fn layout() -> KernelVirtualLayout<2> {
    KernelVirtualLayout::new(
        0xFFFF_FFFF,
        [
            TranslationDescriptor {
                name: "Kernel code and RO data",
                virtual_range: (0x0008_0000, 0x0008_FFFF),
                physical_range_translation: Translation::Identity,
                attribute_fields: code(),
            },
            TranslationDescriptor {
                name: "Remapped Device MMIO",
                virtual_range: (0x1FFF_0000, 0x1FFF_FFFF),
                physical_range_translation: Translation::Offset(0x3F20_0000),
                attribute_fields: device(),
            },
        ],
    )
}

#[test]
fn alignment_helpers_round_to_powers_of_two() {
    assert_eq!(align_down(0x1234, 0x100), 0x1200);
    assert_eq!(align_up(0x1234, 0x100), 0x1300);
    assert_eq!(align_up(0x1200, 0x100), 0x1200);
    assert_eq!(align_down(0x1200, 0x100), 0x1200);
    assert_eq!(align_up(0, 4096), 0);
    assert_eq!(align_up(1, 4096), 4096);
    assert!(is_aligned(0x2000, 4096));
    assert!(!is_aligned(0x2001, 4096));
    assert!(is_aligned(7, 1));
}

#[test]
fn identity_mapper_keeps_addresses() {
    let a: Address<Physical> = Address::new(0x1234_5000);
    assert_eq!(IdentMapper::map_to_vaddr(a).into_usize(), 0x1234_5000);
    let r: AddressRange<Physical> = AddressRange::new_raw(0x1000, 0x3000);
    let v = IdentMapper::map_to_vrange(r);
    assert_eq!(v.addr().into_usize(), 0x1000);
    assert_eq!(v.size(), 0x3000);
    assert_eq!(v.range(), (0x1000, 0x4000));
}

#[test]
fn ranges_from_two_addresses() {
    let r: AddressRange<Physical> = AddressRange::new_range(Address::new(0x1000), Address::new(0x1800));
    assert_eq!(r.addr().into_usize(), 0x1000);
    assert_eq!(r.size(), 0x800);
    assert_eq!(r.end().into_usize(), 0x1800);
    let a: Address<Physical> = Address::new(0x1000);
    assert_eq!(a.add(0x10).into_usize(), 0x1010);
    assert_eq!(a.sub(0x10).into_usize(), 0x0FF0);
}

#[test]
fn default_attributes_are_cacheable_writable_not_executable() {
    assert_eq!(
        AttributeFields::default(),
        AttributeFields {
            mem_attributes: MemAttributes::CacheableDRAM,
            acc_perms: AccessPermissions::ReadWrite,
            execute_never: true,
        }
    );
}

#[test]
fn board_granule_is_four_kibibytes() {
    assert_eq!(stellaros::config::MmuGranule::size(), stellaros::config::GRANULE_SIZE);
    assert_eq!(stellaros::config::MmuGranule::shift(), stellaros::config::GRANULE_SHIFT);
    assert_eq!(stellaros::config::ENTRY_PER_TABLE * 8, stellaros::config::GRANULE_SIZE);
}

#[test]
fn granules_know_their_size_and_shift() {
    assert_eq!(Granule4KiB::size(), 4096);
    assert_eq!(Granule4KiB::shift(), 12);
    assert_eq!(Granule16KiB::size(), 16384);
    assert_eq!(Granule16KiB::shift(), 14);
    assert_eq!(Granule64KiB::size(), 65536);
    assert_eq!(Granule64KiB::shift(), 16);
    assert_eq!(AddressSpaceSize::<0x1_0000_0000>::size(), 0x1_0000_0000);
    assert_eq!(AddressSpaceSize::<0x1_0000_0000>::shift(), 32);
    assert_eq!(AddressSpaceSize::<1>::shift(), 0);
}

#[test]
fn layout_finds_the_special_range_of_an_address() {
    let l = layout();
    assert_eq!(l.virt_addr_properties(0x0008_1234), Ok((0x0008_1234, code())));
    assert_eq!(l.virt_addr_properties(0x1FFF_0000), Ok((0x3F20_0000, device())));
    assert_eq!(l.virt_addr_properties(0x1FFF_FFFF), Ok((0x3F20_FFFF, device())));
}

#[test]
fn layout_maps_other_addresses_onto_themselves() {
    let l = layout();
    assert_eq!(l.virt_addr_properties(0x0009_0000), Ok((0x0009_0000, AttributeFields::default())));
    assert_eq!(l.virt_addr_properties(0), Ok((0, AttributeFields::default())));
    assert_eq!(l.virt_addr_properties(0xFFFF_FFFF), Ok((0xFFFF_FFFF, AttributeFields::default())));
}

#[test]
fn layout_refuses_addresses_above_its_end() {
    assert_eq!(layout().virt_addr_properties(0x1_0000_0000), Err("Address out of range"));
}

#[test]
fn first_special_range_wins() {
    let l: KernelVirtualLayout<2> = KernelVirtualLayout::new(
        0xFFFF,
        [
            TranslationDescriptor {
                name: "a",
                virtual_range: (0x1000, 0x1FFF),
                physical_range_translation: Translation::Offset(0x8000),
                attribute_fields: device(),
            },
            TranslationDescriptor {
                name: "b",
                virtual_range: (0x1800, 0x2FFF),
                physical_range_translation: Translation::Identity,
                attribute_fields: code(),
            },
        ],
    );
    assert_eq!(l.virt_addr_properties(0x1800), Ok((0x8800, device())));
    assert_eq!(l.virt_addr_properties(0x2000), Ok((0x2000, code())));
}

#[test]
fn descriptor_line_shows_range_size_and_attributes() {
    let lines = layout().print_layout();
    assert_eq!(lines.len(), 2);
    assert_eq!(lines[0], "      0x00080000 - 0x0008ffff |  64 KiB | C   RO PX  | Kernel code and RO data");
    assert_eq!(lines[1], "      0x1fff0000 - 0x1fffffff |  64 KiB | Dev RW PXN | Remapped Device MMIO");
}

#[test]
fn descriptor_size_picks_the_largest_unit_that_fits() {
    let d = |start: usize, end: usize| TranslationDescriptor {
        name: "x",
        virtual_range: (start, end),
        physical_range_translation: Translation::Identity,
        attribute_fields: code(),
    };
    assert_eq!(d(0, 0).size_and_unit(), (1, "Byte"));
    assert_eq!(d(0, 1022).size_and_unit(), (1023, "Byte"));
    assert_eq!(d(0, 1023).size_and_unit(), (1, "KiB"));
    assert_eq!(d(0x1000, 0x1000 + 0x10_0000 - 2).size_and_unit(), (1023, "KiB"));
    assert_eq!(d(0x1000, 0x1000 + 0x30_0000 - 1).size_and_unit(), (3, "MiB"));
    assert_eq!(d(0, 0).to_text(), "      0x00000000 - 0x00000000 |   1 Byte | C   RO PX  | x");
}

#[test]
fn board_map_of_the_virt_machine() {
    assert_eq!(flash().range(), (0, 0x0800_0000));
    assert_eq!(uart().addr().into_usize(), 0x0900_0000);
    assert_eq!(uart().size(), 0x1000);
    assert_eq!(gpio().addr().into_usize(), 0x0903_0000);
    assert_eq!(end().into_usize(), 0x4001_0000);
}

#[test]
fn boot_core_stack_ends_where_the_read_only_data_starts() {
    assert_eq!(boot_core_stack_size(), 0x1_0000);
    assert_eq!(virt_ro_start(0x4008_0000).into_usize(), 0x4008_0000);
    assert_eq!(virt_boot_core_stack_start(0x4008_0000).into_usize(), 0x4007_0000);
    assert_eq!(phys_boot_core_stack_end(0x4008_0000).into_usize(), 0x4008_0000);
    assert_eq!(bss_range_inclusive(0x4009_0000, 0x4009_0FF8), (0x4009_0000, 0x4009_0FF8));
}

#[test]
fn range_that_starts_above_its_end_holds_no_address() {
    let l: KernelVirtualLayout<2> = KernelVirtualLayout::new(
        0xFFFF,
        [
            TranslationDescriptor {
                name: "inverted",
                virtual_range: (0x3000, 0x1000),
                physical_range_translation: Translation::Offset(usize::MAX),
                attribute_fields: device(),
            },
            TranslationDescriptor {
                name: "b",
                virtual_range: (0x2000, 0x2FFF),
                physical_range_translation: Translation::Offset(0x8000),
                attribute_fields: code(),
            },
        ],
    );
    assert_eq!(l.virt_addr_properties(0x1000), Ok((0x1000, AttributeFields::default())));
    assert_eq!(l.virt_addr_properties(0x2000), Ok((0x8000, code())));
    assert_eq!(l.virt_addr_properties(0x2800), Ok((0x8800, code())));
    assert_eq!(l.virt_addr_properties(0x3000), Ok((0x3000, AttributeFields::default())));
    assert_eq!(l.virt_addr_properties(0x1_0000), Err("Address out of range"));
}
