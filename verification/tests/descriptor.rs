use stellaros::arch::descriptor::{EntryType, MmuLevel, PageDescriptor, TableDescriptor};
use stellaros::memory::{AccessPermissions, Address, AttributeFields, MemAttributes};
use stellaros::registers::FieldValue;

fn attrs(mem: MemAttributes, acc: AccessPermissions, xn: bool) -> AttributeFields {
    AttributeFields { mem_attributes: mem, acc_perms: acc, execute_never: xn }
}

#[test]
fn zeroed_descriptor_is_invalid_at_every_level() {
    let d = TableDescriptor::new_zeroed();
    assert_eq!(d.value, 0);
    for level in [MmuLevel::Level0, MmuLevel::Level1, MmuLevel::Level2, MmuLevel::Level3] {
        assert_eq!(EntryType::from_entry(&d, level), Some(EntryType::Invalid));
    }
}

#[test]
fn table_descriptor_holds_the_address_and_both_low_bits() {
    let d = TableDescriptor::from_next_lvl_table_addr(Address::new(0x2000_1000));
    assert_eq!(d.value, 0x2000_1003);
    assert_eq!(d.next_level_table_addr(), 0x2000_1000);
}

#[test]
fn table_descriptor_drops_the_offset_into_the_granule() {
    let d = TableDescriptor::from_next_lvl_table_addr(Address::new(0x2000_1ABC));
    assert_eq!(d.value, 0x2000_1003);
}

#[test]
fn level_0_block_is_rejected() {
    let block = TableDescriptor { value: 0x4000_0001 };
    assert_eq!(EntryType::from_entry(&block, MmuLevel::Level0), None);
}

#[test]
fn block_is_a_leaf_below_level_0() {
    let block = TableDescriptor { value: 0x4000_0001 };
    assert_eq!(EntryType::from_entry(&block, MmuLevel::Level1), Some(EntryType::Block(block)));
    assert_eq!(EntryType::from_entry(&block, MmuLevel::Level2), Some(EntryType::Block(block)));
    assert_eq!(EntryType::from_entry(&block, MmuLevel::Level3), None);
}

#[test]
fn table_type_is_a_table_above_level_3_and_a_page_at_level_3() {
    let d = TableDescriptor { value: 0x2000_1003 };
    assert_eq!(EntryType::from_entry(&d, MmuLevel::Level0), Some(EntryType::Table(d)));
    assert_eq!(EntryType::from_entry(&d, MmuLevel::Level2), Some(EntryType::Table(d)));
    assert_eq!(
        EntryType::from_entry(&d, MmuLevel::Level3),
        Some(EntryType::Page(PageDescriptor { value: 0x2000_1003 }))
    );
}

#[test]
fn next_level_ends_at_level_3() {
    assert_eq!(MmuLevel::Level0.next_lvl(), Some(MmuLevel::Level1));
    assert_eq!(MmuLevel::Level1.next_lvl(), Some(MmuLevel::Level2));
    assert_eq!(MmuLevel::Level2.next_lvl(), Some(MmuLevel::Level3));
    assert_eq!(MmuLevel::Level3.next_lvl(), None);
}

#[test]
fn attribute_bits_of_cacheable_writable_executable_memory() {
    let v = FieldValue::from(attrs(MemAttributes::CacheableDRAM, AccessPermissions::ReadWrite, false));
    assert_eq!(v.mask, 0x0060_0000_0000_03DC);
    assert_eq!(v.value, 0x0040_0000_0000_0304);
}

#[test]
fn attribute_bits_of_read_only_memory_that_is_not_executable() {
    let v = FieldValue::from(attrs(MemAttributes::CacheableDRAM, AccessPermissions::ReadOnly, true));
    assert_eq!(v.value, 0x0060_0000_0000_0384);
}

#[test]
fn attribute_bits_of_device_memory() {
    let v = FieldValue::from(attrs(MemAttributes::Device, AccessPermissions::ReadWrite, true));
    assert_eq!(v.value, 0x0060_0000_0000_0200);
}

#[test]
fn page_descriptor_bits_are_exact() {
    let a = attrs(MemAttributes::CacheableDRAM, AccessPermissions::ReadWrite, false);
    let d = PageDescriptor::from_output_addr(Address::new(0x1000_0000), a);
    assert_eq!(d.value, 0x0040_0000_1000_0707);
    let uart = attrs(MemAttributes::Device, AccessPermissions::ReadWrite, true);
    let d = PageDescriptor::from_output_addr(Address::new(0x0900_0000), uart);
    assert_eq!(d.value, 0x0060_0000_0900_0603);
}

#[test]
fn page_descriptor_gives_back_what_it_was_built_from() {
    for mem in [MemAttributes::CacheableDRAM, MemAttributes::Device] {
        for acc in [AccessPermissions::ReadOnly, AccessPermissions::ReadWrite] {
            for xn in [false, true] {
                let a = attrs(mem, acc, xn);
                let d = PageDescriptor::from_output_addr(Address::new(0x1234_5000), a);
                assert_eq!(d.output_addr(), 0x1234_5000);
                assert_eq!(d.attributes(), a);
            }
        }
    }
}
