use stellaros::memory::{Address, AddressRange, Physical, Virtual};

#[test]
fn address_keeps_its_value() {
    let a: Address<Physical> = Address::new(0x1000_0000);
    assert_eq!(a.into_usize(), 0x1000_0000);
}

#[test]
fn address_aligns_down_and_up() {
    let a: Address<Virtual> = Address::new(0x1234);
    assert_eq!(a.align_down(0x1000).into_usize(), 0x1000);
    assert_eq!(a.align_up(0x1000).into_usize(), 0x2000);
    let b: Address<Virtual> = Address::new(0x3000);
    assert_eq!(b.align_up(0x1000).into_usize(), 0x3000);
    assert!(b.is_aligned(0x1000));
    assert!(!a.is_aligned(0x1000));
}

#[test]
fn pages_of_a_range_step_by_one_granule() {
    let r: AddressRange<Physical> = AddressRange::new_raw(0x4000_0000, 3 * 4096);
    let pages = r.pages();
    assert_eq!(pages.len(), 3);
    assert_eq!(pages[0].into_usize(), 0x4000_0000);
    assert_eq!(pages[1].into_usize(), 0x4000_1000);
    assert_eq!(pages[2].into_usize(), 0x4000_2000);
}

#[test]
fn empty_range_has_no_pages() {
    let r: AddressRange<Virtual> = AddressRange::new_raw(0x4000_0000, 0);
    assert_eq!(r.pages().len(), 0);
    assert_eq!(r.end().into_usize(), 0x4000_0000);
}

#[test]
fn partial_granule_counts_as_a_page() {
    let r: AddressRange<Virtual> = AddressRange::new_raw(0x1000, 4097);
    let pages = r.pages();
    assert_eq!(pages.len(), 2);
    assert_eq!(pages[1].into_usize(), 0x2000);
}

#[test]
fn addresses_and_ranges_print_in_hexadecimal() {
    let a: Address<Physical> = Address::new(0x4008_0000);
    assert_eq!(a.to_text(), "0x40080000");
    let zero: Address<Virtual> = Address::new(0);
    assert_eq!(zero.to_text(), "0x0");
    let r: AddressRange<Physical> = AddressRange::new_raw(0x1000, 0x20);
    assert_eq!(r.to_text(), "0x1000 + 0x20");
}
