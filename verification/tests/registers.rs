use stellaros::registers::{Field, FieldValue};

#[test]
fn field_value_is_moved_into_place() {
    let v = Field::new(0x7, 2).val(0x5);
    assert_eq!(v.mask, 0x1C);
    assert_eq!(v.value, 0x14);
}

#[test]
fn field_value_drops_bits_that_do_not_fit() {
    let v = Field::new(0x3, 8).val(0xFF);
    assert_eq!(v.mask, 0x300);
    assert_eq!(v.value, 0x300);
}

#[test]
fn field_read_extracts_the_field() {
    assert_eq!(Field::new(0x3F, 26).read(0x9600_0045), 0x25);
    assert_eq!(Field::new(0x1FF_FFFF, 0).read(0x9600_0045), 0x45);
}

#[test]
fn field_is_set_looks_at_its_own_bits_only() {
    assert!(Field::new(0x1, 31).is_set(0x8000_0000));
    assert!(!Field::new(0x1, 30).is_set(0x8000_0000));
    assert!(Field::new(0x3, 4).is_set(0x10));
}

#[test]
fn field_values_combine_by_union() {
    let a = Field::new(0x1, 0).val(1);
    let b = Field::new(0xF, 4).val(0xA);
    let c = a.with(b);
    assert_eq!(c.mask, 0xF1);
    assert_eq!(c.value, 0xA1);
}

#[test]
fn combining_drops_bits_outside_the_masks() {
    let a = FieldValue { mask: 0x0F, value: 0xFF };
    let b = FieldValue { mask: 0xF0, value: 0x00 };
    let c = a.with(b);
    assert_eq!(c.mask, 0xFF);
    assert_eq!(c.value, 0x0F);
}

#[test]
fn matches_all_compares_under_the_mask() {
    let v = Field::new(0x3, 0).val(0x3);
    assert!(v.matches_all(0xFF));
    assert!(!v.matches_all(0xFD));
    let zero = Field::new(0x1, 1).val(0);
    assert!(zero.matches_all(0x1));
    assert!(!zero.matches_all(0x2));
}

#[test]
fn written_value_replaces_the_register() {
    let v = Field::new(0xFF, 8).val(0x12);
    assert_eq!(v.written(), 0x1200);
    let odd = FieldValue { mask: 0x0F, value: 0x1234 };
    assert_eq!(odd.written(), 0x4);
}
