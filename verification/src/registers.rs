//! Bit fields of 64-bit registers and descriptors.
//!
//! The arithmetic itself is `tock_registers`'; this module states what each
//! of its operations computes and hands the results on as plain numbers.

use vstd::prelude::*;
use tock_registers::interfaces::{Readable, Writeable};

verus! {

/// A group of neighbouring bits: `mask` is a run of ones as wide as the
/// group, `shift` the position of the group's lowest bit.
#[derive(Copy, Clone, Debug, PartialEq, Eq, Structural)]
pub struct Field {
    pub mask: u64,
    pub shift: u32,
}

/// Bits of one or more fields in their place: `mask` covers the fields,
/// `value` holds what they are set to. Only the bits of `value` under `mask`
/// count.
#[derive(Copy, Clone, Debug, PartialEq, Eq, Structural)]
pub struct FieldValue {
    pub mask: u64,
    pub value: u64,
}

/// The bits of `fv` that count.
pub open spec fn effective_bits(fv: FieldValue) -> u64 {
    fv.value & fv.mask
}

/// `value` placed into `field`.
pub open spec fn field_val_spec(field: Field, value: u64) -> FieldValue {
    FieldValue { mask: field.mask << field.shift, value: (value & field.mask) << field.shift }
}

/// What `field` holds in the register value `val`.
pub open spec fn field_read_spec(field: Field, val: u64) -> u64 {
    (val & (field.mask << field.shift)) >> field.shift
}

/// Whether any bit of `field` is set in `val`.
pub open spec fn field_is_set_spec(field: Field, val: u64) -> bool {
    val & (field.mask << field.shift) != 0
}

/// Two field values side by side.
pub open spec fn combine_spec(a: FieldValue, b: FieldValue) -> FieldValue {
    FieldValue { mask: a.mask | b.mask, value: effective_bits(a) | effective_bits(b) }
}

/// Whether `val` holds exactly the bits of `fv` under its mask.
pub open spec fn matches_all_spec(fv: FieldValue, val: u64) -> bool {
    val & fv.mask == effective_bits(fv)
}

/// `tock_registers::fields::Field::val`: the field's mask moved to its
/// position, and under it the low bits of `value`.
#[verifier::external_body]
pub(crate) fn field_val(field: Field, value: u64) -> (r: FieldValue)
    requires
        field.shift < 64,
    ensures
        r == field_val_spec(field, value),
{
    let f = tock_registers::fields::Field::<u64, ()>::new(field.mask, field.shift as usize);
    let fv = f.val(value);
    FieldValue { mask: fv.mask(), value: fv.value }
}

/// `tock_registers::fields::Field::read`: the bits of `val` under the
/// field, moved down to bit 0.
#[verifier::external_body]
pub(crate) fn field_read(field: Field, val: u64) -> (r: u64)
    requires
        field.shift < 64,
    ensures
        r == field_read_spec(field, val),
{
    tock_registers::fields::Field::<u64, ()>::new(field.mask, field.shift as usize).read(val)
}

/// `tock_registers::fields::Field::is_set`: whether `val` has a bit of the
/// field set.
#[verifier::external_body]
pub(crate) fn field_is_set(field: Field, val: u64) -> (r: bool)
    requires
        field.shift < 64,
    ensures
        r == field_is_set_spec(field, val),
{
    tock_registers::fields::Field::<u64, ()>::new(field.mask, field.shift as usize).is_set(val)
}

/// `+` of `tock_registers::fields::FieldValue`: the union of the masks and
/// of the bits. Each operand enters through `FieldValue::new` at shift 0,
/// which drops the bits of its value outside its mask.
#[verifier::external_body]
pub(crate) fn combine(a: FieldValue, b: FieldValue) -> (r: FieldValue)
    ensures
        r == combine_spec(a, b),
{
    let x = tock_registers::fields::FieldValue::<u64, ()>::new(a.mask, 0, a.value);
    let y = tock_registers::fields::FieldValue::<u64, ()>::new(b.mask, 0, b.value);
    let sum = x + y;
    FieldValue { mask: sum.mask(), value: sum.value }
}

/// `tock_registers::fields::FieldValue::matches_all`: whether `val`, under
/// the mask, equals the value. The operand enters through `FieldValue::new`
/// at shift 0.
#[verifier::external_body]
pub(crate) fn matches_all(fv: FieldValue, val: u64) -> (r: bool)
    ensures
        r == matches_all_spec(fv, val),
{
    tock_registers::fields::FieldValue::<u64, ()>::new(fv.mask, 0, fv.value).matches_all(val)
}

/// `write` and `get` of `tock_registers::registers::InMemoryRegister`:
/// writing a field value to a register replaces the whole register by the
/// value's bits, so every field that the value does not name reads as zero.
#[verifier::external_body]
pub(crate) fn register_write(fv: FieldValue) -> (r: u64)
    ensures
        r == effective_bits(fv),
{
    let reg = tock_registers::registers::InMemoryRegister::<u64, ()>::new(0);
    reg.write(tock_registers::fields::FieldValue::<u64, ()>::new(fv.mask, 0, fv.value));
    reg.get()
}

proof fn lemma_val_clean(mask: u64, shift: u32, value: u64)
    by (bit_vector)
    requires
        shift < 64,
    ensures
        ((value & mask) << shift) & (mask << shift) == (value & mask) << shift,
{
}

proof fn lemma_or_clean(av: u64, am: u64, bv: u64, bm: u64)
    by (bit_vector)
    requires
        av & am == av,
        bv & bm == bv,
    ensures
        (av & am) | (bv & bm) == av | bv,
        (av | bv) & (am | bm) == av | bv,
{
}

impl Field {
    /// The field with the given run of ones whose lowest bit is bit
    /// `shift`.
    pub fn new(mask: u64, shift: u32) -> (r: Field)
        ensures
            r.mask == mask,
            r.shift == shift,
    {
        Field { mask, shift }
    }

    /// `value` placed into the field; bits of `value` that the field has no
    /// room for are dropped.
    pub fn val(&self, value: u64) -> (r: FieldValue)
        requires
            self.shift < 64,
        ensures
            r == field_val_spec(*self, value),
            r.is_clean(),
    {
        proof {
            lemma_val_clean(self.mask, self.shift, value);
        }
        field_val(*self, value)
    }

    /// The content of the field in the register value `val`.
    pub fn read(&self, val: u64) -> (r: u64)
        requires
            self.shift < 64,
        ensures
            r == field_read_spec(*self, val),
    {
        field_read(*self, val)
    }

    /// Whether any bit of the field is set in `val`.
    pub fn is_set(&self, val: u64) -> (r: bool)
        requires
            self.shift < 64,
        ensures
            r == field_is_set_spec(*self, val),
    {
        field_is_set(*self, val)
    }
}

impl FieldValue {
    /// Whether the value has no bit outside its mask. What
    /// [`Field::val`] makes is clean, and so is what [`FieldValue::with`]
    /// puts together from clean values.
    pub open spec fn is_clean(self) -> bool {
        self.value & self.mask == self.value
    }

    /// This value and `other` side by side.
    pub fn with(self, other: FieldValue) -> (r: FieldValue)
        ensures
            r == combine_spec(self, other),
            self.is_clean() && other.is_clean() ==> r.is_clean() && r.value == self.value
                | other.value,
    {
        proof {
            if self.is_clean() && other.is_clean() {
                lemma_or_clean(self.value, self.mask, other.value, other.mask);
            }
        }
        combine(self, other)
    }

    /// Whether `val` agrees with this value on every bit under the mask.
    pub fn matches_all(&self, val: u64) -> (r: bool)
        ensures
            r == matches_all_spec(*self, val),
    {
        matches_all(*self, val)
    }

    /// The register content after writing this value to it.
    pub fn written(&self) -> (r: u64)
        ensures
            r == effective_bits(*self),
            self.is_clean() ==> r == self.value,
    {
        register_write(*self)
    }
}

} // verus!
