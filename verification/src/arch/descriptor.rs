//! Stage 1 translation descriptors for a 4 KiB granule: their bit layout,
//! how they are built and how they are read.

use vstd::prelude::*;
use crate::arch::mair;
use crate::memory::{AccessPermissions, Address, AttributeFields, MemAttributes, Physical};
use crate::registers::{Field, FieldValue, combine_spec, field_val_spec};

verus! {

/// Position of the valid bit.
pub const VALID_SHIFT: u32 = 0;

/// Position of the bit that tells tables and pages (1) from blocks (0).
pub const TYPE_SHIFT: u32 = 1;

/// Position of the three-bit attribute index.
pub const ATTR_INDX_SHIFT: u32 = 2;

/// Position of the two-bit access permission field.
pub const AP_SHIFT: u32 = 6;

/// Position of the two-bit shareability field.
pub const SH_SHIFT: u32 = 8;

/// Position of the access flag.
pub const AF_SHIFT: u32 = 10;

/// Position of the 36-bit address field, which holds bits 47 to 12 of an
/// address.
pub const ADDR_SHIFT: u32 = 12;

/// Position of the privileged execute-never bit.
pub const PXN_SHIFT: u32 = 53;

/// Position of the unprivileged execute-never bit.
pub const UXN_SHIFT: u32 = 54;

/// The address field as a run of ones.
pub const ADDR_FIELD_MASK: u64 = 0xF_FFFF_FFFF;

/// The bits of a descriptor that hold an address.
pub const ADDR_BITS: u64 = 0x0000_FFFF_FFFF_F000;

/// Shareability: outer shareable.
pub const SH_OUTER: u64 = 0b10;

/// Shareability: inner shareable.
pub const SH_INNER: u64 = 0b11;

/// Access permission: read and write at the kernel's level only.
pub const AP_RW_EL1: u64 = 0b00;

/// Access permission: read-only at the kernel's level only.
pub const AP_RO_EL1: u64 = 0b10;

/// The bits that the attributes of a mapping occupy.
pub const ATTRIBUTE_BITS: u64 = 0x0060_0000_0000_03DC;

/// A level of the four-level translation table walk.
#[derive(Copy, Clone, Debug, PartialEq, Eq, Structural)]
pub enum MmuLevel {
    Level0,
    Level1,
    Level2,
    Level3,
}

impl MmuLevel {
    /// The level as a number from 0 to 3.
    pub open spec fn index(self) -> nat {
        match self {
            MmuLevel::Level0 => 0,
            MmuLevel::Level1 => 1,
            MmuLevel::Level2 => 2,
            MmuLevel::Level3 => 3,
        }
    }

    /// The level below this one, if there is one.
    pub open spec fn next_spec(self) -> Option<MmuLevel> {
        match self {
            MmuLevel::Level0 => Some(MmuLevel::Level1),
            MmuLevel::Level1 => Some(MmuLevel::Level2),
            MmuLevel::Level2 => Some(MmuLevel::Level3),
            MmuLevel::Level3 => None,
        }
    }

    /// The level below this one, if there is one.
    pub fn next_lvl(&self) -> (r: Option<MmuLevel>)
        ensures
            r == self.next_spec(),
            r matches Some(n) ==> n.index() == self.index() + 1,
            r is None <==> *self == MmuLevel::Level3,
    {
        match self {
            MmuLevel::Level0 => Some(MmuLevel::Level1),
            MmuLevel::Level1 => Some(MmuLevel::Level2),
            MmuLevel::Level2 => Some(MmuLevel::Level3),
            MmuLevel::Level3 => None,
        }
    }
}

/// Whether a descriptor is valid: bit 0.
pub open spec fn desc_valid(bits: u64) -> bool {
    bits & 0x1 == 0x1
}

/// Whether a descriptor has the type of a table or page: bit 1.
pub open spec fn desc_type_table(bits: u64) -> bool {
    bits & 0x2 == 0x2
}

/// The address that a descriptor holds: its bits 47 to 12.
pub open spec fn desc_addr(bits: u64) -> u64 {
    bits & ADDR_BITS
}

/// The bits of a valid table descriptor that points to the table at `next`.
/// Bits of `next` outside bits 47 to 12 are dropped.
pub open spec fn table_descriptor_bits(next: u64) -> u64 {
    0x3 | (next & ADDR_BITS)
}

/// The attribute bits for the three choices that the attributes of a
/// mapping make: inner shareable with the index of normal memory, or outer
/// shareable with the index of device memory; read-only or read-write at
/// the kernel's level; privileged execute-never or not. Unprivileged
/// execute-never is always set.
pub open spec fn attribute_bits_of(cacheable: bool, read_only: bool, never: bool) -> u64 {
    (if cacheable {
        0x304u64
    } else {
        0x200u64
    }) | (if read_only {
        0x80u64
    } else {
        0u64
    }) | (if never {
        0x0020_0000_0000_0000u64
    } else {
        0u64
    }) | 0x0040_0000_0000_0000u64
}

/// The attribute bits of a mapping.
pub open spec fn attribute_bits(attributes: AttributeFields) -> u64 {
    attribute_bits_of(
        attributes.mem_attributes == MemAttributes::CacheableDRAM,
        attributes.acc_perms == AccessPermissions::ReadOnly,
        attributes.execute_never,
    )
}

/// The bits of a valid page descriptor with the access flag set that maps
/// to the page of `output_addr` with `attributes`. Bits of `output_addr`
/// outside bits 47 to 12 are dropped.
pub open spec fn page_descriptor_bits(output_addr: u64, attributes: AttributeFields) -> u64 {
    0x403 | attribute_bits(attributes) | (output_addr & ADDR_BITS)
}

/// The attributes that a page descriptor's bits stand for: cacheable memory
/// where the attribute index is that of normal memory, read-only where the
/// upper permission bit is set, execute-never by the privileged bit.
pub open spec fn decode_attributes(bits: u64) -> AttributeFields {
    AttributeFields {
        mem_attributes: if (bits >> 2) & 0x7 == 1 {
            MemAttributes::CacheableDRAM
        } else {
            MemAttributes::Device
        },
        acc_perms: if bits & 0x80 == 0x80 {
            AccessPermissions::ReadOnly
        } else {
            AccessPermissions::ReadWrite
        },
        execute_never: bits & 0x0020_0000_0000_0000 != 0,
    }
}

/// The number of pages that a block spans: 2^18 at level 1, 2^9 at level 2.
pub open spec fn block_pages(level: nat) -> int {
    if level == 1 {
        0x4_0000
    } else {
        0x200
    }
}

/// The physical address of the page with number `vpn` inside a block of
/// `level`: the address in the block's descriptor, aligned down to the span
/// of the block, and from there as many pages as `vpn` lies above the
/// block's first page.
pub open spec fn block_page_addr(bits: u64, level: nat, vpn: int) -> int {
    ((desc_addr(bits) as int / 4096) / block_pages(level) * block_pages(level) + vpn % block_pages(
        level,
    )) * 4096
}

/// The descriptor of one page of a block: the block's descriptor with the
/// address of the page in place of the address of the block. It keeps the
/// block's type bit, by which it differs from every page descriptor.
pub open spec fn page_of_block(bits: u64, level: nat, vpn: int) -> u64 {
    (bits & !ADDR_BITS) | (block_page_addr(bits, level, vpn) as u64)
}

proof fn lemma_block_bits(e: u64, x: u64)
    by (bit_vector)
    requires
        x & 0x0000_FFFF_FFFF_F000u64 == x,
    ensures
        ((e & !0x0000_FFFF_FFFF_F000u64) | x) & 0x0000_FFFF_FFFF_F000u64 == x,
        ((e & !0x0000_FFFF_FFFF_F000u64) | x) & 0x1u64 == e & 0x1u64,
        ((e & !0x0000_FFFF_FFFF_F000u64) | x) & 0x2u64 == e & 0x2u64,
        (((e & !0x0000_FFFF_FFFF_F000u64) | x) >> 2u64) & 0x7u64 == (e >> 2u64) & 0x7u64,
        ((e & !0x0000_FFFF_FFFF_F000u64) | x) & 0x80u64 == e & 0x80u64,
        ((e & !0x0000_FFFF_FFFF_F000u64) | x) & 0x0020_0000_0000_0000u64 == e
            & 0x0020_0000_0000_0000u64,
{
}

/// The descriptor of a page of a block holds the address of the page, and
/// is valid, of the block type and of the attributes as the block's
/// descriptor is.
pub proof fn lemma_page_of_block(bits: u64, level: nat, vpn: int)
    requires
        level == 1 || level == 2,
        0 <= vpn,
    ensures
        desc_addr(page_of_block(bits, level, vpn)) == block_page_addr(bits, level, vpn),
        desc_valid(page_of_block(bits, level, vpn)) == desc_valid(bits),
        desc_type_table(page_of_block(bits, level, vpn)) == desc_type_table(bits),
        decode_attributes(page_of_block(bits, level, vpn)) == decode_attributes(bits),
        0 <= block_page_addr(bits, level, vpn) < 0x1_0000_0000_0000,
        block_page_addr(bits, level, vpn) % 4096 == 0,
{
    lemma_addr_bits(bits);
    let page = block_page_addr(bits, level, vpn) / 4096;
    assert(0 <= page < 0x10_0000_0000);
    let x = block_page_addr(bits, level, vpn) as u64;
    lemma_addr_bits(x);
    lemma_block_bits(bits, x);
}

/// The number of bytes that a block spans.
pub open spec fn block_span(level: nat) -> int {
    block_pages(level) * 4096
}

/// A byte of a block lies as far above the block's base as its address
/// lies above a multiple of the block's span: the address of its page in
/// the block, and from there the offset into the page.
pub proof fn lemma_block_byte(bits: u64, level: nat, v: u64)
    requires
        level == 1 || level == 2,
    ensures
        desc_addr(bits) - desc_addr(bits) % (block_span(level) as u64) + v % (block_span(level) as u64)
            == block_page_addr(bits, level, ((v >> 12) & 0xF_FFFF_FFFF) as int) + v % 4096,
        desc_addr(bits) - desc_addr(bits) % (block_span(level) as u64) + v % (block_span(level) as u64)
            < 0x1_0000_0000_0000,
{
    lemma_addr_bits(bits);
    lemma_addr_bits(desc_addr(bits));
    lemma_block_split(desc_addr(bits), v);
}

proof fn lemma_block_split(a: u64, v: u64)
    by (bit_vector)
    requires
        a & 0x0000_FFFF_FFFF_F000u64 == a,
    ensures
        a - a % 0x4000_0000u64 + v % 0x4000_0000u64 == ((a / 4096u64) / 0x4_0000u64 * 0x4_0000u64 + ((v
            >> 12u64) & 0xF_FFFF_FFFFu64) % 0x4_0000u64) * 4096u64 + v % 4096u64,
        a - a % 0x20_0000u64 + v % 0x20_0000u64 == ((a / 4096u64) / 0x200u64 * 0x200u64 + ((v
            >> 12u64) & 0xF_FFFF_FFFFu64) % 0x200u64) * 4096u64 + v % 4096u64,
        a - a % 0x4000_0000u64 + v % 0x4000_0000u64 < 0x1_0000_0000_0000u64,
        a - a % 0x20_0000u64 + v % 0x20_0000u64 < 0x1_0000_0000_0000u64,
{
}

/// What a descriptor is at a level: the four kinds, or nothing where the
/// level does not allow what the bits say. A block is a leaf of levels 1
/// and 2 only: valid bits of the block type mean nothing at level 0 and at
/// level 3.
pub open spec fn entry_type_spec(bits: u64, level: MmuLevel) -> Option<EntryType> {
    if !desc_valid(bits) {
        Some(EntryType::Invalid)
    } else if desc_type_table(bits) {
        if level == MmuLevel::Level3 {
            Some(EntryType::Page(PageDescriptor { value: bits }))
        } else {
            Some(EntryType::Table(TableDescriptor { value: bits }))
        }
    } else if level == MmuLevel::Level1 || level == MmuLevel::Level2 {
        Some(EntryType::Block(TableDescriptor { value: bits }))
    } else {
        None
    }
}

/// One entry of a translation table.
#[derive(Copy, Clone, Debug, PartialEq, Eq, Structural)]
pub struct TableDescriptor {
    pub value: u64,
}

/// A level 3 entry: it maps one page.
#[derive(Copy, Clone, Debug, PartialEq, Eq, Structural)]
pub struct PageDescriptor {
    pub value: u64,
}

/// What a table entry turned out to be.
#[derive(Copy, Clone, Debug, PartialEq, Eq, Structural)]
pub enum EntryType {
    /// Nothing is mapped through this entry.
    Invalid,
    /// A leaf that maps a large aligned region.
    Block(TableDescriptor),
    /// A pointer to the table of the next level.
    Table(TableDescriptor),
    /// A leaf that maps one page.
    Page(PageDescriptor),
}

proof fn lemma_flag_bits(bits: u64, shift: u32, m: u64, x: u64)
    by (bit_vector)
    requires
        shift == 0 || shift == 1,
        m == 1u64 << shift,
        x == (1u64 & 1u64) << shift,
    ensures
        shift == 0 ==> ((bits & m == x & m) <==> bits & 0x1 == 0x1),
        shift == 1 ==> ((bits & m == x & m) <==> bits & 0x2 == 0x2),
{
}

proof fn lemma_table_bits(a: u64, m1: u64, x1: u64, m2: u64, x2: u64, m3: u64, x3: u64)
    by (bit_vector)
    requires
        m1 == 1u64 << 0u32,
        x1 == (1u64 & 1u64) << 0u32,
        m2 == 1u64 << 1u32,
        x2 == (1u64 & 1u64) << 1u32,
        m3 == 0xF_FFFF_FFFFu64 << 12u32,
        x3 == ((a >> 12u64) & 0xF_FFFF_FFFFu64) << 12u32,
    ensures
        ((((x1 & m1) | (x2 & m2)) & (m1 | m2)) | (x3 & m3)) & ((m1 | m2) | m3) == 0x3 | (a
            & 0x0000_FFFF_FFFF_F000),
{
}

proof fn lemma_addr_read(bits: u64)
    by (bit_vector)
    ensures
        ((bits & (0xF_FFFF_FFFFu64 << 12u32)) >> 12u32) << 12u64 == bits & 0x0000_FFFF_FFFF_F000,
        (bits & (0xF_FFFF_FFFFu64 << 12u32)) >> 12u32 <= 0xF_FFFF_FFFFu64,
{
}

proof fn lemma_attribute_bits(
    cacheable: bool,
    read_only: bool,
    never: bool,
    sh: FieldValue,
    idx: FieldValue,
    ap: FieldValue,
    pxn: FieldValue,
    uxn: FieldValue,
) -> (r: (u64, u64))
    requires
        sh == field_val_spec(
            Field { mask: 0x3, shift: SH_SHIFT },
            if cacheable {
                SH_INNER
            } else {
                SH_OUTER
            },
        ),
        idx == field_val_spec(
            Field { mask: 0x7, shift: ATTR_INDX_SHIFT },
            if cacheable {
                mair::NORMAL
            } else {
                mair::DEVICE
            },
        ),
        ap == field_val_spec(
            Field { mask: 0x3, shift: AP_SHIFT },
            if read_only {
                AP_RO_EL1
            } else {
                AP_RW_EL1
            },
        ),
        pxn == field_val_spec(
            Field { mask: 0x1, shift: PXN_SHIFT },
            if never {
                1u64
            } else {
                0u64
            },
        ),
        uxn == field_val_spec(Field { mask: 0x1, shift: UXN_SHIFT }, 1),
    ensures
        combine_spec(combine_spec(combine_spec(combine_spec(sh, idx), ap), pxn), uxn)
            == (FieldValue { mask: r.0, value: r.1 }),
        r.0 == ATTRIBUTE_BITS,
        r.1 == attribute_bits_of(cacheable, read_only, never),
{
    let total = combine_spec(combine_spec(combine_spec(combine_spec(sh, idx), ap), pxn), uxn);
    lemma_attribute_bits_raw(
        cacheable,
        read_only,
        never,
        sh.mask,
        sh.value,
        idx.mask,
        idx.value,
        ap.mask,
        ap.value,
        pxn.mask,
        pxn.value,
        uxn.mask,
        uxn.value,
    );
    (total.mask, total.value)
}

proof fn lemma_attribute_bits_raw(
    cacheable: bool,
    read_only: bool,
    never: bool,
    m1: u64,
    x1: u64,
    m2: u64,
    x2: u64,
    m3: u64,
    x3: u64,
    m4: u64,
    x4: u64,
    m5: u64,
    x5: u64,
)
    by (bit_vector)
    requires
        m1 == 0x3u64 << 8u32,
        x1 == ((if cacheable {
            0b11u64
        } else {
            0b10u64
        }) & 0x3u64) << 8u32,
        m2 == 0x7u64 << 2u32,
        x2 == ((if cacheable {
            1u64
        } else {
            0u64
        }) & 0x7u64) << 2u32,
        m3 == 0x3u64 << 6u32,
        x3 == ((if read_only {
            0b10u64
        } else {
            0b00u64
        }) & 0x3u64) << 6u32,
        m4 == 0x1u64 << 53u32,
        x4 == ((if never {
            1u64
        } else {
            0u64
        }) & 0x1u64) << 53u32,
        m5 == 0x1u64 << 54u32,
        x5 == (1u64 & 0x1u64) << 54u32,
    ensures
        (((m1 | m2) | m3) | m4) | m5 == 0x0060_0000_0000_03DCu64,
        (((((((x1 & m1) | (x2 & m2)) & (m1 | m2)) | (x3 & m3)) & ((m1 | m2) | m3)) | (x4 & m4)) & (
        ((m1 | m2) | m3) | m4)) | (x5 & m5) == (if cacheable {
            0x304u64
        } else {
            0x200u64
        }) | (if read_only {
            0x80u64
        } else {
            0u64
        }) | (if never {
            0x0020_0000_0000_0000u64
        } else {
            0u64
        }) | 0x0040_0000_0000_0000u64,
{
}

proof fn lemma_page_bits(
    a: u64,
    av: u64,
    m1: u64,
    x1: u64,
    m2: u64,
    x2: u64,
    m3: u64,
    x3: u64,
    m4: u64,
    x4: u64,
)
    by (bit_vector)
    requires
        av & 0x0060_0000_0000_03DCu64 == av,
        m1 == 1u64 << 0u32,
        x1 == (1u64 & 1u64) << 0u32,
        m2 == 1u64 << 10u32,
        x2 == (1u64 & 1u64) << 10u32,
        m3 == 1u64 << 1u32,
        x3 == (1u64 & 1u64) << 1u32,
        m4 == 0xF_FFFF_FFFFu64 << 12u32,
        x4 == ((a >> 12u64) & 0xF_FFFF_FFFFu64) << 12u32,
    ensures
        ((((((((x1 & m1) | (x2 & m2)) & (m1 | m2)) | (av & 0x0060_0000_0000_03DCu64)) & ((m1 | m2)
            | 0x0060_0000_0000_03DCu64)) | (x3 & m3)) & (((m1 | m2) | 0x0060_0000_0000_03DCu64)
            | m3)) | (x4 & m4)) & ((((m1 | m2) | 0x0060_0000_0000_03DCu64) | m3) | m4) == 0x403u64
            | av | (a & 0x0000_FFFF_FFFF_F000u64),
{
}

proof fn lemma_attribute_bits_fit(cacheable: bool, read_only: bool, never: bool, av: u64)
    by (bit_vector)
    requires
        av == (if cacheable {
            0x304u64
        } else {
            0x200u64
        }) | (if read_only {
            0x80u64
        } else {
            0u64
        }) | (if never {
            0x0020_0000_0000_0000u64
        } else {
            0u64
        }) | 0x0040_0000_0000_0000u64,
    ensures
        av & 0x0060_0000_0000_03DCu64 == av,
{
}

proof fn lemma_decode_fields(bits: u64)
    by (bit_vector)
    ensures
        (bits & (0x7u64 << 2u32)) >> 2u32 == (bits >> 2u64) & 0x7u64,
        ((bits & (0x3u64 << 6u32)) >> 6u32 >= 2u64) <==> (bits & 0x80u64 == 0x80u64),
        (bits & (0x1u64 << 53u32) != 0u64) <==> (bits & 0x0020_0000_0000_0000u64 != 0u64),
{
}

proof fn lemma_page_round_trip(a: u64, cacheable: bool, read_only: bool, never: bool, d: u64)
    by (bit_vector)
    requires
        d == 0x403u64 | ((if cacheable {
            0x304u64
        } else {
            0x200u64
        }) | (if read_only {
            0x80u64
        } else {
            0u64
        }) | (if never {
            0x0020_0000_0000_0000u64
        } else {
            0u64
        }) | 0x0040_0000_0000_0000u64) | (a & 0x0000_FFFF_FFFF_F000u64),
    ensures
        d & 0x1u64 == 0x1u64,
        d & 0x2u64 == 0x2u64,
        d & 0x0000_FFFF_FFFF_F000u64 == a & 0x0000_FFFF_FFFF_F000u64,
        ((d >> 2u64) & 0x7u64 == 1u64) <==> cacheable,
        (d & 0x80u64 == 0x80u64) <==> read_only,
        (d & 0x0020_0000_0000_0000u64 != 0u64) <==> never,
{
}

proof fn lemma_table_round_trip(a: u64)
    by (bit_vector)
    ensures
        (0x3u64 | (a & 0x0000_FFFF_FFFF_F000u64)) & 0x1u64 == 0x1u64,
        (0x3u64 | (a & 0x0000_FFFF_FFFF_F000u64)) & 0x2u64 == 0x2u64,
        (0x3u64 | (a & 0x0000_FFFF_FFFF_F000u64)) & 0x0000_FFFF_FFFF_F000u64 == a
            & 0x0000_FFFF_FFFF_F000u64,
        0u64 & 0x1u64 != 0x1u64,
        (a % 4096u64 == 0u64 && a < 0x1_0000_0000_0000u64) ==> a & 0x0000_FFFF_FFFF_F000u64 == a,
        (a & 0x0000_FFFF_FFFF_F000u64) % 4096u64 == 0u64,
        a & 0x0000_FFFF_FFFF_F000u64 < 0x1_0000_0000_0000u64,
        a & 0x0000_FFFF_FFFF_F000u64 <= a,
{
}

/// A page descriptor is valid, has the table type, and gives back the page
/// address and the attributes that it was built from.
pub proof fn lemma_page_descriptor_round_trip(output_addr: u64, attributes: AttributeFields)
    ensures
        desc_valid(page_descriptor_bits(output_addr, attributes)),
        desc_type_table(page_descriptor_bits(output_addr, attributes)),
        desc_addr(page_descriptor_bits(output_addr, attributes)) == output_addr & ADDR_BITS,
        decode_attributes(page_descriptor_bits(output_addr, attributes)) == attributes,
{
    lemma_page_round_trip(
        output_addr,
        attributes.mem_attributes == MemAttributes::CacheableDRAM,
        attributes.acc_perms == AccessPermissions::ReadOnly,
        attributes.execute_never,
        page_descriptor_bits(output_addr, attributes),
    );
}

/// A table descriptor is valid, has the table type and gives back the
/// address that it was built from; the all-zero descriptor is invalid.
pub proof fn lemma_table_descriptor_round_trip(next: u64)
    ensures
        desc_valid(table_descriptor_bits(next)),
        desc_type_table(table_descriptor_bits(next)),
        desc_addr(table_descriptor_bits(next)) == next & ADDR_BITS,
        !desc_valid(0),
{
    lemma_table_round_trip(next);
}

proof fn lemma_addr_bits_mod(a: u64)
    by (bit_vector)
    requires
        a < 0x1_0000_0000_0000u64,
    ensures
        a & 0x0000_FFFF_FFFF_F000u64 == a - a % 4096u64,
{
}

/// The address bits of a number below 2^48 are the start of its granule.
pub proof fn lemma_addr_bits_page(a: u64)
    requires
        a < 0x1_0000_0000_0000,
    ensures
        a & ADDR_BITS == a - a % 4096,
{
    lemma_addr_bits_mod(a);
}

/// The address bits of a number are a multiple of the granule below 2^48,
/// and they are the number itself where it is such a multiple.
pub proof fn lemma_addr_bits(a: u64)
    ensures
        (a & ADDR_BITS) % 4096 == 0,
        a & ADDR_BITS < 0x1_0000_0000_0000,
        a & ADDR_BITS <= a,
        (a % 4096 == 0 && a < 0x1_0000_0000_0000) ==> a & ADDR_BITS == a,
{
    lemma_table_round_trip(a);
}

impl TableDescriptor {
    /// Create an instance.
    ///
    /// Descriptor is invalid by default.
    pub fn new_zeroed() -> (r: Self)
        ensures
            r.value == 0,
    {
        Self { value: 0 }
    }

    /// Create an instance pointing to the supplied address.
    pub fn from_next_lvl_table_addr(next_lvl_table_addr: Address<Physical>) -> (r: Self)
        ensures
            r.value == table_descriptor_bits(next_lvl_table_addr@ as u64),
    {
        proof {
            next_lvl_table_addr.lemma_bounds();
        }
        let addr = next_lvl_table_addr.into_usize() as u64;
        let shifted = addr >> 12;
        let valid = Field::new(0x1, VALID_SHIFT).val(1);
        let table = Field::new(0x1, TYPE_SHIFT).val(1);
        let next = Field::new(ADDR_FIELD_MASK, ADDR_SHIFT).val(shifted);
        let value = valid.with(table).with(next).written();
        proof {
            lemma_table_bits(
                addr,
                valid.mask,
                valid.value,
                table.mask,
                table.value,
                next.mask,
                next.value,
            );
        }
        TableDescriptor { value }
    }

    /// The address of the table that this descriptor points to.
    pub fn next_level_table_addr(&self) -> (r: u64)
        ensures
            r == desc_addr(self.value),
    {
        let field = Field::new(ADDR_FIELD_MASK, ADDR_SHIFT).read(self.value);
        proof {
            lemma_addr_read(self.value);
        }
        field << 12
    }
}

impl FieldValue {
    /// Convert the architecture agnostic attributes to the bits of a page
    /// descriptor.
    pub fn from(attribute_fields: AttributeFields) -> (r: FieldValue)
        ensures
            r.mask == ATTRIBUTE_BITS,
            r.value == attribute_bits(attribute_fields),
    {
        let sh = Field::new(0x3, SH_SHIFT);
        let idx = Field::new(0x7, ATTR_INDX_SHIFT);
        // Memory attributes.
        let (sh_v, idx_v) = match attribute_fields.mem_attributes {
            MemAttributes::CacheableDRAM => (sh.val(SH_INNER), idx.val(mair::NORMAL)),
            MemAttributes::Device => (sh.val(SH_OUTER), idx.val(mair::DEVICE)),
        };
        // Access Permissions.
        let ap_v = match attribute_fields.acc_perms {
            AccessPermissions::ReadOnly => Field::new(0x3, AP_SHIFT).val(AP_RO_EL1),
            AccessPermissions::ReadWrite => Field::new(0x3, AP_SHIFT).val(AP_RW_EL1),
        };
        // The execute-never attribute is mapped to PXN in AArch64.
        let pxn_v = if attribute_fields.execute_never {
            Field::new(0x1, PXN_SHIFT).val(1)
        } else {
            Field::new(0x1, PXN_SHIFT).val(0)
        };
        // Unprivileged code never executes: there is no userspace.
        let uxn_v = Field::new(0x1, UXN_SHIFT).val(1);
        let desc = sh_v.with(idx_v).with(ap_v).with(pxn_v).with(uxn_v);
        proof {
            let bits = lemma_attribute_bits(
                attribute_fields.mem_attributes == MemAttributes::CacheableDRAM,
                attribute_fields.acc_perms == AccessPermissions::ReadOnly,
                attribute_fields.execute_never,
                sh_v,
                idx_v,
                ap_v,
                pxn_v,
                uxn_v,
            );
            assert(desc == FieldValue { mask: bits.0, value: bits.1 });
            assert(bits.1 == attribute_bits(attribute_fields));
            assert(desc == FieldValue {
                mask: ATTRIBUTE_BITS,
                value: attribute_bits(attribute_fields),
            });
        }
        desc
    }
}

impl PageDescriptor {
    /// The descriptor that maps to the page of `output_addr` with
    /// `attributes`: valid, of the table type, with the access flag set.
    pub fn from_output_addr(output_addr: Address<Physical>, attributes: AttributeFields) -> (r:
        Self)
        ensures
            r.value == page_descriptor_bits(output_addr@ as u64, attributes),
    {
        proof {
            output_addr.lemma_bounds();
        }
        let addr = output_addr.into_usize() as u64;
        let shifted = addr >> 12;
        let valid = Field::new(0x1, VALID_SHIFT).val(1);
        let af = Field::new(0x1, AF_SHIFT).val(1);
        let attrs = FieldValue::from(attributes);
        let table = Field::new(0x1, TYPE_SHIFT).val(1);
        let out = Field::new(ADDR_FIELD_MASK, ADDR_SHIFT).val(shifted);
        let value = valid.with(af).with(attrs).with(table).with(out).written();
        proof {
            lemma_attribute_bits_fit(
                attributes.mem_attributes == MemAttributes::CacheableDRAM,
                attributes.acc_perms == AccessPermissions::ReadOnly,
                attributes.execute_never,
                attrs.value,
            );
            lemma_page_bits(
                addr,
                attrs.value,
                valid.mask,
                valid.value,
                af.mask,
                af.value,
                table.mask,
                table.value,
                out.mask,
                out.value,
            );
        }
        PageDescriptor { value }
    }

    /// The address of the page that this descriptor maps to.
    pub fn output_addr(&self) -> (r: u64)
        ensures
            r == desc_addr(self.value),
    {
        let field = Field::new(ADDR_FIELD_MASK, ADDR_SHIFT).read(self.value);
        proof {
            lemma_addr_read(self.value);
        }
        field << 12
    }

    /// The attributes that this descriptor gives its page.
    pub fn attributes(&self) -> (r: AttributeFields)
        ensures
            r == decode_attributes(self.value),
    {
        let idx = Field::new(0x7, ATTR_INDX_SHIFT).read(self.value);
        let ap = Field::new(0x3, AP_SHIFT).read(self.value);
        let never = Field::new(0x1, PXN_SHIFT).is_set(self.value);
        proof {
            lemma_decode_fields(self.value);
        }
        AttributeFields {
            mem_attributes: if idx == mair::NORMAL {
                MemAttributes::CacheableDRAM
            } else {
                MemAttributes::Device
            },
            acc_perms: if ap >= AP_RO_EL1 {
                AccessPermissions::ReadOnly
            } else {
                AccessPermissions::ReadWrite
            },
            execute_never: never,
        }
    }
}

impl EntryType {
    /// Classifies the entry of a table of the given level. A valid entry
    /// with the table type is a page at level 3 and a table above it; a
    /// valid entry with the block type is a block at levels 1 and 2, which
    /// alone allow one: at level 0 and at level 3 the answer is `None`.
    pub fn from_entry(entry: &TableDescriptor, level: MmuLevel) -> (r: Option<EntryType>)
        ensures
            r == entry_type_spec(entry.value, level),
    {
        let valid_true = Field::new(0x1, VALID_SHIFT).val(1);
        let valid = valid_true.matches_all(entry.value);
        proof {
            lemma_flag_bits(entry.value, VALID_SHIFT, valid_true.mask, valid_true.value);
        }
        if !valid {
            return Some(EntryType::Invalid);
        }
        let type_table = Field::new(0x1, TYPE_SHIFT).val(1);
        let is_table = type_table.matches_all(entry.value);
        proof {
            lemma_flag_bits(entry.value, TYPE_SHIFT, type_table.mask, type_table.value);
        }
        if is_table {
            if level == MmuLevel::Level3 {
                Some(EntryType::Page(PageDescriptor { value: entry.value }))
            } else {
                Some(EntryType::Table(TableDescriptor { value: entry.value }))
            }
        } else {
            match level {
                MmuLevel::Level1 | MmuLevel::Level2 => Some(
                    EntryType::Block(TableDescriptor { value: entry.value }),
                ),
                MmuLevel::Level0 | MmuLevel::Level3 => None,
            }
        }
    }
}

} // verus!
