//! Translation granules, address space sizes, and the table of special
//! memory ranges of a kernel.

use vstd::prelude::*;
use vstd::arithmetic::power2::{is_pow2, pow2};
use vstd::string::StringExecFns;
use crate::memory::{AccessPermissions, AttributeFields, MemAttributes};
use crate::text::{hex10, hex10_spec, right3, right3_spec};

verus! {

/// Describes the characteristics of a translation granule.
pub struct TranslationGranule<const GRANULE_SIZE: usize>;

/// Describes the size of an address space.
pub struct AddressSpaceSize<const AS_SIZE: usize>;

/// The granule of 4 KiB.
pub type Granule4KiB = TranslationGranule<4096>;

/// The granule of 16 KiB.
pub type Granule16KiB = TranslationGranule<16384>;

/// The granule of 64 KiB.
pub type Granule64KiB = TranslationGranule<65536>;

/// The binary logarithm of `size`, a power of two.
fn log2(size: usize) -> (r: usize)
    requires
        is_pow2(size as int),
    ensures
        pow2(r as nat) == size,
        r < usize::BITS,
{
    let mut rest = size;
    let mut shift: usize = 0;
    proof {
        vstd::arithmetic::power2::lemma2_to64();
        reveal(is_pow2);
    }
    while rest > 1
        invariant
            is_pow2(rest as int),
            rest * pow2(shift as nat) == size,
            shift < usize::BITS,
            rest >= 1,
        decreases rest,
    {
        proof {
            reveal(is_pow2);
            vstd::arithmetic::power2::lemma_pow2_unfold((shift + 1) as nat);
            assert(rest == 2 * (rest / 2));
            assert((rest / 2) * pow2((shift + 1) as nat) == size) by (nonlinear_arith)
                requires
                    rest == 2 * (rest / 2),
                    rest * pow2(shift as nat) == size,
                    pow2((shift + 1) as nat) == 2 * pow2(shift as nat),
            ;
            if shift + 1 >= usize::BITS {
                vstd::arithmetic::power2::lemma2_to64();
                if shift + 1 > usize::BITS {
                    vstd::arithmetic::power2::lemma_pow2_strictly_increases(
                        usize::BITS as nat,
                        (shift + 1) as nat,
                    );
                }
                assert(pow2((shift + 1) as nat) > usize::MAX);
                assert((rest / 2) * pow2((shift + 1) as nat) >= pow2((shift + 1) as nat))
                    by (nonlinear_arith)
                    requires
                        rest / 2 >= 1,
                ;
                assert(false);
            }
        }
        rest = rest / 2;
        shift = shift + 1;
    }
    shift
}

impl<const GRANULE_SIZE: usize> TranslationGranule<GRANULE_SIZE> {
    /// The granule's size, which has to be a power of two.
    pub fn size() -> (r: usize)
        requires
            is_pow2(GRANULE_SIZE as int),
        ensures
            r == GRANULE_SIZE,
    {
        Self::size_checked()
    }

    /// The granule's shift, aka log2(size).
    pub fn shift() -> (r: usize)
        requires
            is_pow2(GRANULE_SIZE as int),
        ensures
            pow2(r as nat) == GRANULE_SIZE,
    {
        log2(Self::size_checked())
    }

    fn size_checked() -> (r: usize)
        requires
            is_pow2(GRANULE_SIZE as int),
        ensures
            r == GRANULE_SIZE,
    {
        GRANULE_SIZE
    }
}

impl<const AS_SIZE: usize> AddressSpaceSize<AS_SIZE> {
    /// The address space size, which has to be a power of two.
    pub fn size() -> (r: usize)
        requires
            is_pow2(AS_SIZE as int),
        ensures
            r == AS_SIZE,
    {
        Self::size_checked()
    }

    /// The address space shift, aka log2(size).
    pub fn shift() -> (r: usize)
        requires
            is_pow2(AS_SIZE as int),
        ensures
            pow2(r as nat) == AS_SIZE,
    {
        log2(Self::size_checked())
    }

    fn size_checked() -> (r: usize)
        requires
            is_pow2(AS_SIZE as int),
        ensures
            r == AS_SIZE,
    {
        AS_SIZE
    }
}

/// Architecture agnostic translation types.
#[derive(Copy, Clone, Debug, PartialEq, Eq, Structural)]
pub enum Translation {
    Identity,
    Offset(usize),
}

/// Architecture agnostic descriptor for a memory range: the inclusive
/// range of virtual addresses, where it goes, and with what attributes.
#[derive(Copy, Clone, Debug)]
pub struct TranslationDescriptor {
    pub name: &'static str,
    pub virtual_range: (usize, usize),
    pub physical_range_translation: Translation,
    pub attribute_fields: AttributeFields,
}

impl TranslationDescriptor {
    /// The invariant of a descriptor: its range is not empty and does not
    /// span the whole machine word, and an offset translation keeps it
    /// within the machine word.
    pub open spec fn wf(&self) -> bool {
        &&& self.virtual_range.0 <= self.virtual_range.1
        &&& self.virtual_range.1 - self.virtual_range.0 < usize::MAX
        &&& self.physical_range_translation matches Translation::Offset(a) ==> a + (
        self.virtual_range.1 - self.virtual_range.0) <= usize::MAX
    }

    /// Whether the range holds the address.
    pub open spec fn contains(&self, virt_addr: usize) -> bool {
        self.virtual_range.0 <= virt_addr <= self.virtual_range.1
    }

    /// Where the range sends the address.
    pub open spec fn output(&self, virt_addr: usize) -> int {
        match self.physical_range_translation {
            Translation::Identity => virt_addr as int,
            Translation::Offset(a) => a + (virt_addr - self.virtual_range.0),
        }
    }

    /// The size of the range in bytes.
    pub open spec fn size_spec(&self) -> int {
        self.virtual_range.1 - self.virtual_range.0 + 1
    }

    /// The size as the report shows it: in MiB from one MiB on, in KiB from
    /// one KiB on, in bytes below; parts of a unit are dropped.
    pub open spec fn shown_size(&self) -> (int, Seq<char>) {
        if self.size_spec() / 0x10_0000 > 0 {
            (self.size_spec() / 0x10_0000, "MiB"@)
        } else if self.size_spec() / 0x400 > 0 {
            (self.size_spec() / 0x400, "KiB"@)
        } else {
            (self.size_spec(), "Byte"@)
        }
    }

    /// The kind of memory as the report shows it, three characters wide.
    pub open spec fn shown_kind(&self) -> Seq<char> {
        match self.attribute_fields.mem_attributes {
            MemAttributes::CacheableDRAM => "C  "@,
            MemAttributes::Device => "Dev"@,
        }
    }

    /// The access permission as the report shows it.
    pub open spec fn shown_access(&self) -> Seq<char> {
        match self.attribute_fields.acc_perms {
            AccessPermissions::ReadOnly => "RO"@,
            AccessPermissions::ReadWrite => "RW"@,
        }
    }

    /// Whether the range is executable as the report shows it, three
    /// characters wide.
    pub open spec fn shown_execute(&self) -> Seq<char> {
        if self.attribute_fields.execute_never {
            "PXN"@
        } else {
            "PX "@
        }
    }

    /// The line of the report for the range.
    pub open spec fn text_spec(&self) -> Seq<char> {
        "      "@ + hex10_spec(self.virtual_range.0 as u64) + " - "@ + hex10_spec(
            self.virtual_range.1 as u64,
        ) + " | "@ + right3_spec(self.shown_size().0 as u64) + " "@ + self.shown_size().1 + " | "@
            + self.shown_kind() + " "@ + self.shown_access() + " "@ + self.shown_execute() + " | "@
            + self.name@
    }

    /// The size of the range with its unit, as the report shows it.
    pub fn size_and_unit(&self) -> (r: (usize, &'static str))
        requires
            self.wf(),
        ensures
            r.0 == self.shown_size().0,
            r.1@ == self.shown_size().1,
    {
        let size = self.virtual_range.1 - self.virtual_range.0 + 1;
        if size / 0x10_0000 > 0 {
            (size / 0x10_0000, "MiB")
        } else if size / 0x400 > 0 {
            (size / 0x400, "KiB")
        } else {
            (size, "Byte")
        }
    }

    /// Human-readable output of a TranslationDescriptor.
    pub fn to_text(&self) -> (r: String)
        requires
            self.wf(),
        ensures
            r@ == self.text_spec(),
    {
        let (size, unit) = self.size_and_unit();
        let attr = match self.attribute_fields.mem_attributes {
            MemAttributes::CacheableDRAM => "C  ",
            MemAttributes::Device => "Dev",
        };
        let acc_p = match self.attribute_fields.acc_perms {
            AccessPermissions::ReadOnly => "RO",
            AccessPermissions::ReadWrite => "RW",
        };
        let xn = if self.attribute_fields.execute_never {
            "PXN"
        } else {
            "PX "
        };
        let mut out = String::from_str("      ");
        out.append(hex10(self.virtual_range.0 as u64).as_str());
        out.append(" - ");
        out.append(hex10(self.virtual_range.1 as u64).as_str());
        out.append(" | ");
        out.append(right3(size as u64).as_str());
        out.append(" ");
        out.append(unit);
        out.append(" | ");
        out.append(attr);
        out.append(" ");
        out.append(acc_p);
        out.append(" ");
        out.append(xn);
        out.append(" | ");
        out.append(self.name);
        out
    }
}

/// The index of the first range from `from` on that holds the address.
pub open spec fn first_match(ranges: Seq<TranslationDescriptor>, virt_addr: usize, from: int) -> Option<
    int,
>
    decreases ranges.len() - from,
{
    if from < 0 || from >= ranges.len() {
        None
    } else if ranges[from].contains(virt_addr) {
        Some(from)
    } else {
        first_match(ranges, virt_addr, from + 1)
    }
}

/// The first match is a range of the list that holds the address.
pub proof fn lemma_first_match(ranges: Seq<TranslationDescriptor>, virt_addr: usize, from: int)
    requires
        0 <= from,
    ensures
        first_match(ranges, virt_addr, from) matches Some(i) ==> from <= i < ranges.len()
            && ranges[i].contains(virt_addr),
    decreases ranges.len() - from,
{
    if from < ranges.len() && !ranges[from].contains(virt_addr) {
        lemma_first_match(ranges, virt_addr, from + 1);
    }
}

/// Type for expressing the kernel's virtual memory layout.
pub struct KernelVirtualLayout<const NUM_SPECIAL_RANGES: usize> {
    /// The last (inclusive) address of the address space.
    max_virt_addr_inclusive: usize,
    /// Array of descriptors for non-standard (normal cacheable DRAM) memory
    /// regions.
    inner: [TranslationDescriptor; NUM_SPECIAL_RANGES],
}

impl<const NUM_SPECIAL_RANGES: usize> KernelVirtualLayout<NUM_SPECIAL_RANGES> {
    /// The last address of the address space.
    pub closed spec fn max(&self) -> usize {
        self.max_virt_addr_inclusive
    }

    /// The special ranges, in the order in which they are searched.
    pub closed spec fn ranges(&self) -> Seq<TranslationDescriptor> {
        self.inner@
    }

    /// The invariant of a layout: each of its ranges is in order.
    pub open spec fn wf(&self) -> bool {
        forall|i: int| 0 <= i < self.ranges().len() ==> (#[trigger] self.ranges()[i]).wf()
    }

    /// What an address of the layout is mapped to, and how: by the first
    /// special range that holds it, and else onto itself as cacheable,
    /// writable memory that is not executable. Addresses above the address
    /// space are refused.
    pub open spec fn properties_spec(&self, virt_addr: usize) -> Result<
        (int, AttributeFields),
        &'static str,
    > {
        if virt_addr > self.max() {
            Err("Address out of range")
        } else {
            match first_match(self.ranges(), virt_addr, 0) {
                Some(i) => Ok(
                    (self.ranges()[i].output(virt_addr), self.ranges()[i].attribute_fields),
                ),
                None => Ok(
                    (
                        virt_addr as int,
                        AttributeFields {
                            mem_attributes: MemAttributes::CacheableDRAM,
                            acc_perms: AccessPermissions::ReadWrite,
                            execute_never: true,
                        },
                    ),
                ),
            }
        }
    }

    /// Whether the address that `virt_addr` is sent to fits the machine
    /// word: an offset translation may lead beyond it.
    pub open spec fn output_fits(&self, virt_addr: usize) -> bool {
        match self.properties_spec(virt_addr) {
            Ok(found) => found.0 <= usize::MAX,
            Err(_) => true,
        }
    }

    /// In a layout that is in order every address is sent to one that fits
    /// the machine word.
    pub proof fn lemma_output_fits(&self, virt_addr: usize)
        requires
            self.wf(),
        ensures
            self.output_fits(virt_addr),
    {
        match first_match(self.ranges(), virt_addr, 0) {
            Some(i) => {
                lemma_first_match(self.ranges(), virt_addr, 0);
                assert(self.ranges()[i].wf());
            },
            None => {},
        }
    }

    /// Create a new instance.
    pub fn new(max: usize, layout: [TranslationDescriptor; NUM_SPECIAL_RANGES]) -> (r: Self)
        ensures
            r.max() == max,
            r.ranges() == layout@,
    {
        Self { max_virt_addr_inclusive: max, inner: layout }
    }

    /// For a virtual address, find and return the physical output address
    /// and corresponding attributes.
    ///
    /// If the address is not found in the special ranges, return an
    /// identity mapped default with normal cacheable DRAM attributes. A
    /// range whose start lies above its end holds no address.
    pub fn virt_addr_properties(&self, virt_addr: usize) -> (r: Result<
        (usize, AttributeFields),
        &'static str,
    >)
        requires
            self.output_fits(virt_addr),
        ensures
            r matches Ok(found) ==> self.properties_spec(virt_addr) == Ok::<
                (int, AttributeFields),
                &str,
            >((found.0 as int, found.1)),
            r matches Err(e) ==> self.properties_spec(virt_addr) == Err::<
                (int, AttributeFields),
                &str,
            >(e),
    {
        if virt_addr > self.max_virt_addr_inclusive {
            return Err("Address out of range");
        }
        let mut i: usize = 0;
        while i < NUM_SPECIAL_RANGES
            invariant
                self.output_fits(virt_addr),
                virt_addr <= self.max_virt_addr_inclusive,
                i <= NUM_SPECIAL_RANGES,
                self.inner@.len() == NUM_SPECIAL_RANGES,
                first_match(self.inner@, virt_addr, 0) == first_match(
                    self.inner@,
                    virt_addr,
                    i as int,
                ),
            decreases NUM_SPECIAL_RANGES - i,
        {
            let range = &self.inner[i];
            if range.virtual_range.0 <= virt_addr && virt_addr <= range.virtual_range.1 {
                proof {
                    assert(*range == self.inner@[i as int]);
                    assert(range.contains(virt_addr));
                    assert(first_match(self.inner@, virt_addr, i as int) == Some(i as int));
                    assert(first_match(self.ranges(), virt_addr, 0) == Some(i as int));
                }
                let output_addr = match range.physical_range_translation {
                    Translation::Identity => virt_addr,
                    Translation::Offset(a) => a + (virt_addr - range.virtual_range.0),
                };
                return Ok((output_addr, range.attribute_fields));
            }
            i = i + 1;
        }
        Ok((virt_addr, AttributeFields::default()))
    }

    /// The memory layout as text, one line for each special range.
    pub fn print_layout(&self) -> (r: Vec<String>)
        requires
            self.wf(),
        ensures
            r@.len() == self.ranges().len(),
            forall|i: int| 0 <= i < r@.len() ==> (#[trigger] r@[i])@ == self.ranges()[i].text_spec(),
    {
        let mut lines: Vec<String> = Vec::new();
        let mut i: usize = 0;
        while i < NUM_SPECIAL_RANGES
            invariant
                self.wf(),
                i <= NUM_SPECIAL_RANGES,
                self.inner@.len() == NUM_SPECIAL_RANGES,
                lines@.len() == i,
                forall|j: int| 0 <= j < i ==> (#[trigger] lines@[j])@ == self.inner@[j].text_spec(),
            decreases NUM_SPECIAL_RANGES - i,
        {
            proof {
                assert(self.ranges()[i as int].wf());
            }
            lines.push(self.inner[i].to_text());
            i = i + 1;
        }
        lines
    }
}

} // verus!
