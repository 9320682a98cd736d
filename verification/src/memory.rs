//! Typed addresses, address ranges, memory attributes and page ownership.

use core::marker::PhantomData;
use vstd::prelude::*;
use vstd::arithmetic::power2::is_pow2;
use crate::common::{align_down, align_down_spec, align_up, align_up_spec, is_aligned, is_aligned_spec};
use vstd::string::StringExecFns;
use crate::config::GRANULE_SIZE;
use crate::text::{hex, hex_spec};

verus! {

/// Marks the address space that an [`Address`] belongs to.
pub trait AddressType: Copy {

}

/// Marker of physical addresses.
#[derive(Copy, Clone, Debug)]
pub struct Physical;

/// Marker of virtual addresses.
#[derive(Copy, Clone, Debug)]
pub struct Virtual;

impl AddressType for Physical {

}

impl AddressType for Virtual {

}

/// An address of one address space. Addresses of different spaces are
/// different types; only an [`AddrMapper`] turns one into the other.
pub struct Address<ATYPE: AddressType> {
    value: usize,
    _address_type: PhantomData<ATYPE>,
}

impl<ATYPE: AddressType> Clone for Address<ATYPE> {
    fn clone(&self) -> (r: Self)
        ensures
            r == *self,
    {
        *self
    }
}

impl<ATYPE: AddressType> Copy for Address<ATYPE> {

}

impl<ATYPE: AddressType> View for Address<ATYPE> {
    type V = int;

    /// The address as a number.
    closed spec fn view(&self) -> int {
        self.value as int
    }
}

impl<ATYPE: AddressType> Address<ATYPE> {
    /// The bounds of the machine word hold of every address.
    pub proof fn lemma_bounds(self)
        ensures
            0 <= self@ <= usize::MAX,
    {
    }

    /// The address with the given number.
    pub closed spec fn at(value: usize) -> Self {
        Address { value, _address_type: PhantomData }
    }

    /// The address with a number is that number.
    pub proof fn lemma_at(value: usize)
        ensures
            Self::at(value)@ == value,
    {
    }

    /// Create an instance.
    pub fn new(value: usize) -> (r: Self)
        ensures
            r@ == value,
            r == Self::at(value),
    {
        Self { value, _address_type: PhantomData }
    }

    /// Align down to a power of two.
    pub fn align_down(self, alignment: usize) -> (r: Self)
        requires
            is_pow2(alignment as int),
        ensures
            r@ == align_down_spec(self@, alignment as int),
    {
        Self { value: align_down(self.value, alignment), _address_type: PhantomData }
    }

    /// Align up to a power of two; the result has to fit the machine word.
    pub fn align_up(self, alignment: usize) -> (r: Self)
        requires
            is_pow2(alignment as int),
            align_up_spec(self@, alignment as int) <= usize::MAX,
        ensures
            r@ == align_up_spec(self@, alignment as int),
    {
        Self { value: align_up(self.value, alignment), _address_type: PhantomData }
    }

    /// Whether the address is a multiple of `alignment`, a power of two.
    pub fn is_aligned(&self, alignment: usize) -> (r: bool)
        requires
            is_pow2(alignment as int),
        ensures
            r == is_aligned_spec(self@, alignment as int),
    {
        is_aligned(self.value, alignment)
    }

    /// Converts `Address` into an usize.
    pub fn into_usize(self) -> (r: usize)
        ensures
            r == self@,
    {
        self.value
    }

    /// The address as text: in hexadecimal.
    pub fn to_text(&self) -> (r: String)
        ensures
            r@ == hex_spec(self@ as u64),
    {
        hex(self.value as u64)
    }

    /// The address `other` bytes above this one.
    pub fn add(self, other: usize) -> (r: Self)
        requires
            self@ + other <= usize::MAX,
        ensures
            r@ == self@ + other,
            r == Self::at((self@ + other) as usize),
    {
        Self { value: self.value + other, _address_type: PhantomData }
    }

    /// The address `other` bytes below this one.
    pub fn sub(self, other: usize) -> (r: Self)
        requires
            other <= self@,
        ensures
            r@ == self@ - other,
    {
        Self { value: self.value - other, _address_type: PhantomData }
    }
}

/// A run of bytes of one address space: a base and a size whose sum, the
/// exclusive end, fits the machine word.
pub struct AddressRange<ATYPE: AddressType> {
    addr: Address<ATYPE>,
    size: usize,
}

impl<ATYPE: AddressType> Clone for AddressRange<ATYPE> {
    fn clone(&self) -> (r: Self)
        ensures
            r == *self,
    {
        *self
    }
}

impl<ATYPE: AddressType> Copy for AddressRange<ATYPE> {

}

/// Number of granules that a run of `size` bytes touches when it starts on a
/// granule boundary.
pub open spec fn page_count_spec(size: int) -> int {
    (size + GRANULE_SIZE - 1) / (GRANULE_SIZE as int)
}

impl<ATYPE: AddressType> AddressRange<ATYPE> {
    /// The base address as a number.
    pub closed spec fn base(&self) -> int {
        self.addr@
    }

    /// The size in bytes.
    pub closed spec fn len(&self) -> int {
        self.size as int
    }

    /// The invariant of a range: its exclusive end is an address.
    pub open spec fn wf(&self) -> bool {
        self.base() + self.len() <= usize::MAX
    }

    /// The addresses that [`AddressRange::pages`] yields: one per granule,
    /// from the base upwards.
    pub open spec fn pages_spec(&self) -> Seq<int> {
        Seq::new(page_count_spec(self.len()) as nat, |i: int| self.base() + i * GRANULE_SIZE)
    }

    /// Base and size are machine words.
    pub proof fn lemma_bounds(self)
        ensures
            0 <= self.base() <= usize::MAX,
            0 <= self.len() <= usize::MAX,
    {
    }

    /// A range from its base and size.
    pub fn new(addr: Address<ATYPE>, size: usize) -> (r: Self)
        requires
            addr@ + size <= usize::MAX,
        ensures
            r.wf(),
            r.base() == addr@,
            r.len() == size,
    {
        Self { addr, size }
    }

    /// The range between two addresses, the second not below the first.
    pub fn new_range(start: Address<ATYPE>, end: Address<ATYPE>) -> (r: Self)
        requires
            start@ <= end@,
        ensures
            r.wf(),
            r.base() == start@,
            r.len() == end@ - start@,
    {
        Self { addr: start, size: end.into_usize() - start.into_usize() }
    }

    /// A range from a raw base and size.
    pub fn new_raw(addr: usize, size: usize) -> (r: Self)
        requires
            addr + size <= usize::MAX,
        ensures
            r.wf(),
            r.base() == addr,
            r.len() == size,
    {
        Self { addr: Address::new(addr), size }
    }

    /// The base address.
    pub fn addr(&self) -> (r: Address<ATYPE>)
        ensures
            r@ == self.base(),
    {
        self.addr
    }

    /// The size in bytes.
    pub fn size(&self) -> (r: usize)
        ensures
            r == self.len(),
    {
        self.size
    }

    /// The exclusive end.
    pub fn end(&self) -> (r: Address<ATYPE>)
        requires
            self.wf(),
        ensures
            r@ == self.base() + self.len(),
    {
        self.addr.add(self.size)
    }

    /// The numbers of the first byte and of the exclusive end.
    pub fn range(&self) -> (r: (usize, usize))
        requires
            self.wf(),
        ensures
            r.0 == self.base(),
            r.1 == self.base() + self.len(),
    {
        (self.addr.into_usize(), self.addr.into_usize() + self.size)
    }

    /// The range as text.
    pub open spec fn text_spec(&self) -> Seq<char> {
        hex_spec(self.base() as u64) + " + "@ + hex_spec(self.len() as u64)
    }

    /// The range as text: base and size in hexadecimal.
    pub fn to_text(&self) -> (r: String)
        ensures
            r@ == self.text_spec(),
    {
        let mut out = self.addr.to_text();
        out.append(" + ");
        out.append(hex(self.size as u64).as_str());
        out
    }

    /// The address of every granule-sized step of the range, in rising
    /// order: the base, then one granule further each time, as long as the
    /// address lies below the end.
    pub fn pages(&self) -> (r: Vec<Address<ATYPE>>)
        requires
            self.wf(),
        ensures
            r@.len() == self.pages_spec().len(),
            forall|i: int| 0 <= i < r@.len() ==> (#[trigger] r@[i])@ == self.pages_spec()[i],
    {
        let base = self.addr.into_usize();
        let end = base + self.size;
        let mut out: Vec<Address<ATYPE>> = Vec::new();
        let mut next = base;
        proof {
            lemma_page_count(self.len());
        }
        while next < end
            invariant
                base == self.base(),
                end == base + self.len(),
                end <= usize::MAX,
                out@.len() <= page_count_spec(self.len()),
                out@.len() < page_count_spec(self.len()) ==> next == base + out@.len()
                    * GRANULE_SIZE,
                out@.len() == page_count_spec(self.len()) ==> next == end,
                forall|i: int|
                    0 <= i < out@.len() ==> (#[trigger] out@[i])@ == base + i * GRANULE_SIZE,
            decreases end - next,
        {
            proof {
                lemma_page_count(self.len());
            }
            out.push(Address::new(next));
            if end - next <= GRANULE_SIZE {
                next = end;
            } else {
                next = next + GRANULE_SIZE;
            }
        }
        out
    }
}

/// Turns physical addresses into the virtual addresses under which the
/// running code reaches them.
pub trait AddrMapper {
    /// The virtual address that stands for the physical address `paddr`.
    spec fn vaddr_of(paddr: int) -> int;

    /// Maps one physical address.
    fn map_to_vaddr(paddr: Address<Physical>) -> (v: Address<Virtual>)
        ensures
            v@ == Self::vaddr_of(paddr@),
    ;

    /// Maps a physical range to the virtual range of the same size that
    /// starts where its base is mapped to. The mapped range has to end within
    /// the machine word.
    fn map_to_vrange(prange: AddressRange<Physical>) -> (r: AddressRange<Virtual>)
        requires
            Self::vaddr_of(prange.base()) + prange.len() <= usize::MAX,
        ensures
            r.wf(),
            r.base() == Self::vaddr_of(prange.base()),
            r.len() == prange.len(),
    {
        AddressRange::new(Self::map_to_vaddr(prange.addr()), prange.size())
    }
}

/// The mapper under which every physical address is its own virtual address.
pub struct IdentMapper;

impl AddrMapper for IdentMapper {
    open spec fn vaddr_of(paddr: int) -> int {
        paddr
    }

    fn map_to_vaddr(paddr: Address<Physical>) -> (v: Address<Virtual>) {
        Address::new(paddr.into_usize())
    }
}

/// Architecture agnostic memory attributes.
#[derive(Copy, Clone, Debug, PartialEq, Eq, Structural)]
pub enum MemAttributes {
    CacheableDRAM,
    Device,
}

/// Architecture agnostic access permissions.
#[derive(Copy, Clone, Debug, PartialEq, Eq, Structural)]
pub enum AccessPermissions {
    ReadOnly,
    ReadWrite,
}

/// Collection of memory attributes.
#[derive(Copy, Clone, Debug, PartialEq, Eq, Structural)]
pub struct AttributeFields {
    pub mem_attributes: MemAttributes,
    pub acc_perms: AccessPermissions,
    pub execute_never: bool,
}

impl Default for AttributeFields {
    /// Cacheable, writable, not executable.
    fn default() -> (r: AttributeFields)
        ensures
            r == (AttributeFields {
                mem_attributes: MemAttributes::CacheableDRAM,
                acc_perms: AccessPermissions::ReadWrite,
                execute_never: true,
            }),
    {
        AttributeFields {
            mem_attributes: MemAttributes::CacheableDRAM,
            acc_perms: AccessPermissions::ReadWrite,
            execute_never: true,
        }
    }
}

/// Hands out runs of physical pages.
///
/// `inv` is whatever the allocator needs to hold between calls; the caller
/// keeps it by only touching the allocator through these methods.
pub trait PageAllocator: Sized {
    /// The allocator's own invariant.
    spec fn inv(&self) -> bool;

    /// What a request for `num` pages makes of the allocator, and what it
    /// answers: the address of the first page, or the error. An allocator
    /// decides by its own state and the request alone.
    spec fn alloc_spec(&self, num: usize) -> (Self, Result<int, &'static str>);

    /// Asks for `num` contiguous pages. What comes back on success is a
    /// well-formed handle to exactly `num` pages; whether the request
    /// succeeds is the allocator's decision.
    fn alloc_pages(&mut self, num: usize) -> (r: Result<Page<Self>, &'static str>)
        requires
            old(self).inv(),
        ensures
            final(self).inv(),
            *final(self) == old(self).alloc_spec(num).0,
            r matches Ok(p) ==> p.wf() && p.num_spec() == num && old(self).alloc_spec(num).1
                == Ok::<int, &str>(p.base_spec()),
            r matches Err(e) ==> old(self).alloc_spec(num).1 == Err::<int, &str>(e),
    ;

    /// What handing back `num` pages from `base` makes of the allocator,
    /// and what it answers.
    spec fn free_spec(&self, base: int, num: int) -> (Self, Result<(), &'static str>);

    /// Takes pages back. An allocator that never reclaims may refuse.
    fn free_pages(&mut self, pages: &mut Page<Self>) -> (r: Result<(), &'static str>)
        requires
            old(self).inv(),
            old(pages).wf(),
        ensures
            final(self).inv(),
            final(pages).wf(),
            (*final(self), r) == old(self).free_spec(old(pages).base_spec(), old(pages).num_spec()),
    ;
}

/// An owned handle to a contiguous run of physical pages that starts on a
/// granule boundary and ends within the machine word. `ALLOC` is the
/// allocator that the pages came from.
pub struct Page<ALLOC> {
    base: Address<Physical>,
    num: usize,
    allocator: PhantomData<ALLOC>,
}

impl<ALLOC> Page<ALLOC> {
    /// The address of the first page.
    pub closed spec fn base_spec(&self) -> int {
        self.base@
    }

    /// The number of pages.
    pub closed spec fn num_spec(&self) -> int {
        self.num as int
    }

    /// The invariant of a handle.
    pub open spec fn wf(&self) -> bool {
        &&& self.base_spec() % (GRANULE_SIZE as int) == 0
        &&& self.base_spec() + self.num_spec() * GRANULE_SIZE <= usize::MAX
    }

    /// Base and count are machine words.
    pub proof fn lemma_bounds(self)
        ensures
            0 <= self.base_spec() <= usize::MAX,
            0 <= self.num_spec() <= usize::MAX,
    {
    }

    /// A handle to `num` pages from `base`, which has to lie on a granule
    /// boundary; the run has to end within the machine word.
    pub fn from_raw(base: Address<Physical>, num: usize) -> (r: Self)
        requires
            base@ % (GRANULE_SIZE as int) == 0,
            base@ + num * GRANULE_SIZE <= usize::MAX,
        ensures
            r.wf(),
            r.base_spec() == base@,
            r.num_spec() == num,
    {
        Self { base, num, allocator: PhantomData }
    }

    /// The address of the first page.
    pub fn base(&self) -> (r: Address<Physical>)
        ensures
            r@ == self.base_spec(),
    {
        self.base
    }

    /// The size of the run in bytes.
    pub fn size(&self) -> (r: usize)
        requires
            self.wf(),
        ensures
            r == self.num_spec() * GRANULE_SIZE,
    {
        self.num * GRANULE_SIZE
    }

    /// The number of pages.
    pub fn page_num(&self) -> (r: usize)
        ensures
            r == self.num_spec(),
    {
        self.num
    }

    /// The physical range that the pages cover.
    pub fn range(&self) -> (r: AddressRange<Physical>)
        requires
            self.wf(),
        ensures
            r.wf(),
            r.base() == self.base_spec(),
            r.len() == self.num_spec() * GRANULE_SIZE,
    {
        AddressRange::new_raw(self.base.into_usize(), self.size())
    }

    /// Gives up the handle and returns what it stood for. The pages stay
    /// allocated.
    pub fn into_raw(self) -> (r: (Address<Physical>, usize))
        ensures
            r.0@ == self.base_spec(),
            r.1 == self.num_spec(),
    {
        (self.base, self.num)
    }
}

impl<ALLOC: PageAllocator> Page<ALLOC> {
    /// Hands the pages back to the allocator that they came from. An
    /// allocator that never reclaims refuses; the pages then stay
    /// allocated for good.
    pub fn release(self, allocator: &mut ALLOC) -> (r: Result<(), &'static str>)
        requires
            old(allocator).inv(),
            self.wf(),
        ensures
            final(allocator).inv(),
            (*final(allocator), r) == old(allocator).free_spec(self.base_spec(), self.num_spec()),
    {
        let mut pages = self;
        allocator.free_pages(&mut pages)
    }
}

/// The page count is the least number of granules that cover `size` bytes.
pub proof fn lemma_page_count(size: int)
    requires
        size >= 0,
    ensures
        page_count_spec(size) >= 0,
        (page_count_spec(size) - 1) * GRANULE_SIZE < size || size == 0,
        size <= page_count_spec(size) * GRANULE_SIZE,
        size == 0 ==> page_count_spec(size) == 0,
        size % (GRANULE_SIZE as int) == 0 ==> page_count_spec(size) * GRANULE_SIZE == size,
{
}

} // verus!
