//! The two translation regimes of the unit as handles: the low half of the
//! address space and the high half.

use core::marker::PhantomData;
use vstd::prelude::*;
use crate::arch::mmu::MemoryManagementUnit;
use crate::arch::phys::TableSection;
use crate::config::{ENTRY_PER_TABLE, GRANULE_SIZE};
use crate::memory::{AddrMapper, Address, AddressRange, AttributeFields, PageAllocator, Physical, Virtual};

verus! {

/// A translation regime of a unit. A handle holds nothing: it names the
/// root that its methods work on, the mapper for ranges, and the allocator
/// of the unit.
pub trait MmuReigon<MAPPER: AddrMapper, ALLOC: PageAllocator>: Sized {
    /// Whether the regime is that of the high half of the address space.
    spec fn high() -> bool;

    /// Whether the regime is that of the high half of the address space.
    fn is_high(&self) -> (b: bool)
        ensures
            b == Self::high(),
    ;

    /// The root table of the regime, once it exists.
    fn root<'a>(&self, mmu: &'a MemoryManagementUnit<ALLOC>) -> (r: Option<&'a TableSection>)
        requires
            mmu.wf(),
        ensures
            r is Some <==> mmu.root_spec(Self::high()) is Some,
            r matches Some(t) ==> t.wf() && forall|i: int|
                0 <= i < ENTRY_PER_TABLE ==> (#[trigger] t@[i]).value == mmu.memory().entry(
                    mmu.root_spec(Self::high())->0,
                    i,
                ),
    {
        mmu.root_section(self.is_high())
    }

    /// The address of the root table, which is created if the regime has
    /// none: see [`MemoryManagementUnit::root_or_init`].
    fn root_or_init(&self, mmu: &mut MemoryManagementUnit<ALLOC>) -> (r: Result<u64, &'static str>)
        requires
            old(mmu).wf(),
        ensures
            final(mmu).wf(),
            old(mmu).step_frame(final(mmu), Self::high()),
            final(mmu).page_table(Self::high()) == old(mmu).page_table(Self::high()),
            old(mmu).root_spec(Self::high()) is Some ==> r is Ok && final(mmu).memory() == old(mmu).memory() && final(mmu).allocator() == old(mmu).allocator(),
            old(mmu).root_spec(Self::high()) is Some ==> final(mmu).root_spec(Self::high()) == old(mmu).root_spec(Self::high()),
            r matches Ok(t) ==> final(mmu).root_spec(Self::high()) == Some(t as int),
            r is Err ==> final(mmu).root_spec(Self::high()) is None,
            old(mmu).root_spec(Self::high()) is Some ==> final(mmu).space() == old(mmu).space(),
            old(mmu).root_spec(Self::high()) is None ==> (r matches Ok(f) ==> old(mmu).space().request(
                old(mmu).allocator().alloc_spec(1).1,
            ) == Ok::<int, &str>(f as int) && final(mmu).space() == old(mmu).space().asked().with_table(Self::high(), f as int, (0nat, 0int))),
            old(mmu).root_spec(Self::high()) is None ==> (r matches Err(e) ==> old(mmu).space().request(
                old(mmu).allocator().alloc_spec(1).1,
            ) == Err::<int, &str>(e) && final(mmu).space() == old(mmu).space().asked()),
            old(mmu).root_spec(Self::high()) is None ==> (r matches Ok(f) ==> forall|i: int|
                0 <= i < ENTRY_PER_TABLE ==> #[trigger] final(mmu).memory().entry(f as int, i)
                    == 0),
    {
        mmu.root_or_init(self.is_high())
    }

    /// Maps the pages of `vrange` to the pages of `prange`: see
    /// [`MemoryManagementUnit::map_range_with`].
    fn map_range_with(
        &self,
        mmu: &mut MemoryManagementUnit<ALLOC>,
        prange: AddressRange<Physical>,
        vrange: AddressRange<Virtual>,
        attribute: AttributeFields,
    ) -> (r: Result<(), &'static str>)
        requires
            old(mmu).wf(),
            prange.wf(),
            vrange.wf(),
            prange.base() % (GRANULE_SIZE as int) == 0,
            vrange.base() % (GRANULE_SIZE as int) == 0,
        ensures
            final(mmu).wf(),
            old(mmu).map_range_post(
                final(mmu),
                Self::high(),
                prange.base(),
                prange.len(),
                vrange.base(),
                vrange.len(),
                attribute,
                r,
            ),
    {
        mmu.map_range_with(self.is_high(), prange, vrange, attribute)
    }

    /// Maps the pages of a physical range to where the regime's mapper puts
    /// them: see [`MemoryManagementUnit::map_range`].
    fn map_range(
        &self,
        mmu: &mut MemoryManagementUnit<ALLOC>,
        range: AddressRange<Physical>,
        attribute: AttributeFields,
    ) -> (r: Result<(), &'static str>)
        requires
            old(mmu).wf(),
            range.wf(),
            range.base() % (GRANULE_SIZE as int) == 0,
            MAPPER::vaddr_of(range.base()) % (GRANULE_SIZE as int) == 0,
            MAPPER::vaddr_of(range.base()) + range.len() <= usize::MAX,
        ensures
            final(mmu).wf(),
            old(mmu).map_range_post(
                final(mmu),
                Self::high(),
                range.base(),
                range.len(),
                MAPPER::vaddr_of(range.base()),
                range.len(),
                attribute,
                r,
            ),
    {
        mmu.map_range::<MAPPER>(self.is_high(), range, attribute)
    }

    /// Maps the page of `vaddr` to the page of `paddr`: see
    /// [`MemoryManagementUnit::map_page`].
    fn map_page(
        &self,
        mmu: &mut MemoryManagementUnit<ALLOC>,
        paddr: Address<Physical>,
        vaddr: Address<Virtual>,
        attributes: AttributeFields,
    ) -> (r: Result<(), &'static str>)
        requires
            old(mmu).wf(),
        ensures
            final(mmu).wf(),
            old(mmu).map_page_post(final(mmu), Self::high(), paddr@, vaddr@, attributes, r),
    {
        mmu.map_page(self.is_high(), paddr, vaddr, attributes)
    }

    /// Translates a virtual address: see
    /// [`MemoryManagementUnit::translate`].
    fn translate(&self, mmu: &MemoryManagementUnit<ALLOC>, vaddr: Address<Virtual>) -> (r: Option<
        (Address<Physical>, AttributeFields),
    >)
        requires
            mmu.wf(),
        ensures
            r matches Some(pair) ==> mmu.translate_spec(Self::high(), vaddr@) == Some(
                (pair.0@, pair.1),
            ),
            r is None ==> match mmu.translate_spec(Self::high(), vaddr@) {
                Some(pair) => pair.0 > usize::MAX,
                None => true,
            },
    {
        mmu.translate(self.is_high(), vaddr)
    }
}

/// The regime of the low half of the address space.
pub struct MmuReigon0<MAPPER: AddrMapper, ALLOC: PageAllocator> {
    _alloc: PhantomData<ALLOC>,
    _mapper: PhantomData<MAPPER>,
}

impl<MAPPER: AddrMapper, ALLOC: PageAllocator> MmuReigon<MAPPER, ALLOC> for MmuReigon0<
    MAPPER,
    ALLOC,
> {
    open spec fn high() -> bool {
        false
    }

    fn is_high(&self) -> (b: bool) {
        false
    }
}

/// The regime of the high half of the address space.
pub struct MmuReigon1<MAPPER: AddrMapper, ALLOC: PageAllocator> {
    _alloc: PhantomData<ALLOC>,
    _mapper: PhantomData<MAPPER>,
}

impl<MAPPER: AddrMapper, ALLOC: PageAllocator> MmuReigon<MAPPER, ALLOC> for MmuReigon1<
    MAPPER,
    ALLOC,
> {
    open spec fn high() -> bool {
        true
    }

    fn is_high(&self) -> (b: bool) {
        true
    }
}

impl<ALLOC: PageAllocator> MemoryManagementUnit<ALLOC> {
    /// The handle of the low regime, with `MAPPER` for its ranges.
    pub fn ttbl0<MAPPER: AddrMapper>(&self) -> (r: MmuReigon0<MAPPER, ALLOC>) {
        MmuReigon0 { _alloc: PhantomData, _mapper: PhantomData }
    }

    /// The handle of the high regime, with `MAPPER` for its ranges.
    pub fn ttbl1<MAPPER: AddrMapper>(&self) -> (r: MmuReigon1<MAPPER, ALLOC>) {
        MmuReigon1 { _alloc: PhantomData, _mapper: PhantomData }
    }
}

} // verus!
