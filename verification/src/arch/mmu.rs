//! The memory management unit: two translation regimes over one physical
//! memory, built page by page from tables that an allocator supplies.

use vstd::prelude::*;
use crate::arch::descriptor::{EntryType, MmuLevel, PageDescriptor, TableDescriptor, block_page_addr, block_span, decode_attributes, desc_addr, desc_type_table, desc_valid, lemma_addr_bits, lemma_addr_bits_page, lemma_block_byte, lemma_page_descriptor_round_trip, lemma_page_of_block, lemma_table_descriptor_round_trip, page_descriptor_bits, page_of_block};
use crate::arch::hw::HwStep;
use crate::arch::model::{Space, conflict};
use crate::arch::view::{first_vpn, lemma_first_vpn, lemma_walk_by_prefix, prefix_limit};
use crate::arch::phys::{PhysMemory, TableSection, index_of_addr};
use crate::registers::Field;
use crate::arch::walk::{TableInfo, VPN_LIMIT, agree, agree_except, block_at, dir_with, leaf, lemma_block_leaf, lemma_no_block, leaf_written, lemma_agree_lookup, lemma_agree_wf, lemma_empty_root, lemma_leaf_mappings, lemma_leaf_wf, lemma_level_mask, lemma_link_lookup, lemma_link_walk, lemma_link_wf, lemma_prefix_step, lemma_walk_in_dir, lemma_walk_stops, level_mask, linked, lookup, mappings, region_wf, table_at, table_ok, entry_ok, vpn_index, vpn_of, vpn_prefix};
use crate::config::{ENTRY_PER_TABLE, GRANULE_SIZE, PHYSICAL_LIMIT};
use crate::memory::{AddrMapper, Address, AddressRange, AttributeFields, Page, PageAllocator, Physical, Virtual, lemma_page_count, page_count_spec};

verus! {

/// The page table `table` after the first `count` pages from the virtual
/// address `vbase` have been mapped, in rising order, to the pages from the
/// physical address `pbase`.
pub open spec fn range_mapped(
    table: Map<int, u64>,
    pbase: int,
    vbase: int,
    attributes: AttributeFields,
    count: nat,
) -> Map<int, u64>
    decreases count,
{
    if count == 0 {
        table
    } else {
        range_mapped(table, pbase, vbase, attributes, (count - 1) as nat).insert(
            vpn_of((vbase + (count - 1) * GRANULE_SIZE) as u64),
            page_descriptor_bits((pbase + (count - 1) * GRANULE_SIZE) as u64, attributes),
        )
    }
}

/// Mapping a range keeps what was mapped before, and maps nothing but the
/// range's own pages.
pub proof fn lemma_range_mapped_domain(
    table: Map<int, u64>,
    pbase: int,
    vbase: int,
    attributes: AttributeFields,
    count: nat,
    vpn: int,
)
    ensures
        table.contains_key(vpn) ==> range_mapped(
            table,
            pbase,
            vbase,
            attributes,
            count,
        ).contains_key(vpn),
        range_mapped(table, pbase, vbase, attributes, count).contains_key(vpn) ==> table.contains_key(
            vpn,
        ) || exists|j: int|
            0 <= j < count && vpn == #[trigger] vpn_of((vbase + j * GRANULE_SIZE) as u64),
    decreases count,
{
    if count > 0 {
        lemma_range_mapped_domain(table, pbase, vbase, attributes, (count - 1) as nat, vpn);
    }
}

proof fn lemma_vpn_div(a: u64)
    by (bit_vector)
    ensures
        (a >> 12u64) & 0xF_FFFF_FFFFu64 == (a / 4096u64) % 0x10_0000_0000u64,
{
}

/// The pages of a run of at most 2^36 pages that starts on a granule
/// boundary have page numbers that differ from each other.
pub proof fn lemma_vpn_distinct(vbase: int, i: int, j: int)
    requires
        0 <= vbase,
        vbase % (GRANULE_SIZE as int) == 0,
        0 <= j < i < VPN_LIMIT,
        vbase + i * GRANULE_SIZE <= u64::MAX,
    ensures
        vpn_of((vbase + i * GRANULE_SIZE) as u64) != vpn_of((vbase + j * GRANULE_SIZE) as u64),
{
    let a = (vbase + i * GRANULE_SIZE) as u64;
    let b = (vbase + j * GRANULE_SIZE) as u64;
    lemma_vpn_div(a);
    lemma_vpn_div(b);
    let q = vbase / 4096;
    assert(vbase == q * 4096);
    assert(a as int / 4096 == q + i);
    assert(b as int / 4096 == q + j);
}

/// What goes into the memory attribute indirection register: attribute 1
/// is normal memory, write-back cacheable in both domains, and attribute 0
/// is device memory without gathering or reordering.
pub const MAIR_VALUE: u64 = 0xFF04;

/// What goes into the translation control register: 4 KiB granules, inner
/// shareable and write-back cacheable walks for both regimes, 40 bits of
/// physical address, 40 bits of virtual address for the low regime and 48
/// for the high one.
pub const TCR_VALUE: u64 = 0x2_B510_3518;

/// What goes into the system control register to switch translation on.
pub const SCTLR_VALUE: u64 = 0x1;

/// The steps that switch translation on, in the order in which they have
/// to happen.
pub open spec fn enable_steps() -> Seq<HwStep> {
    seq![
        HwStep::SetMair(MAIR_VALUE),
        HwStep::SetTcr(TCR_VALUE),
        HwStep::Isb,
        HwStep::SetSctlr(SCTLR_VALUE),
        HwStep::Isb,
    ]
}

/// The value of the memory attribute indirection register.
fn mair_value() -> (r: u64)
    ensures
        r == MAIR_VALUE,
{
    // Attribute 1 - Cacheable normal DRAM.
    let outer = Field::new(0xF, 12).val(0b1111);
    let inner = Field::new(0xF, 8).val(0b1111);
    // Attribute 0 - Device.
    let device = Field::new(0xFF, 0).val(0b0000_0100);
    proof {
        assert((0b1111u64 & 0xFu64) << 12u32 | (0b1111u64 & 0xFu64) << 8u32 | (0b100u64 & 0xFFu64)
            << 0u32 == 0xFF04u64) by (bit_vector);
    }
    outer.with(inner).with(device).written()
}

/// The value of the translation control register for address spaces of
/// `64 - t0sz` and `64 - t1sz` bits.
fn tcr_value() -> (r: u64)
    ensures
        r == TCR_VALUE,
{
    let t0sz: u64 = 64 - 40;
    let t1sz: u64 = 64 - 48;
    let tbi0 = Field::new(0x1, 37).val(0);
    let tg0 = Field::new(0x3, 14).val(0b00);
    let sh0 = Field::new(0x3, 12).val(0b11);
    let tbi1 = Field::new(0x1, 38).val(0);
    let tg1 = Field::new(0x3, 30).val(0b10);
    let sh1 = Field::new(0x3, 28).val(0b11);
    let orgn0 = Field::new(0x3, 10).val(0b01);
    let irgn0 = Field::new(0x3, 8).val(0b01);
    let orgn1 = Field::new(0x3, 26).val(0b01);
    let irgn1 = Field::new(0x3, 24).val(0b01);
    let epd0 = Field::new(0x1, 7).val(0);
    let epd1 = Field::new(0x1, 23).val(0);
    let ips = Field::new(0x7, 32).val(0b010);
    let a1 = Field::new(0x1, 22).val(0);
    let t0 = Field::new(0x3F, 0).val(t0sz);
    let t1 = Field::new(0x3F, 16).val(t1sz);
    proof {
        assert((0u64 & 0x1u64) << 37u32 | (0u64 & 0x3u64) << 14u32 | (3u64 & 0x3u64) << 12u32 | (
        0u64 & 0x1u64) << 38u32 | (2u64 & 0x3u64) << 30u32 | (3u64 & 0x3u64) << 28u32 | (1u64
            & 0x3u64) << 10u32 | (1u64 & 0x3u64) << 8u32 | (1u64 & 0x3u64) << 26u32 | (1u64
            & 0x3u64) << 24u32 | (0u64 & 0x1u64) << 7u32 | (0u64 & 0x1u64) << 23u32 | (2u64
            & 0x7u64) << 32u32 | (0u64 & 0x1u64) << 22u32 | (24u64 & 0x3Fu64) << 0u32 | (16u64
            & 0x3Fu64) << 16u32 == 0x2_B510_3518u64) by (bit_vector);
    }
    tbi0.with(tg0).with(sh0).with(tbi1).with(tg1).with(sh1).with(orgn0).with(irgn0).with(
        orgn1,
    ).with(irgn1).with(epd0).with(epd1).with(ips).with(a1).with(t0).with(t1).written()
}

/// The unit: an allocator, the physical memory, and the roots of the low
/// and the high translation regime. A root comes into being with the first
/// mapping of its regime.
pub struct MemoryManagementUnit<ALLOC: PageAllocator> {
    alloc: ALLOC,
    mem: PhysMemory,
    root0: Option<u64>,
    root1: Option<u64>,
    dir0: Ghost<Map<int, TableInfo>>,
    dir1: Ghost<Map<int, TableInfo>>,
    enabled: bool,
    pending: Vec<HwStep>,
}

impl<ALLOC: PageAllocator> MemoryManagementUnit<ALLOC> {
    /// The physical memory.
    pub closed spec fn memory(&self) -> PhysMemory {
        self.mem
    }

    /// The allocator.
    pub closed spec fn allocator(&self) -> ALLOC {
        self.alloc
    }

    /// Whether translation has been switched on.
    pub closed spec fn is_enabled(&self) -> bool {
        self.enabled
    }

    /// The steps that the unit has asked of the hardware and that the
    /// caller has not taken over yet, oldest first.
    pub closed spec fn pending_steps(&self) -> Seq<HwStep> {
        self.pending@
    }

    /// The pending steps of this unit, and after them the write of the root
    /// table address `root` if the regime has no root table in this unit.
    pub open spec fn steps_with_root(&self, high: bool, root: Option<int>) -> Seq<HwStep> {
        if self.root_spec(high) is None && root is Some {
            self.pending_steps().push(HwStep::ttbr(high, root->0 as u64))
        } else {
            self.pending_steps()
        }
    }

    /// The address of the root table of the high (`true`) or low (`false`)
    /// regime, once it exists.
    pub closed spec fn root_spec(&self, high: bool) -> Option<int> {
        if high {
            match self.root1 {
                Some(r) => Some(r as int),
                None => None,
            }
        } else {
            match self.root0 {
                Some(r) => Some(r as int),
                None => None,
            }
        }
    }

    spec fn dir(&self, high: bool) -> Map<int, TableInfo> {
        if high {
            self.dir1@
        } else {
            self.dir0@
        }
    }

    /// The invariant of the unit: allocator and memory are in order, and
    /// each regime's tables are granules of the memory, marked as tables,
    /// that form a tree below its root; no table serves both regimes. A
    /// table of level 1 or 2 may hold blocks; a valid entry of the block
    /// type at level 0 or 3 is ruled out.
    pub closed spec fn wf(&self) -> bool {
        &&& self.alloc.inv()
        &&& self.mem.wf()
        &&& region_wf(&self.mem, self.root_spec(false), self.dir0@)
        &&& region_wf(&self.mem, self.root_spec(true), self.dir1@)
        &&& forall|t: int| !(self.dir0@.contains_key(t) && self.dir1@.contains_key(t))
    }

    /// The memory of a unit that is in order is in order.
    pub proof fn lemma_memory_wf(&self)
        requires
            self.wf(),
        ensures
            self.memory().wf(),
            self.allocator().inv(),
    {
    }

    /// What a regime maps: from page numbers to leaf descriptors. A page
    /// that lies in a block has the descriptor of its part of the block.
    pub open spec fn page_table(&self, high: bool) -> Map<int, u64> {
        mappings(&self.memory(), self.root_spec(high))
    }

    /// Whether the page of a virtual address is mapped in a regime.
    pub open spec fn is_mapped(&self, high: bool, vaddr: int) -> bool {
        self.page_table(high).contains_key(vpn_of(vaddr as u64))
    }

    /// Whether page `i` of a run of pages from `vbase` is mapped.
    pub open spec fn is_mapped_at(&self, high: bool, vbase: int, i: int) -> bool {
        self.is_mapped(high, vbase + i * GRANULE_SIZE)
    }

    /// Whether page `i` of a run of pages from `vbase` can be mapped
    /// without an allocation: it is not mapped, and its tables exist.
    pub open spec fn ready_at(&self, high: bool, vbase: int, i: int) -> bool {
        !self.is_mapped(high, vbase + i * GRANULE_SIZE) && self.tables_present(
            high,
            vbase + i * GRANULE_SIZE,
        )
    }

    /// The table of `level` on the walk for a page number, if the walk gets
    /// that far.
    pub open spec fn table_on_walk(&self, high: bool, vpn: int, level: nat) -> Option<int> {
        match self.root_spec(high) {
            Some(r) => table_at(&self.memory(), r, vpn, level),
            None => None,
        }
    }

    /// Whether all four tables for the page of a virtual address exist, so
    /// that mapping it takes no allocation.
    pub open spec fn tables_present(&self, high: bool, vaddr: int) -> bool {
        self.table_on_walk(high, vpn_of(vaddr as u64), 3) is Some
    }

    /// How many tables the walk for a page number lacks: four in a regime
    /// without a root, none where the page could be mapped at once.
    pub open spec fn tables_missing(&self, high: bool, vpn: int) -> nat {
        if self.root_spec(high) is None {
            4
        } else if self.table_on_walk(high, vpn, 1) is None {
            3
        } else if self.table_on_walk(high, vpn, 2) is None {
            2
        } else if self.table_on_walk(high, vpn, 3) is None {
            1
        } else {
            0
        }
    }

    /// Whether every walk finds the same tables in `after` as in `self`.
    pub open spec fn same_walks(&self, after: &Self) -> bool {
        forall|high: bool, vpn: int, level: nat|
            0 <= vpn < VPN_LIMIT && level <= 3 ==> #[trigger] after.table_on_walk(high, vpn, level)
                == self.table_on_walk(high, vpn, level)
    }

    /// A walk that has its table of `level` and none below it lacks the
    /// tables of the levels below.
    pub proof fn lemma_missing(&self, high: bool, vpn: int, level: nat)
        requires
            self.root_spec(high) is Some,
            level <= 3,
            self.table_on_walk(high, vpn, level) is Some,
            level < 3 ==> self.table_on_walk(high, vpn, level + 1) is None,
        ensures
            self.tables_missing(high, vpn) == 3 - level,
    {
        let r = self.root_spec(high)->0;
        let m = self.memory();
        if level < 3 {
            lemma_walk_stops(&m, r, vpn, level + 1, 3);
            if level < 2 {
                lemma_walk_stops(&m, r, vpn, level + 1, 2);
            }
        }
        if table_at(&m, r, vpn, 1) is None && level >= 1 {
            lemma_walk_stops(&m, r, vpn, 1, level);
        }
        if table_at(&m, r, vpn, 2) is None && level >= 2 {
            lemma_walk_stops(&m, r, vpn, 2, level);
        }
    }

    /// A unit with the same mappings and the same walks has the same
    /// regimes.
    pub proof fn lemma_regime_same(&self, after: &Self, high: bool)
        requires
            after.page_table(high) == self.page_table(high),
            forall|vpn: int, level: nat|
                0 <= vpn < VPN_LIMIT && level <= 3 ==> #[trigger] after.table_on_walk(
                    high,
                    vpn,
                    level,
                ) == self.table_on_walk(high, vpn, level),
        ensures
            after.regime(high) == self.regime(high),
    {
        assert forall|name: (nat, int)| after.present(high).contains(name) == self.present(
            high,
        ).contains(name) by {
            if name.0 <= 3 && 0 <= name.1 < prefix_limit(name.0) {
                lemma_first_vpn(name.0, name.1, 0);
            }
        }
        assert(after.present(high) =~= self.present(high));
    }

    /// A unit with the same memory and the same roots is the same from
    /// outside, but for its allocator.
    pub proof fn lemma_space_with_alloc(&self, after: &Self)
        requires
            after.memory() == self.memory(),
            forall|high: bool| after.root_spec(high) == self.root_spec(high),
        ensures
            after.space() == (Space { alloc: after.allocator(), ..self.space() }),
    {
        assert(after.root_spec(false) == self.root_spec(false));
        assert(after.root_spec(true) == self.root_spec(true));
        self.lemma_regime_same(after, false);
        self.lemma_regime_same(after, true);
    }

    /// A unit whose memory holds the same in all tables, with the same
    /// granules serving as tables, is the same from outside.
    proof fn lemma_space_kept(&self, after: &Self)
        requires
            self.wf(),
            self.same_roots(after),
            after.alloc == self.alloc,
            forall|f: int| after.mem.is_table(f) == self.mem.is_table(f),
            agree(&self.mem, &after.mem, self.dir0@),
            agree(&self.mem, &after.mem, self.dir1@),
        ensures
            after.space() == self.space(),
    {
        lemma_agree_lookup(&self.mem, &after.mem, self.root_spec(false), self.dir0@);
        lemma_agree_lookup(&self.mem, &after.mem, self.root_spec(true), self.dir1@);
        self.lemma_regime_same(after, false);
        self.lemma_regime_same(after, true);
        assert(after.table_frames() =~= self.table_frames());
    }

    /// Whether `after` has every table on every walk that `self` has.
    pub open spec fn tables_kept(&self, after: &Self) -> bool {
        forall|high: bool, vpn: int, level: nat|
            0 <= vpn < VPN_LIMIT && level <= 3 && (#[trigger] self.table_on_walk(high, vpn, level))
                is Some ==> after.table_on_walk(high, vpn, level) == self.table_on_walk(
                high,
                vpn,
                level,
            )
    }

    /// What a virtual address translates to: the physical address and the
    /// attributes of its page, if the page is mapped.
    pub open spec fn translate_spec(&self, high: bool, vaddr: int) -> Option<
        (int, AttributeFields),
    > {
        let vpn = vpn_of(vaddr as u64);
        if self.page_table(high).contains_key(vpn) {
            let desc = self.page_table(high)[vpn];
            Some((desc_addr(desc) + vaddr % (GRANULE_SIZE as int), decode_attributes(desc)))
        } else {
            None
        }
    }

    /// What every mapping step in one regime leaves alone: whether
    /// translation is on, where the memory lies, the other regime's root and
    /// mappings, every table that a walk could find before, and every byte
    /// of the memory outside the granules that serve as tables afterwards.
    /// A root that the step makes is the page of the allocator's next
    /// answer, and the write of its address is queued for the hardware.
    pub open spec fn step_frame(&self, after: &Self, high: bool) -> bool {
        &&& after.is_enabled() == self.is_enabled()
        &&& after.pending_steps() == self.steps_with_root(high, after.root_spec(high))
        &&& self.root_spec(high) is Some ==> after.root_spec(high) == self.root_spec(high)
        &&& self.root_spec(high) is None ==> (after.root_spec(high) matches Some(root)
            ==> self.space().request(self.allocator().alloc_spec(1).1) == Ok::<int, &str>(root))
        &&& after.memory().base() == self.memory().base()
        &&& after.memory().page_count() == self.memory().page_count()
        &&& after.root_spec(!high) == self.root_spec(!high)
        &&& after.page_table(!high) == self.page_table(!high)
        &&& self.tables_kept(after)
        &&& self.memory().data_kept(&after.memory())
    }

    /// What mapping one page does, from the unit before to the unit after
    /// and the result.
    ///
    /// On success the page was not mapped, and exactly it is added, with the
    /// descriptor for `paddr` and `attributes`. On any error the mappings are
    /// what they were. A page that was mapped gives the mapping conflict:
    /// that with a page, or that with a block where the page is a part of
    /// one; the block stays as it is, and nothing is allocated.
    /// For a page that was not mapped the allocator is asked for the tables
    /// that its walk lacks, one page at a time, and the result is what
    /// comes of that: seen from outside, the unit and the result are those
    /// of [`Space::map_page`].
    pub open spec fn map_page_post(
        &self,
        after: &Self,
        high: bool,
        paddr: int,
        vaddr: int,
        attributes: AttributeFields,
        r: Result<(), &'static str>,
    ) -> bool {
        &&& self.step_frame(after, high)
        &&& r is Ok ==> !self.is_mapped(high, vaddr) && after.page_table(high) == self.page_table(
            high,
        ).insert(vpn_of(vaddr as u64), page_descriptor_bits(paddr as u64, attributes))
        &&& r is Err ==> after.page_table(high) == self.page_table(high)
        &&& self.is_mapped(high, vaddr) ==> r == Err::<(), &str>(
            conflict(self.page_table(high)[vpn_of(vaddr as u64)]),
        ) && after.space() == self.space() && after.memory() == self.memory()
        &&& !self.is_mapped(high, vaddr) && self.tables_present(high, vaddr) ==> r is Ok
        &&& (after.space(), r) == self.space().map_page(
            high,
            vpn_of(vaddr as u64),
            page_descriptor_bits(paddr as u64, attributes),
        )
    }

    /// What mapping a range does, from the unit before to the unit after
    /// and the result, for ranges of `psize` and `vsize` bytes from `pbase`
    /// and `vbase`.
    ///
    /// Ranges of different sizes are refused with nothing done. Otherwise,
    /// seen from outside, the unit and the result are those of
    /// [`Space::map_range`]: the pages are mapped one after the other until
    /// one of them cannot be mapped. In particular an empty range succeeds
    /// with nothing done; on success no page of the range was mapped, and
    /// all of them are added in order; on an error the pages before the one
    /// that failed have been added.
    pub open spec fn map_range_post(
        &self,
        after: &Self,
        high: bool,
        pbase: int,
        psize: int,
        vbase: int,
        vsize: int,
        attribute: AttributeFields,
        r: Result<(), &'static str>,
    ) -> bool {
        let pages = page_count_spec(psize);
        &&& self.step_frame(after, high)
        &&& psize != vsize ==> after.space() == self.space()
        &&& psize == vsize ==> (after.space(), r) == self.space().map_range(
            high,
            pbase,
            vbase,
            attribute,
            pages as nat,
        )
        &&& psize != vsize ==> r == Err::<(), &str>("Ranges differ in size")
        &&& psize != vsize || psize == 0 ==> after.memory() == self.memory()
            && after.root_spec(high) == self.root_spec(high)
        &&& psize == 0 && vsize == 0 ==> r is Ok
        &&& r is Ok ==> psize == vsize && after.page_table(high) == range_mapped(
            self.page_table(high),
            pbase,
            vbase,
            attribute,
            pages as nat,
        )
        &&& r is Ok ==> forall|i: int|
            0 <= i < pages ==> !(#[trigger] self.is_mapped_at(high, vbase, i))
        &&& r is Err ==> exists|k: int|
            0 <= k && (k < pages || psize != vsize) && #[trigger] range_mapped(
                self.page_table(high),
                pbase,
                vbase,
                attribute,
                k as nat,
            ) == after.page_table(high) && forall|i: int|
                0 <= i < k ==> !(#[trigger] self.is_mapped_at(high, vbase, i))
        &&& psize == vsize && pages <= VPN_LIMIT && (forall|i: int|
            0 <= i < pages ==> #[trigger] self.ready_at(high, vbase, i)) ==> r is Ok
    }

    /// A unit without mappings over the given memory.
    pub fn new(alloc: ALLOC, mem: PhysMemory) -> (r: Self)
        requires
            alloc.inv(),
            mem.wf(),
        ensures
            r.wf(),
            r.memory() == mem,
            r.allocator() == alloc,
            !r.is_enabled(),
            r.pending_steps() == Seq::<HwStep>::empty(),
            r.root_spec(false) is None,
            r.root_spec(true) is None,
            r.page_table(false) == Map::<int, u64>::empty(),
            r.page_table(true) == Map::<int, u64>::empty(),
            r.space() == Space::fresh(
                alloc,
                mem.base(),
                mem.page_count(),
                Set::new(|frame: int| mem.contains(frame) && mem.is_table(frame)),
            ),
    {
        let r = Self {
            alloc,
            mem,
            root0: None,
            root1: None,
            dir0: Ghost(Map::empty()),
            dir1: Ghost(Map::empty()),
            enabled: false,
            pending: Vec::new(),
        };
        proof {
            assert(r.page_table(false) =~= Map::<int, u64>::empty());
            assert(r.page_table(true) =~= Map::<int, u64>::empty());
            assert(r.present(false) =~= Set::<(nat, int)>::empty());
            assert(r.present(true) =~= Set::<(nat, int)>::empty());
            assert(r.table_frames() =~= Set::new(
                |frame: int| mem.contains(frame) && mem.is_table(frame),
            ));
        }
        r
    }

    /// The physical memory, to read from.
    pub fn mem(&self) -> (r: &PhysMemory)
        ensures
            *r == self.memory(),
    {
        &self.mem
    }

    /// The address of a regime's root table, once it exists.
    pub fn root(&self, high: bool) -> (r: Option<u64>)
        ensures
            r is Some <==> self.root_spec(high) is Some,
            r matches Some(t) ==> self.root_spec(high) == Some(t as int),
    {
        if high {
            self.root1
        } else {
            self.root0
        }
    }

    /// The root table of a regime, once it exists.
    pub fn root_section(&self, high: bool) -> (r: Option<&TableSection>)
        requires
            self.wf(),
        ensures
            r is Some <==> self.root_spec(high) is Some,
            r matches Some(t) ==> t.wf() && forall|i: int|
                0 <= i < ENTRY_PER_TABLE ==> (#[trigger] t@[i]).value == self.memory().entry(
                    self.root_spec(high)->0,
                    i,
                ),
    {
        let current = if high {
            self.root1
        } else {
            self.root0
        };
        match current {
            Some(t) => {
                proof {
                    assert(self.dir(high).contains_key(t as int));
                    assert(table_ok(&self.mem, self.dir(high), t as int));
                }
                Some(self.mem.section(t))
            },
            None => None,
        }
    }

    /// The unit's allocator, to read from.
    pub fn page_allocator(&self) -> (r: &ALLOC)
        ensures
            *r == self.allocator(),
            self.wf() ==> r.inv(),
    {
        &self.alloc
    }

    /// The unit's allocator, to ask it for pages. The unit stays in order
    /// if the allocator does.
    pub fn allocator_mut(&mut self) -> (a: &mut ALLOC)
        requires
            old(self).wf(),
        ensures
            *a == old(self).allocator(),
            a.inv(),
            final(self).allocator() == *final(a),
            final(self).memory() == old(self).memory(),
            final(self).is_enabled() == old(self).is_enabled(),
            final(self).pending_steps() == old(self).pending_steps(),
            forall|high: bool| final(self).root_spec(high) == old(self).root_spec(high),
            forall|high: bool| final(self).page_table(high) == old(self).page_table(high),
            final(a).inv() ==> final(self).wf(),
    {
        &mut self.alloc
    }

    /// Asks the unit's allocator for pages. The mappings do not change.
    pub fn alloc_pages(&mut self, num: usize) -> (r: Result<Page<ALLOC>, &'static str>)
        requires
            old(self).wf(),
        ensures
            final(self).wf(),
            final(self).memory() == old(self).memory(),
            final(self).is_enabled() == old(self).is_enabled(),
            final(self).pending_steps() == old(self).pending_steps(),
            forall|high: bool| final(self).root_spec(high) == old(self).root_spec(high),
            forall|high: bool| final(self).page_table(high) == old(self).page_table(high),
            final(self).space() == old(self).space().asked_for(num),
            r matches Ok(p) ==> p.wf() && p.num_spec() == num && old(self).allocator().alloc_spec(num).1 == Ok::<int, &str>(p.base_spec()),
            r matches Err(e) ==> old(self).allocator().alloc_spec(num).1 == Err::<int, &str>(e),
    {
        let r = self.alloc.alloc_pages(num);
        proof {
            old(self).lemma_regime_same(self, false);
            old(self).lemma_regime_same(self, true);
        }
        r
    }

    /// Whether `after` differs from `self` at most in the memory, the
    /// allocator and the private notes on the tables.
    spec fn same_roots(&self, after: &Self) -> bool {
        &&& after.root0 == self.root0
        &&& after.root1 == self.root1
        &&& after.enabled == self.enabled
        &&& after.pending == self.pending
        &&& after.mem.base() == self.mem.base()
        &&& after.mem.page_count() == self.mem.page_count()
    }

    /// Tables that are kept over two steps are kept over both, where the
    /// first step leaves roots and memory alone.
    proof fn lemma_tables_kept(&self, mid: &Self, after: &Self)
        requires
            mid.mem == self.mem,
            mid.root0 == self.root0,
            mid.root1 == self.root1,
            mid.tables_kept(after),
        ensures
            self.tables_kept(after),
    {
        assert forall|high: bool, vpn: int, level: nat|
            0 <= vpn < VPN_LIMIT && level <= 3 && (#[trigger] self.table_on_walk(high, vpn, level))
                is Some implies after.table_on_walk(high, vpn, level) == self.table_on_walk(
            high,
            vpn,
            level,
        ) by {
            assert(mid.table_on_walk(high, vpn, level) == self.table_on_walk(high, vpn, level));
        }
    }

    /// Tables that are kept over two steps are kept over both.
    proof fn lemma_tables_kept_twice(&self, mid: &Self, after: &Self)
        requires
            self.tables_kept(mid),
            mid.tables_kept(after),
        ensures
            self.tables_kept(after),
    {
        assert forall|high: bool, vpn: int, level: nat|
            0 <= vpn < VPN_LIMIT && level <= 3 && (#[trigger] self.table_on_walk(high, vpn, level))
                is Some implies after.table_on_walk(high, vpn, level) == self.table_on_walk(
            high,
            vpn,
            level,
        ) by {
            assert(mid.table_on_walk(high, vpn, level) == self.table_on_walk(high, vpn, level));
        }
    }

    /// Makes the first page of `page` a translation table: checks that it
    /// is a granule of the memory that is no table yet, zero-fills and marks
    /// it. The handle is given up: tables are never handed back.
    fn adopt_table(&mut self, page: Page<ALLOC>) -> (r: Result<u64, &'static str>)
        requires
            old(self).wf(),
            page.wf(),
        ensures
            final(self).wf(),
            old(self).same_roots(final(self)),
            final(self).alloc == old(self).alloc,
            final(self).dir0 == old(self).dir0,
            final(self).dir1 == old(self).dir1,
            final(self).page_table(false) == old(self).page_table(false),
            final(self).page_table(true) == old(self).page_table(true),
            old(self).tables_kept(final(self)),
            old(self).same_walks(final(self)),
            old(self).mem.data_kept(&final(self).mem),
            agree(&old(self).mem, &final(self).mem, old(self).dir0@),
            agree(&old(self).mem, &final(self).mem, old(self).dir1@),
            r matches Ok(f) ==> {
                &&& f == page.base_spec()
                &&& final(self).mem.contains(f as int)
                &&& final(self).mem.is_table(f as int)
                &&& !old(self).dir0@.contains_key(f as int)
                &&& !old(self).dir1@.contains_key(f as int)
                &&& forall|i: int|
                    0 <= i < ENTRY_PER_TABLE ==> #[trigger] final(self).mem.entry(f as int, i) == 0
            },
            r is Err ==> final(self).mem == old(self).mem,
            r matches Ok(f) ==> final(self).space() == (Space {
                tables: old(self).space().tables.insert(f as int),
                ..old(self).space()
            }),
            r matches Ok(f) ==> old(self).space().request(Ok::<int, &str>(page.base_spec()))
                == Ok::<int, &str>(f as int),
            r matches Err(e) ==> old(self).space().request(Ok::<int, &str>(page.base_spec()))
                == Err::<int, &str>(e),
            !old(self).mem.contains(page.base_spec()) ==> r == Err::<u64, &str>(
                "Page is outside of the physical memory",
            ),
            old(self).mem.contains(page.base_spec()) && old(self).mem.is_table(page.base_spec())
                ==> r == Err::<u64, &str>("Page is already in use as a translation table"),
            old(self).mem.contains(page.base_spec()) && !old(self).mem.is_table(page.base_spec())
                ==> r is Ok,
    {
        proof {
            page.lemma_bounds();
        }
        let (base, _) = page.into_raw();
        let frame = base.into_usize() as u64;
        if !self.mem.has_frame(frame) {
            return Err("Page is outside of the physical memory");
        }
        if self.mem.table_at(frame) {
            return Err("Page is already in use as a translation table");
        }
        let ghost m1 = self.mem;
        self.mem.make_table(frame);
        proof {
            let m2 = self.mem;
            m1.lemma_data_kept(&m2);
            assert(!self.dir0@.contains_key(frame as int)) by {
                if self.dir0@.contains_key(frame as int) {
                    assert(table_ok(&m1, self.dir0@, frame as int));
                }
            }
            assert(!self.dir1@.contains_key(frame as int)) by {
                if self.dir1@.contains_key(frame as int) {
                    assert(table_ok(&m1, self.dir1@, frame as int));
                }
            }
            assert(agree(&m1, &m2, self.dir0@)) by {
                assert forall|t: int, i: int|
                    self.dir0@.contains_key(t) && 0 <= i < ENTRY_PER_TABLE implies #[trigger] m2.entry(
                    t,
                    i,
                ) == m1.entry(t, i) by {
                    assert(table_ok(&m1, self.dir0@, t));
                }
            }
            assert(agree(&m1, &m2, self.dir1@)) by {
                assert forall|t: int, i: int|
                    self.dir1@.contains_key(t) && 0 <= i < ENTRY_PER_TABLE implies #[trigger] m2.entry(
                    t,
                    i,
                ) == m1.entry(t, i) by {
                    assert(table_ok(&m1, self.dir1@, t));
                }
            }
            assert forall|t: int| self.dir0@.contains_key(t) implies m2.contains(t) && m2.is_table(
                t,
            ) by {
                assert(table_ok(&m1, self.dir0@, t));
            }
            assert forall|t: int| self.dir1@.contains_key(t) implies m2.contains(t) && m2.is_table(
                t,
            ) by {
                assert(table_ok(&m1, self.dir1@, t));
            }
            lemma_agree_wf(&m1, &m2, self.root_spec(false), self.dir0@);
            lemma_agree_wf(&m1, &m2, self.root_spec(true), self.dir1@);
            lemma_agree_lookup(&m1, &m2, self.root_spec(false), self.dir0@);
            lemma_agree_lookup(&m1, &m2, self.root_spec(true), self.dir1@);
            old(self).lemma_regime_same(self, false);
            old(self).lemma_regime_same(self, true);
            assert(self.table_frames() =~= old(self).table_frames().insert(frame as int));
        }
        Ok(frame)
    }

    /// Takes a page that the allocator has handed out into service as a
    /// translation table: the page has to be a granule of the memory that
    /// serves as no table yet; it is zero-filled and marked. Only its first
    /// granule is used, and the handle is given up: tables are never handed
    /// back. Returns the address of the table. The mappings do not change.
    pub fn adopt(&mut self, page: Page<ALLOC>) -> (r: Result<u64, &'static str>)
        requires
            old(self).wf(),
            page.wf(),
        ensures
            final(self).wf(),
            final(self).allocator() == old(self).allocator(),
            final(self).is_enabled() == old(self).is_enabled(),
            final(self).pending_steps() == old(self).pending_steps(),
            final(self).memory().base() == old(self).memory().base(),
            final(self).memory().page_count() == old(self).memory().page_count(),
            forall|high: bool| final(self).root_spec(high) == old(self).root_spec(high),
            forall|high: bool| final(self).page_table(high) == old(self).page_table(high),
            r matches Ok(f) ==> final(self).space() == (Space {
                tables: old(self).space().tables.insert(f as int),
                ..old(self).space()
            }),
            r is Err ==> final(self).space() == old(self).space(),
            !old(self).memory().contains(page.base_spec()) ==> r == Err::<u64, &str>(
                "Page is outside of the physical memory",
            ),
            old(self).memory().contains(page.base_spec()) && old(self).memory().is_table(
                page.base_spec(),
            ) ==> r == Err::<u64, &str>("Page is already in use as a translation table"),
            old(self).memory().contains(page.base_spec()) && !old(self).memory().is_table(
                page.base_spec(),
            ) ==> r == Ok::<u64, &str>(page.base_spec() as u64),
            r is Err ==> final(self).memory() == old(self).memory(),
            old(self).memory().data_kept(&final(self).memory()),
            r matches Ok(f) ==> final(self).memory().is_table(f as int) && forall|i: int|
                0 <= i < ENTRY_PER_TABLE ==> #[trigger] final(self).memory().entry(f as int, i)
                    == 0,
    {
        proof {
            page.lemma_bounds();
        }
        let r = self.adopt_table(page);
        proof {
            assert forall|high: bool| self.page_table(high) == old(self).page_table(high) by {
                if high {
                } else {
                }
            }
        }
        r
    }

    /// The root table of a regime. Where the regime has none yet, one page
    /// is asked of the allocator, zero-filled and made the root; if the
    /// allocator refuses, or hands out a page that cannot serve, the error
    /// comes back and the regime stays without a root. The mappings of both
    /// regimes stay as they are.
    pub fn root_or_init(&mut self, high: bool) -> (r: Result<u64, &'static str>)
        requires
            old(self).wf(),
        ensures
            final(self).wf(),
            old(self).step_frame(final(self), high),
            final(self).page_table(high) == old(self).page_table(high),
            old(self).root_spec(high) is Some ==> r is Ok && final(self).memory() == old(self).memory() && final(self).allocator() == old(self).allocator(),
            old(self).root_spec(high) is Some ==> final(self).root_spec(high) == old(self).root_spec(high),
            r matches Ok(t) ==> final(self).root_spec(high) == Some(t as int),
            r is Err ==> final(self).root_spec(high) is None,
            old(self).root_spec(high) is Some ==> final(self).space() == old(self).space(),
            old(self).root_spec(high) is None ==> (r matches Ok(f) ==> old(self).space().request(
                old(self).allocator().alloc_spec(1).1,
            ) == Ok::<int, &str>(f as int) && final(self).space() == old(self).space().asked().with_table(high, f as int, (0nat, 0int))),
            old(self).root_spec(high) is None ==> (r matches Err(e) ==> old(self).space().request(
                old(self).allocator().alloc_spec(1).1,
            ) == Err::<int, &str>(e) && final(self).space() == old(self).space().asked()),
            old(self).root_spec(high) is None ==> (r matches Ok(f) ==> forall|i: int|
                0 <= i < ENTRY_PER_TABLE ==> #[trigger] final(self).memory().entry(f as int, i)
                    == 0),
    {
        let current = if high {
            self.root1
        } else {
            self.root0
        };
        match current {
            Some(t) => Ok(t),
            None => {
                let ghost before = *self;
                proof {
                    assert(before.page_table(high) =~= Map::<int, u64>::empty());
                }
                let page = match self.alloc.alloc_pages(1) {
                    Ok(p) => p,
                    Err(e) => {
                        proof {
                            before.lemma_regime_same(self, false);
                            before.lemma_regime_same(self, true);
                        }
                        return Err(e);
                    },
                };
                let ghost pre = *self;
                proof {
                    before.lemma_regime_same(&pre, false);
                    before.lemma_regime_same(&pre, true);
                    assert(pre.space() == before.space().asked());
                }
                let frame = match self.adopt_table(page) {
                    Ok(f) => f,
                    Err(e) => {
                        proof {
                            before.lemma_tables_kept(&pre, self);
                        }
                        return Err(e);
                    },
                };
                let ghost mid = *self;
                let ghost listing = Map::<int, TableInfo>::empty().insert(
                    frame as int,
                    TableInfo { level: 0, prefix: 0 },
                );
                if high {
                    self.root1 = Some(frame);
                    self.dir1 = Ghost(listing);
                    self.pending.push(HwStep::SetTtbr1(frame));
                } else {
                    self.root0 = Some(frame);
                    self.dir0 = Ghost(listing);
                    self.pending.push(HwStep::SetTtbr0(frame));
                }
                proof {
                    lemma_table_descriptor_round_trip(0);
                    lemma_empty_root(&self.mem, frame as int);
                    assert(table_ok(&self.mem, listing, frame as int)) by {
                        assert forall|i: int| 0 <= i < ENTRY_PER_TABLE implies #[trigger] entry_ok(
                            &self.mem,
                            listing,
                            frame as int,
                            i,
                        ) by {
                            assert(self.mem.entry(frame as int, i) == 0);
                        }
                    }
                    assert(region_wf(&self.mem, Some(frame as int), listing));
                    assert(self.page_table(high) =~= before.page_table(high));
                    mid.lemma_regime_same(self, !high);
                    assert(self.present(high) =~= before.present(high).insert((0nat, 0int))) by {
                        assert forall|name: (nat, int)| self.present(high).contains(name) == (
                        before.present(high).contains(name) || name == (0nat, 0int)) by {
                            if name.0 <= 3 && 0 <= name.1 < prefix_limit(name.0) {
                                lemma_first_vpn(name.0, name.1, 0);
                                if name.0 == 0 {
                                    assert(table_at(&self.mem, frame as int, 0, 0) == Some(
                                        frame as int,
                                    ));
                                } else {
                                    assert(table_at(
                                        &self.mem,
                                        frame as int,
                                        first_vpn(name.0, name.1),
                                        name.0,
                                    ) is None);
                                }
                            }
                        }
                    }
                    assert(self.table_frames() =~= mid.table_frames());
                    assert(self.space() == before.space().asked().with_table(
                        high,
                        frame as int,
                        (0nat, 0int),
                    ));
                    before.lemma_tables_kept(&pre, &mid);
                    assert forall|h: bool, vpn: int, level: nat|
                        0 <= vpn < VPN_LIMIT && level <= 3 && (#[trigger] before.table_on_walk(
                            h,
                            vpn,
                            level,
                        )) is Some implies self.table_on_walk(h, vpn, level)
                        == before.table_on_walk(h, vpn, level) by {
                        assert(h != high);
                        assert(mid.table_on_walk(h, vpn, level) == before.table_on_walk(
                            h,
                            vpn,
                            level,
                        ));
                    }
                }
                Ok(frame)
            },
        }
    }

    /// Hangs a fresh table below slot `idx` of `table`, a table of the
    /// regime above level 3 whose slot is invalid: asks the allocator for a
    /// page, zero-fills it and writes a table descriptor for it into the
    /// slot. Returns the fresh table. An error of the allocator, or a page
    /// that cannot serve, leaves the slot invalid.
    fn link_table(&mut self, high: bool, table: u64, idx: usize, Ghost(vpn): Ghost<int>) -> (r:
        Result<u64, &'static str>)
        requires
            old(self).wf(),
            old(self).root_spec(high) is Some,
            old(self).dir(high).contains_key(table as int),
            old(self).dir(high)[table as int].level < 3,
            idx < ENTRY_PER_TABLE,
            !desc_valid(old(self).mem.entry(table as int, idx as int)),
            0 <= vpn < VPN_LIMIT,
            old(self).table_on_walk(high, vpn, old(self).dir(high)[table as int].level) == Some(
                table as int,
            ),
            vpn_index(vpn, old(self).dir(high)[table as int].level) == idx,
        ensures
            final(self).wf(),
            old(self).same_roots(final(self)),
            final(self).page_table(false) == old(self).page_table(false),
            final(self).page_table(true) == old(self).page_table(true),
            old(self).tables_kept(final(self)),
            old(self).mem.data_kept(&final(self).mem),
            r matches Ok(f) ==> old(self).space().request(old(self).alloc.alloc_spec(1).1)
                == Ok::<int, &str>(f as int) && final(self).space() == old(self).space().asked().with_table(
                high,
                f as int,
                (
                    (old(self).dir(high)[table as int].level + 1) as nat,
                    vpn_prefix(vpn, old(self).dir(high)[table as int].level + 1),
                ),
            ),
            r matches Err(e) ==> old(self).space().request(old(self).alloc.alloc_spec(1).1)
                == Err::<int, &str>(e) && final(self).space() == old(self).space().asked(),
            r matches Ok(f) ==> final(self).table_on_walk(
                high,
                vpn,
                old(self).dir(high)[table as int].level + 1,
            ) == Some(f as int),
    {
        let ghost before = *self;
        let page = match self.alloc.alloc_pages(1) {
            Ok(p) => p,
            Err(e) => {
                proof {
                    before.lemma_regime_same(self, false);
                    before.lemma_regime_same(self, true);
                }
                return Err(e);
            },
        };
        proof {
            page.lemma_bounds();
        }
        let ghost pre = *self;
        proof {
            before.lemma_regime_same(&pre, false);
            before.lemma_regime_same(&pre, true);
            assert(pre.space() == before.space().asked());
        }
        let frame = match self.adopt_table(page) {
            Ok(f) => f,
            Err(e) => {
                proof {
                    before.lemma_tables_kept(&pre, self);
                }
                return Err(e);
            },
        };
        let ghost mid = *self;
        let desc = TableDescriptor::from_next_lvl_table_addr(Address::new(frame as usize));
        proof {
            assert(table_ok(&mid.mem, mid.dir(high), table as int));
        }
        self.mem.write(table, idx, desc);
        let ghost listing = dir_with(mid.dir(high), table as int, idx as int, frame as int);
        if high {
            self.dir1 = Ghost(listing);
        } else {
            self.dir0 = Ghost(listing);
        }
        proof {
            let m1 = mid.mem;
            let m2 = self.mem;
            let own = mid.dir(high);
            let other = mid.dir(!high);
            let root = mid.root_spec(high)->0;
            mid.mem.lemma_bounds();
            m1.lemma_data_kept(&m2);
            before.mem.lemma_data_kept_twice(&m1, &m2);
            lemma_addr_bits(frame);
            lemma_table_descriptor_round_trip(frame);
            assert(m1.entry(table as int, idx as int) == before.mem.entry(table as int, idx as int));
            assert(agree_except(&m1, &m2, own, table as int, idx as int)) by {
                assert forall|t: int, i: int|
                    own.contains_key(t) && 0 <= i < ENTRY_PER_TABLE && !(t == table && i == idx)
                    implies #[trigger] m2.entry(t, i) == m1.entry(t, i) by {
                    assert(table_ok(&m1, own, t));
                }
            }
            assert(linked(&m1, &m2, own, table as int, idx as int, frame as int));
            assert(agree(&m1, &m2, other)) by {
                assert forall|t: int, i: int|
                    other.contains_key(t) && 0 <= i < ENTRY_PER_TABLE implies #[trigger] m2.entry(
                    t,
                    i,
                ) == m1.entry(t, i) by {
                    assert(table_ok(&m1, other, t));
                }
            }
            assert forall|t: int| own.contains_key(t) implies m2.contains(t) && m2.is_table(t) by {
                assert(table_ok(&m1, own, t));
            }
            assert forall|t: int| other.contains_key(t) implies m2.contains(t) && m2.is_table(
                t,
            ) by {
                assert(table_ok(&m1, other, t));
            }
            lemma_link_wf(
                &m1,
                &m2,
                mid.root_spec(high),
                own,
                table as int,
                idx as int,
                frame as int,
            );
            lemma_agree_wf(&m1, &m2, mid.root_spec(!high), other);
            lemma_link_lookup(&m1, &m2, root, own, table as int, idx as int, frame as int);
            lemma_agree_lookup(&m1, &m2, mid.root_spec(!high), other);
            assert(mid.tables_kept(self)) by {
                assert forall|h: bool, vpn: int, level: nat|
                    0 <= vpn < VPN_LIMIT && level <= 3 && (#[trigger] mid.table_on_walk(
                        h,
                        vpn,
                        level,
                    )) is Some implies self.table_on_walk(h, vpn, level) == mid.table_on_walk(
                    h,
                    vpn,
                    level,
                ) by {
                    if h == high {
                        lemma_link_walk(
                            &m1,
                            &m2,
                            root,
                            own,
                            table as int,
                            idx as int,
                            frame as int,
                            vpn,
                            level,
                        );
                    } else {
                        assert(table_at(&m2, mid.root_spec(h)->0, vpn, level) == table_at(
                            &m1,
                            mid.root_spec(h)->0,
                            vpn,
                            level,
                        ));
                    }
                }
            }
            before.lemma_tables_kept(&pre, &mid);
            before.lemma_tables_kept_twice(&mid, self);
            let depth = before.dir(high)[table as int].level;
            lemma_walk_in_dir(&before.mem, root, before.dir(high), vpn, depth);
            lemma_prefix_step(vpn, depth);
            assert(mid.table_on_walk(high, vpn, depth) == Some(table as int));
            lemma_link_walk(
                &m1,
                &m2,
                root,
                own,
                table as int,
                idx as int,
                frame as int,
                vpn,
                depth + 1,
            );
            let name = ((depth + 1) as nat, vpn_prefix(vpn, depth + 1));
            assert(self.present(high) =~= mid.present(high).insert(name)) by {
                assert forall|n: (nat, int)| #[trigger] self.present(high).contains(n)
                    <==> mid.present(high).insert(name).contains(n) by {
                    if n.0 <= 3 && 0 <= n.1 < prefix_limit(n.0) {
                        let w = first_vpn(n.0, n.1);
                        lemma_first_vpn(n.0, n.1, vpn);
                        lemma_link_walk(
                            &m1,
                            &m2,
                            root,
                            own,
                            table as int,
                            idx as int,
                            frame as int,
                            w,
                            n.0,
                        );
                        if n.0 >= 1 {
                            lemma_prefix_step(w, (n.0 - 1) as nat);
                        }
                        if n == name {
                            lemma_walk_by_prefix(&m1, root, w, vpn, depth);
                        } else if table_at(&m1, root, w, n.0) is None && table_at(
                            &m2,
                            root,
                            w,
                            n.0,
                        ) is Some {
                            lemma_walk_in_dir(&m1, root, own, w, depth);
                        }
                    }
                }
            }
            assert(self.page_table(!high) == mid.page_table(!high));
            let far = !high;
            assert forall|w: int, l: nat| 0 <= w < VPN_LIMIT && l <= 3 implies #[trigger] self.table_on_walk(
                far,
                w,
                l,
            ) == mid.table_on_walk(far, w, l) by {
                if mid.root_spec(far) is Some {
                    assert(table_at(&m2, mid.root_spec(far)->0, w, l) == table_at(
                        &m1,
                        mid.root_spec(far)->0,
                        w,
                        l,
                    ));
                }
            }
            mid.lemma_regime_same(self, far);
            assert(self.table_frames() =~= mid.table_frames());
            assert(self.space() == before.space().asked().with_table(high, frame as int, name));
        }
        Ok(frame)
    }

    /// Writes the leaf `desc` into slot `idx` of `table`, a level 3 table of
    /// the regime.
    fn write_leaf(
        &mut self,
        high: bool,
        table: u64,
        idx: usize,
        desc: PageDescriptor,
        Ghost(vpn): Ghost<int>,
    )
        requires
            old(self).wf(),
            old(self).root_spec(high) is Some,
            old(self).dir(high).contains_key(table as int),
            old(self).dir(high)[table as int].level == 3,
            idx < ENTRY_PER_TABLE,
            desc_valid(desc.value),
            desc_type_table(desc.value),
            0 <= vpn < VPN_LIMIT,
            old(self).table_on_walk(high, vpn, 3) == Some(table as int),
            vpn_index(vpn, 3) == idx,
        ensures
            final(self).wf(),
            old(self).same_roots(final(self)),
            final(self).alloc == old(self).alloc,
            final(self).page_table(!high) == old(self).page_table(!high),
            old(self).tables_kept(final(self)),
            old(self).mem.data_kept(&final(self).mem),
            final(self).page_table(high) == old(self).page_table(high).insert(vpn, desc.value),
            final(self).space() == old(self).space().with_page(high, vpn, desc.value),
    {
        let ghost before = *self;
        proof {
            assert(table_ok(&before.mem, before.dir(high), table as int));
        }
        self.mem.write(table, idx, TableDescriptor { value: desc.value });
        proof {
            let m1 = before.mem;
            let m2 = self.mem;
            let own = before.dir(high);
            let other = before.dir(!high);
            let root = before.root_spec(high)->0;
            m1.lemma_data_kept(&m2);
            assert(agree_except(&m1, &m2, own, table as int, idx as int)) by {
                assert forall|t: int, i: int|
                    own.contains_key(t) && 0 <= i < ENTRY_PER_TABLE && !(t == table && i == idx)
                    implies #[trigger] m2.entry(t, i) == m1.entry(t, i) by {
                    assert(table_ok(&m1, own, t));
                }
            }
            assert(leaf_written(&m1, &m2, own, table as int, idx as int, desc.value));
            assert(agree(&m1, &m2, other)) by {
                assert forall|t: int, i: int|
                    other.contains_key(t) && 0 <= i < ENTRY_PER_TABLE implies #[trigger] m2.entry(
                    t,
                    i,
                ) == m1.entry(t, i) by {
                    assert(table_ok(&m1, other, t));
                }
            }
            assert forall|t: int| own.contains_key(t) implies m2.contains(t) && m2.is_table(t) by {
                assert(table_ok(&m1, own, t));
            }
            assert forall|t: int| other.contains_key(t) implies m2.contains(t) && m2.is_table(
                t,
            ) by {
                assert(table_ok(&m1, other, t));
            }
            lemma_leaf_wf(&m1, &m2, before.root_spec(high), own, table as int, idx as int, desc.value);
            lemma_agree_wf(&m1, &m2, before.root_spec(!high), other);
            lemma_agree_lookup(&m1, &m2, before.root_spec(!high), other);
            lemma_leaf_mappings(
                &m1,
                &m2,
                root,
                own,
                table as int,
                idx as int,
                desc.value,
                vpn,
            );
            assert(before.tables_kept(self)) by {
                assert forall|h: bool, vpn: int, level: nat|
                    0 <= vpn < VPN_LIMIT && level <= 3 && (#[trigger] before.table_on_walk(
                        h,
                        vpn,
                        level,
                    )) is Some implies self.table_on_walk(h, vpn, level) == before.table_on_walk(
                    h,
                    vpn,
                    level,
                ) by {
                    if h == high {
                        crate::arch::walk::lemma_walk_off_slot(
                            &m1,
                            &m2,
                            root,
                            own,
                            table as int,
                            idx as int,
                            vpn,
                            level,
                        );
                    } else {
                        assert(table_at(&m2, before.root_spec(h)->0, vpn, level) == table_at(
                            &m1,
                            before.root_spec(h)->0,
                            vpn,
                            level,
                        ));
                    }
                }
            }
            let far = !high;
            assert forall|w: int, l: nat| 0 <= w < VPN_LIMIT && l <= 3 implies #[trigger] self.table_on_walk(
                far,
                w,
                l,
            ) == before.table_on_walk(far, w, l) by {
                if before.root_spec(far) is Some {
                    assert(table_at(&m2, before.root_spec(far)->0, w, l) == table_at(
                        &m1,
                        before.root_spec(far)->0,
                        w,
                        l,
                    ));
                }
            }
            before.lemma_regime_same(self, far);
            assert(self.present(high) =~= before.present(high)) by {
                assert forall|n: (nat, int)| self.present(high).contains(n) == before.present(
                    high,
                ).contains(n) by {
                    if n.0 <= 3 && 0 <= n.1 < prefix_limit(n.0) {
                        lemma_first_vpn(n.0, n.1, vpn);
                    }
                }
            }
            assert(self.table_frames() =~= before.table_frames());
            assert(self.space() == before.space().with_page(high, vpn, desc.value));
        }
    }

    /// Maps the page of `vaddr` to the page of `paddr` in the high (`true`)
    /// or low (`false`) regime.
    ///
    /// The walk starts at the root, which is created if need be, and goes
    /// down one level per step. A missing table is allocated, zero-filled
    /// and linked; at the last level the leaf is written. A page that is
    /// mapped already, by a page descriptor or as a part of a block at
    /// level 1 or 2, is never overwritten, and a block is never split.
    ///
    /// On success exactly the one page is added. On any error the mappings
    /// are what they were. A page that was mapped gives the mapping
    /// conflict, with nothing allocated and the memory as it was; any other
    /// error comes from the allocation of a table, which cannot happen
    /// where all tables for the page exist. No byte outside the granules
    /// that serve as tables changes.
    pub fn map_page(
        &mut self,
        high: bool,
        paddr: Address<Physical>,
        vaddr: Address<Virtual>,
        attributes: AttributeFields,
    ) -> (r: Result<(), &'static str>)
        requires
            old(self).wf(),
        ensures
            final(self).wf(),
            old(self).map_page_post(final(self), high, paddr@, vaddr@, attributes, r),
    {
        proof {
            vaddr.lemma_bounds();
            paddr.lemma_bounds();
        }
        let v = vaddr.into_usize() as u64;
        let ghost vpn = vpn_of(v);
        let ghost start = *self;
        let ghost leaf_bits = page_descriptor_bits(paddr@ as u64, attributes);
        proof {
            lemma_level_mask(v, 0);
            if start.root_spec(high) is None {
                assert(start.page_table(high) =~= Map::<int, u64>::empty());
            }
        }
        let mut table = match self.root_or_init(high) {
            Ok(t) => t,
            Err(e) => {
                return Err(e);
            },
        };
        let ghost root = table as int;
        let mut mask: u64 = 0xFF80_0000_0000;
        let mut level = MmuLevel::Level0;
        let ghost mut done = false;
        let ghost mut built = self.space();
        proof {
            start.lemma_depth(high, vpn);
            self.lemma_depth(high, vpn);
            if start.root_spec(high) is None {
                assert(self.table_on_walk(high, vpn, 0) == Some(root));
                assert(self.regime(high).depth(vpn) == 1) by {
                    self.lemma_present(high, vpn, 1);
                    if self.table_on_walk(high, vpn, 1) is Some {
                        self.lemma_present(high, vpn, 0);
                        // A root that has just been made leads nowhere.
                        assert(self.space() == start.space().asked().with_table(
                            high,
                            root,
                            (0nat, 0int),
                        ));
                        assert(!start.present(high).contains((1nat, vpn_prefix(vpn, 1))));
                    }
                }
            }
        }
        while mask > GRANULE_SIZE as u64
            invariant
                self.wf(),
                start == *old(self),
                start.wf(),
                start.page_table(high).contains_key(vpn) ==> self.space() == start.space(),
                start.page_table(high).contains_key(vpn) ==> self.mem == start.mem,
                start.root_spec(high) is None ==> start.space().request(
                    start.alloc.alloc_spec(1).1,
                ) == Ok::<int, &str>(root),
                !done ==> start.space().build(high, vpn, start.regime(high).depth(vpn))
                    == self.space().build(high, vpn, self.regime(high).depth(vpn)),
                done ==> start.space().build(high, vpn, start.regime(high).depth(vpn)) == (
                    built,
                    Ok::<(), &str>(()),
                ),
                done ==> self.space() == built.with_page(high, vpn, leaf_bits),
                self.root_spec(high) == Some(root),
                self.root_spec(!high) == start.root_spec(!high),
                self.enabled == start.enabled,
                self.pending@ == start.steps_with_root(high, Some(root)),
                self.mem.base() == start.mem.base(),
                self.mem.page_count() == start.mem.page_count(),
                self.page_table(!high) == start.page_table(!high),
                start.tables_kept(self),
                start.mem.data_kept(&self.mem),
                start.root_spec(high) is Some ==> start.root_spec(high) == Some(root),
                vpn == vpn_of(v),
                v == vaddr@,
                0 <= vpn < VPN_LIMIT,
                leaf_bits == page_descriptor_bits(paddr@ as u64, attributes),
                !done ==> mask == level_mask(level.index()),
                !done ==> self.page_table(high) == start.page_table(high),
                !done ==> table_at(&self.mem, root, vpn, level.index()) == Some(table as int),
                done ==> mask == 0xFF8,
                done ==> !start.page_table(high).contains_key(vpn),
                done ==> self.page_table(high) == start.page_table(high).insert(vpn, leaf_bits),
            decreases mask,
        {
            proof {
                lemma_level_mask(v, level.index());
                lemma_walk_in_dir(&self.mem, root, self.dir(high), vpn, level.index());
                lemma_prefix_step(vpn, level.index());
                assert(entry_ok(&self.mem, self.dir(high), table as int, vpn_index(vpn, level.index())));
            }
            let idx = index_of_addr(v, mask);
            let entry = self.mem.read(table, idx);
            let ghost here = *self;
            match EntryType::from_entry(&entry, level) {
                Some(EntryType::Block(_)) => {
                    proof {
                        let depth = level.index();
                        assert(block_at(&self.mem, root, vpn, depth) == Some(entry.value));
                        lemma_block_leaf(&self.mem, root, vpn, depth);
                        lemma_page_of_block(entry.value, depth, vpn);
                        assert(lookup(&self.mem, Some(root), vpn) == Some(
                            page_of_block(entry.value, depth, vpn),
                        ));
                        assert(self.page_table(high).contains_key(vpn));
                    }
                    return Err("Address already mapped in a block");
                },
                Some(EntryType::Page(_)) => {
                    proof {
                        lemma_no_block(&self.mem, root, vpn, 3);
                        assert(lookup(&self.mem, Some(root), vpn) == Some(entry.value));
                        assert(self.page_table(high).contains_key(vpn));
                    }
                    return Err("Address already mapped in a page");
                },
                None => {
                    return Err("Block descriptor cannot be in level0");
                },
                Some(EntryType::Table(t)) => {
                    table = t.next_level_table_addr();
                    level = level.next_lvl().unwrap();
                    proof {
                        assert(table_at(&self.mem, root, vpn, level.index()) == Some(table as int));
                    }
                },
                Some(EntryType::Invalid) => {
                    if level == MmuLevel::Level3 {
                        proof {
                            lemma_no_block(&self.mem, root, vpn, 3);
                            assert(lookup(&self.mem, Some(root), vpn) is None);
                            assert(!self.page_table(high).contains_key(vpn));
                            lemma_page_descriptor_round_trip(paddr@ as u64, attributes);
                        }
                        proof {
                            self.lemma_missing(high, vpn, 3);
                            self.lemma_depth(high, vpn);
                            built = self.space();
                        }
                        let desc = PageDescriptor::from_output_addr(paddr, attributes);
                        self.write_leaf(high, table, idx, desc, Ghost(vpn));
                        proof {
                            done = true;
                            assert(here.table_on_walk(high, vpn, 3) == Some(table as int));
                            start.lemma_tables_kept_twice(&here, self);
                            start.mem.lemma_data_kept_twice(&here.mem, &self.mem);
                        }
                    } else {
                        proof {
                            let depth = level.index();
                            assert(table_at(&self.mem, root, vpn, depth + 1) is None);
                            lemma_walk_stops(&self.mem, root, vpn, depth + 1, 3);
                            lemma_no_block(&self.mem, root, vpn, depth);
                            assert(lookup(&self.mem, Some(root), vpn) is None);
                            assert(!start.page_table(high).contains_key(vpn));
                            if start.root_spec(high) is Some {
                                if start.table_on_walk(high, vpn, 3) is Some {
                                    assert(self.table_on_walk(high, vpn, 3) == start.table_on_walk(
                                        high,
                                        vpn,
                                        3,
                                    ));
                                }
                            }
                            assert(!start.tables_present(high, vaddr@));
                            self.lemma_missing(high, vpn, depth);
                            self.lemma_depth(high, vpn);
                        }
                        table = match self.link_table(high, table, idx, Ghost(vpn)) {
                            Ok(t) => t,
                            Err(e) => {
                                proof {
                                    start.lemma_tables_kept_twice(&here, self);
                                    start.mem.lemma_data_kept_twice(&here.mem, &self.mem);
                                }
                                return Err(e);
                            },
                        };
                        proof {
                            start.lemma_tables_kept_twice(&here, self);
                            start.mem.lemma_data_kept_twice(&here.mem, &self.mem);
                            let depth = level.index();
                            assert(self.table_on_walk(high, vpn, depth + 1) == Some(table as int));
                            if depth + 1 < 3 {
                                lemma_walk_stops(&here.mem, root, vpn, depth + 1, depth + 2);
                                here.lemma_present(high, vpn, depth + 2);
                                self.lemma_present(high, vpn, depth + 2);
                                lemma_prefix_step(vpn, depth + 1);
                                assert(self.table_on_walk(high, vpn, depth + 2) is None);
                            }
                            self.lemma_missing(high, vpn, depth + 1);
                            self.lemma_depth(high, vpn);
                        }
                        level = level.next_lvl().unwrap();
                    }
                },
            }
            mask = mask >> 9;
        }
        Ok(())
    }

    /// Translates a virtual address as the hardware would: walks the
    /// regime's tables and, where the page is mapped, by a page descriptor
    /// or as a part of a block, returns the physical address of the byte
    /// and the attributes of its page or block. An address whose
    /// translation exceeds the machine word of the running program has no
    /// answer.
    pub fn translate(&self, high: bool, vaddr: Address<Virtual>) -> (r: Option<
        (Address<Physical>, AttributeFields),
    >)
        requires
            self.wf(),
        ensures
            r matches Some(pair) ==> self.translate_spec(high, vaddr@) == Some((pair.0@, pair.1)),
            r is None ==> match self.translate_spec(high, vaddr@) {
                Some(pair) => pair.0 > usize::MAX,
                None => true,
            },
    {
        proof {
            vaddr.lemma_bounds();
        }
        let v = vaddr.into_usize() as u64;
        let ghost vpn = vpn_of(v);
        let current = if high {
            self.root1
        } else {
            self.root0
        };
        let mut table = match current {
            Some(t) => t,
            None => {
                proof {
                    assert(self.page_table(high) =~= Map::<int, u64>::empty());
                }
                return None;
            },
        };
        let ghost root = table as int;
        let mut mask: u64 = 0xFF80_0000_0000;
        let mut level = MmuLevel::Level0;
        proof {
            lemma_level_mask(v, 0);
        }
        loop
            invariant
                self.wf(),
                self.root_spec(high) == Some(root),
                vpn == vpn_of(v),
                v == vaddr@,
                0 <= vpn < VPN_LIMIT,
                mask == level_mask(level.index()),
                table_at(&self.mem, root, vpn, level.index()) == Some(table as int),
            decreases 3 - level.index(),
        {
            proof {
                lemma_level_mask(v, level.index());
                lemma_walk_in_dir(&self.mem, root, self.dir(high), vpn, level.index());
                lemma_prefix_step(vpn, level.index());
                assert(entry_ok(&self.mem, self.dir(high), table as int, vpn_index(vpn, level.index())));
            }
            let idx = index_of_addr(v, mask);
            let entry = self.mem.read(table, idx);
            match EntryType::from_entry(&entry, level) {
                Some(EntryType::Table(t)) => {
                    table = t.next_level_table_addr();
                    level = level.next_lvl().unwrap();
                    mask = mask >> 9;
                    proof {
                        assert(table_at(&self.mem, root, vpn, level.index()) == Some(table as int));
                    }
                },
                Some(EntryType::Block(block)) => {
                    let span: u64 = match level {
                        MmuLevel::Level1 => 0x4000_0000,
                        _ => 0x20_0000,
                    };
                    proof {
                        let depth = level.index();
                        assert(block_at(&self.mem, root, vpn, depth) == Some(entry.value));
                        lemma_block_leaf(&self.mem, root, vpn, depth);
                        lemma_page_of_block(entry.value, depth, vpn);
                        lemma_block_byte(entry.value, depth, v);
                        assert(lookup(&self.mem, Some(root), vpn) == Some(
                            page_of_block(entry.value, depth, vpn),
                        ));
                        assert(self.page_table(high).contains_key(vpn));
                        lemma_addr_bits(entry.value);
                        assert(span == block_span(depth));
                    }
                    let base = block.next_level_table_addr();
                    assert(base % span <= base);
                    let out = base - base % span + v % span;
                    let attributes = PageDescriptor { value: entry.value }.attributes();
                    if out > usize::MAX as u64 {
                        return None;
                    }
                    return Some((Address::new(out as usize), attributes));
                },
                Some(EntryType::Page(page)) => {
                    proof {
                        lemma_no_block(&self.mem, root, vpn, 3);
                        assert(lookup(&self.mem, Some(root), vpn) == Some(entry.value));
                        assert(self.page_table(high).contains_key(vpn));
                        lemma_addr_bits(entry.value);
                    }
                    let out = page.output_addr() + v % (GRANULE_SIZE as u64);
                    let attributes = page.attributes();
                    if out > usize::MAX as u64 {
                        return None;
                    }
                    return Some((Address::new(out as usize), attributes));
                },
                _ => {
                    proof {
                        let depth = level.index();
                        if depth < 3 {
                            assert(table_at(&self.mem, root, vpn, depth + 1) is None);
                            lemma_walk_stops(&self.mem, root, vpn, depth + 1, 3);
                        }
                        lemma_no_block(&self.mem, root, vpn, depth);
                        assert(lookup(&self.mem, Some(root), vpn) is None);
                        assert(!self.page_table(high).contains_key(vpn));
                    }
                    return None;
                },
            }
        }
    }

    /// Whether a byte can be stored at a physical address through this
    /// unit: the memory holds the address, and its granule is no
    /// translation table.
    pub open spec fn storable(&self, paddr: int) -> bool {
        &&& self.memory().holds(paddr)
        &&& !self.memory().is_table(crate::arch::phys::frame_of(self.memory().base(), paddr))
    }

    /// The physical address at which byte `i` of a copy to `base` lands, if
    /// it can be stored and fits the machine word of the running program.
    pub open spec fn target(&self, high: bool, base: int, i: int) -> Option<int> {
        match self.translate_spec(high, base + i) {
            Some((p, _)) => if self.storable(p) && p <= usize::MAX {
                Some(p)
            } else {
                None
            },
            None => None,
        }
    }

    /// The byte at `paddr` after the first `count` bytes of `bytes` have
    /// been copied to the virtual addresses from `base`, one after the
    /// other; `before` is the byte there at the start.
    pub open spec fn byte_after(
        &self,
        high: bool,
        base: int,
        bytes: Seq<u8>,
        count: nat,
        paddr: int,
        before: u8,
    ) -> u8
        decreases count,
    {
        if count == 0 {
            before
        } else if self.target(high, base, count - 1) == Some(paddr) {
            bytes[count - 1]
        } else {
            self.byte_after(high, base, bytes, (count - 1) as nat, paddr, before)
        }
    }

    /// Why byte `i` of a copy to `base` cannot be stored. A translation
    /// beyond the machine word of the running program counts as none.
    pub open spec fn copy_failure(&self, high: bool, base: int, i: int) -> &'static str {
        match self.translate_spec(high, base + i) {
            Some((p, _)) => if p > usize::MAX {
                "Address is not mapped"
            } else if !self.memory().holds(p) {
                "Mapped address is outside of the physical memory"
            } else {
                "Mapped address lies in a translation table"
            },
            None => "Address is not mapped",
        }
    }

    /// What a copy does, from the unit before to the unit after and the
    /// result.
    ///
    /// Nothing changes but bytes of the memory outside the translation
    /// tables. The copy succeeds exactly if every byte has a target; then
    /// every byte of the memory is what the copy of all of `bytes` leaves
    /// there. Otherwise the error tells why the first byte without a target
    /// has none, and the bytes before that one have been copied.
    pub open spec fn copy_post(
        &self,
        after: &Self,
        high: bool,
        base: int,
        bytes: Seq<u8>,
        r: Result<(), &'static str>,
    ) -> bool {
        &&& after.is_enabled() == self.is_enabled()
        &&& after.pending_steps() == self.pending_steps()
        &&& after.allocator() == self.allocator()
        &&& after.memory().base() == self.memory().base()
        &&& after.memory().page_count() == self.memory().page_count()
        &&& forall|h: bool| after.root_spec(h) == self.root_spec(h)
        &&& forall|h: bool| after.page_table(h) == self.page_table(h)
        &&& self.tables_kept(after)
        &&& after.space() == self.space()
        &&& r is Ok <==> forall|i: int|
            0 <= i < bytes.len() ==> (#[trigger] self.target(high, base, i)) is Some
        &&& r is Ok ==> forall|a: int|
            self.memory().holds(a) ==> #[trigger] after.memory().byte(a) == self.byte_after(
                high,
                base,
                bytes,
                bytes.len(),
                a,
                self.memory().byte(a),
            )
        &&& r is Err ==> exists|k: int|
            0 <= k < bytes.len() && (#[trigger] self.target(high, base, k)) is None && r == Err::<
                (),
                &str,
            >(self.copy_failure(high, base, k)) && (forall|i: int|
                0 <= i < k ==> (#[trigger] self.target(high, base, i)) is Some) && forall|a: int|
                self.memory().holds(a) ==> #[trigger] after.memory().byte(a) == self.byte_after(
                    high,
                    base,
                    bytes,
                    k as nat,
                    a,
                    self.memory().byte(a),
                )
    }

    /// Copies `region` to the virtual addresses from `base` in a regime,
    /// byte by byte, each through the translation of its own address.
    ///
    /// The copy fails at the first byte whose address is not mapped, whose
    /// target the memory does not hold, or whose target lies in a
    /// translation table; the bytes before it have been copied by then.
    /// The mappings never change.
    pub fn copy_to(&mut self, high: bool, base: Address<Virtual>, region: &[u8]) -> (r: Result<
        (),
        &'static str,
    >)
        requires
            old(self).wf(),
            base@ + region@.len() <= usize::MAX,
        ensures
            final(self).wf(),
            old(self).copy_post(final(self), high, base@, region@, r),
    {
        let ghost start = *self;
        let start_addr = base.into_usize();
        let mut i: usize = 0;
        while i < region.len()
            invariant
                self.wf(),
                start == *old(self),
                start.wf(),
                start_addr == base@,
                base@ + region@.len() <= usize::MAX,
                i <= region@.len(),
                start.same_roots(self),
                self.alloc == start.alloc,
                self.dir0 == start.dir0,
                self.dir1 == start.dir1,
                forall|f: int| self.mem.is_table(f) == start.mem.is_table(f),
                agree(&start.mem, &self.mem, start.dir0@),
                agree(&start.mem, &self.mem, start.dir1@),
                self.page_table(false) == start.page_table(false),
                self.page_table(true) == start.page_table(true),
                forall|j: int| 0 <= j < i ==> (#[trigger] start.target(high, base@, j)) is Some,
                forall|a: int|
                    start.mem.holds(a) ==> #[trigger] self.mem.byte(a) == start.byte_after(
                        high,
                        base@,
                        region@,
                        i as nat,
                        a,
                        start.mem.byte(a),
                    ),
            decreases region@.len() - i,
        {
            let vaddr = Address::<Virtual>::new(start_addr + i);
            let ghost k = i as int;
            proof {
                assert(self.translate_spec(high, vaddr@) == start.translate_spec(high, base@ + k));
            }
            let target = match self.translate(high, vaddr) {
                Some((p, _)) => p.into_usize() as u64,
                None => {
                    proof {
                        start.lemma_agree_kept(self);
                    start.lemma_space_kept(self);
                        assert(start.target(high, base@, k) is None);
                        start.lemma_copy_stopped(self, high, base@, region@, k, "Address is not mapped");
                    }
                    return Err("Address is not mapped");
                },
            };
            if !self.mem.has_byte(target) {
                proof {
                    start.lemma_agree_kept(self);
                    start.lemma_space_kept(self);
                    assert(start.target(high, base@, k) is None);
                    start.lemma_copy_stopped(
                        self,
                        high,
                        base@,
                        region@,
                        k,
                        "Mapped address is outside of the physical memory",
                    );
                }
                return Err("Mapped address is outside of the physical memory");
            }
            let frame = target - (target - self.mem.start()) % (GRANULE_SIZE as u64);
            proof {
                self.mem.lemma_frame_of(target as int);
            }
            if self.mem.table_at(frame) {
                proof {
                    start.lemma_agree_kept(self);
                    start.lemma_space_kept(self);
                    assert(start.target(high, base@, k) is None);
                    start.lemma_copy_stopped(
                        self,
                        high,
                        base@,
                        region@,
                        k,
                        "Mapped address lies in a translation table",
                    );
                }
                return Err("Mapped address lies in a translation table");
            }
            proof {
                assert(start.target(high, base@, k) == Some(target as int));
            }
            self.store_byte(target, region[i]);
            proof {
                assert forall|a: int| start.mem.holds(a) implies #[trigger] self.mem.byte(a)
                    == start.byte_after(
                    high,
                    base@,
                    region@,
                    (i + 1) as nat,
                    a,
                    start.mem.byte(a),
                ) by {
                    assert(start.byte_after(
                        high,
                        base@,
                        region@,
                        (i + 1) as nat,
                        a,
                        start.mem.byte(a),
                    ) == if start.target(high, base@, k) == Some(a) {
                        region@[k]
                    } else {
                        start.byte_after(high, base@, region@, i as nat, a, start.mem.byte(a))
                    });
                }
            }
            i = i + 1;
        }
        proof {
            start.lemma_agree_kept(self);
                    start.lemma_space_kept(self);
        }
        Ok(())
    }

    /// Stores one byte outside the translation tables.
    fn store_byte(&mut self, target: u64, value: u8)
        requires
            old(self).wf(),
            old(self).mem.holds(target as int),
            !old(self).mem.is_table(crate::arch::phys::frame_of(old(self).mem.base(), target as int)),
        ensures
            final(self).wf(),
            old(self).same_roots(final(self)),
            final(self).alloc == old(self).alloc,
            final(self).dir0 == old(self).dir0,
            final(self).dir1 == old(self).dir1,
            forall|f: int| final(self).mem.is_table(f) == old(self).mem.is_table(f),
            agree(&old(self).mem, &final(self).mem, old(self).dir0@),
            agree(&old(self).mem, &final(self).mem, old(self).dir1@),
            final(self).page_table(false) == old(self).page_table(false),
            final(self).page_table(true) == old(self).page_table(true),
            final(self).mem.byte(target as int) == value,
            forall|a: int|
                old(self).mem.holds(a) && a != target ==> #[trigger] final(self).mem.byte(a) == old(self).mem.byte(a),
    {
        let ghost here = *self;
        proof {
            self.mem.lemma_frame_of(target as int);
        }
        self.mem.write_byte(target, value);
        proof {
            let m1 = here.mem;
            let m2 = self.mem;
            assert(agree(&m1, &m2, here.dir0@)) by {
                assert forall|t: int, k: int|
                    here.dir0@.contains_key(t) && 0 <= k < ENTRY_PER_TABLE implies #[trigger] m2.entry(
                    t,
                    k,
                ) == m1.entry(t, k) by {
                    assert(table_ok(&m1, here.dir0@, t));
                }
            }
            assert(agree(&m1, &m2, here.dir1@)) by {
                assert forall|t: int, k: int|
                    here.dir1@.contains_key(t) && 0 <= k < ENTRY_PER_TABLE implies #[trigger] m2.entry(
                    t,
                    k,
                ) == m1.entry(t, k) by {
                    assert(table_ok(&m1, here.dir1@, t));
                }
            }
            assert forall|t: int| here.dir0@.contains_key(t) implies m2.contains(t)
                && m2.is_table(t) by {
                assert(table_ok(&m1, here.dir0@, t));
            }
            assert forall|t: int| here.dir1@.contains_key(t) implies m2.contains(t)
                && m2.is_table(t) by {
                assert(table_ok(&m1, here.dir1@, t));
            }
            lemma_agree_wf(&m1, &m2, here.root_spec(false), here.dir0@);
            lemma_agree_wf(&m1, &m2, here.root_spec(true), here.dir1@);
            lemma_agree_lookup(&m1, &m2, here.root_spec(false), here.dir0@);
            lemma_agree_lookup(&m1, &m2, here.root_spec(true), here.dir1@);
        }
    }

    /// What holds when a copy stops at byte `k`.
    proof fn lemma_copy_stopped(
        &self,
        after: &Self,
        high: bool,
        base: int,
        bytes: Seq<u8>,
        k: int,
        message: &'static str,
    )
        requires
            0 <= k < bytes.len(),
            self.same_roots(after),
            after.alloc == self.alloc,
            after.page_table(false) == self.page_table(false),
            after.page_table(true) == self.page_table(true),
            self.tables_kept(after),
            after.space() == self.space(),
            self.target(high, base, k) is None,
            message == self.copy_failure(high, base, k),
            forall|i: int| 0 <= i < k ==> (#[trigger] self.target(high, base, i)) is Some,
            forall|a: int|
                self.mem.holds(a) ==> #[trigger] after.mem.byte(a) == self.byte_after(
                    high,
                    base,
                    bytes,
                    k as nat,
                    a,
                    self.mem.byte(a),
                ),
        ensures
            self.copy_post(after, high, base, bytes, Err::<(), &str>(message)),
    {
        assert forall|h: bool| after.page_table(h) == self.page_table(h) by {
            if h {
            } else {
            }
        }
    }

    /// A unit whose memory agrees with this one's on the tables of both
    /// regimes has every table on every walk that this one has.
    proof fn lemma_agree_kept(&self, after: &Self)
        requires
            self.wf(),
            after.root0 == self.root0,
            after.root1 == self.root1,
            agree(&self.mem, &after.mem, self.dir0@),
            agree(&self.mem, &after.mem, self.dir1@),
        ensures
            self.tables_kept(after),
    {
        lemma_agree_lookup(&self.mem, &after.mem, self.root_spec(false), self.dir0@);
        lemma_agree_lookup(&self.mem, &after.mem, self.root_spec(true), self.dir1@);
        assert forall|high: bool, vpn: int, level: nat|
            0 <= vpn < VPN_LIMIT && level <= 3 && (#[trigger] self.table_on_walk(high, vpn, level))
                is Some implies after.table_on_walk(high, vpn, level) == self.table_on_walk(
            high,
            vpn,
            level,
        ) by {
            let r = self.root_spec(high)->0;
            assert(table_at(&after.mem, r, vpn, level) == table_at(&self.mem, r, vpn, level));
        }
    }

    /// Maps the pages of `vrange` to the pages of `prange`, in rising order,
    /// in one regime. Both ranges start on a granule boundary.
    ///
    /// Ranges of different sizes are refused before anything is done. An
    /// empty range is mapped without touching the unit. Mapping stops at the
    /// first page that cannot be mapped; the pages before it stay mapped.
    pub fn map_range_with(
        &mut self,
        high: bool,
        prange: AddressRange<Physical>,
        vrange: AddressRange<Virtual>,
        attribute: AttributeFields,
    ) -> (r: Result<(), &'static str>)
        requires
            old(self).wf(),
            prange.wf(),
            vrange.wf(),
            prange.base() % (GRANULE_SIZE as int) == 0,
            vrange.base() % (GRANULE_SIZE as int) == 0,
        ensures
            final(self).wf(),
            old(self).map_range_post(
                final(self),
                high,
                prange.base(),
                prange.len(),
                vrange.base(),
                vrange.len(),
                attribute,
                r,
            ),
    {
        if prange.size() != vrange.size() {
            proof {
                self.lemma_regime_same(self, false);
                assert(range_mapped(
                    self.page_table(high),
                    prange.base(),
                    vrange.base(),
                    attribute,
                    0int as nat,
                ) == self.page_table(high));
            }
            return Err("Ranges differ in size");
        }
        proof {
            prange.lemma_bounds();
            vrange.lemma_bounds();
            lemma_page_count(prange.len());
        }
        let size = prange.size();
        let count = size / GRANULE_SIZE + if size % GRANULE_SIZE != 0 {
            1
        } else {
            0
        };
        let pbase = prange.addr().into_usize();
        let vbase = vrange.addr().into_usize();
        let ghost start = *self;
        let mut i: usize = 0;
        while i < count
            invariant
                self.wf(),
                start == *old(self),
                start.wf(),
                prange.wf(),
                vrange.wf(),
                prange.len() == vrange.len(),
                size == prange.len(),
                count == page_count_spec(prange.len()),
                pbase == prange.base(),
                vbase == vrange.base(),
                pbase % GRANULE_SIZE == 0,
                vbase % GRANULE_SIZE == 0,
                i <= count,
                self.enabled == start.enabled,
                self.pending@ == start.steps_with_root(high, self.root_spec(high)),
                start.root_spec(high) is Some ==> self.root_spec(high) == start.root_spec(high),
                start.root_spec(high) is None ==> (self.root_spec(high) matches Some(root)
                    ==> start.space().request(start.alloc.alloc_spec(1).1) == Ok::<int, &str>(
                    root,
                )),
                self.mem.base() == start.mem.base(),
                self.mem.page_count() == start.mem.page_count(),
                self.root_spec(!high) == start.root_spec(!high),
                self.page_table(!high) == start.page_table(!high),
                start.tables_kept(self),
                start.mem.data_kept(&self.mem),
                i == 0 ==> self.mem == start.mem && self.root_spec(high) == start.root_spec(high)
                    && self.alloc == start.alloc,
                self.root_spec(high) is None ==> i == 0,
                start.space().map_range(high, pbase as int, vbase as int, attribute, i as nat) == (
                    self.space(),
                    Ok::<(), &str>(()),
                ),
                self.page_table(high) == range_mapped(
                    start.page_table(high),
                    pbase as int,
                    vbase as int,
                    attribute,
                    i as nat,
                ),
                forall|j: int|
                    0 <= j < i ==> !(#[trigger] start.is_mapped_at(high, vbase as int, j)),
            decreases count - i,
        {
            proof {
                lemma_page_count(prange.len());
                assert(i * GRANULE_SIZE < size) by (nonlinear_arith)
                    requires
                        (count - 1) * GRANULE_SIZE < size,
                        i < count,
                        0 <= i,
                ;
            }
            let paddr = Address::<Physical>::new(pbase + i * GRANULE_SIZE);
            let vaddr = Address::<Virtual>::new(vbase + i * GRANULE_SIZE);
            let ghost here = *self;
            proof {
                lemma_range_mapped_domain(
                    start.page_table(high),
                    pbase as int,
                    vbase as int,
                    attribute,
                    i as nat,
                    vpn_of(vaddr@ as u64),
                );
            }
            match self.map_page(high, paddr, vaddr, attribute) {
                Ok(()) => {},
                Err(e) => {
                    proof {
                        start.lemma_tables_kept_twice(&here, self);
                        start.mem.lemma_data_kept_twice(&here.mem, &self.mem);
                        let k = i as int;
                        assert(start.space().map_range(
                            high,
                            pbase as int,
                            vbase as int,
                            attribute,
                            (i + 1) as nat,
                        ) == (self.space(), Err::<(), &str>(e)));
                        start.space().lemma_map_range_stops(
                            high,
                            pbase as int,
                            vbase as int,
                            attribute,
                            (i + 1) as nat,
                            count as nat,
                        );
                        assert(range_mapped(
                            start.page_table(high),
                            prange.base(),
                            vrange.base(),
                            attribute,
                            k as nat,
                        ) == self.page_table(high));
                        if page_count_spec(prange.len()) <= VPN_LIMIT && start.ready_at(
                            high,
                            vrange.base(),
                            k,
                        ) {
                            lemma_level_mask(vaddr@ as u64, 0);
                            assert(here.tables_present(high, vaddr@));
                            assert(here.is_mapped(high, vaddr@));
                            let j = choose|j: int|
                                0 <= j < i && vpn_of(vaddr@ as u64) == #[trigger] vpn_of(
                                    (vbase + j * GRANULE_SIZE) as u64,
                                );
                            lemma_vpn_distinct(vbase as int, k, j);
                            assert(false);
                        }
                    }
                    return Err(e);
                },
            }
            proof {
                start.lemma_tables_kept_twice(&here, self);
                start.mem.lemma_data_kept_twice(&here.mem, &self.mem);
                assert(!start.is_mapped_at(high, vbase as int, i as int));
                assert(self.page_table(high).contains_key(vpn_of(vaddr@ as u64)));
                assert(self.root_spec(high) is Some);
            }
            i = i + 1;
        }
        Ok(())
    }

    /// Maps the pages of a physical range to where `MAPPER` puts them, in
    /// one regime: [`MemoryManagementUnit::map_range_with`] for the range
    /// and its image under the mapper.
    pub fn map_range<MAPPER: AddrMapper>(
        &mut self,
        high: bool,
        range: AddressRange<Physical>,
        attribute: AttributeFields,
    ) -> (r: Result<(), &'static str>)
        requires
            old(self).wf(),
            range.wf(),
            range.base() % (GRANULE_SIZE as int) == 0,
            MAPPER::vaddr_of(range.base()) % (GRANULE_SIZE as int) == 0,
            MAPPER::vaddr_of(range.base()) + range.len() <= usize::MAX,
        ensures
            final(self).wf(),
            old(self).map_range_post(
                final(self),
                high,
                range.base(),
                range.len(),
                MAPPER::vaddr_of(range.base()),
                range.len(),
                attribute,
                r,
            ),
    {
        let vrange = MAPPER::map_to_vrange(range);
        self.map_range_with(high, range, vrange, attribute)
    }

    /// Round trip: once a page has been mapped, its virtual address
    /// translates to the physical page it was mapped to, at the same offset
    /// into the page, with the attributes it was mapped with. The physical
    /// address has to lie below 2^48, which is all that a descriptor can
    /// name.
    pub proof fn lemma_map_then_translate(
        &self,
        after: &Self,
        high: bool,
        paddr: int,
        vaddr: int,
        attributes: AttributeFields,
        r: Result<(), &'static str>,
    )
        requires
            self.map_page_post(after, high, paddr, vaddr, attributes, r),
            r is Ok,
            0 <= paddr < PHYSICAL_LIMIT,
            0 <= vaddr <= u64::MAX,
        ensures
            after.translate_spec(high, vaddr) == Some(
                (
                    paddr - paddr % (GRANULE_SIZE as int) + vaddr % (GRANULE_SIZE as int),
                    attributes,
                ),
            ),
            paddr % (GRANULE_SIZE as int) == 0 && vaddr % (GRANULE_SIZE as int) == 0
                ==> after.translate_spec(high, vaddr) == Some((paddr, attributes)),
    {
        lemma_page_descriptor_round_trip(paddr as u64, attributes);
        lemma_addr_bits_page(paddr as u64);
        lemma_level_mask(vaddr as u64, 0);
        let vpn = vpn_of(vaddr as u64);
        assert(after.page_table(high).contains_key(vpn));
    }

    /// A second mapping of a page that has been mapped fails with the
    /// mapping conflict and changes neither the mappings nor what the page
    /// translates to.
    pub proof fn lemma_second_mapping_conflicts(
        &self,
        first: &Self,
        second: &Self,
        high: bool,
        vaddr: int,
        paddr1: int,
        attributes1: AttributeFields,
        r1: Result<(), &'static str>,
        paddr2: int,
        attributes2: AttributeFields,
        r2: Result<(), &'static str>,
    )
        requires
            self.map_page_post(first, high, paddr1, vaddr, attributes1, r1),
            r1 is Ok,
            first.map_page_post(second, high, paddr2, vaddr, attributes2, r2),
            0 <= vaddr <= u64::MAX,
        ensures
            r2 == Err::<(), &str>("Address already mapped in a page"),
            second.page_table(high) == first.page_table(high),
            second.page_table(!high) == first.page_table(!high),
            second.translate_spec(high, vaddr) == first.translate_spec(high, vaddr),
    {
        lemma_level_mask(vaddr as u64, 0);
        lemma_page_descriptor_round_trip(paddr1 as u64, attributes1);
        let vpn = vpn_of(vaddr as u64);
        assert(first.page_table(high).contains_key(vpn));
    }

    /// The block in the slot of the table of `level` on the walk for a page
    /// number, if the walk gets that far and finds a block there.
    pub open spec fn block_on_walk(&self, high: bool, vpn: int, level: nat) -> Option<u64> {
        match self.root_spec(high) {
            Some(r) => block_at(&self.memory(), r, vpn, level),
            None => None,
        }
    }

    /// A page on whose walk a block stands at level 1 or 2 is mapped, as a
    /// part of the block: it translates into the block, and mapping it
    /// fails with the conflict with a block, with nothing allocated and
    /// nothing changed in the tables.
    pub proof fn lemma_block_conflicts(
        &self,
        after: &Self,
        high: bool,
        paddr: int,
        vaddr: int,
        attributes: AttributeFields,
        r: Result<(), &'static str>,
        level: nat,
    )
        requires
            self.map_page_post(after, high, paddr, vaddr, attributes, r),
            0 <= vaddr <= u64::MAX,
            level == 1 || level == 2,
            self.block_on_walk(high, vpn_of(vaddr as u64), level) is Some,
        ensures
            r == Err::<(), &str>("Address already mapped in a block"),
            after.space() == self.space(),
            after.memory() == self.memory(),
            self.translate_spec(high, vaddr) == Some(
                (
                    block_page_addr(
                        self.block_on_walk(high, vpn_of(vaddr as u64), level)->0,
                        level,
                        vpn_of(vaddr as u64),
                    ) + vaddr % (GRANULE_SIZE as int),
                    decode_attributes(self.block_on_walk(high, vpn_of(vaddr as u64), level)->0),
                ),
            ),
            after.translate_spec(high, vaddr) == self.translate_spec(high, vaddr),
    {
        lemma_level_mask(vaddr as u64, 0);
        let vpn = vpn_of(vaddr as u64);
        let root = self.root_spec(high)->0;
        let bits = self.block_on_walk(high, vpn, level)->0;
        lemma_block_leaf(&self.memory(), root, vpn, level);
        lemma_page_of_block(bits, level, vpn);
        assert(lookup(&self.memory(), Some(root), vpn) == Some(page_of_block(bits, level, vpn)));
        assert(self.page_table(high).contains_key(vpn));
    }

    /// Mapping a page changes the translation of no other page.
    pub proof fn lemma_map_keeps_other_pages(
        &self,
        after: &Self,
        high: bool,
        paddr: int,
        vaddr: int,
        attributes: AttributeFields,
        r: Result<(), &'static str>,
        other: int,
    )
        requires
            self.map_page_post(after, high, paddr, vaddr, attributes, r),
            0 <= vaddr <= u64::MAX,
            0 <= other <= u64::MAX,
            vpn_of(other as u64) != vpn_of(vaddr as u64),
        ensures
            after.translate_spec(high, other) == self.translate_spec(high, other),
            after.translate_spec(!high, other) == self.translate_spec(!high, other),
            after.translate_spec(!high, vaddr) == self.translate_spec(!high, vaddr),
    {
    }

    /// Whether `after` is this unit but for its pending steps and for
    /// whether translation is on.
    pub open spec fn same_tables(&self, after: &Self) -> bool {
        &&& after.memory() == self.memory()
        &&& after.allocator() == self.allocator()
        &&& forall|high: bool| after.root_spec(high) == self.root_spec(high)
        &&& forall|high: bool| after.page_table(high) == self.page_table(high)
        &&& after.space() == self.space()
    }

    /// Asks the hardware to take the attribute indirection table.
    fn set_up_mair(&mut self)
        requires
            old(self).wf(),
        ensures
            final(self).wf(),
            old(self).same_tables(final(self)),
            final(self).is_enabled() == old(self).is_enabled(),
            final(self).pending_steps() == old(self).pending_steps().push(
                HwStep::SetMair(MAIR_VALUE),
            ),
    {
        let value = mair_value();
        self.pending.push(HwStep::SetMair(value));
        proof {
            old(self).lemma_space_with_alloc(self);
        }
    }

    /// Switches translation on: the attribute indirection table, the
    /// translation control, a barrier, the enable bit, a barrier. The steps
    /// are queued for the caller to carry out. Translation is switched on
    /// once: a unit that is on cannot be enabled again.
    pub fn enable(&mut self)
        requires
            old(self).wf(),
            !old(self).is_enabled(),
        ensures
            final(self).wf(),
            final(self).is_enabled(),
            old(self).same_tables(final(self)),
            final(self).pending_steps() == old(self).pending_steps() + enable_steps(),
    {
        self.set_up_mair();
        let tcr = tcr_value();
        self.pending.push(HwStep::SetTcr(tcr));
        self.pending.push(HwStep::Isb);
        self.pending.push(HwStep::SetSctlr(SCTLR_VALUE));
        self.pending.push(HwStep::Isb);
        self.enabled = true;
        proof {
            assert(self.pending@ =~= old(self).pending@ + enable_steps());
            old(self).lemma_space_with_alloc(self);
        }
    }

    /// Hands the pending steps to the caller, oldest first, and forgets
    /// them.
    pub fn take_steps(&mut self) -> (r: Vec<HwStep>)
        requires
            old(self).wf(),
        ensures
            final(self).wf(),
            old(self).same_tables(final(self)),
            final(self).is_enabled() == old(self).is_enabled(),
            r@ == old(self).pending_steps(),
            final(self).pending_steps() == Seq::<HwStep>::empty(),
    {
        let mut steps: Vec<HwStep> = Vec::new();
        core::mem::swap(&mut self.pending, &mut steps);
        proof {
            old(self).lemma_space_with_alloc(self);
        }
        steps
    }
}

} // verus!
