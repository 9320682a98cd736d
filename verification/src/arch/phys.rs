//! Physical memory as the translation engine sees it: a run of granules,
//! each an array of 64-bit slots that can hold descriptors or data.

use vstd::prelude::*;
use vstd::std_specs::bits::u64_trailing_zeros;
use crate::arch::descriptor::TableDescriptor;
use crate::config::{ENTRY_PER_TABLE, GRANULE_SIZE, PHYSICAL_LIMIT};
use crate::memory::{Address, Physical, Virtual};

verus! {

/// Whether `mask` selects the index bits of some table level: nine
/// neighbouring ones.
pub open spec fn is_index_mask(mask: u64) -> bool {
    exists|shift: u64| shift <= 55 && mask == 0x1FFu64 << shift
}

/// The position of the lowest bit of an index mask.
pub open spec fn index_shift(mask: u64) -> u64 {
    choose|shift: u64| shift <= 55 && mask == 0x1FFu64 << shift
}

/// The index that `mask` selects from the address `vaddr`.
pub open spec fn index_of_addr_spec(vaddr: u64, mask: u64) -> int {
    ((vaddr >> index_shift(mask)) & 0x1FF) as int
}

proof fn lemma_mask_shift(a: u64, b: u64, v: u64)
    by (bit_vector)
    requires
        a <= 55,
        b <= 63,
    ensures
        0x1FFu64 << a != 0,
        ((0x1FFu64 << a) >> a) & 1u64 == 1u64,
        b < a ==> ((0x1FFu64 << a) >> b) & 1u64 == 0u64,
        (v & (0x1FFu64 << a)) >> a == (v >> a) & 0x1FFu64,
        (v >> a) & 0x1FFu64 < 512,
{
}

/// An index mask has as many trailing zeros as its shift, and the index it
/// selects is below the number of entries of a table.
pub proof fn lemma_index_mask(vaddr: u64, mask: u64)
    requires
        is_index_mask(mask),
    ensures
        index_shift(mask) <= 55,
        mask == 0x1FFu64 << index_shift(mask),
        u64_trailing_zeros(mask) == index_shift(mask),
        (vaddr & mask) >> index_shift(mask) == index_of_addr_spec(vaddr, mask),
        0 <= index_of_addr_spec(vaddr, mask) < ENTRY_PER_TABLE,
{
    let s = index_shift(mask);
    let t = u64_trailing_zeros(mask);
    vstd::std_specs::bits::axiom_u64_trailing_zeros(mask);
    lemma_mask_shift(s, s, vaddr);
    assert(t < 64);
    lemma_mask_shift(s, t as u64, vaddr);
    if t > s {
        assert((mask >> s) & 1u64 == 0u64);
    }
}

/// The index that `mask` selects from `vaddr`: the bits under the mask,
/// moved down by the mask's trailing zeros.
pub fn index_of_addr(vaddr: u64, mask: u64) -> (idx: usize)
    requires
        is_index_mask(mask),
    ensures
        idx == index_of_addr_spec(vaddr, mask),
        idx < ENTRY_PER_TABLE,
{
    proof {
        lemma_index_mask(vaddr, mask);
    }
    ((vaddr & mask) >> mask.trailing_zeros()) as usize
}

/// One granule of descriptors.
pub struct TableSection {
    entries: Vec<TableDescriptor>,
}

impl View for TableSection {
    type V = Seq<TableDescriptor>;

    /// The section's entries, in order.
    closed spec fn view(&self) -> Seq<TableDescriptor> {
        self.entries@
    }
}

impl TableSection {
    /// The invariant of a section: it has as many entries as a table.
    pub open spec fn wf(&self) -> bool {
        self@.len() == ENTRY_PER_TABLE
    }

    /// The entry for `vaddr` under the index mask `mask`, to read or to
    /// replace.
    pub fn entry_of_addr(&mut self, vaddr: Address<Virtual>, mask: u64) -> (e: &mut TableDescriptor)
        requires
            old(self).wf(),
            is_index_mask(mask),
        ensures
            *e == old(self)@[index_of_addr_spec(vaddr@ as u64, mask)],
            final(self)@ == old(self)@.update(index_of_addr_spec(vaddr@ as u64, mask), *final(e)),
    {
        proof {
            vaddr.lemma_bounds();
        }
        let idx = index_of_addr(vaddr.into_usize() as u64, mask);
        &mut self.entries[idx]
    }

    /// The entry at `idx`.
    pub fn get(&self, idx: usize) -> (d: TableDescriptor)
        requires
            self.wf(),
            idx < ENTRY_PER_TABLE,
        ensures
            d == self@[idx as int],
    {
        self.entries[idx]
    }

    /// Replaces the entry at `idx`.
    pub fn set(&mut self, idx: usize, desc: TableDescriptor)
        requires
            old(self).wf(),
            idx < ENTRY_PER_TABLE,
        ensures
            final(self)@ == old(self)@.update(idx as int, desc),
            final(self).wf(),
    {
        self.entries[idx] = desc;
    }

    /// Makes every entry the invalid all-zero descriptor.
    pub fn clear(&mut self)
        requires
            old(self).wf(),
        ensures
            final(self).wf(),
            forall|i: int| 0 <= i < ENTRY_PER_TABLE ==> (#[trigger] final(self)@[i]).value == 0,
    {
        let mut i: usize = 0;
        while i < ENTRY_PER_TABLE
            invariant
                i <= ENTRY_PER_TABLE,
                self.wf(),
                forall|j: int| 0 <= j < i ==> (#[trigger] self@[j]).value == 0,
            decreases ENTRY_PER_TABLE - i,
        {
            self.entries[i] = TableDescriptor::new_zeroed();
            i = i + 1;
        }
    }
}

impl Default for TableSection {
    /// A section of invalid descriptors.
    fn default() -> (r: Self)
        ensures
            r.wf(),
            forall|i: int| 0 <= i < ENTRY_PER_TABLE ==> (#[trigger] r@[i]).value == 0,
    {
        let mut entries: Vec<TableDescriptor> = Vec::new();
        let mut i: usize = 0;
        while i < ENTRY_PER_TABLE
            invariant
                i <= ENTRY_PER_TABLE,
                entries@.len() == i,
                forall|j: int| 0 <= j < i ==> (#[trigger] entries@[j]).value == 0,
            decreases ENTRY_PER_TABLE - i,
        {
            entries.push(TableDescriptor::new_zeroed());
            i = i + 1;
        }
        Self { entries }
    }
}

/// The start of the granule that holds the byte at `addr`, in a memory
/// that starts at the granule boundary `base`.
pub open spec fn frame_of(base: int, addr: int) -> int {
    addr - (addr - base) % (GRANULE_SIZE as int)
}

proof fn lemma_byte_lanes(word: u64, byte: u8, lane: u64, other: u64)
    by (bit_vector)
    requires
        lane < 8,
        other < 8,
    ensures
        ((((word & !(0xFFu64 << (lane * 8))) | ((byte as u64) << (lane * 8))) >> (lane * 8))
            & 0xFFu64) == byte as u64,
        other != lane ==> ((((word & !(0xFFu64 << (lane * 8))) | ((byte as u64) << (lane * 8)))
            >> (other * 8)) & 0xFFu64) == ((word >> (other * 8)) & 0xFFu64),
        lane * 8 < 64,
{
}

/// A run of physical granules, each holding [`ENTRY_PER_TABLE`] 64-bit
/// slots, together with a note for each granule of whether it serves as a
/// translation table. The run starts on a granule boundary and ends below
/// [`PHYSICAL_LIMIT`].
pub struct PhysMemory {
    base: u64,
    frames: Vec<TableSection>,
    tables: Vec<bool>,
}

impl PhysMemory {
    /// The address of the first granule.
    pub closed spec fn base(&self) -> int {
        self.base as int
    }

    /// The number of granules.
    pub closed spec fn page_count(&self) -> int {
        self.frames@.len() as int
    }

    /// The first address above the memory.
    pub open spec fn limit(&self) -> int {
        self.base() + self.page_count() * GRANULE_SIZE
    }

    /// The invariant of a memory.
    pub closed spec fn wf(&self) -> bool {
        &&& self.base % (GRANULE_SIZE as u64) == 0
        &&& self.base + self.frames@.len() * GRANULE_SIZE <= PHYSICAL_LIMIT
        &&& self.tables@.len() == self.frames@.len()
        &&& forall|i: int| 0 <= i < self.frames@.len() ==> (#[trigger] self.frames@[i]).wf()
    }

    /// Whether `frame` is the address of a granule of this memory.
    pub open spec fn contains(&self, frame: int) -> bool {
        &&& self.base() <= frame < self.limit()
        &&& (frame - self.base()) % (GRANULE_SIZE as int) == 0
    }

    /// Whether the byte at `addr` lies in this memory.
    pub open spec fn holds(&self, addr: int) -> bool {
        self.base() <= addr < self.limit()
    }

    /// The slot `idx` of the granule at `frame`.
    pub closed spec fn entry(&self, frame: int, idx: int) -> u64 {
        self.frames@[(frame - self.base) / (GRANULE_SIZE as int)]@[idx].value
    }

    /// Whether the granule at `frame` serves as a translation table.
    pub closed spec fn is_table(&self, frame: int) -> bool {
        self.tables@[(frame - self.base) / (GRANULE_SIZE as int)]
    }

    /// The byte at `addr`: slots hold their bytes lowest first.
    pub open spec fn byte(&self, addr: int) -> u8 {
        let offset = (addr - self.base()) % (GRANULE_SIZE as int);
        ((self.entry(frame_of(self.base(), addr), offset / 8) >> (((offset % 8) as u64) * 8))
            & 0xFFu64) as u8
    }

    /// Whether `after` is this memory but for its tables: it lies where
    /// this one lies, every granule that serves as a table here does so
    /// there, and every byte of a granule that is no table there is what it
    /// is here.
    pub open spec fn data_kept(&self, after: &PhysMemory) -> bool {
        &&& after.base() == self.base()
        &&& after.page_count() == self.page_count()
        &&& forall|f: int| self.contains(f) && #[trigger] self.is_table(f) ==> after.is_table(f)
        &&& forall|a: int|
            self.holds(a) && !after.is_table(frame_of(self.base(), a)) ==> #[trigger] after.byte(a)
                == self.byte(a)
    }

    /// A memory that differs from this one only in slots of granules that
    /// serve as tables in it, and that keeps this one's tables, keeps this
    /// one's data.
    pub proof fn lemma_data_kept(&self, after: &PhysMemory)
        requires
            self.wf(),
            after.base() == self.base(),
            after.page_count() == self.page_count(),
            forall|f: int| self.contains(f) && self.is_table(f) ==> after.is_table(f),
            forall|f: int, i: int|
                self.contains(f) && !after.is_table(f) && 0 <= i < ENTRY_PER_TABLE ==> after.entry(
                    f,
                    i,
                ) == self.entry(f, i),
        ensures
            self.data_kept(after),
    {
        assert forall|a: int|
            self.holds(a) && !after.is_table(frame_of(self.base(), a)) implies #[trigger] after.byte(a)
            == self.byte(a) by {
            self.lemma_slot(a);
            self.lemma_frame_of(a);
            let offset = (a - self.base()) % (GRANULE_SIZE as int);
            assert(0 <= offset / 8 < ENTRY_PER_TABLE);
        }
    }

    /// Data that is kept over two steps is kept over both.
    pub proof fn lemma_data_kept_twice(&self, mid: &PhysMemory, after: &PhysMemory)
        requires
            self.wf(),
            self.data_kept(mid),
            mid.data_kept(after),
        ensures
            self.data_kept(after),
    {
        assert forall|f: int| self.contains(f) && #[trigger] self.is_table(f) implies after.is_table(
            f,
        ) by {
            assert(mid.is_table(f));
        }
        assert forall|a: int|
            self.holds(a) && !after.is_table(frame_of(self.base(), a)) implies #[trigger] after.byte(a)
            == self.byte(a) by {
            self.lemma_frame_of(a);
            let f = frame_of(self.base(), a);
            if mid.is_table(f) {
                assert(mid.contains(f));
            }
            assert(mid.byte(a) == self.byte(a));
        }
    }

    /// The memory's bounds: it starts on a granule boundary, and it ends
    /// below the limit of physical addresses.
    pub proof fn lemma_bounds(&self)
        requires
            self.wf(),
        ensures
            0 <= self.base(),
            self.base() % (GRANULE_SIZE as int) == 0,
            0 <= self.page_count(),
            self.limit() <= PHYSICAL_LIMIT,
    {
    }

    /// The granule of a byte of the memory is a granule of the memory.
    pub proof fn lemma_frame_of(&self, addr: int)
        requires
            self.wf(),
            self.holds(addr),
        ensures
            self.contains(frame_of(self.base(), addr)),
            frame_of(self.base(), addr) <= addr < frame_of(self.base(), addr) + GRANULE_SIZE,
    {
    }

    proof fn lemma_slot(&self, addr: int)
        requires
            self.wf(),
            self.holds(addr),
        ensures
            0 <= (addr - self.base) / (GRANULE_SIZE as int) < self.frames@.len(),
            (addr - self.base) / (GRANULE_SIZE as int) <= usize::MAX,
            (frame_of(self.base(), addr) - self.base) / (GRANULE_SIZE as int) == (addr
                - self.base) / (GRANULE_SIZE as int),
            self.contains(addr) ==> addr == self.base + ((addr - self.base) / (
            GRANULE_SIZE as int)) * GRANULE_SIZE,
            0 <= (addr - self.base) % (GRANULE_SIZE as int) < GRANULE_SIZE,
    {
        let d = addr - self.base;
        let n = self.frames@.len() as int;
        assert(n == self.frames.len());
        assert(0 <= d < n * 4096);
        assert(d == 4096 * (d / 4096) + d % 4096);
        assert(0 <= d % 4096 < 4096);
        assert(d / 4096 < n);
    }

    /// Two granules of the memory are the same where they have the same
    /// number.
    proof fn lemma_slot_distinct(&self, f: int, g: int)
        requires
            self.wf(),
            self.contains(f),
            self.contains(g),
            f != g,
        ensures
            (f - self.base) / (GRANULE_SIZE as int) != (g - self.base) / (GRANULE_SIZE as int),
    {
        self.lemma_slot(f);
        self.lemma_slot(g);
    }

    fn slot(&self, addr: u64) -> (n: usize)
        requires
            self.wf(),
            self.holds(addr as int),
        ensures
            n == (addr - self.base) / (GRANULE_SIZE as int),
            n < self.frames@.len(),
    {
        proof {
            self.lemma_slot(addr as int);
        }
        ((addr - self.base) / (GRANULE_SIZE as u64)) as usize
    }

    /// A zero-filled memory of `pages` granules from `base`, none of them a
    /// table. The base has to lie on a granule boundary, and the memory has
    /// to end below the limit of physical addresses.
    pub fn new(base: Address<Physical>, pages: usize) -> (r: Result<PhysMemory, &'static str>)
        ensures
            base@ % (GRANULE_SIZE as int) != 0 ==> r == Err::<PhysMemory, &str>(
                "Memory base is not aligned",
            ),
            base@ % (GRANULE_SIZE as int) == 0 && base@ + pages * GRANULE_SIZE > PHYSICAL_LIMIT
                ==> r == Err::<PhysMemory, &str>("Memory exceeds the physical address space"),
            base@ % (GRANULE_SIZE as int) == 0 && base@ + pages * GRANULE_SIZE <= PHYSICAL_LIMIT
                ==> r is Ok,
            r matches Ok(mem) ==> {
                &&& mem.wf()
                &&& mem.base() == base@
                &&& mem.page_count() == pages
                &&& forall|f: int| mem.contains(f) ==> !mem.is_table(f)
                &&& forall|f: int, i: int|
                    mem.contains(f) && 0 <= i < ENTRY_PER_TABLE ==> mem.entry(f, i) == 0
            },
    {
        proof {
            base.lemma_bounds();
        }
        let start = base.into_usize() as u64;
        if start % (GRANULE_SIZE as u64) != 0 {
            return Err("Memory base is not aligned");
        }
        if start > PHYSICAL_LIMIT || pages as u64 > (PHYSICAL_LIMIT - start) / (GRANULE_SIZE as u64) {
            return Err("Memory exceeds the physical address space");
        }
        let mut frames: Vec<TableSection> = Vec::new();
        let mut tables: Vec<bool> = Vec::new();
        let mut i: usize = 0;
        while i < pages
            invariant
                i <= pages,
                frames@.len() == i,
                tables@.len() == i,
                forall|j: int| 0 <= j < i ==> !tables@[j],
                forall|j: int| 0 <= j < i ==> (#[trigger] frames@[j]).wf(),
                forall|j: int, k: int|
                    0 <= j < i && 0 <= k < ENTRY_PER_TABLE ==> (#[trigger] frames@[j]@[k]).value
                        == 0,
            decreases pages - i,
        {
            frames.push(TableSection::default());
            tables.push(false);
            i = i + 1;
        }
        let mem = PhysMemory { base: start, frames, tables };
        proof {
            assert forall|f: int, k: int|
                mem.contains(f) && 0 <= k < ENTRY_PER_TABLE implies mem.entry(f, k) == 0 by {
                let j = (f - mem.base) / (GRANULE_SIZE as int);
                assert(0 <= j < pages);
                assert(mem.frames@[j]@[k].value == 0);
            }
        }
        Ok(mem)
    }

    /// The address of the first granule.
    pub fn start(&self) -> (r: u64)
        ensures
            r == self.base(),
    {
        self.base
    }

    /// The number of granules.
    pub fn pages(&self) -> (r: usize)
        ensures
            r == self.page_count(),
    {
        self.frames.len()
    }

    /// Whether `frame` is the address of a granule of this memory.
    pub fn has_frame(&self, frame: u64) -> (r: bool)
        requires
            self.wf(),
        ensures
            r == self.contains(frame as int),
    {
        frame >= self.base && (frame - self.base) % (GRANULE_SIZE as u64) == 0 && (frame
            - self.base) / (GRANULE_SIZE as u64) < self.frames.len() as u64
    }

    /// Whether the byte at `addr` lies in this memory.
    pub fn has_byte(&self, addr: u64) -> (r: bool)
        requires
            self.wf(),
        ensures
            r == self.holds(addr as int),
    {
        addr >= self.base && (addr - self.base) / (GRANULE_SIZE as u64) < self.frames.len() as u64
    }

    /// Whether the granule at `frame` serves as a translation table.
    pub fn table_at(&self, frame: u64) -> (r: bool)
        requires
            self.wf(),
            self.contains(frame as int),
        ensures
            r == self.is_table(frame as int),
    {
        let i = self.slot(frame);
        self.tables[i]
    }

    /// The granule at `frame` as a section of descriptors.
    pub fn section(&self, frame: u64) -> (r: &TableSection)
        requires
            self.wf(),
            self.contains(frame as int),
        ensures
            r.wf(),
            forall|i: int| 0 <= i < ENTRY_PER_TABLE ==> (#[trigger] r@[i]).value == self.entry(
                frame as int,
                i,
            ),
    {
        let i = self.slot(frame);
        &self.frames[i]
    }

    /// The slot `idx` of the granule at `frame`.
    pub fn read(&self, frame: u64, idx: usize) -> (r: TableDescriptor)
        requires
            self.wf(),
            self.contains(frame as int),
            idx < ENTRY_PER_TABLE,
        ensures
            r.value == self.entry(frame as int, idx as int),
    {
        let i = self.slot(frame);
        self.frames[i].get(idx)
    }

    /// Replaces the slot `idx` of the granule at `frame`. Nothing else
    /// changes.
    pub fn write(&mut self, frame: u64, idx: usize, desc: TableDescriptor)
        requires
            old(self).wf(),
            old(self).contains(frame as int),
            idx < ENTRY_PER_TABLE,
        ensures
            final(self).wf(),
            final(self).base() == old(self).base(),
            final(self).page_count() == old(self).page_count(),
            forall|f: int| final(self).is_table(f) == old(self).is_table(f),
            final(self).entry(frame as int, idx as int) == desc.value,
            forall|f: int, i: int|
                old(self).contains(f) && 0 <= i < ENTRY_PER_TABLE && !(f == frame && i == idx)
                    ==> final(self).entry(f, i) == old(self).entry(f, i),
    {
        let n = self.slot(frame);
        self.frames[n].set(idx, desc);
        proof {
            assert forall|f: int, i: int|
                old(self).contains(f) && 0 <= i < ENTRY_PER_TABLE && !(f == frame && i
                    == idx) implies self.entry(f, i) == old(self).entry(f, i) by {
                let j = (f - self.base) / (GRANULE_SIZE as int);
                old(self).lemma_slot(f);
                if f != frame {
                    old(self).lemma_slot_distinct(f, frame as int);
                    assert(self.frames@[j] == old(self).frames@[j]);
                }
            }
        }
    }

    /// Zero-fills the granule at `frame` and notes that it serves as a
    /// translation table from now on. Nothing else changes.
    pub fn make_table(&mut self, frame: u64)
        requires
            old(self).wf(),
            old(self).contains(frame as int),
        ensures
            final(self).wf(),
            final(self).base() == old(self).base(),
            final(self).page_count() == old(self).page_count(),
            final(self).is_table(frame as int),
            forall|f: int|
                old(self).contains(f) && f != frame ==> final(self).is_table(f) == old(self).is_table(f),
            forall|i: int| 0 <= i < ENTRY_PER_TABLE ==> final(self).entry(frame as int, i) == 0,
            forall|f: int, i: int|
                old(self).contains(f) && f != frame && 0 <= i < ENTRY_PER_TABLE ==> final(self).entry(f, i) == old(self).entry(f, i),
    {
        let n = self.slot(frame);
        self.frames[n].clear();
        self.tables[n] = true;
        proof {
            assert forall|f: int, i: int|
                old(self).contains(f) && f != frame && 0 <= i < ENTRY_PER_TABLE implies self.entry(
                f,
                i,
            ) == old(self).entry(f, i) by {
                let j = (f - self.base) / (GRANULE_SIZE as int);
                old(self).lemma_slot(f);
                old(self).lemma_slot_distinct(f, frame as int);
                assert(self.frames@[j] == old(self).frames@[j]);
            }
            assert forall|f: int| old(self).contains(f) && f != frame implies self.is_table(f)
                == old(self).is_table(f) by {
                old(self).lemma_slot(f);
                old(self).lemma_slot_distinct(f, frame as int);
            }
            assert forall|i: int| 0 <= i < ENTRY_PER_TABLE implies self.entry(frame as int, i)
                == 0 by {
                assert(self.frames@[n as int]@[i].value == 0);
            }
        }
    }

    /// The byte at `addr`.
    pub fn read_byte(&self, addr: u64) -> (r: u8)
        requires
            self.wf(),
            self.holds(addr as int),
        ensures
            r == self.byte(addr as int),
    {
        let n = self.slot(addr);
        let offset = (addr - self.base) % (GRANULE_SIZE as u64);
        let word = self.frames[n].get((offset / 8) as usize).value;
        let lane = offset % 8;
        proof {
            lemma_byte_lanes(word, 0, lane, lane);
            self.lemma_slot(addr as int);
        }
        #[verifier::truncate]
        (((word >> (lane * 8)) & 0xFF) as u8)
    }

    /// Replaces the byte at `addr`. No other byte changes, and no granule
    /// starts or stops being a table.
    pub fn write_byte(&mut self, addr: u64, value: u8)
        requires
            old(self).wf(),
            old(self).holds(addr as int),
        ensures
            final(self).wf(),
            final(self).base() == old(self).base(),
            final(self).page_count() == old(self).page_count(),
            forall|f: int| final(self).is_table(f) == old(self).is_table(f),
            final(self).byte(addr as int) == value,
            forall|a: int| old(self).holds(a) && a != addr ==> final(self).byte(a) == old(self).byte(a),
            forall|f: int, i: int|
                old(self).contains(f) && f != frame_of(old(self).base(), addr as int) && 0 <= i
                    < ENTRY_PER_TABLE ==> final(self).entry(f, i) == old(self).entry(f, i),
    {
        let n = self.slot(addr);
        let offset = (addr - self.base) % (GRANULE_SIZE as u64);
        let slot = (offset / 8) as usize;
        let word = self.frames[n].get(slot).value;
        let lane = offset % 8;
        proof {
            lemma_byte_lanes(word, value, lane, lane);
        }
        let replaced = (word & !(0xFFu64 << (lane * 8))) | ((value as u64) << (lane * 8));
        self.frames[n].set(slot, TableDescriptor { value: replaced });
        proof {
            let base = self.base as int;
            let frame = frame_of(base, addr as int);
            old(self).lemma_slot(addr as int);
            old(self).lemma_frame_of(addr as int);
            assert forall|f: int, i: int|
                old(self).contains(f) && f != frame && 0 <= i < ENTRY_PER_TABLE implies self.entry(
                f,
                i,
            ) == old(self).entry(f, i) by {
                let j = (f - base) / (GRANULE_SIZE as int);
                old(self).lemma_slot(f);
                old(self).lemma_slot_distinct(f, frame);
                assert(self.frames@[j] == old(self).frames@[j]);
            }
            assert forall|a: int| old(self).holds(a) && a != addr implies self.byte(a) == old(self).byte(a) by {
                old(self).lemma_slot(a);
                let fa = frame_of(base, a);
                let j = (fa - base) / (GRANULE_SIZE as int);
                let off = (a - base) % (GRANULE_SIZE as int);
                if j != n {
                    assert(self.frames@[j] == old(self).frames@[j]);
                } else if off / 8 != slot {
                } else {
                    let other = (off % 8) as u64;
                    assert(other != lane);
                    lemma_byte_lanes(word, value, lane, other);
                }
            }
        }
    }
}

} // verus!
