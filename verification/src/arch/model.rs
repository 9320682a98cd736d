//! What the unit is, seen from outside: an allocator, the granules that
//! serve as tables, and for each regime its mappings and the tables that a
//! walk can find. The mapping routines are functions on this.

use vstd::prelude::*;
use crate::arch::descriptor::{desc_type_table, page_descriptor_bits};
use crate::arch::walk::{vpn_of, vpn_prefix};
use crate::config::GRANULE_SIZE;
use crate::memory::{AttributeFields, PageAllocator};

verus! {

/// A translation regime from outside.
pub struct Regime {
    /// What is mapped: from page numbers to leaf descriptors. A page that
    /// lies in a block has the descriptor of its part of the block, which
    /// is of the block type.
    pub table: Map<int, u64>,
    /// The tables that exist, each named by its level and by the prefix of
    /// the page numbers that are translated through it. The root is the
    /// table of level 0 with prefix 0.
    pub present: Set<(nat, int)>,
}

/// The unit from outside.
pub struct Space<ALLOC> {
    /// The allocator.
    pub alloc: ALLOC,
    /// Where the memory starts.
    pub base: int,
    /// How many granules the memory has.
    pub pages: int,
    /// The granules of the memory that serve as translation tables.
    pub tables: Set<int>,
    /// The regime of the low half.
    pub low: Regime,
    /// The regime of the high half.
    pub high: Regime,
}

/// The mapping conflict that a leaf descriptor stands for: that of a page
/// for a page descriptor, that of a block for the descriptor of a part of a
/// block.
pub open spec fn conflict(desc: u64) -> &'static str {
    if desc_type_table(desc) {
        "Address already mapped in a page"
    } else {
        "Address already mapped in a block"
    }
}

impl Regime {
    /// The regime without a root, in which nothing is mapped.
    pub open spec fn empty() -> Regime {
        Regime { table: Map::empty(), present: Set::empty() }
    }

    /// Whether the walk for a page number finds its table of `level`.
    pub open spec fn has_table(self, vpn: int, level: nat) -> bool {
        self.present.contains((level, vpn_prefix(vpn, level)))
    }

    /// How many tables the walk for a page number finds, from the root
    /// down: 0 without a root, 4 where the page can be mapped at once.
    pub open spec fn depth(self, vpn: int) -> nat {
        if !self.has_table(vpn, 0) {
            0
        } else if !self.has_table(vpn, 1) {
            1
        } else if !self.has_table(vpn, 2) {
            2
        } else if !self.has_table(vpn, 3) {
            3
        } else {
            4
        }
    }
}

impl<ALLOC: PageAllocator> Space<ALLOC> {
    /// The unit without mappings over a memory of `pages` granules from
    /// `base`, of which those in `tables` serve as translation tables.
    pub open spec fn fresh(alloc: ALLOC, base: int, pages: int, tables: Set<int>) -> Self {
        Space { alloc, base, pages, tables, low: Regime::empty(), high: Regime::empty() }
    }

    /// The unit after its allocator has answered a request for `num`
    /// pages.
    pub open spec fn asked_for(self, num: usize) -> Self {
        Space { alloc: self.alloc.alloc_spec(num).0, ..self }
    }

    /// One of the two regimes.
    pub open spec fn regime(self, high: bool) -> Regime {
        if high {
            self.high
        } else {
            self.low
        }
    }

    /// Whether `frame` is the address of a granule of the memory.
    pub open spec fn contains(self, frame: int) -> bool {
        &&& self.base <= frame < self.base + self.pages * GRANULE_SIZE
        &&& (frame - self.base) % (GRANULE_SIZE as int) == 0
    }

    /// What becomes of the allocator's answer to a request for one page
    /// that is to serve as a table: the page has to be a granule of the
    /// memory that serves as no table yet.
    pub open spec fn request(self, answer: Result<int, &'static str>) -> Result<
        int,
        &'static str,
    > {
        match answer {
            Err(e) => Err(e),
            Ok(frame) => if !self.contains(frame) {
                Err("Page is outside of the physical memory")
            } else if self.tables.contains(frame) {
                Err("Page is already in use as a translation table")
            } else {
                Ok(frame)
            },
        }
    }

    /// The unit after its allocator has answered a request for one page.
    pub open spec fn asked(self) -> Self {
        Space { alloc: self.alloc.alloc_spec(1).0, ..self }
    }

    /// The unit after the granule at `frame` has become the table `name`
    /// of a regime.
    pub open spec fn with_table(self, high: bool, frame: int, name: (nat, int)) -> Self {
        if high {
            Space {
                tables: self.tables.insert(frame),
                high: Regime { present: self.high.present.insert(name), ..self.high },
                ..self
            }
        } else {
            Space {
                tables: self.tables.insert(frame),
                low: Regime { present: self.low.present.insert(name), ..self.low },
                ..self
            }
        }
    }

    /// The unit after a page has been mapped in a regime.
    pub open spec fn with_page(self, high: bool, vpn: int, desc: u64) -> Self {
        if high {
            Space { high: Regime { table: self.high.table.insert(vpn, desc), ..self.high }, ..self }
        } else {
            Space { low: Regime { table: self.low.table.insert(vpn, desc), ..self.low }, ..self }
        }
    }

    /// Gives the walk for a page number the tables that it lacks, from
    /// level `from` down: asks the allocator for one page after the other,
    /// and makes each the table of its level. The first request that gives
    /// no table ends the work with its error; the tables made by then
    /// stay.
    pub open spec fn build(self, high: bool, vpn: int, from: nat) -> (Self, Result<
        (),
        &'static str,
    >)
        decreases 4 - from,
    {
        if from >= 4 {
            (self, Ok(()))
        } else {
            match self.request(self.alloc.alloc_spec(1).1) {
                Err(e) => (self.asked(), Err(e)),
                Ok(frame) => self.asked().with_table(
                    high,
                    frame,
                    (from, vpn_prefix(vpn, from)),
                ).build(high, vpn, from + 1),
            }
        }
    }

    /// Maps a page number to a leaf descriptor in a regime. A page that is
    /// mapped, by a page descriptor or as a part of a block, is never
    /// mapped again: the answer is the conflict with what maps it, and
    /// nothing is asked of the allocator. Otherwise the walk gets the
    /// tables that it lacks, and if it gets them all, the page is mapped.
    pub open spec fn map_page(self, high: bool, vpn: int, desc: u64) -> (Self, Result<
        (),
        &'static str,
    >) {
        if self.regime(high).table.contains_key(vpn) {
            (self, Err(conflict(self.regime(high).table[vpn])))
        } else {
            let built = self.build(high, vpn, self.regime(high).depth(vpn));
            match built.1 {
                Ok(()) => (built.0.with_page(high, vpn, desc), Ok(())),
                Err(e) => (built.0, Err(e)),
            }
        }
    }

    /// Giving a walk its tables maps nothing and unmaps nothing.
    pub proof fn lemma_build_keeps_pages(self, high: bool, vpn: int, from: nat)
        ensures
            self.build(high, vpn, from).0.low.table == self.low.table,
            self.build(high, vpn, from).0.high.table == self.high.table,
        decreases 4 - from,
    {
        if from < 4 {
            match self.request(self.alloc.alloc_spec(1).1) {
                Err(_) => {},
                Ok(frame) => {
                    self.asked().with_table(
                        high,
                        frame,
                        (from, vpn_prefix(vpn, from)),
                    ).lemma_build_keeps_pages(high, vpn, from + 1);
                },
            }
        }
    }

    /// Mapping a page succeeds only for a page that was not mapped, and
    /// then maps that page and no other; a failure maps nothing. The other
    /// regime's mappings stay as they are.
    pub proof fn lemma_map_page_pages(self, high: bool, vpn: int, desc: u64)
        ensures
            self.map_page(high, vpn, desc).1 is Ok ==> !self.regime(high).table.contains_key(vpn)
                && self.map_page(high, vpn, desc).0.regime(high).table == self.regime(
                high,
            ).table.insert(vpn, desc),
            self.map_page(high, vpn, desc).1 is Err ==> self.map_page(high, vpn, desc).0.regime(
                high,
            ).table == self.regime(high).table,
            self.map_page(high, vpn, desc).0.regime(!high).table == self.regime(!high).table,
    {
        self.lemma_build_keeps_pages(high, vpn, self.regime(high).depth(vpn));
    }

    /// Maps the first `count` pages from the virtual address `vbase` to the
    /// pages from the physical address `pbase`, in rising order, and stops
    /// at the first page that cannot be mapped.
    pub open spec fn map_range(
        self,
        high: bool,
        pbase: int,
        vbase: int,
        attributes: AttributeFields,
        count: nat,
    ) -> (Self, Result<(), &'static str>)
        decreases count,
    {
        if count == 0 {
            (self, Ok(()))
        } else {
            let before = self.map_range(high, pbase, vbase, attributes, (count - 1) as nat);
            match before.1 {
                Err(e) => before,
                Ok(()) => before.0.map_page(
                    high,
                    vpn_of((vbase + (count - 1) * GRANULE_SIZE) as u64),
                    page_descriptor_bits((pbase + (count - 1) * GRANULE_SIZE) as u64, attributes),
                ),
            }
        }
    }

    /// Once a page of a range cannot be mapped, the pages after it are not
    /// tried: the outcome for a longer run is that for the shorter one.
    pub proof fn lemma_map_range_stops(
        self,
        high: bool,
        pbase: int,
        vbase: int,
        attributes: AttributeFields,
        count: nat,
        more: nat,
    )
        requires
            count <= more,
            self.map_range(high, pbase, vbase, attributes, count).1 is Err,
        ensures
            self.map_range(high, pbase, vbase, attributes, more) == self.map_range(
                high,
                pbase,
                vbase,
                attributes,
                count,
            ),
        decreases more,
    {
        if count < more {
            self.lemma_map_range_stops(high, pbase, vbase, attributes, count, (more - 1) as nat);
        }
    }
}

} // verus!
