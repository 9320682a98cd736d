//! The unit seen from outside: how its memory and tables give a
//! [`Space`].

use vstd::prelude::*;
use crate::arch::mmu::MemoryManagementUnit;
use crate::arch::model::{Regime, Space};
use crate::arch::phys::PhysMemory;
use crate::arch::walk::{VPN_LIMIT, lemma_prefix_step, table_at, vpn_index, vpn_prefix};
use crate::memory::PageAllocator;

verus! {

/// The number of prefixes that the tables of a level can have.
pub open spec fn prefix_limit(level: nat) -> int {
    if level == 0 {
        1
    } else if level == 1 {
        0x200
    } else if level == 2 {
        0x4_0000
    } else {
        0x800_0000
    }
}

/// The lowest page number that is translated through the table of `level`
/// with the given prefix.
pub open spec fn first_vpn(level: nat, prefix: int) -> int {
    if level == 0 {
        0
    } else if level == 1 {
        prefix * 0x800_0000
    } else if level == 2 {
        prefix * 0x4_0000
    } else {
        prefix * 0x200
    }
}

/// The lowest page number of a table has the prefix of the table, and
/// every page number has a prefix that a table of the level can have.
pub proof fn lemma_first_vpn(level: nat, prefix: int, vpn: int)
    requires
        level <= 3,
        0 <= vpn < VPN_LIMIT,
    ensures
        0 <= vpn_prefix(vpn, level) < prefix_limit(level),
        0 <= prefix < prefix_limit(level) ==> 0 <= first_vpn(level, prefix) < VPN_LIMIT
            && vpn_prefix(first_vpn(level, prefix), level) == prefix,
{
}

/// Walks for page numbers with the same prefix at a level find the same
/// table of that level.
pub proof fn lemma_walk_by_prefix(mem: &PhysMemory, root: int, a: int, b: int, level: nat)
    requires
        level <= 3,
        0 <= a < VPN_LIMIT,
        0 <= b < VPN_LIMIT,
        vpn_prefix(a, level) == vpn_prefix(b, level),
    ensures
        table_at(mem, root, a, level) == table_at(mem, root, b, level),
    decreases level,
{
    if level > 0 {
        let up = (level - 1) as nat;
        lemma_prefix_step(a, up);
        lemma_prefix_step(b, up);
        assert(vpn_prefix(a, up) == vpn_prefix(b, up) && vpn_index(a, up) == vpn_index(b, up));
        lemma_walk_by_prefix(mem, root, a, b, up);
    }
}

impl<ALLOC: PageAllocator> MemoryManagementUnit<ALLOC> {
    /// The tables that the walks of a regime can find.
    pub open spec fn present(&self, high: bool) -> Set<(nat, int)> {
        Set::new(
            |name: (nat, int)|
                name.0 <= 3 && 0 <= name.1 < prefix_limit(name.0) && self.table_on_walk(
                    high,
                    first_vpn(name.0, name.1),
                    name.0,
                ) is Some,
        )
    }

    /// A regime of the unit from outside.
    pub open spec fn regime(&self, high: bool) -> Regime {
        Regime { table: self.page_table(high), present: self.present(high) }
    }

    /// The granules of the memory that serve as translation tables.
    pub open spec fn table_frames(&self) -> Set<int> {
        Set::new(|frame: int| self.memory().contains(frame) && self.memory().is_table(frame))
    }

    /// The unit from outside.
    pub open spec fn space(&self) -> Space<ALLOC> {
        Space {
            alloc: self.allocator(),
            base: self.memory().base(),
            pages: self.memory().page_count(),
            tables: self.table_frames(),
            low: self.regime(false),
            high: self.regime(true),
        }
    }

    /// The tables that are present are those that the walks find.
    pub proof fn lemma_present(&self, high: bool, vpn: int, level: nat)
        requires
            0 <= vpn < VPN_LIMIT,
            level <= 3,
        ensures
            self.regime(high).has_table(vpn, level) <==> self.table_on_walk(high, vpn, level)
                is Some,
    {
        let prefix = vpn_prefix(vpn, level);
        lemma_first_vpn(level, prefix, vpn);
        if self.root_spec(high) is Some {
            lemma_walk_by_prefix(
                &self.memory(),
                self.root_spec(high)->0,
                vpn,
                first_vpn(level, prefix),
                level,
            );
        }
    }

    /// The depth of a walk and the tables that it lacks add up to four.
    pub proof fn lemma_depth(&self, high: bool, vpn: int)
        requires
            0 <= vpn < VPN_LIMIT,
        ensures
            self.regime(high).depth(vpn) == 4 - self.tables_missing(high, vpn),
            self.regime(high).has_table(vpn, 0) <==> self.root_spec(high) is Some,
    {
        self.lemma_present(high, vpn, 0);
        self.lemma_present(high, vpn, 1);
        self.lemma_present(high, vpn, 2);
        self.lemma_present(high, vpn, 3);
        if self.root_spec(high) is Some {
            let r = self.root_spec(high)->0;
            let m = self.memory();
            assert(table_at(&m, r, vpn, 0) == Some(r));
            if table_at(&m, r, vpn, 1) is None {
                crate::arch::walk::lemma_walk_stops(&m, r, vpn, 1, 2);
                crate::arch::walk::lemma_walk_stops(&m, r, vpn, 1, 3);
            }
            if table_at(&m, r, vpn, 2) is None {
                crate::arch::walk::lemma_walk_stops(&m, r, vpn, 2, 3);
            }
        }
    }
}

} // verus!
