//! What a translation table means: the walk from a root table to a leaf
//! descriptor, stated over a memory, and the facts about it that the
//! mapping routines rest on.

use vstd::prelude::*;
use crate::arch::descriptor::{desc_addr, desc_type_table, desc_valid, lemma_table_descriptor_round_trip, page_of_block};
use crate::arch::phys::{PhysMemory, index_of_addr_spec, index_shift, is_index_mask};
use crate::config::{ENTRY_PER_TABLE, GRANULE_SIZE};

verus! {

/// Number of pages that one root table spans: 36 bits of page number.
pub const VPN_LIMIT: u64 = 0x10_0000_0000;

/// The page number of a virtual address: its bits 47 to 12. The top 16 bits
/// of an address select the root and take no part in the walk.
pub open spec fn vpn_of(vaddr: u64) -> int {
    ((vaddr >> 12) & 0xF_FFFF_FFFF) as int
}

/// The index into the table of `level` (0 to 3) for a page number.
pub open spec fn vpn_index(vpn: int, level: nat) -> int {
    if level == 0 {
        (vpn / 0x800_0000) % 512
    } else if level == 1 {
        (vpn / 0x4_0000) % 512
    } else if level == 2 {
        (vpn / 0x200) % 512
    } else {
        vpn % 512
    }
}

/// The part of a page number that the levels above `level` have consumed:
/// their indices, read as one number.
pub open spec fn vpn_prefix(vpn: int, level: nat) -> int {
    if level == 0 {
        0
    } else if level == 1 {
        vpn / 0x800_0000
    } else if level == 2 {
        vpn / 0x4_0000
    } else if level == 3 {
        vpn / 0x200
    } else {
        vpn
    }
}

/// The mask that selects the index of `level` from an address.
pub open spec fn level_mask(level: nat) -> u64 {
    if level == 0 {
        0xFF80_0000_0000
    } else if level == 1 {
        0x7F_C000_0000
    } else if level == 2 {
        0x3FE0_0000
    } else {
        0x1F_F000
    }
}

/// Each level consumes nine more bits of the page number.
pub proof fn lemma_prefix_step(vpn: int, level: nat)
    requires
        0 <= vpn < VPN_LIMIT,
        level <= 3,
    ensures
        vpn_prefix(vpn, level + 1) == vpn_prefix(vpn, level) * 512 + vpn_index(vpn, level),
        0 <= vpn_index(vpn, level) < 512,
        0 <= vpn_prefix(vpn, level),
{
}

proof fn lemma_level_bits(v: u64, a: u64, b: u64)
    by (bit_vector)
    requires
        a <= 55,
        b <= 55,
    ensures
        0x1FFu64 << a == 0x1FFu64 << b ==> a == b,
        0xFF80_0000_0000u64 == 0x1FFu64 << 39u64,
        0x7F_C000_0000u64 == 0x1FFu64 << 30u64,
        0x3FE0_0000u64 == 0x1FFu64 << 21u64,
        0x1F_F000u64 == 0x1FFu64 << 12u64,
        0xFF80_0000_0000u64 >> 9u64 == 0x7F_C000_0000u64,
        0x7F_C000_0000u64 >> 9u64 == 0x3FE0_0000u64,
        0x3FE0_0000u64 >> 9u64 == 0x1F_F000u64,
        0x1F_F000u64 >> 9u64 == 0xFF8u64,
        (v >> 39u64) & 0x1FFu64 == (((v >> 12u64) & 0xF_FFFF_FFFFu64) / 0x800_0000u64) % 512u64,
        (v >> 30u64) & 0x1FFu64 == (((v >> 12u64) & 0xF_FFFF_FFFFu64) / 0x4_0000u64) % 512u64,
        (v >> 21u64) & 0x1FFu64 == (((v >> 12u64) & 0xF_FFFF_FFFFu64) / 0x200u64) % 512u64,
        (v >> 12u64) & 0x1FFu64 == ((v >> 12u64) & 0xF_FFFF_FFFFu64) % 512u64,
        (v >> 12u64) & 0xF_FFFF_FFFFu64 < 0x10_0000_0000u64,
{
}

/// The mask of a level is an index mask, shifting it right by nine bits
/// gives the mask of the next level, and the index it selects from an
/// address is the index of that level for the address's page number.
pub proof fn lemma_level_mask(vaddr: u64, level: nat)
    requires
        level <= 3,
    ensures
        is_index_mask(level_mask(level)),
        index_of_addr_spec(vaddr, level_mask(level)) == vpn_index(vpn_of(vaddr), level),
        level < 3 ==> level_mask(level) >> 9 == level_mask(level + 1),
        level == 3 ==> level_mask(level) >> 9 == 0xFF8,
        level_mask(level) > GRANULE_SIZE,
        0 <= vpn_of(vaddr) < VPN_LIMIT,
{
    let shift: u64 = if level == 0 {
        39
    } else if level == 1 {
        30
    } else if level == 2 {
        21
    } else {
        12
    };
    lemma_level_bits(vaddr, shift, shift);
    assert(level_mask(level) == 0x1FFu64 << shift);
    lemma_level_bits(vaddr, shift, index_shift(level_mask(level)));
    assert(index_shift(level_mask(level)) == shift);
}

/// What the mapping routines know of a table: its level and the prefix of
/// the page numbers that are translated through it.
pub struct TableInfo {
    pub level: nat,
    pub prefix: int,
}

/// The table that a table descriptor in slot `idx` of `table` points to, if
/// the slot holds one.
pub open spec fn next_table(mem: &PhysMemory, table: int, idx: int) -> Option<int> {
    let e = mem.entry(table, idx);
    if desc_valid(e) && desc_type_table(e) {
        Some(desc_addr(e) as int)
    } else {
        None
    }
}

/// The table of `level` that the walk for a page number reaches from
/// `root`, if the tables above it are linked.
pub open spec fn table_at(mem: &PhysMemory, root: int, vpn: int, level: nat) -> Option<int>
    decreases level,
{
    if level == 0 {
        Some(root)
    } else {
        match table_at(mem, root, vpn, (level - 1) as nat) {
            Some(t) => next_table(mem, t, vpn_index(vpn, (level - 1) as nat)),
            None => None,
        }
    }
}

/// The block descriptor in the slot of the table of `level` on the walk for
/// a page number, if the walk gets that far and the slot holds a valid
/// descriptor of the block type.
pub open spec fn block_at(mem: &PhysMemory, root: int, vpn: int, level: nat) -> Option<u64> {
    match table_at(mem, root, vpn, level) {
        Some(t) => {
            let e = mem.entry(t, vpn_index(vpn, level));
            if desc_valid(e) && !desc_type_table(e) {
                Some(e)
            } else {
                None
            }
        },
        None => None,
    }
}

/// The leaf descriptor that the walk for a page number ends in, if it ends
/// in one: the page descriptor in the table of level 3, or, where the walk
/// ends in a block at level 1 or 2, the descriptor of the page's part of
/// the block.
pub open spec fn leaf(mem: &PhysMemory, root: int, vpn: int) -> Option<u64> {
    if block_at(mem, root, vpn, 1) is Some {
        Some(page_of_block(block_at(mem, root, vpn, 1)->0, 1, vpn))
    } else if block_at(mem, root, vpn, 2) is Some {
        Some(page_of_block(block_at(mem, root, vpn, 2)->0, 2, vpn))
    } else {
        match table_at(mem, root, vpn, 3) {
            Some(t) => {
                let e = mem.entry(t, vpn_index(vpn, 3));
                if desc_valid(e) && desc_type_table(e) {
                    Some(e)
                } else {
                    None
                }
            },
            None => None,
        }
    }
}

/// The leaf descriptor for a page number under a root that may not exist
/// yet.
pub open spec fn lookup(mem: &PhysMemory, root: Option<int>, vpn: int) -> Option<u64> {
    match root {
        Some(r) => leaf(mem, r, vpn),
        None => None,
    }
}

/// Everything that a root maps: from page numbers to leaf descriptors.
pub open spec fn mappings(mem: &PhysMemory, root: Option<int>) -> Map<int, u64> {
    Map::new(
        |vpn: int| 0 <= vpn < VPN_LIMIT && lookup(mem, root, vpn) is Some,
        |vpn: int| lookup(mem, root, vpn)->0,
    )
}

/// What holds of slot `idx` of a table that the directory `dir` lists: a
/// valid entry of the block type stands at level 1 or 2, where it is a
/// block, and a valid entry of the table type above level 3 points to a
/// listed table of the next level whose prefix continues this table's with
/// `idx`.
pub open spec fn entry_ok(mem: &PhysMemory, dir: Map<int, TableInfo>, table: int, idx: int) -> bool {
    let e = mem.entry(table, idx);
    desc_valid(e) ==> {
        &&& !desc_type_table(e) ==> dir[table].level == 1 || dir[table].level == 2
        &&& desc_type_table(e) && dir[table].level < 3 ==> {
            &&& dir.contains_key(desc_addr(e) as int)
            &&& dir[desc_addr(e) as int] == TableInfo {
                level: dir[table].level + 1,
                prefix: dir[table].prefix * 512 + idx,
            }
        }
    }
}

/// What holds of a table that the directory lists: it is a granule of the
/// memory that is marked as a table, its level is one of the four, and each
/// of its slots is in order.
pub open spec fn table_ok(mem: &PhysMemory, dir: Map<int, TableInfo>, table: int) -> bool {
    &&& mem.contains(table)
    &&& mem.is_table(table)
    &&& dir[table].level <= 3
    &&& forall|idx: int| 0 <= idx < ENTRY_PER_TABLE ==> #[trigger] entry_ok(mem, dir, table, idx)
}

/// The invariant of one translation regime: the directory lists the root
/// as the table of level 0, and every listed table is in order. Without a
/// root the directory is empty.
pub open spec fn region_wf(mem: &PhysMemory, root: Option<int>, dir: Map<int, TableInfo>) -> bool {
    &&& root matches Some(r) ==> dir.contains_key(r) && dir[r] == TableInfo { level: 0, prefix: 0 }
    &&& root is None ==> forall|t: int| !dir.contains_key(t)
    &&& forall|t: int| #[trigger] dir.contains_key(t) ==> table_ok(mem, dir, t)
}

/// Whether two memories hold the same in every slot of every listed table,
/// but for the slot `idx` of `table`.
pub open spec fn agree_except(
    m1: &PhysMemory,
    m2: &PhysMemory,
    dir: Map<int, TableInfo>,
    table: int,
    idx: int,
) -> bool {
    forall|t: int, i: int|
        dir.contains_key(t) && 0 <= i < ENTRY_PER_TABLE && !(t == table && i == idx)
            ==> #[trigger] m2.entry(t, i) == m1.entry(t, i)
}

/// Whether two memories hold the same in every slot of every listed table.
pub open spec fn agree(m1: &PhysMemory, m2: &PhysMemory, dir: Map<int, TableInfo>) -> bool {
    forall|t: int, i: int|
        dir.contains_key(t) && 0 <= i < ENTRY_PER_TABLE ==> #[trigger] m2.entry(t, i) == m1.entry(
            t,
            i,
        )
}

/// What the directory says of the table of `level` on the walk for a page
/// number.
pub open spec fn info_of(vpn: int, level: nat) -> TableInfo {
    TableInfo { level: level, prefix: vpn_prefix(vpn, level) }
}

/// Whether the walk for a page number passes through slot `idx` of a table
/// with the given level and prefix.
pub open spec fn through_slot(info: TableInfo, idx: int, vpn: int) -> bool {
    vpn_prefix(vpn, info.level) == info.prefix && vpn_index(vpn, info.level) == idx
}

/// The walk stays inside the directory: the table that it reaches at a
/// level is listed with that level and with the prefix of the page number.
pub proof fn lemma_walk_in_dir(
    mem: &PhysMemory,
    root: int,
    dir: Map<int, TableInfo>,
    vpn: int,
    level: nat,
)
    requires
        region_wf(mem, Some(root), dir),
        0 <= vpn < VPN_LIMIT,
        level <= 3,
        table_at(mem, root, vpn, level) is Some,
    ensures
        dir.contains_key(table_at(mem, root, vpn, level)->0),
        dir[table_at(mem, root, vpn, level)->0] == info_of(vpn, level),
        table_ok(mem, dir, table_at(mem, root, vpn, level)->0),
    decreases level,
{
    if level > 0 {
        let up = (level - 1) as nat;
        lemma_walk_in_dir(mem, root, dir, vpn, up);
        lemma_prefix_step(vpn, up);
        let t = table_at(mem, root, vpn, up)->0;
        assert(entry_ok(mem, dir, t, vpn_index(vpn, up)));
    }
}

/// A walk that does not pass through the one slot in which two memories
/// differ is the same walk in both.
pub proof fn lemma_walk_off_slot(
    m1: &PhysMemory,
    m2: &PhysMemory,
    root: int,
    dir: Map<int, TableInfo>,
    table: int,
    idx: int,
    vpn: int,
    level: nat,
)
    requires
        region_wf(m1, Some(root), dir),
        agree_except(m1, m2, dir, table, idx),
        0 <= vpn < VPN_LIMIT,
        level <= 3,
        !(dir.contains_key(table) && dir[table].level < level && through_slot(
            dir[table],
            idx,
            vpn,
        )),
    ensures
        table_at(m2, root, vpn, level) == table_at(m1, root, vpn, level),
    decreases level,
{
    if level > 0 {
        let up = (level - 1) as nat;
        lemma_walk_off_slot(m1, m2, root, dir, table, idx, vpn, up);
        if table_at(m1, root, vpn, up) is Some {
            lemma_walk_in_dir(m1, root, dir, vpn, up);
            lemma_prefix_step(vpn, up);
        }
    }
}

/// Where two memories agree on the listed tables, the slot of a walk at a
/// level holds the same in both.
proof fn lemma_same_slot(
    m1: &PhysMemory,
    m2: &PhysMemory,
    root: int,
    dir: Map<int, TableInfo>,
    vpn: int,
    level: nat,
)
    requires
        region_wf(m1, Some(root), dir),
        agree(m1, m2, dir),
        0 <= vpn < VPN_LIMIT,
        level <= 3,
        table_at(m1, root, vpn, level) is Some,
    ensures
        m2.entry(table_at(m1, root, vpn, level)->0, vpn_index(vpn, level)) == m1.entry(
            table_at(m1, root, vpn, level)->0,
            vpn_index(vpn, level),
        ),
{
    lemma_walk_in_dir(m1, root, dir, vpn, level);
    lemma_prefix_step(vpn, level);
}

/// Memories that agree on the listed tables give the same walks and the
/// same leaves.
pub proof fn lemma_agree_lookup(
    m1: &PhysMemory,
    m2: &PhysMemory,
    root: Option<int>,
    dir: Map<int, TableInfo>,
)
    requires
        region_wf(m1, root, dir),
        agree(m1, m2, dir),
    ensures
        forall|vpn: int, level: nat|
            root is Some && 0 <= vpn < VPN_LIMIT && level <= 3 ==> #[trigger] table_at(
                m2,
                root->0,
                vpn,
                level,
            ) == table_at(m1, root->0, vpn, level),
        forall|vpn: int| 0 <= vpn < VPN_LIMIT ==> #[trigger] lookup(m2, root, vpn) == lookup(m1, root, vpn),
        mappings(m2, root) == mappings(m1, root),
{
    if root is Some {
        let r = root->0;
        assert forall|vpn: int, level: nat| 0 <= vpn < VPN_LIMIT && level <= 3 implies #[trigger] table_at(
            m2,
            r,
            vpn,
            level,
        ) == table_at(m1, r, vpn, level) by {
            lemma_walk_off_slot(m1, m2, r, dir, r, -1, vpn, level);
        }
        assert forall|vpn: int| 0 <= vpn < VPN_LIMIT implies #[trigger] lookup(m2, root, vpn) == lookup(
            m1,
            root,
            vpn,
        ) by {
            assert(table_at(m2, r, vpn, 1) == table_at(m1, r, vpn, 1));
            assert(table_at(m2, r, vpn, 2) == table_at(m1, r, vpn, 2));
            assert(table_at(m2, r, vpn, 3) == table_at(m1, r, vpn, 3));
            if table_at(m1, r, vpn, 1) is Some {
                lemma_same_slot(m1, m2, r, dir, vpn, 1);
            }
            if table_at(m1, r, vpn, 2) is Some {
                lemma_same_slot(m1, m2, r, dir, vpn, 2);
            }
            if table_at(m1, r, vpn, 3) is Some {
                lemma_same_slot(m1, m2, r, dir, vpn, 3);
            }
        }
    }
    assert(mappings(m2, root) =~= mappings(m1, root));
}

/// Memories that agree on the listed tables, and on which granules are
/// tables, keep a regime in order.
pub proof fn lemma_agree_wf(
    m1: &PhysMemory,
    m2: &PhysMemory,
    root: Option<int>,
    dir: Map<int, TableInfo>,
)
    requires
        region_wf(m1, root, dir),
        agree(m1, m2, dir),
        forall|t: int| dir.contains_key(t) ==> m2.contains(t) && m2.is_table(t),
    ensures
        region_wf(m2, root, dir),
{
    assert forall|t: int| #[trigger] dir.contains_key(t) implies table_ok(m2, dir, t) by {
        assert(table_ok(m1, dir, t));
        assert forall|idx: int| 0 <= idx < ENTRY_PER_TABLE implies #[trigger] entry_ok(
            m2,
            dir,
            t,
            idx,
        ) by {
            assert(entry_ok(m1, dir, t, idx));
            assert(m2.entry(t, idx) == m1.entry(t, idx));
        }
    }
}

/// What linking a fresh table changes: slot `idx` of the listed `table`,
/// invalid before, now points to `frame`, a granule that no listed table
/// pointed to and that holds nothing but invalid entries.
pub open spec fn linked(
    m1: &PhysMemory,
    m2: &PhysMemory,
    dir: Map<int, TableInfo>,
    table: int,
    idx: int,
    frame: int,
) -> bool {
    &&& agree_except(m1, m2, dir, table, idx)
    &&& dir.contains_key(table)
    &&& dir[table].level < 3
    &&& 0 <= idx < ENTRY_PER_TABLE
    &&& !desc_valid(m1.entry(table, idx))
    &&& next_table(m2, table, idx) == Some(frame)
    &&& !dir.contains_key(frame)
    &&& forall|i: int| 0 <= i < ENTRY_PER_TABLE ==> #[trigger] m2.entry(frame, i) == 0
}

/// The directory after linking `frame` below slot `idx` of `table`.
pub open spec fn dir_with(dir: Map<int, TableInfo>, table: int, idx: int, frame: int) -> Map<
    int,
    TableInfo,
> {
    dir.insert(
        frame,
        TableInfo { level: dir[table].level + 1, prefix: dir[table].prefix * 512 + idx },
    )
}

/// After a fresh table is linked, every walk that found a table still finds
/// it, and a walk that found none finds none or, one level below the link,
/// the fresh table.
pub proof fn lemma_link_walk(
    m1: &PhysMemory,
    m2: &PhysMemory,
    root: int,
    dir: Map<int, TableInfo>,
    table: int,
    idx: int,
    frame: int,
    vpn: int,
    level: nat,
)
    requires
        region_wf(m1, Some(root), dir),
        linked(m1, m2, dir, table, idx, frame),
        0 <= vpn < VPN_LIMIT,
        level <= 3,
    ensures
        table_at(m1, root, vpn, level) is Some ==> table_at(m2, root, vpn, level) == table_at(
            m1,
            root,
            vpn,
            level,
        ),
        table_at(m1, root, vpn, level) is None ==> table_at(m2, root, vpn, level) is None || (level
            == dir[table].level + 1 && table_at(m2, root, vpn, level) == Some(frame)),
        level == dir[table].level + 1 && table_at(m1, root, vpn, dir[table].level) == Some(table)
            && vpn_index(vpn, dir[table].level) == idx ==> table_at(m2, root, vpn, level) == Some(
            frame,
        ),
        table_at(m1, root, vpn, level) is None && table_at(m2, root, vpn, level) is Some ==> level
            == dir[table].level + 1 && table_at(m1, root, vpn, dir[table].level) == Some(table)
            && vpn_index(vpn, dir[table].level) == idx,
    decreases level,
{
    lemma_table_descriptor_round_trip(0);
    if level > 0 {
        let up = (level - 1) as nat;
        lemma_link_walk(m1, m2, root, dir, table, idx, frame, vpn, up);
        lemma_prefix_step(vpn, up);
        if table_at(m1, root, vpn, up) is Some {
            lemma_walk_in_dir(m1, root, dir, vpn, up);
            let t = table_at(m1, root, vpn, up)->0;
            if !(t == table && vpn_index(vpn, up) == idx) {
                assert(m2.entry(t, vpn_index(vpn, up)) == m1.entry(t, vpn_index(vpn, up)));
            }
        } else if table_at(m2, root, vpn, up) is Some {
            assert(m2.entry(frame, vpn_index(vpn, up)) == 0);
        }
    }
}

/// After a fresh table is linked, the slot of a walk at a level holds a
/// leaf where it held one before, and the same one.
proof fn lemma_link_slot(
    m1: &PhysMemory,
    m2: &PhysMemory,
    root: int,
    dir: Map<int, TableInfo>,
    table: int,
    idx: int,
    frame: int,
    vpn: int,
    level: nat,
)
    requires
        region_wf(m1, Some(root), dir),
        linked(m1, m2, dir, table, idx, frame),
        0 <= vpn < VPN_LIMIT,
        1 <= level <= 3,
    ensures
        block_at(m2, root, vpn, level) == block_at(m1, root, vpn, level),
        table_at(m1, root, vpn, level) is Some ==> table_at(m2, root, vpn, level) == table_at(
            m1,
            root,
            vpn,
            level,
        ) && (level == 3 ==> m2.entry(table_at(m1, root, vpn, level)->0, vpn_index(vpn, level))
            == m1.entry(table_at(m1, root, vpn, level)->0, vpn_index(vpn, level))),
        table_at(m1, root, vpn, level) is None && table_at(m2, root, vpn, level) is Some
            ==> !desc_valid(m2.entry(table_at(m2, root, vpn, level)->0, vpn_index(vpn, level))),
{
    lemma_table_descriptor_round_trip(0);
    lemma_link_walk(m1, m2, root, dir, table, idx, frame, vpn, level);
    lemma_prefix_step(vpn, level);
    if table_at(m1, root, vpn, level) is Some {
        lemma_walk_in_dir(m1, root, dir, vpn, level);
        let t = table_at(m1, root, vpn, level)->0;
        if !(t == table && vpn_index(vpn, level) == idx) {
            assert(m2.entry(t, vpn_index(vpn, level)) == m1.entry(t, vpn_index(vpn, level)));
        }
    } else if table_at(m2, root, vpn, level) is Some {
        assert(m2.entry(frame, vpn_index(vpn, level)) == 0);
    }
}

/// Linking a fresh table maps nothing and unmaps nothing.
pub proof fn lemma_link_lookup(
    m1: &PhysMemory,
    m2: &PhysMemory,
    root: int,
    dir: Map<int, TableInfo>,
    table: int,
    idx: int,
    frame: int,
)
    requires
        region_wf(m1, Some(root), dir),
        linked(m1, m2, dir, table, idx, frame),
    ensures
        forall|vpn: int|
            0 <= vpn < VPN_LIMIT ==> #[trigger] lookup(m2, Some(root), vpn) == lookup(
                m1,
                Some(root),
                vpn,
            ),
        mappings(m2, Some(root)) == mappings(m1, Some(root)),
{
    lemma_table_descriptor_round_trip(0);
    assert forall|vpn: int| 0 <= vpn < VPN_LIMIT implies #[trigger] lookup(m2, Some(root), vpn)
        == lookup(m1, Some(root), vpn) by {
        lemma_link_slot(m1, m2, root, dir, table, idx, frame, vpn, 1);
        lemma_link_slot(m1, m2, root, dir, table, idx, frame, vpn, 2);
        lemma_link_slot(m1, m2, root, dir, table, idx, frame, vpn, 3);
    }
    assert(mappings(m2, Some(root)) =~= mappings(m1, Some(root)));
}

/// Linking a fresh table keeps the regime in order, with the fresh table
/// listed one level below the table that points to it.
pub proof fn lemma_link_wf(
    m1: &PhysMemory,
    m2: &PhysMemory,
    root: Option<int>,
    dir: Map<int, TableInfo>,
    table: int,
    idx: int,
    frame: int,
)
    requires
        region_wf(m1, root, dir),
        linked(m1, m2, dir, table, idx, frame),
        m2.contains(frame),
        m2.is_table(frame),
        forall|t: int| dir.contains_key(t) ==> m2.contains(t) && m2.is_table(t),
    ensures
        region_wf(m2, root, dir_with(dir, table, idx, frame)),
{
    lemma_table_descriptor_round_trip(0);
    let after = dir_with(dir, table, idx, frame);
    assert forall|t: int| #[trigger] after.contains_key(t) implies table_ok(m2, after, t) by {
        if t == frame {
            assert(table_ok(m1, dir, table));
            assert forall|i: int| 0 <= i < ENTRY_PER_TABLE implies #[trigger] entry_ok(
                m2,
                after,
                t,
                i,
            ) by {
                assert(m2.entry(frame, i) == 0);
            }
        } else {
            assert(table_ok(m1, dir, t));
            assert forall|i: int| 0 <= i < ENTRY_PER_TABLE implies #[trigger] entry_ok(
                m2,
                after,
                t,
                i,
            ) by {
                assert(entry_ok(m1, dir, t, i));
                if !(t == table && i == idx) {
                    assert(m2.entry(t, i) == m1.entry(t, i));
                }
            }
        }
    }
}

/// What writing a leaf changes: slot `idx` of the listed level 3 `table`
/// now holds the valid descriptor `desc` of the table type.
pub open spec fn leaf_written(
    m1: &PhysMemory,
    m2: &PhysMemory,
    dir: Map<int, TableInfo>,
    table: int,
    idx: int,
    desc: u64,
) -> bool {
    &&& agree_except(m1, m2, dir, table, idx)
    &&& dir.contains_key(table)
    &&& dir[table].level == 3
    &&& 0 <= idx < ENTRY_PER_TABLE
    &&& m2.entry(table, idx) == desc
    &&& desc_valid(desc)
    &&& desc_type_table(desc)
}

/// Writing a leaf keeps the regime in order.
pub proof fn lemma_leaf_wf(
    m1: &PhysMemory,
    m2: &PhysMemory,
    root: Option<int>,
    dir: Map<int, TableInfo>,
    table: int,
    idx: int,
    desc: u64,
)
    requires
        region_wf(m1, root, dir),
        leaf_written(m1, m2, dir, table, idx, desc),
        forall|t: int| dir.contains_key(t) ==> m2.contains(t) && m2.is_table(t),
    ensures
        region_wf(m2, root, dir),
{
    assert forall|t: int| #[trigger] dir.contains_key(t) implies table_ok(m2, dir, t) by {
        assert(table_ok(m1, dir, t));
        assert forall|i: int| 0 <= i < ENTRY_PER_TABLE implies #[trigger] entry_ok(m2, dir, t, i) by {
            assert(entry_ok(m1, dir, t, i));
            if !(t == table && i == idx) {
                assert(m2.entry(t, i) == m1.entry(t, i));
            }
        }
    }
}

/// Writing a leaf for a page number maps that page number to the leaf and
/// leaves every other page number as it was; the tables on every walk stay
/// the same.
pub proof fn lemma_leaf_mappings(
    m1: &PhysMemory,
    m2: &PhysMemory,
    root: int,
    dir: Map<int, TableInfo>,
    table: int,
    idx: int,
    desc: u64,
    vpn: int,
)
    requires
        region_wf(m1, Some(root), dir),
        leaf_written(m1, m2, dir, table, idx, desc),
        0 <= vpn < VPN_LIMIT,
        table_at(m1, root, vpn, 3) == Some(table),
        vpn_index(vpn, 3) == idx,
    ensures
        mappings(m2, Some(root)) == mappings(m1, Some(root)).insert(vpn, desc),
        forall|other: int, level: nat|
            0 <= other < VPN_LIMIT && level <= 3 ==> #[trigger] table_at(m2, root, other, level)
                == table_at(m1, root, other, level),
{
    assert forall|other: int, level: nat| 0 <= other < VPN_LIMIT && level <= 3 implies #[trigger] table_at(
        m2,
        root,
        other,
        level,
    ) == table_at(m1, root, other, level) by {
        lemma_walk_off_slot(m1, m2, root, dir, table, idx, other, level);
    }
    lemma_walk_in_dir(m1, root, dir, vpn, 3);
    lemma_prefix_step(vpn, 3);
    let before = mappings(m1, Some(root));
    let after = mappings(m2, Some(root));
    assert forall|other: int| 0 <= other < VPN_LIMIT implies lookup(m2, Some(root), other) == (
    if other == vpn {
        Some(desc)
    } else {
        lookup(m1, Some(root), other)
    }) by {
        assert(table_at(m2, root, other, 1) == table_at(m1, root, other, 1));
        assert(table_at(m2, root, other, 2) == table_at(m1, root, other, 2));
        assert(table_at(m2, root, other, 3) == table_at(m1, root, other, 3));
        lemma_prefix_step(other, 1);
        lemma_prefix_step(other, 2);
        lemma_prefix_step(other, 3);
        if table_at(m1, root, other, 1) is Some {
            lemma_walk_in_dir(m1, root, dir, other, 1);
            let t = table_at(m1, root, other, 1)->0;
            assert(m2.entry(t, vpn_index(other, 1)) == m1.entry(t, vpn_index(other, 1)));
        }
        if table_at(m1, root, other, 2) is Some {
            lemma_walk_in_dir(m1, root, dir, other, 2);
            let t = table_at(m1, root, other, 2)->0;
            assert(m2.entry(t, vpn_index(other, 2)) == m1.entry(t, vpn_index(other, 2)));
        }
        if table_at(m1, root, other, 3) is Some {
            lemma_walk_in_dir(m1, root, dir, other, 3);
            lemma_no_block_above(m1, root, other, 3, 1);
            lemma_no_block_above(m1, root, other, 3, 2);
            let t = table_at(m1, root, other, 3)->0;
            if !(t == table && vpn_index(other, 3) == idx) {
                assert(m2.entry(t, vpn_index(other, 3)) == m1.entry(t, vpn_index(other, 3)));
            }
        }
    }
    assert(after =~= before.insert(vpn, desc));
}

/// A walk that has stopped stays stopped: below a level without a table
/// there is no table.
pub proof fn lemma_walk_stops(mem: &PhysMemory, root: int, vpn: int, from: nat, level: nat)
    requires
        from <= level,
        table_at(mem, root, vpn, from) is None,
    ensures
        table_at(mem, root, vpn, level) is None,
    decreases level,
{
    if from < level {
        lemma_walk_stops(mem, root, vpn, from, (level - 1) as nat);
    }
}

/// A walk that reaches a level has found table descriptors, and so no
/// block, at the levels above.
pub proof fn lemma_no_block_above(mem: &PhysMemory, root: int, vpn: int, level: nat, above: nat)
    requires
        above < level <= 3,
        table_at(mem, root, vpn, level) is Some,
    ensures
        block_at(mem, root, vpn, above) is None,
        table_at(mem, root, vpn, above) is Some,
{
    if table_at(mem, root, vpn, above + 1) is None {
        lemma_walk_stops(mem, root, vpn, above + 1, level);
    }
    assert(table_at(mem, root, vpn, above + 1) is Some);
}

/// A walk that finds a block at level 1 or 2 ends there: the leaf is the
/// descriptor of the page's part of the block, and there are no tables
/// below.
pub proof fn lemma_block_leaf(mem: &PhysMemory, root: int, vpn: int, level: nat)
    requires
        level == 1 || level == 2,
        block_at(mem, root, vpn, level) is Some,
    ensures
        leaf(mem, root, vpn) == Some(page_of_block(block_at(mem, root, vpn, level)->0, level, vpn)),
        table_at(mem, root, vpn, level + 1) is None,
        table_at(mem, root, vpn, 3) is None,
{
    if level == 2 {
        lemma_no_block_above(mem, root, vpn, 2, 1);
    }
    assert(table_at(mem, root, vpn, level + 1) is None);
    lemma_walk_stops(mem, root, vpn, level + 1, 3);
}

/// A walk that ends at an invalid slot, or that reaches level 3, finds no
/// block on its way.
pub proof fn lemma_no_block(mem: &PhysMemory, root: int, vpn: int, level: nat)
    requires
        level <= 3,
        table_at(mem, root, vpn, level) is Some,
        level < 3 ==> !desc_valid(mem.entry(table_at(mem, root, vpn, level)->0, vpn_index(vpn, level))),
    ensures
        block_at(mem, root, vpn, 1) is None,
        block_at(mem, root, vpn, 2) is None,
        level < 3 ==> leaf(mem, root, vpn) is None,
{
    if level > 1 {
        lemma_no_block_above(mem, root, vpn, level, 1);
    }
    if level > 2 {
        lemma_no_block_above(mem, root, vpn, level, 2);
    }
    if level < 3 {
        assert(table_at(mem, root, vpn, level + 1) is None);
        lemma_walk_stops(mem, root, vpn, level + 1, 3);
        if level < 2 {
            lemma_walk_stops(mem, root, vpn, level + 1, 2);
        }
    }
}

/// A root table of invalid entries maps nothing.
pub proof fn lemma_empty_root(mem: &PhysMemory, root: int)
    requires
        forall|i: int| 0 <= i < ENTRY_PER_TABLE ==> #[trigger] mem.entry(root, i) == 0,
    ensures
        mappings(mem, Some(root)) == Map::<int, u64>::empty(),
        forall|vpn: int, level: nat|
            0 <= vpn < VPN_LIMIT && 1 <= level <= 3 ==> #[trigger] table_at(mem, root, vpn, level)
                is None,
{
    lemma_table_descriptor_round_trip(0);
    assert forall|vpn: int, level: nat| 0 <= vpn < VPN_LIMIT && 1 <= level <= 3 implies #[trigger] table_at(
        mem,
        root,
        vpn,
        level,
    ) is None by {
        lemma_prefix_step(vpn, 0);
        assert(mem.entry(root, vpn_index(vpn, 0)) == 0);
        assert(table_at(mem, root, vpn, 0) == Some(root));
        assert(table_at(mem, root, vpn, 1) is None);
        lemma_walk_stops(mem, root, vpn, 1, level);
    }
    assert forall|vpn: int| 0 <= vpn < VPN_LIMIT implies lookup(mem, Some(root), vpn) is None by {
        assert(table_at(mem, root, vpn, 3) is None);
    }
    assert(mappings(mem, Some(root)) =~= Map::<int, u64>::empty());
}

} // verus!
