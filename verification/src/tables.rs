//! Four-level page tables as they lie in physical memory: what an address
//! translates to, and what one write changes.

use vstd::prelude::*;

verus! {

pub const PAGE_SIZE: u64 = 4096;
pub const ENTRIES: usize = 512;

// Page-table entry bits.
pub const PTE_PRESENT: u64 = 1;
pub const PTE_WRITABLE: u64 = 2;
pub const PTE_USER: u64 = 4;
pub const PTE_HUGE: u64 = 0x80;
pub const PTE_NO_EXEC: u64 = 0x8000_0000_0000_0000;
pub const PTE_ADDR_MASK: u64 = 0x000F_FFFF_FFFF_F000;

/// Bits of an entry that leads to another table. Intermediate entries are
/// permissive; the leaf decides.
pub const PTE_TABLE: u64 = 7;

pub open spec fn present(e: u64) -> bool {
    e & PTE_PRESENT != 0
}

pub open spec fn huge(e: u64) -> bool {
    e & PTE_HUGE != 0
}

/// The frame an entry names.
pub open spec fn frame_of(e: u64) -> u64 {
    e & PTE_ADDR_MASK
}

/// Which entry of a table at `level` an address selects.
pub open spec fn spec_index(vaddr: u64, level: u64) -> u64 {
    (vaddr >> (12 + 9 * level) as u64) & 0x1FF
}

/// Which page of the 48-bit space an address is in.
pub open spec fn page_number(vaddr: u64) -> int {
    (vaddr as int / 4096) % 0x10_0000_0000
}

pub open spec fn slot(t: int, i: int) -> int {
    t + 8 * i
}

/// The table that entry `i` of table `t` leads to.
pub open spec fn down(mem: Seq<u8>, t: int, i: int) -> Option<int> {
    let e = crate::mem::word(mem, slot(t, i));
    if present(e) && !huge(e) {
        Some(frame_of(e) as int)
    } else {
        None
    }
}

/// The table reached from the root by selecting entries along a path.
pub open spec fn table_at(mem: Seq<u8>, root: int, p: Seq<int>) -> Option<int>
    decreases p.len(),
{
    if p.len() == 0 {
        Some(root)
    } else {
        match table_at(mem, root, p.drop_last()) {
            Some(t) => down(mem, t, p.last()),
            None => None,
        }
    }
}

pub open spec fn path_ok(p: Seq<int>) -> bool {
    p.len() <= 3 && forall|k: int| 0 <= k < p.len() ==> 0 <= #[trigger] p[k] < 512
}

/// The path an address takes to its leaf table.
pub open spec fn path_of(vaddr: u64) -> Seq<int> {
    seq![
        spec_index(vaddr, 3) as int,
        spec_index(vaddr, 2) as int,
        spec_index(vaddr, 1) as int,
    ]
}

/// Where the leaf entry of an address is, if its tables are there.
pub open spec fn leaf_slot(mem: Seq<u8>, root: int, vaddr: u64) -> Option<int> {
    match table_at(mem, root, path_of(vaddr)) {
        Some(t) => Some(slot(t, spec_index(vaddr, 0) as int)),
        None => None,
    }
}

/// The leaf entry of an address, if it maps anything.
pub open spec fn lookup(mem: Seq<u8>, root: int, vaddr: u64) -> Option<u64> {
    match leaf_slot(mem, root, vaddr) {
        Some(s) => if present(crate::mem::word(mem, s)) {
            Some(crate::mem::word(mem, s))
        } else {
            None
        },
        None => None,
    }
}

/// A large page stands somewhere on the way to the leaf.
pub open spec fn blocked(mem: Seq<u8>, root: int, vaddr: u64) -> bool {
    exists|k: int| #[trigger] blocked_at(mem, root, path_of(vaddr), k)
}

pub open spec fn blocked_at(mem: Seq<u8>, root: int, p: Seq<int>, k: int) -> bool {
    0 <= k < p.len() && (table_at(mem, root, p.take(k)) matches Some(t) && present(
        crate::mem::word(mem, slot(t, p[k])),
    ) && huge(crate::mem::word(mem, slot(t, p[k]))))
}

pub open spec fn is_table(mem: Seq<u8>, root: int, p: Seq<int>) -> bool {
    path_ok(p) && table_at(mem, root, p) is Some
}

/// A valid set of page tables: every table lies in memory, no table is reached
/// twice, and no top-level entry is a large page.
pub open spec fn tree(mem: Seq<u8>, root: int) -> bool {
    &&& forall|p: Seq<int>| #[trigger]
        is_table(mem, root, p) ==> 0 <= table_at(mem, root, p)->Some_0 && table_at(
            mem,
            root,
            p,
        )->Some_0 % 4096 == 0 && table_at(mem, root, p)->Some_0 + 4096 <= mem.len() && table_at(
            mem,
            root,
            p,
        )->Some_0 < 0x10_0000_0000_0000
    &&& forall|p: Seq<int>, q: Seq<int>|
        #![trigger is_table(mem, root, p), is_table(mem, root, q)]
        is_table(mem, root, p) && is_table(mem, root, q) && table_at(mem, root, p) == table_at(
            mem,
            root,
            q,
        ) ==> p == q
    &&& forall|i: int|
        0 <= i < 512 ==> !(present(#[trigger] crate::mem::word(mem, slot(root, i))) && huge(
            crate::mem::word(mem, slot(root, i)),
        ))
}

/// Some table of the tree is the frame at `t`.
pub open spec fn has_table(mem: Seq<u8>, root: int, t: int) -> bool {
    exists|p: Seq<int>| #[trigger] is_table(mem, root, p) && table_at(mem, root, p) == Some(t)
}

// --------------------------------------------------------------------- bits ---

pub proof fn entry_bits(f: u64)
    requires
        f % 4096 == 0,
        f < 0x10_0000_0000_0000,
    ensures
        frame_of(f | PTE_TABLE) == f,
        frame_of(f) == f,
        present(f | PTE_TABLE),
        !huge(f | PTE_TABLE),
{
    assert(f % 4096 == 0 && f < 0x10_0000_0000_0000 ==> (f | 7) & 0x000F_FFFF_FFFF_F000 == f && f
        & 0x000F_FFFF_FFFF_F000 == f && (f | 7) & 1 != 0 && (f | 7) & 0x80 == 0) by (bit_vector);
}

pub proof fn frame_bits(e: u64)
    ensures
        frame_of(e) % 4096 == 0,
        frame_of(e) < 0x10_0000_0000_0000,
        frame_of(frame_of(e)) == frame_of(e),
        !present(0),
        !huge(0),
{
    assert((e & 0x000F_FFFF_FFFF_F000) % 4096 == 0 && (e & 0x000F_FFFF_FFFF_F000)
        < 0x10_0000_0000_0000 && (e & 0x000F_FFFF_FFFF_F000) & 0x000F_FFFF_FFFF_F000 == e
        & 0x000F_FFFF_FFFF_F000 && 0u64 & 1 == 0 && 0u64 & 0x80 == 0) by (bit_vector);
}

pub proof fn index_bound(vaddr: u64, level: u64)
    requires
        level <= 3,
    ensures
        spec_index(vaddr, level) < 512,
{
    let s = (12 + 9 * level) as u64;
    assert((vaddr >> s) & 0x1FF < 512) by (bit_vector);
}

/// Two addresses take the same way to the same entry exactly when they are in
/// the same page.
pub proof fn same_way_same_page(v: u64, w: u64)
    ensures
        page_number(v) == page_number(w) <==> (spec_index(v, 3) == spec_index(w, 3) && spec_index(
            v,
            2,
        ) == spec_index(w, 2) && spec_index(v, 1) == spec_index(w, 1) && spec_index(v, 0)
            == spec_index(w, 0)),
{
    assert((v / 4096) % 0x10_0000_0000 == (w / 4096) % 0x10_0000_0000 <==> (((v >> 39) & 0x1FF) == (
    (w >> 39) & 0x1FF) && ((v >> 30) & 0x1FF) == ((w >> 30) & 0x1FF) && ((v >> 21) & 0x1FF) == ((w
        >> 21) & 0x1FF) && ((v >> 12) & 0x1FF) == ((w >> 12) & 0x1FF))) by (bit_vector);
}

pub proof fn paths_differ(v: u64, w: u64)
    ensures
        path_ok(path_of(v)),
        path_of(v) == path_of(w) && spec_index(v, 0) == spec_index(w, 0) <==> page_number(v)
            == page_number(w),
{
    same_way_same_page(v, w);
    index_bound(v, 3);
    index_bound(v, 2);
    index_bound(v, 1);
    if path_of(v) == path_of(w) {
        assert(path_of(v)[0] == path_of(w)[0]);
        assert(path_of(v)[1] == path_of(w)[1]);
        assert(path_of(v)[2] == path_of(w)[2]);
    }
}

// -------------------------------------------------------------------- paths ---

pub proof fn child_table(mem: Seq<u8>, root: int, p: Seq<int>, i: int)
    requires
        is_table(mem, root, p),
        p.len() < 3,
        0 <= i < 512,
    ensures
        path_ok(p.push(i)),
        table_at(mem, root, p.push(i)) == down(mem, table_at(mem, root, p)->Some_0, i),
{
    let q = p.push(i);
    assert(q.drop_last() =~= p);
    assert forall|k: int| 0 <= k < q.len() implies 0 <= #[trigger] q[k] < 512 by {
        if k < p.len() {
            assert(q[k] == p[k]);
        }
    }
}

pub proof fn root_is_table(mem: Seq<u8>, root: int)
    ensures
        is_table(mem, root, Seq::empty()),
        table_at(mem, root, Seq::empty()) == Some(root),
{
}

/// A word outside every table but the leaf ones may change without moving a
/// table.
pub proof fn tables_kept(m: Seq<u8>, n: Seq<u8>, root: int, p: Seq<int>)
    requires
        path_ok(p),
        forall|q: Seq<int>, i: int|
            #![trigger is_table(m, root, q), slot(table_at(m, root, q)->Some_0, i)]
            is_table(m, root, q) && q.len() < 3 && 0 <= i < 512 ==> crate::mem::word(
                n,
                slot(table_at(m, root, q)->Some_0, i),
            ) == crate::mem::word(m, slot(table_at(m, root, q)->Some_0, i)),
    ensures
        table_at(n, root, p) == table_at(m, root, p),
    decreases p.len(),
{
    if p.len() > 0 {
        let q = p.drop_last();
        assert forall|k: int| 0 <= k < q.len() implies 0 <= #[trigger] q[k] < 512 by {
            assert(q[k] == p[k]);
        }
        assert(p.last() == p[p.len() - 1]);
        tables_kept(m, n, root, q);
        if table_at(m, root, q) is Some {
            assert(is_table(m, root, q));
            let t = table_at(m, root, q)->Some_0;
            let s = slot(t, p.last());
            assert(crate::mem::word(n, s) == crate::mem::word(m, s));
        }
    }
}

/// The table at `q` hangs below the one at `p`.
pub open spec fn below(q: Seq<int>, p: Seq<int>) -> bool {
    q.len() > p.len() && q.take(p.len() as int) == p
}

/// Memory `n` is `m` with an empty table `f` hung at entry `i` of the table at
/// `p`, as far as the tables can tell.
pub open spec fn hung(
    m: Seq<u8>,
    n: Seq<u8>,
    root: int,
    p: Seq<int>,
    i: int,
    f: u64,
) -> bool {
    &&& n.len() == m.len()
    &&& forall|q: Seq<int>, j: int|
        #![trigger is_table(m, root, q), slot(table_at(m, root, q)->Some_0, j)]
        is_table(m, root, q) && 0 <= j < 512 && !(q == p && j == i) ==> crate::mem::word(
            n,
            slot(table_at(m, root, q)->Some_0, j),
        ) == crate::mem::word(m, slot(table_at(m, root, q)->Some_0, j))
    &&& crate::mem::word(n, slot(table_at(m, root, p)->Some_0, i)) == f | PTE_TABLE
    &&& forall|j: int|
        0 <= j < 512 ==> #[trigger] crate::mem::word(n, slot(f as int, j)) == 0
}

/// What hanging an empty table does to the tree.
pub proof fn hanging(m: Seq<u8>, n: Seq<u8>, root: int, p: Seq<int>, i: int, f: u64, q: Seq<int>)
    requires
        tree(m, root),
        is_table(m, root, p),
        p.len() < 3,
        0 <= i < 512,
        !present(crate::mem::word(m, slot(table_at(m, root, p)->Some_0, i))),
        f % 4096 == 0,
        f < 0x10_0000_0000_0000,
        hung(m, n, root, p, i, f),
        path_ok(q),
    ensures
        q == p.push(i) ==> table_at(n, root, q) == Some(f as int) && table_at(m, root, q) is None,
        below(q, p.push(i)) ==> table_at(n, root, q) is None && table_at(m, root, q) is None,
        q != p.push(i) && !below(q, p.push(i)) ==> table_at(n, root, q) == table_at(m, root, q),
    decreases q.len(),
{
    let b = p.push(i);
    entry_bits(f);
    frame_bits(0);
    child_table(m, root, p, i);
    if q.len() > 0 {
        let o = q.drop_last();
        let j = q.last();
        assert forall|k: int| 0 <= k < o.len() implies 0 <= #[trigger] o[k] < 512 by {
            assert(o[k] == q[k]);
        }
        assert(j == q[q.len() - 1]);
        assert(q =~= o.push(j));
        hanging(m, n, root, p, i, f, o);
        if o == p && j == i {
            assert(q == b);
            assert(!below(o, b));
        } else if o == b {
            assert(q.take(b.len() as int) =~= b);
            assert(below(q, b));
            assert(crate::mem::word(n, slot(f as int, j)) == 0);
        } else if below(o, b) {
            assert(q.take(b.len() as int) =~= o.take(b.len() as int));
        } else {
            assert(q != b) by {
                if q == b {
                    assert(o =~= p);
                    assert(j == i);
                }
            }
            if below(q, b) {
                if q.len() == b.len() + 1 {
                    assert(o =~= q.take(b.len() as int));
                } else {
                    assert(o.take(b.len() as int) =~= q.take(b.len() as int));
                }
            }
            if table_at(m, root, o) is Some {
                assert(is_table(m, root, o));
                let t = table_at(m, root, o)->Some_0;
                let s = slot(t, j);
                assert(crate::mem::word(n, s) == crate::mem::word(m, s));
            }
        }
    } else {
        assert(q != b);
    }
}

} // verus!
