//! Reading and writing page tables.
//!
//! Page tables are a cache of `Maps` edges. Nothing here decides policy. It
//! writes what it is told to write and, critically, it can walk back what is
//! actually there so that hardware can be compared against the graph.
//!
//! Physical memory is one stretch of bytes, as the direct map shows it, so no
//! temporary mappings and no recursive page-table trick are needed.

use vstd::prelude::*;

use crate::edge::Prot;
use crate::frames::FrameAllocator;
use crate::mem::{read_u64, write_u64, zero_bytes};
use crate::tables::{
    PTE_ADDR_MASK, PTE_HUGE, PTE_NO_EXEC, PTE_PRESENT, PTE_TABLE, PTE_USER, PTE_WRITABLE,
};

verus! {

pub fn index(vaddr: u64, level: u64) -> (r: usize)
    requires
        level <= 3,
    ensures
        r == crate::tables::spec_index(vaddr, level),
        r < 512,
{
    proof {
        crate::tables::index_bound(vaddr, level);
    }
    ((vaddr >> (12 + 9 * level)) & 0x1FF) as usize
}

/// The hardware bits for a protection.
pub open spec fn flags_of(prot: Prot) -> u64 {
    (PTE_PRESENT | (if prot.contains(Prot(2)) {
        PTE_WRITABLE
    } else {
        0
    })) | (if prot.contains(Prot(8)) {
        PTE_USER
    } else {
        0
    }) | (if prot.contains(Prot(4)) {
        0
    } else {
        PTE_NO_EXEC
    })
}

/// Translate `Prot` into hardware bits. `Prot` is what the graph records; these
/// bits are the cache of it.
pub fn prot_to_flags(prot: Prot) -> (r: u64)
    ensures
        r == flags_of(prot),
{
    let w: u64 = if prot.contains(Prot::write()) {
        PTE_WRITABLE
    } else {
        0
    };
    let u: u64 = if prot.contains(Prot::user()) {
        PTE_USER
    } else {
        0
    };
    let x: u64 = if prot.contains(Prot::exec()) {
        0
    } else {
        PTE_NO_EXEC
    };
    ((PTE_PRESENT | w) | u) | x
}

/// The entry grants everything `prot` asks for and nothing it forbids.
pub open spec fn grants(entry: u64, prot: Prot) -> bool {
    &&& crate::tables::present(entry)
    &&& (entry & PTE_WRITABLE != 0) == prot.contains(Prot(2))
    &&& (entry & PTE_USER != 0) == prot.contains(Prot(8))
    &&& (entry & PTE_NO_EXEC == 0) == prot.contains(Prot(4))
}

/// True if the hardware entry grants everything `prot` asks for and nothing
/// it forbids.
pub fn flags_match(entry: u64, prot: Prot) -> (r: bool)
    ensures
        r == grants(entry, prot),
{
    if entry & PTE_PRESENT == 0 {
        return false;
    }
    let want_write: bool = prot.contains(Prot::write());
    let want_user: bool = prot.contains(Prot::user());
    let want_exec: bool = prot.contains(Prot::exec());
    (entry & PTE_WRITABLE != 0) == want_write && (entry & PTE_USER != 0) == want_user && (entry
        & PTE_NO_EXEC == 0) == want_exec
}

/// An entry written for a frame and a protection names that frame and grants
/// that protection.
pub proof fn flags_say_what_was_asked(frame: u64, prot: Prot)
    requires
        frame % 4096 == 0,
        frame < 0x10_0000_0000_0000,
    ensures
        grants(frame | flags_of(prot), prot),
        crate::tables::frame_of(frame | flags_of(prot)) == frame,
{
    let w = if prot.contains(Prot(2)) {
        2u64
    } else {
        0u64
    };
    let u = if prot.contains(Prot(8)) {
        4u64
    } else {
        0u64
    };
    let x = if prot.contains(Prot(4)) {
        0u64
    } else {
        0x8000_0000_0000_0000u64
    };
    let f = 1u64 | w | u | x;
    assert(f == flags_of(prot));
    assert(frame % 4096 == 0 && frame < 0x10_0000_0000_0000 && (w == 0 || w == 2) && (u == 0 || u
        == 4) && (x == 0 || x == 0x8000_0000_0000_0000) && f == 1u64 | w | u | x ==> (frame | f) & 1
        != 0 && ((frame | f) & 2 != 0) == (w == 2) && ((frame | f) & 4 != 0) == (u == 4) && ((frame
        | f) & 0x8000_0000_0000_0000 == 0) == (x == 0) && (frame | f) & 0x000F_FFFF_FFFF_F000
        == frame) by (bit_vector);
}

#[derive(Clone, Copy, Debug, PartialEq, Eq, Structural)]
pub enum MapError {
    OutOfFrames,
    /// Something is already mapped there.
    AlreadyMapped(u64),
}

/// The page-table root as an address in memory.
pub open spec fn root_of(pml4: u64) -> int {
    crate::tables::frame_of(pml4) as int
}

/// Memory reaches over every frame the allocator can hand out, and is no
/// larger than a page-table entry can name.
pub open spec fn covers(fa: FrameAllocator<'_>, mem: Seq<u8>) -> bool {
    fa.total_frames * 4096 <= mem.len() <= 0x10_0000_0000_0000
}

/// No table of the tree is a free frame.
pub open spec fn owned(fa: FrameAllocator<'_>, mem: Seq<u8>, root: int) -> bool {
    forall|p: Seq<int>| #[trigger]
        crate::tables::is_table(mem, root, p) ==> !fa.free(
            crate::tables::table_at(mem, root, p)->Some_0 / 4096,
        )
}

/// Everything the page-table code needs to hold of one root.
pub open spec fn ready(fa: FrameAllocator<'_>, mem: Seq<u8>, root: int) -> bool {
    &&& fa.wf()
    &&& covers(fa, mem)
    &&& crate::tables::tree(mem, root)
    &&& owned(fa, mem, root)
}

/// `q` is a table on the way along `p`.
pub open spec fn along(q: Seq<int>, p: Seq<int>) -> bool {
    0 < q.len() <= p.len() && q == p.take(q.len() as int)
}

/// Between the two states nothing happened above the leaf entries but that
/// tables were added, out of free frames, at the paths in `way`; and nothing
/// outside the tables changed.
#[verifier::opaque]
pub open spec fn grown(
    m0: Seq<u8>,
    f0: FrameAllocator<'_>,
    m1: Seq<u8>,
    f1: FrameAllocator<'_>,
    root: int,
    way: spec_fn(Seq<int>) -> bool,
) -> bool {
    &&& m1.len() == m0.len()
    &&& f1.same_shape(f0)
    &&& ready(f1, m1, root)
    &&& forall|q: Seq<int>| #[trigger]
        crate::tables::is_table(m0, root, q) ==> crate::tables::is_table(m1, root, q)
            && crate::tables::table_at(m1, root, q) == crate::tables::table_at(m0, root, q)
    &&& forall|q: Seq<int>| #[trigger]
        crate::tables::is_table(m1, root, q) && !crate::tables::is_table(m0, root, q) ==> way(q)
            && f0.free(crate::tables::table_at(m1, root, q)->Some_0 / 4096)
    &&& forall|f: int| #[trigger]
        f1.free(f) <==> f0.free(f) && !crate::tables::has_table(m1, root, 4096 * f)
    &&& forall|a: int|
        0 <= a < m0.len() && !f0.free(a / 4096) && !touched(m0, root, way, a / 4096 * 4096)
            ==> #[trigger] m1[a] == m0[a]
    &&& forall|q: Seq<int>, j: int|
        #![trigger crate::tables::is_table(m0, root, q), crate::tables::slot(crate::tables::table_at(m0, root, q)->Some_0, j)]
        crate::tables::is_table(m0, root, q) && q.len() < 3 && 0 <= j < 512 && !added(
            m0,
            m1,
            root,
            q.push(j),
        ) ==> entry(m1, m0, root, q, j) == entry(m0, m0, root, q, j)
    &&& forall|q: Seq<int>, j: int|
        #![trigger crate::tables::is_table(m0, root, q), crate::tables::is_table(m1, root, q.push(j))]
        crate::tables::is_table(m0, root, q) && 0 <= j < 512 && added(m0, m1, root, q.push(j))
            ==> !crate::tables::present(entry(m0, m0, root, q, j))
    &&& forall|q: Seq<int>, j: int|
        #![trigger crate::tables::is_table(m1, root, q), crate::tables::slot(crate::tables::table_at(m1, root, q)->Some_0, j)]
        added(m0, m1, root, q) && q.len() < 3 && 0 <= j < 512 ==> !crate::tables::huge(
            entry(m1, m1, root, q, j),
        )
}

/// The frame at `t` is the root, or a table at one of the paths in `way`.
pub open spec fn touched(
    m: Seq<u8>,
    root: int,
    way: spec_fn(Seq<int>) -> bool,
    t: int,
) -> bool {
    exists|q: Seq<int>| #[trigger]
        crate::tables::is_table(m, root, q) && (q.len() == 0 || way(q)) && crate::tables::table_at(
            m,
            root,
            q,
        ) == Some(t)
}

/// `q` is a table that was not one before.
pub open spec fn added(m0: Seq<u8>, m1: Seq<u8>, root: int, q: Seq<int>) -> bool {
    crate::tables::is_table(m1, root, q) && !crate::tables::is_table(m0, root, q)
}

/// What memory `n` holds in entry `j` of the table that `m` has at `q`.
pub open spec fn entry(n: Seq<u8>, m: Seq<u8>, root: int, q: Seq<int>, j: int) -> u64 {
    crate::mem::word(n, crate::tables::slot(crate::tables::table_at(m, root, q)->Some_0, j))
}

/// Every address translates as it did.
pub open spec fn same_lookups(m0: Seq<u8>, m1: Seq<u8>, root: int) -> bool {
    forall|w: u64| #[trigger]
        crate::tables::lookup(m1, root, w) == crate::tables::lookup(m0, root, w)
}

/// Nothing at all is a way of growing.
pub proof fn grown_none(
    m: Seq<u8>,
    f: FrameAllocator<'_>,
    root: int,
    way: spec_fn(Seq<int>) -> bool,
)
    requires
        ready(f, m, root),
    ensures
        grown(m, f, m, f, root, way),
{
    reveal(grown);
    assert forall|x: int| #[trigger] f.free(x) implies !crate::tables::has_table(m, root, 4096 * x) by {
        if crate::tables::has_table(m, root, 4096 * x) {
            let p = choose|p: Seq<int>| #[trigger]
                crate::tables::is_table(m, root, p) && crate::tables::table_at(m, root, p) == Some(
                    4096 * x,
                );
            assert((4096 * x) / 4096 == x);
        }
    }
}

/// What has grown can grow again.
pub proof fn grown_ready(
    m0: Seq<u8>,
    f0: FrameAllocator<'_>,
    m1: Seq<u8>,
    f1: FrameAllocator<'_>,
    root: int,
    way: spec_fn(Seq<int>) -> bool,
)
    requires
        grown(m0, f0, m1, f1, root, way),
    ensures
        m1.len() == m0.len(),
        f1.same_shape(f0),
        ready(f1, m1, root),
{
    reveal(grown);
}

/// Growing twice is growing.
pub proof fn grown_twice(
    m0: Seq<u8>,
    f0: FrameAllocator<'_>,
    m1: Seq<u8>,
    f1: FrameAllocator<'_>,
    m2: Seq<u8>,
    f2: FrameAllocator<'_>,
    root: int,
    way: spec_fn(Seq<int>) -> bool,
)
    requires
        grown(m0, f0, m1, f1, root, way),
        grown(m1, f1, m2, f2, root, way),
    ensures
        grown(m0, f0, m2, f2, root, way),
{
    reveal(grown);
    assert forall|q: Seq<int>| #[trigger]
        crate::tables::is_table(m2, root, q) && !crate::tables::is_table(m0, root, q) implies way(q)
        && f0.free(crate::tables::table_at(m2, root, q)->Some_0 / 4096) by {
        if crate::tables::is_table(m1, root, q) {
            assert(crate::tables::table_at(m2, root, q) == crate::tables::table_at(m1, root, q));
        } else {
            assert(f1.free(crate::tables::table_at(m2, root, q)->Some_0 / 4096));
        }
    }
    assert forall|f: int| #[trigger] f2.free(f) <==> f0.free(f) && !crate::tables::has_table(
        m2,
        root,
        4096 * f,
    ) by {
        assert(f2.free(f) <==> f1.free(f) && !crate::tables::has_table(m2, root, 4096 * f));
        if crate::tables::has_table(m1, root, 4096 * f) {
            let p = choose|p: Seq<int>| #[trigger]
                crate::tables::is_table(m1, root, p) && crate::tables::table_at(m1, root, p)
                    == Some(4096 * f);
            assert(crate::tables::is_table(m2, root, p));
            assert(crate::tables::has_table(m2, root, 4096 * f));
        }
    }
    assert forall|a: int|
        0 <= a < m0.len() && !f0.free(a / 4096) && !touched(
            m0,
            root,
            way,
            a / 4096 * 4096,
        ) implies #[trigger] m2[a] == m0[a] by {
        assert(m1[a] == m0[a]);
        assert(f1.free(a / 4096) ==> f0.free(a / 4096));
        if touched(m1, root, way, a / 4096 * 4096) {
            let p = choose|p: Seq<int>| #[trigger]
                crate::tables::is_table(m1, root, p) && (p.len() == 0 || way(p))
                    && crate::tables::table_at(m1, root, p) == Some(a / 4096 * 4096);
            if crate::tables::is_table(m0, root, p) {
                assert(touched(m0, root, way, a / 4096 * 4096));
            } else {
                assert((a / 4096 * 4096) / 4096 == a / 4096);
            }
        }
    }
    assert forall|q: Seq<int>, j: int|
        #![trigger crate::tables::is_table(m0, root, q), crate::tables::slot(crate::tables::table_at(m0, root, q)->Some_0, j)]
        crate::tables::is_table(m0, root, q) && q.len() < 3 && 0 <= j < 512 && !added(
            m0,
            m2,
            root,
            q.push(j),
        ) implies entry(m2, m0, root, q, j) == entry(m0, m0, root, q, j) by {
        grown_twice_entry(m0, f0, m1, f1, m2, f2, root, way, q, j);
    }
    assert forall|q: Seq<int>, j: int|
        #![trigger crate::tables::is_table(m0, root, q), crate::tables::is_table(m2, root, q.push(j))]
        crate::tables::is_table(m0, root, q) && 0 <= j < 512 && added(
            m0,
            m2,
            root,
            q.push(j),
        ) implies !crate::tables::present(entry(m0, m0, root, q, j)) by {
        assert(q.push(j).len() <= 3);
        grown_twice_entry(m0, f0, m1, f1, m2, f2, root, way, q, j);
    }
    assert forall|q: Seq<int>, j: int|
        #![trigger crate::tables::is_table(m2, root, q), crate::tables::slot(crate::tables::table_at(m2, root, q)->Some_0, j)]
        added(m0, m2, root, q) && q.len() < 3 && 0 <= j < 512 implies !crate::tables::huge(
        entry(m2, m2, root, q, j),
    ) by {
        if crate::tables::is_table(m1, root, q) {
            assert(crate::tables::table_at(m2, root, q) == crate::tables::table_at(m1, root, q));
            let s = crate::tables::slot(crate::tables::table_at(m1, root, q)->Some_0, j);
            assert(added(m0, m1, root, q));
            assert(!crate::tables::huge(entry(m1, m1, root, q, j)));
            if added(m1, m2, root, q.push(j)) {
                crate::tables::child_table(m2, root, q, j);
            } else {
                assert(entry(m2, m1, root, q, j) == entry(m1, m1, root, q, j));
            }
        } else {
            assert(added(m1, m2, root, q));
        }
    }
}

proof fn grown_twice_entry(
    m0: Seq<u8>,
    f0: FrameAllocator<'_>,
    m1: Seq<u8>,
    f1: FrameAllocator<'_>,
    m2: Seq<u8>,
    f2: FrameAllocator<'_>,
    root: int,
    way: spec_fn(Seq<int>) -> bool,
    q: Seq<int>,
    j: int,
)
    requires
        grown(m0, f0, m1, f1, root, way),
        grown(m1, f1, m2, f2, root, way),
        crate::tables::is_table(m0, root, q),
        q.len() < 3,
        0 <= j < 512,
    ensures
        !added(m0, m2, root, q.push(j)) ==> entry(m2, m0, root, q, j) == entry(m0, m0, root, q, j),
        added(m0, m2, root, q.push(j)) ==> !crate::tables::present(entry(m0, m0, root, q, j)),
{
    reveal(grown);
    assert(crate::tables::is_table(m1, root, q));
    assert(crate::tables::table_at(m1, root, q) == crate::tables::table_at(m0, root, q));
    let s = crate::tables::slot(crate::tables::table_at(m0, root, q)->Some_0, j);
    let s1 = crate::tables::slot(crate::tables::table_at(m1, root, q)->Some_0, j);
    let qj = q.push(j);
    if crate::tables::is_table(m0, root, qj) {
        assert(crate::tables::is_table(m1, root, qj));
    }
    if crate::tables::is_table(m1, root, qj) {
        assert(crate::tables::is_table(m2, root, qj));
    }
    if !added(m0, m1, root, qj) {
        assert(entry(m1, m0, root, q, j) == entry(m0, m0, root, q, j));
    }
    if !added(m1, m2, root, qj) {
        assert(entry(m2, m1, root, q, j) == entry(m1, m1, root, q, j));
    }
}

/// Hanging one zeroed frame off an empty entry is growing.
proof fn hanging_grows(
    m0: Seq<u8>,
    f0: FrameAllocator<'_>,
    m1: Seq<u8>,
    f1: FrameAllocator<'_>,
    root: int,
    p: Seq<int>,
    i: int,
    f: u64,
    way: spec_fn(Seq<int>) -> bool,
)
    requires
        ready(f0, m0, root),
        f1.wf(),
        f1.same_shape(f0),
        crate::tables::is_table(m0, root, p),
        p.len() < 3,
        0 <= i < 512,
        p.len() == 0 || way(p),
        way(p.push(i)),
        !crate::tables::present(
            crate::mem::word(
                m0,
                crate::tables::slot(crate::tables::table_at(m0, root, p)->Some_0, i),
            ),
        ),
        f % 4096 == 0,
        f0.free(f as int / 4096),
        forall|x: int| #[trigger] f1.free(x) <==> f0.free(x) && x != f as int / 4096,
        m1 == crate::mem::with_word(
            crate::mem::overwritten(m0, f as int, crate::edge::zeros(4096)),
            crate::tables::slot(crate::tables::table_at(m0, root, p)->Some_0, i),
            f | PTE_TABLE,
        ),
    ensures
        grown(m0, f0, m1, f1, root, way),
        crate::tables::is_table(m1, root, p.push(i)),
        crate::tables::table_at(m1, root, p.push(i)) == Some(f as int),
        same_lookups(m0, m1, root),
{
    reveal(grown);
    let t = crate::tables::table_at(m0, root, p)->Some_0;
    let b = p.push(i);
    let mz = crate::mem::overwritten(m0, f as int, crate::edge::zeros(4096));
    let at = crate::tables::slot(t, i);
    crate::tables::child_table(m0, root, p, i);
    crate::tables::entry_bits(f);
    crate::tables::frame_bits(0);
    assert(f + 4096 <= m0.len());
    assert(t != f);
    // What is a table is not the new frame.
    assert forall|q: Seq<int>| #[trigger] crate::tables::is_table(m0, root, q) implies ({
        let u = crate::tables::table_at(m0, root, q)->Some_0;
        u + 4096 <= f || f + 4096 <= u
    }) by {
        let u = crate::tables::table_at(m0, root, q)->Some_0;
        assert(!f0.free(u / 4096));
        assert(u / 4096 != f as int / 4096);
    }
    assert(crate::tables::hung(m0, m1, root, p, i, f)) by {
        assert forall|q: Seq<int>, j: int|
            #![trigger crate::tables::is_table(m0, root, q), crate::tables::slot(crate::tables::table_at(m0, root, q)->Some_0, j)]
            crate::tables::is_table(m0, root, q) && 0 <= j < 512 && !(q == p && j
                == i) implies crate::mem::word(
            m1,
            crate::tables::slot(crate::tables::table_at(m0, root, q)->Some_0, j),
        ) == crate::mem::word(
            m0,
            crate::tables::slot(crate::tables::table_at(m0, root, q)->Some_0, j),
        ) by {
            let u = crate::tables::table_at(m0, root, q)->Some_0;
            let s = crate::tables::slot(u, j);
            if u == t {
                assert(q == p);
            }
            crate::mem::word_written(mz, at, f | PTE_TABLE, s);
            crate::mem::same_bytes_same_word(mz, m0, s);
        }
        crate::mem::word_written(mz, at, f | PTE_TABLE, at);
        assert forall|j: int| 0 <= j < 512 implies #[trigger] crate::mem::word(
            m1,
            crate::tables::slot(f as int, j),
        ) == 0 by {
            let s = crate::tables::slot(f as int, j);
            crate::mem::word_written(mz, at, f | PTE_TABLE, s);
            crate::mem::zero_word(mz, s);
        }
    }
    assert forall|q: Seq<int>| crate::tables::path_ok(q) implies (q == b ==> #[trigger] crate::tables::table_at(
        m1,
        root,
        q,
    ) == Some(f as int) && crate::tables::table_at(m0, root, q) is None) && (q != b
        ==> crate::tables::table_at(m1, root, q) == crate::tables::table_at(m0, root, q)) by {
        crate::tables::hanging(m0, m1, root, p, i, f, q);
    }
    assert forall|q: Seq<int>| #[trigger] crate::tables::is_table(m1, root, q) implies q == b
        || crate::tables::is_table(m0, root, q) by {
        assert(crate::tables::table_at(m1, root, q) is Some);
    }
    assert forall|q: Seq<int>| #[trigger]
        crate::tables::is_table(m0, root, q) implies crate::tables::is_table(m1, root, q)
        && crate::tables::table_at(m1, root, q) == crate::tables::table_at(m0, root, q) by {
        assert(crate::tables::table_at(m1, root, q) == crate::tables::table_at(m0, root, q));
    }
    assert(crate::tables::table_at(m1, root, b) == Some(f as int));
    crate::tables::root_is_table(m0, root);
    assert(crate::tables::tree(m1, root)) by {
        assert forall|k: int| 0 <= k < 512 implies !(crate::tables::present(
            #[trigger] crate::mem::word(m1, crate::tables::slot(root, k)),
        ) && crate::tables::huge(crate::mem::word(m1, crate::tables::slot(root, k)))) by {
            let e: Seq<int> = Seq::empty();
            assert(crate::tables::is_table(m0, root, e));
            assert(crate::tables::table_at(m0, root, e) == Some(root));
            if e == p && k == i {
            } else {
                let s = crate::tables::slot(crate::tables::table_at(m0, root, e)->Some_0, k);
                assert(crate::mem::word(m1, s) == crate::mem::word(m0, s));
                assert(!(crate::tables::present(
                    crate::mem::word(m0, crate::tables::slot(root, k)),
                ) && crate::tables::huge(crate::mem::word(m0, crate::tables::slot(root, k)))));
            }
        }
        assert forall|x: Seq<int>, y: Seq<int>|
            #![trigger crate::tables::is_table(m1, root, x), crate::tables::is_table(m1, root, y)]
            crate::tables::is_table(m1, root, x) && crate::tables::is_table(m1, root, y)
                && crate::tables::table_at(m1, root, x) == crate::tables::table_at(
                m1,
                root,
                y,
            ) implies x == y by {
            if x != b {
                assert(crate::tables::is_table(m0, root, x));
            }
            if y != b {
                assert(crate::tables::is_table(m0, root, y));
            }
        }
    }
    assert(owned(f1, m1, root)) by {
        assert forall|q: Seq<int>| #[trigger] crate::tables::is_table(m1, root, q) implies !f1.free(
            crate::tables::table_at(m1, root, q)->Some_0 / 4096,
        ) by {
            if q != b {
                assert(crate::tables::is_table(m0, root, q));
            }
        }
    }
    assert forall|x: int| #[trigger] f1.free(x) <==> f0.free(x) && !crate::tables::has_table(
        m1,
        root,
        4096 * x,
    ) by {
        if x == f as int / 4096 {
            assert(crate::tables::is_table(m1, root, b));
            assert(4096 * x == f);
            assert(crate::tables::has_table(m1, root, 4096 * x));
        } else if f0.free(x) && crate::tables::has_table(m1, root, 4096 * x) {
            let q = choose|q: Seq<int>| #[trigger]
                crate::tables::is_table(m1, root, q) && crate::tables::table_at(m1, root, q)
                    == Some(4096 * x);
            if q != b {
                assert(crate::tables::is_table(m0, root, q));
                assert((4096 * x) / 4096 == x);
            }
        }
    }
    assert forall|a: int|
        0 <= a < m0.len() && !f0.free(a / 4096) && !touched(
            m0,
            root,
            way,
            a / 4096 * 4096,
        ) implies #[trigger] m1[a] == m0[a] by {
        if at <= a < at + 8 {
            assert(a / 4096 * 4096 == t);
            assert(touched(m0, root, way, t));
        }
        if f <= a < f + 4096 {
            assert(a / 4096 == f as int / 4096);
        }
    }
    assert forall|w: u64| #[trigger]
        crate::tables::lookup(m1, root, w) == crate::tables::lookup(m0, root, w) by {
        let q = crate::tables::path_of(w);
        crate::tables::paths_differ(w, w);
        crate::tables::index_bound(w, 0);
        let j = crate::tables::spec_index(w, 0) as int;
        assert(crate::tables::table_at(m1, root, q) is Some || q != b);
        if q == b {
            assert(crate::mem::word(m1, crate::tables::slot(f as int, j)) == 0);
        } else if crate::tables::table_at(m0, root, q) is Some {
            assert(crate::tables::is_table(m0, root, q));
            let s = crate::tables::slot(crate::tables::table_at(m0, root, q)->Some_0, j);
            assert(crate::mem::word(m1, s) == crate::mem::word(m0, s));
        }
    }
    assert forall|q: Seq<int>, j: int|
        #![trigger crate::tables::is_table(m0, root, q), crate::tables::slot(crate::tables::table_at(m0, root, q)->Some_0, j)]
        crate::tables::is_table(m0, root, q) && 0 <= j < 512 && !added(
            m0,
            m1,
            root,
            q.push(j),
        ) implies entry(m1, m0, root, q, j) == entry(m0, m0, root, q, j) by {
        if q == p && j == i {
            assert(q.push(j) == b);
            assert(crate::tables::table_at(m0, root, b) is None);
        }
    }
    assert forall|q: Seq<int>, j: int|
        #![trigger crate::tables::is_table(m0, root, q), crate::tables::is_table(m1, root, q.push(j))]
        crate::tables::is_table(m0, root, q) && 0 <= j < 512 && added(
            m0,
            m1,
            root,
            q.push(j),
        ) implies !crate::tables::present(entry(m0, m0, root, q, j)) by {
        assert(q.push(j) == b);
        assert(q.push(j).drop_last() =~= q);
        assert(b.drop_last() =~= p);
        assert(q.push(j).last() == j);
        assert(b.last() == i);
    }
    assert forall|q: Seq<int>, j: int|
        #![trigger crate::tables::is_table(m1, root, q), crate::tables::slot(crate::tables::table_at(m1, root, q)->Some_0, j)]
        added(m0, m1, root, q) && 0 <= j < 512 implies !crate::tables::huge(
        entry(m1, m1, root, q, j),
    ) by {
        assert(q == b);
        assert(crate::mem::word(m1, crate::tables::slot(f as int, j)) == 0);
    }
}

/// One level down, adding a table if there is none.
fn descend(
    mem: &mut [u8],
    t: usize,
    i: usize,
    fa: &mut FrameAllocator<'_>,
    Ghost(root): Ghost<int>,
    Ghost(p): Ghost<Seq<int>>,
    Ghost(way): Ghost<spec_fn(Seq<int>) -> bool>,
) -> (r: Option<usize>)
    requires
        ready(*old(fa), old(mem)@, root),
        crate::tables::is_table(old(mem)@, root, p),
        crate::tables::table_at(old(mem)@, root, p) == Some(t as int),
        p.len() < 3,
        i < 512,
        p.len() == 0 || way(p),
        way(p.push(i as int)),
    ensures
        grown(old(mem)@, *old(fa), final(mem)@, *final(fa), root, way),
        same_lookups(old(mem)@, final(mem)@, root),
        r matches Some(u) ==> crate::tables::is_table(final(mem)@, root, p.push(i as int))
            && crate::tables::table_at(final(mem)@, root, p.push(i as int)) == Some(u as int),
        ({
            let e = crate::mem::word(old(mem)@, crate::tables::slot(t as int, i as int));
            r is None <==> (if crate::tables::present(e) {
                crate::tables::huge(e)
            } else {
                old(fa).no_fit(1, 1)
            })
        }),
        r is None ==> final(mem)@ == old(mem)@ && *final(fa) == *old(fa),
{
    let ghost m0 = mem@;
    let ghost f0 = *fa;
    let at: usize = t + 8 * i;
    assert(mem.len() == mem@.len());
    let e: u64 = read_u64(mem, at);
    proof {
        reveal(crate::mem::word);
        assert(e == crate::mem::word(m0, crate::tables::slot(t as int, i as int)));
        crate::tables::child_table(m0, root, p, i as int);
        crate::tables::frame_bits(e);
        grown_none(m0, f0, root, way);
    }
    if e & PTE_PRESENT == 0 {
        let frame: u64 = match fa.allocate() {
            Some(f) => f,
            None => return None,
        };
        assert(f0.free(frame as int / 4096));
        assert(frame as int / 4096 < f0.total_frames);
        assert(frame + 4096 <= m0.len());
        zero_bytes(mem, frame as usize, 4096);
        write_u64(mem, at, frame | PTE_TABLE);
        proof {
            assert(f0.fits(frame as int / 4096, 1));
            hanging_grows(m0, f0, mem@, *fa, root, p, i as int, frame, way);
            assert(!f0.no_fit(1, 1));
        }
        return Some(frame as usize);
    }
    if e & PTE_HUGE != 0 {
        // The kernel half uses large pages. Nothing maps small pages into a
        // range already covered by one.
        return None;
    }
    assert(crate::tables::is_table(m0, root, p.push(i as int)));
    Some((e & PTE_ADDR_MASK) as usize)
}

/// Walk to the leaf entry for `vaddr`. No table is created.
fn leaf_entry(mem: &[u8], pml4: u64, vaddr: u64) -> (r: Option<usize>)
    requires
        crate::tables::tree(mem@, root_of(pml4)),
    ensures
        r matches Some(s) ==> crate::tables::leaf_slot(mem@, root_of(pml4), vaddr) == Some(
            s as int,
        ) && s + 8 <= mem@.len(),
        r is None ==> crate::tables::leaf_slot(mem@, root_of(pml4), vaddr) is None,
{
    let ghost root = root_of(pml4);
    let ghost p = crate::tables::path_of(vaddr);
    proof {
        crate::tables::root_is_table(mem@, root);
        crate::tables::paths_differ(vaddr, vaddr);
        assert(p.take(0) =~= Seq::<int>::empty());
        assert(p.take(3) =~= p);
    }
    assert(mem.len() == mem@.len());
    assert(root + 4096 <= mem@.len());
    let mut t: usize = (pml4 & PTE_ADDR_MASK) as usize;
    let mut level: u64 = 3;
    while level > 0
        invariant
            level <= 3,
            root == root_of(pml4),
            p == crate::tables::path_of(vaddr),
            crate::tables::path_ok(p),
            crate::tables::tree(mem@, root),
            crate::tables::is_table(mem@, root, p.take(3 - level)),
            crate::tables::table_at(mem@, root, p.take(3 - level)) == Some(t as int),
            p.take(3) == p,
        decreases level,
    {
        let i: usize = index(vaddr, level);
        let ghost k = 3 - level;
        assert(mem.len() == mem@.len());
        let e: u64 = read_u64(mem, t + 8 * i);
        proof {
            reveal(crate::mem::word);
            assert(p[k] == i);
            assert(p.take(k + 1) =~= p.take(k).push(p[k]));
            crate::tables::child_table(mem@, root, p.take(k), i as int);
            crate::tables::frame_bits(e);
        }
        if e & PTE_PRESENT == 0 || e & PTE_HUGE != 0 {
            proof {
                stuck(mem@, root, p, k + 1);
            }
            return None;
        }
        assert(crate::tables::is_table(mem@, root, p.take(k + 1)));
        t = (e & PTE_ADDR_MASK) as usize;
        level = level - 1;
    }
    Some(t + 8 * index(vaddr, 0))
}

/// Where a path is cut there is nothing further down.
pub proof fn stuck(mem: Seq<u8>, root: int, p: Seq<int>, k: int)
    requires
        0 <= k <= p.len(),
        crate::tables::table_at(mem, root, p.take(k)) is None,
    ensures
        crate::tables::table_at(mem, root, p) is None,
    decreases p.len() - k,
{
    if k < p.len() {
        assert(p.take(k + 1).drop_last() =~= p.take(k));
        stuck(mem, root, p, k + 1);
    } else {
        assert(p.take(k) =~= p);
    }
}

/// A block found after growing was there before.
proof fn blocked_before(
    m0: Seq<u8>,
    f0: FrameAllocator<'_>,
    m1: Seq<u8>,
    f1: FrameAllocator<'_>,
    root: int,
    way: spec_fn(Seq<int>) -> bool,
    p: Seq<int>,
    k: int,
)
    requires
        grown(m0, f0, m1, f1, root, way),
        crate::tables::path_ok(p),
    ensures
        crate::tables::blocked_at(m1, root, p, k) <==> crate::tables::blocked_at(m0, root, p, k),
{
    reveal(grown);
    if 0 <= k < p.len() {
        let q = p.take(k);
        assert forall|i: int| 0 <= i < q.len() implies 0 <= #[trigger] q[i] < 512 by {
            assert(q[i] == p[i]);
        }
        let j = p[k];
        if crate::tables::blocked_at(m0, root, p, k) {
            assert(crate::tables::is_table(m0, root, q));
            assert(crate::tables::is_table(m1, root, q));
            let s = crate::tables::slot(crate::tables::table_at(m0, root, q)->Some_0, j);
            if added(m0, m1, root, q.push(j)) {
                assert(!crate::tables::present(entry(m0, m0, root, q, j)));
            }
            assert(entry(m1, m0, root, q, j) == entry(m0, m0, root, q, j));
        }
        if crate::tables::blocked_at(m1, root, p, k) {
            assert(crate::tables::is_table(m1, root, q));
            let s1 = crate::tables::slot(crate::tables::table_at(m1, root, q)->Some_0, j);
            if !crate::tables::is_table(m0, root, q) {
                assert(added(m0, m1, root, q));
                assert(!crate::tables::huge(entry(m1, m1, root, q, j)));
            }
            assert(crate::tables::table_at(m1, root, q) == crate::tables::table_at(m0, root, q));
            let s = crate::tables::slot(crate::tables::table_at(m0, root, q)->Some_0, j);
            if added(m0, m1, root, q.push(j)) {
                crate::tables::child_table(m1, root, q, j);
            }
            assert(entry(m1, m0, root, q, j) == entry(m0, m0, root, q, j));
        }
    }
}

/// Walk to the leaf entry for `vaddr`, creating intermediate tables.
fn make_leaf_entry(
    mem: &mut [u8],
    pml4: u64,
    vaddr: u64,
    fa: &mut FrameAllocator<'_>,
    Ghost(way): Ghost<spec_fn(Seq<int>) -> bool>,
) -> (r: Option<usize>)
    requires
        ready(*old(fa), old(mem)@, root_of(pml4)),
        forall|q: Seq<int>| along(q, crate::tables::path_of(vaddr)) ==> #[trigger] way(q),
    ensures
        grown(old(mem)@, *old(fa), final(mem)@, *final(fa), root_of(pml4), way),
        same_lookups(old(mem)@, final(mem)@, root_of(pml4)),
        r matches Some(s) ==> crate::tables::leaf_slot(final(mem)@, root_of(pml4), vaddr) == Some(
            s as int,
        ) && s + 8 <= final(mem)@.len(),
        r is None ==> crate::tables::leaf_slot(final(mem)@, root_of(pml4), vaddr) is None,
        r is None ==> crate::tables::blocked(old(mem)@, root_of(pml4), vaddr) || final(fa).no_fit(
            1,
            1,
        ),
        crate::tables::blocked(old(mem)@, root_of(pml4), vaddr) ==> r is None,
{
    let ghost root = root_of(pml4);
    let ghost p = crate::tables::path_of(vaddr);
    let ghost m0 = mem@;
    let ghost f0 = *fa;
    proof {
        crate::tables::root_is_table(mem@, root);
        crate::tables::paths_differ(vaddr, vaddr);
        assert(p.take(0) =~= Seq::<int>::empty());
        assert(p.take(3) =~= p);
        grown_none(m0, f0, root, way);
    }
    assert(mem.len() == mem@.len());
    assert(root + 4096 <= mem@.len());
    let mut t: usize = (pml4 & PTE_ADDR_MASK) as usize;
    let mut level: u64 = 3;
    while level > 0
        invariant
            level <= 3,
            p == crate::tables::path_of(vaddr),
            root == root_of(pml4),
            forall|q: Seq<int>| along(q, p) ==> #[trigger] way(q),
            crate::tables::path_ok(p),
            grown(m0, f0, mem@, *fa, root, way),
            same_lookups(m0, mem@, root),
            crate::tables::is_table(mem@, root, p.take(3 - level)),
            crate::tables::table_at(mem@, root, p.take(3 - level)) == Some(t as int),
            forall|k: int| 0 <= k < 3 - level ==> !#[trigger] crate::tables::blocked_at(m0, root, p, k),
            p.take(3) == p,
            m0 == old(mem)@,
            f0 == *old(fa),
        decreases level,
    {
        let i: usize = index(vaddr, level);
        let ghost k = 3 - level;
        let ghost m1 = mem@;
        let ghost f1 = *fa;
        proof {
            assert(p[k] == i);
            assert(p.take(k + 1) =~= p.take(k).push(p[k]));
            assert(along(p.take(k + 1), p)) by {
                assert(p.take(k + 1).len() == k + 1);
            }
            assert(k > 0 ==> along(p.take(k), p)) by {
                assert(p.take(k).len() == k);
            }
            blocked_before(m0, f0, m1, f1, root, way, p, k);
            grown_ready(m0, f0, m1, f1, root, way);
            crate::tables::child_table(m1, root, p.take(k), i as int);
        }
        match descend(mem, t, i, fa, Ghost(root), Ghost(p.take(k)), Ghost(way)) {
            Some(u) => {
                proof {
                    grown_twice(m0, f0, m1, f1, mem@, *fa, root, way);
                    assert(same_lookups(m0, mem@, root)) by {
                        assert forall|w: u64| #[trigger]
                            crate::tables::lookup(mem@, root, w) == crate::tables::lookup(
                            m0,
                            root,
                            w,
                        ) by {
                            assert(crate::tables::lookup(m1, root, w) == crate::tables::lookup(
                                m0,
                                root,
                                w,
                            ));
                        }
                    }
                }
                t = u;
            },
            None => {
                proof {
                    assert(m1 == mem@ && f1 == *fa);
                    if !fa.no_fit(1, 1) {
                        assert(crate::tables::blocked_at(m1, root, p, k));
                    }
                    stuck(m1, root, p, k + 1);
                }
                return None;
            },
        }
        level = level - 1;
    }
    proof {
        assert forall|k: int| !#[trigger] crate::tables::blocked_at(m0, root, p, k) by {}
        grown_ready(m0, f0, mem@, *fa, root, way);
    }
    assert(mem.len() == mem@.len());
    Some(t + 8 * index(vaddr, 0))
}

/// Only leaf entries differ, in tables at the paths in `way`.
pub open spec fn leaves_changed(
    m: Seq<u8>,
    n: Seq<u8>,
    root: int,
    way: spec_fn(Seq<int>) -> bool,
) -> bool {
    &&& n.len() == m.len()
    &&& forall|q: Seq<int>|
        crate::tables::path_ok(q) ==> #[trigger] crate::tables::table_at(n, root, q)
            == crate::tables::table_at(m, root, q)
    &&& forall|q: Seq<int>, j: int|
        #![trigger crate::tables::is_table(m, root, q), crate::tables::slot(crate::tables::table_at(m, root, q)->Some_0, j)]
        crate::tables::is_table(m, root, q) && q.len() < 3 && 0 <= j < 512 ==> entry(
            n,
            m,
            root,
            q,
            j,
        ) == entry(m, m, root, q, j)
    &&& forall|a: int|
        0 <= a < m.len() && !touched(m, root, way, a / 4096 * 4096) ==> #[trigger] n[a] == m[a]
}

/// Changing leaf entries twice changes leaf entries.
proof fn leaves_changed_twice(
    m: Seq<u8>,
    n: Seq<u8>,
    o: Seq<u8>,
    root: int,
    way: spec_fn(Seq<int>) -> bool,
)
    requires
        leaves_changed(m, n, root, way),
        leaves_changed(n, o, root, way),
    ensures
        leaves_changed(m, o, root, way),
{
    assert forall|q: Seq<int>| crate::tables::path_ok(q) implies #[trigger] crate::tables::table_at(
        o,
        root,
        q,
    ) == crate::tables::table_at(m, root, q) by {
        assert(crate::tables::table_at(n, root, q) == crate::tables::table_at(m, root, q));
    }
    assert forall|q: Seq<int>, j: int|
        #![trigger crate::tables::is_table(m, root, q), crate::tables::slot(crate::tables::table_at(m, root, q)->Some_0, j)]
        crate::tables::is_table(m, root, q) && q.len() < 3 && 0 <= j < 512 implies entry(
        o,
        m,
        root,
        q,
        j,
    ) == entry(m, m, root, q, j) by {
        assert(crate::tables::table_at(n, root, q) == crate::tables::table_at(m, root, q));
        assert(crate::tables::is_table(n, root, q));
        let s = crate::tables::slot(crate::tables::table_at(n, root, q)->Some_0, j);
        assert(entry(o, n, root, q, j) == entry(n, n, root, q, j));
        assert(entry(n, m, root, q, j) == entry(m, m, root, q, j));
    }
    assert forall|a: int|
        0 <= a < m.len() && !touched(m, root, way, a / 4096 * 4096) implies #[trigger] o[a] == m[a] by {
        assert(n[a] == m[a]);
        if touched(n, root, way, a / 4096 * 4096) {
            let q = choose|q: Seq<int>| #[trigger]
                crate::tables::is_table(n, root, q) && (q.len() == 0 || way(q))
                    && crate::tables::table_at(n, root, q) == Some(a / 4096 * 4096);
            assert(crate::tables::table_at(n, root, q) == crate::tables::table_at(m, root, q));
            assert(crate::tables::is_table(m, root, q));
        }
    }
}

/// Changing leaf entries keeps the tree a tree.
pub proof fn leaves_keep_tree(
    m: Seq<u8>,
    n: Seq<u8>,
    root: int,
    way: spec_fn(Seq<int>) -> bool,
)
    requires
        crate::tables::tree(m, root),
        leaves_changed(m, n, root, way),
    ensures
        crate::tables::tree(n, root),
{
    assert forall|q: Seq<int>| #[trigger]
        crate::tables::is_table(n, root, q) <==> crate::tables::is_table(m, root, q) by {
        if crate::tables::path_ok(q) {
            assert(crate::tables::table_at(n, root, q) == crate::tables::table_at(m, root, q));
        }
    }
    crate::tables::root_is_table(m, root);
    assert forall|i: int| 0 <= i < 512 implies !(crate::tables::present(
        #[trigger] crate::mem::word(n, crate::tables::slot(root, i)),
    ) && crate::tables::huge(crate::mem::word(n, crate::tables::slot(root, i)))) by {
        let e: Seq<int> = Seq::empty();
        assert(crate::tables::is_table(m, root, e));
        let s = crate::tables::slot(crate::tables::table_at(m, root, e)->Some_0, i);
        assert(entry(n, m, root, e, i) == entry(m, m, root, e, i));
        assert(!(crate::tables::present(crate::mem::word(m, crate::tables::slot(root, i)))
            && crate::tables::huge(crate::mem::word(m, crate::tables::slot(root, i)))));
    }
}

/// Changing leaf entries is growing by no table.
pub proof fn leaves_grow(
    m: Seq<u8>,
    f: FrameAllocator<'_>,
    n: Seq<u8>,
    root: int,
    way: spec_fn(Seq<int>) -> bool,
)
    requires
        ready(f, m, root),
        leaves_changed(m, n, root, way),
    ensures
        grown(m, f, n, f, root, way),
{
    reveal(grown);
    leaves_keep_tree(m, n, root, way);
    assert forall|q: Seq<int>| #[trigger]
        crate::tables::is_table(n, root, q) <==> crate::tables::is_table(m, root, q) by {
        if crate::tables::path_ok(q) {
            assert(crate::tables::table_at(n, root, q) == crate::tables::table_at(m, root, q));
        }
    }
    assert forall|x: int| #[trigger] f.free(x) implies !crate::tables::has_table(n, root, 4096 * x) by {
        if crate::tables::has_table(n, root, 4096 * x) {
            let q = choose|q: Seq<int>| #[trigger]
                crate::tables::is_table(n, root, q) && crate::tables::table_at(n, root, q) == Some(
                    4096 * x,
                );
            assert(crate::tables::is_table(m, root, q));
            assert((4096 * x) / 4096 == x);
        }
    }
}

/// Writing one leaf entry changes what its page translates to, and nothing
/// else.
proof fn leaf_written(
    m: Seq<u8>,
    n: Seq<u8>,
    root: int,
    vaddr: u64,
    v: u64,
    way: spec_fn(Seq<int>) -> bool,
)
    requires
        crate::tables::tree(m, root),
        way(crate::tables::path_of(vaddr)),
        crate::tables::leaf_slot(m, root, vaddr) is Some,
        n == crate::mem::with_word(m, crate::tables::leaf_slot(m, root, vaddr)->Some_0, v),
    ensures
        leaves_changed(m, n, root, way),
        forall|w: u64| #[trigger]
            crate::tables::lookup(n, root, w) == if crate::tables::page_number(w)
                == crate::tables::page_number(vaddr) {
                if crate::tables::present(v) {
                    Some(v)
                } else {
                    None
                }
            } else {
                crate::tables::lookup(m, root, w)
            },
{
    let p = crate::tables::path_of(vaddr);
    crate::tables::paths_differ(vaddr, vaddr);
    crate::tables::index_bound(vaddr, 0);
    let t = crate::tables::table_at(m, root, p)->Some_0;
    let j0 = crate::tables::spec_index(vaddr, 0) as int;
    let at = crate::tables::slot(t, j0);
    assert(crate::tables::is_table(m, root, p));
    assert forall|q: Seq<int>, j: int|
        #![trigger crate::tables::is_table(m, root, q), crate::tables::slot(crate::tables::table_at(m, root, q)->Some_0, j)]
        crate::tables::is_table(m, root, q) && 0 <= j < 512 && !(q == p && j
            == j0) implies crate::mem::word(
        n,
        crate::tables::slot(crate::tables::table_at(m, root, q)->Some_0, j),
    ) == crate::mem::word(
        m,
        crate::tables::slot(crate::tables::table_at(m, root, q)->Some_0, j),
    ) by {
        let u = crate::tables::table_at(m, root, q)->Some_0;
        if u == t {
            assert(q == p);
        }
        crate::mem::word_written(m, at, v, crate::tables::slot(u, j));
    }
    crate::mem::word_written(m, at, v, at);
    assert forall|q: Seq<int>| crate::tables::path_ok(q) implies #[trigger] crate::tables::table_at(
        n,
        root,
        q,
    ) == crate::tables::table_at(m, root, q) by {
        crate::tables::tables_kept(m, n, root, q);
    }
    assert forall|a: int|
        0 <= a < m.len() && !touched(m, root, way, a / 4096 * 4096) implies #[trigger] n[a] == m[a] by {
        if at <= a < at + 8 {
            assert(a / 4096 * 4096 == t);
            assert(touched(m, root, way, t));
        }
    }
    assert forall|w: u64| #[trigger]
        crate::tables::lookup(n, root, w) == if crate::tables::page_number(w)
        == crate::tables::page_number(vaddr) {
        if crate::tables::present(v) {
            Some(v)
        } else {
            None
        }
    } else {
        crate::tables::lookup(m, root, w)
    } by {
        let q = crate::tables::path_of(w);
        crate::tables::paths_differ(w, vaddr);
        crate::tables::index_bound(w, 0);
        let j = crate::tables::spec_index(w, 0) as int;
        assert(crate::tables::table_at(n, root, q) == crate::tables::table_at(m, root, q));
        if crate::tables::table_at(m, root, q) is Some {
            assert(crate::tables::is_table(m, root, q));
            let s = crate::tables::slot(crate::tables::table_at(m, root, q)->Some_0, j);
            if q == p && j == j0 {
            } else {
                assert(crate::mem::word(n, s) == crate::mem::word(m, s));
            }
        }
    }
}

/// How many pages above `v` the page of `w` is, going round the 48-bit space.
pub open spec fn page_offset(w: u64, v: u64) -> int {
    (crate::tables::page_number(w) - crate::tables::page_number(v)) % 0x10_0000_0000
}

/// The address of the `i`-th page from `v` on.
pub open spec fn page_at(v: u64, i: int) -> u64 {
    (v + i * 4096) as u64
}

/// `n` pages from `v` on end inside the 64-bit space.
pub open spec fn run_fits(v: u64, n: int) -> bool {
    n <= 0x1_0000_0000 && (n > 0 ==> v + (n - 1) * 4096 <= u64::MAX)
}

pub proof fn pages_count_up(v: u64, i: int, w: u64)
    requires
        0 <= i < 0x10_0000_0000,
        v + i * 4096 <= u64::MAX,
    ensures
        page_offset(page_at(v, i), v) == i,
        crate::tables::page_number(w) == crate::tables::page_number(page_at(v, i)) <==> page_offset(
            w,
            v,
        ) == i,
        0 <= page_offset(w, v),
{
    let a = v as int / 4096;
    let x = page_at(v, i);
    assert(x as int / 4096 == a + i);
}

/// The first `n` pages from `vaddr` map, in order, the frames from `paddr` on;
/// every other address translates as it did.
pub open spec fn mapped_run(
    m0: Seq<u8>,
    m1: Seq<u8>,
    root: int,
    vaddr: u64,
    paddr: u64,
    n: int,
    prot: Prot,
) -> bool {
    forall|w: u64| #[trigger]
        crate::tables::lookup(m1, root, w) == if page_offset(w, vaddr) < n {
            Some(page_at(paddr, page_offset(w, vaddr)) | flags_of(prot))
        } else {
            crate::tables::lookup(m0, root, w)
        }
}

/// The first `n` pages from `vaddr` map nothing.
pub open spec fn vacant(m: Seq<u8>, root: int, vaddr: u64, n: int) -> bool {
    forall|i: int|
        0 <= i < n ==> crate::tables::lookup(m, root, #[trigger] page_at(vaddr, i)) is None
}

/// Mapping stopped at page `k`, for the reason given.
pub open spec fn map_stopped(
    m0: Seq<u8>,
    m1: Seq<u8>,
    f1: FrameAllocator<'_>,
    root: int,
    vaddr: u64,
    paddr: u64,
    prot: Prot,
    k: int,
    e: MapError,
) -> bool {
    &&& mapped_run(m0, m1, root, vaddr, paddr, k, prot)
    &&& vacant(m0, root, vaddr, k)
    &&& match e {
        MapError::AlreadyMapped(va) => va == page_at(vaddr, k) && crate::tables::lookup(
            m0,
            root,
            va,
        ) is Some,
        MapError::OutOfFrames => crate::tables::lookup(m0, root, page_at(vaddr, k)) is None && (
        crate::tables::blocked(m0, root, page_at(vaddr, k)) || f1.no_fit(1, 1)),
    }
}

/// The tables on the way to any of `n` pages from `vaddr` on.
pub open spec fn toward_run(vaddr: u64, n: int) -> spec_fn(Seq<int>) -> bool {
    |q: Seq<int>|
        exists|i: int|
            0 <= i < n && along(q, crate::tables::path_of(#[trigger] page_at(vaddr, i)))
}

/// The leaf table of a page is on the way to it.
proof fn on_the_way(vaddr: u64, n: int, i: int)
    requires
        0 <= i < n,
    ensures
        toward_run(vaddr, n)(crate::tables::path_of(page_at(vaddr, i))),
{
    let p = crate::tables::path_of(page_at(vaddr, i));
    assert(p.take(3) =~= p);
    assert(along(p, crate::tables::path_of(page_at(vaddr, i))));
}

/// Map `pages` small pages of `paddr` at `vaddr`.
///
/// This is called only where the `Maps` edge is created in the same operation.
/// Keeping the two together is how the tables stay a cache of the edges. A
/// failure leaves the pages before it mapped; the caller takes them out again.
pub fn map_pages(
    mem: &mut [u8],
    pml4: u64,
    vaddr: u64,
    paddr: u64,
    pages: u32,
    prot: Prot,
    fa: &mut FrameAllocator<'_>,
) -> (r: Result<(), MapError>)
    requires
        ready(*old(fa), old(mem)@, root_of(pml4)),
        run_fits(vaddr, pages as int),
        run_fits(paddr, pages as int),
    ensures
        grown(
            old(mem)@,
            *old(fa),
            final(mem)@,
            *final(fa),
            root_of(pml4),
            toward_run(vaddr, pages as int),
        ),
        r is Ok ==> mapped_run(
            old(mem)@,
            final(mem)@,
            root_of(pml4),
            vaddr,
            paddr,
            pages as int,
            prot,
        ) && vacant(old(mem)@, root_of(pml4), vaddr, pages as int),
        r matches Err(e) ==> exists|k: int|
            0 <= k < pages && #[trigger] map_stopped(
                old(mem)@,
                final(mem)@,
                *final(fa),
                root_of(pml4),
                vaddr,
                paddr,
                prot,
                k,
                e,
            ),
{
    let ghost root = root_of(pml4);
    let ghost m0 = mem@;
    let ghost f0 = *fa;
    let ghost way = toward_run(vaddr, pages as int);
    let flags: u64 = prot_to_flags(prot);
    proof {
        grown_none(m0, f0, root, way);
        assert forall|w: u64| 0 <= #[trigger] page_offset(w, vaddr) by {}
        assert forall|w: u64| #[trigger] crate::tables::lookup(m0, root, w) == if page_offset(w, vaddr)
            < 0 {
            Some(page_at(paddr, page_offset(w, vaddr)) | flags_of(prot))
        } else {
            crate::tables::lookup(m0, root, w)
        } by {}
    }
    let mut i: u32 = 0;
    while i < pages
        invariant
            i <= pages,
            root == root_of(pml4),
            way == toward_run(vaddr, pages as int),
            flags == flags_of(prot),
            run_fits(vaddr, pages as int),
            run_fits(paddr, pages as int),
            m0 == old(mem)@,
            f0 == *old(fa),
            grown(m0, f0, mem@, *fa, root, way),
            mapped_run(m0, mem@, root, vaddr, paddr, i as int, prot),
            vacant(m0, root, vaddr, i as int),
        decreases pages - i,
    {
        let va: u64 = vaddr + (i as u64) * 4096;
        let ghost m1 = mem@;
        let ghost f1 = *fa;
        proof {
            assert(va == page_at(vaddr, i as int));
            grown_ready(m0, f0, m1, f1, root, way);
            pages_count_up(vaddr, i as int, va);
            assert(crate::tables::lookup(m1, root, va) == crate::tables::lookup(m0, root, va));
            assert forall|q: Seq<int>| along(
                q,
                crate::tables::path_of(va),
            ) implies #[trigger] way(q) by {
                assert(along(q, crate::tables::path_of(page_at(vaddr, i as int))));
            }
        }
        let found = make_leaf_entry(mem, pml4, va, fa, Ghost(way));
        let ghost m2 = mem@;
        let ghost f2 = *fa;
        proof {
            grown_twice(m0, f0, m1, f1, m2, f2, root, way);
            grown_ready(m0, f0, m2, f2, root, way);
            assert forall|w: u64| #[trigger]
                crate::tables::lookup(m2, root, w) == if page_offset(w, vaddr) < i {
                Some(page_at(paddr, page_offset(w, vaddr)) | flags_of(prot))
            } else {
                crate::tables::lookup(m0, root, w)
            } by {
                assert(crate::tables::lookup(m2, root, w) == crate::tables::lookup(m1, root, w));
            }
            assert(crate::tables::lookup(m2, root, va) == crate::tables::lookup(m0, root, va));
        }
        let at: usize = match found {
            Some(s) => s,
            None => {
                proof {
                    if crate::tables::blocked(m1, root, va) {
                        let k = choose|k: int| #[trigger]
                            crate::tables::blocked_at(m1, root, crate::tables::path_of(va), k);
                        crate::tables::paths_differ(va, va);
                        blocked_before(m0, f0, m1, f1, root, way, crate::tables::path_of(va), k);
                        assert(crate::tables::blocked_at(m0, root, crate::tables::path_of(va), k));
                    }
                    assert(map_stopped(
                        m0,
                        m2,
                        f2,
                        root,
                        vaddr,
                        paddr,
                        prot,
                        i as int,
                        MapError::OutOfFrames,
                    ));
                }
                return Err(MapError::OutOfFrames);
            },
        };
        let existing: u64 = read_u64(mem, at);
        proof {
            reveal(crate::mem::word);
        }
        if existing & PTE_PRESENT != 0 {
            proof {
                assert(map_stopped(
                    m0,
                    m2,
                    f2,
                    root,
                    vaddr,
                    paddr,
                    prot,
                    i as int,
                    MapError::AlreadyMapped(va),
                ));
            }
            return Err(MapError::AlreadyMapped(va));
        }
        let v: u64 = (paddr + (i as u64) * 4096) | flags;
        write_u64(mem, at, v);
        proof {
            on_the_way(vaddr, pages as int, i as int);
            leaf_written(m2, mem@, root, va, v, way);
            leaves_grow(m2, f2, mem@, root, way);
            grown_twice(m0, f0, m2, f2, mem@, f2, root, way);
            entry_present((paddr + (i as u64) * 4096) as u64, prot);
            assert forall|w: u64| #[trigger]
                crate::tables::lookup(mem@, root, w) == if page_offset(w, vaddr) < i + 1 {
                Some(page_at(paddr, page_offset(w, vaddr)) | flags_of(prot))
            } else {
                crate::tables::lookup(m0, root, w)
            } by {
                pages_count_up(vaddr, i as int, w);
                assert(crate::tables::lookup(m2, root, w) == if page_offset(w, vaddr) < i {
                    Some(page_at(paddr, page_offset(w, vaddr)) | flags_of(prot))
                } else {
                    crate::tables::lookup(m0, root, w)
                });
            }
            assert forall|j: int| 0 <= j < i + 1 implies crate::tables::lookup(
                m0,
                root,
                #[trigger] page_at(vaddr, j),
            ) is None by {
                if j == i {
                    assert(page_at(vaddr, j) == va);
                }
            }
        }
        i = i + 1;
    }
    Ok(())
}

/// Every entry written for a protection maps something.
proof fn entry_present(x: u64, prot: Prot)
    ensures
        crate::tables::present(x | flags_of(prot)),
{
    let f = flags_of(prot);
    let w = if prot.contains(Prot(2)) {
        2u64
    } else {
        0u64
    };
    let u = if prot.contains(Prot(8)) {
        4u64
    } else {
        0u64
    };
    let n = if prot.contains(Prot(4)) {
        0u64
    } else {
        0x8000_0000_0000_0000u64
    };
    assert(f == 1u64 | w | u | n);
    assert((x | (1u64 | w | u | n)) & 1 != 0) by (bit_vector);
}

/// The first `n` pages from `vaddr` map nothing, and every other address
/// translates as it did.
pub open spec fn unmapped_run(m0: Seq<u8>, m1: Seq<u8>, root: int, vaddr: u64, n: int) -> bool {
    forall|w: u64| #[trigger]
        crate::tables::lookup(m1, root, w) == if page_offset(w, vaddr) < n {
            None
        } else {
            crate::tables::lookup(m0, root, w)
        }
}

/// Remove `pages` pages starting at `vaddr`. The caller flushes them.
///
/// The flush is not optional and not deferred: a stale entry in the processor
/// is a mapping the graph says does not exist.
pub fn unmap_pages(mem: &mut [u8], pml4: u64, vaddr: u64, pages: u32)
    requires
        crate::tables::tree(old(mem)@, root_of(pml4)),
        run_fits(vaddr, pages as int),
    ensures
        leaves_changed(
            old(mem)@,
            final(mem)@,
            root_of(pml4),
            toward_run(vaddr, pages as int),
        ),
        crate::tables::tree(final(mem)@, root_of(pml4)),
        unmapped_run(old(mem)@, final(mem)@, root_of(pml4), vaddr, pages as int),
{
    let ghost root = root_of(pml4);
    let ghost m0 = mem@;
    let ghost way = toward_run(vaddr, pages as int);
    proof {
        assert forall|w: u64| #[trigger] crate::tables::lookup(m0, root, w) == if page_offset(w, vaddr)
            < 0 {
            None
        } else {
            crate::tables::lookup(m0, root, w)
        } by {}
    }
    let mut i: u32 = 0;
    while i < pages
        invariant
            i <= pages,
            root == root_of(pml4),
            run_fits(vaddr, pages as int),
            m0 == old(mem)@,
            crate::tables::tree(mem@, root),
            way == toward_run(vaddr, pages as int),
            leaves_changed(m0, mem@, root, way),
            unmapped_run(m0, mem@, root, vaddr, i as int),
        decreases pages - i,
    {
        let va: u64 = vaddr + (i as u64) * 4096;
        let ghost m1 = mem@;
        proof {
            assert(va == page_at(vaddr, i as int));
            crate::tables::frame_bits(0);
        }
        if let Some(at) = leaf_entry(mem, pml4, va) {
            write_u64(mem, at, 0);
            proof {
                on_the_way(vaddr, pages as int, i as int);
                leaf_written(m1, mem@, root, va, 0, way);
                leaves_changed_twice(m0, m1, mem@, root, way);
                leaves_keep_tree(m1, mem@, root, way);
            }
        }
        proof {
            assert forall|w: u64| #[trigger]
                crate::tables::lookup(mem@, root, w) == if page_offset(w, vaddr) < i + 1 {
                None
            } else {
                crate::tables::lookup(m0, root, w)
            } by {
                pages_count_up(vaddr, i as int, w);
                crate::tables::paths_differ(w, va);
                assert(crate::tables::lookup(m1, root, w) == if page_offset(w, vaddr) < i {
                    None
                } else {
                    crate::tables::lookup(m0, root, w)
                });
            }
        }
        i = i + 1;
    }
}

/// What the hardware actually says about `vaddr`: its frame and its entry bits.
pub fn translate(mem: &[u8], pml4: u64, vaddr: u64) -> (r: Option<(u64, u64)>)
    requires
        crate::tables::tree(mem@, root_of(pml4)),
    ensures
        r == match crate::tables::lookup(mem@, root_of(pml4), vaddr) {
            Some(e) => Some((crate::tables::frame_of(e), e)),
            None => None,
        },
{
    let at: usize = match leaf_entry(mem, pml4, vaddr) {
        Some(s) => s,
        None => return None,
    };
    let e: u64 = read_u64(mem, at);
    proof {
        reveal(crate::mem::word);
    }
    if e & PTE_PRESENT == 0 {
        return None;
    }
    Some((e & PTE_ADDR_MASK, e))
}

/// Overwrite a leaf entry directly, and say what it held. Its only use is to
/// corrupt a mapping on purpose, to prove that the checker notices.
pub fn poke_entry(mem: &mut [u8], pml4: u64, vaddr: u64, value: u64) -> (r: Option<u64>)
    requires
        crate::tables::tree(old(mem)@, root_of(pml4)),
    ensures
        leaves_changed(old(mem)@, final(mem)@, root_of(pml4), toward_run(vaddr, 1)),
        crate::tables::tree(final(mem)@, root_of(pml4)),
        r is None <==> crate::tables::leaf_slot(old(mem)@, root_of(pml4), vaddr) is None,
        r is None ==> final(mem)@ == old(mem)@,
        r matches Some(e) ==> e == crate::mem::word(
            old(mem)@,
            crate::tables::leaf_slot(old(mem)@, root_of(pml4), vaddr)->Some_0,
        ) && forall|w: u64| #[trigger]
            crate::tables::lookup(final(mem)@, root_of(pml4), w) == if crate::tables::page_number(w)
                == crate::tables::page_number(vaddr) {
                if crate::tables::present(value) {
                    Some(value)
                } else {
                    None
                }
            } else {
                crate::tables::lookup(old(mem)@, root_of(pml4), w)
            },
{
    let at: usize = match leaf_entry(mem, pml4, vaddr) {
        Some(s) => s,
        None => return None,
    };
    let e: u64 = read_u64(mem, at);
    proof {
        reveal(crate::mem::word);
    }
    write_u64(mem, at, value);
    proof {
        on_the_way(vaddr, 1, 0);
        assert(page_at(vaddr, 0) == vaddr);
        leaf_written(old(mem)@, mem@, root_of(pml4), vaddr, value, toward_run(vaddr, 1));
        leaves_keep_tree(old(mem)@, mem@, root_of(pml4), toward_run(vaddr, 1));
    }
    Some(e)
}

} // verus!
