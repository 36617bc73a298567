//! What mapping, unmapping and faulting keep: the page tables stay a cache of
//! the graph's `Maps` edges, in every address space at once.

use vstd::prelude::*;

use crate::body::AddressSpace;
use crate::edge::{Dir, EdgeAttr, MapFlags, MapsAttr};
use crate::frames::FrameAllocator;
use crate::graph::{Graph, Ref};
use crate::id::{EdgeId, EdgeKind, NodeId, NodeKind};
use crate::paging::MapError;
use crate::reap::Reclaim;
use crate::syscall::USER_END;
use crate::view::GraphView;
use crate::vm::VmError;

verus! {

/// The table at `p` is the root, or hangs below its user half.
pub open spec fn user_side(p: Seq<int>) -> bool {
    p.len() == 0 || p[0] < 256
}

/// No table of the user half of `a` is a table of `b`.
pub open spec fn private(mem: Seq<u8>, a: int, b: int) -> bool {
    forall|p: Seq<int>| #[trigger]
        crate::tables::is_table(mem, a, p) && user_side(p) ==> !crate::tables::has_table(
            mem,
            b,
            crate::tables::table_at(mem, a, p)->Some_0,
        )
}

/// What is held is no page tables, and a frame table fills no more than the
/// pages that are given for it.
pub open spec fn table_inside(rc: Reclaim) -> bool {
    &&& !(rc is PageTables)
    &&& rc matches Reclaim::PagedMemory { table_phys, table_pages, pages } ==> table_phys % 4096 == 0
        && 8 * pages <= 4096 * table_pages
}

/// The frame table of what is held, if it has one, reads as it did.
pub open spec fn table_kept(rc: Reclaim, m0: Seq<u8>, m1: Seq<u8>) -> bool {
    rc matches Reclaim::PagedMemory { table_phys, table_pages, .. } ==> forall|a: int|
        table_phys <= a < table_phys + 4096 * table_pages && a < m0.len() ==> #[trigger] m1[a]
            == m0[a]
}

impl GraphView {
    pub open spec fn is_space(self, s: NodeId) -> bool {
        self.live(s) && s.kind() == Some(NodeKind::AddressSpace)
    }

    /// The frames behind a memory object are frames.
    pub open spec fn object_sound(self, m: NodeId) -> bool {
        self.memobj(m).phys_base % 4096 == 0 && self.memobj(m).phys_base + self.memobj(m).pages
            * 4096 <= 0x10_0000_0000_0000
    }

    /// Edge `e` maps whole pages of the user half, out of memory that is there.
    pub open spec fn range_sound(self, e: u32) -> bool {
        let a = self.maps(e);
        let m = self.edges[e].dst;
        &&& crate::vm::user_range(a)
        &&& self.object_sound(m)
        &&& a.off_pages + a.len_pages <= self.memobj(m).pages
    }

    /// What a space maps, it maps page by page into its user half, and no page
    /// twice.
    pub open spec fn ranges_sound(self, s: NodeId) -> bool {
        let out = self.list(s, Dir::Out, EdgeKind::Maps);
        &&& forall|k: int| 0 <= k < out.len() ==> self.range_sound(#[trigger] out[k])
        &&& forall|j: int, k: int|
            0 <= j < out.len() && 0 <= k < out.len() && j != k ==> !self.maps(
                #[trigger] out[j],
            ).spec_overlaps(self.maps(#[trigger] out[k]))
    }

    pub open spec fn is_object(self, m: NodeId) -> bool {
        self.live(m) && m.kind() == Some(NodeKind::MemoryObject)
    }

    /// What a node gives back when it goes.
    pub open spec fn holding(self, id: NodeId) -> Reclaim {
        crate::reap::reclaim_of(self.nodes[id].body)
    }

    /// Frame `f` goes back to the pool with `m`.
    pub open spec fn holds_frame(self, mem: Seq<u8>, m: NodeId, f: int) -> bool {
        crate::reaper::gives_back(self.holding(m), mem, f)
    }

    /// No two memory objects hold the same frame, and none holds a page table.
    pub open spec fn objects_apart(self, mem: Seq<u8>) -> bool {
        &&& forall|m: NodeId| #[trigger]
            self.is_object(m) ==> crate::reaper::reclaimable(self.holding(m), mem) && table_inside(
                self.holding(m),
            )
        &&& forall|m: NodeId, f: int, s: NodeId|
            self.is_object(m) && #[trigger] self.holds_frame(mem, m, f) && #[trigger] self.is_space(
                s,
            ) ==> !crate::tables::has_table(mem, crate::vm::root_in(self, s), 4096 * f)
        &&& forall|m: NodeId, n: NodeId, f: int|
            self.is_object(m) && self.is_object(n) && m != n && #[trigger] self.holds_frame(
                mem,
                m,
                f,
            ) ==> !#[trigger] self.holds_frame(mem, n, f)
    }

    /// Moreover the allocator hands none of those frames out.
    pub open spec fn objects_sound(self, mem: Seq<u8>, fa: FrameAllocator<'_>) -> bool {
        &&& self.objects_apart(mem)
        &&& forall|m: NodeId, f: int|
            self.is_object(m) && #[trigger] self.holds_frame(mem, m, f) ==> !fa.free(f)
    }

    /// Every space has page tables, none that another can reach into, and the
    /// memory objects are apart from them all.
    pub open spec fn memory_sound(self, mem: Seq<u8>) -> bool {
        &&& forall|s: NodeId| #[trigger]
            self.is_space(s) ==> crate::tables::tree(mem, crate::vm::root_in(self, s))
                && (self.user_space(s) ==> self.ranges_sound(s))
        &&& forall|s: NodeId, t: NodeId| #[trigger]
            self.is_space(s) && #[trigger] self.is_space(t) && s != t ==> private(
                mem,
                crate::vm::root_in(self, s),
                crate::vm::root_in(self, t),
            )
        &&& self.objects_apart(mem)
    }

    /// Every space has page tables of its own, and the allocator hands none of
    /// them out.
    pub open spec fn spaces_sound(self, mem: Seq<u8>, fa: FrameAllocator<'_>) -> bool {
        &&& forall|s: NodeId| #[trigger]
            self.is_space(s) ==> crate::paging::ready(fa, mem, crate::vm::root_in(self, s)) && (
            self.user_space(s) ==> self.ranges_sound(s))
        &&& forall|s: NodeId, t: NodeId| #[trigger]
            self.is_space(s) && #[trigger] self.is_space(t) && s != t ==> private(
                mem,
                crate::vm::root_in(self, s),
                crate::vm::root_in(self, t),
            )
    }

    /// The page tables are a cache of the edges, no two spaces can reach into
    /// each other's, and no frame that a live object will give back is free
    /// or a page table.
    pub open spec fn paging_ok(self, mem: Seq<u8>, fa: FrameAllocator<'_>) -> bool {
        self.spaces_sound(mem, fa) && self.objects_sound(mem, fa) && self.tables_match(mem)
    }

    /// As `paging_ok`, where there is an allocator.
    pub open spec fn tables_kept(self, mem: Seq<u8>, frames: Option<FrameAllocator<'_>>) -> bool {
        frames matches Some(fa) ==> self.paging_ok(mem, fa)
    }

    /// The page tables in use are those of some space.
    pub open spec fn runs_in(self, active: u64) -> bool {
        exists|k: NodeId| #[trigger]
            self.is_space(k) && crate::vm::root_in(self, k) == crate::paging::root_of(active)
    }

    /// Every object of `w` is one here, and holds what it holds here.
    pub open spec fn same_objects(self, w: GraphView) -> bool {
        forall|m: NodeId| #[trigger]
            w.is_object(m) ==> self.is_object(m) && w.holding(m) == self.holding(m)
    }

    /// Space `t` maps in `w` exactly what it maps here.
    pub open spec fn same_mappings(self, w: GraphView, t: NodeId) -> bool {
        let out = self.list(t, Dir::Out, EdgeKind::Maps);
        &&& w.list(t, Dir::Out, EdgeKind::Maps) == out
        &&& w.space(t).pml4_phys == self.space(t).pml4_phys
        &&& w.space(t).is_kernel == self.space(t).is_kernel
        &&& forall|k: int| 0 <= k < out.len() ==> self.same_mapping(w, #[trigger] out[k])
    }

    /// Edge `e` maps in `w` what it maps here.
    pub open spec fn same_mapping(self, w: GraphView, e: u32) -> bool {
        &&& w.edges[e] == self.edges[e]
        &&& w.memobj(self.edges[e].dst).phys_base == self.memobj(self.edges[e].dst).phys_base
        &&& w.memobj(self.edges[e].dst).pages == self.memobj(self.edges[e].dst).pages
    }
}

// ----------------------------------------------------------------- addresses ---

/// In the user half, a page is in a range exactly when it is one of its pages.
proof fn offsets_in_range(w: u64, v: u64, n: int)
    requires
        w < USER_END,
        w % 4096 == 0,
        v % 4096 == 0,
        0 <= n,
        v + n * 4096 <= USER_END,
    ensures
        crate::paging::page_offset(w, v) < n <==> v <= w < v + n * 4096,
        v <= w < v + n * 4096 ==> crate::paging::page_offset(w, v) == (w - v) / 4096,
        0 <= crate::paging::page_offset(w, v),
{
    let a = w as int / 4096;
    let b = v as int / 4096;
    assert(crate::tables::page_number(w) == a);
    assert(crate::tables::page_number(v) == b) by {
        assert(v <= USER_END);
    }
    if a >= b {
        assert((a - b) % 0x10_0000_0000 == a - b);
    } else {
        assert((a - b) % 0x10_0000_0000 == a - b + 0x10_0000_0000);
    }
}

/// Page `i` of a user range.
proof fn range_page(a: MapsAttr, i: int)
    requires
        crate::vm::user_range(a),
        0 <= i < a.len_pages,
    ensures
        ({
            let x = crate::paging::page_at(a.vaddr, i);
            &&& x == a.vaddr + i * 4096
            &&& x < USER_END
            &&& x % 4096 == 0
            &&& a.spec_covers(x)
            &&& (x - a.vaddr) / 4096 == i
        }),
{
}

/// A page in a user range is one of its pages.
proof fn page_of_range(a: MapsAttr, page: u64)
    requires
        crate::vm::user_range(a),
        a.spec_covers(page),
        page % 4096 == 0,
    ensures
        ({
            let i = (page - a.vaddr) / 4096;
            0 <= i < a.len_pages && page == a.vaddr + i * 4096
        }),
        page + 4096 <= USER_END,
{
}

/// Frame `i` of a run of frames.
proof fn run_frame(base: u64, n: int, i: int)
    requires
        base % 4096 == 0,
        base + n * 4096 <= 0x10_0000_0000_0000,
        0 <= i < n,
    ensures
        ({
            let f = crate::paging::page_at(base, i);
            f == base + i * 4096 && f % 4096 == 0 && f < 0x10_0000_0000_0000
        }),
{
}

/// Part of a run of frames is one too.
proof fn run_start(base: u64, pages: int, off: int, len: int)
    requires
        base % 4096 == 0,
        base + pages * 4096 <= 0x10_0000_0000_0000,
        0 <= off,
        0 <= len,
        off + len <= pages,
    ensures
        ({
            let p = (base + off * 4096) as u64;
            p == base + off * 4096 && p % 4096 == 0 && p + len * 4096 <= 0x10_0000_0000_0000
        }),
{
}

/// The tables on the way to user pages hang below the user half.
pub proof fn user_ways(v: u64, n: int)
    requires
        v + n * 4096 <= USER_END,
    ensures
        forall|q: Seq<int>| #[trigger]
            crate::paging::toward_run(v, n)(q) ==> q.len() > 0 && user_side(q),
{
    assert forall|q: Seq<int>| #[trigger] crate::paging::toward_run(v, n)(q) implies q.len() > 0
        && user_side(q) by {
        let i = choose|i: int|
            0 <= i < n && crate::paging::along(
                q,
                crate::tables::path_of(#[trigger] crate::paging::page_at(v, i)),
            );
        let w = crate::paging::page_at(v, i);
        let p = crate::tables::path_of(w);
        assert(w < USER_END);
        assert(w < 0x8000_0000_0000 ==> (w >> 39) & 0x1FF < 256) by (bit_vector);
        assert(q[0] == p.take(q.len() as int)[0]);
        assert(p.take(q.len() as int)[0] == p[0]);
    }
}

// ------------------------------------------------------------------- objects ---

/// Where the frame table reads as it did, the same frames are held.
pub proof fn holding_kept(rc: Reclaim, m0: Seq<u8>, m1: Seq<u8>)
    requires
        crate::reaper::reclaimable(rc, m0),
        table_inside(rc),
        table_kept(rc, m0, m1),
        m1.len() == m0.len(),
    ensures
        crate::reaper::reclaimable(rc, m1),
        forall|f: int| #[trigger]
            crate::reaper::gives_back(rc, m1, f) == crate::reaper::gives_back(rc, m0, f),
        forall|f: int| #[trigger]
            crate::reaper::run_back(rc, m1, f) == crate::reaper::run_back(rc, m0, f),
        crate::reaper::frames_back(rc, m1) == crate::reaper::frames_back(rc, m0),
{
    if let Reclaim::PagedMemory { table_phys, table_pages, pages } = rc {
        assert forall|i: int| 0 <= i < pages implies #[trigger] crate::reaper::spec_frame_entry(
            m1,
            table_phys,
            i,
        ) == crate::reaper::spec_frame_entry(m0, table_phys, i) by {
            let a = table_phys + 8 * i;
            assert(8 * i + 8 <= 8 * pages);
            crate::mem::same_bytes_same_word(m0, m1, a);
        }
        assert forall|f: int| #[trigger]
            crate::reaper::page_frame(m1, table_phys, pages as int, f)
                == crate::reaper::page_frame(m0, table_phys, pages as int, f) by {
            if crate::reaper::page_frame(m1, table_phys, pages as int, f) {
                let i = choose|i: int|
                    0 <= i < pages && #[trigger] crate::reaper::spec_frame_entry(m1, table_phys, i)
                        != 0 && crate::reaper::spec_frame_entry(m1, table_phys, i) as int / 4096
                        == f;
                assert(crate::reaper::spec_frame_entry(m0, table_phys, i) != 0);
            }
            if crate::reaper::page_frame(m0, table_phys, pages as int, f) {
                let i = choose|i: int|
                    0 <= i < pages && #[trigger] crate::reaper::spec_frame_entry(m0, table_phys, i)
                        != 0 && crate::reaper::spec_frame_entry(m0, table_phys, i) as int / 4096
                        == f;
                assert(crate::reaper::spec_frame_entry(m1, table_phys, i) != 0);
            }
        }
        pages_real_kept(m0, m1, table_phys, pages as int);
    }
}

proof fn pages_real_kept(m0: Seq<u8>, m1: Seq<u8>, table: u64, n: int)
    requires
        forall|i: int|
            0 <= i < n ==> #[trigger] crate::reaper::spec_frame_entry(m1, table, i)
                == crate::reaper::spec_frame_entry(m0, table, i),
    ensures
        crate::reaper::pages_real(m1, table, n) == crate::reaper::pages_real(m0, table, n),
    decreases n,
{
    if n > 0 {
        pages_real_kept(m0, m1, table, n - 1);
        assert(crate::reaper::spec_frame_entry(m1, table, n - 1)
            == crate::reaper::spec_frame_entry(m0, table, n - 1));
    }
}

/// What is written outside the frame tables, and where no space gets at a held
/// frame, leaves the objects apart.
pub proof fn objects_stay_apart(v: GraphView, w: GraphView, m0: Seq<u8>, m1: Seq<u8>)
    requires
        v.objects_apart(m0),
        m1.len() == m0.len(),
        v.same_objects(w),
        forall|m: NodeId| #[trigger] w.is_object(m) ==> table_kept(v.holding(m), m0, m1),
        forall|m: NodeId, f: int, s: NodeId|
            w.is_object(m) && #[trigger] v.holds_frame(m0, m, f) && #[trigger] w.is_space(s)
                ==> !crate::tables::has_table(m1, crate::vm::root_in(w, s), 4096 * f),
    ensures
        w.objects_apart(m1),
        forall|m: NodeId, f: int|
            w.is_object(m) ==> #[trigger] w.holds_frame(m1, m, f) == v.holds_frame(m0, m, f),
{
    assert forall|m: NodeId| #[trigger] w.is_object(m) implies crate::reaper::reclaimable(
        w.holding(m),
        m1,
    ) && table_inside(w.holding(m)) by {
        assert(v.is_object(m));
        holding_kept(v.holding(m), m0, m1);
    }
    assert forall|m: NodeId, f: int| w.is_object(m) implies #[trigger] w.holds_frame(m1, m, f)
        == v.holds_frame(m0, m, f) by {
        assert(v.is_object(m));
        holding_kept(v.holding(m), m0, m1);
    }
    assert forall|m: NodeId, f: int, s: NodeId|
        w.is_object(m) && #[trigger] w.holds_frame(m1, m, f) && #[trigger] w.is_space(
            s,
        ) implies !crate::tables::has_table(m1, crate::vm::root_in(w, s), 4096 * f) by {
        assert(v.holds_frame(m0, m, f));
    }
    assert forall|m: NodeId, n: NodeId, f: int|
        w.is_object(m) && w.is_object(n) && m != n && #[trigger] w.holds_frame(m1, m, f) implies !(
    #[trigger] w.holds_frame(m1, n, f)) by {
        assert(v.holds_frame(m0, m, f));
        assert(v.is_object(m) && v.is_object(n));
        assert(!v.holds_frame(m0, n, f));
    }
}

/// If moreover the pool does not get at a held frame, the objects are sound.
pub proof fn objects_kept(
    v: GraphView,
    w: GraphView,
    m0: Seq<u8>,
    f0: FrameAllocator<'_>,
    m1: Seq<u8>,
    f1: FrameAllocator<'_>,
)
    requires
        v.objects_sound(m0, f0),
        m1.len() == m0.len(),
        v.same_objects(w),
        forall|m: NodeId| #[trigger] w.is_object(m) ==> table_kept(v.holding(m), m0, m1),
        forall|m: NodeId, f: int|
            w.is_object(m) && #[trigger] v.holds_frame(m0, m, f) ==> !f1.free(f),
        forall|m: NodeId, f: int, s: NodeId|
            w.is_object(m) && #[trigger] v.holds_frame(m0, m, f) && #[trigger] w.is_space(s)
                ==> !crate::tables::has_table(m1, crate::vm::root_in(w, s), 4096 * f),
    ensures
        w.objects_sound(m1, f1),
        forall|m: NodeId, f: int|
            w.is_object(m) ==> #[trigger] w.holds_frame(m1, m, f) == v.holds_frame(m0, m, f),
{
    objects_stay_apart(v, w, m0, m1);
    assert forall|m: NodeId, f: int|
        w.is_object(m) && #[trigger] w.holds_frame(m1, m, f) implies !f1.free(f) by {
        assert(v.holds_frame(m0, m, f));
    }
}

// ---------------------------------------------------------------- neighbours ---

/// What one space does with its own tables, no other space can tell.
#[verifier::rlimit(40)]
pub proof fn neighbour_kept(
    m0: Seq<u8>,
    f0: FrameAllocator<'_>,
    m1: Seq<u8>,
    f1: FrameAllocator<'_>,
    a: int,
    b: int,
    way: spec_fn(Seq<int>) -> bool,
)
    requires
        crate::paging::grown(m0, f0, m1, f1, a, way),
        forall|q: Seq<int>| #[trigger] way(q) ==> user_side(q),
        crate::paging::ready(f0, m0, a),
        crate::paging::ready(f0, m0, b),
        private(m0, a, b),
        private(m0, b, a),
    ensures
        crate::paging::same_lookups(m0, m1, b),
        crate::paging::ready(f1, m1, b),
        private(m1, a, b),
        private(m1, b, a),
        forall|p: Seq<int>|
            crate::tables::path_ok(p) ==> #[trigger] crate::tables::table_at(m1, b, p)
                == crate::tables::table_at(m0, b, p),
{
    reveal(crate::paging::grown);
    assert forall|p: Seq<int>, x: int|
        #![trigger crate::tables::is_table(m0, b, p), m1[x]]
        crate::tables::is_table(m0, b, p) && crate::tables::table_at(m0, b, p)->Some_0 <= x
            < crate::tables::table_at(m0, b, p)->Some_0 + 4096 implies m1[x] == m0[x] by {
        let t = crate::tables::table_at(m0, b, p)->Some_0;
        assert(t % 4096 == 0);
        assert(x / 4096 == t / 4096);
        assert(x / 4096 * 4096 == t);
        assert(!f0.free(t / 4096));
        if crate::paging::touched(m0, a, way, t) {
            let q = choose|q: Seq<int>| #[trigger]
                crate::tables::is_table(m0, a, q) && (q.len() == 0 || way(q))
                    && crate::tables::table_at(m0, a, q) == Some(t);
            assert(user_side(q));
            assert(crate::tables::has_table(m0, b, t));
        }
    }
    crate::spaces::elsewhere_kept(m0, m1, b);
    assert forall|p: Seq<int>| #[trigger]
        crate::tables::is_table(m1, b, p) <==> crate::tables::is_table(m0, b, p) by {
        if crate::tables::path_ok(p) {
            assert(crate::tables::table_at(m1, b, p) == crate::tables::table_at(m0, b, p));
        }
    }
    assert(crate::paging::owned(f1, m1, b)) by {
        assert forall|p: Seq<int>| #[trigger] crate::tables::is_table(m1, b, p) implies !f1.free(
            crate::tables::table_at(m1, b, p)->Some_0 / 4096,
        ) by {
            assert(crate::tables::is_table(m0, b, p));
            assert(crate::tables::table_at(m1, b, p) == crate::tables::table_at(m0, b, p));
            assert(!f0.free(crate::tables::table_at(m0, b, p)->Some_0 / 4096));
        }
    }
    assert forall|p: Seq<int>| #[trigger]
        crate::tables::is_table(m1, a, p) && user_side(p) implies !crate::tables::has_table(
        m1,
        b,
        crate::tables::table_at(m1, a, p)->Some_0,
    ) by {
        let t = crate::tables::table_at(m1, a, p)->Some_0;
        if crate::tables::has_table(m1, b, t) {
            let q = choose|q: Seq<int>| #[trigger]
                crate::tables::is_table(m1, b, q) && crate::tables::table_at(m1, b, q) == Some(t);
            assert(crate::tables::is_table(m0, b, q));
            assert(crate::tables::table_at(m0, b, q) == Some(t));
            assert(!f0.free(t / 4096));
            if crate::tables::is_table(m0, a, p) {
                assert(crate::tables::has_table(m0, b, t));
            }
        }
    }
    assert forall|p: Seq<int>| #[trigger]
        crate::tables::is_table(m1, b, p) && user_side(p) implies !crate::tables::has_table(
        m1,
        a,
        crate::tables::table_at(m1, b, p)->Some_0,
    ) by {
        assert(crate::tables::is_table(m0, b, p));
        let t = crate::tables::table_at(m1, b, p)->Some_0;
        assert(crate::tables::table_at(m0, b, p) == Some(t));
        assert(!f0.free(t / 4096));
        if crate::tables::has_table(m1, a, t) {
            let q = choose|q: Seq<int>| #[trigger]
                crate::tables::is_table(m1, a, q) && crate::tables::table_at(m1, a, q) == Some(t);
            if crate::tables::is_table(m0, a, q) {
                assert(crate::tables::table_at(m0, a, q) == Some(t));
                assert(crate::tables::has_table(m0, a, t));
            }
        }
    }
}

/// Two spaces that nothing happened to stay out of each other's tables.
pub proof fn strangers_kept(m0: Seq<u8>, m1: Seq<u8>, a: int, b: int)
    requires
        private(m0, a, b),
        forall|p: Seq<int>|
            crate::tables::path_ok(p) ==> #[trigger] crate::tables::table_at(m1, a, p)
                == crate::tables::table_at(m0, a, p),
        forall|p: Seq<int>|
            crate::tables::path_ok(p) ==> #[trigger] crate::tables::table_at(m1, b, p)
                == crate::tables::table_at(m0, b, p),
    ensures
        private(m1, a, b),
{
    assert forall|p: Seq<int>| #[trigger]
        crate::tables::is_table(m1, a, p) && user_side(p) implies !crate::tables::has_table(
        m1,
        b,
        crate::tables::table_at(m1, a, p)->Some_0,
    ) by {
        let t = crate::tables::table_at(m1, a, p)->Some_0;
        assert(crate::tables::table_at(m0, a, p) == Some(t));
        assert(crate::tables::is_table(m0, a, p));
        if crate::tables::has_table(m1, b, t) {
            let q = choose|q: Seq<int>| #[trigger]
                crate::tables::is_table(m1, b, q) && crate::tables::table_at(m1, b, q) == Some(t);
            assert(crate::tables::table_at(m0, b, q) == Some(t));
            assert(crate::tables::is_table(m0, b, q));
            assert(crate::tables::has_table(m0, b, t));
        }
    }
}

/// A space that maps what it mapped, and translates as it did, still agrees
/// with its edges.
pub proof fn space_kept(v: GraphView, w: GraphView, m0: Seq<u8>, m1: Seq<u8>, t: NodeId)
    requires
        v.same_mappings(w, t),
        crate::paging::same_lookups(m0, m1, crate::vm::root_in(v, t)),
        v.backed(m0, t),
        v.accounted(m0, t),
    ensures
        w.backed(m1, t),
        w.accounted(m1, t),
{
    let out = v.list(t, Dir::Out, EdgeKind::Maps);
    let root = crate::vm::root_in(v, t);
    assert forall|k: int, i: int|
        0 <= k < out.len() && 0 <= i < w.maps(out[k]).len_pages implies #[trigger] w.page_backed(
        m1,
        t,
        out[k],
        i,
    ) by {
        assert(v.same_mapping(w, out[k]));
        assert(v.page_backed(m0, t, out[k], i));
        let a = v.maps(out[k]);
        let x = crate::paging::page_at(a.vaddr, i);
        assert(crate::tables::lookup(m1, root, x) == crate::tables::lookup(m0, root, x));
    }
    assert forall|x: u64|
        x < USER_END && x % 4096 == 0 && (#[trigger] crate::tables::lookup(
            m1,
            root,
            x,
        )) is Some implies w.covered(
        t,
        x,
        crate::tables::frame_of(crate::tables::lookup(m1, root, x)->Some_0),
    ) by {
        let f = crate::tables::frame_of(crate::tables::lookup(m1, root, x)->Some_0);
        assert(crate::tables::lookup(m1, root, x) == crate::tables::lookup(m0, root, x));
        assert(v.covered(t, x, f));
        let k = choose|k: int|
            0 <= k < out.len() && v.maps(#[trigger] out[k]).spec_covers(x) && v.behind(out[k], x)
                == f;
        assert(v.same_mapping(w, out[k]));
        assert(w.maps(out[k]).spec_covers(x) && w.behind(out[k], x) == f);
    }
}

/// Tables taken out of the pool are in no object's way.
#[verifier::rlimit(40)]
proof fn grown_objects_kept(
    v: GraphView,
    w: GraphView,
    m0: Seq<u8>,
    f0: FrameAllocator<'_>,
    m1: Seq<u8>,
    f1: FrameAllocator<'_>,
    s: NodeId,
    way: spec_fn(Seq<int>) -> bool,
)
    requires
        v.wf(),
        v.paging_ok(m0, f0),
        v.is_space(s),
        v.same_objects(w),
        forall|t: NodeId| #[trigger] w.is_space(t) ==> v.is_space(t),
        w.space(s).pml4_phys == v.space(s).pml4_phys,
        forall|t: NodeId| #[trigger] w.is_space(t) && t != s ==> v.same_mappings(w, t),
        crate::paging::grown(m0, f0, m1, f1, crate::vm::root_in(v, s), way),
        forall|q: Seq<int>| #[trigger] way(q) ==> user_side(q),
    ensures
        w.objects_sound(m1, f1),
{
    let rs = crate::vm::root_in(v, s);
    reveal(crate::paging::grown);
    assert forall|m: NodeId| #[trigger] w.is_object(m) implies table_kept(v.holding(m), m0, m1) by {
        if let Reclaim::PagedMemory { table_phys, table_pages, pages } = v.holding(m) {
            assert forall|a: int|
                table_phys <= a < table_phys + 4096 * table_pages && a
                    < m0.len() implies #[trigger] m1[a] == m0[a] by {
                let f = a / 4096;
                assert(v.is_object(m));
                assert(v.holds_frame(m0, m, f));
                assert(!f0.free(f));
                assert(!crate::tables::has_table(m0, rs, 4096 * f));
                assert(a / 4096 * 4096 == 4096 * f);
            }
        }
    }
    assert forall|m: NodeId, f: int, t: NodeId|
        w.is_object(m) && #[trigger] v.holds_frame(m0, m, f) && #[trigger] w.is_space(
            t,
        ) implies !crate::tables::has_table(m1, crate::vm::root_in(w, t), 4096 * f) by {
        let root = crate::vm::root_in(v, t);
        assert(v.is_object(m) && v.is_space(t));
        assert(!f0.free(f));
        assert(!crate::tables::has_table(m0, root, 4096 * f));
        if t != s {
            assert(v.same_mappings(w, t));
            neighbour_kept(m0, f0, m1, f1, rs, root, way);
        }
        if crate::tables::has_table(m1, root, 4096 * f) {
            let q = choose|q: Seq<int>| #[trigger]
                crate::tables::is_table(m1, root, q) && crate::tables::table_at(m1, root, q)
                    == Some(4096 * f);
            if t != s {
                assert(crate::tables::table_at(m0, root, q) == Some(4096 * f));
                assert(crate::tables::is_table(m0, root, q));
            } else if crate::tables::is_table(m0, root, q) {
                assert(crate::tables::table_at(m0, root, q) == Some(4096 * f));
            } else {
                assert(4096 * f / 4096 == f);
            }
        }
    }
    assert forall|m: NodeId, f: int|
        w.is_object(m) && #[trigger] v.holds_frame(m0, m, f) implies !f1.free(f) by {
        assert(v.is_object(m));
        assert(!f0.free(f));
    }
    objects_kept(v, w, m0, f0, m1, f1);
}

/// When one space's tables change and no mapping but its own does, every other
/// space is as it was, and all of them stay apart.
#[verifier::rlimit(40)]
proof fn others_kept(
    v: GraphView,
    w: GraphView,
    m0: Seq<u8>,
    f0: FrameAllocator<'_>,
    m1: Seq<u8>,
    f1: FrameAllocator<'_>,
    s: NodeId,
    way: spec_fn(Seq<int>) -> bool,
)
    requires
        v.wf(),
        v.paging_ok(m0, f0),
        v.is_space(s),
        v.same_objects(w),
        forall|t: NodeId| #[trigger] w.is_space(t) ==> v.is_space(t),
        w.space(s).pml4_phys == v.space(s).pml4_phys,
        forall|t: NodeId| #[trigger] w.is_space(t) && t != s ==> v.same_mappings(w, t),
        crate::paging::grown(m0, f0, m1, f1, crate::vm::root_in(v, s), way),
        forall|q: Seq<int>| #[trigger] way(q) ==> user_side(q),
        w.user_space(s) ==> w.ranges_sound(s) && w.backed(m1, s) && w.accounted(m1, s),
    ensures
        w.paging_ok(m1, f1),
{
    let rs = crate::vm::root_in(v, s);
    crate::paging::grown_ready(m0, f0, m1, f1, rs, way);
    grown_objects_kept(v, w, m0, f0, m1, f1, s, way);
    assert forall|t: NodeId| w.is_space(t) && t != s implies #[trigger] crate::paging::same_lookups(
        m0,
        m1,
        crate::vm::root_in(v, t),
    ) && crate::paging::ready(f1, m1, crate::vm::root_in(v, t)) && private(
        m1,
        rs,
        crate::vm::root_in(v, t),
    ) && private(m1, crate::vm::root_in(v, t), rs) && (forall|p: Seq<int>|
        crate::tables::path_ok(p) ==> #[trigger] crate::tables::table_at(
            m1,
            crate::vm::root_in(v, t),
            p,
        ) == crate::tables::table_at(m0, crate::vm::root_in(v, t), p)) by {
        assert(v.is_space(t));
        neighbour_kept(m0, f0, m1, f1, rs, crate::vm::root_in(v, t), way);
    }
    assert forall|t: NodeId| #[trigger] w.is_space(t) implies crate::paging::ready(
        f1,
        m1,
        crate::vm::root_in(w, t),
    ) && (w.user_space(t) ==> w.ranges_sound(t)) by {
        assert(v.is_space(t));
        if t != s {
            assert(crate::paging::same_lookups(m0, m1, crate::vm::root_in(v, t)));
            assert(v.same_mappings(w, t));
            if w.user_space(t) {
                same_ranges_sound(v, w, t);
            }
        }
    }
    assert forall|t: NodeId, u: NodeId| #[trigger]
        w.is_space(t) && #[trigger] w.is_space(u) && t != u implies private(
        m1,
        crate::vm::root_in(w, t),
        crate::vm::root_in(w, u),
    ) by {
        let rt = crate::vm::root_in(v, t);
        let ru = crate::vm::root_in(v, u);
        assert(v.is_space(t) && v.is_space(u));
        if t != s {
            assert(crate::paging::same_lookups(m0, m1, rt));
            assert(v.same_mappings(w, t));
        }
        if u != s {
            assert(crate::paging::same_lookups(m0, m1, ru));
            assert(v.same_mappings(w, u));
        }
        if t != s && u != s {
            strangers_kept(m0, m1, rt, ru);
        }
    }
    assert forall|t: NodeId| #[trigger] w.user_space(t) implies w.backed(m1, t) && w.accounted(
        m1,
        t,
    ) by {
        assert(w.is_space(t));
        if t != s {
            assert(v.same_mappings(w, t));
            assert(crate::paging::same_lookups(m0, m1, crate::vm::root_in(v, t)));
            assert(v.is_space(t) && v.user_space(t));
            space_kept(v, w, m0, m1, t);
        }
    }
}

// --------------------------------------------------------------- the mapping ---

/// What a new mapping changes in the graph: one edge more in one space.
#[verifier::rlimit(40)]
pub proof fn mapped_mappings(v: GraphView, s: NodeId, m: NodeId, attr: MapsAttr, e: EdgeId)
    requires
        v.wf(),
        v.is_space(s),
        v.live(m),
        m.kind() == Some(NodeKind::MemoryObject),
        v.unused(e),
    ensures
        ({
            let w = v.mapped(s, m, attr, e);
            let out = v.list(s, Dir::Out, EdgeKind::Maps);
            &&& forall|t: NodeId| #[trigger] w.is_space(t) <==> v.is_space(t)
            &&& forall|t: NodeId| #[trigger] w.is_space(t) && t != s ==> v.same_mappings(w, t)
            &&& w.list(s, Dir::Out, EdgeKind::Maps) == out.push(e.idx())
            &&& w.space(s).pml4_phys == v.space(s).pml4_phys
            &&& w.space(s).is_kernel == v.space(s).is_kernel
            &&& forall|k: int| 0 <= k < out.len() ==> v.same_mapping(w, #[trigger] out[k])
            &&& !out.contains(e.idx())
            &&& w.maps(e.idx()) == attr
            &&& w.edges[e.idx()].dst == m
            &&& w.memobj(m).phys_base == v.memobj(m).phys_base
            &&& w.memobj(m).pages == v.memobj(m).pages
            &&& v.same_objects(w)
        }),
{
    let w = v.mapped(s, m, attr, e);
    attr.round_trip();
    assert(v.nodes.contains_key(s) && v.nodes.contains_key(m));
    assert(v.node_ok(s) && v.node_ok(m));
    assert forall|t: NodeId| #[trigger] w.is_space(t) <==> v.is_space(t) by {}
    assert forall|t: NodeId| v.is_space(t) implies forall|k: int|
        0 <= k < v.list(t, Dir::Out, EdgeKind::Maps).len() ==> v.same_mapping(
            w,
            #[trigger] v.list(t, Dir::Out, EdgeKind::Maps)[k],
        ) && v.list(t, Dir::Out, EdgeKind::Maps)[k] != e.idx() by {
        let out = v.list(t, Dir::Out, EdgeKind::Maps);
        assert(v.nodes.contains_key(t));
        assert(v.lists.contains_key((t, Dir::Out, EdgeKind::Maps)));
        assert(v.list_ok((t, Dir::Out, EdgeKind::Maps)));
        assert forall|k: int| 0 <= k < out.len() implies v.same_mapping(w, #[trigger] out[k])
            && out[k] != e.idx() by {
            assert(v.edges.contains_key(out[k]));
            assert(v.edge_ok(out[k]));
            let d = v.edges[out[k]].dst;
            assert(v.nodes.contains_key(d));
            assert(v.node_ok(d));
        }
    }
    assert forall|t: NodeId| #[trigger] w.is_space(t) && t != s implies v.same_mappings(w, t) by {
        assert(v.is_space(t));
        assert(v.nodes.contains_key(t));
        assert(v.node_ok(t));
    }
}

/// What removing a mapping changes in the graph: one edge fewer in one space.
#[verifier::rlimit(40)]
pub proof fn unmapped_mappings(v: GraphView, e: u32)
    requires
        v.wf(),
        v.edges.contains_key(e),
        v.edges[e].kind == EdgeKind::Maps,
    ensures
        ({
            let w = v.unlink(e);
            let s = v.edges[e].src;
            let out = v.list(s, Dir::Out, EdgeKind::Maps);
            &&& v.is_space(s)
            &&& forall|t: NodeId| #[trigger] w.is_space(t) <==> v.is_space(t)
            &&& forall|t: NodeId| #[trigger] w.is_space(t) && t != s ==> v.same_mappings(w, t)
            &&& out.no_duplicates()
            &&& out.contains(e)
            &&& w.list(s, Dir::Out, EdgeKind::Maps) == crate::slab::without(out, e)
            &&& w.space(s).pml4_phys == v.space(s).pml4_phys
            &&& w.space(s).is_kernel == v.space(s).is_kernel
            &&& forall|k: int|
                0 <= k < out.len() && out[k] != e ==> v.same_mapping(w, #[trigger] out[k])
            &&& v.same_objects(w)
        }),
{
    let w = v.unlink(e);
    let s = v.edges[e].src;
    let m = v.edges[e].dst;
    assert(v.edge_ok(e));
    assert(v.nodes.contains_key(s) && v.nodes.contains_key(m));
    assert(v.node_ok(s) && v.node_ok(m));
    assert forall|t: NodeId| #[trigger] w.is_space(t) <==> v.is_space(t) by {}
    assert forall|t: NodeId| v.is_space(t) implies forall|k: int|
        0 <= k < v.list(t, Dir::Out, EdgeKind::Maps).len() && v.list(t, Dir::Out, EdgeKind::Maps)[k]
            != e ==> v.same_mapping(w, #[trigger] v.list(t, Dir::Out, EdgeKind::Maps)[k]) by {
        let out = v.list(t, Dir::Out, EdgeKind::Maps);
        assert(v.nodes.contains_key(t));
        assert(v.lists.contains_key((t, Dir::Out, EdgeKind::Maps)));
        assert(v.list_ok((t, Dir::Out, EdgeKind::Maps)));
        assert forall|k: int| 0 <= k < out.len() && out[k] != e implies v.same_mapping(
            w,
            #[trigger] out[k],
        ) by {
            assert(v.edges.contains_key(out[k]));
            assert(v.edge_ok(out[k]));
            let d = v.edges[out[k]].dst;
            assert(v.nodes.contains_key(d));
            assert(v.node_ok(d));
        }
    }
    assert forall|t: NodeId| #[trigger] w.is_space(t) && t != s implies v.same_mappings(w, t) by {
        assert(v.is_space(t));
        assert(v.nodes.contains_key(t));
        assert(v.node_ok(t));
        let out = v.list(t, Dir::Out, EdgeKind::Maps);
        assert(v.lists.contains_key((t, Dir::Out, EdgeKind::Maps)));
        assert(v.list_ok((t, Dir::Out, EdgeKind::Maps)));
        assert forall|k: int| 0 <= k < out.len() implies v.same_mapping(w, #[trigger] out[k]) by {
            assert(v.edges[out[k]].src == t);
        }
    }
    let key = (s, Dir::Out, EdgeKind::Maps);
    assert(v.lists.contains_key(key));
    assert(v.list_ok(key));
}

/// Where no mapping of a space collides with a range, the tables of the space
/// have nothing in it.
proof fn free_range_is_vacant(v: GraphView, mem: Seq<u8>, s: NodeId, attr: MapsAttr)
    requires
        v.wf(),
        v.is_space(s),
        v.index_ok(s),
        v.user_space(s) ==> v.accounted(mem, s),
        !v.collides(s, attr),
        crate::vm::user_range(attr),
    ensures
        forall|k: int|
            0 <= k < v.list(s, Dir::Out, EdgeKind::Maps).len() ==> !v.maps(
                #[trigger] v.list(s, Dir::Out, EdgeKind::Maps)[k],
            ).spec_overlaps(attr),
        v.user_space(s) ==> forall|x: u64|
            x % 4096 == 0 && attr.spec_covers(x) ==> #[trigger] crate::tables::lookup(
                mem,
                crate::vm::root_in(v, s),
                x,
            ) is None,
{
    let out = v.list(s, Dir::Out, EdgeKind::Maps);
    let b = v.space(s);
    assert forall|k: int| 0 <= k < out.len() implies !v.maps(#[trigger] out[k]).spec_overlaps(
        attr,
    ) by {
        assert(b.indexed().contains(out[k]));
        let j = b.indexed().index_of(out[k]);
        assert(b.ranges@[j] == out[k]);
        assert(v.edges.contains_key(b.ranges@[j]));
    }
    if v.user_space(s) {
        let root = crate::vm::root_in(v, s);
        assert forall|x: u64| x % 4096 == 0 && attr.spec_covers(x) implies #[trigger]
            crate::tables::lookup(mem, root, x) is None by {
            if crate::tables::lookup(mem, root, x) is Some {
                let f = crate::tables::frame_of(crate::tables::lookup(mem, root, x)->Some_0);
                assert(v.covered(s, x, f));
                let k = choose|k: int|
                    0 <= k < out.len() && v.maps(#[trigger] out[k]).spec_covers(x) && v.behind(
                        out[k],
                        x,
                    ) == f;
                assert(!v.maps(out[k]).spec_overlaps(attr));
            }
        }
    }
}

/// What the user pages of a space translate to once a mapping has been written.
pub open spec fn entries_written(
    m0: Seq<u8>,
    m1: Seq<u8>,
    root: int,
    attr: MapsAttr,
    paddr: u64,
) -> bool {
    forall|x: u64|
        x < USER_END && x % 4096 == 0 ==> #[trigger] crate::tables::lookup(m1, root, x)
            == if attr.spec_covers(x) && !attr.flags.contains(MapFlags(1)) {
            Some(
                crate::paging::page_at(paddr, (x - attr.vaddr) / 4096) | crate::paging::flags_of(
                    attr.prot,
                ),
            )
        } else {
            crate::tables::lookup(m0, root, x)
        }
}

/// In `w` space `s` has one mapping more than here, `attr` through edge `e`,
/// with the frames from `paddr` on behind it.
pub open spec fn one_more(
    v: GraphView,
    w: GraphView,
    s: NodeId,
    attr: MapsAttr,
    e: u32,
    paddr: u64,
) -> bool {
    let out = v.list(s, Dir::Out, EdgeKind::Maps);
    &&& w.list(s, Dir::Out, EdgeKind::Maps) == out.push(e)
    &&& crate::vm::root_in(w, s) == crate::vm::root_in(v, s)
    &&& forall|k: int| 0 <= k < out.len() ==> v.same_mapping(w, #[trigger] out[k])
    &&& forall|k: int| 0 <= k < out.len() ==> !v.maps(#[trigger] out[k]).spec_overlaps(attr)
    &&& w.maps(e) == attr
    &&& w.memobj(w.edges[e].dst).phys_base + attr.off_pages * 4096 == paddr
    &&& paddr % 4096 == 0
    &&& paddr + attr.len_pages * 4096 <= 0x10_0000_0000_0000
    &&& crate::vm::user_range(attr)
    &&& v.ranges_sound(s)
}

#[verifier::rlimit(40)]
proof fn one_more_backed(
    v: GraphView,
    w: GraphView,
    m0: Seq<u8>,
    m1: Seq<u8>,
    s: NodeId,
    attr: MapsAttr,
    e: u32,
    paddr: u64,
)
    requires
        one_more(v, w, s, attr, e, paddr),
        entries_written(m0, m1, crate::vm::root_in(v, s), attr, paddr),
        v.backed(m0, s),
        forall|x: u64|
            x % 4096 == 0 && attr.spec_covers(x) ==> #[trigger] crate::tables::lookup(
                m0,
                crate::vm::root_in(v, s),
                x,
            ) is None,
    ensures
        w.backed(m1, s),
{
    let root = crate::vm::root_in(v, s);
    let out = v.list(s, Dir::Out, EdgeKind::Maps);
    let nout = out.push(e);
    assert forall|k: int, i: int|
        0 <= k < nout.len() && 0 <= i < w.maps(nout[k]).len_pages implies #[trigger] w.page_backed(
        m1,
        s,
        nout[k],
        i,
    ) by {
        if k < out.len() {
            assert(nout[k] == out[k]);
            assert(v.same_mapping(w, out[k]));
            assert(v.page_backed(m0, s, out[k], i));
            let a = v.maps(out[k]);
            let x = crate::paging::page_at(a.vaddr, i);
            assert(v.range_sound(out[k]));
            range_page(a, i);
            assert(!a.spec_overlaps(attr));
            assert(crate::tables::lookup(m1, root, x) == crate::tables::lookup(m0, root, x));
        } else {
            assert(nout[k] == e);
            let x = crate::paging::page_at(attr.vaddr, i);
            range_page(attr, i);
            assert(crate::tables::lookup(m0, root, x) is None);
            let f = crate::paging::page_at(paddr, i);
            run_frame(paddr, attr.len_pages as int, i);
            crate::paging::flags_say_what_was_asked(f, attr.prot);
            assert(w.frame_for(e, i) == f);
        }
    }
}

#[verifier::rlimit(40)]
proof fn one_more_accounted(
    v: GraphView,
    w: GraphView,
    m0: Seq<u8>,
    m1: Seq<u8>,
    s: NodeId,
    attr: MapsAttr,
    e: u32,
    paddr: u64,
)
    requires
        one_more(v, w, s, attr, e, paddr),
        entries_written(m0, m1, crate::vm::root_in(v, s), attr, paddr),
        v.accounted(m0, s),
    ensures
        w.accounted(m1, s),
{
    let root = crate::vm::root_in(v, s);
    let out = v.list(s, Dir::Out, EdgeKind::Maps);
    let nout = out.push(e);
    assert forall|x: u64|
        x < USER_END && x % 4096 == 0 && (#[trigger] crate::tables::lookup(
            m1,
            root,
            x,
        )) is Some implies w.covered(
        s,
        x,
        crate::tables::frame_of(crate::tables::lookup(m1, root, x)->Some_0),
    ) by {
        let f = crate::tables::frame_of(crate::tables::lookup(m1, root, x)->Some_0);
        if attr.spec_covers(x) && !attr.flags.contains(MapFlags(1)) {
            let i = (x - attr.vaddr) / 4096;
            let n = out.len() as int;
            let y = crate::paging::page_at(paddr, i);
            page_of_range(attr, x);
            run_frame(paddr, attr.len_pages as int, i);
            crate::paging::flags_say_what_was_asked(y, attr.prot);
            assert(nout[n] == e);
            assert(w.maps(nout[n]).spec_covers(x) && w.behind(nout[n], x) == f);
        } else {
            assert(crate::tables::lookup(m1, root, x) == crate::tables::lookup(m0, root, x));
            assert(v.covered(s, x, f));
            let k = choose|k: int|
                0 <= k < out.len() && v.maps(#[trigger] out[k]).spec_covers(x) && v.behind(
                    out[k],
                    x,
                ) == f;
            assert(nout[k] == out[k]);
            assert(v.same_mapping(w, out[k]));
            assert(w.maps(nout[k]).spec_covers(x) && w.behind(nout[k], x) == f);
        }
    }
}

/// A run written, or left for later, is what the user pages translate to.
proof fn run_is_written(m0: Seq<u8>, m1: Seq<u8>, root: int, attr: MapsAttr, paddr: u64)
    requires
        crate::vm::user_range(attr),
        if attr.flags.contains(MapFlags(1)) {
            m1 == m0
        } else {
            crate::paging::mapped_run(
                m0,
                m1,
                root,
                attr.vaddr,
                paddr,
                attr.len_pages as int,
                attr.prot,
            )
        },
    ensures
        entries_written(m0, m1, root, attr, paddr),
{
    assert forall|x: u64| x < USER_END && x % 4096 == 0 implies #[trigger] crate::tables::lookup(
        m1,
        root,
        x,
    ) == if attr.spec_covers(x) && !attr.flags.contains(MapFlags(1)) {
        Some(
            crate::paging::page_at(paddr, (x - attr.vaddr) / 4096) | crate::paging::flags_of(
                attr.prot,
            ),
        )
    } else {
        crate::tables::lookup(m0, root, x)
    } by {
        offsets_in_range(x, attr.vaddr, attr.len_pages as int);
    }
}

/// The space that a mapping was made in agrees with its edges again.
#[verifier::rlimit(40)]
proof fn mapped_space_agrees(
    v: GraphView,
    m0: Seq<u8>,
    m1: Seq<u8>,
    s: NodeId,
    m: NodeId,
    attr: MapsAttr,
    e: EdgeId,
)
    requires
        v.wf(),
        v.is_space(s),
        v.user_space(s),
        v.live(m),
        m.kind() == Some(NodeKind::MemoryObject),
        v.unused(e),
        v.index_ok(s),
        v.ranges_sound(s),
        v.backed(m0, s),
        v.accounted(m0, s),
        v.object_sound(m),
        attr.off_pages + attr.len_pages <= v.memobj(m).pages,
        !v.collides(s, attr),
        crate::vm::user_range(attr),
        if attr.flags.contains(MapFlags(1)) {
            m1 == m0
        } else {
            crate::paging::mapped_run(
                m0,
                m1,
                crate::vm::root_in(v, s),
                attr.vaddr,
                (v.memobj(m).phys_base + attr.off_pages * 4096) as u64,
                attr.len_pages as int,
                attr.prot,
            )
        },
    ensures
        v.mapped(s, m, attr, e).backed(m1, s),
        v.mapped(s, m, attr, e).accounted(m1, s),
{
    let w = v.mapped(s, m, attr, e);
    let root = crate::vm::root_in(v, s);
    let paddr = (v.memobj(m).phys_base + attr.off_pages * 4096) as u64;
    mapped_mappings(v, s, m, attr, e);
    free_range_is_vacant(v, m0, s, attr);
    run_start(v.memobj(m).phys_base, v.memobj(m).pages as int, attr.off_pages as int, attr.len_pages as int);
    assert(one_more(v, w, s, attr, e.idx(), paddr));
    run_is_written(m0, m1, root, attr, paddr);
    one_more_backed(v, w, m0, m1, s, attr, e.idx(), paddr);
    one_more_accounted(v, w, m0, m1, s, attr, e.idx(), paddr);
}

/// A mapping made and removed again leaves every space mapping what it did.
proof fn undone_mappings(v: GraphView, s: NodeId, m: NodeId, attr: MapsAttr, e: EdgeId)
    requires
        v.wf(),
        v.is_space(s),
        v.live(m),
        m.kind() == Some(NodeKind::MemoryObject),
        v.unused(e),
        v.mapped(s, m, attr, e).wf(),
    ensures
        ({
            let w = v.mapped(s, m, attr, e).unlink(e.idx());
            &&& forall|t: NodeId| #[trigger] w.is_space(t) <==> v.is_space(t)
            &&& forall|t: NodeId| #[trigger] w.is_space(t) ==> v.same_mappings(w, t)
            &&& v.same_objects(w)
        }),
{
    let u = v.mapped(s, m, attr, e);
    let w = u.unlink(e.idx());
    mapped_mappings(v, s, m, attr, e);
    assert(u.edges[e.idx()].src == s && u.edges[e.idx()].kind == EdgeKind::Maps);
    unmapped_mappings(u, e.idx());
    assert forall|t: NodeId| #[trigger] w.is_space(t) <==> v.is_space(t) by {
        assert(u.is_space(t) <==> v.is_space(t));
    }
    assert forall|x: NodeId| #[trigger] w.is_object(x) implies v.is_object(x) && w.holding(x)
        == v.holding(x) by {
        assert(u.is_object(x));
    }
    assert forall|t: NodeId| #[trigger] w.is_space(t) implies v.same_mappings(w, t) by {
        assert(u.is_space(t));
        let out = v.list(t, Dir::Out, EdgeKind::Maps);
        if t == s {
            let o = u.list(s, Dir::Out, EdgeKind::Maps);
            assert(o == out.push(e.idx()));
            let k = o.index_of(e.idx());
            assert(o[out.len() as int] == e.idx());
            assert(o[k] == e.idx());
            if k < out.len() {
                assert(out[k] == e.idx());
            }
            assert(crate::slab::without(o, e.idx()) =~= out);
            assert forall|k: int| 0 <= k < out.len() implies v.same_mapping(w, #[trigger] out[k]) by {
                assert(o[k] == out[k]);
                assert(out.contains(out[k]));
                assert(v.same_mapping(u, out[k]));
                assert(u.same_mapping(w, o[k]));
            }
        } else {
            assert(v.same_mappings(u, t));
            assert(u.same_mappings(w, t));
            assert forall|k: int| 0 <= k < out.len() implies v.same_mapping(w, #[trigger] out[k]) by {
                assert(v.same_mapping(u, out[k]));
                assert(u.same_mapping(w, u.list(t, Dir::Out, EdgeKind::Maps)[k]));
            }
        }
    }
}

// ---------------------------------------------------------------------- laws ---

/// As `mapping_keeps_tables`, once nothing stands in the way of the mapping.
#[verifier::rlimit(40)]
proof fn written_mapping_keeps_tables(
    v0: GraphView,
    m0: Seq<u8>,
    f0: FrameAllocator<'_>,
    v1: GraphView,
    m1: Seq<u8>,
    f1: FrameAllocator<'_>,
    s: NodeId,
    m: NodeId,
    attr: MapsAttr,
    e: EdgeId,
    r: Result<EdgeId, VmError>,
)
    requires
        v0.wf(),
        v0.inv(),
        v0.paging_ok(m0, f0),
        v0.is_space(s),
        v0.live(m),
        m.kind() == Some(NodeKind::MemoryObject),
        v0.object_sound(m),
        attr.off_pages + attr.len_pages <= v0.memobj(m).pages,
        !v0.collides(s, attr),
        crate::vm::user_range(attr),
        crate::vm::map_written(v0, m0, f0, v1, m1, f1, s, m, attr, e, r),
    ensures
        v1.paging_ok(m1, f1),
        v0.user_space(s) ==> !(r matches Err(VmError::Paging(MapError::AlreadyMapped(_)))),
{
    let root = crate::vm::root_in(v0, s);
    let n = attr.len_pages as int;
    let way = crate::paging::toward_run(attr.vaddr, n);
    let paddr = (v0.memobj(m).phys_base + attr.off_pages * 4096) as u64;
    user_ways(attr.vaddr, n);
    assert(v0.nodes.contains_key(s));
    assert(v0.node_ok(s) && v0.body_ok(s));
    assert(v0.index_ok(s));
    assert(v0.user_space(s) ==> v0.backed(m0, s) && v0.accounted(m0, s));
    free_range_is_vacant(v0, m0, s, attr);
    mapped_mappings(v0, s, m, attr, e);
    match r {
        Ok(_) => {
            if v0.user_space(s) {
                mapped_space_agrees(v0, m0, m1, s, m, attr, e);
                mapped_ranges_sound(v0, s, m, attr, e);
            }
        },
        Err(err) => {
            undone_mappings(v0, s, m, attr, e);
            assert(v1.is_space(s));
            assert(v0.same_mappings(v1, s));
            if v0.user_space(s) {
                same_ranges_sound(v0, v1, s);
                rolled_back_space_agrees(v0, v1, m0, m1, s, attr);
                if let VmError::Paging(MapError::AlreadyMapped(va)) = err {
                    let k = choose|k: int|
                        0 <= k < n && va == #[trigger] crate::paging::page_at(attr.vaddr, k);
                    range_page(attr, k);
                    assert(crate::tables::lookup(m0, root, va) is None);
                }
            }
        },
    }
    others_kept(v0, v1, m0, f0, m1, f1, s, way);
}

/// Mapping keeps the page tables a cache of the edges, in the space mapped
/// into and in every other; whether it succeeds or not. It never finds an
/// address already mapped, because every entry has an edge and no edge
/// overlaps.
pub proof fn mapping_keeps_tables(
    g0: Graph,
    m0: Seq<u8>,
    f0: FrameAllocator<'_>,
    g1: Graph,
    m1: Seq<u8>,
    f1: FrameAllocator<'_>,
    s: NodeId,
    m: NodeId,
    attr: MapsAttr,
    r: Result<EdgeId, VmError>,
)
    requires
        g0.wf(),
        g0@.inv(),
        g0@.paging_ok(m0, f0),
        s.kind() == Some(NodeKind::AddressSpace),
        m.kind() == Some(NodeKind::MemoryObject),
        g0@.live(m) ==> g0@.object_sound(m),
        crate::vm::map_done(g0, m0, Some(f0), g1, m1, Some(f1), s, m, attr, r),
    ensures
        g1@.paging_ok(m1, f1),
        g0@.user_space(s) ==> !(r matches Err(VmError::Paging(MapError::AlreadyMapped(_)))),
{
    if crate::vm::map_error(g0, true, s, m, attr) is None {
        written_mapping_keeps_tables(
            g0@,
            m0,
            f0,
            g1@,
            m1,
            f1,
            s,
            m,
            attr,
            g0.next_edge(),
            r,
        );
    }
}

/// A new mapping inside its object keeps the mappings of its space sound.
proof fn mapped_ranges_sound(v: GraphView, s: NodeId, m: NodeId, attr: MapsAttr, e: EdgeId)
    requires
        v.wf(),
        v.is_space(s),
        v.live(m),
        m.kind() == Some(NodeKind::MemoryObject),
        v.unused(e),
        v.ranges_sound(s),
        v.object_sound(m),
        attr.off_pages + attr.len_pages <= v.memobj(m).pages,
        crate::vm::user_range(attr),
        forall|k: int|
            0 <= k < v.list(s, Dir::Out, EdgeKind::Maps).len() ==> !v.maps(
                #[trigger] v.list(s, Dir::Out, EdgeKind::Maps)[k],
            ).spec_overlaps(attr),
    ensures
        v.mapped(s, m, attr, e).ranges_sound(s),
{
    let w = v.mapped(s, m, attr, e);
    mapped_mappings(v, s, m, attr, e);
    let out = v.list(s, Dir::Out, EdgeKind::Maps);
    let nout = out.push(e.idx());
    assert forall|k: int| 0 <= k < nout.len() implies w.range_sound(#[trigger] nout[k]) by {
        if k < out.len() {
            assert(nout[k] == out[k]);
            assert(v.same_mapping(w, out[k]));
            assert(v.range_sound(out[k]));
        }
    }
    assert forall|j: int, k: int|
        0 <= j < nout.len() && 0 <= k < nout.len() && j != k implies !w.maps(
        #[trigger] nout[j],
    ).spec_overlaps(w.maps(#[trigger] nout[k])) by {
        if j < out.len() {
            assert(nout[j] == out[j]);
            assert(v.same_mapping(w, out[j]));
        }
        if k < out.len() {
            assert(nout[k] == out[k]);
            assert(v.same_mapping(w, out[k]));
        }
    }
}

/// The same mappings are as sound.
pub proof fn same_ranges_sound(v: GraphView, w: GraphView, s: NodeId)
    requires
        v.ranges_sound(s),
        v.same_mappings(w, s),
    ensures
        w.ranges_sound(s),
{
    let out = v.list(s, Dir::Out, EdgeKind::Maps);
    assert forall|k: int| 0 <= k < out.len() implies w.range_sound(#[trigger] out[k]) by {
        assert(v.same_mapping(w, out[k]));
        assert(v.range_sound(out[k]));
    }
    assert forall|j: int, k: int|
        0 <= j < out.len() && 0 <= k < out.len() && j != k implies !w.maps(
        #[trigger] out[j],
    ).spec_overlaps(w.maps(#[trigger] out[k])) by {
        assert(v.same_mapping(w, out[j]));
        assert(v.same_mapping(w, out[k]));
    }
}

/// A mapping that failed part of the way leaves its space as it was.
#[verifier::rlimit(40)]
proof fn rolled_back_space_agrees(
    v0: GraphView,
    v1: GraphView,
    m0: Seq<u8>,
    m1: Seq<u8>,
    s: NodeId,
    attr: MapsAttr,
)
    requires
        v0.wf(),
        v0.user_space(s),
        v0.is_space(s),
        v0.index_ok(s),
        v0.ranges_sound(s),
        v0.backed(m0, s),
        v0.accounted(m0, s),
        !v0.collides(s, attr),
        crate::vm::user_range(attr),
        v0.same_mappings(v1, s),
        crate::paging::unmapped_run(
            m0,
            m1,
            crate::vm::root_in(v0, s),
            attr.vaddr,
            attr.len_pages as int,
        ),
    ensures
        v1.backed(m1, s),
        v1.accounted(m1, s),
{
    let root = crate::vm::root_in(v0, s);
    let out = v0.list(s, Dir::Out, EdgeKind::Maps);
    free_range_is_vacant(v0, m0, s, attr);
    assert forall|x: u64| x < USER_END && x % 4096 == 0 implies #[trigger] crate::tables::lookup(
        m1,
        root,
        x,
    ) == crate::tables::lookup(m0, root, x) by {
        offsets_in_range(x, attr.vaddr, attr.len_pages as int);
        if attr.spec_covers(x) {
            assert(crate::tables::lookup(m0, root, x) is None);
        }
    }
    user_lookups_kept(v0, v1, m0, m1, s);
}

/// As `space_kept`, for a space whose user pages alone translate as they did.
proof fn user_lookups_kept(v: GraphView, w: GraphView, m0: Seq<u8>, m1: Seq<u8>, t: NodeId)
    requires
        v.same_mappings(w, t),
        v.ranges_sound(t),
        forall|x: u64|
            x < USER_END && x % 4096 == 0 ==> #[trigger] crate::tables::lookup(
                m1,
                crate::vm::root_in(v, t),
                x,
            ) == crate::tables::lookup(m0, crate::vm::root_in(v, t), x),
        v.backed(m0, t),
        v.accounted(m0, t),
    ensures
        w.backed(m1, t),
        w.accounted(m1, t),
{
    let out = v.list(t, Dir::Out, EdgeKind::Maps);
    let root = crate::vm::root_in(v, t);
    assert forall|k: int, i: int|
        0 <= k < out.len() && 0 <= i < w.maps(out[k]).len_pages implies #[trigger] w.page_backed(
        m1,
        t,
        out[k],
        i,
    ) by {
        assert(v.same_mapping(w, out[k]));
        assert(v.page_backed(m0, t, out[k], i));
        let a = v.maps(out[k]);
        assert(v.range_sound(out[k]));
        let x = crate::paging::page_at(a.vaddr, i);
        range_page(a, i);
        assert(crate::tables::lookup(m1, root, x) == crate::tables::lookup(m0, root, x));
    }
    assert forall|x: u64|
        x < USER_END && x % 4096 == 0 && (#[trigger] crate::tables::lookup(
            m1,
            root,
            x,
        )) is Some implies w.covered(
        t,
        x,
        crate::tables::frame_of(crate::tables::lookup(m1, root, x)->Some_0),
    ) by {
        let f = crate::tables::frame_of(crate::tables::lookup(m1, root, x)->Some_0);
        assert(crate::tables::lookup(m1, root, x) == crate::tables::lookup(m0, root, x));
        assert(v.covered(t, x, f));
        let k = choose|k: int|
            0 <= k < out.len() && v.maps(#[trigger] out[k]).spec_covers(x) && v.behind(out[k], x)
                == f;
        assert(v.same_mapping(w, out[k]));
        assert(w.maps(out[k]).spec_covers(x) && w.behind(out[k], x) == f);
    }
}

/// Every mapping left is one that was there, is as it was, and does not
/// overlap the one removed.
pub open spec fn one_fewer(v: GraphView, w: GraphView, s: NodeId, e: u32) -> bool {
    let out = v.list(s, Dir::Out, EdgeKind::Maps);
    let rest = w.list(s, Dir::Out, EdgeKind::Maps);
    &&& crate::vm::root_in(w, s) == crate::vm::root_in(v, s)
    &&& w.space(s).is_kernel == v.space(s).is_kernel
    &&& v.ranges_sound(s)
    &&& crate::vm::user_range(v.maps(e))
    &&& forall|k: int| 0 <= k < rest.len() ==> one_left(v, w, out, #[trigger] rest[k], e)
    &&& forall|k: int| 0 <= k < out.len() && #[trigger] out[k] != e ==> rest.contains(out[k])
}

pub open spec fn one_left(v: GraphView, w: GraphView, out: Seq<u32>, x: u32, e: u32) -> bool {
    out.contains(x) && x != e && v.same_mapping(w, x) && !v.maps(x).spec_overlaps(v.maps(e))
}

proof fn unlinking_leaves_the_rest(v: GraphView, e: u32)
    requires
        v.wf(),
        v.edges.contains_key(e),
        v.edges[e].kind == EdgeKind::Maps,
        v.ranges_sound(v.edges[e].src),
    ensures
        one_fewer(v, v.unlink(e), v.edges[e].src, e),
{
    let s = v.edges[e].src;
    let w = v.unlink(e);
    unmapped_mappings(v, e);
    let out = v.list(s, Dir::Out, EdgeKind::Maps);
    let rest = w.list(s, Dir::Out, EdgeKind::Maps);
    let p = out.index_of(e);
    assert(out[p] == e);
    assert(v.range_sound(out[p]));
    crate::slab::without_facts(out, e);
    assert forall|k: int| 0 <= k < rest.len() implies one_left(
        v,
        w,
        out,
        #[trigger] rest[k],
        e,
    ) by {
        assert(rest.contains(rest[k]));
        let j = out.index_of(rest[k]);
        assert(out[j] == rest[k] && out[j] != e);
        assert(!v.maps(out[j]).spec_overlaps(v.maps(out[p])));
    }
}

#[verifier::rlimit(40)]
proof fn one_fewer_agrees(
    v: GraphView,
    w: GraphView,
    m0: Seq<u8>,
    m1: Seq<u8>,
    s: NodeId,
    e: u32,
)
    requires
        one_fewer(v, w, s, e),
        v.backed(m0, s),
        v.accounted(m0, s),
        crate::paging::unmapped_run(
            m0,
            m1,
            crate::vm::root_in(v, s),
            v.maps(e).vaddr,
            v.maps(e).len_pages as int,
        ),
    ensures
        w.backed(m1, s),
        w.accounted(m1, s),
{
    let root = crate::vm::root_in(v, s);
    let a = v.maps(e);
    let out = v.list(s, Dir::Out, EdgeKind::Maps);
    let rest = w.list(s, Dir::Out, EdgeKind::Maps);
    assert forall|x: u64| x < USER_END && x % 4096 == 0 implies #[trigger] crate::tables::lookup(
        m1,
        root,
        x,
    ) == if a.spec_covers(x) {
        None
    } else {
        crate::tables::lookup(m0, root, x)
    } by {
        offsets_in_range(x, a.vaddr, a.len_pages as int);
    }
    assert forall|k: int, i: int|
        0 <= k < rest.len() && 0 <= i < w.maps(rest[k]).len_pages implies #[trigger] w.page_backed(
        m1,
        s,
        rest[k],
        i,
    ) by {
        assert(one_left(v, w, out, rest[k], e));
        let j = out.index_of(rest[k]);
        assert(out[j] == rest[k]);
        let b = v.maps(out[j]);
        assert(v.range_sound(out[j]));
        assert(v.page_backed(m0, s, out[j], i));
        let x = crate::paging::page_at(b.vaddr, i);
        range_page(b, i);
        assert(crate::tables::lookup(m1, root, x) == crate::tables::lookup(m0, root, x));
    }
    assert forall|x: u64|
        x < USER_END && x % 4096 == 0 && (#[trigger] crate::tables::lookup(
            m1,
            root,
            x,
        )) is Some implies w.covered(
        s,
        x,
        crate::tables::frame_of(crate::tables::lookup(m1, root, x)->Some_0),
    ) by {
        let g = crate::tables::frame_of(crate::tables::lookup(m1, root, x)->Some_0);
        assert(!a.spec_covers(x));
        assert(crate::tables::lookup(m1, root, x) == crate::tables::lookup(m0, root, x));
        assert(v.covered(s, x, g));
        let j = choose|j: int|
            0 <= j < out.len() && v.maps(#[trigger] out[j]).spec_covers(x) && v.behind(out[j], x)
                == g;
        assert(out[j] != e);
        assert(rest.contains(out[j]));
        let k = rest.index_of(out[j]);
        assert(rest[k] == out[j]);
        assert(one_left(v, w, out, rest[k], e));
        assert(w.maps(rest[k]).spec_covers(x) && w.behind(rest[k], x) == g);
    }
}

/// The mappings left are as sound as they were.
pub proof fn fewer_ranges_sound(v: GraphView, e: u32)
    requires
        v.wf(),
        v.edges.contains_key(e),
        v.edges[e].kind == EdgeKind::Maps,
        v.ranges_sound(v.edges[e].src),
    ensures
        v.unlink(e).ranges_sound(v.edges[e].src),
{
    let s = v.edges[e].src;
    let w = v.unlink(e);
    unmapped_mappings(v, e);
    unlinking_leaves_the_rest(v, e);
    let out = v.list(s, Dir::Out, EdgeKind::Maps);
    let rest = w.list(s, Dir::Out, EdgeKind::Maps);
    crate::slab::without_facts(out, e);
    assert forall|k: int| 0 <= k < rest.len() implies w.range_sound(#[trigger] rest[k]) by {
        assert(one_left(v, w, out, rest[k], e));
        let j = out.index_of(rest[k]);
        assert(out[j] == rest[k]);
        assert(v.range_sound(out[j]));
    }
    assert forall|j: int, k: int|
        0 <= j < rest.len() && 0 <= k < rest.len() && j != k implies !w.maps(
        #[trigger] rest[j],
    ).spec_overlaps(w.maps(#[trigger] rest[k])) by {
        assert(one_left(v, w, out, rest[j], e));
        assert(one_left(v, w, out, rest[k], e));
        let a = out.index_of(rest[j]);
        let b = out.index_of(rest[k]);
        assert(out[a] == rest[j] && out[b] == rest[k]);
        assert(rest[j] != rest[k]);
    }
}

/// Unmapping keeps the page tables a cache of the edges: the entries go with
/// the edge, and nothing else does.
#[verifier::rlimit(40)]
pub proof fn unmapping_keeps_tables(
    v0: GraphView,
    m0: Seq<u8>,
    f: FrameAllocator<'_>,
    m1: Seq<u8>,
    e: u32,
)
    requires
        v0.wf(),
        v0.paging_ok(m0, f),
        v0.edges.contains_key(e),
        v0.edges[e].kind == EdgeKind::Maps,
        v0.user_space(v0.edges[e].src) || crate::vm::user_range(v0.maps(e)),
        ({
            let a = v0.maps(e);
            let root = crate::vm::root_in(v0, v0.edges[e].src);
            let n = a.len_pages as int;
            &&& crate::paging::leaves_changed(m0, m1, root, crate::paging::toward_run(a.vaddr, n))
            &&& crate::paging::unmapped_run(m0, m1, root, a.vaddr, n)
        }),
    ensures
        v0.unlink(e).paging_ok(m1, f),
{
    let s = v0.edges[e].src;
    let a = v0.maps(e);
    let root = crate::vm::root_in(v0, s);
    let n = a.len_pages as int;
    let way = crate::paging::toward_run(a.vaddr, n);
    let v1 = v0.unlink(e);
    unmapped_mappings(v0, e);
    assert(v0.is_space(s));
    if v0.user_space(s) {
        unlinking_leaves_the_rest(v0, e);
        fewer_ranges_sound(v0, e);
        one_fewer_agrees(v0, v1, m0, m1, s, e);
    }
    user_ways(a.vaddr, n);
    crate::paging::leaves_grow(m0, f, m1, root, way);
    others_kept(v0, v1, m0, f, m1, f, s, way);
}

/// Serving a page fault keeps the page tables a cache of the edges: the entry
/// it writes is one that a lazy mapping asked for.
#[verifier::rlimit(90)]
#[verifier::spinoff_prover]
pub proof fn faulting_keeps_tables(
    v: GraphView,
    m0: Seq<u8>,
    f0: FrameAllocator<'_>,
    m1: Seq<u8>,
    f1: FrameAllocator<'_>,
    current: NodeId,
    page: u64,
    goal: (u64, u64, crate::edge::Prot),
)
    requires
        v.wf(),
        v.paging_ok(m0, f0),
        page % 4096 == 0,
        crate::vm_check::fault_goal(v, current, page, goal),
        crate::vm_check::fault_served(m0, Some(f0), m1, Some(f1), page, goal)
            || crate::vm_check::fault_refused(m0, Some(f0), m1, Some(f1), page, goal),
    ensures
        v.paging_ok(m1, f1),
{
    let s = v.space_under(current)->Some_0;
    let e = choose|e: u32| #[trigger] v.serves(s, e, page, goal);
    let out = v.list(s, Dir::Out, EdgeKind::Maps);
    let p = out.index_of(e);
    let root = crate::paging::root_of(goal.0);
    space_under_is_space(v, current);
    assert(out[p] == e);
    user_ways(page, 1);
    if v.user_space(s) {
        served_entry(v, s, page, goal, e);
        if crate::vm_check::fault_served(m0, Some(f0), m1, Some(f1), page, goal) {
            assert forall|x: u64| x < USER_END && x % 4096 == 0 implies #[trigger]
                crate::tables::lookup(m1, root, x) == if x == page {
                Some(goal.1 | crate::paging::flags_of(goal.2))
            } else {
                crate::tables::lookup(m0, root, x)
            } by {
                offsets_in_range(x, page, 1);
                assert(crate::paging::page_at(goal.1, 0) == goal.1);
            }
            served_space_agrees(v, m0, m1, s, p, page, goal);
        } else {
            space_kept(v, v, m0, m1, s);
        }
    }
    others_kept(v, v, m0, f0, m1, f1, s, crate::paging::toward_run(page, 1));
}

/// The space a thread runs in is one.
pub proof fn space_under_is_space(v: GraphView, current: NodeId)
    requires
        v.wf(),
        v.space_under(current) is Some,
    ensures
        v.is_space(v.space_under(current)->Some_0),
{
    let ins = v.list(current, Dir::Out, EdgeKind::InSpace);
    assert(v.nodes.contains_key(current));
    assert(v.lists.contains_key((current, Dir::Out, EdgeKind::InSpace)));
    assert(v.list_ok((current, Dir::Out, EdgeKind::InSpace)));
    assert(v.edges.contains_key(ins[0]));
    assert(v.edge_ok(ins[0]));
}

/// The entry that serves a fault names the frame behind the page.
#[verifier::spinoff_prover]
proof fn served_entry(
    v: GraphView,
    s: NodeId,
    page: u64,
    goal: (u64, u64, crate::edge::Prot),
    e: u32,
)
    requires
        v.ranges_sound(s),
        page % 4096 == 0,
        v.serves(s, e, page, goal),
    ensures
        page + 4096 <= USER_END,
        crate::tables::frame_of(goal.1 | crate::paging::flags_of(goal.2)) == goal.1,
        crate::paging::grants(goal.1 | crate::paging::flags_of(goal.2), goal.2),
{
    let a = v.maps(e);
    let out = v.list(s, Dir::Out, EdgeKind::Maps);
    let p = out.index_of(e);
    assert(out[p] == e);
    assert(v.range_sound(out[p]));
    let i0 = (page - a.vaddr) / 4096;
    page_of_range(a, page);
    let base = v.memobj(v.edges[e].dst).phys_base;
    let j = a.off_pages + i0;
    run_frame(base, v.memobj(v.edges[e].dst).pages as int, j);
    assert(goal.1 == base + j * 4096);
    crate::paging::flags_say_what_was_asked(goal.1, goal.2);
}

/// The space whose page was made real agrees with its edges again.
#[verifier::spinoff_prover]
proof fn served_space_agrees(
    v: GraphView,
    m0: Seq<u8>,
    m1: Seq<u8>,
    s: NodeId,
    p: int,
    page: u64,
    goal: (u64, u64, crate::edge::Prot),
)
    requires
        v.ranges_sound(s),
        v.backed(m0, s),
        v.accounted(m0, s),
        0 <= p < v.list(s, Dir::Out, EdgeKind::Maps).len(),
        v.serves(s, v.list(s, Dir::Out, EdgeKind::Maps)[p], page, goal),
        page % 4096 == 0,
        crate::tables::frame_of(goal.1 | crate::paging::flags_of(goal.2)) == goal.1,
        crate::paging::grants(goal.1 | crate::paging::flags_of(goal.2), goal.2),
        forall|x: u64|
            x < USER_END && x % 4096 == 0 ==> #[trigger] crate::tables::lookup(
                m1,
                crate::vm::root_in(v, s),
                x,
            ) == if x == page {
                Some(goal.1 | crate::paging::flags_of(goal.2))
            } else {
                crate::tables::lookup(m0, crate::vm::root_in(v, s), x)
            },
    ensures
        v.backed(m1, s),
        v.accounted(m1, s),
{
    let root = crate::vm::root_in(v, s);
    let out = v.list(s, Dir::Out, EdgeKind::Maps);
    let a = v.maps(out[p]);
    assert(v.range_sound(out[p]));
    assert forall|k: int, i: int|
        0 <= k < out.len() && 0 <= i < v.maps(out[k]).len_pages implies #[trigger] v.page_backed(
        m1,
        s,
        out[k],
        i,
    ) by {
        let b = v.maps(out[k]);
        assert(v.range_sound(out[k]));
        assert(v.page_backed(m0, s, out[k], i));
        let x = crate::paging::page_at(b.vaddr, i);
        range_page(b, i);
        if x == page {
            if k != p {
                assert(!v.maps(out[k]).spec_overlaps(v.maps(out[p])));
            }
            assert(k == p);
            assert(goal.1 == v.frame_for(out[p], i));
        }
    }
    assert forall|x: u64|
        x < USER_END && x % 4096 == 0 && (#[trigger] crate::tables::lookup(
            m1,
            root,
            x,
        )) is Some implies v.covered(
        s,
        x,
        crate::tables::frame_of(crate::tables::lookup(m1, root, x)->Some_0),
    ) by {
        if x == page {
            assert(v.maps(out[p]).spec_covers(x) && v.behind(out[p], x) == goal.1);
        } else {
            assert(crate::tables::lookup(m1, root, x) == crate::tables::lookup(m0, root, x));
        }
    }
}

// ------------------------------------------------------------------ creating ---

/// No table of any space's user half is in the kernel's half of `active`.
pub open spec fn kernel_apart(v: GraphView, mem: Seq<u8>, active: int) -> bool {
    forall|s: NodeId, p: Seq<int>, q: Seq<int>|
        #![trigger v.is_space(s), crate::tables::is_table(mem, crate::vm::root_in(v, s), p), crate::tables::is_table(mem, active, q)]
        v.is_space(s) && crate::tables::is_table(mem, crate::vm::root_in(v, s), p) && user_side(p)
            && crate::tables::is_table(mem, active, q) && !user_side(q) ==> crate::tables::table_at(
            mem,
            crate::vm::root_in(v, s),
            p,
        ) != crate::tables::table_at(mem, active, q)
}

/// Writing to a free frame is nothing to a space.
pub proof fn free_frame_written(
    m0: Seq<u8>,
    f0: FrameAllocator<'_>,
    m1: Seq<u8>,
    f1: FrameAllocator<'_>,
    root: int,
    phys: int,
)
    requires
        crate::paging::ready(f0, m0, root),
        phys % 4096 == 0,
        f0.free(phys / 4096),
        m1.len() == m0.len(),
        forall|a: int|
            0 <= a < m0.len() && !(phys <= a < phys + 4096) ==> #[trigger] m1[a] == m0[a],
        f1.wf(),
        f1.same_shape(f0),
        forall|f: int| #[trigger] f1.free(f) ==> f0.free(f),
    ensures
        crate::paging::ready(f1, m1, root),
        crate::paging::same_lookups(m0, m1, root),
        forall|p: Seq<int>|
            crate::tables::path_ok(p) ==> #[trigger] crate::tables::table_at(m1, root, p)
                == crate::tables::table_at(m0, root, p),
{
    assert forall|p: Seq<int>, x: int|
        #![trigger crate::tables::is_table(m0, root, p), m1[x]]
        crate::tables::is_table(m0, root, p) && crate::tables::table_at(m0, root, p)->Some_0 <= x
            < crate::tables::table_at(m0, root, p)->Some_0 + 4096 implies m1[x] == m0[x] by {
        let t = crate::tables::table_at(m0, root, p)->Some_0;
        assert(t % 4096 == 0);
        assert(!f0.free(t / 4096));
        assert(t != phys);
    }
    crate::spaces::elsewhere_kept(m0, m1, root);
    assert forall|p: Seq<int>| #[trigger] crate::tables::is_table(m1, root, p) implies !f1.free(
        crate::tables::table_at(m1, root, p)->Some_0 / 4096,
    ) by {
        assert(crate::tables::table_at(m1, root, p) == crate::tables::table_at(m0, root, p));
        assert(crate::tables::is_table(m0, root, p));
        assert(!f0.free(crate::tables::table_at(m0, root, p)->Some_0 / 4096));
    }
}

/// A fresh root and the tables of another space have nothing in common but the
/// kernel's half.
proof fn fresh_root_private(
    v: GraphView,
    m0: Seq<u8>,
    f0: FrameAllocator<'_>,
    m1: Seq<u8>,
    active: int,
    phys: int,
    t: NodeId,
)
    requires
        v.is_space(t),
        crate::paging::ready(f0, m0, active),
        crate::paging::ready(f0, m0, crate::vm::root_in(v, t)),
        kernel_apart(v, m0, active),
        phys % 4096 == 0,
        f0.free(phys / 4096),
        crate::spaces::shares_kernel(m0, m1, active, phys),
        forall|p: Seq<int>|
            crate::tables::path_ok(p) ==> #[trigger] crate::tables::table_at(
                m1,
                crate::vm::root_in(v, t),
                p,
            ) == crate::tables::table_at(m0, crate::vm::root_in(v, t), p),
    ensures
        private(m1, phys, crate::vm::root_in(v, t)),
        private(m1, crate::vm::root_in(v, t), phys),
{
    let root = crate::vm::root_in(v, t);
    assert forall|p: Seq<int>| #[trigger]
        crate::tables::is_table(m1, phys, p) && user_side(p) implies !crate::tables::has_table(
        m1,
        root,
        crate::tables::table_at(m1, phys, p)->Some_0,
    ) by {
        if p.len() > 0 {
            crate::spaces::shared_tables(f0, m0, m1, active, phys, p);
        }
        assert(crate::tables::table_at(m1, phys, p) == Some(phys));
        if crate::tables::has_table(m1, root, phys) {
            let q = choose|q: Seq<int>| #[trigger]
                crate::tables::is_table(m1, root, q) && crate::tables::table_at(m1, root, q)
                    == Some(phys);
            assert(crate::tables::table_at(m0, root, q) == Some(phys));
            assert(crate::tables::is_table(m0, root, q));
        }
    }
    assert forall|p: Seq<int>| #[trigger]
        crate::tables::is_table(m1, root, p) && user_side(p) implies !crate::tables::has_table(
        m1,
        phys,
        crate::tables::table_at(m1, root, p)->Some_0,
    ) by {
        let x = crate::tables::table_at(m1, root, p)->Some_0;
        assert(crate::tables::table_at(m0, root, p) == Some(x));
        assert(crate::tables::is_table(m0, root, p));
        assert(!f0.free(x / 4096));
        if crate::tables::has_table(m1, phys, x) {
            let q = choose|q: Seq<int>| #[trigger]
                crate::tables::is_table(m1, phys, q) && crate::tables::table_at(m1, phys, q)
                    == Some(x);
            if q.len() > 0 {
                crate::spaces::shared_tables(f0, m0, m1, active, phys, q);
                assert(crate::tables::is_table(m0, active, q));
                assert(!user_side(q));
            }
        }
    }
}

/// What a new space changes in the graph: no mapping of any other.
proof fn created_mappings(v: GraphView, owner: NodeId, id: NodeId, phys: u64, e: EdgeId)
    requires
        v.wf(),
        v.live(owner),
        !v.live(id),
        !v.edges.contains_key(e.idx()),
    ensures
        ({
            let w = v.with_node(id, crate::body::Body::AddressSpace(crate::vm::fresh_space(phys))).link(
                owner,
                EdgeKind::Owns,
                id,
                crate::edge::zeros(24),
                e.idx(),
                e.generation(),
            );
            &&& forall|t: NodeId| #[trigger] w.is_space(t) && t != id ==> v.is_space(t) && v.same_mappings(
                w,
                t,
            )
            &&& w.list(id, Dir::Out, EdgeKind::Maps) == Seq::<u32>::empty()
            &&& w.space(id).pml4_phys == phys
            &&& id.kind() == Some(NodeKind::AddressSpace) ==> v.same_objects(w)
        }),
{
    let w = v.with_node(id, crate::body::Body::AddressSpace(crate::vm::fresh_space(phys))).link(
        owner,
        EdgeKind::Owns,
        id,
        crate::edge::zeros(24),
        e.idx(),
        e.generation(),
    );
    assert forall|t: NodeId| #[trigger] w.is_space(t) && t != id implies v.is_space(t)
        && v.same_mappings(w, t) by {
        assert(v.nodes.contains_key(t));
        assert(v.lists.contains_key((t, Dir::Out, EdgeKind::Maps)));
        assert(v.list_ok((t, Dir::Out, EdgeKind::Maps)));
        let out = v.list(t, Dir::Out, EdgeKind::Maps);
        assert forall|k: int| 0 <= k < out.len() implies v.same_mapping(w, #[trigger] out[k]) by {
            assert(v.edges.contains_key(out[k]));
            assert(v.edge_ok(out[k]));
        }
    }
}

/// The kernel's half of the tables in use is in nobody's way.
pub proof fn running_space_apart(v: GraphView, mem: Seq<u8>, fa: FrameAllocator<'_>, active: u64)
    requires
        v.paging_ok(mem, fa),
        v.runs_in(active),
    ensures
        crate::paging::ready(fa, mem, crate::paging::root_of(active)),
        kernel_apart(v, mem, crate::paging::root_of(active)),
{
    let root = crate::paging::root_of(active);
    let k = choose|k: NodeId| #[trigger]
        v.is_space(k) && crate::vm::root_in(v, k) == crate::paging::root_of(active);
    assert forall|s: NodeId, p: Seq<int>, q: Seq<int>|
        #![trigger v.is_space(s), crate::tables::is_table(mem, crate::vm::root_in(v, s), p), crate::tables::is_table(mem, root, q)]
        v.is_space(s) && crate::tables::is_table(mem, crate::vm::root_in(v, s), p) && user_side(p)
            && crate::tables::is_table(mem, root, q) && !user_side(
            q,
        ) implies crate::tables::table_at(mem, crate::vm::root_in(v, s), p)
        != crate::tables::table_at(mem, root, q) by {
        if s != k {
            assert(private(mem, crate::vm::root_in(v, s), root));
            let t = crate::tables::table_at(mem, crate::vm::root_in(v, s), p)->Some_0;
            assert(!crate::tables::has_table(mem, root, t));
        }
    }
}

/// A root taken out of the pool is in no object's way.
#[verifier::rlimit(40)]
proof fn created_objects_kept(
    v: GraphView,
    w: GraphView,
    m0: Seq<u8>,
    f0: FrameAllocator<'_>,
    m1: Seq<u8>,
    f1: FrameAllocator<'_>,
    active: u64,
    id: NodeId,
    phys: u64,
)
    requires
        v.wf(),
        v.paging_ok(m0, f0),
        v.runs_in(active),
        phys % 4096 == 0,
        phys < 0x10_0000_0000_0000,
        f0.free(phys as int / 4096),
        crate::spaces::shares_kernel(m0, m1, crate::paging::root_of(active), phys as int),
        v.same_objects(w),
        forall|t: NodeId| #[trigger] w.is_space(t) && (t != id || w == v) ==> v.is_space(t)
            && v.same_mappings(w, t),
        w != v ==> crate::vm::root_in(w, id) == phys,
        f1.wf(),
        f1.same_shape(f0),
        forall|f: int| #[trigger] f1.free(f) ==> f0.free(f),
    ensures
        w.objects_sound(m1, f1),
{
    let root = crate::paging::root_of(active);
    let k = choose|k: NodeId| #[trigger]
        v.is_space(k) && crate::vm::root_in(v, k) == crate::paging::root_of(active);
    assert forall|m: NodeId| #[trigger] w.is_object(m) implies table_kept(v.holding(m), m0, m1) by {
        if let Reclaim::PagedMemory { table_phys, table_pages, pages } = v.holding(m) {
            assert forall|a: int|
                table_phys <= a < table_phys + 4096 * table_pages && a
                    < m0.len() implies #[trigger] m1[a] == m0[a] by {
                let f = a / 4096;
                assert(v.is_object(m));
                assert(v.holds_frame(m0, m, f));
                assert(!f0.free(f));
            }
        }
    }
    assert forall|m: NodeId, f: int, t: NodeId|
        w.is_object(m) && #[trigger] v.holds_frame(m0, m, f) && #[trigger] w.is_space(
            t,
        ) implies !crate::tables::has_table(m1, crate::vm::root_in(w, t), 4096 * f) by {
        let rt = crate::vm::root_in(w, t);
        assert(v.is_object(m));
        assert(!f0.free(f));
        assert(v.is_space(k));
        assert(!crate::tables::has_table(m0, root, 4096 * f));
        if crate::tables::has_table(m1, rt, 4096 * f) {
            let q = choose|q: Seq<int>| #[trigger]
                crate::tables::is_table(m1, rt, q) && crate::tables::table_at(m1, rt, q) == Some(
                    4096 * f,
                );
            if t == id && w != v {
                if q.len() > 0 {
                    crate::spaces::shared_tables(f0, m0, m1, root, phys as int, q);
                    assert(crate::tables::is_table(m0, root, q));
                } else {
                    assert(4096 * f == phys);
                    assert(phys as int / 4096 == f);
                }
            } else {
                assert(v.is_space(t));
                assert(!crate::tables::has_table(m0, rt, 4096 * f));
                free_frame_written(m0, f0, m1, f1, rt, phys as int);
                assert(crate::tables::table_at(m0, rt, q) == Some(4096 * f));
                assert(crate::tables::is_table(m0, rt, q));
            }
        }
    }
    assert forall|m: NodeId, f: int|
        w.is_object(m) && #[trigger] v.holds_frame(m0, m, f) implies !f1.free(f) by {
        assert(v.is_object(m));
    }
    objects_kept(v, w, m0, f0, m1, f1);
}

/// Creating a space keeps the page tables a cache of the edges: the new one
/// has neither mappings nor entries, and no other space can tell.
#[verifier::rlimit(40)]
pub proof fn creating_keeps_tables(
    g0: Graph,
    m0: Seq<u8>,
    f0: FrameAllocator<'_>,
    g1: Graph,
    m1: Seq<u8>,
    f1: FrameAllocator<'_>,
    active: u64,
    owner: NodeId,
    r: Result<Ref<AddressSpace>, VmError>,
    phys: u64,
)
    requires
        g0.wf(),
        g0@.paging_ok(m0, f0),
        g0@.runs_in(active),
        crate::vm::space_made_at(g0, m0, f0, g1, m1, Some(f1), active, owner, r, phys),
    ensures
        g1@.paging_ok(m1, f1),
{
    let v = g0@;
    let w = g1@;
    let root = crate::paging::root_of(active);
    running_space_apart(v, m0, f0, active);
    crate::tables::entry_bits(phys);
    assert forall|t: NodeId| v.is_space(t) implies #[trigger] crate::paging::same_lookups(
        m0,
        m1,
        crate::vm::root_in(v, t),
    ) && crate::paging::ready(f1, m1, crate::vm::root_in(v, t)) && (forall|p: Seq<int>|
        crate::tables::path_ok(p) ==> #[trigger] crate::tables::table_at(
            m1,
            crate::vm::root_in(v, t),
            p,
        ) == crate::tables::table_at(m0, crate::vm::root_in(v, t), p)) by {
        free_frame_written(m0, f0, m1, f1, crate::vm::root_in(v, t), phys as int);
    }
    assert forall|t: NodeId, u: NodeId|
        v.is_space(t) && v.is_space(u) && t != u implies #[trigger] private(
        m1,
        crate::vm::root_in(v, t),
        crate::vm::root_in(v, u),
    ) by {
        assert(crate::paging::same_lookups(m0, m1, crate::vm::root_in(v, t)));
        assert(crate::paging::same_lookups(m0, m1, crate::vm::root_in(v, u)));
        strangers_kept(m0, m1, crate::vm::root_in(v, t), crate::vm::root_in(v, u));
    }
    if r is Ok {
        let id = r->Ok_0.id();
        created_mappings(v, owner, id, phys, g0.next_edge());
        assert(crate::vm::root_in(w, id) == phys);
        assert forall|t: NodeId| #[trigger] w.is_space(t) implies crate::paging::ready(
            f1,
            m1,
            crate::vm::root_in(w, t),
        ) && (w.user_space(t) ==> w.ranges_sound(t)) by {
            if t != id {
                assert(v.is_space(t));
                assert(crate::paging::same_lookups(m0, m1, crate::vm::root_in(v, t)));
                if w.user_space(t) {
                    same_ranges_sound(v, w, t);
                }
            }
        }
        assert(id.kind() == Some(NodeKind::AddressSpace));
        created_objects_kept(v, w, m0, f0, m1, f1, active, id, phys);
        assert forall|t: NodeId, u: NodeId| #[trigger]
            w.is_space(t) && #[trigger] w.is_space(u) && t != u implies private(
            m1,
            crate::vm::root_in(w, t),
            crate::vm::root_in(w, u),
        ) by {
            if t != id {
                assert(v.is_space(t));
                assert(crate::paging::same_lookups(m0, m1, crate::vm::root_in(v, t)));
            }
            if u != id {
                assert(v.is_space(u));
                assert(crate::paging::same_lookups(m0, m1, crate::vm::root_in(v, u)));
            }
            if t == id {
                fresh_root_private(v, m0, f0, m1, root, phys as int, u);
            } else if u == id {
                fresh_root_private(v, m0, f0, m1, root, phys as int, t);
            } else {
                assert(private(m1, crate::vm::root_in(v, t), crate::vm::root_in(v, u)));
            }
        }
        assert forall|t: NodeId| #[trigger] w.user_space(t) implies w.backed(m1, t) && w.accounted(
            m1,
            t,
        ) by {
            assert(w.is_space(t));
            if t != id {
                assert(v.is_space(t) && v.user_space(t));
                assert(crate::paging::same_lookups(m0, m1, crate::vm::root_in(v, t)));
                space_kept(v, w, m0, m1, t);
            } else {
                assert forall|x: u64| x < USER_END implies #[trigger] crate::tables::lookup(
                    m1,
                    phys as int,
                    x,
                ) is None by {
                    assert(x < 0x8000_0000_0000 ==> (x >> 39) & 0x1FF < 256) by (bit_vector);
                    crate::tables::paths_differ(x, x);
                    crate::spaces::shared_tables(
                        f0,
                        m0,
                        m1,
                        root,
                        phys as int,
                        crate::tables::path_of(x),
                    );
                }
            }
        }
    } else {
        assert(w == v);
        assert forall|t: NodeId| #[trigger] w.is_space(t) implies crate::paging::ready(
            f1,
            m1,
            crate::vm::root_in(w, t),
        ) by {
            assert(crate::paging::same_lookups(m0, m1, crate::vm::root_in(v, t)));
        }
        created_objects_kept(v, w, m0, f0, m1, f1, active, owner, phys);
        assert forall|t: NodeId| #[trigger] w.user_space(t) implies w.backed(m1, t) && w.accounted(
            m1,
            t,
        ) by {
            assert(v.is_space(t));
            assert(crate::paging::same_lookups(m0, m1, crate::vm::root_in(v, t)));
            space_kept(v, w, m0, m1, t);
        }
    }
}

} // verus!
