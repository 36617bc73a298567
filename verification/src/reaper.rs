//! Draining the graph's pending deletions.
//!
//! `Graph::reap_step` does one bounded unit of work and reports what it freed;
//! the graph never touches physical memory itself. This module is the other
//! half: it clears the page-table entries of a mapping that goes, so that no
//! space can reach memory that is about to be somebody else's, returns frames
//! and page tables to the allocator, and notices threads whose wait was torn
//! down under them. Whoever calls it flushes what the processor remembers of
//! the tables.
//!
//! It must never run in an interrupt handler, which is the whole reason
//! deletion is two-phase.

use vstd::prelude::*;

use crate::body::{AddressSpace, MemFlags, NodeBody};
use crate::edge::{Dir, EdgeAttr, MapsAttr};
use crate::frames::FrameAllocator;
use crate::graph::Graph;
use crate::id::{EdgeId, EdgeKind, NodeId};
use crate::paging::unmap_pages;
use crate::reap::{ReapStep, Reclaim};
use crate::spaces::free_user_tables;
use crate::view::GraphView;

verus! {

#[derive(Clone, Copy, Debug, PartialEq, Eq, Structural)]
pub struct ReapReport {
    pub nodes_freed: u32,
    pub frames_returned: u64,
    pub tables_returned: u32,
    pub waits_aborted: u32,
    /// The last thread stranded by a destroyed wait target.
    pub last_aborted: NodeId,
}

impl ReapReport {
    pub open spec fn spec_empty() -> ReapReport {
        ReapReport {
            nodes_freed: 0,
            frames_returned: 0,
            tables_returned: 0,
            waits_aborted: 0,
            last_aborted: NodeId(0),
        }
    }

    /// Nothing reaped yet.
    pub fn empty() -> (r: ReapReport)
        ensures
            r == ReapReport::spec_empty(),
    {
        ReapReport {
            nodes_freed: 0,
            frames_returned: 0,
            tables_returned: 0,
            waits_aborted: 0,
            last_aborted: NodeId::null(),
        }
    }

    /// There is room to count one more of everything.
    pub open spec fn has_room(self) -> bool {
        &&& self.nodes_freed < u32::MAX
        &&& self.tables_returned < u32::MAX
        &&& self.waits_aborted < u32::MAX
        &&& self.frames_returned <= u64::MAX - 0x2_0000_0000
    }
}

impl Default for ReapReport {
    fn default() -> (r: ReapReport)
        ensures
            r == ReapReport::spec_empty(),
    {
        ReapReport::empty()
    }
}

// -------------------------------------------------------------- reclaiming ---

/// Entry `i` of a frame table.
pub open spec fn spec_frame_entry(mem: Seq<u8>, table: u64, i: int) -> u64 {
    crate::mem::word(mem, table + 8 * i)
}

/// Entry `i` of the frame table of a paged object: the frame behind its page
/// `i`, or zero if that page was never made real.
pub fn frame_entry(mem: &[u8], table: u64, i: u64) -> (r: u64)
    requires
        table + 8 * i + 8 <= mem@.len(),
    ensures
        r == spec_frame_entry(mem@, table, i as int),
{
    proof {
        reveal(crate::mem::word);
    }
    assert(mem.len() == mem@.len());
    crate::mem::read_u64(mem, (table + 8 * i) as usize)
}

/// How many of the first `n` pages of a paged object were made real.
pub open spec fn pages_real(mem: Seq<u8>, table: u64, n: int) -> int
    decreases n,
{
    if n <= 0 {
        0
    } else {
        pages_real(mem, table, n - 1) + if spec_frame_entry(mem, table, n - 1) != 0 {
            1int
        } else {
            0
        }
    }
}

/// Frame `f` is behind one of the first `n` pages.
pub open spec fn page_frame(mem: Seq<u8>, table: u64, n: int, f: int) -> bool {
    exists|i: int|
        0 <= i < n && #[trigger] spec_frame_entry(mem, table, i) != 0 && spec_frame_entry(
            mem,
            table,
            i,
        ) as int / 4096 == f
}

/// Memory with these flags goes back to the pool. Device memory was never
/// ours, and pinned memory is the kernel's own.
pub open spec fn returnable(flags: MemFlags) -> bool {
    !flags.spec_contains(MemFlags(1)) && !flags.spec_contains(MemFlags(2))
}

/// Frame `f` goes back to the pool.
pub open spec fn gives_back(rc: Reclaim, mem: Seq<u8>, f: int) -> bool {
    match rc {
        Reclaim::Nothing => false,
        Reclaim::Frames { phys, pages, flags } => returnable(flags) && phys as int / 4096 <= f
            < phys as int / 4096 + pages,
        Reclaim::PagedMemory { table_phys, table_pages, pages } => page_frame(
            mem,
            table_phys,
            pages as int,
            f,
        ) || table_phys as int / 4096 <= f < table_phys as int / 4096 + table_pages,
        Reclaim::PageTables { pml4_phys } => crate::spaces::user_table(
            mem,
            crate::paging::root_of(pml4_phys),
            f,
        ),
    }
}

/// A run of frames that goes back starts at `f`.
pub open spec fn run_back(rc: Reclaim, mem: Seq<u8>, f: int) -> bool {
    match rc {
        Reclaim::Nothing => false,
        Reclaim::Frames { phys, flags, .. } => returnable(flags) && f == phys as int / 4096,
        Reclaim::PagedMemory { table_phys, pages, .. } => page_frame(
            mem,
            table_phys,
            pages as int,
            f,
        ) || f == table_phys as int / 4096,
        Reclaim::PageTables { pml4_phys } => crate::spaces::user_table(
            mem,
            crate::paging::root_of(pml4_phys),
            f,
        ),
    }
}

/// How many frames of memory objects that is.
pub open spec fn frames_back(rc: Reclaim, mem: Seq<u8>) -> int {
    match rc {
        Reclaim::Frames { pages, flags, .. } => if returnable(flags) {
            pages as int
        } else {
            0
        },
        Reclaim::PagedMemory { table_phys, table_pages, pages } => pages_real(
            mem,
            table_phys,
            pages as int,
        ) + table_pages,
        _ => 0,
    }
}

/// What is to be reclaimed is really there: a frame table lies in memory, and
/// page tables are page tables.
pub open spec fn reclaimable(rc: Reclaim, mem: Seq<u8>) -> bool {
    match rc {
        Reclaim::Nothing => true,
        Reclaim::Frames { phys, pages, flags } => returnable(flags) ==> phys as int / 4096 + pages
            <= usize::MAX,
        Reclaim::PagedMemory { table_phys, table_pages, pages } => {
            &&& table_phys + 8 * pages <= mem.len()
            &&& table_phys as int / 4096 + table_pages <= usize::MAX
            &&& forall|i: int|
                0 <= i < pages ==> #[trigger] spec_frame_entry(mem, table_phys, i) as int / 4096
                    < usize::MAX
        },
        Reclaim::PageTables { pml4_phys } => crate::tables::tree(
            mem,
            crate::paging::root_of(pml4_phys),
        ) && pml4_phys < 0x10_0000_0000_0000,
    }
}

/// The allocator got back what was reclaimed.
pub open spec fn reclaimed(
    f0: FrameAllocator<'_>,
    f1: FrameAllocator<'_>,
    mem: Seq<u8>,
    rc: Reclaim,
) -> bool {
    &&& f1.wf()
    &&& f1.same_shape(f0)
    &&& forall|f: int| #[trigger]
        f1.free(f) <==> f0.free(f) || (0 <= f < f0.total_frames && gives_back(rc, mem, f))
    &&& crate::frames::lowered(f0.hint as int, f1.hint as int, |f: int| run_back(rc, mem, f))
}

/// The sweep starts no later than at the frame of one page more.
proof fn one_page_more(mem: Seq<u8>, table: u64, i: int, h0: int, h1: int)
    requires
        0 <= i,
        1 <= h0,
        crate::frames::lowered(h0, h1, |f: int| page_frame(mem, table, i, f)),
    ensures
        ({
            let frame = spec_frame_entry(mem, table, i);
            let given = |f: int| page_frame(mem, table, i + 1, f);
            if frame != 0 {
                crate::frames::lowered(
                    h0,
                    crate::frames::hint_back(h1, frame as int / 4096),
                    given,
                )
            } else {
                crate::frames::lowered(h0, h1, given)
            }
        }),
{
    let frame = spec_frame_entry(mem, table, i);
    let first = |f: int| page_frame(mem, table, i, f);
    let given = |f: int| page_frame(mem, table, i + 1, f);
    assert forall|f: int| #[trigger]
        given(f) <==> first(f) || (frame != 0 && f == frame as int / 4096) by {
        if page_frame(mem, table, i, f) {
            let k = choose|k: int|
                0 <= k < i && #[trigger] spec_frame_entry(mem, table, k) != 0 && spec_frame_entry(
                    mem,
                    table,
                    k,
                ) as int / 4096 == f;
            assert(spec_frame_entry(mem, table, k) != 0);
        }
        if page_frame(mem, table, i + 1, f) {
            let k = choose|k: int|
                0 <= k < i + 1 && #[trigger] spec_frame_entry(mem, table, k) != 0
                    && spec_frame_entry(mem, table, k) as int / 4096 == f;
            if k < i {
                assert(page_frame(mem, table, i, f));
            }
        }
    }
    if frame != 0 {
        crate::frames::lowered_more(h0, h1, frame as int / 4096, first, given);
    } else {
        crate::frames::lowered_both(h0, h1, h1, first, |f: int| false, given);
    }
}

/// Walk a frame table and give back whichever pages were ever touched. The
/// graph knows the object had these pages; only the table knows which of them
/// were made real.
fn free_paged(mem: &[u8], table: u64, pages: u32, fa: &mut FrameAllocator<'_>) -> (r: u64)
    requires
        old(fa).wf(),
        table + 8 * pages <= mem@.len(),
        forall|i: int|
            0 <= i < pages ==> #[trigger] spec_frame_entry(mem@, table, i) as int / 4096
                < usize::MAX,
    ensures
        final(fa).wf(),
        final(fa).same_shape(*old(fa)),
        forall|f: int| #[trigger]
            final(fa).free(f) <==> old(fa).free(f) || (0 <= f < old(fa).total_frames && page_frame(
                mem@,
                table,
                pages as int,
                f,
            )),
        crate::frames::lowered(
            old(fa).hint as int,
            final(fa).hint as int,
            |f: int| page_frame(mem@, table, pages as int, f),
        ),
        r == pages_real(mem@, table, pages as int),
        r <= pages,
{
    let ghost f0 = *fa;
    proof {
        crate::frames::lowered_none(fa.hint as int, |f: int| page_frame(mem@, table, 0, f));
    }
    let mut n: u64 = 0;
    let mut i: u32 = 0;
    while i < pages
        invariant
            i <= pages,
            n <= i,
            n == pages_real(mem@, table, i as int),
            f0 == *old(fa),
            fa.wf(),
            fa.same_shape(f0),
            table + 8 * pages <= mem@.len(),
            forall|i: int|
                0 <= i < pages ==> #[trigger] spec_frame_entry(mem@, table, i) as int / 4096
                    < usize::MAX,
            forall|f: int| #[trigger]
                fa.free(f) <==> f0.free(f) || (0 <= f < f0.total_frames && page_frame(
                    mem@,
                    table,
                    i as int,
                    f,
                )),
            crate::frames::lowered(
                f0.hint as int,
                fa.hint as int,
                |f: int| page_frame(mem@, table, i as int, f),
            ),
        decreases pages - i,
    {
        let ghost f1 = *fa;
        let frame: u64 = frame_entry(mem, table, i as u64);
        assert(spec_frame_entry(mem@, table, i as int) == frame);
        if frame != 0 {
            fa.free_contiguous(frame, 1);
            n = n + 1;
        }
        proof {
            assert forall|f: int| #[trigger] fa.free(f) <==> f0.free(f) || (0 <= f
                < f0.total_frames && page_frame(mem@, table, i + 1, f)) by {
                assert(f1.free(f) <==> f0.free(f) || (0 <= f < f0.total_frames && page_frame(
                    mem@,
                    table,
                    i as int,
                    f,
                )));
                if page_frame(mem@, table, i as int, f) {
                    let k = choose|k: int|
                        0 <= k < i && #[trigger] spec_frame_entry(mem@, table, k) != 0
                            && spec_frame_entry(mem@, table, k) as int / 4096 == f;
                    assert(spec_frame_entry(mem@, table, k) != 0);
                }
                if page_frame(mem@, table, i + 1, f) {
                    let k = choose|k: int|
                        0 <= k < i + 1 && #[trigger] spec_frame_entry(mem@, table, k) != 0
                            && spec_frame_entry(mem@, table, k) as int / 4096 == f;
                    if k < i {
                        assert(page_frame(mem@, table, i as int, f));
                    }
                }
                if frame != 0 && f == frame as int / 4096 {
                    assert(spec_frame_entry(mem@, table, i as int) != 0);
                    assert(page_frame(mem@, table, i + 1, f));
                }
            }
            one_page_more(mem@, table, i as int, f0.hint as int, f1.hint as int);
        }
        i = i + 1;
    }
    n
}

/// Give back what a freed node held. Says how many frames of memory objects
/// and how many sets of page tables that was.
fn reclaim(mem: &[u8], rc: Reclaim, fa: &mut FrameAllocator<'_>) -> (r: (u64, u32))
    requires
        old(fa).wf(),
        reclaimable(rc, mem@),
    ensures
        reclaimed(*old(fa), *final(fa), mem@, rc),
        r.0 == frames_back(rc, mem@),
        r.0 <= 0x1_FFFF_FFFE,
        r.1 == if rc is PageTables {
            1u32
        } else {
            0
        },
{
    let ghost f0 = *fa;
    match rc {
        Reclaim::Nothing => {
            proof {
                crate::frames::lowered_none(fa.hint as int, |f: int| run_back(rc, mem@, f));
            }
            (0, 0)
        },
        Reclaim::Frames { phys, pages, flags } => {
            if !flags.contains(MemFlags::device()) && !flags.contains(MemFlags::pinned()) {
                fa.free_contiguous(phys, pages as usize);
                proof {
                    let h = f0.hint as int;
                    let given = |f: int| run_back(rc, mem@, f);
                    let none = |f: int| false;
                    crate::frames::lowered_none(h, none);
                    crate::frames::lowered_more(h, h, phys as int / 4096, none, given);
                }
                (pages as u64, 0)
            } else {
                proof {
                    crate::frames::lowered_none(fa.hint as int, |f: int| run_back(rc, mem@, f));
                }
                (0, 0)
            }
        },
        Reclaim::PagedMemory { table_phys, table_pages, pages } => {
            let n: u64 = free_paged(mem, table_phys, pages, fa);
            let ghost f1 = *fa;
            fa.free_contiguous(table_phys, table_pages as usize);
            proof {
                let first = |f: int| page_frame(mem@, table_phys, pages as int, f);
                let given = |f: int| run_back(rc, mem@, f);
                crate::frames::lowered_more(
                    f0.hint as int,
                    f1.hint as int,
                    table_phys as int / 4096,
                    first,
                    given,
                );
            }
            (n + table_pages as u64, 0)
        },
        Reclaim::PageTables { pml4_phys } => {
            free_user_tables(mem, pml4_phys, fa);
            proof {
                let first = |f: int|
                    crate::spaces::user_table(mem@, crate::paging::root_of(pml4_phys), f);
                let given = |f: int| run_back(rc, mem@, f);
                crate::frames::lowered_both(
                    f0.hint as int,
                    fa.hint as int,
                    fa.hint as int,
                    first,
                    |f: int| false,
                    given,
                );
            }
            (0, 1)
        },
    }
}

// ------------------------------------------------------------------ steps ---

/// The report with one more step in it.
pub open spec fn reported(
    rep: ReapReport,
    s: ReapStep,
    mem: Seq<u8>,
    allocator: bool,
) -> ReapReport {
    match s {
        ReapStep::Idle => rep,
        ReapStep::Progress => rep,
        ReapStep::AbortedWait { thread } => ReapReport {
            waits_aborted: (rep.waits_aborted + 1) as u32,
            last_aborted: thread,
            ..rep
        },
        ReapStep::Freed { reclaim, .. } => ReapReport {
            nodes_freed: (rep.nodes_freed + 1) as u32,
            frames_returned: (rep.frames_returned + if allocator {
                frames_back(reclaim, mem)
            } else {
                0
            }) as u64,
            tables_returned: (rep.tables_returned + if allocator && reclaim is PageTables {
                1int
            } else {
                0
            }) as u32,
            ..rep
        },
    }
}

/// What the allocator is after one step.
pub open spec fn frames_after(
    f0: Option<FrameAllocator<'_>>,
    f1: Option<FrameAllocator<'_>>,
    mem: Seq<u8>,
    s: ReapStep,
) -> bool {
    match f0 {
        None => f1 is None,
        Some(fa) => match s {
            ReapStep::Freed { reclaim, .. } => f1 matches Some(fb) && reclaimed(
                fa,
                fb,
                mem,
                reclaim,
            ),
            _ => f1 == f0,
        },
    }
}

/// The mapping of a user space that the next step removes.
pub open spec fn unmap_next(v: GraphView) -> Option<u32> {
    match v.cut_next() {
        Some(e) => if v.edges[e].kind == EdgeKind::Maps && v.space(v.edges[e].src).is_kernel == 0 {
            Some(e)
        } else {
            None
        },
        None => None,
    }
}

/// The tables that a mapping's entries are in are there to be cleared.
pub open spec fn clearable(v: GraphView, mem: Seq<u8>, e: u32) -> bool {
    v.maps(e).fits() && crate::tables::tree(mem, crate::vm::root_in(v, v.edges[e].src))
}

/// The entries of a mapping are gone, and nothing else is.
pub open spec fn cleared(v: GraphView, m0: Seq<u8>, m1: Seq<u8>, e: u32) -> bool {
    let a = v.maps(e);
    let n = a.len_pages as int;
    let root = crate::vm::root_in(v, v.edges[e].src);
    &&& crate::paging::leaves_changed(m0, m1, root, crate::paging::toward_run(a.vaddr, n))
    &&& crate::tables::tree(m1, root)
    &&& crate::paging::unmapped_run(m0, m1, root, a.vaddr, n)
}

/// What memory is after one step: where a mapping of a user space goes, its
/// entries go with it.
pub open spec fn memory_after(v: GraphView, m0: Seq<u8>, m1: Seq<u8>) -> bool {
    match unmap_next(v) {
        Some(e) => cleared(v, m0, m1, e),
        None => m1 == m0,
    }
}

/// Clear the entries of a mapping that is about to go, unless they are the
/// kernel's own, which never change after boot.
fn clear_mapping(g: &Graph, mem: &mut [u8], edge: EdgeId)
    requires
        g.wf(),
        g@.has_edge(edge),
        g@.edges[edge.idx()].kind == EdgeKind::Maps,
        g@.space(g@.edges[edge.idx()].src).is_kernel == 0 ==> clearable(
            g@,
            old(mem)@,
            edge.idx(),
        ),
    ensures
        if g@.space(g@.edges[edge.idx()].src).is_kernel == 0 {
            cleared(g@, old(mem)@, final(mem)@, edge.idx())
        } else {
            final(mem)@ == old(mem)@
        },
{
    let ghost v = g@;
    let (src, attr): (NodeId, MapsAttr) = match g.edge(edge) {
        Some(e) => (e.src, MapsAttr::decode(e.data)),
        None => return,
    };
    proof {
        assert(v.edges.contains_key(edge.idx()));
        assert(v.edge_ok(edge.idx()));
        assert(v.nodes.contains_key(src));
        assert(v.node_ok(src));
    }
    if let Some(space) = g.typed::<AddressSpace>(src) {
        if let Some(b) = g.body(space) {
            if b.is_kernel == 0 {
                unmap_pages(mem, b.pml4_phys, attr.vaddr, attr.len_pages);
            }
        }
    }
}

/// Do one step. Returns false when there is nothing left to do.
pub fn step(
    g: &mut Graph,
    mem: &mut [u8],
    frames: &mut Option<FrameAllocator<'_>>,
    report: &mut ReapReport,
) -> (r: bool)
    requires
        old(g).wf(),
        old(g).seq + 4 <= u64::MAX,
        old(report).has_room(),
        *old(frames) matches Some(fa) ==> fa.wf(),
        old(g)@.live(old(g)@.dying_head) ==> reclaimable(
            crate::reap::reclaim_of(old(g)@.nodes[old(g)@.dying_head].body),
            old(mem)@,
        ),
        unmap_next(old(g)@) matches Some(e) ==> clearable(old(g)@, old(mem)@, e),
    ensures
        final(g).wf(),
        final(g)@ == old(g)@.reaped().0,
        r == !(old(g)@.reaped().1 is Idle),
        memory_after(old(g)@, old(mem)@, final(mem)@),
        *final(report) == reported(
            *old(report),
            old(g)@.reaped().1,
            old(mem)@,
            *old(frames) is Some,
        ),
        frames_after(*old(frames), *final(frames), old(mem)@, old(g)@.reaped().1),
        final(g).seq <= old(g).seq + 4,
        ({
            let s = old(g)@.reaped().1;
            &&& s is Idle ==> *final(g) == *old(g)
            &&& !(s is Freed) ==> final(g).live_nodes_total() == old(g).live_nodes_total()
            &&& s is Freed ==> final(g).live_nodes_total() + 1 == old(g).live_nodes_total()
                && final(g).edges.live == old(g).edges.live
            &&& s is AbortedWait || s is Progress && old(g)@.can_progress() ==> final(g).edges.live
                < old(g).edges.live
        }),
        final(g)@.since(old(g)@),
{
    // The entries go before the edge that accounts for them.
    if let Some(e) = g.next_mapping_cut() {
        clear_mapping(g, mem, e);
    }
    match g.reap_step() {
        ReapStep::Idle => false,
        ReapStep::Progress => true,
        ReapStep::AbortedWait { thread } => {
            report.waits_aborted = report.waits_aborted + 1;
            report.last_aborted = thread;
            true
        },
        ReapStep::Freed { id, reclaim: rc } => {
            report.nodes_freed = report.nodes_freed + 1;
            match frames {
                Some(fa) => {
                    let (n, t): (u64, u32) = reclaim(mem, rc, fa);
                    report.frames_returned = report.frames_returned + n;
                    report.tables_returned = report.tables_returned + t;
                },
                None => {},
            }
            true
        },
    }
}

// ------------------------------------------------------------------- drain ---

/// The report on the first `n` steps of the reaper.
pub open spec fn reported_times(v: GraphView, n: nat, mem: Seq<u8>, allocator: bool) -> ReapReport
    decreases n,
{
    if n == 0 {
        ReapReport::spec_empty()
    } else {
        reported(
            reported_times(v, (n - 1) as nat, mem, allocator),
            v.reaped_times((n - 1) as nat).reaped().1,
            mem,
            allocator,
        )
    }
}

/// Every node of `w` was in `v`, and holds what it held there.
pub open spec fn same_holdings(v: GraphView, w: GraphView) -> bool {
    forall|id: NodeId| #[trigger]
        w.nodes.contains_key(id) ==> v.nodes.contains_key(id) && crate::reap::reclaim_of(
            w.nodes[id].body,
        ) == crate::reap::reclaim_of(v.nodes[id].body)
}

proof fn unlinking_keeps_holdings(v: GraphView, id: NodeId, dir: Dir, kind: EdgeKind)
    requires
        v.wf(),
        v.live(id),
    ensures
        same_holdings(v, v.unlink_first(id, dir, kind)),
{
    let s = v.list(id, dir, kind);
    assert(v.lists.contains_key((id, dir, kind)));
    assert(v.list_ok((id, dir, kind)));
    if s.len() > 0 {
        let e = s[0];
        assert(v.edges.contains_key(e));
        assert(v.edge_ok(e));
        let x = v.edges[e];
        assert(v.node_ok(x.src) && v.node_ok(x.dst)) by {
            assert(v.nodes.contains_key(x.src));
            assert(v.nodes.contains_key(x.dst));
        }
    }
}

/// Removing the first edge of a list keeps the graph well-formed.
pub proof fn unlinking_keeps_wf(v: GraphView, id: NodeId, dir: Dir, kind: EdgeKind)
    requires
        v.wf(),
        v.live(id),
    ensures
        v.unlink_first(id, dir, kind).wf(),
        v.unlink_first(id, dir, kind).live(id),
{
    let s = v.list(id, dir, kind);
    assert(v.lists.contains_key((id, dir, kind)));
    assert(v.list_ok((id, dir, kind)));
    if s.len() > 0 {
        assert(v.edges.contains_key(s[0]));
        crate::laws::unlink_wf(v, s[0]);
        crate::steps::unlink_keeps_nodes(v, s[0]);
    }
}

/// Beginning a deletion changes no node's holdings.
proof fn deleting_keeps_holdings(v: GraphView, id: NodeId)
    requires
        v.wf(),
    ensures
        same_holdings(v, v.deleted(id)),
{
    if v.live(id) && !v.dying(id) {
        assert(v.nodes.contains_key(id));
        assert(v.node_ok(id));
        let a = v.marked(id);
        crate::laws_reap::header_wf(v, id, a.nodes[id]);
        unlinking_keeps_holdings(a, id, Dir::In, EdgeKind::Owns);
        let b = a.unlink_first(id, Dir::In, EdgeKind::Owns);
        unlinking_keeps_wf(a, id, Dir::In, EdgeKind::Owns);
        unlinking_keeps_holdings(b, id, Dir::In, EdgeKind::Ready);
        let c = b.unlink_first(id, Dir::In, EdgeKind::Ready);
        unlinking_keeps_wf(b, id, Dir::In, EdgeKind::Ready);
        unlinking_keeps_holdings(c, id, Dir::Out, EdgeKind::Waiting);
        let d = c.unlink_first(id, Dir::Out, EdgeKind::Waiting);
        unlinking_keeps_wf(c, id, Dir::Out, EdgeKind::Waiting);
        let e = d.stopped(id);
        assert(d.nodes.contains_key(id));
        assert(d.node_ok(id));
        assert(same_holdings(d, e));
        assert(same_holdings(e, e.pending(id)));
    }
}

/// A step of the reaper changes no node's holdings, and takes one node out
/// only where it says it freed it.
pub proof fn reaping_keeps_holdings(v: GraphView)
    requires
        v.wf(),
    ensures
        same_holdings(v, v.reaped().0),
        v.reaped().1 matches ReapStep::Freed { id, reclaim } ==> v.live(id) && reclaim
            == crate::reap::reclaim_of(v.nodes[id].body) && v.reaped().0.nodes
            == v.nodes.remove(id),
        !(v.reaped().1 is Freed) ==> forall|x: NodeId| #[trigger]
            v.nodes.contains_key(x) ==> v.reaped().0.nodes.contains_key(x),
{
    let id = v.dying_head;
    if !id.is_null() && v.live(id) {
        let owns = v.list(id, Dir::Out, EdgeKind::Owns);
        if owns.len() > 0 {
            let child = v.edges[owns[0]].dst;
            deleting_keeps_holdings(v, child);
            deleting_keeps_nodes(v, child);
        } else if let Some((d, k)) = v.next_list(id) {
            unlinking_keeps_holdings(v, id, d, k);
            crate::steps::unlink_first_keeps_nodes(v, id, d, k);
        }
    }
}

proof fn deleting_keeps_nodes(v: GraphView, id: NodeId)
    requires
        v.wf(),
    ensures
        forall|x: NodeId| #[trigger]
            v.nodes.contains_key(x) ==> v.deleted(id).nodes.contains_key(x),
{
    if v.live(id) && !v.dying(id) {
        assert(v.nodes.contains_key(id));
        let a = v.marked(id);
        crate::laws_reap::header_wf(v, id, a.nodes[id]);
        crate::steps::unlink_first_keeps_nodes(a, id, Dir::In, EdgeKind::Owns);
        unlinking_keeps_wf(a, id, Dir::In, EdgeKind::Owns);
        let b = a.unlink_first(id, Dir::In, EdgeKind::Owns);
        crate::steps::unlink_first_keeps_nodes(b, id, Dir::In, EdgeKind::Ready);
        unlinking_keeps_wf(b, id, Dir::In, EdgeKind::Ready);
        let c = b.unlink_first(id, Dir::In, EdgeKind::Ready);
        crate::steps::unlink_first_keeps_nodes(c, id, Dir::Out, EdgeKind::Waiting);
        assert forall|x: NodeId| #[trigger] v.nodes.contains_key(x) implies v.deleted(
            id,
        ).nodes.contains_key(x) by {
            assert(a.nodes.contains_key(x));
            assert(b.nodes.contains_key(x));
            assert(c.nodes.contains_key(x));
        }
    }
}

/// Frame `f` was held by a node that is no longer there.
pub open spec fn came_back(v: GraphView, w: GraphView, mem: Seq<u8>, f: int) -> bool {
    exists|id: NodeId| #[trigger]
        v.nodes.contains_key(id) && !w.nodes.contains_key(id) && gives_back(
            crate::reap::reclaim_of(v.nodes[id].body),
            mem,
            f,
        )
}

/// A run of frames that a node held that is no longer there starts at `f`.
pub open spec fn run_came_back(v: GraphView, w: GraphView, mem: Seq<u8>, f: int) -> bool {
    exists|id: NodeId| #[trigger]
        v.nodes.contains_key(id) && !w.nodes.contains_key(id) && run_back(
            crate::reap::reclaim_of(v.nodes[id].body),
            mem,
            f,
        )
}

/// The allocator has what it had, and the frames of the nodes that are gone.
pub open spec fn frames_returned(
    v: GraphView,
    w: GraphView,
    f0: Option<FrameAllocator<'_>>,
    f1: Option<FrameAllocator<'_>>,
    mem: Seq<u8>,
) -> bool {
    match f0 {
        None => f1 is None,
        Some(fa) => f1 matches Some(fb) && fb.wf() && fb.same_shape(fa) && (forall|f: int| #[trigger]
            fb.free(f) <==> fa.free(f) || (0 <= f < fa.total_frames && came_back(v, w, mem, f)))
            && crate::frames::lowered(
            fa.hint as int,
            fb.hint as int,
            |f: int| run_came_back(v, w, mem, f),
        ),
    }
}

/// One more step keeps the account. Memory `m` is what the step finds, which
/// reads, as far as the node that goes is concerned, as `mem` did.
proof fn account_kept(
    v: GraphView,
    w: GraphView,
    f0: Option<FrameAllocator<'_>>,
    f1: Option<FrameAllocator<'_>>,
    f2: Option<FrameAllocator<'_>>,
    mem: Seq<u8>,
    m: Seq<u8>,
)
    requires
        w.wf(),
        same_holdings(v, w),
        f0 matches Some(fa) ==> fa.wf(),
        frames_returned(v, w, f0, f1, mem),
        frames_after(f1, f2, m, w.reaped().1),
        forall|id: NodeId| #[trigger]
            w.nodes.contains_key(id) ==> crate::laws_reclaim::reads_same(
                crate::reap::reclaim_of(w.nodes[id].body),
                mem,
                m,
            ),
    ensures
        same_holdings(v, w.reaped().0),
        frames_returned(v, w.reaped().0, f0, f2, mem),
{
    reaping_keeps_holdings(w);
    let x = w.reaped().0;
    if f0 is Some {
        let fa = f0->Some_0;
        let fb = f1->Some_0;
        let fc = f2->Some_0;
        assert forall|f: int| #[trigger] came_back(v, x, mem, f) <==> came_back(v, w, mem, f) || (
        w.reaped().1 matches ReapStep::Freed { id, reclaim } && gives_back(reclaim, m, f)) by {
            if came_back(v, w, mem, f) {
                let id = choose|id: NodeId| #[trigger]
                    v.nodes.contains_key(id) && !w.nodes.contains_key(id) && gives_back(
                        crate::reap::reclaim_of(v.nodes[id].body),
                        mem,
                        f,
                    );
                assert(!x.nodes.contains_key(id));
            }
            if came_back(v, x, mem, f) {
                let id = choose|id: NodeId| #[trigger]
                    v.nodes.contains_key(id) && !x.nodes.contains_key(id) && gives_back(
                        crate::reap::reclaim_of(v.nodes[id].body),
                        mem,
                        f,
                    );
                if w.nodes.contains_key(id) {
                    assert(gives_back(crate::reap::reclaim_of(w.nodes[id].body), m, f));
                }
            }
            if let ReapStep::Freed { id, reclaim } = w.reaped().1 {
                if gives_back(reclaim, m, f) {
                    assert(w.nodes.contains_key(id));
                    assert(v.nodes.contains_key(id));
                    assert(!x.nodes.contains_key(id));
                }
            }
        }
        assert forall|f: int| #[trigger]
            run_came_back(v, x, mem, f) <==> run_came_back(v, w, mem, f) || (
        w.reaped().1 matches ReapStep::Freed { id, reclaim } && run_back(reclaim, m, f)) by {
            if run_came_back(v, w, mem, f) {
                let id = choose|id: NodeId| #[trigger]
                    v.nodes.contains_key(id) && !w.nodes.contains_key(id) && run_back(
                        crate::reap::reclaim_of(v.nodes[id].body),
                        mem,
                        f,
                    );
                assert(!x.nodes.contains_key(id));
            }
            if run_came_back(v, x, mem, f) {
                let id = choose|id: NodeId| #[trigger]
                    v.nodes.contains_key(id) && !x.nodes.contains_key(id) && run_back(
                        crate::reap::reclaim_of(v.nodes[id].body),
                        mem,
                        f,
                    );
                if w.nodes.contains_key(id) {
                    assert(run_back(crate::reap::reclaim_of(w.nodes[id].body), m, f));
                }
            }
            if let ReapStep::Freed { id, reclaim } = w.reaped().1 {
                if run_back(reclaim, m, f) {
                    assert(w.nodes.contains_key(id));
                    assert(v.nodes.contains_key(id));
                    assert(!x.nodes.contains_key(id));
                }
            }
        }
        assert forall|f: int| #[trigger] fc.free(f) <==> fa.free(f) || (0 <= f < fa.total_frames
            && came_back(v, x, mem, f)) by {
            assert(fb.free(f) <==> fa.free(f) || (0 <= f < fa.total_frames && came_back(
                v,
                w,
                mem,
                f,
            )));
            assert(came_back(v, x, mem, f) <==> came_back(v, w, mem, f) || (
            w.reaped().1 matches ReapStep::Freed { id, reclaim } && gives_back(reclaim, m, f)));
        }
        let first = |f: int| run_came_back(v, w, mem, f);
        let second = |f: int|
            w.reaped().1 matches ReapStep::Freed { id, reclaim } && run_back(reclaim, m, f);
        let given = |f: int| run_came_back(v, x, mem, f);
        assert(crate::frames::lowered(fb.hint as int, fc.hint as int, second)) by {
            if let ReapStep::Freed { id, reclaim } = w.reaped().1 {
                let back = |f: int| run_back(reclaim, m, f);
                crate::frames::lowered_both(
                    fb.hint as int,
                    fc.hint as int,
                    fc.hint as int,
                    back,
                    |f: int| false,
                    second,
                );
            }
        }
        crate::frames::lowered_both(
            fa.hint as int,
            fb.hint as int,
            fc.hint as int,
            first,
            second,
            given,
        );
    }
}

/// What memory is after the first `n` steps of the reaper.
pub open spec fn memory_reaped(v: GraphView, n: nat, m0: Seq<u8>, m1: Seq<u8>) -> bool
    decreases n,
{
    if n == 0 {
        m1 == m0
    } else {
        exists|m: Seq<u8>|
            memory_reaped(v, (n - 1) as nat, m0, m) && #[trigger] memory_after(
                v.reaped_times((n - 1) as nat),
                m,
                m1,
            )
    }
}

proof fn one_step_more(v: GraphView, n: nat, m0: Seq<u8>, m: Seq<u8>, m1: Seq<u8>)
    requires
        memory_reaped(v, n, m0, m),
        memory_after(v.reaped_times(n), m, m1),
    ensures
        memory_reaped(v, n + 1, m0, m1),
{
    assert((n + 1 - 1) as nat == n);
}

/// Run to completion. Bounded only by the size of the dying subtree: every
/// node outside the ownership tree is gone, every frame that one of them held
/// is back, and so is every page-table entry that led to one.
#[verifier::rlimit(60)]
#[verifier::spinoff_prover]
pub fn drain(g: &mut Graph, mem: &mut [u8], frames: &mut Option<FrameAllocator<'_>>) -> (r:
    ReapReport)
    requires
        old(g).wf(),
        old(g)@.tree_inv(),
        old(g).seq <= u64::MAX - 0x1_0000,
        *old(frames) matches Some(fa) ==> fa.wf(),
        old(g)@.memory_sound(old(mem)@),
        forall|id: NodeId| #[trigger]
            old(g)@.nodes.contains_key(id) ==> reclaimable(
                crate::reap::reclaim_of(old(g)@.nodes[id].body),
                old(mem)@,
            ),
    ensures
        final(g).wf(),
        final(g)@.tree_inv(),
        final(g)@.dying_head.is_null(),
        forall|id: NodeId| #[trigger] final(g)@.live(id) <==> old(g)@.in_tree(id),
        forall|e: u32| #[trigger]
            final(g)@.edges.contains_key(e) <==> old(g)@.edges.contains_key(e) && old(g)@.in_tree(
                old(g)@.edges[e].src,
            ) && old(g)@.in_tree(old(g)@.edges[e].dst),
        final(g)@.trimmed(old(g)@),
        old(g)@.inv() && old(g)@.cpus_in_tree() ==> final(g)@.inv(),
        r.nodes_freed == old(g).live_nodes_total() - final(g).live_nodes_total(),
        exists|n: nat| #[trigger]
            old(g)@.reaped_times(n) == final(g)@ && r == reported_times(
                old(g)@,
                n,
                old(mem)@,
                *old(frames) is Some,
            ) && memory_reaped(old(g)@, n, old(mem)@, final(mem)@),
        frames_returned(old(g)@, final(g)@, *old(frames), *final(frames), old(mem)@),
        final(g)@.memory_sound(final(mem)@),
        old(g)@.tables_kept(old(mem)@, *old(frames)) ==> final(g)@.tables_kept(
            final(mem)@,
            *final(frames),
        ),
        final(g)@.since(old(g)@),
{
    let ghost g0 = *g;
    let ghost v0 = g@;
    let ghost m0 = mem@;
    let ghost f0 = *frames;
    let mut report = ReapReport::empty();
    let ghost mut steps: nat = 0;
    let ghost mut fuel: int = g.edges.live + g.live_nodes_total();
    let ghost first = fuel;
    proof {
        crate::arena::count_live_bound(g.edges.books().gens);
        crate::reap::few_nodes(*g);
        assert(g@.reaped_from(g@));
        assert forall|f: int| !#[trigger] came_back(v0, v0, m0, f) by {}
        assert forall|f: int| !#[trigger] run_came_back(v0, v0, m0, f) by {}
        assert(same_holdings(v0, v0));
        if f0 is Some {
            crate::frames::lowered_none(
                f0->Some_0.hint as int,
                |f: int| run_came_back(v0, v0, m0, f),
            );
        }
        assert(frames_returned(v0, v0, f0, f0, m0));
    }
    let mut more: bool = true;
    while more
        invariant
            g.wf(),
            g@.tree_inv(),
            g@.reaped_from(g0@),
            g@ == v0.reaped_times(steps),
            report == reported_times(v0, steps, m0, f0 is Some),
            memory_reaped(v0, steps, m0, mem@),
            g@.memory_sound(mem@),
            v0.tables_kept(m0, f0) ==> g@.tables_kept(mem@, *frames),
            *frames is Some == f0 is Some,
            g@.since(v0),
            g0 == *old(g),
            v0 == g0@,
            m0 == old(mem)@,
            f0 == *old(frames),
            f0 matches Some(fa) ==> fa.wf(),
            report.nodes_freed == g0.live_nodes_total() - g.live_nodes_total(),
            report.tables_returned <= report.nodes_freed,
            report.waits_aborted <= first - fuel,
            report.frames_returned <= report.nodes_freed * 0x1_FFFF_FFFE,
            g0@.inv() && g0@.cpus_in_tree() ==> g@.inv() && g@.cpus_in_tree(),
            g0.live_nodes_total() <= 921,
            fuel == g.edges.live + g.live_nodes_total(),
            0 <= fuel <= first <= 4096 + 921,
            g.seq + 4 * fuel + 4 <= u64::MAX,
            same_holdings(v0, g@),
            frames_returned(v0, g@, f0, *frames, m0),
            *frames matches Some(fa) ==> fa.wf(),
            forall|id: NodeId| #[trigger]
                g@.nodes.contains_key(id) ==> crate::laws_reclaim::reads_same(
                    crate::reap::reclaim_of(g@.nodes[id].body),
                    m0,
                    mem@,
                ),
            !more ==> g@.dying_head.is_null(),
        decreases
            if more {
                fuel + 1
            } else {
                0
            },
    {
        let ghost before = g@;
        let ghost mb = mem@;
        let ghost fb = *frames;
        let ghost rep = report;
        proof {
            crate::laws_reap::reaping_keeps_the_tree(before);
            crate::laws_reap::reaping_spares_the_tree(before);
            if g0@.inv() && g0@.cpus_in_tree() {
                crate::laws_reap::no_cpu_is_reaped(before);
                crate::laws_reap::reaping_keeps_invariants(before);
                crate::laws_reap::cpus_stay(before, before.reaped().0);
            }
            assert(report.has_room()) by (nonlinear_arith)
                requires
                    report.nodes_freed <= 921,
                    report.tables_returned <= report.nodes_freed,
                    report.waits_aborted <= 5017,
                    report.frames_returned <= report.nodes_freed * 0x1_FFFF_FFFE,
            ;
            if before.live(before.dying_head) {
                assert(before.nodes.contains_key(before.dying_head));
            }
            crate::laws_reclaim::next_is_clearable(before, mb);
        }
        more = step(g, mem, frames, &mut report);
        proof {
            steps = steps + 1;
            crate::laws_reap::reaped_from_is_transitive(g0@, before, g@);
            account_kept(v0, before, f0, fb, *frames, m0, mb);
            crate::laws_reclaim::reaping_keeps_memory(before, mb, mem@);
            crate::laws_reclaim::still_reads_same(before, m0, mb, mem@);
            if v0.tables_kept(m0, f0) && f0 is Some {
                crate::laws_reclaim::reaping_keeps_tables(
                    before,
                    mb,
                    fb->Some_0,
                    mem@,
                    (*frames)->Some_0,
                );
            }
            if let ReapStep::Freed { id, reclaim } = before.reaped().1 {
                reaping_keeps_holdings(before);
                assert(before.nodes.contains_key(id));
                frames_back_bound(reclaim, m0);
                assert((rep.nodes_freed + 1) * 0x1_FFFF_FFFE == rep.nodes_freed * 0x1_FFFF_FFFE
                    + 0x1_FFFF_FFFE) by (nonlinear_arith);
            }
            one_step_more(v0, (steps - 1) as nat, m0, mb, mem@);
            fuel = g.edges.live + g.live_nodes_total();
        }
    }
    proof {
        assert forall|id: NodeId| #[trigger] g@.live(id) <==> g0@.in_tree(id) by {
            crate::laws_reap::reaping_destroys_exactly_the_detached(g0@, g@, id);
        }
        crate::laws_delete::the_reaper_only_takes_away(g0@, steps);
        crate::laws_delete::edges_left(g0@, g@);
    }
    report
}

proof fn frames_back_bound(rc: Reclaim, mem: Seq<u8>)
    ensures
        0 <= frames_back(rc, mem) <= 0x1_FFFF_FFFE,
{
    if let Reclaim::PagedMemory { table_phys, table_pages, pages } = rc {
        pages_real_bound(mem, table_phys, pages as int);
    }
}

proof fn pages_real_bound(mem: Seq<u8>, table: u64, n: int)
    requires
        0 <= n,
    ensures
        0 <= pages_real(mem, table, n) <= n,
    decreases n,
{
    if n > 0 {
        pages_real_bound(mem, table, n - 1);
    }
}

} // verus!
