//! Memory goes back when what held it is gone: all of it, and no other.

use vstd::prelude::*;

use crate::body::Body;
use crate::frames::FrameAllocator;
use crate::id::NodeId;
use crate::view::GraphView;

verus! {

/// A node holds a frame that goes back to the pool with it. A memory object
/// does, unless it is a device's (flag one) or pinned (flag two): each frame it
/// stands for, or, where it is paged (flag four), each that its table names
/// and the table's own. A space of a user does: its root, and every table that
/// hangs below its user half.
pub open spec fn owes(body: Body, mem: Seq<u8>, f: int) -> bool {
    match body {
        Body::MemoryObject(m) => if m.flags.0 & 4 == 4 {
            ||| exists|i: int|
                0 <= i < m.pages && #[trigger] crate::mem::word(mem, m.frames_phys + 8 * i) != 0
                    && crate::mem::word(mem, m.frames_phys + 8 * i) as int / 4096 == f
            ||| m.frames_phys as int / 4096 <= f < m.frames_phys as int / 4096 + m.frames_pages
        } else {
            m.flags.0 & 1 == 0 && m.flags.0 & 2 == 0 && m.phys_base as int / 4096 <= f
                < m.phys_base as int / 4096 + m.pages
        },
        Body::AddressSpace(s) => s.pml4_phys != 0 && s.is_kernel == 0 && (crate::laws_hardware::leads_to(
            s.pml4_phys,
        ) == 4096 * f || below_user_half(mem, crate::laws_hardware::leads_to(s.pml4_phys), f)),
        _ => false,
    }
}

/// A table hangs below one of the first 256 entries of a root.
pub open spec fn below_user_half(mem: Seq<u8>, root: int, f: int) -> bool {
    exists|p: Seq<int>| #[trigger]
        crate::tables::is_table(mem, root, p) && p.len() > 0 && p[0] < 256
            && crate::tables::table_at(mem, root, p) == Some(4096 * f)
}

proof fn owing_is_giving_back(body: Body, mem: Seq<u8>, f: int)
    ensures
        crate::reaper::gives_back(crate::reap::reclaim_of(body), mem, f) <==> owes(body, mem, f),
{
    match body {
        Body::MemoryObject(m) => {
            let x = m.flags.0;
            assert((x & 1 == 0 <==> x & 1 != 1) && (x & 2 == 0 <==> x & 2 != 2)) by (bit_vector);
            if m.flags.0 & 4 == 4 {
                if owes(body, mem, f) && !(m.frames_phys as int / 4096 <= f < m.frames_phys as int
                    / 4096 + m.frames_pages) {
                    let i = choose|i: int|
                        0 <= i < m.pages && #[trigger] crate::mem::word(mem, m.frames_phys + 8 * i)
                            != 0 && crate::mem::word(mem, m.frames_phys + 8 * i) as int / 4096
                            == f;
                    assert(crate::reaper::spec_frame_entry(mem, m.frames_phys, i) != 0);
                }
                if crate::reaper::page_frame(mem, m.frames_phys, m.pages as int, f) {
                    let i = choose|i: int|
                        0 <= i < m.pages && #[trigger] crate::reaper::spec_frame_entry(
                            mem,
                            m.frames_phys,
                            i,
                        ) != 0 && crate::reaper::spec_frame_entry(mem, m.frames_phys, i) as int
                            / 4096 == f;
                    assert(crate::mem::word(mem, m.frames_phys + 8 * i) != 0);
                }
            }
        },
        Body::AddressSpace(s) => {
            crate::laws_hardware::entry_parts(s.pml4_phys);
            let root = crate::paging::root_of(s.pml4_phys);
            hanging_is_below(mem, root, f);
        },
        _ => {},
    }
}

proof fn hanging_is_below(mem: Seq<u8>, root: int, f: int)
    ensures
        crate::spaces::hangs(mem, root, Seq::empty(), 256, f) <==> below_user_half(mem, root, f),
{
    if below_user_half(mem, root, f) {
        let p = choose|p: Seq<int>| #[trigger]
            crate::tables::is_table(mem, root, p) && p.len() > 0 && p[0] < 256
                && crate::tables::table_at(mem, root, p) == Some(4096 * f);
        assert(p.take(0) =~= Seq::<int>::empty());
        assert(crate::tables::is_table(mem, root, p));
    }
}

/// Once the reaper rests, a frame is free that was, and one that a node owed
/// that is gone; and no other is.
pub proof fn the_pool_gets_what_it_is_owed(
    v: GraphView,
    w: GraphView,
    fa: FrameAllocator<'_>,
    fb: FrameAllocator<'_>,
    mem: Seq<u8>,
    f: int,
)
    requires
        crate::reaper::frames_returned(v, w, Some(fa), Some(fb), mem),
        0 <= f < fa.total_frames,
    ensures
        fb.free(f) <==> fa.free(f) || exists|id: NodeId|
            v.live(id) && !w.live(id) && owes((#[trigger] v.nodes[id]).body, mem, f),
{
    assert(fb.free(f) <==> fa.free(f) || crate::reaper::came_back(v, w, mem, f));
    if crate::reaper::came_back(v, w, mem, f) {
        let id = choose|id: NodeId| #[trigger]
            v.nodes.contains_key(id) && !w.nodes.contains_key(id) && crate::reaper::gives_back(
                crate::reap::reclaim_of(v.nodes[id].body),
                mem,
                f,
            );
        owing_is_giving_back(v.nodes[id].body, mem, f);
        assert(v.live(id) && !w.live(id) && owes(v.nodes[id].body, mem, f));
    }
    if exists|id: NodeId| v.live(id) && !w.live(id) && owes((#[trigger] v.nodes[id]).body, mem, f) {
        let id = choose|id: NodeId|
            v.live(id) && !w.live(id) && owes((#[trigger] v.nodes[id]).body, mem, f);
        owing_is_giving_back(v.nodes[id].body, mem, f);
        assert(v.nodes.contains_key(id));
    }
}

} // verus!
