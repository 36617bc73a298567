//! What everything else keeps: that the page tables are a cache of the edges
//! is no business of an operation that leaves the spaces, the memory objects
//! and the mappings alone, nor of a write to memory that is no page table.

use vstd::prelude::*;

use crate::body::Body;
use crate::edge::{Dir, EdgeAttr};
use crate::frames::FrameAllocator;
use crate::id::{EdgeKind, NodeId, NodeKind};
use crate::reap::Reclaim;
use crate::view::GraphView;

verus! {

/// Nodes of this kind are about memory.
pub open spec fn about_memory(id: NodeId) -> bool {
    id.kind() == Some(NodeKind::AddressSpace) || id.kind() == Some(NodeKind::MemoryObject)
}

impl GraphView {
    /// Every space and every object of `w` is one here, has the page tables
    /// or holds the frames that it has here, and a user space maps what it
    /// maps here.
    pub open spec fn same_paging(self, w: GraphView) -> bool {
        &&& forall|t: NodeId| #[trigger]
            w.is_space(t) ==> self.is_space(t) && w.space(t).pml4_phys == self.space(t).pml4_phys
                && w.space(t).is_kernel == self.space(t).is_kernel && (w.user_space(t)
                ==> self.same_mappings(w, t))
        &&& self.same_objects(w)
    }

    /// Between the two states nothing happened to spaces, objects and mappings.
    pub open spec fn quiet(self, w: GraphView) -> bool {
        &&& forall|t: NodeId| #[trigger] self.same_node(w, t)
        &&& forall|e: u32| #[trigger] self.same_map_edge(w, e)
    }

    /// A node that is about memory is in both or in neither, with the same
    /// body and, if it is a space, the same mappings.
    pub open spec fn same_node(self, w: GraphView, t: NodeId) -> bool {
        about_memory(t) ==> {
            &&& w.nodes.contains_key(t) <==> self.nodes.contains_key(t)
            &&& self.nodes.contains_key(t) ==> w.nodes[t].body == self.nodes[t].body
            &&& self.nodes.contains_key(t) && t.kind() == Some(NodeKind::AddressSpace) ==> w.list(
                t,
                Dir::Out,
                EdgeKind::Maps,
            ) == self.list(t, Dir::Out, EdgeKind::Maps)
        }
    }

    pub open spec fn same_map_edge(self, w: GraphView, e: u32) -> bool {
        self.edges.contains_key(e) && self.edges[e].kind == EdgeKind::Maps ==> w.edges.contains_key(
            e,
        ) && w.edges[e] == self.edges[e]
    }

    /// Frame `f` is no page table of any space.
    pub open spec fn no_table(self, mem: Seq<u8>, f: int) -> bool {
        forall|s: NodeId| #[trigger]
            self.is_space(s) ==> !crate::tables::has_table(
                mem,
                crate::vm::root_in(self, s),
                4096 * f,
            )
    }

    /// No object holds frame `f`.
    pub open spec fn unheld(self, mem: Seq<u8>, f: int) -> bool {
        forall|m: NodeId| #[trigger] self.is_object(m) ==> !self.holds_frame(mem, m, f)
    }

    /// Frame `f` may be written to: it is no page table, and no part of a
    /// paged object.
    pub open spec fn writable(self, mem: Seq<u8>, f: int) -> bool {
        &&& self.no_table(mem, f)
        &&& forall|m: NodeId| #[trigger]
            self.is_object(m) && self.holding(m) is PagedMemory ==> !self.holds_frame(mem, m, f)
    }
}

/// What happens to other things does not change what is mapped and held.
pub proof fn quiet_is_same_paging(v: GraphView, w: GraphView)
    requires
        v.wf(),
        v.quiet(w),
    ensures
        v.same_paging(w),
{
    assert forall|t: NodeId| #[trigger] w.is_space(t) implies v.is_space(t) && v.same_mappings(
        w,
        t,
    ) by {
        assert(w.nodes.contains_key(t));
        assert(v.same_node(w, t));
        assert(v.lists.contains_key((t, Dir::Out, EdgeKind::Maps)));
        assert(v.list_ok((t, Dir::Out, EdgeKind::Maps)));
        let out = v.list(t, Dir::Out, EdgeKind::Maps);
        assert(w.list(t, Dir::Out, EdgeKind::Maps) == out);
        assert forall|k: int| 0 <= k < out.len() implies v.same_mapping(w, #[trigger] out[k]) by {
            assert(v.edges.contains_key(out[k]));
            assert(v.edge_ok(out[k]));
            let d = v.edges[out[k]].dst;
            assert(v.nodes.contains_key(d));
            assert(v.same_map_edge(w, out[k]));
            assert(v.same_node(w, d));
        }
    }
    assert forall|m: NodeId| #[trigger] w.is_object(m) implies v.is_object(m) && w.holding(m)
        == v.holding(m) by {
        assert(w.nodes.contains_key(m));
        assert(v.same_node(w, m));
    }
}

pub proof fn nothing_is_quiet(v: GraphView)
    ensures
        v.quiet(v),
{
}

pub proof fn quiet_both(u: GraphView, v: GraphView, w: GraphView)
    requires
        u.quiet(v),
        v.quiet(w),
    ensures
        u.quiet(w),
{
    assert forall|t: NodeId| #[trigger] u.same_node(w, t) by {
        assert(u.same_node(v, t) && v.same_node(w, t));
    }
    assert forall|e: u32| #[trigger] u.same_map_edge(w, e) by {
        assert(u.same_map_edge(v, e) && v.same_map_edge(w, e));
    }
}

/// Removing an edge that is no mapping.
pub proof fn unlinking_is_quiet(v: GraphView, e: u32)
    requires
        v.wf(),
        v.edges.contains_key(e),
        v.edges[e].kind != EdgeKind::Maps,
    ensures
        v.quiet(v.unlink(e)),
{
    let w = v.unlink(e);
    let x = v.edges[e];
    assert(v.edge_ok(e));
    assert(v.nodes.contains_key(x.src) && v.nodes.contains_key(x.dst));
    assert(v.node_ok(x.src) && v.node_ok(x.dst));
}

/// Removing the first edge of a list that is no list of mappings.
pub proof fn unlinking_first_is_quiet(v: GraphView, id: NodeId, dir: Dir, kind: EdgeKind)
    requires
        v.wf(),
        v.live(id),
        kind != EdgeKind::Maps,
    ensures
        v.quiet(v.unlink_first(id, dir, kind)),
{
    let s = v.list(id, dir, kind);
    assert(v.lists.contains_key((id, dir, kind)));
    assert(v.list_ok((id, dir, kind)));
    if s.len() > 0 {
        assert(v.edges.contains_key(s[0]));
        unlinking_is_quiet(v, s[0]);
    }
}

/// Making an edge that is no mapping.
pub proof fn linking_is_quiet(
    v: GraphView,
    src: NodeId,
    kind: EdgeKind,
    dst: NodeId,
    data: Seq<u8>,
    e: u32,
    generation: u32,
)
    requires
        kind == EdgeKind::Owns ==> v.live(dst),
        !v.edges.contains_key(e),
        kind != EdgeKind::Maps,
    ensures
        v.quiet(v.link(src, kind, dst, data, e, generation)),
{
}

/// Writing the body of a node that is not about memory.
pub proof fn writing_a_body_is_quiet(v: GraphView, id: NodeId, body: Body)
    requires
        v.live(id),
        !about_memory(id),
    ensures
        v.quiet(v.with_body(id, body)),
{
}

/// Making a node that is not about memory.
pub proof fn making_a_node_is_quiet(v: GraphView, id: NodeId, body: Body)
    requires
        v.wf(),
        !about_memory(id),
    ensures
        v.quiet(v.with_node(id, body)),
{
    let w = v.with_node(id, body);
    assert forall|t: NodeId| #[trigger] v.same_node(w, t) by {
        if v.nodes.contains_key(t) {
            assert(v.lists.contains_key((t, Dir::Out, EdgeKind::Maps)));
        }
    }
}

/// Beginning a deletion.
pub proof fn deleting_is_quiet(v: GraphView, id: NodeId)
    requires
        v.wf(),
    ensures
        v.quiet(v.deleted(id)),
{
    if v.live(id) && !v.dying(id) {
        assert(v.nodes.contains_key(id));
        assert(v.node_ok(id));
        let a = v.marked(id);
        crate::laws_reap::header_wf(v, id, a.nodes[id]);
        assert(v.quiet(a));
        unlinking_first_is_quiet(a, id, Dir::In, EdgeKind::Owns);
        crate::reaper::unlinking_keeps_wf(a, id, Dir::In, EdgeKind::Owns);
        let b = a.unlink_first(id, Dir::In, EdgeKind::Owns);
        quiet_both(v, a, b);
        unlinking_first_is_quiet(b, id, Dir::In, EdgeKind::Ready);
        crate::reaper::unlinking_keeps_wf(b, id, Dir::In, EdgeKind::Ready);
        let c = b.unlink_first(id, Dir::In, EdgeKind::Ready);
        quiet_both(v, b, c);
        unlinking_first_is_quiet(c, id, Dir::Out, EdgeKind::Waiting);
        crate::reaper::unlinking_keeps_wf(c, id, Dir::Out, EdgeKind::Waiting);
        let d = c.unlink_first(id, Dir::Out, EdgeKind::Waiting);
        quiet_both(v, c, d);
        let e = d.stopped(id);
        assert(d.quiet(e));
        quiet_both(v, d, e);
        assert(e.quiet(e.pending(id)));
        quiet_both(v, e, e.pending(id));
    }
}

// ---------------------------------------------------------------------- laws ---

/// A graph that maps and holds no more than another did is as well served by
/// the same page tables.
pub proof fn same_paging_keeps_tables(
    v: GraphView,
    w: GraphView,
    mem: Seq<u8>,
    fa: FrameAllocator<'_>,
)
    requires
        v.paging_ok(mem, fa),
        v.same_paging(w),
    ensures
        w.paging_ok(mem, fa),
{
    assert forall|s: NodeId| #[trigger] w.is_space(s) implies crate::paging::ready(
        fa,
        mem,
        crate::vm::root_in(w, s),
    ) && (w.user_space(s) ==> w.ranges_sound(s)) by {
        assert(v.is_space(s));
        if w.user_space(s) {
            crate::laws_paging::same_ranges_sound(v, w, s);
        }
    }
    assert forall|s: NodeId, t: NodeId| #[trigger]
        w.is_space(s) && #[trigger] w.is_space(t) && s != t implies crate::laws_paging::private(
        mem,
        crate::vm::root_in(w, s),
        crate::vm::root_in(w, t),
    ) by {
        assert(v.is_space(s) && v.is_space(t));
    }
    assert forall|s: NodeId| #[trigger] w.user_space(s) implies w.backed(mem, s) && w.accounted(
        mem,
        s,
    ) by {
        assert(w.is_space(s));
        assert(v.user_space(s));
        crate::laws_paging::space_kept(v, w, mem, mem, s);
    }
    assert forall|m: NodeId, f: int, s: NodeId|
        w.is_object(m) && #[trigger] v.holds_frame(mem, m, f) && #[trigger] w.is_space(
            s,
        ) implies !crate::tables::has_table(mem, crate::vm::root_in(w, s), 4096 * f) by {
        assert(v.is_object(m) && v.is_space(s));
    }
    assert forall|m: NodeId, f: int|
        w.is_object(m) && #[trigger] v.holds_frame(mem, m, f) implies !fa.free(f) by {
        assert(v.is_object(m));
    }
    crate::laws_paging::objects_kept(v, w, mem, fa, mem, fa);
}

/// A free frame is no page table, and nobody's memory.
pub proof fn free_frames_are_loose(v: GraphView, mem: Seq<u8>, fa: FrameAllocator<'_>, f: int)
    requires
        v.paging_ok(mem, fa),
        fa.free(f),
    ensures
        v.no_table(mem, f),
        v.unheld(mem, f),
        v.writable(mem, f),
{
    assert forall|s: NodeId| #[trigger] v.is_space(s) implies !crate::tables::has_table(
        mem,
        crate::vm::root_in(v, s),
        4096 * f,
    ) by {
        let root = crate::vm::root_in(v, s);
        if crate::tables::has_table(mem, root, 4096 * f) {
            let q = choose|q: Seq<int>| #[trigger]
                crate::tables::is_table(mem, root, q) && crate::tables::table_at(mem, root, q)
                    == Some(4096 * f);
            assert(!fa.free(crate::tables::table_at(mem, root, q)->Some_0 / 4096));
            assert(4096 * f / 4096 == f);
        }
    }
}

/// A space whose tables were not written to has them still.
proof fn tables_untouched(
    v: GraphView,
    m0: Seq<u8>,
    f0: FrameAllocator<'_>,
    m1: Seq<u8>,
    f1: FrameAllocator<'_>,
    s: NodeId,
)
    requires
        v.is_space(s),
        crate::paging::ready(f0, m0, crate::vm::root_in(v, s)),
        m1.len() == m0.len(),
        forall|a: int|
            0 <= a < m0.len() && #[trigger] m1[a] != m0[a] ==> v.no_table(m0, a / 4096),
        f1.wf(),
        f1.same_shape(f0),
        forall|f: int| #[trigger] f1.free(f) ==> f0.free(f) || v.no_table(m0, f),
    ensures
        crate::paging::ready(f1, m1, crate::vm::root_in(v, s)),
        crate::paging::same_lookups(m0, m1, crate::vm::root_in(v, s)),
        forall|p: Seq<int>|
            crate::tables::path_ok(p) ==> #[trigger] crate::tables::table_at(
                m1,
                crate::vm::root_in(v, s),
                p,
            ) == crate::tables::table_at(m0, crate::vm::root_in(v, s), p),
{
    let root = crate::vm::root_in(v, s);
    assert forall|p: Seq<int>, x: int|
        #![trigger crate::tables::is_table(m0, root, p), m1[x]]
        crate::tables::is_table(m0, root, p) && crate::tables::table_at(m0, root, p)->Some_0 <= x
            < crate::tables::table_at(m0, root, p)->Some_0 + 4096 implies m1[x] == m0[x] by {
        let t = crate::tables::table_at(m0, root, p)->Some_0;
        assert(t % 4096 == 0);
        assert(4096 * (x / 4096) == t);
        assert(crate::tables::has_table(m0, root, t));
        if m1[x] != m0[x] {
            assert(v.no_table(m0, x / 4096));
        }
    }
    crate::spaces::elsewhere_kept(m0, m1, root);
    assert forall|p: Seq<int>| #[trigger] crate::tables::is_table(m1, root, p) implies !f1.free(
        crate::tables::table_at(m1, root, p)->Some_0 / 4096,
    ) by {
        assert(crate::tables::table_at(m1, root, p) == crate::tables::table_at(m0, root, p));
        assert(crate::tables::is_table(m0, root, p));
        let t = crate::tables::table_at(m0, root, p)->Some_0;
        assert(t % 4096 == 0);
        assert(4096 * (t / 4096) == t);
        assert(crate::tables::has_table(m0, root, t));
        assert(!f0.free(t / 4096));
        if f1.free(t / 4096) {
            assert(v.no_table(m0, t / 4096));
        }
    }
}

/// Memory written to where there is no page table and no part of a paged
/// object, and frames given back that nobody uses, are nothing to the page
/// tables.
#[verifier::rlimit(40)]
pub proof fn writing_elsewhere_keeps_tables(
    v: GraphView,
    m0: Seq<u8>,
    f0: FrameAllocator<'_>,
    m1: Seq<u8>,
    f1: FrameAllocator<'_>,
)
    requires
        v.paging_ok(m0, f0),
        m1.len() == m0.len(),
        forall|a: int|
            0 <= a < m0.len() && #[trigger] m1[a] != m0[a] ==> v.writable(m0, a / 4096),
        f1.wf(),
        f1.same_shape(f0),
        forall|f: int| #[trigger]
            f1.free(f) ==> f0.free(f) || (v.no_table(m0, f) && v.unheld(m0, f)),
    ensures
        v.paging_ok(m1, f1),
        forall|s: NodeId| #[trigger]
            v.is_space(s) ==> crate::paging::same_lookups(m0, m1, crate::vm::root_in(v, s)),
        forall|m: NodeId, f: int|
            v.is_object(m) ==> #[trigger] v.holds_frame(m1, m, f) == v.holds_frame(m0, m, f),
        forall|f: int| #[trigger] v.no_table(m1, f) == v.no_table(m0, f),
{
    assert forall|a: int| 0 <= a < m0.len() && #[trigger] m1[a] != m0[a] implies v.no_table(
        m0,
        a / 4096,
    ) by {
        assert(v.writable(m0, a / 4096));
    }
    assert forall|s: NodeId| v.is_space(s) implies #[trigger] crate::paging::same_lookups(
        m0,
        m1,
        crate::vm::root_in(v, s),
    ) && crate::paging::ready(f1, m1, crate::vm::root_in(v, s)) && (forall|p: Seq<int>|
        crate::tables::path_ok(p) ==> #[trigger] crate::tables::table_at(
            m1,
            crate::vm::root_in(v, s),
            p,
        ) == crate::tables::table_at(m0, crate::vm::root_in(v, s), p)) by {
        tables_untouched(v, m0, f0, m1, f1, s);
    }
    assert forall|s: NodeId| #[trigger] v.is_space(s) implies crate::paging::ready(
        f1,
        m1,
        crate::vm::root_in(v, s),
    ) && crate::paging::same_lookups(m0, m1, crate::vm::root_in(v, s)) by {
        assert(crate::paging::same_lookups(m0, m1, crate::vm::root_in(v, s)));
    }
    assert forall|s: NodeId, t: NodeId| #[trigger]
        v.is_space(s) && #[trigger] v.is_space(t) && s != t implies crate::laws_paging::private(
        m1,
        crate::vm::root_in(v, s),
        crate::vm::root_in(v, t),
    ) by {
        assert(crate::paging::same_lookups(m0, m1, crate::vm::root_in(v, s)));
        assert(crate::paging::same_lookups(m0, m1, crate::vm::root_in(v, t)));
        crate::laws_paging::strangers_kept(
            m0,
            m1,
            crate::vm::root_in(v, s),
            crate::vm::root_in(v, t),
        );
    }
    assert forall|s: NodeId| #[trigger] v.user_space(s) implies v.backed(m1, s) && v.accounted(
        m1,
        s,
    ) by {
        assert(v.is_space(s));
        crate::laws_paging::space_kept(v, v, m0, m1, s);
    }
    assert forall|s: NodeId, t: int| v.is_space(s) implies #[trigger] crate::tables::has_table(
        m1,
        crate::vm::root_in(v, s),
        t,
    ) == crate::tables::has_table(m0, crate::vm::root_in(v, s), t) by {
        assert(crate::paging::same_lookups(m0, m1, crate::vm::root_in(v, s)));
        same_tables(m0, m1, crate::vm::root_in(v, s), t);
    }
    assert forall|f: int| #[trigger] v.no_table(m1, f) == v.no_table(m0, f) by {
        if v.no_table(m0, f) {
            assert forall|s: NodeId| #[trigger] v.is_space(s) implies !crate::tables::has_table(
                m1,
                crate::vm::root_in(v, s),
                4096 * f,
            ) by {
                assert(!crate::tables::has_table(m0, crate::vm::root_in(v, s), 4096 * f));
            }
        }
        if v.no_table(m1, f) {
            assert forall|s: NodeId| #[trigger] v.is_space(s) implies !crate::tables::has_table(
                m0,
                crate::vm::root_in(v, s),
                4096 * f,
            ) by {
                assert(!crate::tables::has_table(m1, crate::vm::root_in(v, s), 4096 * f));
            }
        }
    }
    written_objects_kept(v, m0, f0, m1, f1);
}

/// Where every path leads where it did, the same frames are tables.
pub proof fn same_tables(m0: Seq<u8>, m1: Seq<u8>, root: int, t: int)
    requires
        forall|p: Seq<int>|
            crate::tables::path_ok(p) ==> #[trigger] crate::tables::table_at(m1, root, p)
                == crate::tables::table_at(m0, root, p),
    ensures
        crate::tables::has_table(m1, root, t) == crate::tables::has_table(m0, root, t),
{
    if crate::tables::has_table(m1, root, t) {
        let q = choose|q: Seq<int>| #[trigger]
            crate::tables::is_table(m1, root, q) && crate::tables::table_at(m1, root, q) == Some(t);
        assert(crate::tables::is_table(m0, root, q));
    }
    if crate::tables::has_table(m0, root, t) {
        let q = choose|q: Seq<int>| #[trigger]
            crate::tables::is_table(m0, root, q) && crate::tables::table_at(m0, root, q) == Some(t);
        assert(crate::tables::table_at(m1, root, q) == Some(t));
        assert(crate::tables::is_table(m1, root, q));
    }
}

proof fn written_objects_kept(
    v: GraphView,
    m0: Seq<u8>,
    f0: FrameAllocator<'_>,
    m1: Seq<u8>,
    f1: FrameAllocator<'_>,
)
    requires
        v.objects_sound(m0, f0),
        m1.len() == m0.len(),
        forall|a: int|
            0 <= a < m0.len() && #[trigger] m1[a] != m0[a] ==> v.writable(m0, a / 4096),
        forall|f: int| #[trigger] f1.free(f) ==> f0.free(f) || v.unheld(m0, f),
        forall|s: NodeId, t: int|
            v.is_space(s) ==> #[trigger] crate::tables::has_table(m1, crate::vm::root_in(v, s), t)
                == crate::tables::has_table(m0, crate::vm::root_in(v, s), t),
    ensures
        v.objects_sound(m1, f1),
        forall|m: NodeId, f: int|
            v.is_object(m) ==> #[trigger] v.holds_frame(m1, m, f) == v.holds_frame(m0, m, f),
{
    assert forall|m: NodeId| #[trigger] v.is_object(m) implies crate::laws_paging::table_kept(
        v.holding(m),
        m0,
        m1,
    ) by {
        if let Reclaim::PagedMemory { table_phys, table_pages, pages } = v.holding(m) {
            assert forall|a: int|
                table_phys <= a < table_phys + 4096 * table_pages && a
                    < m0.len() implies #[trigger] m1[a] == m0[a] by {
                assert(v.holds_frame(m0, m, a / 4096));
                if m1[a] != m0[a] {
                    assert(v.writable(m0, a / 4096));
                }
            }
        }
    }
    assert forall|m: NodeId, f: int|
        v.is_object(m) && #[trigger] v.holds_frame(m0, m, f) implies !f1.free(f) by {
        if f1.free(f) && !f0.free(f) {
            assert(v.unheld(m0, f));
        }
    }
    crate::laws_paging::objects_kept(v, v, m0, f0, m1, f1);
}

/// A memory object over frames that are taken, and that nobody uses, is in
/// nobody's way.
#[verifier::rlimit(40)]
pub proof fn describing_keeps_tables(
    v: GraphView,
    w: GraphView,
    mem: Seq<u8>,
    fa: FrameAllocator<'_>,
    id: NodeId,
    phys: u64,
    pages: u32,
)
    requires
        v.paging_ok(mem, fa),
        forall|t: NodeId| #[trigger] w.is_space(t) ==> v.is_space(t) && v.same_mappings(w, t),
        forall|m: NodeId| #[trigger]
            w.is_object(m) && m != id ==> v.is_object(m) && w.holding(m) == v.holding(m),
        w.nodes[id].body == Body::MemoryObject(crate::vm::fresh_object(phys, pages)),
        phys as int / 4096 + pages <= usize::MAX,
        forall|f: int|
            phys as int / 4096 <= f < phys as int / 4096 + pages ==> !(#[trigger] fa.free(f))
                && v.no_table(mem, f) && v.unheld(mem, f),
    ensures
        w.paging_ok(mem, fa),
        forall|f: int| #[trigger]
            w.holds_frame(mem, id, f) <==> phys as int / 4096 <= f < phys as int / 4096 + pages,
        w.holding(id) is Frames,
{
    plain_holding(w, id, phys, pages);
    assert forall|f: int| w.holds_frame(mem, id, f) implies !fa.free(f) && #[trigger] v.no_table(
        mem,
        f,
    ) && #[trigger] v.unheld(mem, f) by {
        assert(!fa.free(f));
    }
    assert forall|s: NodeId| #[trigger] w.is_space(s) implies crate::paging::ready(
        fa,
        mem,
        crate::vm::root_in(w, s),
    ) && (w.user_space(s) ==> w.ranges_sound(s)) by {
        assert(v.is_space(s));
        if w.user_space(s) {
            crate::laws_paging::same_ranges_sound(v, w, s);
        }
    }
    assert forall|s: NodeId, t: NodeId| #[trigger]
        w.is_space(s) && #[trigger] w.is_space(t) && s != t implies crate::laws_paging::private(
        mem,
        crate::vm::root_in(w, s),
        crate::vm::root_in(w, t),
    ) by {
        assert(v.is_space(s) && v.is_space(t));
    }
    assert forall|s: NodeId| #[trigger] w.user_space(s) implies w.backed(mem, s) && w.accounted(
        mem,
        s,
    ) by {
        assert(w.is_space(s));
        assert(v.user_space(s));
        crate::laws_paging::space_kept(v, w, mem, mem, s);
    }
    assert forall|m: NodeId| #[trigger] w.is_object(m) implies crate::reaper::reclaimable(
        w.holding(m),
        mem,
    ) && crate::laws_paging::table_inside(w.holding(m)) by {
        if m != id {
            assert(v.is_object(m));
        }
    }
    assert forall|m: NodeId, f: int, s: NodeId|
        w.is_object(m) && #[trigger] w.holds_frame(mem, m, f) && #[trigger] w.is_space(
            s,
        ) implies !crate::tables::has_table(mem, crate::vm::root_in(w, s), 4096 * f) by {
        assert(v.is_space(s));
        if m != id {
            assert(v.is_object(m) && v.holds_frame(mem, m, f));
        } else {
            assert(v.no_table(mem, f));
        }
    }
    assert forall|m: NodeId, n: NodeId, f: int|
        w.is_object(m) && w.is_object(n) && m != n && #[trigger] w.holds_frame(mem, m, f) implies !(
    #[trigger] w.holds_frame(mem, n, f)) by {
        if m != id {
            assert(v.is_object(m) && v.holds_frame(mem, m, f));
        }
        if n != id {
            assert(v.is_object(n) && v.holds_frame(mem, n, f) == w.holds_frame(mem, n, f));
        }
        if m == id {
            assert(v.unheld(mem, f));
        } else if n == id && w.holds_frame(mem, n, f) {
            assert(v.unheld(mem, f));
        }
    }
    assert forall|m: NodeId, f: int|
        w.is_object(m) && #[trigger] w.holds_frame(mem, m, f) implies !fa.free(f) by {
        if m != id {
            assert(v.is_object(m) && v.holds_frame(mem, m, f));
        } else {
            assert(v.no_table(mem, f));
        }
    }
}

/// What an object over contiguous frames holds.
proof fn plain_holding(w: GraphView, id: NodeId, phys: u64, pages: u32)
    requires
        w.nodes[id].body == Body::MemoryObject(crate::vm::fresh_object(phys, pages)),
    ensures
        w.holding(id) is Frames,
        forall|mem: Seq<u8>, f: int| #[trigger]
            w.holds_frame(mem, id, f) <==> phys as int / 4096 <= f < phys as int / 4096 + pages,
        forall|mem: Seq<u8>|
            phys as int / 4096 + pages <= usize::MAX ==> #[trigger] crate::reaper::reclaimable(
                w.holding(id),
                mem,
            ),
{
    assert(0u32 & 4 == 0 && 0u32 & 1 == 0 && 0u32 & 2 == 0) by (bit_vector);
}

} // verus!
