//! What loading a program keeps: the page tables stay a cache of the edges,
//! run by run, and the image's bytes go into its own memory only.

use vstd::prelude::*;

use crate::body::{Body, MemoryObject, NodeBody};
use crate::edge::{Dir, EdgeAttr, MapsAttr};
use crate::elf::Image;
use crate::frames::FrameAllocator;
use crate::graph::{Graph, Ref};
use crate::id::{EdgeId, EdgeKind, NodeId, NodeKind};
use crate::load::{Run, State};
use crate::proc::{PageRun, SpawnError};
use crate::view::GraphView;
use crate::vm::VmError;

verus! {

impl GraphView {
    /// Frame `f` is plain memory of some object.
    pub open spec fn plainly_held(self, f: int) -> bool {
        exists|m: NodeId| #[trigger]
            self.is_object(m) && self.holding(m) is Frames && self.holds_frame(
                Seq::<u8>::empty(),
                m,
                f,
            )
    }

    /// Every object here is one of `w`, and holds what it holds here.
    pub open spec fn objects_stay(self, w: GraphView) -> bool {
        forall|m: NodeId| #[trigger]
            self.is_object(m) ==> w.is_object(m) && w.holding(m) == self.holding(m)
    }

    /// Every space here is one of `w`, with the page tables it has here.
    pub open spec fn spaces_stay(self, w: GraphView) -> bool {
        forall|t: NodeId| #[trigger]
            self.is_space(t) ==> w.is_space(t) && w.space(t).pml4_phys == self.space(t).pml4_phys
    }
}

/// The memory of an object may be written to.
pub proof fn plain_memory_is_writable(v: GraphView, mem: Seq<u8>, f: int)
    requires
        v.objects_apart(mem),
        v.plainly_held(f),
    ensures
        v.writable(mem, f),
{
    let m = choose|m: NodeId| #[trigger]
        v.is_object(m) && v.holding(m) is Frames && v.holds_frame(Seq::<u8>::empty(), m, f);
    assert(v.holds_frame(mem, m, f));
    assert forall|s: NodeId| #[trigger] v.is_space(s) implies !crate::tables::has_table(
        mem,
        crate::vm::root_in(v, s),
        4096 * f,
    ) by {}
    assert forall|n: NodeId| #[trigger]
        v.is_object(n) && v.holding(n) is PagedMemory implies !v.holds_frame(mem, n, f) by {
        assert(n != m);
    }
}

pub proof fn plain_memory_stays(v: GraphView, w: GraphView, f: int)
    requires
        v.objects_stay(w),
        v.plainly_held(f),
    ensures
        w.plainly_held(f),
{
    let m = choose|m: NodeId| #[trigger]
        v.is_object(m) && v.holding(m) is Frames && v.holds_frame(Seq::<u8>::empty(), m, f);
    assert(w.is_object(m) && w.holding(m) == v.holding(m));
    assert(w.holds_frame(Seq::<u8>::empty(), m, f));
}

// ---------------------------------------------------------------- allocating ---

/// What a new memory object changes in the graph: nobody else's mappings and
/// nobody else's memory.
pub proof fn described_mappings(v: GraphView, owner: NodeId, id: NodeId, body: Body, e: EdgeId)
    requires
        v.wf(),
        v.live(owner),
        !v.live(id),
        id.kind() == Some(NodeKind::MemoryObject),
        !v.edges.contains_key(e.idx()),
    ensures
        ({
            let w = v.with_node(id, body).link(
                owner,
                EdgeKind::Owns,
                id,
                crate::edge::zeros(24),
                e.idx(),
                e.generation(),
            );
            &&& forall|t: NodeId| #[trigger] w.is_space(t) ==> v.is_space(t) && v.same_mappings(w, t)
            &&& forall|m: NodeId| #[trigger]
                w.is_object(m) && m != id ==> v.is_object(m) && w.holding(m) == v.holding(m)
            &&& v.objects_stay(w)
            &&& v.spaces_stay(w)
            &&& w.is_object(id)
            &&& w.nodes[id].body == body
        }),
{
    let w = v.with_node(id, body).link(
        owner,
        EdgeKind::Owns,
        id,
        crate::edge::zeros(24),
        e.idx(),
        e.generation(),
    );
    assert forall|t: NodeId| #[trigger] w.is_space(t) implies v.is_space(t) && v.same_mappings(
        w,
        t,
    ) by {
        assert(v.nodes.contains_key(t));
        assert(v.lists.contains_key((t, Dir::Out, EdgeKind::Maps)));
        assert(v.list_ok((t, Dir::Out, EdgeKind::Maps)));
        let out = v.list(t, Dir::Out, EdgeKind::Maps);
        assert forall|k: int| 0 <= k < out.len() implies v.same_mapping(w, #[trigger] out[k]) by {
            assert(v.edges.contains_key(out[k]));
            assert(v.edge_ok(out[k]));
        }
    }
    assert forall|m: NodeId| #[trigger] v.is_object(m) implies w.is_object(m) && w.holding(m)
        == v.holding(m) by {
        assert(m != id);
    }
}

/// Allocating memory keeps the page tables a cache of the edges: what is
/// handed out nobody was using.
#[verifier::rlimit(40)]
pub proof fn allocating_keeps_tables(
    g0: Graph,
    mem: Seq<u8>,
    f0: FrameAllocator<'_>,
    g1: Graph,
    f1: FrameAllocator<'_>,
    owner: NodeId,
    pages: u32,
    r: Result<Ref<MemoryObject>, VmError>,
)
    requires
        g0.wf(),
        g0@.paging_ok(mem, f0),
        crate::vm::object_made(g0, Some(f0), g1, Some(f1), owner, pages, r),
    ensures
        g1@.paging_ok(mem, f1),
        g0@.objects_stay(g1@),
        g0@.spaces_stay(g1@),
        r matches Ok(obj) ==> {
            let phys = g1@.memobj(obj.id()).phys_base;
            &&& g1@.is_object(obj.id())
            &&& g1@.memobj(obj.id()).pages == pages
            &&& phys % 4096 == 0
            &&& phys as int / 4096 + pages <= f0.total_frames
            &&& f1.same_shape(f0)
            &&& forall|f: int|
                phys as int / 4096 <= f < phys as int / 4096 + pages ==> #[trigger] g1@.plainly_held(
                    f,
                )
        },
{
    let v = g0@;
    let w = g1@;
    if !(pages == 0 || f0.no_fit(1, pages as int)) {
        let phys = choose|phys: u64| #[trigger]
            crate::vm::object_made_at(g0, f0, g1, Some(f1), owner, pages, r, phys);
        let at = phys as int / 4096;
        let body = crate::vm::fresh_object(phys, pages);
        assert(f0.fits(at, pages as int));
        assert forall|f: int| at <= f < at + pages implies #[trigger] f0.free(f) by {}
        assert forall|f: int| at <= f < at + pages implies #[trigger] v.no_table(mem, f)
            && v.unheld(mem, f) by {
            assert(f0.free(f));
            crate::laws_memory::free_frames_are_loose(v, mem, f0, f);
        }
        crate::laws_memory::writing_elsewhere_keeps_tables(v, mem, f0, mem, f1);
        if let Ok(obj) = r {
            let id = obj.id();
            described_mappings(v, owner, id, body.erase(), g0.next_edge());
            assert(w.memobj(id) == body);
            assert forall|f: int| at <= f < at + pages implies !(#[trigger] f1.free(f))
                && v.no_table(mem, f) && v.unheld(mem, f) by {
                assert(v.no_table(mem, f));
            }
            crate::laws_memory::describing_keeps_tables(v, w, mem, f1, id, phys, pages);
            assert forall|f: int| at <= f < at + pages implies #[trigger] w.plainly_held(f) by {
                assert(w.holds_frame(mem, id, f));
                assert(w.is_object(id) && w.holding(id) is Frames && w.holds_frame(
                    Seq::<u8>::empty(),
                    id,
                    f,
                ));
            }
        }
    }
}

// ------------------------------------------------------------------- mapping ---

/// Asking for a mapping takes no object and no space away.
pub proof fn mapping_keeps_nodes(
    g0: Graph,
    m0: Seq<u8>,
    f0: FrameAllocator<'_>,
    g1: Graph,
    m1: Seq<u8>,
    f1: FrameAllocator<'_>,
    s: NodeId,
    m: NodeId,
    attr: MapsAttr,
    r: Result<EdgeId, VmError>,
)
    requires
        g0.wf(),
        s.kind() == Some(NodeKind::AddressSpace),
        m.kind() == Some(NodeKind::MemoryObject),
        crate::vm::map_done(g0, m0, Some(f0), g1, m1, Some(f1), s, m, attr, r),
    ensures
        g0@.objects_stay(g1@),
        g0@.spaces_stay(g1@),
{
    let v = g0@;
    let w = g1@;
    if crate::vm::map_error(g0, true, s, m, attr) is None {
        let e = g0.next_edge();
        assert(v.is_space(s) && v.is_object(m));
        assert(v.nodes.contains_key(s) && v.nodes.contains_key(m));
        assert(v.node_ok(s) && v.node_ok(m));
        crate::laws_paging::mapped_mappings(v, s, m, attr, e);
        let u = v.mapped(s, m, attr, e);
        assert forall|x: NodeId| #[trigger] v.is_object(x) implies u.is_object(x) && u.holding(x)
            == v.holding(x) by {}
        assert forall|x: NodeId| #[trigger] v.is_space(x) implies u.is_space(x) && u.space(
            x,
        ).pml4_phys == v.space(x).pml4_phys by {
            if x != s {
                assert(u.is_space(x));
                assert(v.same_mappings(u, x));
            }
        }
        if r is Err {
            crate::laws_paging::unmapped_mappings(u, e.idx());
            assert forall|x: NodeId| #[trigger] u.is_object(x) implies w.is_object(x) by {}
            assert forall|x: NodeId| #[trigger] v.is_object(x) implies w.is_object(x) && w.holding(
                x,
            ) == v.holding(x) by {
                assert(u.is_object(x));
                assert(w.is_object(x));
            }
            assert forall|x: NodeId| #[trigger] v.is_space(x) implies w.is_space(x) && w.space(
                x,
            ).pml4_phys == v.space(x).pml4_phys by {
                assert(u.is_space(x));
                assert(w.is_space(x));
                if x != s {
                    assert(u.same_mappings(w, x));
                }
            }
        }
    }
}

/// A run of pages that gets memory of its own keeps the page tables a cache of
/// the edges.
#[verifier::rlimit(40)]
pub proof fn mapping_a_run_keeps_tables(
    s0: State<'_>,
    s1: State<'_>,
    p: NodeId,
    space: NodeId,
    attr: MapsAttr,
    r: Result<u64, SpawnError>,
)
    requires
        s0.g.wf(),
        s0.g@.inv(),
        s0.frames matches Some(fa) && s0.g@.paging_ok(s0.mem, fa),
        p.kind() == Some(NodeKind::Process),
        s0.g@.is_space(space),
        attr.off_pages == 0,
        crate::load::run_mapped(s0, s1, p, space, attr, r),
    ensures
        s1.frames matches Some(fb) && s1.g@.paging_ok(s1.mem, fb),
        s0.g@.objects_stay(s1.g@),
        s0.g@.spaces_stay(s1.g@),
        s1.mem.len() == s0.mem.len(),
        r matches Ok(phys) ==> phys % 4096 == 0 && forall|f: int|
            phys as int / 4096 <= f < phys as int / 4096 + attr.len_pages ==> #[trigger]
                s1.g@.plainly_held(f),
{
    let f0 = s0.frames->Some_0;
    let (mid, ro) = choose|
        mid: (Graph, Option<FrameAllocator<'_>>),
        ro: Result<Ref<MemoryObject>, VmError>,
    | #[trigger]
        crate::load::run_mapped_through(s0, s1, p, space, attr, r, mid, ro);
    let fm = mid.1->Some_0;
    let vm = mid.0@;
    assert(mid.1 is Some);
    allocating_keeps_tables(s0.g, s0.mem, f0, mid.0, fm, p, attr.len_pages, ro);
    crate::laws_spawn::allocating_keeps_invariants(
        s0.g,
        s0.frames,
        mid.0,
        mid.1,
        p,
        attr.len_pages,
        ro,
    );
    if let Ok(obj) = ro {
        let id = obj.id();
        let phys = vm.memobj(id).phys_base;
        let n = (attr.len_pages * 4096) as nat;
        let cleared = crate::mem::overwritten(s0.mem, phys as int, crate::edge::zeros(n));
        let rm = choose|rm: Result<EdgeId, VmError>| #[trigger]
            crate::vm::map_done(
                mid.0,
                cleared,
                mid.1,
                s1.g,
                s1.mem,
                s1.frames,
                space,
                id,
                attr,
                rm,
            ) && r == match rm {
                Ok(_) => Ok::<u64, SpawnError>(phys),
                Err(e) => Err::<u64, SpawnError>(SpawnError::Vm(e)),
            };
        assert(crate::paging::ready(f0, s0.mem, crate::vm::root_in(s0.g@, space)));
        assert forall|a: int|
            0 <= a < s0.mem.len() && #[trigger] cleared[a] != s0.mem[a] implies vm.writable(
            s0.mem,
            a / 4096,
        ) by {
            assert(phys <= a < phys + n);
            assert(vm.plainly_held(a / 4096));
            plain_memory_is_writable(vm, s0.mem, a / 4096);
        }
        crate::laws_memory::writing_elsewhere_keeps_tables(vm, s0.mem, fm, cleared, fm);
        assert(vm.object_sound(id));
        assert(vm.is_space(space));
        let f1 = s1.frames->Some_0;
        crate::laws_paging::mapping_keeps_tables(
            mid.0,
            cleared,
            fm,
            s1.g,
            s1.mem,
            f1,
            space,
            id,
            attr,
            rm,
        );
        mapping_keeps_nodes(mid.0, cleared, fm, s1.g, s1.mem, f1, space, id, attr, rm);
        assert(s1.g@.is_space(space));
        assert forall|f: int|
            phys as int / 4096 <= f < phys as int / 4096 + attr.len_pages implies #[trigger]
            s1.g@.plainly_held(f) by {
            assert(vm.plainly_held(f));
            plain_memory_stays(vm, s1.g@, f);
        }
        map_keeps_length(mid.0, cleared, fm, s1.g, s1.mem, f1, space, id, attr, rm);
    }
}

proof fn map_keeps_length(
    g0: Graph,
    m0: Seq<u8>,
    f0: FrameAllocator<'_>,
    g1: Graph,
    m1: Seq<u8>,
    f1: FrameAllocator<'_>,
    s: NodeId,
    m: NodeId,
    attr: MapsAttr,
    r: Result<EdgeId, VmError>,
)
    requires
        crate::vm::map_done(g0, m0, Some(f0), g1, m1, Some(f1), s, m, attr, r),
    ensures
        m1.len() == m0.len(),
{
    reveal(crate::paging::grown);
}

// ------------------------------------------------------------------- loading ---

/// The memory behind the first `n` runs is plain memory.
pub open spec fn runs_held(v: GraphView, placed: Seq<Run>, n: int) -> bool {
    forall|i: int, f: int|
        #![trigger placed[i], v.plainly_held(f)]
        0 <= i < n && i < placed.len() && placed[i].phys as int / 4096 <= f
            < placed[i].phys as int / 4096 + placed[i].pages ==> v.plainly_held(f)
}

/// Every state that mapping the runs goes through has its page tables in
/// order.
#[verifier::rlimit(40)]
pub proof fn mapping_runs_keeps_tables(
    trace: Seq<State<'_>>,
    s0: State<'_>,
    s1: State<'_>,
    p: NodeId,
    space: NodeId,
    lo: int,
    runs: Seq<PageRun>,
    placed: Seq<Run>,
    r: Result<(), SpawnError>,
    n: int,
)
    requires
        s0.g@.inv(),
        s0.frames matches Some(fa) && s0.g@.paging_ok(s0.mem, fa),
        p.kind() == Some(NodeKind::Process),
        s0.g@.is_space(space),
        crate::load::runs_mapped(trace, s0, s1, p, space, lo, runs, placed, r),
        0 <= n < trace.len(),
    ensures
        trace[n].frames matches Some(fb) && trace[n].g@.paging_ok(trace[n].mem, fb),
        s0.g@.objects_stay(trace[n].g@),
        s0.g@.spaces_stay(trace[n].g@),
        trace[n].mem.len() == s0.mem.len(),
        runs_held(trace[n].g@, placed, n),
        forall|i: int| 0 <= i < n && i < placed.len() ==> (#[trigger] placed[i]).phys % 4096 == 0,
    decreases n,
{
    reveal(crate::load::runs_mapped);
    if n > 0 {
        mapping_runs_keeps_tables(trace, s0, s1, p, space, lo, runs, placed, r, n - 1);
        crate::laws_spawn::mapping_runs_keeps_invariants(
            trace,
            s0,
            s1,
            p,
            space,
            lo,
            runs,
            placed,
            r,
            n - 1,
        );
        let a = trace[n - 1];
        let b = trace[n];
        assert(a.g.wf());
        assert(a.g@.is_space(space)) by {
            assert(s0.g@.is_space(space));
        }
        let attr = crate::load::run_attr(lo, runs[n - 1]);
        if n <= placed.len() {
            let k = placed[n - 1];
            assert(crate::load::run_ok(a, trace[n - 1 + 1], p, space, lo, runs[n - 1], k.phys));
            mapping_a_run_keeps_tables(a, b, p, space, attr, Ok::<u64, SpawnError>(k.phys));
            assert(attr.len_pages == k.pages);
        } else {
            mapping_a_run_keeps_tables(a, b, p, space, attr, Err::<u64, SpawnError>(r->Err_0));
        }
        assert forall|i: int, f: int|
            #![trigger placed[i], b.g@.plainly_held(f)]
            0 <= i < n && i < placed.len() && placed[i].phys as int / 4096 <= f
                < placed[i].phys as int / 4096 + placed[i].pages implies b.g@.plainly_held(f) by {
            if i < n - 1 {
                assert(a.g@.plainly_held(f));
                plain_memory_stays(a.g@, b.g@, f);
            }
        }
        assert forall|m: NodeId| #[trigger] s0.g@.is_object(m) implies b.g@.is_object(m)
            && b.g@.holding(m) == s0.g@.holding(m) by {
            assert(a.g@.is_object(m));
        }
        assert forall|t: NodeId| #[trigger] s0.g@.is_space(t) implies b.g@.is_space(t)
            && b.g@.space(t).pml4_phys == s0.g@.space(t).pml4_phys by {
            assert(a.g@.is_space(t));
        }
    }
}

/// Filling in the contents of the runs leaves every page table as it was.
#[verifier::rlimit(40)]
pub proof fn contents_keep_tables(
    trace: Seq<State<'_>>,
    s0: State<'_>,
    mid: State<'_>,
    p: NodeId,
    space: NodeId,
    lo: int,
    runs: Seq<PageRun>,
    placed: Seq<Run>,
    bytes: Seq<u8>,
    segs: Seq<crate::elf::Segment>,
    r: Result<(), SpawnError>,
)
    requires
        s0.g@.inv(),
        s0.frames matches Some(fa) && s0.g@.paging_ok(s0.mem, fa),
        p.kind() == Some(NodeKind::Process),
        s0.g@.is_space(space),
        r is Ok,
        crate::load::runs_mapped(trace, s0, mid, p, space, lo, runs, placed, r),
    ensures
        ({
            let m1 = crate::load::with_segments(mid.mem, placed, bytes, segs);
            &&& mid.frames matches Some(fb) && mid.g@.paging_ok(m1, fb)
            &&& m1.len() == mid.mem.len()
            &&& forall|s: NodeId| #[trigger]
                mid.g@.is_space(s) ==> crate::paging::same_lookups(
                    mid.mem,
                    m1,
                    crate::vm::root_in(mid.g@, s),
                )
        }),
{
    assert(trace.len() > placed.len() && trace.last() == mid) by {
        reveal(crate::load::runs_mapped);
    }
    mapping_runs_keeps_tables(
        trace,
        s0,
        mid,
        p,
        space,
        lo,
        runs,
        placed,
        r,
        trace.len() - 1,
    );
    crate::load::runs_mapped_facts(trace, s0, mid, p, space, lo, runs, placed, r);
    let v = mid.g@;
    let fa = mid.frames->Some_0;
    let m1 = crate::load::with_segments(mid.mem, placed, bytes, segs);
    crate::load::segments_stay_behind(mid.mem, placed, bytes, segs, -1);
    assert forall|a: int|
        0 <= a < mid.mem.len() && #[trigger] m1[a] != mid.mem[a] implies v.writable(
        mid.mem,
        a / 4096,
    ) by {
        if !crate::load::behind_runs(placed, a) {
            crate::load::segments_stay_behind(mid.mem, placed, bytes, segs, a);
        }
        let i = choose|i: int|
            0 <= i < placed.len() && (#[trigger] placed[i]).phys <= a < placed[i].phys
                + placed[i].pages * 4096;
        assert(placed[i].phys % 4096 == 0);
        assert(v.plainly_held(a / 4096));
        plain_memory_is_writable(v, mid.mem, a / 4096);
    }
    crate::laws_memory::writing_elsewhere_keeps_tables(v, mid.mem, fa, m1, fa);
}

/// Loading an image keeps the page tables a cache of the edges, however far
/// it gets. Nothing about the segments has to be given: what does not lie in
/// the user half is refused.
#[verifier::rlimit(40)]
pub proof fn loading_keeps_tables(
    s0: State<'_>,
    s1: State<'_>,
    image: Image<'_>,
    p: NodeId,
    space: NodeId,
    r: Result<(), SpawnError>,
)
    requires
        s0.g@.inv(),
        s0.frames matches Some(fa) && s0.g@.paging_ok(s0.mem, fa),
        p.kind() == Some(NodeKind::Process),
        s0.g@.is_space(space),
        crate::load::loaded(s0, s1, image, p, space, r),
    ensures
        s1.frames matches Some(fb) && s1.g@.paging_ok(s1.mem, fb),
        s0.g@.objects_stay(s1.g@),
        s0.g@.spaces_stay(s1.g@),
        s1.mem.len() == s0.mem.len(),
{
    let segs = image.spec_segments();
    if segs.len() > 0 && crate::load::image_pages(segs) <= crate::proc::MAX_IMAGE_PAGES {
        let (runs, placed, trace) = choose|
            runs: Seq<PageRun>,
            placed: Seq<Run>,
            trace: Seq<State<'_>>,
        | #[trigger]
            crate::load::loaded_through(s0, s1, image, p, space, r, runs, placed, trace);
        let mid = trace.last();
        let n = trace.len() - 1;
        assert(trace.len() > placed.len()) by {
            reveal(crate::load::runs_mapped);
        }
        mapping_runs_keeps_tables(
            trace,
            s0,
            mid,
            p,
            space,
            crate::elf::lowest(segs),
            runs,
            placed,
            r,
            n,
        );
        if r is Ok {
            contents_keep_tables(
                trace,
                s0,
                mid,
                p,
                space,
                crate::elf::lowest(segs),
                runs,
                placed,
                image.bytes@,
                segs,
                r,
            );
        }
    }
}

} // verus!
