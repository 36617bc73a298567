//! Making address spaces, memory, threads and processes keeps every invariant.

use vstd::prelude::*;

use crate::body::{AddressSpace, Body, MemoryObject, NodeBody, Process, Rights, Thread};
use crate::edge::{Dir, MapsAttr};
use crate::elf::Image;
use crate::frames::FrameAllocator;
use crate::graph::{Graph, GraphError, Ref};
use crate::id::{EdgeId, EdgeKind, NodeId, NodeKind};
use crate::load::{Run, State};
use crate::proc::{PageRun, SpawnError};
use crate::sched::{Stack, KSTACK_PAGES};
use crate::view::GraphView;
use crate::vm::VmError;

verus! {

// ------------------------------------------------------------------ memory ---

/// There is a place in the index for every address.
pub proof fn a_place_in_the_index(v: GraphView, s: NodeId, vaddr: u64, n: int)
    requires
        0 <= n <= v.space(s).mapping_count,
        forall|j: int| 0 <= j < n ==> v.range_end(#[trigger] v.space(s).ranges@[j]) <= vaddr,
    ensures
        v.is_range_slot(s, vaddr, v.range_slot(s, vaddr)),
    decreases v.space(s).mapping_count - n,
{
    if n == v.space(s).mapping_count || v.range_end(v.space(s).ranges@[n]) > vaddr {
        assert(v.is_range_slot(s, vaddr, n));
    } else {
        a_place_in_the_index(v, s, vaddr, n + 1);
    }
}

/// Asking for a mapping keeps every invariant, whether or not it is made.
pub proof fn asking_for_a_mapping_keeps_invariants(
    g0: Graph,
    m0: Seq<u8>,
    f0: Option<FrameAllocator<'_>>,
    g1: Graph,
    m1: Seq<u8>,
    f1: Option<FrameAllocator<'_>>,
    s: NodeId,
    m: NodeId,
    attr: MapsAttr,
    r: Result<EdgeId, VmError>,
)
    requires
        g0.wf(),
        g0@.inv(),
        s.kind() == Some(NodeKind::AddressSpace),
        m.kind() == Some(NodeKind::MemoryObject),
        g0@.live(m) ==> g0@.memobj(m).map_count < u32::MAX,
        crate::vm::map_done(g0, m0, f0, g1, m1, f1, s, m, attr, r),
    ensures
        g1@.inv(),
{
    let v = g0@;
    let e = g0.next_edge();
    if v.live(m) && v.live(s) && g0.map_refusal(s, m, attr) is None {
        crate::laws_ipc::next_edge_is_unused(g0);
        a_place_in_the_index(v, s, attr.vaddr, 0);
        crate::laws_make::mapping_keeps_invariants(v, s, m, attr, e);
        let w = v.mapped(s, m, attr, e);
        if g1@ == w.unlink(e.idx()) {
            crate::laws::unmapping_keeps_invariants(w, e.idx());
        }
    }
}

/// Allocating a memory object keeps every invariant.
pub proof fn allocating_keeps_invariants(
    g0: Graph,
    f0: Option<FrameAllocator<'_>>,
    g1: Graph,
    f1: Option<FrameAllocator<'_>>,
    owner: NodeId,
    pages: u32,
    r: Result<Ref<MemoryObject>, VmError>,
)
    requires
        g0.wf(),
        g1.wf(),
        g0@.inv(),
        crate::id::spec_compatible(EdgeKind::Owns, owner.kind()->Some_0, NodeKind::MemoryObject),
        crate::vm::object_made(g0, f0, g1, f1, owner, pages, r),
    ensures
        g1@.inv(),
{
    if g1 != g0 {
        let fa = f0->Some_0;
        let phys = choose|phys: u64| #[trigger]
            crate::vm::object_made_at(g0, fa, g1, f1, owner, pages, r, phys);
        crate::laws_calls::trying_to_create_keeps_invariants(
            g0,
            g1,
            owner,
            crate::vm::fresh_object(phys, pages),
            crate::vm::graph_answer(r),
        );
    }
}

/// Making an address space keeps every invariant.
pub proof fn making_a_space_keeps_invariants(
    g0: Graph,
    m0: Seq<u8>,
    f0: Option<FrameAllocator<'_>>,
    g1: Graph,
    m1: Seq<u8>,
    f1: Option<FrameAllocator<'_>>,
    active: u64,
    owner: NodeId,
    r: Result<Ref<AddressSpace>, VmError>,
)
    requires
        g0.wf(),
        g1.wf(),
        g0@.inv(),
        crate::id::spec_compatible(EdgeKind::Owns, owner.kind()->Some_0, NodeKind::AddressSpace),
        crate::vm::space_made(g0, m0, f0, g1, m1, f1, active, owner, r),
    ensures
        g1@.inv(),
{
    if g1 != g0 {
        let fa = f0->Some_0;
        let phys = choose|phys: u64| #[trigger]
            crate::vm::space_made_at(g0, m0, fa, g1, m1, f1, active, owner, r, phys);
        crate::laws_calls::trying_to_create_keeps_invariants(
            g0,
            g1,
            owner,
            crate::vm::fresh_space(phys),
            crate::vm::graph_answer(r),
        );
    }
}

// ----------------------------------------------------------------- threads ---

/// Making a kernel thread keeps every invariant.
pub proof fn making_a_kernel_thread_keeps_invariants(
    g0: Graph,
    g1: Graph,
    root: NodeId,
    cpu0: NodeId,
    s: Stack,
    r: Result<Ref<Thread>, VmError>,
)
    requires
        g0.wf(),
        g0@.inv(),
        root.kind() == Some(NodeKind::Root),
        crate::sched::kernel_thread_made(g0, g1, root, cpu0, s, r),
    ensures
        g1@.inv(),
{
    let (ga, gb, ra) = choose|ga: Graph, gb: Graph, ra: Result<Ref<Thread>, GraphError>| #[trigger]
        crate::sched::kernel_thread_steps(g0, ga, gb, g1, root, cpu0, s, ra, r);
    crate::laws_calls::trying_to_create_keeps_invariants(
        g0,
        ga,
        root,
        crate::sched::kernel_thread(s),
        ra,
    );
    if let Ok(t) = ra {
        assert(t.id().kind() == Some(NodeKind::Thread));
        if ga.create_refusal(t.id(), NodeKind::MemoryObject) is None {
            let rb = choose|rb: Result<Ref<MemoryObject>, GraphError>| #[trigger]
                gb.created(ga, t.id(), crate::vm::fresh_object(s.phys, KSTACK_PAGES), rb);
            crate::laws_calls::trying_to_create_keeps_invariants(
                ga,
                gb,
                t.id(),
                crate::vm::fresh_object(s.phys, KSTACK_PAGES),
                rb,
            );
            if gb@.is_cpu(cpu0) && gb.ready_refusal(cpu0, t.id()) is None {
                crate::laws_calls::trying_to_queue_keeps_invariants(gb, g1@, cpu0, t.id());
            }
        }
    }
}

// ------------------------------------------------------------------ images ---

/// An object just allocated is mapped nowhere.
proof fn new_objects_are_unmapped(
    g0: Graph,
    f0: Option<FrameAllocator<'_>>,
    g1: Graph,
    f1: Option<FrameAllocator<'_>>,
    owner: NodeId,
    pages: u32,
    r: Result<Ref<MemoryObject>, VmError>,
)
    requires
        crate::vm::object_made(g0, f0, g1, f1, owner, pages, r),
    ensures
        r matches Ok(obj) ==> obj.id().kind() == Some(NodeKind::MemoryObject) && g1@.live(obj.id())
            && g1@.memobj(obj.id()).map_count == 0,
{
    if let Ok(obj) = r {
        let fa = f0->Some_0;
        let phys = choose|phys: u64| #[trigger]
            crate::vm::object_made_at(g0, fa, g1, f1, owner, pages, r, phys);
        let body = crate::vm::fresh_object(phys, pages);
        assert(g1@.nodes.contains_key(obj.id()));
        assert(g1@.nodes[obj.id()].body == body.erase());
    }
}

/// Mapping a run of pages keeps every invariant, however far it gets.
proof fn mapping_a_run_keeps_invariants(
    s0: State<'_>,
    s1: State<'_>,
    p: NodeId,
    space: NodeId,
    attr: MapsAttr,
    r: Result<u64, SpawnError>,
)
    requires
        s0.g.wf(),
        s0.g@.inv(),
        p.kind() == Some(NodeKind::Process),
        space.kind() == Some(NodeKind::AddressSpace),
        crate::load::run_mapped(s0, s1, p, space, attr, r),
    ensures
        s1.g@.inv(),
{
    let (mid, ro) = choose|
        mid: (Graph, Option<FrameAllocator<'_>>),
        ro: Result<Ref<MemoryObject>, VmError>,
    | #[trigger]
        crate::load::run_mapped_through(s0, s1, p, space, attr, r, mid, ro);
    allocating_keeps_invariants(s0.g, s0.frames, mid.0, mid.1, p, attr.len_pages, ro);
    new_objects_are_unmapped(s0.g, s0.frames, mid.0, mid.1, p, attr.len_pages, ro);
    if let Ok(obj) = ro {
        let phys = mid.0@.memobj(obj.id()).phys_base;
        let cleared = crate::mem::overwritten(
            s0.mem,
            phys as int,
            crate::edge::zeros((attr.len_pages * 4096) as nat),
        );
        let rm = choose|rm: Result<EdgeId, VmError>| #[trigger]
            crate::vm::map_done(
                mid.0,
                cleared,
                mid.1,
                s1.g,
                s1.mem,
                s1.frames,
                space,
                obj.id(),
                attr,
                rm,
            );
        asking_for_a_mapping_keeps_invariants(
            mid.0,
            cleared,
            mid.1,
            s1.g,
            s1.mem,
            s1.frames,
            space,
            obj.id(),
            attr,
            rm,
        );
    }
}

/// Every state that mapping the runs goes through keeps the invariants.
pub proof fn mapping_runs_keeps_invariants(
    trace: Seq<State<'_>>,
    s0: State<'_>,
    s1: State<'_>,
    p: NodeId,
    space: NodeId,
    lo: int,
    runs: Seq<PageRun>,
    placed: Seq<Run>,
    r: Result<(), SpawnError>,
    n: int,
)
    requires
        s0.g@.inv(),
        p.kind() == Some(NodeKind::Process),
        space.kind() == Some(NodeKind::AddressSpace),
        crate::load::runs_mapped(trace, s0, s1, p, space, lo, runs, placed, r),
        0 <= n < trace.len(),
    ensures
        trace[n].g@.inv(),
    decreases n,
{
    reveal(crate::load::runs_mapped);
    if n > 0 {
        mapping_runs_keeps_invariants(trace, s0, s1, p, space, lo, runs, placed, r, n - 1);
        assert(trace[n - 1].g.wf());
        if n <= placed.len() {
            let k = placed[n - 1];
            assert(crate::load::run_ok(
                trace[n - 1],
                trace[n - 1 + 1],
                p,
                space,
                lo,
                runs[n - 1],
                k.phys,
            ));
            mapping_a_run_keeps_invariants(
                trace[n - 1],
                trace[n],
                p,
                space,
                crate::load::run_attr(lo, runs[n - 1]),
                Ok::<u64, SpawnError>(k.phys),
            );
        } else {
            mapping_a_run_keeps_invariants(
                trace[n - 1],
                trace[n],
                p,
                space,
                crate::load::run_attr(lo, runs[n - 1]),
                Err::<u64, SpawnError>(r->Err_0),
            );
        }
    }
}

/// Loading an image keeps every invariant, however far it gets.
pub proof fn loading_keeps_invariants(
    s0: State<'_>,
    s1: State<'_>,
    image: Image<'_>,
    p: NodeId,
    space: NodeId,
    r: Result<(), SpawnError>,
)
    requires
        s0.g@.inv(),
        p.kind() == Some(NodeKind::Process),
        space.kind() == Some(NodeKind::AddressSpace),
        crate::load::loaded(s0, s1, image, p, space, r),
    ensures
        s1.g@.inv(),
{
    let segs = image.spec_segments();
    if segs.len() > 0 && crate::load::image_pages(segs) <= crate::proc::MAX_IMAGE_PAGES {
        let (runs, placed, trace) = choose|
            runs: Seq<PageRun>,
            placed: Seq<Run>,
            trace: Seq<State<'_>>,
        | #[trigger]
            crate::load::loaded_through(s0, s1, image, p, space, r, runs, placed, trace);
        assert(trace.len() > 0) by {
            reveal(crate::load::runs_mapped);
        }
        mapping_runs_keeps_invariants(
            trace,
            s0,
            trace.last(),
            p,
            space,
            crate::elf::lowest(segs),
            runs,
            placed,
            r,
            trace.len() - 1,
        );
    }
}

// ------------------------------------------------------------ first threads ---

impl GraphView {
    /// No thread has a page-table root without an address space.
    pub open spec fn roots_have_spaces(self) -> bool {
        forall|t: NodeId| #[trigger]
            self.is_thread(t) && self.list(t, Dir::Out, EdgeKind::InSpace).len() == 0
                ==> self.thread(t).cr3 == 0
    }
}

/// Granting capabilities one by one keeps every invariant.
proof fn granting_in_turn_keeps_invariants(
    trace: Seq<Graph>,
    g0: Graph,
    g1: Graph,
    p: NodeId,
    grants: Seq<(NodeId, Rights)>,
    r: Result<(), SpawnError>,
    n: int,
)
    requires
        g0@.inv(),
        p.kind() == Some(NodeKind::Process),
        crate::spawn::grants_steps(trace, g0, g1, p, grants, r),
        0 <= n < trace.len(),
    ensures
        trace[n]@.inv(),
    decreases n,
{
    if n > 0 {
        granting_in_turn_keeps_invariants(trace, g0, g1, p, grants, r, n - 1);
        let was = trace[n - 1];
        assert(was.wf());
        let grant = grants[n - 1];
        assert(crate::spawn::granted_one(trace[n - 1], trace[n - 1 + 1], p, grant));
        crate::laws_calls::asking_for_a_capability_keeps_invariants(
            was,
            trace[n],
            p,
            grant.0,
            grant.1,
            Ok::<u32, GraphError>(was@.process(p).free_slot()->Some_0),
        );
    }
}

/// Binding a thread that was made with its page-table root keeps every
/// invariant, if all did but for that root.
proof fn entering_keeps_invariants(
    gb: Graph,
    g1: Graph,
    p: NodeId,
    space: NodeId,
    t: Ref<Thread>,
    b: Thread,
    grants: Seq<(NodeId, Rights)>,
    r: Result<Ref<Thread>, SpawnError>,
)
    requires
        gb.wf(),
        p.kind() == Some(NodeKind::Process),
        space.kind() == Some(NodeKind::AddressSpace),
        gb@.is_thread(t.id()),
        gb@.list(t.id(), Dir::Out, EdgeKind::InSpace).len() == 0,
        b == (Thread { cr3: 0, ..gb@.thread(t.id()) }),
        gb@.nodes[t.id()].body is Thread,
        gb@.with_body(t.id(), Body::Thread(b)).wf(),
        gb@.with_body(t.id(), Body::Thread(b)).inv(),
        crate::spawn::space_entered(gb, g1, p, space, t, grants, r),
    ensures
        r is Ok ==> g1@.inv(),
        g1@.roots_have_spaces() ==> g1@.inv(),
{
    let tid = t.id();
    let sh = gb@.with_body(tid, Body::Thread(b));
    if gb.link_refusal(tid, EdgeKind::InSpace, space) is Some {
        assert(gb@.is_thread(tid));
        if gb@.thread(tid).cr3 == 0 {
            assert(sh.nodes =~= gb@.nodes);
            assert(sh == gb@);
        }
    } else {
        let (gc, e, rg) = choose|gc: Graph, e: EdgeId, rg: Result<(), SpawnError>|
            gc@ == #[trigger] gb@.bound(tid, space, e) && gb@.unlink_first(
                tid,
                Dir::Out,
                EdgeKind::InSpace,
            ).unused(e) && gc.wf() && #[trigger] crate::spawn::grants_done(gc, g1, p, grants, rg)
                && r == match rg {
                Ok(_) => Ok::<Ref<Thread>, SpawnError>(t),
                Err(e) => Err::<Ref<Thread>, SpawnError>(e),
            };
        assert(gb@.nodes.contains_key(tid) && gb@.nodes.contains_key(space));
        assert(gb@.lists.contains_key((tid, Dir::Out, EdgeKind::InSpace)));
        assert(sh.unlink_first(tid, Dir::Out, EdgeKind::InSpace) == sh);
        assert(gb@.unlink_first(tid, Dir::Out, EdgeKind::InSpace) == gb@);
        crate::laws_make::binding_a_space_keeps_invariants(sh, tid, space, e);
        assert(space != tid);
        assert(sh.bound(tid, space, e).nodes =~= gb@.bound(tid, space, e).nodes);
        assert(sh.bound(tid, space, e) == gb@.bound(tid, space, e));
        let trace = choose|trace: Seq<Graph>| #[trigger]
            crate::spawn::grants_steps(trace, gc, g1, p, grants, rg);
        granting_in_turn_keeps_invariants(trace, gc, g1, p, grants, rg, trace.len() - 1);
    }
}

/// What creating a node does to a graph in which one other body reads
/// differently: the same, but for that body.
proof fn creating_commutes(v: GraphView, t: NodeId, b: Body, owner: NodeId, id: NodeId, body: Body, e: EdgeId)
    requires
        v.live(t),
        t != id,
    ensures
        ({
            let z = crate::edge::zeros(24);
            v.with_node(id, body).link(owner, EdgeKind::Owns, id, z, e.idx(), e.generation()).with_body(
                t,
                b,
            ) == v.with_body(t, b).with_node(id, body).link(
                owner,
                EdgeKind::Owns,
                id,
                z,
                e.idx(),
                e.generation(),
            )
        }),
{
    let z = crate::edge::zeros(24);
    let x = v.with_node(id, body).link(owner, EdgeKind::Owns, id, z, e.idx(), e.generation()).with_body(
        t,
        b,
    );
    let y = v.with_body(t, b).with_node(id, body).link(
        owner,
        EdgeKind::Owns,
        id,
        z,
        e.idx(),
        e.generation(),
    );
    assert(x.nodes =~= y.nodes);
    assert(v.with_node(id, body).lists =~= v.with_body(t, b).with_node(id, body).lists);
    assert(x.lists =~= y.lists);
    assert(x.edges =~= y.edges);
}

/// Giving a thread its kernel stack keeps every invariant, if all held but for
/// the thread's page-table root.
proof fn owning_the_stack_keeps_invariants(
    ga: Graph,
    g1: Graph,
    p: NodeId,
    space: NodeId,
    t: Ref<Thread>,
    s: Stack,
    b: Thread,
    grants: Seq<(NodeId, Rights)>,
    r: Result<Ref<Thread>, SpawnError>,
)
    requires
        ga.wf(),
        p.kind() == Some(NodeKind::Process),
        space.kind() == Some(NodeKind::AddressSpace),
        ga@.is_thread(t.id()),
        ga@.list(t.id(), Dir::Out, EdgeKind::InSpace).len() == 0,
        b == (Thread { cr3: 0, ..ga@.thread(t.id()) }),
        ga@.nodes[t.id()].body is Thread,
        ga@.with_body(t.id(), Body::Thread(b)).wf(),
        ga@.with_body(t.id(), Body::Thread(b)).inv(),
        crate::spawn::stack_owned(ga, g1, p, space, t, s, grants, r),
    ensures
        r is Ok ==> g1@.inv(),
        g1@.roots_have_spaces() ==> g1@.inv(),
{
    let tid = t.id();
    let stack = crate::vm::fresh_object(s.phys, KSTACK_PAGES);
    let (gb, rb) = choose|gb: Graph, rb: Result<Ref<MemoryObject>, GraphError>| #[trigger]
        gb.created(ga, tid, stack, rb) && gb.wf() && match rb {
            Err(e) => r == Err::<Ref<Thread>, SpawnError>(SpawnError::Graph(e)) && g1 == gb,
            Ok(_) => crate::spawn::space_entered(gb, g1, p, space, t, grants, r),
        };
    if ga.create_refusal(tid, NodeKind::MemoryObject) is Some {
        assert(ga@.is_thread(tid));
        if ga@.thread(tid).cr3 == 0 {
            assert(ga@.with_body(tid, Body::Thread(b)).nodes =~= ga@.nodes);
            assert(ga@.with_body(tid, Body::Thread(b)) == ga@);
        }
    } else {
        let oid = ga.next_node(NodeKind::MemoryObject);
        let e = ga.next_edge();
        let sh = ga@.with_body(tid, Body::Thread(b));
        crate::laws_ipc::next_edge_is_unused(ga);
        assert(gb@.nodes.contains_key(oid));
        assert(gb.spec_live(oid));
        assert(sh.live(tid) && !sh.dying(tid) && !sh.live(oid));
        crate::laws_make::creating_keeps_invariants(
            sh,
            tid,
            oid,
            stack.erase(),
            e.idx(),
            e.generation(),
        );
        creating_commutes(ga@, tid, Body::Thread(b), tid, oid, stack.erase(), e);
        assert(gb@.nodes[tid].body == ga@.nodes[tid].body);
        assert(ga@.lists.contains_key((tid, Dir::Out, EdgeKind::InSpace))) by {
            assert(ga@.nodes.contains_key(tid));
        }
        assert(gb@.list(tid, Dir::Out, EdgeKind::InSpace) == ga@.list(
            tid,
            Dir::Out,
            EdgeKind::InSpace,
        ));
        entering_keeps_invariants(gb, g1, p, space, t, b, grants, r);
    }
}

/// Making a process's first thread keeps every invariant. A thread that is
/// left without the space it was meant for is the one exception.
pub proof fn making_the_first_thread_keeps_invariants(
    g0: Graph,
    g1: Graph,
    p: NodeId,
    space: NodeId,
    entry: u64,
    s: Stack,
    grants: Seq<(NodeId, Rights)>,
    r: Result<Ref<Thread>, SpawnError>,
)
    requires
        g0.wf(),
        g0@.inv(),
        p.kind() == Some(NodeKind::Process),
        space.kind() == Some(NodeKind::AddressSpace),
        crate::spawn::thread_made(g0, g1, p, space, entry, s, grants, r),
    ensures
        r is Ok ==> g1@.inv(),
        g1@.roots_have_spaces() ==> g1@.inv(),
{
    let (body, ga, ra) = choose|body: Thread, ga: Graph, ra: Result<Ref<Thread>, GraphError>|
        #[trigger]
        ga.created(g0, p, body, ra) && ga.wf() && crate::spawn::is_first_thread(
            body,
            p,
            entry,
            g0@.space(space).pml4_phys,
            s,
        ) && match ra {
            Err(e) => r == Err::<Ref<Thread>, SpawnError>(SpawnError::Graph(e)) && g1 == ga,
            Ok(t) => crate::spawn::stack_owned(ga, g1, p, space, t, s, grants, r),
        };
    if g0.create_refusal(p, NodeKind::Thread) is None {
        let t = ra->Ok_0;
        let tid = t.id();
        let e = g0.next_edge();
        let b = Thread { cr3: 0, ..body };
        crate::laws_ipc::next_edge_is_unused(g0);
        assert(ga@.nodes.contains_key(tid));
        assert(ga.spec_live(tid));
        crate::laws_make::creating_keeps_invariants(
            g0@,
            p,
            tid,
            Body::Thread(b),
            e.idx(),
            e.generation(),
        );
        let w = g0@.with_node(tid, Body::Thread(b)).link(
            p,
            EdgeKind::Owns,
            tid,
            crate::edge::zeros(24),
            e.idx(),
            e.generation(),
        );
        assert(ga@.with_body(tid, Body::Thread(b)).nodes =~= w.nodes);
        assert(ga@.lists =~= w.lists);
        assert(ga@.with_body(tid, Body::Thread(b)) == w);
        owning_the_stack_keeps_invariants(ga, g1, p, space, t, s, b, grants, r);
    }
}

// ---------------------------------------------------------------- processes ---

/// What follows the image keeps every invariant: the user stack, the kernel
/// stack, and the first thread.
proof fn making_the_stack_keeps_invariants(
    s0: State<'_>,
    s1: State<'_>,
    p: NodeId,
    space: NodeId,
    entry: u64,
    hhdm: u64,
    stub: u64,
    grants: Seq<(NodeId, Rights)>,
    r: Result<Ref<Thread>, SpawnError>,
)
    requires
        s0.g.wf(),
        s0.g@.inv(),
        p.kind() == Some(NodeKind::Process),
        space.kind() == Some(NodeKind::AddressSpace),
        crate::spawn::stack_made(s0, s1, p, space, entry, hhdm, stub, grants, r),
    ensures
        r is Ok ==> s1.g@.inv(),
        s1.g@.roots_have_spaces() ==> s1.g@.inv(),
{
    let pages = crate::proc::USER_STACK_PAGES;
    let (sa, ro) = choose|sa: State<'_>, ro: Result<Ref<MemoryObject>, VmError>| #[trigger]
        crate::spawn::stack_allocated(s0, sa, p, ro) && match ro {
            Err(e) => r == Err::<Ref<Thread>, SpawnError>(SpawnError::Vm(e)) && s1 == sa,
            Ok(obj) => crate::spawn::stack_mapped(
                sa,
                s1,
                p,
                space,
                obj,
                entry,
                hhdm,
                stub,
                grants,
                r,
            ),
        };
    allocating_keeps_invariants(s0.g, s0.frames, sa.g, sa.frames, p, pages, ro);
    new_objects_are_unmapped(s0.g, s0.frames, sa.g, sa.frames, p, pages, ro);
    if let Ok(obj) = ro {
        let (sb, rm) = choose|sb: State<'_>, rm: Result<EdgeId, VmError>| #[trigger]
            crate::spawn::stack_linked(sa, sb, space, obj, rm) && match rm {
                Err(e) => r == Err::<Ref<Thread>, SpawnError>(SpawnError::Vm(e)) && s1 == sb,
                Ok(_) => crate::spawn::thread_started(
                    sb,
                    s1,
                    p,
                    space,
                    entry,
                    hhdm,
                    stub,
                    grants,
                    r,
                ),
            };
        asking_for_a_mapping_keeps_invariants(
            sa.g,
            sa.mem,
            sa.frames,
            sb.g,
            sb.mem,
            sb.frames,
            space,
            obj.id(),
            crate::spawn::stack_attr(),
            rm,
        );
        if rm is Ok {
            let rs = choose|rs: Result<Stack, VmError>| #[trigger]
                crate::sched::stack_taken(
                    sb.mem,
                    sb.frames,
                    s1.mem,
                    s1.frames,
                    hhdm,
                    stub,
                    rs,
                ) && match rs {
                    Err(e) => r == Err::<Ref<Thread>, SpawnError>(SpawnError::Vm(e)) && s1.g
                        == sb.g,
                    Ok(s) => crate::spawn::thread_made(
                        sb.g,
                        s1.g,
                        p,
                        space,
                        entry,
                        s,
                        grants,
                        r,
                    ),
                };
            if let Ok(s) = rs {
                making_the_first_thread_keeps_invariants(
                    sb.g,
                    s1.g,
                    p,
                    space,
                    entry,
                    s,
                    grants,
                    r,
                );
            }
        }
    }
}

/// Building the space and everything in it keeps every invariant.
proof fn building_the_space_keeps_invariants(
    s0: State<'_>,
    s1: State<'_>,
    p: NodeId,
    image: Image<'_>,
    active: u64,
    hhdm: u64,
    stub: u64,
    grants: Seq<(NodeId, Rights)>,
    r: Result<Ref<Thread>, SpawnError>,
)
    requires
        s0.g.wf(),
        s0.g@.inv(),
        p.kind() == Some(NodeKind::Process),
        crate::spawn::space_built(s0, s1, p, image, active, hhdm, stub, grants, r),
    ensures
        r is Ok ==> s1.g@.inv(),
        s1.g@.roots_have_spaces() ==> s1.g@.inv(),
{
    let (sa, rs) = choose|sa: State<'_>, rs: Result<Ref<AddressSpace>, VmError>| #[trigger]
        crate::spawn::space_taken(s0, sa, active, p, rs) && match rs {
            Err(e) => r == Err::<Ref<Thread>, SpawnError>(SpawnError::Vm(e)) && s1 == sa,
            Ok(space) => crate::spawn::image_loaded(
                sa,
                s1,
                p,
                space.id(),
                image,
                hhdm,
                stub,
                grants,
                r,
            ),
        };
    making_a_space_keeps_invariants(
        s0.g,
        s0.mem,
        s0.frames,
        sa.g,
        sa.mem,
        sa.frames,
        active,
        p,
        rs,
    );
    if let Ok(space) = rs {
        let (sb, rl) = choose|sb: State<'_>, rl: Result<(), SpawnError>| #[trigger]
            crate::load::loaded(sa, sb, image, p, space.id(), rl) && sb.g.wf() && match rl {
                Err(e) => r == Err::<Ref<Thread>, SpawnError>(e) && s1 == sb,
                Ok(_) => crate::spawn::stack_made(
                    sb,
                    s1,
                    p,
                    space.id(),
                    image.entry,
                    hhdm,
                    stub,
                    grants,
                    r,
                ),
            };
        new_space_kind(s0, sa, active, p, rs);
        loading_keeps_invariants(sa, sb, image, p, space.id(), rl);
        if rl is Ok {
            making_the_stack_keeps_invariants(
                sb,
                s1,
                p,
                space.id(),
                image.entry,
                hhdm,
                stub,
                grants,
                r,
            );
        }
    }
}

/// A space that was made is a space.
pub proof fn new_space_kind(
    s0: State<'_>,
    sa: State<'_>,
    active: u64,
    p: NodeId,
    rs: Result<Ref<AddressSpace>, VmError>,
)
    requires
        crate::spawn::space_taken(s0, sa, active, p, rs),
        rs is Ok,
    ensures
        rs->Ok_0.id().kind() == Some(NodeKind::AddressSpace),
{
    let fa = s0.frames->Some_0;
    let phys = choose|phys: u64| #[trigger]
        crate::vm::space_made_at(
            s0.g,
            s0.mem,
            fa,
            sa.g,
            sa.mem,
            sa.frames,
            active,
            p,
            rs,
            phys,
        );
}

/// Creating a process from an image keeps every invariant. Where it fails with
/// the first thread made and the space not entered, that thread's page-table
/// root is one that no edge stands for, and nothing else is amiss.
pub proof fn preparing_keeps_invariants(
    s0: State<'_>,
    s1: State<'_>,
    owner: NodeId,
    bytes: Seq<u8>,
    active: u64,
    hhdm: u64,
    stub: u64,
    grants: Seq<(NodeId, Rights)>,
    r: Result<(Ref<Process>, Ref<Thread>), SpawnError>,
)
    requires
        s0.g.wf(),
        s0.g@.inv(),
        crate::id::spec_compatible(EdgeKind::Owns, owner.kind()->Some_0, NodeKind::Process),
        crate::spawn::prepared(s0, s1, owner, bytes, active, hhdm, stub, grants, r),
    ensures
        r is Ok ==> s1.g@.inv(),
        s1.g@.roots_have_spaces() ==> s1.g@.inv(),
{
    reveal(crate::spawn::prepared);
    if crate::elf::parse_error(bytes) is None {
        let (image, ga, rp) = choose|
            image: Image<'_>,
            ga: Graph,
            rp: Result<Ref<Process>, GraphError>,
        | #[trigger]
            crate::spawn::prepared_through(
                s0,
                s1,
                owner,
                bytes,
                active,
                hhdm,
                stub,
                grants,
                r,
                image,
                ga,
                rp,
            );
        if let Ok(p) = rp {
            let body: Process = Process::spec_zero();
            crate::laws_calls::trying_to_create_keeps_invariants(s0.g, ga, owner, body, rp);
            let sa = State { g: ga, mem: s0.mem, frames: s0.frames };
            let rt = choose|rt: Result<Ref<Thread>, SpawnError>| #[trigger]
                crate::spawn::space_built(
                    sa,
                    s1,
                    p.id(),
                    image,
                    active,
                    hhdm,
                    stub,
                    grants,
                    rt,
                ) && r == match rt {
                    Ok(t) => Ok::<(Ref<Process>, Ref<Thread>), SpawnError>((p, t)),
                    Err(e) => Err::<(Ref<Process>, Ref<Thread>), SpawnError>(e),
                };
            building_the_space_keeps_invariants(
                sa,
                s1,
                p.id(),
                image,
                active,
                hhdm,
                stub,
                grants,
                rt,
            );
        }
    }
}

/// Loading an executable and making it runnable keeps every invariant, with
/// the same exception.
pub proof fn spawning_keeps_invariants(
    s0: State<'_>,
    s1: State<'_>,
    owner: NodeId,
    bytes: Seq<u8>,
    active: u64,
    hhdm: u64,
    stub: u64,
    cpu0: NodeId,
    grants: Seq<(NodeId, Rights)>,
    r: Result<Ref<Process>, SpawnError>,
)
    requires
        s0.g.wf(),
        s0.g@.inv(),
        crate::id::spec_compatible(EdgeKind::Owns, owner.kind()->Some_0, NodeKind::Process),
        crate::spawn::spawned(s0, s1, owner, bytes, active, hhdm, stub, cpu0, grants, r),
    ensures
        r is Ok ==> s1.g@.inv(),
        s1.g@.roots_have_spaces() ==> s1.g@.inv(),
{
    let (sa, ra) = choose|
        sa: State<'_>,
        ra: Result<(Ref<Process>, Ref<Thread>), SpawnError>,
    | #[trigger]
        crate::spawn::prepared(s0, sa, owner, bytes, active, hhdm, stub, grants, ra) && sa.g.wf()
            && match ra {
            Err(e) => r == Err::<Ref<Process>, SpawnError>(e) && s1 == sa,
            Ok((p, t)) => {
                &&& s1.mem == sa.mem
                &&& s1.frames == sa.frames
                &&& crate::spawn::thread_queued(sa.g, s1.g, cpu0, t.id(), p, r)
            },
        };
    preparing_keeps_invariants(s0, sa, owner, bytes, active, hhdm, stub, grants, ra);
    if let Ok((p, t)) = ra {
        if sa.g@.is_cpu(cpu0) && sa.g.ready_refusal(cpu0, t.id()) is None {
            crate::laws_calls::trying_to_queue_keeps_invariants(sa.g, s1.g@, cpu0, t.id());
        }
    }
}

/// Spawning a child keeps every invariant, with the same exception.
pub proof fn spawning_a_child_keeps_invariants(
    s0: State<'_>,
    s1: State<'_>,
    p: NodeId,
    bytes: Seq<u8>,
    active: u64,
    hhdm: u64,
    stub: u64,
    r: i64,
)
    requires
        s0.g.wf(),
        s0.g@.inv(),
        p.kind() == Some(NodeKind::Process),
        crate::syscall_objects::child_spawned(s0, s1, p, bytes, active, hhdm, stub, r),
    ensures
        s1.g@.roots_have_spaces() ==> s1.g@.inv(),
{
    let none: Seq<(NodeId, Rights)> = Seq::empty();
    let (sa, rp) = choose|
        sa: State<'_>,
        rp: Result<(Ref<Process>, Ref<Thread>), SpawnError>,
    | #[trigger]
        crate::spawn::prepared(s0, sa, p, bytes, active, hhdm, stub, none, rp) && sa.g.wf()
            && crate::syscall_objects::child_granted(sa, s1, p, rp, r);
    preparing_keeps_invariants(s0, sa, p, bytes, active, hhdm, stub, none, rp);
    if let Ok((child, _)) = rp {
        let rg = choose|rg: Result<u32, GraphError>| #[trigger]
            s1.g.capability_granted(sa.g, p, child.id(), Rights(255), rg);
        crate::laws_calls::asking_for_a_capability_keeps_invariants(
            sa.g,
            s1.g,
            p,
            child.id(),
            Rights(255),
            rg,
        );
    }
}

} // verus!
