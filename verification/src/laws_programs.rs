//! What starting a program or a kernel thread keeps: the page tables stay a
//! cache of the edges, from the process's first node to its place in a queue.

use vstd::prelude::*;

use crate::body::{AddressSpace, MemoryObject, NodeBody, Process, Rights, Thread};
use crate::edge::{Dir, EdgeAttr};
use crate::elf::Image;
use crate::frames::FrameAllocator;
use crate::graph::{Graph, GraphError, Ref};
use crate::id::{EdgeId, EdgeKind, NodeId, NodeKind};
use crate::load::State;
use crate::proc::SpawnError;
use crate::sched::{Stack, KSTACK_PAGES};
use crate::view::GraphView;
use crate::vm::VmError;

verus! {

// ------------------------------------------------------------ the graph alone ---

/// Creating a node that is not about memory.
pub proof fn creating_is_quiet<B: NodeBody>(
    g0: Graph,
    g1: Graph,
    owner: NodeId,
    body: B,
    r: Result<Ref<B>, GraphError>,
)
    requires
        g0.wf(),
        g1.created(g0, owner, body, r),
        B::spec_kind() != NodeKind::AddressSpace,
        B::spec_kind() != NodeKind::MemoryObject,
    ensures
        g0@.quiet(g1@),
{
    let v = g0@;
    if g0.create_refusal(owner, B::spec_kind()) is None {
        let id = g0.next_node(B::spec_kind());
        let e = g0.next_edge();
        let u = v.with_node(id, body.erase());
        crate::laws_memory::making_a_node_is_quiet(v, id, body.erase());
        crate::laws_memory::linking_is_quiet(
            u,
            owner,
            EdgeKind::Owns,
            id,
            crate::edge::zeros(24),
            e.idx(),
            e.generation(),
        );
        crate::laws_memory::quiet_both(v, u, g1@);
    } else {
        crate::laws_memory::nothing_is_quiet(v);
    }
}

/// Granting a capability.
proof fn granting_is_quiet(ga: Graph, gb: Graph, p: NodeId, grant: (NodeId, Rights))
    requires
        p.kind() == Some(NodeKind::Process),
        ga@.live(p),
        crate::spawn::granted_one(ga, gb, p, grant),
    ensures
        ga@.quiet(gb@),
        gb@.live(p),
{
    let v = ga@;
    let slot = v.process(p).free_slot()->Some_0;
    let e = ga.next_edge();
    let data = (crate::edge::HoldsAttr { rights: grant.1, slot }).spec_bytes();
    let u = v.link(p, EdgeKind::Holds, grant.0, data, e.idx(), e.generation());
    crate::laws_memory::linking_is_quiet(
        v,
        p,
        EdgeKind::Holds,
        grant.0,
        data,
        e.idx(),
        e.generation(),
    );
    let body = crate::body::Body::Process(v.process(p).with_capability(slot, e.idx()));
    assert(gb@ == u.with_body(p, body));
    crate::laws_memory::writing_a_body_is_quiet(u, p, body);
    crate::laws_memory::quiet_both(v, u, gb@);
}

/// Granting capabilities one by one.
proof fn grants_are_quiet(
    trace: Seq<Graph>,
    g0: Graph,
    g1: Graph,
    p: NodeId,
    grants: Seq<(NodeId, Rights)>,
    r: Result<(), SpawnError>,
    n: int,
)
    requires
        p.kind() == Some(NodeKind::Process),
        g0@.live(p),
        crate::spawn::grants_steps(trace, g0, g1, p, grants, r),
        0 <= n < trace.len(),
    ensures
        g0@.quiet(trace[n]@),
        trace[n]@.live(p),
    decreases n,
{
    if n > 0 {
        grants_are_quiet(trace, g0, g1, p, grants, r, n - 1);
        assert(crate::spawn::granted_one(trace[n - 1], trace[n - 1 + 1], p, grants[n - 1]));
        granting_is_quiet(trace[n - 1], trace[n], p, grants[n - 1]);
        crate::laws_memory::quiet_both(g0@, trace[n - 1]@, trace[n]@);
    } else {
        crate::laws_memory::nothing_is_quiet(g0@);
    }
}

/// Entering a space.
proof fn entering_is_quiet(v: GraphView, t: NodeId, s: NodeId, e: EdgeId)
    requires
        v.wf(),
        v.live(t),
        v.live(s),
        t.kind() == Some(NodeKind::Thread),
        v.unlink_first(t, Dir::Out, EdgeKind::InSpace).unused(e),
    ensures
        v.quiet(v.bound(t, s, e)),
{
    let a = v.unlink_first(t, Dir::Out, EdgeKind::InSpace);
    crate::laws_memory::unlinking_first_is_quiet(v, t, Dir::Out, EdgeKind::InSpace);
    crate::reaper::unlinking_keeps_wf(v, t, Dir::Out, EdgeKind::InSpace);
    let b = a.link(t, EdgeKind::InSpace, s, crate::edge::zeros(24), e.idx(), e.generation());
    crate::laws_memory::linking_is_quiet(
        a,
        t,
        EdgeKind::InSpace,
        s,
        crate::edge::zeros(24),
        e.idx(),
        e.generation(),
    );
    let body = crate::body::Body::Thread(
        Thread { cr3: b.space(s).pml4_phys, ..b.thread(t) },
    );
    crate::laws_memory::writing_a_body_is_quiet(b, t, body);
    crate::laws_memory::quiet_both(v, a, b);
    crate::laws_memory::quiet_both(v, b, v.bound(t, s, e));
}

/// Taking a place in a queue.
pub proof fn queueing_is_quiet(g0: Graph, v1: GraphView, cpu: NodeId, t: NodeId)
    requires
        g0.wf(),
        g0@.live(t),
        t.kind() == Some(NodeKind::Thread),
        crate::sched::queued(g0, v1, cpu, t),
    ensures
        g0@.quiet(v1),
{
    let v = g0@;
    if g0.ready_refusal(cpu, t) is None {
        let e = choose|e: EdgeId| #[trigger]
            g0@.descheduled(t).unused(e) && v1 == g0@.made_ready(cpu, t, e);
        let a = v.unlink_first(t, Dir::Out, EdgeKind::Waiting);
        crate::laws_memory::unlinking_first_is_quiet(v, t, Dir::Out, EdgeKind::Waiting);
        crate::reaper::unlinking_keeps_wf(v, t, Dir::Out, EdgeKind::Waiting);
        let b = a.unlink_first(t, Dir::In, EdgeKind::Ready);
        crate::laws_memory::unlinking_first_is_quiet(a, t, Dir::In, EdgeKind::Ready);
        crate::reaper::unlinking_keeps_wf(a, t, Dir::In, EdgeKind::Ready);
        crate::laws_memory::quiet_both(v, a, b);
        let data = (crate::edge::ReadyAttr { prio: 0 }).spec_bytes();
        let c = b.link(cpu, EdgeKind::Ready, t, data, e.idx(), e.generation());
        crate::laws_memory::linking_is_quiet(
            b,
            cpu,
            EdgeKind::Ready,
            t,
            data,
            e.idx(),
            e.generation(),
        );
        crate::laws_memory::quiet_both(v, b, c);
        let body = crate::body::Body::Thread(
            Thread { state: crate::body::ThreadState::Ready, ..c.thread(t) },
        );
        crate::laws_memory::writing_a_body_is_quiet(c, t, body);
        assert(v1 == c.with_body(t, body));
        crate::laws_memory::quiet_both(v, c, v1);
    } else {
        crate::laws_memory::nothing_is_quiet(v);
    }
}

/// What happens to other things keeps the page tables a cache of the edges.
pub proof fn quiet_keeps_tables(v: GraphView, w: GraphView, mem: Seq<u8>, fa: FrameAllocator<'_>)
    requires
        v.wf(),
        v.paging_ok(mem, fa),
        v.quiet(w),
    ensures
        w.paging_ok(mem, fa),
{
    crate::laws_memory::quiet_is_same_paging(v, w);
    crate::laws_memory::same_paging_keeps_tables(v, w, mem, fa);
}

/// A frame that nobody used, nobody uses who maps and holds no more.
proof fn still_loose(v: GraphView, w: GraphView, mem: Seq<u8>, f: int)
    requires
        v.same_paging(w),
        v.no_table(mem, f),
        v.unheld(mem, f),
    ensures
        w.no_table(mem, f),
        w.unheld(mem, f),
{
    assert forall|s: NodeId| #[trigger] w.is_space(s) implies !crate::tables::has_table(
        mem,
        crate::vm::root_in(w, s),
        4096 * f,
    ) by {
        assert(v.is_space(s));
    }
    assert forall|m: NodeId| #[trigger] w.is_object(m) implies !w.holds_frame(mem, m, f) by {
        assert(v.is_object(m));
        assert(!v.holds_frame(mem, m, f));
    }
}

// ------------------------------------------------------------- kernel stacks ---

/// A kernel stack's bytes are in its own frames.
proof fn stack_bytes(m0: Seq<u8>, phys: int, entry: u64, a: int)
    requires
        0 <= phys,
        phys + KSTACK_PAGES * 4096 <= m0.len(),
        0 <= a < m0.len(),
        !(phys <= a < phys + KSTACK_PAGES * 4096),
    ensures
        crate::sched::stack_written(m0, phys, entry).len() == m0.len(),
        crate::sched::stack_written(m0, phys, entry)[a] == m0[a],
{
    assert(crate::sched::first_frame(entry).len() == 72);
    assert(crate::edge::u64_bytes(crate::sched::STACK_CANARY).len() == 8);
}

/// Taking a kernel stack keeps the page tables a cache of the edges, and
/// leaves its frames taken and nobody's.
#[verifier::rlimit(40)]
pub proof fn taking_a_stack_keeps_tables(
    v: GraphView,
    m0: Seq<u8>,
    f0: FrameAllocator<'_>,
    m1: Seq<u8>,
    f1: FrameAllocator<'_>,
    hhdm: u64,
    entry: u64,
    r: Result<Stack, VmError>,
)
    requires
        v.paging_ok(m0, f0),
        f0.wf(),
        crate::paging::covers(f0, m0),
        crate::sched::stack_taken(m0, Some(f0), m1, Some(f1), hhdm, entry, r),
    ensures
        v.paging_ok(m1, f1),
        v.kernel_half_kept(m0, m1),
        m1.len() == m0.len(),
        r matches Ok(s) ==> s.phys as int / 4096 + KSTACK_PAGES <= f0.total_frames && forall|f: int|
            s.phys as int / 4096 <= f < s.phys as int / 4096 + KSTACK_PAGES ==> !(#[trigger] f1.free(
                f,
            )) && v.no_table(m1, f) && v.unheld(m1, f),
{
    if let Ok(s) = r {
        let at = s.phys as int / 4096;
        assert(f0.fits(at, KSTACK_PAGES as int));
        assert forall|f: int| at <= f < at + KSTACK_PAGES implies #[trigger] v.no_table(m0, f)
            && v.unheld(m0, f) && v.writable(m0, f) by {
            assert(f0.free(f));
            crate::laws_memory::free_frames_are_loose(v, m0, f0, f);
        }
        assert(s.phys + KSTACK_PAGES * 4096 <= m0.len());
        assert(crate::sched::first_frame(entry).len() == 72);
        assert(m1.len() == m0.len());
        assert forall|a: int| 0 <= a < m0.len() && #[trigger] m1[a] != m0[a] implies v.writable(
            m0,
            a / 4096,
        ) by {
            if !(s.phys <= a < s.phys + KSTACK_PAGES * 4096) {
                stack_bytes(m0, s.phys as int, entry, a);
            }
            assert(v.no_table(m0, a / 4096));
        }
        crate::laws_memory::writing_elsewhere_keeps_tables(v, m0, f0, m1, f1);
        crate::laws_kernel_half::same_lookups_keep_it(v, m0, m1);
        assert forall|f: int| at <= f < at + KSTACK_PAGES implies !(#[trigger] f1.free(f))
            && v.no_table(m1, f) && v.unheld(m1, f) by {
            assert(v.no_table(m0, f));
            assert(v.no_table(m1, f) == v.no_table(m0, f));
            assert forall|m: NodeId| #[trigger] v.is_object(m) implies !v.holds_frame(m1, m, f) by {
                assert(v.holds_frame(m1, m, f) == v.holds_frame(m0, m, f));
            }
        }
    }
}

/// Describing a kernel stack keeps the page tables a cache of the edges.
#[verifier::rlimit(40)]
proof fn owning_a_stack_keeps_tables(
    ga: Graph,
    gb: Graph,
    mem: Seq<u8>,
    fa: FrameAllocator<'_>,
    t: NodeId,
    s: Stack,
    r: Result<Ref<MemoryObject>, GraphError>,
)
    requires
        ga.wf(),
        ga@.paging_ok(mem, fa),
        gb.created(ga, t, crate::vm::fresh_object(s.phys, KSTACK_PAGES), r),
        s.phys as int / 4096 + KSTACK_PAGES <= fa.total_frames,
        forall|f: int|
            s.phys as int / 4096 <= f < s.phys as int / 4096 + KSTACK_PAGES ==> !(#[trigger] fa.free(
                f,
            )) && ga@.no_table(mem, f) && ga@.unheld(mem, f),
    ensures
        gb@.paging_ok(mem, fa),
{
    if let Ok(obj) = r {
        let body = crate::vm::fresh_object(s.phys, KSTACK_PAGES);
        crate::laws_loading::described_mappings(ga@, t, obj.id(), body.erase(), ga.next_edge());
        crate::laws_memory::describing_keeps_tables(
            ga@,
            gb@,
            mem,
            fa,
            obj.id(),
            s.phys,
            KSTACK_PAGES,
        );
    }
}

/// Making a kernel thread on a stack that was taken for it keeps the page
/// tables a cache of the edges.
pub proof fn making_a_kernel_thread_keeps_tables(
    g0: Graph,
    g1: Graph,
    mem: Seq<u8>,
    fa: FrameAllocator<'_>,
    root: NodeId,
    cpu0: NodeId,
    s: Stack,
    r: Result<Ref<Thread>, VmError>,
)
    requires
        g0.wf(),
        g0@.paging_ok(mem, fa),
        s.phys as int / 4096 + KSTACK_PAGES <= fa.total_frames,
        forall|f: int|
            s.phys as int / 4096 <= f < s.phys as int / 4096 + KSTACK_PAGES ==> !(#[trigger] fa.free(
                f,
            )) && g0@.no_table(mem, f) && g0@.unheld(mem, f),
        crate::sched::kernel_thread_made(g0, g1, root, cpu0, s, r),
    ensures
        g1@.paging_ok(mem, fa),
{
    let (ga, gb, ra) = choose|ga: Graph, gb: Graph, ra: Result<Ref<Thread>, GraphError>| #[trigger]
        crate::sched::kernel_thread_steps(g0, ga, gb, g1, root, cpu0, s, ra, r);
    creating_is_quiet(g0, ga, root, crate::sched::kernel_thread(s), ra);
    quiet_keeps_tables(g0@, ga@, mem, fa);
    if let Ok(t) = ra {
        if ga.create_refusal(t.id(), NodeKind::MemoryObject) is None {
            let rb = choose|rb: Result<Ref<MemoryObject>, GraphError>| #[trigger]
                gb.created(ga, t.id(), crate::vm::fresh_object(s.phys, KSTACK_PAGES), rb);
            stack_frames_still_loose(g0@, ga@, mem, fa, s);
            owning_a_stack_keeps_tables(ga, gb, mem, fa, t.id(), s, rb);
            if gb@.is_cpu(cpu0) && gb.ready_refusal(cpu0, t.id()) is None {
                queueing_is_quiet(gb, g1@, cpu0, t.id());
                quiet_keeps_tables(gb@, g1@, mem, fa);
            }
        }
    }
}

/// What nobody used before a node was made, nobody uses then.
proof fn stack_frames_still_loose(
    v: GraphView,
    w: GraphView,
    mem: Seq<u8>,
    fa: FrameAllocator<'_>,
    s: Stack,
)
    requires
        v.wf(),
        v.quiet(w),
        forall|f: int|
            s.phys as int / 4096 <= f < s.phys as int / 4096 + KSTACK_PAGES ==> !(#[trigger] fa.free(
                f,
            )) && v.no_table(mem, f) && v.unheld(mem, f),
    ensures
        forall|f: int|
            s.phys as int / 4096 <= f < s.phys as int / 4096 + KSTACK_PAGES ==> !(#[trigger] fa.free(
                f,
            )) && w.no_table(mem, f) && w.unheld(mem, f),
{
    crate::laws_memory::quiet_is_same_paging(v, w);
    assert forall|f: int|
        s.phys as int / 4096 <= f < s.phys as int / 4096 + KSTACK_PAGES implies !(#[trigger] fa.free(
        f,
    )) && w.no_table(mem, f) && w.unheld(mem, f) by {
        assert(!fa.free(f));
        still_loose(v, w, mem, f);
    }
}

// ------------------------------------------------------------- first threads ---

/// Making the first thread of a program on a stack that was taken for it.
#[verifier::rlimit(40)]
proof fn making_the_thread_keeps_tables(
    g0: Graph,
    g1: Graph,
    mem: Seq<u8>,
    fa: FrameAllocator<'_>,
    p: NodeId,
    space: NodeId,
    entry: u64,
    s: Stack,
    grants: Seq<(NodeId, Rights)>,
    r: Result<Ref<Thread>, SpawnError>,
)
    requires
        g0.wf(),
        g0@.paging_ok(mem, fa),
        p.kind() == Some(NodeKind::Process),
        s.phys as int / 4096 + KSTACK_PAGES <= fa.total_frames,
        forall|f: int|
            s.phys as int / 4096 <= f < s.phys as int / 4096 + KSTACK_PAGES ==> !(#[trigger] fa.free(
                f,
            )) && g0@.no_table(mem, f) && g0@.unheld(mem, f),
        crate::spawn::thread_made(g0, g1, p, space, entry, s, grants, r),
    ensures
        g1@.paging_ok(mem, fa),
        r matches Ok(t) ==> t.id().kind() == Some(NodeKind::Thread),
{
    let (body, ga, ra) = choose|body: Thread, ga: Graph, ra: Result<Ref<Thread>, GraphError>|
     #[trigger]
        ga.created(g0, p, body, ra) && ga.wf() && crate::spawn::is_first_thread(
            body,
            p,
            entry,
            g0@.space(space).pml4_phys,
            s,
        ) && match ra {
            Err(e) => r == Err::<Ref<Thread>, SpawnError>(SpawnError::Graph(e)) && g1 == ga,
            Ok(t) => crate::spawn::stack_owned(ga, g1, p, space, t, s, grants, r),
        };
    creating_is_quiet(g0, ga, p, body, ra);
    quiet_keeps_tables(g0@, ga@, mem, fa);
    if let Ok(t) = ra {
        stack_frames_still_loose(g0@, ga@, mem, fa, s);
        assert(ga@.live(p) && ga@.live(t.id()));
        owned_stack_keeps_tables(ga, g1, mem, fa, p, space, t, s, grants, r);
    }
}

#[verifier::rlimit(40)]
proof fn owned_stack_keeps_tables(
    ga: Graph,
    g1: Graph,
    mem: Seq<u8>,
    fa: FrameAllocator<'_>,
    p: NodeId,
    space: NodeId,
    t: Ref<Thread>,
    s: Stack,
    grants: Seq<(NodeId, Rights)>,
    r: Result<Ref<Thread>, SpawnError>,
)
    requires
        ga.wf(),
        ga@.paging_ok(mem, fa),
        p.kind() == Some(NodeKind::Process),
        t.id().kind() == Some(NodeKind::Thread),
        ga@.live(p),
        ga@.live(t.id()),
        s.phys as int / 4096 + KSTACK_PAGES <= fa.total_frames,
        forall|f: int|
            s.phys as int / 4096 <= f < s.phys as int / 4096 + KSTACK_PAGES ==> !(#[trigger] fa.free(
                f,
            )) && ga@.no_table(mem, f) && ga@.unheld(mem, f),
        crate::spawn::stack_owned(ga, g1, p, space, t, s, grants, r),
    ensures
        g1@.paging_ok(mem, fa),
        r matches Ok(x) ==> x == t,
{
    let (gb, rb) = choose|gb: Graph, rb: Result<Ref<MemoryObject>, GraphError>| #[trigger]
        gb.created(ga, t.id(), crate::vm::fresh_object(s.phys, KSTACK_PAGES), rb) && gb.wf()
            && match rb {
            Err(e) => r == Err::<Ref<Thread>, SpawnError>(SpawnError::Graph(e)) && g1 == gb,
            Ok(_) => crate::spawn::space_entered(gb, g1, p, space, t, grants, r),
        };
    owning_a_stack_keeps_tables(ga, gb, mem, fa, t.id(), s, rb);
    if rb is Ok {
        assert(gb@.live(p) && gb@.live(t.id()));
        if gb.link_refusal(t.id(), EdgeKind::InSpace, space) is None {
            let (gc, e, rg) = choose|gc: Graph, e: EdgeId, rg: Result<(), SpawnError>|
                gc@ == #[trigger] gb@.bound(t.id(), space, e) && gb@.unlink_first(
                    t.id(),
                    Dir::Out,
                    EdgeKind::InSpace,
                ).unused(e) && gc.wf() && #[trigger] crate::spawn::grants_done(
                    gc,
                    g1,
                    p,
                    grants,
                    rg,
                ) && r == match rg {
                    Ok(_) => Ok::<Ref<Thread>, SpawnError>(t),
                    Err(e) => Err::<Ref<Thread>, SpawnError>(e),
                };
            entering_is_quiet(gb@, t.id(), space, e);
            quiet_keeps_tables(gb@, gc@, mem, fa);
            crate::steps::unlink_first_keeps_nodes(gb@, t.id(), Dir::Out, EdgeKind::InSpace);
            assert(gc@.live(p));
            let trace = choose|trace: Seq<Graph>| #[trigger]
                crate::spawn::grants_steps(trace, gc, g1, p, grants, rg);
            grants_are_quiet(trace, gc, g1, p, grants, rg, trace.len() - 1);
            quiet_keeps_tables(gc@, g1@, mem, fa);
        }
    }
}

/// A kernel stack and the first thread on it.
#[verifier::rlimit(40)]
proof fn starting_the_thread_keeps_tables(
    s0: State<'_>,
    s1: State<'_>,
    p: NodeId,
    space: NodeId,
    entry: u64,
    hhdm: u64,
    stub: u64,
    grants: Seq<(NodeId, Rights)>,
    r: Result<Ref<Thread>, SpawnError>,
)
    requires
        s0.g.wf(),
        s0.frames matches Some(fa) && s0.g@.paging_ok(s0.mem, fa),
        p.kind() == Some(NodeKind::Process),
        s0.g@.is_space(space),
        crate::spawn::thread_started(s0, s1, p, space, entry, hhdm, stub, grants, r),
    ensures
        s1.frames matches Some(fb) && s1.g@.paging_ok(s1.mem, fb),
        s0.g@.kernel_half_kept(s0.mem, s1.mem),
        r matches Ok(t) ==> t.id().kind() == Some(NodeKind::Thread),
{
    let f0 = s0.frames->Some_0;
    let rs = choose|rs: Result<Stack, VmError>| #[trigger]
        crate::sched::stack_taken(s0.mem, s0.frames, s1.mem, s1.frames, hhdm, stub, rs) && match rs {
            Err(e) => r == Err::<Ref<Thread>, SpawnError>(SpawnError::Vm(e)) && s1.g == s0.g,
            Ok(s) => crate::spawn::thread_made(s0.g, s1.g, p, space, entry, s, grants, r),
        };
    let f1 = s1.frames->Some_0;
    assert(s1.frames is Some);
    assert(crate::paging::ready(f0, s0.mem, crate::vm::root_in(s0.g@, space)));
    taking_a_stack_keeps_tables(s0.g@, s0.mem, f0, s1.mem, f1, hhdm, stub, rs);
    if let Ok(s) = rs {
        making_the_thread_keeps_tables(
            s0.g,
            s1.g,
            s1.mem,
            f1,
            p,
            space,
            entry,
            s,
            grants,
            r,
        );
    }
}

/// A user stack, and the rest.
#[verifier::rlimit(40)]
proof fn making_the_stack_keeps_tables(
    s0: State<'_>,
    s1: State<'_>,
    p: NodeId,
    space: NodeId,
    entry: u64,
    hhdm: u64,
    stub: u64,
    grants: Seq<(NodeId, Rights)>,
    r: Result<Ref<Thread>, SpawnError>,
)
    requires
        s0.g.wf(),
        s0.g@.inv(),
        s0.frames matches Some(fa) && s0.g@.paging_ok(s0.mem, fa),
        p.kind() == Some(NodeKind::Process),
        s0.g@.is_space(space),
        crate::spawn::stack_made(s0, s1, p, space, entry, hhdm, stub, grants, r),
    ensures
        s1.frames matches Some(fb) && s1.g@.paging_ok(s1.mem, fb),
        s0.g@.kernel_half_kept(s0.mem, s1.mem),
        r matches Ok(t) ==> t.id().kind() == Some(NodeKind::Thread),
{
    let f0 = s0.frames->Some_0;
    let (sa, ro) = choose|sa: State<'_>, ro: Result<Ref<MemoryObject>, VmError>| #[trigger]
        crate::spawn::stack_allocated(s0, sa, p, ro) && match ro {
            Err(e) => r == Err::<Ref<Thread>, SpawnError>(SpawnError::Vm(e)) && s1 == sa,
            Ok(obj) => crate::spawn::stack_mapped(
                sa,
                s1,
                p,
                space,
                obj,
                entry,
                hhdm,
                stub,
                grants,
                r,
            ),
        };
    let pages = crate::proc::USER_STACK_PAGES;
    let fm = sa.frames->Some_0;
    assert(sa.frames is Some);
    crate::laws_loading::allocating_keeps_tables(s0.g, s0.mem, f0, sa.g, fm, p, pages, ro);
    crate::laws_spawn::allocating_keeps_invariants(
        s0.g,
        s0.frames,
        sa.g,
        sa.frames,
        p,
        pages,
        ro,
    );
    if let Ok(obj) = ro {
        let (sb, rm) = choose|sb: State<'_>, rm: Result<EdgeId, VmError>| #[trigger]
            crate::spawn::stack_linked(sa, sb, space, obj, rm) && match rm {
                Err(e) => r == Err::<Ref<Thread>, SpawnError>(SpawnError::Vm(e)) && s1 == sb,
                Ok(_) => crate::spawn::thread_started(
                    sb,
                    s1,
                    p,
                    space,
                    entry,
                    hhdm,
                    stub,
                    grants,
                    r,
                ),
            };
        let f1 = sb.frames->Some_0;
        assert(sb.frames is Some);
        assert(sa.g@.is_space(space));
        assert(crate::paging::ready(f0, s0.mem, crate::vm::root_in(s0.g@, space)));
        assert(sa.g@.object_sound(obj.id()));
        crate::laws_paging::mapping_keeps_tables(
            sa.g,
            sa.mem,
            fm,
            sb.g,
            sb.mem,
            f1,
            space,
            obj.id(),
            crate::spawn::stack_attr(),
            rm,
        );
        crate::laws_loading::mapping_keeps_nodes(
            sa.g,
            sa.mem,
            fm,
            sb.g,
            sb.mem,
            f1,
            space,
            obj.id(),
            crate::spawn::stack_attr(),
            rm,
        );
        assert(sb.g@.is_space(space));
        crate::laws_kernel_half::mapping_spares_the_kernel_half(
            sa.g,
            sa.mem,
            fm,
            sb.g,
            sb.mem,
            f1,
            space,
            obj.id(),
            crate::spawn::stack_attr(),
            rm,
        );
        crate::laws_kernel_half::kernel_half_twice(s0.g@, sa.g@, s0.mem, s0.mem, sb.mem);
        if rm is Ok {
            starting_the_thread_keeps_tables(
                sb,
                s1,
                p,
                space,
                entry,
                hhdm,
                stub,
                grants,
                r,
            );
            crate::laws_kernel_half::spaces_stay_on(s0.g@, sa.g@, sb.g@);
            crate::laws_kernel_half::kernel_half_twice(s0.g@, sb.g@, s0.mem, sb.mem, s1.mem);
        }
    }
}

/// The image, and the rest.
proof fn loading_the_image_keeps_tables(
    s0: State<'_>,
    s1: State<'_>,
    p: NodeId,
    space: NodeId,
    image: Image<'_>,
    hhdm: u64,
    stub: u64,
    grants: Seq<(NodeId, Rights)>,
    r: Result<Ref<Thread>, SpawnError>,
)
    requires
        s0.g@.inv(),
        s0.frames matches Some(fa) && s0.g@.paging_ok(s0.mem, fa),
        p.kind() == Some(NodeKind::Process),
        s0.g@.is_space(space),
        crate::spawn::image_loaded(s0, s1, p, space, image, hhdm, stub, grants, r),
    ensures
        s1.frames matches Some(fb) && s1.g@.paging_ok(s1.mem, fb),
        s0.g@.kernel_half_kept(s0.mem, s1.mem),
        r matches Ok(t) ==> t.id().kind() == Some(NodeKind::Thread),
{
    let (sa, rl) = choose|sa: State<'_>, rl: Result<(), SpawnError>| #[trigger]
        crate::load::loaded(s0, sa, image, p, space, rl) && sa.g.wf() && match rl {
            Err(e) => r == Err::<Ref<Thread>, SpawnError>(e) && s1 == sa,
            Ok(_) => crate::spawn::stack_made(
                sa,
                s1,
                p,
                space,
                image.entry,
                hhdm,
                stub,
                grants,
                r,
            ),
        };
    crate::laws_loading::loading_keeps_tables(s0, sa, image, p, space, rl);
    crate::laws_kernel_half::loading_spares_the_kernel_half(s0, sa, image, p, space, rl);
    crate::laws_spawn::loading_keeps_invariants(s0, sa, image, p, space, rl);
    assert(sa.g@.is_space(space));
    if rl is Ok {
        making_the_stack_keeps_tables(
            sa,
            s1,
            p,
            space,
            image.entry,
            hhdm,
            stub,
            grants,
            r,
        );
        crate::laws_kernel_half::kernel_half_twice(s0.g@, sa.g@, s0.mem, sa.mem, s1.mem);
    }
}

/// Making a space keeps the page tables a cache of the edges, with the frame
/// for its root out of the pool.
pub proof fn making_a_space_keeps_tables(
    g0: Graph,
    m0: Seq<u8>,
    f0: FrameAllocator<'_>,
    g1: Graph,
    m1: Seq<u8>,
    f1: FrameAllocator<'_>,
    active: u64,
    owner: NodeId,
    r: Result<Ref<AddressSpace>, VmError>,
)
    requires
        g0.wf(),
        g0@.paging_ok(m0, f0),
        g0@.runs_in(active),
        crate::vm::space_made(g0, m0, Some(f0), g1, m1, Some(f1), active, owner, r),
    ensures
        g1@.paging_ok(m1, f1),
        r matches Ok(s) ==> g1@.is_space(s.id()),
{
    if !f0.no_fit(1, 1) {
        let phys = choose|phys: u64| #[trigger]
            crate::vm::space_made_at(g0, m0, f0, g1, m1, Some(f1), active, owner, r, phys);
        crate::laws_paging::creating_keeps_tables(
            g0,
            m0,
            f0,
            g1,
            m1,
            f1,
            active,
            owner,
            r,
            phys,
        );
    }
}

/// Creating a process from an image keeps the page tables a cache of the
/// edges, however far it gets.
#[verifier::rlimit(40)]
pub proof fn preparing_keeps_tables(
    s0: State<'_>,
    s1: State<'_>,
    owner: NodeId,
    bytes: Seq<u8>,
    active: u64,
    hhdm: u64,
    stub: u64,
    grants: Seq<(NodeId, Rights)>,
    r: Result<(Ref<Process>, Ref<Thread>), SpawnError>,
)
    requires
        s0.g.wf(),
        s0.g@.inv(),
        s0.frames matches Some(fa) && s0.g@.paging_ok(s0.mem, fa),
        s0.g@.runs_in(active),
        crate::id::spec_compatible(EdgeKind::Owns, owner.kind()->Some_0, NodeKind::Process),
        crate::spawn::prepared(s0, s1, owner, bytes, active, hhdm, stub, grants, r),
    ensures
        s1.frames matches Some(fb) && s1.g@.paging_ok(s1.mem, fb),
        s0.g@.kernel_half_kept(s0.mem, s1.mem),
        r matches Ok(x) ==> x.0.id().kind() == Some(NodeKind::Process) && x.1.id().kind() == Some(
            NodeKind::Thread,
        ),
{
    reveal(crate::spawn::prepared);
    let f0 = s0.frames->Some_0;
    if crate::elf::parse_error(bytes) is None {
        let (image, ga, rp) = choose|
            image: Image<'_>,
            ga: Graph,
            rp: Result<Ref<Process>, GraphError>,
        | #[trigger]
            crate::spawn::prepared_through(
                s0,
                s1,
                owner,
                bytes,
                active,
                hhdm,
                stub,
                grants,
                r,
                image,
                ga,
                rp,
            );
        if let Ok(p) = rp {
            let body: Process = Process::spec_zero();
            crate::laws_calls::trying_to_create_keeps_invariants(s0.g, ga, owner, body, rp);
            creating_is_quiet(s0.g, ga, owner, body, rp);
            quiet_keeps_tables(s0.g@, ga@, s0.mem, f0);
            let k = choose|k: NodeId| #[trigger]
                s0.g@.is_space(k) && crate::vm::root_in(s0.g@, k) == crate::paging::root_of(active);
            assert(s0.g@.same_node(ga@, k));
            assert(ga@.is_space(k) && crate::vm::root_in(ga@, k) == crate::paging::root_of(active));
            let sa = State { g: ga, mem: s0.mem, frames: s0.frames };
            let rt = choose|rt: Result<Ref<Thread>, SpawnError>| #[trigger]
                crate::spawn::space_built(
                    sa,
                    s1,
                    p.id(),
                    image,
                    active,
                    hhdm,
                    stub,
                    grants,
                    rt,
                ) && r == match rt {
                    Ok(t) => Ok::<(Ref<Process>, Ref<Thread>), SpawnError>((p, t)),
                    Err(e) => Err::<(Ref<Process>, Ref<Thread>), SpawnError>(e),
                };
            building_the_space_keeps_tables(
                sa,
                s1,
                p.id(),
                image,
                active,
                hhdm,
                stub,
                grants,
                rt,
            );
            crate::laws_kernel_half::quiet_spaces_stay(s0.g@, ga@);
            crate::laws_kernel_half::kernel_half_twice(s0.g@, ga@, s0.mem, s0.mem, s1.mem);
        }
    }
}

/// A space, and the rest.
proof fn building_the_space_keeps_tables(
    s0: State<'_>,
    s1: State<'_>,
    p: NodeId,
    image: Image<'_>,
    active: u64,
    hhdm: u64,
    stub: u64,
    grants: Seq<(NodeId, Rights)>,
    r: Result<Ref<Thread>, SpawnError>,
)
    requires
        s0.g.wf(),
        s0.g@.inv(),
        s0.frames matches Some(fa) && s0.g@.paging_ok(s0.mem, fa),
        s0.g@.runs_in(active),
        p.kind() == Some(NodeKind::Process),
        crate::spawn::space_built(s0, s1, p, image, active, hhdm, stub, grants, r),
    ensures
        s1.frames matches Some(fb) && s1.g@.paging_ok(s1.mem, fb),
        s0.g@.kernel_half_kept(s0.mem, s1.mem),
        r matches Ok(t) ==> t.id().kind() == Some(NodeKind::Thread),
{
    let (sa, rs) = choose|sa: State<'_>, rs: Result<Ref<AddressSpace>, VmError>| #[trigger]
        crate::spawn::space_taken(s0, sa, active, p, rs) && match rs {
            Err(e) => r == Err::<Ref<Thread>, SpawnError>(SpawnError::Vm(e)) && s1 == sa,
            Ok(space) => crate::spawn::image_loaded(
                sa,
                s1,
                p,
                space.id(),
                image,
                hhdm,
                stub,
                grants,
                r,
            ),
        };
    assert(sa.frames is Some);
    making_a_space_keeps_tables(
        s0.g,
        s0.mem,
        s0.frames->Some_0,
        sa.g,
        sa.mem,
        sa.frames->Some_0,
        active,
        p,
        rs,
    );
    crate::laws_kernel_half::creating_shares_the_kernel_half(
        s0.g,
        s0.mem,
        s0.frames->Some_0,
        sa.g,
        sa.mem,
        sa.frames->Some_0,
        active,
        p,
        rs,
    );
    crate::laws_spawn::making_a_space_keeps_invariants(
        s0.g,
        s0.mem,
        s0.frames,
        sa.g,
        sa.mem,
        sa.frames,
        active,
        p,
        rs,
    );
    if let Ok(space) = rs {
        loading_the_image_keeps_tables(
            sa,
            s1,
            p,
            space.id(),
            image,
            hhdm,
            stub,
            grants,
            r,
        );
        crate::laws_kernel_half::kernel_half_twice(s0.g@, sa.g@, s0.mem, sa.mem, s1.mem);
    }
}

/// Loading an executable and making it runnable keeps the page tables a cache
/// of the edges and leaves the kernel half alone, however far it gets.
pub proof fn spawning_keeps_tables(
    s0: State<'_>,
    s1: State<'_>,
    owner: NodeId,
    bytes: Seq<u8>,
    active: u64,
    hhdm: u64,
    stub: u64,
    cpu0: NodeId,
    grants: Seq<(NodeId, Rights)>,
    r: Result<Ref<Process>, SpawnError>,
)
    requires
        s0.g.wf(),
        s0.g@.inv(),
        s0.frames matches Some(fa) && s0.g@.paging_ok(s0.mem, fa),
        s0.g@.runs_in(active),
        crate::id::spec_compatible(EdgeKind::Owns, owner.kind()->Some_0, NodeKind::Process),
        crate::spawn::spawned(s0, s1, owner, bytes, active, hhdm, stub, cpu0, grants, r),
    ensures
        s1.frames matches Some(fb) && s1.g@.paging_ok(s1.mem, fb),
        s0.g@.kernel_half_kept(s0.mem, s1.mem),
{
    let (sa, ra) = choose|
        sa: State<'_>,
        ra: Result<(Ref<Process>, Ref<Thread>), SpawnError>,
    | #[trigger]
        crate::spawn::prepared(s0, sa, owner, bytes, active, hhdm, stub, grants, ra) && sa.g.wf()
            && match ra {
            Err(e) => r == Err::<Ref<Process>, SpawnError>(e) && s1 == sa,
            Ok((p, t)) => {
                &&& s1.mem == sa.mem
                &&& s1.frames == sa.frames
                &&& crate::spawn::thread_queued(sa.g, s1.g, cpu0, t.id(), p, r)
            },
        };
    preparing_keeps_tables(s0, sa, owner, bytes, active, hhdm, stub, grants, ra);
    if let Ok((p, t)) = ra {
        if sa.g@.is_cpu(cpu0) && sa.g.ready_refusal(cpu0, t.id()) is None {
            queueing_is_quiet(sa.g, s1.g@, cpu0, t.id());
            quiet_keeps_tables(sa.g@, s1.g@, sa.mem, sa.frames->Some_0);
        }
    }
}

/// Spawning a child does too.
pub proof fn spawning_a_child_keeps_tables(
    s0: State<'_>,
    s1: State<'_>,
    p: NodeId,
    bytes: Seq<u8>,
    active: u64,
    hhdm: u64,
    stub: u64,
    r: i64,
)
    requires
        s0.g.wf(),
        s0.g@.inv(),
        s0.frames matches Some(fa) && s0.g@.paging_ok(s0.mem, fa),
        s0.g@.runs_in(active),
        p.kind() == Some(NodeKind::Process),
        crate::syscall_objects::child_spawned(s0, s1, p, bytes, active, hhdm, stub, r),
    ensures
        s1.frames matches Some(fb) && s1.g@.paging_ok(s1.mem, fb),
        s0.g@.kernel_half_kept(s0.mem, s1.mem),
{
    let none: Seq<(NodeId, Rights)> = Seq::empty();
    let (sa, rp) = choose|
        sa: State<'_>,
        rp: Result<(Ref<Process>, Ref<Thread>), SpawnError>,
    | #[trigger]
        crate::spawn::prepared(s0, sa, p, bytes, active, hhdm, stub, none, rp) && sa.g.wf()
            && crate::syscall_objects::child_granted(sa, s1, p, rp, r);
    preparing_keeps_tables(s0, sa, p, bytes, active, hhdm, stub, none, rp);
    if let Ok((child, _)) = rp {
        let rg = choose|rg: Result<u32, GraphError>| #[trigger]
            s1.g.capability_granted(sa.g, p, child.id(), Rights(255), rg);
        if sa.g.grant_refusal(p, child.id()) is None {
            granting_is_quiet(sa.g, s1.g, p, (child.id(), Rights(255)));
            quiet_keeps_tables(sa.g@, s1.g@, sa.mem, sa.frames->Some_0);
        }
    }
}

} // verus!
