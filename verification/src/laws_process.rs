//! A process as it comes out of its image: a stack under its stack pointer, its
//! first thread at the entry point, and the capabilities it was to get.

use vstd::prelude::*;

use crate::body::{Body, MemoryObject, NodeBody, Process, Rights, Thread, ThreadState};
use crate::edge::{Dir, EdgeAttr};
use crate::elf::Image;
use crate::graph::{Graph, GraphError, Ref};
use crate::id::{EdgeId, EdgeKind, NodeId, NodeKind};
use crate::load::State;
use crate::proc::SpawnError;
use crate::sched::Stack;
use crate::view::GraphView;
use crate::vm::VmError;

verus! {

impl GraphView {
    /// Every edge is still there.
    pub open spec fn edges_kept(self, o: GraphView) -> bool {
        forall|e: u32| #[trigger]
            o.edges.contains_key(e) ==> self.edges.contains_key(e) && self.edges[e] == o.edges[e]
    }

    /// Every node but the one is still there, as it was.
    pub open spec fn nodes_kept_but(self, o: GraphView, x: NodeId) -> bool {
        forall|n: NodeId| #[trigger]
            o.nodes.contains_key(n) ==> self.nodes.contains_key(n) && (n != x ==> self.nodes[n].body
                == o.nodes[n].body)
    }

    /// The process holds the object with these rights, in some slot.
    pub open spec fn holds_somewhere(self, p: NodeId, d: NodeId, rights: u32) -> bool {
        exists|slot: u32| #[trigger] self.holds_in(p, slot, d, rights)
    }

    /// The thread starts with its stack pointer at the top of a mapping of its
    /// space, sixteen bytes down and aligned to as many, and every byte from
    /// there to the bottom of the mapping is its to read and write.
    pub open spec fn has_stack(self, t: NodeId, s: NodeId, e: u32) -> bool {
        let m = self.maps(e);
        let sp = self.thread(t).msg.words@[0];
        &&& self.thread_in(t, s)
        &&& self.edges.contains_key(e)
        &&& self.edges[e].kind == EdgeKind::Maps
        &&& self.edges[e].src == s
        &&& m.prot.0 & 8 == 8
        &&& m.prot.0 & 4 == 0
        &&& m.vaddr == 0x7fff_0000_0000
        &&& m.len_pages == 4
        &&& sp % 16 == 0
        &&& m.vaddr < sp
        &&& sp + 16 == m.vaddr + m.len_pages * 4096
        &&& forall|a: int|
            m.vaddr <= a < m.vaddr + m.len_pages * 4096 ==> self.byte_usable(s, a, 1)
                && #[trigger] self.byte_usable(s, a, 2)
    }
}

// -------------------------------------------------------------------- grants ---

/// What granting capabilities in turn comes to: each is held, every edge is
/// kept, and only the process that gets them changes.
proof fn grants_are_held(
    trace: Seq<Graph>,
    g0: Graph,
    g1: Graph,
    p: NodeId,
    grants: Seq<(NodeId, Rights)>,
    r: Result<(), SpawnError>,
    k: int,
)
    requires
        crate::spawn::grants_steps(trace, g0, g1, p, grants, r),
        0 <= k < trace.len(),
    ensures
        trace[k]@.edges_kept(g0@),
        trace[k]@.nodes_kept_but(g0@, p),
        forall|i: int|
            0 <= i < k ==> trace[k]@.holds_somewhere(p, (#[trigger] grants[i]).0, grants[i].1.0),
    decreases k,
{
    if k > 0 {
        grants_are_held(trace, g0, g1, p, grants, r, k - 1);
        let (ga, gb) = (trace[k - 1], trace[k]);
        let (d, rights) = grants[k - 1];
        assert(crate::spawn::granted_one(trace[k - 1], trace[k - 1 + 1], p, grants[k - 1]));
        let slot = ga@.process(p).free_slot()->Some_0;
        if ga.grant_refusal(p, d) is None {
            crate::laws_messages::granted_is_held(ga@, p, d, rights, slot, ga.next_edge());
            assert(ga@.nodes.contains_key(p));
        }
        assert forall|i: int| 0 <= i < k implies gb@.holds_somewhere(p, (#[trigger] grants[i]).0, grants[i].1.0) by {
            if i < k - 1 {
                assert(ga@.holds_somewhere(p, grants[i].0, grants[i].1.0));
                let s = choose|s: u32| #[trigger]
                    ga@.holds_in(p, s, grants[i].0, grants[i].1.0);
                crate::laws_messages::held_is_kept(
                    ga@,
                    gb@,
                    p,
                    s,
                    grants[i].0,
                    grants[i].1.0,
                );
            } else {
                assert(gb@.holds_in(p, slot, grants[i].0, grants[i].1.0));
            }
        }
    }
}

// -------------------------------------------------------------------- thread ---

/// A node created leaves every other where it was, and is its owner's.
pub proof fn creating_adds_one<B: NodeBody>(g0: Graph, g1: Graph, owner: NodeId, body: B, r: Result<
    Ref<B>,
    GraphError,
>)
    requires
        g0.wf(),
        g1.created(g0, owner, body, r),
        r is Ok,
    ensures
        !g0@.live(r->Ok_0.id()),
        r->Ok_0.id().kind() == Some(B::spec_kind()),
        g1@.live(r->Ok_0.id()),
        g1@.nodes[r->Ok_0.id()].body == body.erase(),
        g1@.owns(owner, r->Ok_0.id()),
        g1@.edges_kept(g0@),
        g1@.nodes_kept_but(g0@, r->Ok_0.id()),
        forall|k: EdgeKind|
            k != EdgeKind::Owns ==> #[trigger] g1@.list(r->Ok_0.id(), Dir::Out, k).len() == 0,
{
    let id = r->Ok_0.id();
    let e = g0.next_edge();
    assert(g1@.edges.contains_key(e.idx()));
}

/// What the first thread is once it was made.
pub open spec fn first_thread(
    v: GraphView,
    t: NodeId,
    p: NodeId,
    space: NodeId,
    entry: u64,
    s: Stack,
) -> bool {
    let b = v.thread(t);
    &&& v.live(t)
    &&& t.kind() == Some(NodeKind::Thread)
    &&& v.nodes[t].body is Thread
    &&& v.thread_in(t, space)
    &&& v.owns(p, t)
    &&& b.user_entry == entry
    &&& b.owner_proc == p
    &&& b.kstack_top == s.top
    &&& b.saved_rsp == s.saved_rsp
    &&& b.state == ThreadState::Inert
    &&& b.wait_aborted == 0
    &&& b.msg.has_cap == 0
    &&& b.cr3 == v.space(space).pml4_phys
    &&& exists|o: NodeId| #[trigger] v.owns(t, o) && is_stack_object(v, o, s)
}

/// What is true of a first thread stays true when only a process changes, and
/// no edge goes.
pub proof fn a_first_thread_stays(
    v: GraphView,
    w: GraphView,
    q: NodeId,
    t: NodeId,
    p: NodeId,
    space: NodeId,
    entry: u64,
    s: Stack,
)
    requires
        v.wf(),
        first_thread(v, t, p, space, entry, s),
        w.edges_kept(v),
        w.nodes_kept_but(v, q),
        q.kind() == Some(NodeKind::Process),
    ensures
        first_thread(w, t, p, space, entry, s),
{
    assert(v.nodes.contains_key(t));
    let i = choose|i: u32| #[trigger]
        v.edges.contains_key(i) && v.edges[i].kind == EdgeKind::InSpace && v.edges[i].src == t
            && v.edges[i].dst == space;
    assert(w.edges.contains_key(i));
    assert(v.edge_ok(i));
    assert(v.nodes.contains_key(space));
    assert(space != q);
    owning_is_kept(v, w, p, t);
    let o = choose|o: NodeId| #[trigger] v.owns(t, o) && is_stack_object(v, o, s);
    owning_is_kept(v, w, t, o);
    assert(v.nodes.contains_key(o));
    assert(v.node_ok(o));
    assert(o != q);
    assert(is_stack_object(w, o, s));
}

/// The object holds the frames of a kernel stack.
pub open spec fn is_stack_object(v: GraphView, o: NodeId, s: Stack) -> bool {
    &&& v.live(o)
    &&& v.nodes[o].body is MemoryObject
    &&& v.memobj(o).phys_base == s.phys
    &&& v.memobj(o).pages == 8
}

/// Making the first thread: it is in its space, at the entry point, on its
/// kernel stack; what was mapped still is; and the process holds what it was
/// to get.
#[verifier::rlimit(40)]
#[verifier::spinoff_prover]
proof fn the_thread_is_made(
    g0: Graph,
    g1: Graph,
    p: NodeId,
    space: NodeId,
    entry: u64,
    s: Stack,
    grants: Seq<(NodeId, Rights)>,
    t: Ref<Thread>,
)
    requires
        g0.wf(),
        p.kind() == Some(NodeKind::Process),
        space.kind() == Some(NodeKind::AddressSpace),
        crate::spawn::thread_made(
            g0,
            g1,
            p,
            space,
            entry,
            s,
            grants,
            Ok::<Ref<Thread>, SpawnError>(t),
        ),
    ensures
        g1@.edges_kept(g0@),
        first_thread(g1@, t.id(), p, space, entry, s),
        g1@.thread(t.id()).msg.words@[0] == crate::spawn::first_user_rsp(),
        forall|i: int|
            0 <= i < grants.len() ==> g1@.holds_somewhere(p, (#[trigger] grants[i]).0, grants[i].1.0),
{
    let r = Ok::<Ref<Thread>, SpawnError>(t);
    let (body, ga, ra) = choose|body: Thread, ga: Graph, ra: Result<Ref<Thread>, GraphError>| #[trigger]
        ga.created(g0, p, body, ra) && ga.wf() && crate::spawn::is_first_thread(
            body,
            p,
            entry,
            g0@.space(space).pml4_phys,
            s,
        ) && match ra {
            Err(e) => r == Err::<Ref<Thread>, SpawnError>(SpawnError::Graph(e)) && g1 == ga,
            Ok(t) => crate::spawn::stack_owned(ga, g1, p, space, t, s, grants, r),
        };
    let th = ra->Ok_0;
    let tid = th.id();
    creating_adds_one(g0, ga, p, body, ra);
    let (gb, rb) = choose|gb: Graph, rb: Result<Ref<MemoryObject>, GraphError>| #[trigger]
        gb.created(ga, tid, crate::vm::fresh_object(s.phys, crate::sched::KSTACK_PAGES), rb)
            && gb.wf() && match rb {
            Err(e) => r == Err::<Ref<Thread>, SpawnError>(SpawnError::Graph(e)) && g1 == gb,
            Ok(_) => crate::spawn::space_entered(gb, g1, p, space, th, grants, r),
        };
    let obj = crate::vm::fresh_object(s.phys, crate::sched::KSTACK_PAGES);
    let oid = rb->Ok_0.id();
    creating_adds_one(ga, gb, tid, obj, rb);
    assert(ga@.nodes.contains_key(tid));
    assert(oid != tid);
    assert(gb@.nodes[tid].body == body.erase());
    assert(gb@.list(tid, Dir::Out, EdgeKind::InSpace).len() == 0) by {
        assert(ga@.list(tid, Dir::Out, EdgeKind::InSpace).len() == 0);
    }
    the_space_is_entered(gb, g1, p, space, th, grants, t);
    assert(t.id() == tid);
    assert(g1@.edges_kept(g0@)) by {
        assert forall|e: u32| #[trigger] g0@.edges.contains_key(e) implies g1@.edges.contains_key(
            e,
        ) && g1@.edges[e] == g0@.edges[e] by {
            assert(ga@.edges.contains_key(e));
            assert(gb@.edges.contains_key(e));
        }
    }
    owning_is_kept(ga@, gb@, p, tid);
    owning_is_kept(gb@, g1@, p, tid);
    owning_is_kept(gb@, g1@, tid, oid);
    assert(gb@.nodes.contains_key(oid));
    assert(is_stack_object(g1@, oid, s));
    assert(body.erase() == Body::Thread(body));
}

pub proof fn owning_is_kept(v: GraphView, w: GraphView, a: NodeId, b: NodeId)
    requires
        w.edges_kept(v),
        v.owns(a, b),
    ensures
        w.owns(a, b),
{
    let e = choose|e: u32| #[trigger]
        v.edges.contains_key(e) && v.edges[e].kind == EdgeKind::Owns && v.edges[e].src == a
            && v.edges[e].dst == b;
    assert(w.edges.contains_key(e));
}

/// Entering the space and getting the capabilities.
#[verifier::rlimit(40)]
#[verifier::spinoff_prover]
proof fn the_space_is_entered(
    gb: Graph,
    g1: Graph,
    p: NodeId,
    space: NodeId,
    th: Ref<Thread>,
    grants: Seq<(NodeId, Rights)>,
    t: Ref<Thread>,
)
    requires
        gb.wf(),
        p.kind() == Some(NodeKind::Process),
        space.kind() == Some(NodeKind::AddressSpace),
        th.id().kind() == Some(NodeKind::Thread),
        gb@.live(th.id()),
        gb@.nodes[th.id()].body is Thread,
        gb@.list(th.id(), Dir::Out, EdgeKind::InSpace).len() == 0,
        crate::spawn::space_entered(
            gb,
            g1,
            p,
            space,
            th,
            grants,
            Ok::<Ref<Thread>, SpawnError>(t),
        ),
    ensures
        t == th,
        g1@.edges_kept(gb@),
        g1@.live(t.id()),
        g1@.nodes[t.id()].body == Body::Thread(
            Thread { cr3: g1@.space(space).pml4_phys, ..gb@.thread(t.id()) },
        ),
        g1@.thread_in(t.id(), space),
        forall|n: NodeId| #[trigger]
            gb@.nodes.contains_key(n) ==> g1@.nodes.contains_key(n) && (n != p && n != t.id()
                ==> g1@.nodes[n].body == gb@.nodes[n].body),
        forall|i: int|
            0 <= i < grants.len() ==> g1@.holds_somewhere(p, (#[trigger] grants[i]).0, grants[i].1.0),
{
    let r = Ok::<Ref<Thread>, SpawnError>(t);
    let tid = th.id();
    let (gc, e, rg) = choose|gc: Graph, e: EdgeId, rg: Result<(), SpawnError>|
        gc@ == #[trigger] gb@.bound(tid, space, e) && gb@.unlink_first(
            tid,
            Dir::Out,
            EdgeKind::InSpace,
        ).unused(e) && gc.wf() && #[trigger] crate::spawn::grants_done(gc, g1, p, grants, rg) && r
            == match rg {
            Ok(_) => Ok::<Ref<Thread>, SpawnError>(th),
            Err(e) => Err::<Ref<Thread>, SpawnError>(e),
        };
    let v = gb@;
    assert(v.unlink_first(tid, Dir::Out, EdgeKind::InSpace) == v);
    let w = gc@;
    assert(v.nodes.contains_key(tid));
    let trace = choose|trace: Seq<Graph>| #[trigger]
        crate::spawn::grants_steps(trace, gc, g1, p, grants, rg);
    grants_are_held(trace, gc, g1, p, grants, rg, trace.len() - 1);
    assert(trace[trace.len() - 1] == g1);
    assert(w.edges.contains_key(e.idx()));
    assert(g1@.edges.contains_key(e.idx()));
    assert(w.nodes.contains_key(tid));
    assert(v.live(space)) by {
        assert(gb.link_refusal(tid, EdgeKind::InSpace, space) is None);
    }
    assert(w.nodes.contains_key(space));
    assert(space != p && space != tid && tid != p);
    assert(g1@.nodes[space].body == w.nodes[space].body);
    assert forall|x: u32| #[trigger] v.edges.contains_key(x) implies g1@.edges.contains_key(x)
        && g1@.edges[x] == v.edges[x] by {
        assert(w.edges.contains_key(x));
    }
    assert forall|n: NodeId| #[trigger] v.nodes.contains_key(n) implies g1@.nodes.contains_key(n)
        && (n != p && n != t.id() ==> g1@.nodes[n].body == v.nodes[n].body) by {
        assert(w.nodes.contains_key(n));
    }
}

// --------------------------------------------------------------------- stack ---

/// What is there between the user stack and the thread: the mapping, and a
/// kernel stack.
proof fn the_stack_is_taken<'a>(
    sa: State<'a>,
    s1: State<'a>,
    p: NodeId,
    space: NodeId,
    obj: Ref<MemoryObject>,
    entry: u64,
    hhdm: u64,
    stub: u64,
    grants: Seq<(NodeId, Rights)>,
    t: Ref<Thread>,
) -> (x: (State<'a>, Stack))
    requires
        crate::spawn::stack_mapped(
            sa,
            s1,
            p,
            space,
            obj,
            entry,
            hhdm,
            stub,
            grants,
            Ok::<Ref<Thread>, SpawnError>(t),
        ),
    ensures
        x.0.g.wf(),
        ({
            let e = sa.g.next_edge().idx();
            let v = x.0.g@;
            &&& v.edges.contains_key(e)
            &&& v.edges[e].kind == EdgeKind::Maps
            &&& v.edges[e].src == space
            &&& v.edges[e].dst == obj.id()
            &&& v.maps(e) == crate::spawn::stack_attr()
        }),
        crate::sched::stack_taken(
            x.0.mem,
            x.0.frames,
            s1.mem,
            s1.frames,
            hhdm,
            stub,
            Ok::<Stack, VmError>(x.1),
        ),
        crate::spawn::thread_made(
            x.0.g,
            s1.g,
            p,
            space,
            entry,
            x.1,
            grants,
            Ok::<Ref<Thread>, SpawnError>(t),
        ),
{
    let r = Ok::<Ref<Thread>, SpawnError>(t);
    let (sb, rm) = choose|sb: State<'_>, rm: Result<EdgeId, VmError>| #[trigger]
        crate::spawn::stack_linked(sa, sb, space, obj, rm) && match rm {
            Err(e) => r == Err::<Ref<Thread>, SpawnError>(SpawnError::Vm(e)) && s1 == sb,
            Ok(_) => crate::spawn::thread_started(
                sb,
                s1,
                p,
                space,
                entry,
                hhdm,
                stub,
                grants,
                r,
            ),
        };
    the_stack_is_linked(sa, sb, space, obj, rm);
    let rs = choose|rs: Result<Stack, VmError>| #[trigger]
        crate::sched::stack_taken(sb.mem, sb.frames, s1.mem, s1.frames, hhdm, stub, rs)
            && match rs {
            Err(e) => r == Err::<Ref<Thread>, SpawnError>(SpawnError::Vm(e)) && s1.g == sb.g,
            Ok(s) => crate::spawn::thread_made(sb.g, s1.g, p, space, entry, s, grants, r),
        };
    (sb, rs->Ok_0)
}

/// Once the user stack is mapped and the thread made, the thread has it.
#[verifier::spinoff_prover]
proof fn the_stack_is_there(
    sa: State<'_>,
    s1: State<'_>,
    p: NodeId,
    space: NodeId,
    obj: Ref<MemoryObject>,
    entry: u64,
    hhdm: u64,
    stub: u64,
    grants: Seq<(NodeId, Rights)>,
    t: Ref<Thread>,
) -> (s: Stack)
    requires
        p.kind() == Some(NodeKind::Process),
        space.kind() == Some(NodeKind::AddressSpace),
        crate::spawn::stack_mapped(
            sa,
            s1,
            p,
            space,
            obj,
            entry,
            hhdm,
            stub,
            grants,
            Ok::<Ref<Thread>, SpawnError>(t),
        ),
    ensures
        exists|e: u32| #[trigger] s1.g@.has_stack(t.id(), space, e),
        first_thread(s1.g@, t.id(), p, space, entry, s),
        s.phys + 32768 <= s1.mem.len() ==> laid_out(s1.mem, hhdm, stub, s),
        forall|i: int|
            0 <= i < grants.len() ==> s1.g@.holds_somewhere(p, (#[trigger] grants[i]).0, grants[i].1.0),
{
    let (sb, s) = the_stack_is_taken(sa, s1, p, space, obj, entry, hhdm, stub, grants, t);
    let edge = sa.g.next_edge();
    let v = sb.g@;
    the_thread_is_made(sb.g, s1.g, p, space, entry, s, grants, t);
    if s.phys + 32768 <= s1.mem.len() {
        a_stack_is_laid_out(sb.mem, sb.frames, s1.mem, s1.frames, hhdm, stub, s);
    }
    let e = edge.idx();
    assert(v.edges.contains_key(e));
    the_stack_stands(v, s1.g@, t.id(), space, e);
    s
}

/// A thread in the space, with its stack pointer and the mapping, has a stack.
proof fn the_stack_stands(v: GraphView, w: GraphView, t: NodeId, space: NodeId, e: u32)
    requires
        w.edges_kept(v),
        v.edges.contains_key(e),
        v.edges[e].kind == EdgeKind::Maps,
        v.edges[e].src == space,
        v.maps(e) == crate::spawn::stack_attr(),
        w.thread_in(t, space),
        w.thread(t).msg.words@[0] == crate::spawn::first_user_rsp(),
    ensures
        w.has_stack(t, space, e),
{
    let attr = crate::spawn::stack_attr();
    assert(w.edges.contains_key(e) && w.edges[e] == v.edges[e]);
    assert(w.maps(e) == attr);
    assert(11u8 & 8 == 8 && 11u8 & 4 == 0 && 11u8 & 1 == 1 && 11u8 & 2 == 2) by (bit_vector);
    assert forall|a: int|
        attr.vaddr <= a < attr.vaddr + attr.len_pages * 4096 implies w.byte_usable(space, a, 1)
        && #[trigger] w.byte_usable(space, a, 2) by {
        assert(w.edges.contains_key(e));
    }
}

/// The mapping of the user stack is an edge of the space.
proof fn the_stack_is_linked(
    sa: State<'_>,
    sb: State<'_>,
    space: NodeId,
    obj: Ref<MemoryObject>,
    rm: Result<EdgeId, VmError>,
)
    requires
        crate::spawn::stack_linked(sa, sb, space, obj, rm),
        rm is Ok,
    ensures
        sb.g.wf(),
        ({
            let e = sa.g.next_edge().idx();
            &&& sb.g@.edges.contains_key(e)
            &&& sb.g@.edges[e].kind == EdgeKind::Maps
            &&& sb.g@.edges[e].src == space
            &&& sb.g@.edges[e].dst == obj.id()
            &&& sb.g@.maps(e) == crate::spawn::stack_attr()
        }),
{
    crate::spawn::stack_attr().round_trip();
}

/// What a kernel stack holds when a thread is first switched to it: at its
/// stack pointer six zero registers, flags with interrupts on, and the address
/// to go on at; and the canary at its bottom.
pub open spec fn laid_out(mem: Seq<u8>, hhdm: u64, entry: u64, s: Stack) -> bool {
    let at = s.saved_rsp - hhdm;
    &&& s.top == hhdm + s.phys + 32768
    &&& s.phys <= at
    &&& s.saved_rsp + 72 == s.top
    &&& forall|k: int| 0 <= k < 48 ==> #[trigger] mem[at + k] == 0
    &&& crate::edge::le64(mem, at + 48) == 0x202
    &&& crate::edge::le64(mem, at + 56) == entry
    &&& crate::edge::le64(mem, s.phys as int) == 0xB2AB_1E57_AC4C_A4A1
}

/// A kernel stack that was taken is laid out for its first switch.
#[verifier::spinoff_prover]
pub proof fn a_stack_is_laid_out(
    m0: Seq<u8>,
    f0: Option<crate::frames::FrameAllocator<'_>>,
    m1: Seq<u8>,
    f1: Option<crate::frames::FrameAllocator<'_>>,
    hhdm: u64,
    entry: u64,
    s: Stack,
)
    requires
        crate::sched::stack_taken(m0, f0, m1, f1, hhdm, entry, Ok::<Stack, VmError>(s)),
        s.phys + 32768 <= m0.len(),
    ensures
        laid_out(m1, hhdm, entry, s),
{
    let top = s.phys + 32768;
    let at = top - 72;
    let f = crate::sched::first_frame(entry);
    let a = crate::mem::overwritten(m0, at, f);
    assert(s.saved_rsp - hhdm == at);
    assert(f.len() == 72);
    assert(f.subrange(48, 56) =~= crate::edge::u64_bytes(0x202));
    assert(f.subrange(56, 64) =~= crate::edge::u64_bytes(entry));
    assert forall|k: int| 0 <= k < 72 implies #[trigger] m1[at + k] == f[k] by {}
    assert(m1.subrange(at + 48, at + 56) =~= f.subrange(48, 56)) by {
        assert forall|k: int| 48 <= k < 56 implies #[trigger] m1[at + k] == f[k] by {}
    }
    assert(m1.subrange(at + 56, at + 64) =~= f.subrange(56, 64)) by {
        assert forall|k: int| 56 <= k < 64 implies #[trigger] m1[at + k] == f[k] by {}
    }
    crate::edge::le64_reads_u64_bytes(m1, at + 48, 0x202);
    crate::edge::le64_reads_u64_bytes(m1, at + 56, entry);
    assert(m1.subrange(s.phys as int, s.phys + 8) =~= crate::edge::u64_bytes(
        crate::sched::STACK_CANARY,
    ));
    crate::edge::le64_reads_u64_bytes(m1, s.phys as int, crate::sched::STACK_CANARY);
}

// ------------------------------------------------------------------ processes ---

/// What comes of an image that was prepared: from the process that was made to
/// the user stack that was mapped.
proof fn down_to_the_stack<'a>(
    s0: State<'a>,
    s1: State<'a>,
    owner: NodeId,
    bytes: Seq<u8>,
    active: u64,
    hhdm: u64,
    stub: u64,
    grants: Seq<(NodeId, Rights)>,
    p: Ref<Process>,
    t: Ref<Thread>,
) -> (x: (State<'a>, NodeId, Ref<MemoryObject>, u64))
    requires
        crate::spawn::prepared(
            s0,
            s1,
            owner,
            bytes,
            active,
            hhdm,
            stub,
            grants,
            Ok::<(Ref<Process>, Ref<Thread>), SpawnError>((p, t)),
        ),
    ensures
        p.id().kind() == Some(NodeKind::Process),
        !s0.g@.live(p.id()),
        x.1.kind() == Some(NodeKind::AddressSpace),
        x.3 == crate::edge::le64(bytes, 24),
        crate::elf::parse_error(bytes) is None,
        crate::spawn::stack_mapped(
            x.0,
            s1,
            p.id(),
            x.1,
            x.2,
            x.3,
            hhdm,
            stub,
            grants,
            Ok::<Ref<Thread>, SpawnError>(t),
        ),
{
    reveal(crate::spawn::prepared);
    let r = Ok::<(Ref<Process>, Ref<Thread>), SpawnError>((p, t));
    let rt = Ok::<Ref<Thread>, SpawnError>(t);
    let (image, ga, rp) = choose|image: Image<'_>, ga: Graph, rp: Result<
        Ref<Process>,
        GraphError,
    >| #[trigger]
        crate::spawn::prepared_through(
            s0,
            s1,
            owner,
            bytes,
            active,
            hhdm,
            stub,
            grants,
            r,
            image,
            ga,
            rp,
        );
    assert(rp == Ok::<Ref<Process>, GraphError>(p));
    assert(crate::spawn::parsed(bytes, image));
    let sp = State { g: ga, mem: s0.mem, frames: s0.frames };
    let id = p.id();
    assert(crate::spawn::space_built(sp, s1, id, image, active, hhdm, stub, grants, rt));
    let (sa, rs) = choose|sa: State<'a>, rs: Result<Ref<crate::body::AddressSpace>, VmError>| #[trigger]
        crate::spawn::space_taken(sp, sa, active, id, rs) && match rs {
            Err(e) => rt == Err::<Ref<Thread>, SpawnError>(SpawnError::Vm(e)) && s1 == sa,
            Ok(space) => crate::spawn::image_loaded(
                sa,
                s1,
                id,
                space.id(),
                image,
                hhdm,
                stub,
                grants,
                rt,
            ),
        };
    let space = rs->Ok_0.id();
    crate::laws_spawn::new_space_kind(sp, sa, active, id, rs);
    let (sb, rl) = choose|sb: State<'a>, rl: Result<(), SpawnError>| #[trigger]
        crate::load::loaded(sa, sb, image, id, space, rl) && sb.g.wf() && match rl {
            Err(e) => rt == Err::<Ref<Thread>, SpawnError>(e) && s1 == sb,
            Ok(_) => crate::spawn::stack_made(
                sb,
                s1,
                id,
                space,
                image.entry,
                hhdm,
                stub,
                grants,
                rt,
            ),
        };
    let (sc, ro) = choose|sc: State<'a>, ro: Result<Ref<MemoryObject>, VmError>| #[trigger]
        crate::spawn::stack_allocated(sb, sc, id, ro) && match ro {
            Err(e) => rt == Err::<Ref<Thread>, SpawnError>(SpawnError::Vm(e)) && s1 == sc,
            Ok(obj) => crate::spawn::stack_mapped(
                sc,
                s1,
                id,
                space,
                obj,
                image.entry,
                hhdm,
                stub,
                grants,
                rt,
            ),
        };
    (sc, space, ro->Ok_0, image.entry)
}

/// A process that was prepared has a stack: its first thread's stack pointer is
/// sixteen bytes below the end of a mapping of its own space, aligned, with
/// every byte below it in the mapping readable and writable.
pub proof fn a_new_process_has_its_stack(
    s0: State<'_>,
    s1: State<'_>,
    owner: NodeId,
    bytes: Seq<u8>,
    active: u64,
    hhdm: u64,
    stub: u64,
    grants: Seq<(NodeId, Rights)>,
    p: Ref<Process>,
    t: Ref<Thread>,
)
    requires
        crate::spawn::prepared(
            s0,
            s1,
            owner,
            bytes,
            active,
            hhdm,
            stub,
            grants,
            Ok::<(Ref<Process>, Ref<Thread>), SpawnError>((p, t)),
        ),
    ensures
        exists|s: NodeId, e: u32| #[trigger] s1.g@.has_stack(t.id(), s, e),
{
    let x = down_to_the_stack(s0, s1, owner, bytes, active, hhdm, stub, grants, p, t);
    let s = the_stack_is_there(x.0, s1, p.id(), x.1, x.2, x.3, hhdm, stub, grants, t);
}

/// A process that was prepared is new, and so is its first thread, which it
/// owns. The thread will go on at the image's entry point, in a space on whose
/// page tables it runs. It is not running, and its kernel stack is laid out to
/// enter where it was asked to. The process holds what it was to get.
pub proof fn a_new_process_starts_at_its_entry(
    s0: State<'_>,
    s1: State<'_>,
    owner: NodeId,
    bytes: Seq<u8>,
    active: u64,
    hhdm: u64,
    stub: u64,
    grants: Seq<(NodeId, Rights)>,
    p: Ref<Process>,
    t: Ref<Thread>,
)
    requires
        crate::spawn::prepared(
            s0,
            s1,
            owner,
            bytes,
            active,
            hhdm,
            stub,
            grants,
            Ok::<(Ref<Process>, Ref<Thread>), SpawnError>((p, t)),
        ),
    ensures
        !s0.g@.live(p.id()),
        p.id().kind() == Some(NodeKind::Process),
        exists|space: NodeId, s: Stack| #[trigger]
            first_thread(
                s1.g@,
                t.id(),
                p.id(),
                space,
                crate::edge::le64(bytes, 24),
                s,
            ) && (s.phys + 32768 <= s1.mem.len() ==> laid_out(s1.mem, hhdm, stub, s)),
        forall|i: int|
            0 <= i < grants.len() ==> s1.g@.holds_somewhere(p.id(), (#[trigger] grants[i]).0, grants[i].1.0),
{
    let x = down_to_the_stack(s0, s1, owner, bytes, active, hhdm, stub, grants, p, t);
    let s = the_stack_is_there(x.0, s1, p.id(), x.1, x.2, x.3, hhdm, stub, grants, t);
    assert(first_thread(s1.g@, t.id(), p.id(), x.1, x.3, s));
}

} // verus!
