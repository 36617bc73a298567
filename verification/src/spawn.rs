//! Loading an executable and making it runnable.

use vstd::prelude::*;

use crate::body::{
    AddressSpace, Cpu, MemoryObject, Message, NodeBody, Process, Rights, Root, Thread,
};
use crate::edge::{Dir, MapFlags, MapsAttr, Prot};
use crate::elf::Image;
use crate::frames::FrameAllocator;
use crate::graph::{Graph, GraphError, Ref};
use crate::id::{EdgeId, EdgeKind, NodeId, NodeKind};
use crate::load::{load_segments, State};
use crate::proc::{SpawnError, USER_STACK_BASE, USER_STACK_PAGES};
use crate::sched::{take_stack, Stack, KSTACK_PAGES};
use crate::vm::{alloc_object_for, create_space_for, VmError};

verus! {

/// Who a new process belongs to, and dies with.
#[derive(Clone, Copy, Debug)]
pub enum Owner {
    Root(Ref<Root>),
    Process(Ref<Process>),
}

impl Owner {
    pub open spec fn spec_id(self) -> NodeId {
        match self {
            Owner::Root(r) => r.id(),
            Owner::Process(p) => p.id(),
        }
    }
}

/// Where the user stack pointer starts: sixteen bytes of headroom below the
/// top.
pub open spec fn first_user_rsp() -> u64 {
    (USER_STACK_BASE + USER_STACK_PAGES * 4096 - 16) as u64
}

/// The mapping of the user stack.
pub open spec fn stack_attr() -> MapsAttr {
    MapsAttr {
        vaddr: USER_STACK_BASE,
        len_pages: USER_STACK_PAGES,
        off_pages: 0,
        prot: Prot(11),
        flags: MapFlags(0),
    }
}

// ------------------------------------------------------------------ grants ---

/// One capability was granted.
pub open spec fn granted_one(ga: Graph, gb: Graph, p: NodeId, grant: (NodeId, Rights)) -> bool {
    gb.capability_granted(
        ga,
        p,
        grant.0,
        grant.1,
        Ok::<u32, GraphError>(ga@.process(p).free_slot()->Some_0),
    )
}

/// The graphs that granting capabilities one by one goes through.
pub open spec fn grants_steps(
    trace: Seq<Graph>,
    g0: Graph,
    g1: Graph,
    p: NodeId,
    grants: Seq<(NodeId, Rights)>,
    r: Result<(), SpawnError>,
) -> bool {
    &&& trace.len() > 0
    &&& trace[0] == g0
    &&& trace.last() == g1
    &&& trace.len() <= grants.len() + 1
    &&& forall|i: int| 0 <= i < trace.len() ==> (#[trigger] trace[i]).wf()
    &&& forall|i: int|
        0 <= i < trace.len() - 1 ==> granted_one(trace[i], trace[i + 1], p, #[trigger] grants[i])
    &&& match r {
        Ok(_) => trace.len() == grants.len() + 1,
        Err(e) => {
            let k = trace.len() - 1;
            &&& k < grants.len()
            &&& e is Graph
            &&& g1.grant_refusal(p, grants[k].0) == Some(e->Graph_0)
        },
    }
}

pub open spec fn grants_done(
    g0: Graph,
    g1: Graph,
    p: NodeId,
    grants: Seq<(NodeId, Rights)>,
    r: Result<(), SpawnError>,
) -> bool {
    exists|trace: Seq<Graph>| #[trigger] grants_steps(trace, g0, g1, p, grants, r)
}

/// Give a process its starting capabilities, in order.
fn grant_all(g: &mut Graph, p: Ref<Process>, grants: &Vec<(NodeId, Rights)>) -> (r: Result<
    (),
    SpawnError,
>)
    requires
        old(g).wf(),
        old(g).seq + grants@.len() < u64::MAX,
    ensures
        final(g).wf(),
        grants_done(*old(g), *final(g), p.id(), grants@, r),
        final(g).seq <= old(g).seq + grants@.len(),
        forall|id: NodeId| old(g)@.live(id) ==> #[trigger] final(g)@.live(id),
        final(g)@.since(old(g)@),
{
    let ghost mut trace: Seq<Graph> = seq![*g];
    let mut i: usize = 0;
    while i < grants.len()
        invariant
            i <= grants@.len(),
            g.wf(),
            g@.since(old(g)@),
            old(g).seq + grants@.len() < u64::MAX,
            g.seq <= old(g).seq + i,
            forall|id: NodeId| old(g)@.live(id) ==> #[trigger] g@.live(id),
            trace.len() == i + 1,
            trace[0] == *old(g),
            trace.last() == *g,
            forall|k: int| 0 <= k < trace.len() ==> (#[trigger] trace[k]).wf(),
            forall|k: int|
                0 <= k < trace.len() - 1 ==> granted_one(
                    trace[k],
                    trace[k + 1],
                    p.id(),
                    #[trigger] grants@[k],
                ),
        decreases grants@.len() - i,
    {
        let (target, rights): (NodeId, Rights) = grants[i];
        let ghost before = trace;
        let ghost v = g@;
        assert(grants@[i as int] == (target, rights));
        match g.grant_raw(p, target, rights) {
            Err(e) => {
                let r = Err(SpawnError::Graph(e));
                assert(grants_steps(trace, *old(g), *g, p.id(), grants@, r));
                return r;
            },
            Ok(_) => {
                proof {
                    assert forall|id: NodeId| old(g)@.live(id) implies #[trigger] g@.live(id) by {
                        assert(v.live(id));
                    }
                    trace = trace.push(*g);
                    assert forall|k: int| 0 <= k < trace.len() - 1 implies granted_one(
                        trace[k],
                        trace[k + 1],
                        p.id(),
                        #[trigger] grants@[k],
                    ) by {
                        if k < i {
                            assert(trace[k] == before[k] && trace[k + 1] == before[k + 1]);
                        } else {
                            assert(trace[k] == before.last());
                        }
                    }
                }
            },
        }
        i = i + 1;
    }
    let r = Ok(());
    assert(grants_steps(trace, *old(g), *g, p.id(), grants@, r));
    r
}

// ------------------------------------------------------------------ thread ---

/// The first thread of a program. The graph records the user stack pointer, so
/// a snapshot shows where a thread was without needing to read its registers.
pub open spec fn is_first_thread(t: Thread, p: NodeId, entry: u64, pml4: u64, s: Stack) -> bool {
    &&& t == Thread {
        kstack_top: s.top,
        saved_rsp: s.saved_rsp,
        user_entry: entry,
        cr3: pml4,
        owner_proc: p,
        msg: Message { words: t.msg.words, ..Message::spec_zero() },
        ..Thread::spec_zero()
    }
    &&& t.msg.words@ == Message::spec_zero().words@.update(0, first_user_rsp())
}

/// What making the first thread does, in order: the thread under the process,
/// its kernel stack under the thread, its address space, and the process's
/// capabilities. The first refusal stops it there.
pub open spec fn thread_made(
    g0: Graph,
    g1: Graph,
    p: NodeId,
    space: NodeId,
    entry: u64,
    s: Stack,
    grants: Seq<(NodeId, Rights)>,
    r: Result<Ref<Thread>, SpawnError>,
) -> bool {
    exists|body: Thread, ga: Graph, ra: Result<Ref<Thread>, GraphError>| #[trigger]
        ga.created(g0, p, body, ra) && ga.wf() && is_first_thread(
            body,
            p,
            entry,
            g0@.space(space).pml4_phys,
            s,
        ) && match ra {
            Err(e) => r == Err::<Ref<Thread>, SpawnError>(SpawnError::Graph(e)) && g1 == ga,
            Ok(t) => stack_owned(ga, g1, p, space, t, s, grants, r),
        }
}

/// The kernel stack goes under the thread.
pub open spec fn stack_owned(
    ga: Graph,
    g1: Graph,
    p: NodeId,
    space: NodeId,
    t: Ref<Thread>,
    s: Stack,
    grants: Seq<(NodeId, Rights)>,
    r: Result<Ref<Thread>, SpawnError>,
) -> bool {
    exists|gb: Graph, rb: Result<Ref<MemoryObject>, GraphError>| #[trigger]
        gb.created(ga, t.id(), crate::vm::fresh_object(s.phys, KSTACK_PAGES), rb) && gb.wf()
            && match rb {
            Err(e) => r == Err::<Ref<Thread>, SpawnError>(SpawnError::Graph(e)) && g1 == gb,
            Ok(_) => space_entered(gb, g1, p, space, t, grants, r),
        }
}

/// The thread runs in the space, and the process gets its capabilities.
pub open spec fn space_entered(
    gb: Graph,
    g1: Graph,
    p: NodeId,
    space: NodeId,
    t: Ref<Thread>,
    grants: Seq<(NodeId, Rights)>,
    r: Result<Ref<Thread>, SpawnError>,
) -> bool {
    match gb.link_refusal(t.id(), EdgeKind::InSpace, space) {
        Some(e) => r == Err::<Ref<Thread>, SpawnError>(SpawnError::Graph(e)) && g1 == gb,
        None => exists|gc: Graph, e: EdgeId, rg: Result<(), SpawnError>|
            gc@ == #[trigger] gb@.bound(t.id(), space, e) && gb@.unlink_first(
                t.id(),
                Dir::Out,
                EdgeKind::InSpace,
            ).unused(e) && gc.wf() && #[trigger] grants_done(
                gc,
                g1,
                p,
                grants,
                rg,
            ) && r == match rg {
                Ok(_) => Ok::<Ref<Thread>, SpawnError>(t),
                Err(e) => Err::<Ref<Thread>, SpawnError>(e),
            },
    }
}

fn make_thread(
    g: &mut Graph,
    p: Ref<Process>,
    space: Ref<AddressSpace>,
    entry: u64,
    s: Stack,
    grants: &Vec<(NodeId, Rights)>,
) -> (r: Result<Ref<Thread>, SpawnError>)
    requires
        old(g).wf(),
        old(g)@.live(space.id()),
        old(g).seq + grants@.len() + 4 < u64::MAX,
    ensures
        final(g).wf(),
        thread_made(*old(g), *final(g), p.id(), space.id(), entry, s, grants@, r),
        final(g).seq <= old(g).seq + grants@.len() + 4,
        r matches Ok(t) ==> final(g)@.live(t.id()),
        final(g)@.since(old(g)@),
{
    let ghost g0 = *g;
    proof {
        assert(g@.nodes.contains_key(space.id()));
        assert(g@.node_ok(space.id()));
    }
    let pml4: u64 = match g.body(space) {
        Some(b) => b.pml4_phys,
        None => return Err(SpawnError::Vm(VmError::StaleSpace)),
    };
    assert(pml4 == g0@.space(space.id()).pml4_phys);
    let mut msg: Message = Message::zero();
    let rsp: u64 = USER_STACK_BASE + USER_STACK_PAGES as u64 * 4096 - 16;
    msg.words[0] = rsp;
    let body = Thread {
        kstack_top: s.top,
        saved_rsp: s.saved_rsp,
        user_entry: entry,
        cr3: pml4,
        owner_proc: p.id(),
        msg,
        ..Thread::zero()
    };
    assert(is_first_thread(body, p.id(), entry, pml4, s));
    let ra = g.create_under_process(p, body);
    let ghost ga = *g;
    assert(ga.created(g0, p.id(), body, ra));
    let t = match ra {
        Ok(t) => t,
        Err(e) => return Err(SpawnError::Graph(e)),
    };
    own_stack(g, p, space, t, s, grants)
}

fn own_stack(
    g: &mut Graph,
    p: Ref<Process>,
    space: Ref<AddressSpace>,
    t: Ref<Thread>,
    s: Stack,
    grants: &Vec<(NodeId, Rights)>,
) -> (r: Result<Ref<Thread>, SpawnError>)
    requires
        old(g).wf(),
        old(g)@.live(t.id()),
        old(g).seq + grants@.len() + 3 < u64::MAX,
    ensures
        final(g).wf(),
        stack_owned(*old(g), *final(g), p.id(), space.id(), t, s, grants@, r),
        final(g).seq <= old(g).seq + grants@.len() + 3,
        r matches Ok(x) ==> final(g)@.live(x.id()),
        final(g)@.since(old(g)@),
{
    let ghost g0 = *g;
    let stack = MemoryObject { phys_base: s.phys, pages: KSTACK_PAGES, ..MemoryObject::zero() };
    let rb = g.create_under_thread(t, stack);
    let ghost gb = *g;
    assert(gb.created(g0, t.id(), crate::vm::fresh_object(s.phys, KSTACK_PAGES), rb));
    match rb {
        Err(e) => Err(SpawnError::Graph(e)),
        Ok(_) => enter_space(g, p, space, t, grants),
    }
}

fn enter_space(
    g: &mut Graph,
    p: Ref<Process>,
    space: Ref<AddressSpace>,
    t: Ref<Thread>,
    grants: &Vec<(NodeId, Rights)>,
) -> (r: Result<Ref<Thread>, SpawnError>)
    requires
        old(g).wf(),
        old(g)@.live(t.id()),
        old(g).seq + grants@.len() + 2 < u64::MAX,
    ensures
        final(g).wf(),
        space_entered(*old(g), *final(g), p.id(), space.id(), t, grants@, r),
        final(g).seq <= old(g).seq + grants@.len() + 2,
        r matches Ok(x) ==> final(g)@.live(x.id()),
        final(g)@.since(old(g)@),
{
    let ghost g0 = *g;
    let e = match g.link_in_space(t, space) {
        Ok(e) => e,
        Err(e) => return Err(SpawnError::Graph(e)),
    };
    let ghost gc = *g;
    assert(gc@ == g0@.bound(t.id(), space.id(), e));
    let rg = grant_all(g, p, grants);
    assert(grants_done(gc, *g, p.id(), grants@, rg));
    match rg {
        Ok(_) => Ok(t),
        Err(e) => Err(e),
    }
}

// ------------------------------------------------------------------- steps ---

/// The bytes hold this image.
pub open spec fn parsed(b: Seq<u8>, image: Image<'_>) -> bool {
    &&& crate::elf::parse_error(b) is None
    &&& image.wf()
    &&& image.bytes@ == b
    &&& image.entry == crate::edge::le64(b, 24)
    &&& image.ph_offset == crate::edge::le64(b, 32)
    &&& image.ph_entry_size == crate::mem::le16(b, 54)
    &&& image.ph_count == crate::mem::le16(b, 56)
}

/// After the user stack is there: a kernel stack, and the first thread on it.
pub open spec fn thread_started(
    s0: State<'_>,
    s1: State<'_>,
    p: NodeId,
    space: NodeId,
    entry: u64,
    hhdm: u64,
    stub: u64,
    grants: Seq<(NodeId, Rights)>,
    r: Result<Ref<Thread>, SpawnError>,
) -> bool {
    exists|rs: Result<Stack, VmError>| #[trigger]
        crate::sched::stack_taken(s0.mem, s0.frames, s1.mem, s1.frames, hhdm, stub, rs) && match rs {
            Err(e) => r == Err::<Ref<Thread>, SpawnError>(SpawnError::Vm(e)) && s1.g == s0.g,
            Ok(s) => thread_made(s0.g, s1.g, p, space, entry, s, grants, r),
        }
}

/// After the image is loaded: a user stack, and the rest.
pub open spec fn stack_made(
    s0: State<'_>,
    s1: State<'_>,
    p: NodeId,
    space: NodeId,
    entry: u64,
    hhdm: u64,
    stub: u64,
    grants: Seq<(NodeId, Rights)>,
    r: Result<Ref<Thread>, SpawnError>,
) -> bool {
    exists|sa: State<'_>, ro: Result<Ref<MemoryObject>, VmError>| #[trigger]
        stack_allocated(s0, sa, p, ro) && match ro {
            Err(e) => r == Err::<Ref<Thread>, SpawnError>(SpawnError::Vm(e)) && s1 == sa,
            Ok(obj) => stack_mapped(sa, s1, p, space, obj, entry, hhdm, stub, grants, r),
        }
}

pub open spec fn stack_allocated(
    s0: State<'_>,
    sa: State<'_>,
    p: NodeId,
    ro: Result<Ref<MemoryObject>, VmError>,
) -> bool {
    &&& sa.g.wf()
    &&& sa.mem == s0.mem
    &&& crate::vm::object_made(s0.g, s0.frames, sa.g, sa.frames, p, USER_STACK_PAGES, ro)
}

pub open spec fn stack_mapped(
    sa: State<'_>,
    s1: State<'_>,
    p: NodeId,
    space: NodeId,
    obj: Ref<MemoryObject>,
    entry: u64,
    hhdm: u64,
    stub: u64,
    grants: Seq<(NodeId, Rights)>,
    r: Result<Ref<Thread>, SpawnError>,
) -> bool {
    exists|sb: State<'_>, rm: Result<EdgeId, VmError>| #[trigger]
        stack_linked(sa, sb, space, obj, rm) && match rm {
            Err(e) => r == Err::<Ref<Thread>, SpawnError>(SpawnError::Vm(e)) && s1 == sb,
            Ok(_) => thread_started(sb, s1, p, space, entry, hhdm, stub, grants, r),
        }
}

pub open spec fn stack_linked(
    sa: State<'_>,
    sb: State<'_>,
    space: NodeId,
    obj: Ref<MemoryObject>,
    rm: Result<EdgeId, VmError>,
) -> bool {
    sb.g.wf() && crate::vm::map_done(
        sa.g,
        sa.mem,
        sa.frames,
        sb.g,
        sb.mem,
        sb.frames,
        space,
        obj.id(),
        stack_attr(),
        rm,
    )
}

/// After the space is there: the image, and the rest.
pub open spec fn image_loaded(
    s0: State<'_>,
    s1: State<'_>,
    p: NodeId,
    space: NodeId,
    image: Image<'_>,
    hhdm: u64,
    stub: u64,
    grants: Seq<(NodeId, Rights)>,
    r: Result<Ref<Thread>, SpawnError>,
) -> bool {
    exists|sa: State<'_>, rl: Result<(), SpawnError>| #[trigger]
        crate::load::loaded(s0, sa, image, p, space, rl) && sa.g.wf() && match rl {
            Err(e) => r == Err::<Ref<Thread>, SpawnError>(e) && s1 == sa,
            Ok(_) => stack_made(sa, s1, p, space, image.entry, hhdm, stub, grants, r),
        }
}

/// After the process is there: an address space, and the rest.
pub open spec fn space_built(
    s0: State<'_>,
    s1: State<'_>,
    p: NodeId,
    image: Image<'_>,
    active: u64,
    hhdm: u64,
    stub: u64,
    grants: Seq<(NodeId, Rights)>,
    r: Result<Ref<Thread>, SpawnError>,
) -> bool {
    exists|sa: State<'_>, rs: Result<Ref<AddressSpace>, VmError>| #[trigger]
        space_taken(s0, sa, active, p, rs) && match rs {
            Err(e) => r == Err::<Ref<Thread>, SpawnError>(SpawnError::Vm(e)) && s1 == sa,
            Ok(space) => image_loaded(sa, s1, p, space.id(), image, hhdm, stub, grants, r),
        }
}

pub open spec fn space_taken(
    s0: State<'_>,
    sa: State<'_>,
    active: u64,
    p: NodeId,
    rs: Result<Ref<AddressSpace>, VmError>,
) -> bool {
    sa.g.wf() && crate::vm::space_made(
        s0.g,
        s0.mem,
        s0.frames,
        sa.g,
        sa.mem,
        sa.frames,
        active,
        p,
        rs,
    )
}

/// What the loader works with: memory, the allocator over it, and the direct
/// map it is all reached through.
pub open spec fn machine_ok(mem: Seq<u8>, frames: Option<FrameAllocator<'_>>, hhdm: u64) -> bool {
    &&& hhdm + mem.len() <= u64::MAX
    &&& frames matches Some(fa) ==> fa.wf() && crate::paging::covers(fa, mem)
}

fn start_thread(
    g: &mut Graph,
    mem: &mut [u8],
    frames: &mut Option<FrameAllocator<'_>>,
    p: Ref<Process>,
    space: Ref<AddressSpace>,
    entry: u64,
    hhdm: u64,
    stub: u64,
    grants: &Vec<(NodeId, Rights)>,
) -> (r: Result<Ref<Thread>, SpawnError>)
    requires
        old(g).wf(),
        old(g)@.live(space.id()),
        old(g).seq + grants@.len() + 4 < u64::MAX,
        machine_ok(old(mem)@, *old(frames), hhdm),
    ensures
        final(g).wf(),
        thread_started(
            State { g: *old(g), mem: old(mem)@, frames: *old(frames) },
            State { g: *final(g), mem: final(mem)@, frames: *final(frames) },
            p.id(),
            space.id(),
            entry,
            hhdm,
            stub,
            grants@,
            r,
        ),
        final(g).seq <= old(g).seq + grants@.len() + 4,
        r matches Ok(t) ==> final(g)@.live(t.id()),
        final(g)@.since(old(g)@),
{
    let ghost s0 = State { g: *g, mem: mem@, frames: *frames };
    let rs = take_stack(mem, frames, hhdm, stub);
    assert(crate::sched::stack_taken(s0.mem, s0.frames, mem@, *frames, hhdm, stub, rs));
    let r = match rs {
        Ok(s) => make_thread(g, p, space, entry, s, grants),
        Err(e) => Err(SpawnError::Vm(e)),
    };
    proof {
        let s1 = State { g: *g, mem: mem@, frames: *frames };
        assert(crate::sched::stack_taken(s0.mem, s0.frames, s1.mem, s1.frames, hhdm, stub, rs));
        assert(thread_started(s0, s1, p.id(), space.id(), entry, hhdm, stub, grants@, r));
    }
    r
}

fn make_stack(
    g: &mut Graph,
    mem: &mut [u8],
    frames: &mut Option<FrameAllocator<'_>>,
    p: Ref<Process>,
    space: Ref<AddressSpace>,
    entry: u64,
    hhdm: u64,
    stub: u64,
    grants: &Vec<(NodeId, Rights)>,
) -> (r: Result<Ref<Thread>, SpawnError>)
    requires
        crate::load::loadable(
            State { g: *old(g), mem: old(mem)@, frames: *old(frames) },
            space.id(),
        ),
        old(g).seq + grants@.len() + 7 < u64::MAX,
        machine_ok(old(mem)@, *old(frames), hhdm),
    ensures
        final(g).wf(),
        stack_made(
            State { g: *old(g), mem: old(mem)@, frames: *old(frames) },
            State { g: *final(g), mem: final(mem)@, frames: *final(frames) },
            p.id(),
            space.id(),
            entry,
            hhdm,
            stub,
            grants@,
            r,
        ),
        final(g).seq <= old(g).seq + grants@.len() + 7,
        r matches Ok(t) ==> final(g)@.live(t.id()),
        final(g)@.since(old(g)@),
{
    let ghost s0 = State { g: *g, mem: mem@, frames: *frames };
    let ghost root = crate::vm::root_in(g@, space.id());
    let ro = alloc_object_for(g, frames, p, USER_STACK_PAGES);
    let ghost sa = State { g: *g, mem: mem@, frames: *frames };
    assert(stack_allocated(s0, sa, p.id(), ro));
    let obj = match ro {
        Ok(o) => o,
        Err(e) => return Err(SpawnError::Vm(e)),
    };
    let ghost fa = s0.frames->Some_0;
    let ghost fb = sa.frames->Some_0;
    proof {
        let at = choose|phys: u64| #[trigger]
            crate::vm::object_made_at(
                s0.g,
                fa,
                *g,
                *frames,
                p.id(),
                USER_STACK_PAGES,
                ro,
                phys,
            );
        assert(crate::vm::object_made_at(
            s0.g,
            fa,
            *g,
            *frames,
            p.id(),
            USER_STACK_PAGES,
            ro,
            at,
        ));
        let v1 = g@;
        assert(v1.nodes.contains_key(obj.id()));
        assert(v1.nodes[obj.id()].body == crate::vm::fresh_object(at, USER_STACK_PAGES).erase());
        assert(v1.memobj(obj.id()) == crate::vm::fresh_object(at, USER_STACK_PAGES));
        assert(crate::vm::root_in(v1, space.id()) == root);
        assert(at + USER_STACK_PAGES * 4096 <= mem@.len());
        crate::load::ready_after_taking(fa, fb, mem@, mem@, root);
    }
    map_stack(g, mem, frames, p, space, obj, entry, hhdm, stub, grants)
}

fn map_stack(
    g: &mut Graph,
    mem: &mut [u8],
    frames: &mut Option<FrameAllocator<'_>>,
    p: Ref<Process>,
    space: Ref<AddressSpace>,
    obj: Ref<MemoryObject>,
    entry: u64,
    hhdm: u64,
    stub: u64,
    grants: &Vec<(NodeId, Rights)>,
) -> (r: Result<Ref<Thread>, SpawnError>)
    requires
        crate::load::loadable(
            State { g: *old(g), mem: old(mem)@, frames: *old(frames) },
            space.id(),
        ),
        old(g)@.live(obj.id()) ==> old(g)@.memobj(obj.id()).map_count < u32::MAX && old(
            g,
        )@.memobj(obj.id()).phys_base + old(g)@.memobj(obj.id()).pages * 4096 <= u64::MAX,
        old(g).seq + grants@.len() + 6 < u64::MAX,
        machine_ok(old(mem)@, *old(frames), hhdm),
    ensures
        final(g).wf(),
        stack_mapped(
            State { g: *old(g), mem: old(mem)@, frames: *old(frames) },
            State { g: *final(g), mem: final(mem)@, frames: *final(frames) },
            p.id(),
            space.id(),
            obj,
            entry,
            hhdm,
            stub,
            grants@,
            r,
        ),
        final(g).seq <= old(g).seq + grants@.len() + 6,
        r matches Ok(t) ==> final(g)@.live(t.id()),
        final(g)@.since(old(g)@),
{
    let ghost sa = State { g: *g, mem: mem@, frames: *frames };
    let attr = MapsAttr {
        vaddr: USER_STACK_BASE,
        len_pages: USER_STACK_PAGES,
        off_pages: 0,
        prot: Prot::rwu(),
        flags: MapFlags::none(),
    };
    assert(attr == stack_attr());
    let rm = crate::vm::map(g, mem, frames, space, obj, attr);
    let ghost sb = State { g: *g, mem: mem@, frames: *frames };
    proof {
        crate::load::map_done_loadable(
            sa.g,
            sa.mem,
            sa.frames,
            sb.g,
            sb.mem,
            sb.frames,
            space.id(),
            obj.id(),
            attr,
            rm,
        );
        assert(stack_linked(sa, sb, space.id(), obj, rm));
    }
    match rm {
        Err(e) => Err(SpawnError::Vm(e)),
        Ok(_) => start_thread(g, mem, frames, p, space, entry, hhdm, stub, grants),
    }
}

fn load_image(
    g: &mut Graph,
    mem: &mut [u8],
    frames: &mut Option<FrameAllocator<'_>>,
    p: Ref<Process>,
    space: Ref<AddressSpace>,
    image: &Image<'_>,
    hhdm: u64,
    stub: u64,
    grants: &Vec<(NodeId, Rights)>,
) -> (r: Result<Ref<Thread>, SpawnError>)
    requires
        image.wf(),
        image.fits(),
        crate::load::loadable(
            State { g: *old(g), mem: old(mem)@, frames: *old(frames) },
            space.id(),
        ),
        old(g).seq + grants@.len() + 64 < u64::MAX,
        machine_ok(old(mem)@, *old(frames), hhdm),
    ensures
        final(g).wf(),
        image_loaded(
            State { g: *old(g), mem: old(mem)@, frames: *old(frames) },
            State { g: *final(g), mem: final(mem)@, frames: *final(frames) },
            p.id(),
            space.id(),
            *image,
            hhdm,
            stub,
            grants@,
            r,
        ),
        final(g).seq <= old(g).seq + grants@.len() + 55,
        r matches Ok(t) ==> final(g)@.live(t.id()),
        final(g)@.since(old(g)@),
{
    let ghost s0 = State { g: *g, mem: mem@, frames: *frames };
    let rl = load_segments(g, mem, frames, p, space, image);
    let ghost sa = State { g: *g, mem: mem@, frames: *frames };
    assert(crate::load::loaded(s0, sa, *image, p.id(), space.id(), rl));
    match rl {
        Err(e) => Err(e),
        Ok(_) => make_stack(g, mem, frames, p, space, image.entry, hhdm, stub, grants),
    }
}

fn build_space(
    g: &mut Graph,
    mem: &mut [u8],
    frames: &mut Option<FrameAllocator<'_>>,
    p: Ref<Process>,
    image: &Image<'_>,
    active: u64,
    hhdm: u64,
    stub: u64,
    grants: &Vec<(NodeId, Rights)>,
) -> (r: Result<Ref<Thread>, SpawnError>)
    requires
        image.wf(),
        image.fits(),
        old(g).wf(),
        old(g).seq + grants@.len() + 65 < u64::MAX,
        machine_ok(old(mem)@, *old(frames), hhdm),
        *old(frames) matches Some(fa) ==> crate::paging::ready(
            fa,
            old(mem)@,
            crate::paging::root_of(active),
        ),
    ensures
        final(g).wf(),
        space_built(
            State { g: *old(g), mem: old(mem)@, frames: *old(frames) },
            State { g: *final(g), mem: final(mem)@, frames: *final(frames) },
            p.id(),
            *image,
            active,
            hhdm,
            stub,
            grants@,
            r,
        ),
        final(g).seq <= old(g).seq + grants@.len() + 56,
        r matches Ok(t) ==> final(g)@.live(t.id()),
        final(g)@.since(old(g)@),
{
    let ghost s0 = State { g: *g, mem: mem@, frames: *frames };
    let rs = create_space_for(g, mem, frames, active, p);
    let ghost sa = State { g: *g, mem: mem@, frames: *frames };
    assert(space_taken(s0, sa, active, p.id(), rs));
    let space = match rs {
        Err(e) => return Err(SpawnError::Vm(e)),
        Ok(s) => s,
    };
    proof {
        let fa = s0.frames->Some_0;
        let phys = choose|phys: u64| #[trigger]
            crate::vm::space_made_at(
                s0.g,
                s0.mem,
                fa,
                *g,
                mem@,
                *frames,
                active,
                p.id(),
                rs,
                phys,
            );
        assert(crate::vm::space_made_at(
            s0.g,
            s0.mem,
            fa,
            *g,
            mem@,
            *frames,
            active,
            p.id(),
            rs,
            phys,
        ));
        assert(g@.nodes.contains_key(space.id()));
        assert(g@.nodes[space.id()].body == crate::vm::fresh_space(phys).erase());
        assert(g@.space(space.id()) == crate::vm::fresh_space(phys));
        crate::tables::entry_bits(phys);
        assert(crate::vm::root_in(g@, space.id()) == phys);
    }
    load_image(g, mem, frames, p, space, image, hhdm, stub, grants)
}

// ---------------------------------------------------------------- spawning ---

/// What creating a process from an image does: the process under its owner,
/// and everything it will use under the process.
#[verifier::opaque]
pub open spec fn prepared(
    s0: State<'_>,
    s1: State<'_>,
    owner: NodeId,
    bytes: Seq<u8>,
    active: u64,
    hhdm: u64,
    stub: u64,
    grants: Seq<(NodeId, Rights)>,
    r: Result<(Ref<Process>, Ref<Thread>), SpawnError>,
) -> bool {
    match crate::elf::parse_error(bytes) {
        Some(e) => r == Err::<(Ref<Process>, Ref<Thread>), SpawnError>(SpawnError::Elf(e)) && s1
            == s0,
        None => exists|image: Image<'_>, ga: Graph, rp: Result<Ref<Process>, GraphError>| #[trigger]
            prepared_through(s0, s1, owner, bytes, active, hhdm, stub, grants, r, image, ga, rp),
    }
}

pub open spec fn prepared_through(
    s0: State<'_>,
    s1: State<'_>,
    owner: NodeId,
    bytes: Seq<u8>,
    active: u64,
    hhdm: u64,
    stub: u64,
    grants: Seq<(NodeId, Rights)>,
    r: Result<(Ref<Process>, Ref<Thread>), SpawnError>,
    image: Image<'_>,
    ga: Graph,
    rp: Result<Ref<Process>, GraphError>,
) -> bool {
    &&& parsed(bytes, image)
    &&& ga.wf()
    &&& ga.created(s0.g, owner, Process::spec_zero(), rp)
    &&& match rp {
        Err(e) => {
            &&& r == Err::<(Ref<Process>, Ref<Thread>), SpawnError>(SpawnError::Graph(e))
            &&& s1 == s0
        },
        Ok(p) => {
            let sa = State { g: ga, mem: s0.mem, frames: s0.frames };
            exists|rt: Result<Ref<Thread>, SpawnError>| #[trigger]
                space_built(sa, s1, p.id(), image, active, hhdm, stub, grants, rt) && r == match rt {
                    Ok(t) => Ok::<(Ref<Process>, Ref<Thread>), SpawnError>((p, t)),
                    Err(e) => Err::<(Ref<Process>, Ref<Thread>), SpawnError>(e),
                }
        },
    }
}

/// No segment of an image in these bytes runs off the end of the address
/// space.
pub open spec fn image_fits(bytes: Seq<u8>) -> bool {
    forall|image: Image<'_>| #[trigger] parsed(bytes, image) ==> image.fits()
}

/// Whether every segment of an image, if that is what the bytes hold, ends
/// inside the address space.
pub fn image_is_sound(bytes: &[u8]) -> (r: bool)
    ensures
        r == image_fits(bytes@),
{
    let image = match Image::parse(bytes) {
        Ok(i) => i,
        Err(_) => return true,
    };
    assert(parsed(bytes@, image));
    let segs = image.segments();
    let mut i: usize = 0;
    while i < segs.len()
        invariant
            i <= segs@.len(),
            parsed(bytes@, image),
            segs@ == image.spec_segments(),
            forall|j: int| 0 <= j < i ==> (#[trigger] segs@[j]).fits(),
        decreases segs@.len() - i,
    {
        let s = segs[i];
        if s.vaddr as u128 + s.mem_size as u128 + 4095 > u64::MAX as u128 {
            assert(!image.spec_segments()[i as int].fits());
            return false;
        }
        i = i + 1;
    }
    proof {
        assert forall|other: Image<'_>| #[trigger] parsed(bytes@, other) implies other.fits() by {
            same_segments(image, other, image.ph_count as int);
        }
    }
    true
}

/// Images that agree on their bytes and headers have the same segments.
proof fn same_segments(a: Image<'_>, b: Image<'_>, n: int)
    requires
        a.bytes@ == b.bytes@,
        a.ph_offset == b.ph_offset,
        a.ph_entry_size == b.ph_entry_size,
    ensures
        a.segments_below(n) == b.segments_below(n),
    decreases n,
{
    if n > 0 {
        same_segments(a, b, n - 1);
    }
}

/// Create a process from an executable, without starting it.
///
/// `grants` is the process's entire authority: the capabilities it starts with
/// and, since there is no other way to name anything, the only objects it can
/// ever reach.
pub fn prepare(
    g: &mut Graph,
    mem: &mut [u8],
    frames: &mut Option<FrameAllocator<'_>>,
    active: u64,
    hhdm: u64,
    stub: u64,
    owner: Owner,
    image: &[u8],
    grants: &Vec<(NodeId, Rights)>,
) -> (r: Result<(Ref<Process>, Ref<Thread>), SpawnError>)
    requires
        old(g).wf(),
        old(g).seq + grants@.len() + 66 < u64::MAX,
        machine_ok(old(mem)@, *old(frames), hhdm),
        *old(frames) matches Some(fa) ==> crate::paging::ready(
            fa,
            old(mem)@,
            crate::paging::root_of(active),
        ),
        image_fits(image@),
    ensures
        final(g).wf(),
        prepared(
            State { g: *old(g), mem: old(mem)@, frames: *old(frames) },
            State { g: *final(g), mem: final(mem)@, frames: *final(frames) },
            owner.spec_id(),
            image@,
            active,
            hhdm,
            stub,
            grants@,
            r,
        ),
        final(g).seq <= old(g).seq + grants@.len() + 57,
        r matches Ok((_, t)) ==> final(g)@.live(t.id()),
        final(g)@.since(old(g)@),
{
    let ghost s0 = State { g: *g, mem: mem@, frames: *frames };
    proof {
        reveal(prepared);
    }
    let elf = match Image::parse(image) {
        Ok(i) => i,
        Err(e) => return Err(SpawnError::Elf(e)),
    };
    assert(parsed(image@, elf));
    let rp = match owner {
        Owner::Root(o) => g.create_under_root(o, Process::zero()),
        Owner::Process(o) => g.create_under_process(o, Process::zero()),
    };
    let ghost ga = *g;
    assert(ga.created(s0.g, owner.spec_id(), Process::spec_zero(), rp));
    let p = match rp {
        Ok(p) => p,
        Err(e) => {
            let r = Err(SpawnError::Graph(e));
            proof {
                let s1 = State { g: *g, mem: mem@, frames: *frames };
                assert(prepared_through(
                    s0,
                    s1,
                    owner.spec_id(),
                    image@,
                    active,
                    hhdm,
                    stub,
                    grants@,
                    r,
                    elf,
                    ga,
                    rp,
                ));
            }
            return r;
        },
    };
    let ghost sa = State { g: *g, mem: mem@, frames: *frames };
    let rt = build_space(g, mem, frames, p, &elf, active, hhdm, stub, grants);
    let r = match rt {
        Ok(t) => Ok((p, t)),
        Err(e) => Err(e),
    };
    proof {
        let s1 = State { g: *g, mem: mem@, frames: *frames };
        assert(space_built(sa, s1, p.id(), elf, active, hhdm, stub, grants@, rt));
        assert(prepared_through(
            s0,
            s1,
            owner.spec_id(),
            image@,
            active,
            hhdm,
            stub,
            grants@,
            r,
            elf,
            ga,
            rp,
        ));
    }
    r
}

/// What loading an executable and making it runnable does.
pub open spec fn spawned(
    s0: State<'_>,
    s1: State<'_>,
    owner: NodeId,
    bytes: Seq<u8>,
    active: u64,
    hhdm: u64,
    stub: u64,
    cpu0: NodeId,
    grants: Seq<(NodeId, Rights)>,
    r: Result<Ref<Process>, SpawnError>,
) -> bool {
    exists|sa: State<'_>, ra: Result<(Ref<Process>, Ref<Thread>), SpawnError>| #[trigger]
        prepared(s0, sa, owner, bytes, active, hhdm, stub, grants, ra) && sa.g.wf() && match ra {
            Err(e) => r == Err::<Ref<Process>, SpawnError>(e) && s1 == sa,
            Ok((p, t)) => {
                &&& s1.mem == sa.mem
                &&& s1.frames == sa.frames
                &&& thread_queued(sa.g, s1.g, cpu0, t.id(), p, r)
            },
        }
}

/// The thread goes on the cpu's queue.
pub open spec fn thread_queued(
    g0: Graph,
    g1: Graph,
    cpu0: NodeId,
    t: NodeId,
    p: Ref<Process>,
    r: Result<Ref<Process>, SpawnError>,
) -> bool {
    if !g0@.is_cpu(cpu0) {
        r == Err::<Ref<Process>, SpawnError>(SpawnError::Vm(VmError::StaleSpace)) && g1 == g0
    } else {
        match g0.ready_refusal(cpu0, t) {
            Some(e) => r == Err::<Ref<Process>, SpawnError>(SpawnError::Graph(e)) && g1 == g0,
            None => r == Ok::<Ref<Process>, SpawnError>(p) && crate::sched::queued(
                g0,
                g1@,
                cpu0,
                t,
            ),
        }
    }
}

fn queue_thread(g: &mut Graph, cpu0: NodeId, t: Ref<Thread>, p: Ref<Process>) -> (r: Result<
    Ref<Process>,
    SpawnError,
>)
    requires
        old(g).wf(),
        old(g).seq + 3 <= u64::MAX,
    ensures
        final(g).wf(),
        thread_queued(*old(g), *final(g), cpu0, t.id(), p, r),
        final(g).seq <= old(g).seq + 3,
        final(g)@.since(old(g)@),
{
    let cpu = match g.typed::<Cpu>(cpu0) {
        Some(c) => c,
        None => return Err(SpawnError::Vm(VmError::StaleSpace)),
    };
    match g.make_ready(cpu, t) {
        Ok(_) => Ok(p),
        Err(e) => Err(SpawnError::Graph(e)),
    }
}

/// Load an executable and make it runnable.
pub fn spawn(
    g: &mut Graph,
    mem: &mut [u8],
    frames: &mut Option<FrameAllocator<'_>>,
    active: u64,
    hhdm: u64,
    stub: u64,
    cpu0: NodeId,
    owner: Owner,
    image: &[u8],
    grants: &Vec<(NodeId, Rights)>,
) -> (r: Result<Ref<Process>, SpawnError>)
    requires
        old(g).wf(),
        old(g).seq + grants@.len() + 66 < u64::MAX,
        machine_ok(old(mem)@, *old(frames), hhdm),
        *old(frames) matches Some(fa) ==> crate::paging::ready(
            fa,
            old(mem)@,
            crate::paging::root_of(active),
        ),
        image_fits(image@),
    ensures
        final(g).wf(),
        spawned(
            State { g: *old(g), mem: old(mem)@, frames: *old(frames) },
            State { g: *final(g), mem: final(mem)@, frames: *final(frames) },
            owner.spec_id(),
            image@,
            active,
            hhdm,
            stub,
            cpu0,
            grants@,
            r,
        ),
        final(g)@.since(old(g)@),
{
    let ghost s0 = State { g: *g, mem: mem@, frames: *frames };
    let ra = prepare(g, mem, frames, active, hhdm, stub, owner, image, grants);
    let ghost sa = State { g: *g, mem: mem@, frames: *frames };
    assert(prepared(s0, sa, owner.spec_id(), image@, active, hhdm, stub, grants@, ra));
    let r = match ra {
        Err(e) => Err(e),
        Ok((p, t)) => queue_thread(g, cpu0, t, p),
    };
    proof {
        let s1 = State { g: *g, mem: mem@, frames: *frames };
        assert(spawned(
            s0,
            s1,
            owner.spec_id(),
            image@,
            active,
            hhdm,
            stub,
            cpu0,
            grants@,
            r,
        ));
    }
    r
}

/// Position `i` of what a process owns is the first thread there.
pub open spec fn first_owned_thread(v: crate::view::GraphView, p: NodeId, i: int) -> bool {
    let s = v.list(p, Dir::Out, EdgeKind::Owns);
    &&& 0 <= i < s.len()
    &&& v.edges[s[i]].dst.kind() == Some(NodeKind::Thread)
    &&& forall|j: int|
        0 <= j < i ==> v.edges[#[trigger] s[j]].dst.kind() != Some(NodeKind::Thread)
}

/// Start a process that was created without being started: its first thread
/// goes on the run queue.
pub fn start(g: &mut Graph, cpu0: NodeId, p: Ref<Process>) -> (r: Result<Ref<Process>, SpawnError>)
    requires
        old(g).wf(),
        old(g)@.live(p.id()),
        old(g).seq + 3 <= u64::MAX,
    ensures
        final(g).wf(),
        (forall|i: int| !first_owned_thread(old(g)@, p.id(), i)) ==> r == Err::<
            Ref<Process>,
            SpawnError,
        >(SpawnError::Graph(GraphError::BadState)) && *final(g) == *old(g),
        forall|i: int| #[trigger]
            first_owned_thread(old(g)@, p.id(), i) ==> thread_queued(
                *old(g),
                *final(g),
                cpu0,
                old(g)@.edges[old(g)@.list(p.id(), Dir::Out, EdgeKind::Owns)[i]].dst,
                p,
                r,
            ),
        final(g).seq <= old(g).seq + 3,
        final(g)@.since(old(g)@),
{
    let ghost v = g@;
    let ghost s = v.list(p.id(), Dir::Out, EdgeKind::Owns);
    proof {
        crate::walk::wf_is_threaded(*g);
        assert(g.spec_live(p.id()));
    }
    let ids = crate::checks::outgoing(g, p.id(), EdgeKind::Owns);
    let mut k: usize = 0;
    while k < ids.len()
        invariant
            k <= ids@.len() == s.len(),
            *g == *old(g),
            g.wf(),
            v == g@,
            v.live(p.id()),
            g.seq + 3 <= u64::MAX,
            s == v.list(p.id(), Dir::Out, EdgeKind::Owns),
            forall|i: int|
                0 <= i < ids@.len() ==> (#[trigger] ids@[i]).idx() == s[i] && v.has_edge(ids@[i]),
            forall|j: int|
                0 <= j < k ==> v.edges[#[trigger] s[j]].dst.kind() != Some(NodeKind::Thread),
        decreases ids@.len() - k,
    {
        assert(ids@[k as int].idx() == s[k as int]);
        proof {
            assert(v.edges.contains_key(s[k as int]));
            assert(v.edge_ok(s[k as int]));
        }
        let dst: Option<NodeId> = match g.edge(ids[k]) {
            Some(e) => Some(e.dst),
            None => None,
        };
        if let Some(d) = dst {
            if let Some(t) = g.typed::<Thread>(d) {
                proof {
                    assert(first_owned_thread(v, p.id(), k as int));
                    assert forall|i: int| #[trigger]
                        first_owned_thread(v, p.id(), i) implies i == k by {
                        if i < k {
                            assert(v.edges[s[i]].dst.kind() != Some(NodeKind::Thread));
                        }
                        if k < i {
                            assert(v.edges[s[k as int]].dst.kind() != Some(NodeKind::Thread));
                        }
                    }
                }
                return queue_thread(g, cpu0, t, p);
            }
        }
        k = k + 1;
    }
    Err(SpawnError::Graph(GraphError::BadState))
}

} // verus!
