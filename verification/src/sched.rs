//! The scheduler: picking the next thread out of the graph.
//!
//! A run queue *is* a graph: it is the `Ready` adjacency list of a `Cpu` node.
//! What makes it fast is not that it avoids the graph but that the operations
//! are the head and tail of one intrusive list, so "who runs next" is a single
//! memory read and "put this one at the back" is two splices. There is no
//! traversal anywhere on this path.

use vstd::prelude::*;

use crate::body::{Body, Cpu, MemoryObject, NodeBody, Process, Root, Thread, ThreadState};
use crate::edge::{Dir, EdgeAttr};
use crate::frames::FrameAllocator;
use crate::graph::{Graph, GraphError, Ref};
use crate::id::{EdgeId, EdgeKind, NodeId, NodeKind};
use crate::mem::{read_u64, write_u64, zero_bytes};
use crate::view::GraphView;
use crate::vm::VmError;

pub mod control;

verus! {

/// Kernel stack size per thread, in frames.
pub const KSTACK_PAGES: u32 = 8;

/// What the bottom word of every kernel stack holds.
pub const STACK_CANARY: u64 = 0xB2AB_1E57_AC4C_A4A1;

pub fn set_need_resched(pending: &mut bool)
    ensures
        *final(pending),
{
    *pending = true;
}

pub fn take_need_resched(pending: &mut bool) -> (r: bool)
    ensures
        r == *old(pending),
        !*final(pending),
{
    let was: bool = *pending;
    *pending = false;
    was
}

// ------------------------------------------------------------------ stacks ---

/// What `init_stack` lays out, lowest address first: six callee-saved
/// registers, the flags with interrupts enabled, the address to return to, and
/// one slot that leaves the stack aligned at the entry point.
pub open spec fn first_frame(entry: u64) -> Seq<u8> {
    crate::edge::zeros(48) + crate::edge::u64_bytes(0x202) + crate::edge::u64_bytes(entry)
        + crate::edge::zeros(8)
}

/// Lay out a stack so that switching to it enters `entry` with interrupts on.
/// The stack is reached through the direct map, which starts at `hhdm`.
pub fn init_stack(mem: &mut [u8], hhdm: u64, stack_top: u64, entry: u64) -> (r: u64)
    requires
        hhdm + 72 <= stack_top,
        stack_top - hhdm <= old(mem)@.len(),
    ensures
        r == stack_top - 72,
        final(mem)@ == crate::mem::overwritten(
            old(mem)@,
            stack_top - hhdm - 72,
            first_frame(entry),
        ),
{
    assert(mem.len() == mem@.len());
    let at: usize = (stack_top - hhdm - 72) as usize;
    zero_bytes(mem, at, 48);
    write_u64(mem, at + 48, 0x202);
    write_u64(mem, at + 56, entry);
    zero_bytes(mem, at + 64, 8);
    assert(mem@ =~= crate::mem::overwritten(
        old(mem)@,
        stack_top - hhdm - 72,
        first_frame(entry),
    ));
    stack_top - 72
}

/// Mark the bottom of a kernel stack, so that running past it shows.
pub fn plant_canary(mem: &mut [u8], hhdm: u64, stack_top: u64)
    requires
        hhdm + KSTACK_PAGES * 4096 <= stack_top,
        stack_top - hhdm <= old(mem)@.len(),
    ensures
        final(mem)@ == crate::mem::with_word(
            old(mem)@,
            stack_top - hhdm - KSTACK_PAGES * 4096,
            STACK_CANARY,
        ),
{
    assert(mem.len() == mem@.len());
    let at: usize = (stack_top - hhdm - KSTACK_PAGES as u64 * 4096) as usize;
    write_u64(mem, at, STACK_CANARY);
}

/// The bottom word of a thread's kernel stack is as it was planted. A thread
/// with no stack of its own has nothing to overrun.
pub open spec fn stack_ok(v: GraphView, mem: Seq<u8>, hhdm: u64, t: NodeId) -> bool {
    let top = v.thread(t).kstack_top;
    top == 0 || crate::mem::word(mem, top - hhdm - KSTACK_PAGES * 4096) == STACK_CANARY
}

/// The first thread, in the order of the arena, whose canary is gone.
pub open spec fn first_overrun(g: Graph, mem: Seq<u8>, hhdm: u64, t: NodeId) -> bool {
    let ids = g.all_live_ids();
    &&& g@.live(t)
    &&& t.kind() == Some(NodeKind::Thread)
    &&& !stack_ok(g@, mem, hhdm, t)
    &&& exists|j: int|
        0 <= j < ids.len() && #[trigger] ids[j] == t && forall|i: int|
            0 <= i < j && (#[trigger] ids[i]).kind() == Some(NodeKind::Thread) ==> stack_ok(
                g@,
                mem,
                hhdm,
                ids[i],
            )
}

/// A thread wrote past the bottom of its kernel stack, if the canary is gone.
pub fn check_stack_canaries(g: &Graph, mem: &[u8], hhdm: u64) -> (r: Result<(), NodeId>)
    requires
        g.wf(),
        forall|t: NodeId| #[trigger]
            g@.nodes.contains_key(t) && t.kind() == Some(NodeKind::Thread) && g@.thread(
                t,
            ).kstack_top != 0 ==> hhdm + KSTACK_PAGES * 4096 <= g@.thread(t).kstack_top && g@.thread(
                t,
            ).kstack_top - hhdm <= mem@.len(),
    ensures
        r is Ok <==> forall|t: NodeId| #[trigger]
            g@.nodes.contains_key(t) && t.kind() == Some(NodeKind::Thread) ==> stack_ok(
                g@,
                mem@,
                hhdm,
                t,
            ),
        r matches Err(t) ==> first_overrun(*g, mem@, hhdm, t),
{
    let ghost v = g@;
    let nodes = g.live_nodes();
    proof {
        crate::walk::every_live_node_is_listed(*g);
    }
    let mut i: usize = 0;
    while i < nodes.len()
        invariant
            i <= nodes@.len(),
            g.wf(),
            v == g@,
            nodes@ == g.all_live_ids(),
            forall|x: NodeId| #[trigger] g.all_live_ids().contains(x) <==> g.spec_live(x),
            forall|t: NodeId| #[trigger]
                v.nodes.contains_key(t) && t.kind() == Some(NodeKind::Thread) && v.thread(
                    t,
                ).kstack_top != 0 ==> hhdm + KSTACK_PAGES * 4096 <= v.thread(t).kstack_top
                    && v.thread(t).kstack_top - hhdm <= mem@.len(),
            forall|j: int|
                0 <= j < i && (#[trigger] nodes@[j]).kind() == Some(NodeKind::Thread) ==> stack_ok(
                    v,
                    mem@,
                    hhdm,
                    nodes@[j],
                ),
        decreases nodes@.len() - i,
    {
        let node = nodes[i];
        assert(nodes@.contains(nodes@[i as int]));
        assert(v.nodes.contains_key(node));
        assert(v.node_ok(node));
        if let Some(t) = g.typed::<Thread>(node) {
            if let Some(b) = g.body(t) {
                if b.kstack_top != 0 {
                    assert(mem.len() == mem@.len());
                    let at: usize = (b.kstack_top - hhdm - KSTACK_PAGES as u64 * 4096) as usize;
                    let w: u64 = read_u64(mem, at);
                    proof {
                        reveal(crate::mem::word);
                    }
                    if w != STACK_CANARY {
                        assert(g.all_live_ids()[i as int] == node);
                        return Err(node);
                    }
                }
            }
        }
        i = i + 1;
    }
    proof {
        assert forall|t: NodeId| #[trigger]
            v.nodes.contains_key(t) && t.kind() == Some(NodeKind::Thread) implies stack_ok(
            v,
            mem@,
            hhdm,
            t,
        ) by {
            assert(g.spec_live(t));
            assert(nodes@.contains(t));
            let j = nodes@.index_of(t);
            assert(nodes@[j] == t);
        }
    }
    Ok(())
}

// --------------------------------------------------------------- decisions ---

/// What the graph says should happen next, decided under the lock: whose stack
/// pointer to save, if anyone's, which to adopt, the page tables to run on, and
/// the stack a system call will be taken on.
pub struct Decision {
    pub save: Option<Ref<Thread>>,
    pub new_rsp: u64,
    pub cr3: u64,
    pub kernel_rsp: u64,
}

/// The page tables a thread runs on. One with no address space of its own runs
/// in the kernel's: otherwise the processor would be left on the tables of
/// whoever ran before, which may be about to be freed.
pub open spec fn tables_for(t: Thread, kernel_pml4: u64) -> u64 {
    if t.cr3 != 0 {
        t.cr3
    } else {
        kernel_pml4
    }
}

impl GraphView {
    /// A live cpu.
    pub open spec fn is_cpu(self, c: NodeId) -> bool {
        self.live(c) && c.kind() == Some(NodeKind::Cpu)
    }

    /// A live thread.
    pub open spec fn is_thread(self, t: NodeId) -> bool {
        self.live(t) && t.kind() == Some(NodeKind::Thread)
    }
}

/// A thread was queued, if it could be.
pub open spec fn queued(g0: Graph, v1: GraphView, cpu: NodeId, t: NodeId) -> bool {
    match g0.ready_refusal(cpu, t) {
        Some(_) => v1 == g0@,
        None => exists|e: EdgeId| #[trigger]
            g0@.descheduled(t).unused(e) && v1 == g0@.made_ready(cpu, t, e),
    }
}

/// What happens to the thread that was running when another takes over: it
/// goes to the back of the queue if it is still runnable. A thread that
/// blocked or died has already left the list.
pub open spec fn put_back(g0: Graph, v1: GraphView, cpu: NodeId, current: NodeId) -> bool {
    if g0@.is_thread(current) && g0@.thread(current).state == ThreadState::Running {
        queued(g0, v1, cpu, current)
    } else {
        v1 == g0@
    }
}

/// The decision, and what it does to the graph.
pub open spec fn scheduled(
    g0: Graph,
    v1: GraphView,
    cpu: NodeId,
    kernel_pml4: u64,
    r: Option<Decision>,
) -> bool {
    if !g0@.is_cpu(cpu) || g0@.queue_head(cpu) is None {
        r is None && v1 == g0@
    } else {
        let next = g0@.queue_head(cpu)->Some_0;
        let current = g0@.cpu(cpu).current;
        let turned = g0@.rotate(cpu, Dir::Out, EdgeKind::Ready);
        if next == current {
            r is None && v1 == turned
        } else {
            &&& r matches Some(d) && (d.save matches Some(t) ==> t.id() == current)
                && (d.save is Some <==> g0@.is_thread(current)) && d.new_rsp == g0@.thread(
                next,
            ).saved_rsp && d.cr3 == tables_for(g0@.thread(next), kernel_pml4) && d.kernel_rsp
                == g0@.thread(next).kstack_top
            &&& exists|g1: Graph, v2: GraphView|
                g1@ == turned && #[trigger] put_back(g1, v2, cpu, current) && v1
                    == v2.taken_to_run(next).with_current(cpu, next)
        }
    }
}

/// Queueing one thread leaves the stack of every other, and its own, alone.
proof fn queueing_keeps_threads(g0: Graph, v1: GraphView, cpu: NodeId, c: NodeId, t: NodeId)
    requires
        g0.wf(),
        put_back(g0, v1, cpu, c),
        g0@.is_thread(t),
    ensures
        v1.live(t),
        v1.thread(t).saved_rsp == g0@.thread(t).saved_rsp,
        v1.thread(t).kstack_top == g0@.thread(t).kstack_top,
        v1.thread(t).cr3 == g0@.thread(t).cr3,
        v1.live(cpu) == g0@.live(cpu),
{
    let v = g0@;
    assert(v.nodes.contains_key(t));
    assert(v.node_ok(t));
    if v.is_thread(c) && v.thread(c).state == ThreadState::Running && g0.ready_refusal(cpu, c)
        is None {
        assert(v.nodes.contains_key(c));
        assert(v.node_ok(c));
        let e = choose|e: EdgeId| #[trigger]
            v.descheduled(c).unused(e) && v1 == v.made_ready(cpu, c, e);
        let ws = v.list(c, Dir::Out, EdgeKind::Waiting);
        assert(v.lists.contains_key((c, Dir::Out, EdgeKind::Waiting)));
        if ws.len() > 0 {
            assert(v.edges.contains_key(ws[0]));
            assert(v.edge_ok(ws[0]));
        }
        let w = v.unlink_first(c, Dir::Out, EdgeKind::Waiting);
        let rs = w.list(c, Dir::In, EdgeKind::Ready);
        assert(rs == v.list(c, Dir::In, EdgeKind::Ready));
        assert(v.lists.contains_key((c, Dir::In, EdgeKind::Ready)));
        if rs.len() > 0 {
            assert(v.edges.contains_key(rs[0]));
            assert(v.edge_ok(rs[0]));
            assert(w.edges[rs[0]] == v.edges[rs[0]]);
        }
    }
}

/// Pick the next thread, and put the graph in the state in which it runs. The
/// caller switches stacks.
///
/// Called with interrupts disabled: on one core that is what keeps the answer
/// true until the switch is made.
pub fn schedule(g: &mut Graph, cpu0: NodeId, kernel_pml4: u64) -> (r: Option<Decision>)
    requires
        old(g).wf(),
        old(g).seq < u64::MAX - 5,
    ensures
        final(g).wf(),
        scheduled(*old(g), final(g)@, cpu0, kernel_pml4, r),
        final(g).seq <= old(g).seq + 5,
        final(g)@.since(old(g)@),
{
    let ghost g0 = *g;
    let cpu = match g.typed::<Cpu>(cpu0) {
        Some(c) => c,
        None => return None,
    };
    let current_id: NodeId = match g.body(cpu) {
        Some(b) => b.current,
        None => return None,
    };
    proof {
        assert(g0@.nodes.contains_key(cpu0));
        assert(g0@.node_ok(cpu0));
        assert(current_id == g0@.cpu(cpu0).current);
    }
    // The head of this cpu's Ready list, and the head advances. Both halves of
    // the decision in one lookup.
    let next = match g.pick_and_rotate(cpu) {
        Some(t) => t,
        None => return None,
    };
    if next.id() == current_id {
        return None;
    }
    let ghost g1 = *g;
    let ghost turned = g0@.rotate(cpu0, Dir::Out, EdgeKind::Ready);
    assert(g1@.nodes == g0@.nodes);
    let current: Option<Ref<Thread>> = g.typed(current_id);
    let save: Option<Ref<Thread>> = match current {
        Some(t) => {
            let running: bool = match g.body(t) {
                Some(b) => matches!(b.state, ThreadState::Running),
                None => false,
            };
            if running {
                let _ = g.make_ready(cpu, t);
            }
            Some(t)
        },
        None => None,
    };
    let ghost g2 = *g;
    proof {
        assert(put_back(g1, g2@, cpu0, current_id));
        queueing_keeps_threads(g1, g2@, cpu0, current_id, next.id());
        assert(g2@.nodes.contains_key(next.id()));
        assert(g2@.node_ok(next.id()));
    }
    let (new_rsp, own, kernel_rsp): (u64, u64, u64) = match g.body(next) {
        Some(b) => (b.saved_rsp, b.cr3, b.kstack_top),
        None => return None,
    };
    let cr3: u64 = if own != 0 {
        own
    } else {
        kernel_pml4
    };
    let _ = g.make_running(cpu, next);
    Some(Decision { save, new_rsp, cr3, kernel_rsp })
}

/// What a tick does to the graph: the root counts it, if there is one.
pub open spec fn ticked(g0: Graph, g1: Graph) -> bool {
    if !g0@.root_id.is_null() && g0@.live(g0@.root_id) {
        g1@ == g0@.with_body(
            g0@.root_id,
            Body::Root(
                Root { ticks: (g0@.root_body().ticks + 1) as u64, ..g0@.root_body() },
            ),
        )
    } else {
        g1 == g0
    }
}

/// Count a timer tick, and ask for a turn to be taken. Called from the timer
/// interrupt, after the end-of-interrupt is sent.
pub fn on_tick(g: &mut Graph, pending: &mut bool)
    requires
        old(g).wf(),
        !old(g)@.root_id.is_null() && old(g)@.live(old(g)@.root_id) ==> old(g)@.root_body().ticks
            < u64::MAX,
    ensures
        final(g).wf(),
        *final(pending),
        ticked(*old(g), *final(g)),
        final(g)@.since(old(g)@),
{
    if let Some(root) = g.root() {
        proof {
            let id = root.id();
            if g@.live(id) {
                assert(g@.nodes.contains_key(id));
                assert(g@.node_ok(id));
            }
        }
        let body: Option<Root> = match g.body(root) {
            Some(b) => Some(*b),
            None => None,
        };
        if let Some(b) = body {
            let mut nb: Root = b;
            nb.ticks = nb.ticks + 1;
            g.write_body(root, nb);
        }
    }
    set_need_resched(pending);
}

impl GraphView {
    pub open spec fn root_body(self) -> Root {
        self.nodes[self.root_id].body->Root_0
    }
}

/// The currently running thread, or null.
pub fn current(g: &Graph, cpu0: NodeId) -> (r: NodeId)
    requires
        g.wf(),
    ensures
        r == if g@.is_cpu(cpu0) {
            g@.cpu(cpu0).current
        } else {
            NodeId(0)
        },
{
    match g.typed::<Cpu>(cpu0) {
        Some(cpu) => {
            proof {
                assert(g@.nodes.contains_key(cpu0));
                assert(g@.node_ok(cpu0));
            }
            match g.body(cpu) {
                Some(b) => b.current,
                None => NodeId::null(),
            }
        },
        None => NodeId::null(),
    }
}

/// No thread is running on the cpu.
fn clear_current(g: &mut Graph, cpu0: NodeId)
    requires
        old(g).wf(),
    ensures
        final(g).wf(),
        final(g)@ == if old(g)@.is_cpu(cpu0) {
            old(g)@.with_current(cpu0, NodeId(0))
        } else {
            old(g)@
        },
        final(g).seq == old(g).seq,
        final(g)@.since(old(g)@),
{
    if let Some(cpu) = g.typed::<Cpu>(cpu0) {
        proof {
            assert(g@.nodes.contains_key(cpu0));
            assert(g@.node_ok(cpu0));
        }
        let body: Option<Cpu> = match g.body(cpu) {
            Some(b) => Some(*b),
            None => None,
        };
        if let Some(b) = body {
            let mut nb: Cpu = b;
            nb.current = NodeId::null();
            g.write_body(cpu, nb);
            assert(g@.seq == old(g)@.seq);
        }
    }
}

/// What is left when a thread, or the process it works for, is given up: the
/// node is going away, and nothing runs on the cpu.
pub open spec fn given_up(v: GraphView, cpu0: NodeId, node: NodeId) -> GraphView {
    let w = v.deleted(node);
    if w.is_cpu(cpu0) {
        w.with_current(cpu0, NodeId(0))
    } else {
        w
    }
}

/// What the end of the running thread comes to.
pub open spec fn thread_exited(
    g0: Graph,
    v1: GraphView,
    cpu0: NodeId,
    kernel_pml4: u64,
    r: Option<Decision>,
) -> bool {
    exists|g1: Graph|
        g1.wf() && g1@ == given_up(g0@, cpu0, g0@.running_on(cpu0)) && #[trigger] scheduled(
            g1,
            v1,
            cpu0,
            kernel_pml4,
            r,
        )
}

/// What the end of the running process comes to.
pub open spec fn process_exited(
    g0: Graph,
    v1: GraphView,
    cpu0: NodeId,
    kernel_pml4: u64,
    code: i32,
    r: Option<Decision>,
) -> bool {
    let t = g0@.running_on(cpu0);
    exists|g1: Graph|
        g1.wf() && g1@ == given_up(g0@.ending(t, code), cpu0, g0@.ends(t)) && #[trigger] scheduled(
            g1,
            v1,
            cpu0,
            kernel_pml4,
            r,
        )
}

/// Stop running the calling thread for good and pick someone else.
pub fn exit_current(g: &mut Graph, cpu0: NodeId, kernel_pml4: u64) -> (r: Option<Decision>)
    requires
        old(g).wf(),
        old(g).seq < u64::MAX - 9,
    ensures
        final(g).wf(),
        thread_exited(*old(g), final(g)@, cpu0, kernel_pml4, r),
        final(g)@.since(old(g)@),
{
    let me = current(g, cpu0);
    let _ = g.begin_delete(me);
    clear_current(g, cpu0);
    let ghost g1 = *g;
    let r = schedule(g, cpu0, kernel_pml4);
    assert(scheduled(g1, g@, cpu0, kernel_pml4, r));
    r
}

impl GraphView {
    /// The thread a cpu is running, or null.
    pub open spec fn running_on(self, cpu0: NodeId) -> NodeId {
        if self.is_cpu(cpu0) {
            self.cpu(cpu0).current
        } else {
            NodeId(0)
        }
    }

    /// The process a thread works for, from the thread's own cache.
    pub open spec fn process_of(self, t: NodeId) -> Option<NodeId> {
        if self.is_thread(t) && self.live(self.thread(t).owner_proc)
            && self.thread(t).owner_proc.kind() == Some(NodeKind::Process) {
            Some(self.thread(t).owner_proc)
        } else {
            None
        }
    }

    /// A process that has said how it ended.
    pub open spec fn with_exit_code(self, p: NodeId, code: i32) -> GraphView {
        self.with_body(p, Body::Process(Process { exit_code: code, ..self.process(p) }))
    }

    /// What ending the calling process starts from: its code recorded, or, for
    /// a thread of no process, nothing.
    pub open spec fn ending(self, t: NodeId, code: i32) -> GraphView {
        match self.process_of(t) {
            Some(p) => self.with_exit_code(p, code),
            None => self,
        }
    }

    /// What goes away with the calling process: the process, or, for a thread
    /// of no process, the thread.
    pub open spec fn ends(self, t: NodeId) -> NodeId {
        match self.process_of(t) {
            Some(p) => p,
            None => t,
        }
    }
}

/// The process a thread works for.
pub fn process_of(g: &Graph, t: NodeId) -> (r: Option<Ref<Process>>)
    requires
        g.wf(),
    ensures
        r is Some <==> g@.process_of(t) is Some,
        r matches Some(p) ==> g@.process_of(t) == Some(p.id()),
{
    match g.typed::<Thread>(t) {
        Some(thread) => {
            proof {
                assert(g@.nodes.contains_key(t));
                assert(g@.node_ok(t));
            }
            match g.body(thread) {
                Some(b) => g.typed::<Process>(b.owner_proc),
                None => None,
            }
        },
        None => None,
    }
}

/// End the calling process: record how it ended, detach it, and pick someone
/// else. Everything it owns follows.
pub fn exit_current_process(
    g: &mut Graph,
    cpu0: NodeId,
    kernel_pml4: u64,
    code: i32,
) -> (r: Option<Decision>)
    requires
        old(g).wf(),
        old(g).seq < u64::MAX - 9,
    ensures
        final(g).wf(),
        process_exited(*old(g), final(g)@, cpu0, kernel_pml4, code, r),
        final(g)@.since(old(g)@),
{
    let me = current(g, cpu0);
    let ghost v0 = g@;
    let gone: NodeId = match process_of(g, me) {
        Some(p) => {
            proof {
                assert(g@.nodes.contains_key(p.id()));
                assert(g@.node_ok(p.id()));
            }
            let body: Option<Process> = match g.body(p) {
                Some(b) => Some(*b),
                None => None,
            };
            if let Some(b) = body {
                let mut nb: Process = b;
                nb.exit_code = code;
                assert(nb.bounded());
                g.write_body(p, nb);
                assert(g@ == v0.with_exit_code(p.id(), code));
                assert(g@.seq == v0.seq);
            }
            p.id()
        },
        None => me,
    };
    let _ = g.begin_delete(gone);
    clear_current(g, cpu0);
    let ghost g1 = *g;
    let r = schedule(g, cpu0, kernel_pml4);
    assert(scheduled(g1, g@, cpu0, kernel_pml4, r));
    r
}

// ---------------------------------------------------------------- creation ---

/// Frames for a kernel stack, and what was written on them.
#[derive(Clone, Copy, Debug, PartialEq, Eq, Structural)]
pub struct Stack {
    pub phys: u64,
    pub top: u64,
    pub saved_rsp: u64,
}

/// What a new kernel stack holds: a canary at the bottom, and a first frame at
/// the top.
pub open spec fn stack_written(m0: Seq<u8>, phys: int, entry: u64) -> Seq<u8> {
    crate::mem::with_word(
        crate::mem::overwritten(m0, phys + KSTACK_PAGES * 4096 - 72, first_frame(entry)),
        phys,
        STACK_CANARY,
    )
}

/// What taking a kernel stack does.
pub open spec fn stack_taken(
    m0: Seq<u8>,
    f0: Option<FrameAllocator<'_>>,
    m1: Seq<u8>,
    f1: Option<FrameAllocator<'_>>,
    hhdm: u64,
    entry: u64,
    r: Result<Stack, VmError>,
) -> bool {
    match f0 {
        None => r == Err::<Stack, VmError>(VmError::NoAllocator) && m1 == m0 && f1 is None,
        Some(fa) => if fa.no_fit(1, KSTACK_PAGES as int) {
            r == Err::<Stack, VmError>(VmError::OutOfBounds) && m1 == m0 && f1 == f0
        } else {
            &&& r matches Ok(s) && s.phys % 4096 == 0 && s.phys > 0 && fa.taken_at(
                KSTACK_PAGES as int,
                s.phys as int / 4096,
            ) && s.phys as int / 4096 + KSTACK_PAGES <= fa.total_frames && s.top == hhdm + s.phys
                + KSTACK_PAGES * 4096 && s.saved_rsp == s.top - 72 && m1 == stack_written(
                m0,
                s.phys as int,
                entry,
            ) && (f1 matches Some(fb) && fb.wf() && fb.same_shape(fa) && fb.hint == s.phys as int
                / 4096 + KSTACK_PAGES && forall|f: int| #[trigger]
                fb.free(f) <==> fa.free(f) && !(s.phys as int / 4096 <= f < s.phys as int / 4096
                    + KSTACK_PAGES))
        },
    }
}

/// Take frames for a kernel stack and lay it out. Kernel stacks are reached
/// through the direct map; they are never mapped into a user address space.
pub(crate) fn take_stack(
    mem: &mut [u8],
    frames: &mut Option<FrameAllocator<'_>>,
    hhdm: u64,
    entry: u64,
) -> (r: Result<Stack, VmError>)
    requires
        *old(frames) matches Some(fa) ==> fa.wf() && crate::paging::covers(fa, old(mem)@),
        hhdm + old(mem)@.len() <= u64::MAX,
    ensures
        stack_taken(old(mem)@, *old(frames), final(mem)@, *final(frames), hhdm, entry, r),
{
    let phys: u64 = match frames {
        None => return Err(VmError::NoAllocator),
        Some(fa) => {
            let ghost f0 = *fa;
            match fa.alloc_contiguous(KSTACK_PAGES as usize) {
                Some(p) => {
                    proof {
                        assert(f0.fits(p as int / 4096, KSTACK_PAGES as int));
                        assert(!f0.no_fit(1, KSTACK_PAGES as int));
                    }
                    p
                },
                None => return Err(VmError::OutOfBounds),
            }
        },
    };
    let top: u64 = hhdm + phys + KSTACK_PAGES as u64 * 4096;
    let saved_rsp: u64 = init_stack(mem, hhdm, top, entry);
    plant_canary(mem, hhdm, top);
    Ok(Stack { phys, top, saved_rsp })
}

/// The thread a kernel stack is for.
pub open spec fn kernel_thread(s: Stack) -> Thread {
    Thread { kstack_top: s.top, saved_rsp: s.saved_rsp, ..Thread::spec_zero() }
}

/// What creating a kernel thread on a stack does: the thread under the root,
/// the stack under the thread, and a place in the queue. Ownership is what
/// makes the reaper give the frames back when the thread dies.
pub open spec fn kernel_thread_made(
    g0: Graph,
    g1: Graph,
    root: NodeId,
    cpu0: NodeId,
    s: Stack,
    r: Result<Ref<Thread>, VmError>,
) -> bool {
    exists|ga: Graph, gb: Graph, ra: Result<Ref<Thread>, GraphError>| #[trigger]
        kernel_thread_steps(g0, ga, gb, g1, root, cpu0, s, ra, r)
}

pub open spec fn kernel_thread_steps(
    g0: Graph,
    ga: Graph,
    gb: Graph,
    g1: Graph,
    root: NodeId,
    cpu0: NodeId,
    s: Stack,
    ra: Result<Ref<Thread>, GraphError>,
    r: Result<Ref<Thread>, VmError>,
) -> bool {
    &&& ga.wf()
    &&& ga.created(g0, root, kernel_thread(s), ra)
    &&& match ra {
        Err(e) => r == Err::<Ref<Thread>, VmError>(VmError::Graph(e)) && g1 == ga,
        Ok(t) => match ga.create_refusal(t.id(), NodeKind::MemoryObject) {
            Some(e) => r == Err::<Ref<Thread>, VmError>(VmError::Graph(e)) && g1 == ga,
            None => {
                &&& exists|rb: Result<Ref<MemoryObject>, GraphError>| #[trigger]
                    gb.created(ga, t.id(), crate::vm::fresh_object(s.phys, KSTACK_PAGES), rb)
                &&& gb.wf()
                &&& if !gb@.is_cpu(cpu0) {
                    r == Err::<Ref<Thread>, VmError>(VmError::StaleSpace) && g1 == gb
                } else {
                    match gb.ready_refusal(cpu0, t.id()) {
                        Some(e) => r == Err::<Ref<Thread>, VmError>(VmError::Graph(e)) && g1 == gb,
                        None => r == Ok::<Ref<Thread>, VmError>(t) && queued(
                            gb,
                            g1@,
                            cpu0,
                            t.id(),
                        ),
                    }
                }
            },
        },
    }
}

/// Put a thread on a stack that was taken for it, and queue it to run.
fn make_kernel_thread(g: &mut Graph, root: Ref<Root>, cpu0: NodeId, s: Stack) -> (r: Result<
    Ref<Thread>,
    VmError,
>)
    requires
        old(g).wf(),
        old(g).seq < u64::MAX - 5,
    ensures
        final(g).wf(),
        kernel_thread_made(*old(g), *final(g), root.id(), cpu0, s, r),
        final(g)@.since(old(g)@),
{
    let ghost g0 = *g;
    let body = Thread { kstack_top: s.top, saved_rsp: s.saved_rsp, ..Thread::zero() };
    let ra = g.create_under_root(root, body);
    let ghost ga = *g;
    let t = match ra {
        Ok(t) => t,
        Err(e) => {
            let r = Err(VmError::Graph(e));
            assert(kernel_thread_steps(g0, ga, ga, *g, root.id(), cpu0, s, ra, r));
            return r;
        },
    };
    let stack = MemoryObject { phys_base: s.phys, pages: KSTACK_PAGES, ..MemoryObject::zero() };
    let rb = g.create_under_thread(t, stack);
    let ghost gb = *g;
    assert(gb.created(ga, t.id(), crate::vm::fresh_object(s.phys, KSTACK_PAGES), rb));
    match rb {
        Ok(_) => {},
        Err(e) => {
            let r = Err(VmError::Graph(e));
            assert(kernel_thread_steps(g0, ga, gb, *g, root.id(), cpu0, s, ra, r));
            return r;
        },
    }
    let cpu = match g.typed::<Cpu>(cpu0) {
        Some(c) => c,
        None => {
            let r = Err(VmError::StaleSpace);
            assert(kernel_thread_steps(g0, ga, gb, *g, root.id(), cpu0, s, ra, r));
            return r;
        },
    };
    match g.make_ready(cpu, t) {
        Ok(_) => {
            let r = Ok(t);
            assert(kernel_thread_steps(g0, ga, gb, *g, root.id(), cpu0, s, ra, r));
            r
        },
        Err(e) => {
            let r = Err(VmError::Graph(e));
            assert(kernel_thread_steps(g0, ga, gb, *g, root.id(), cpu0, s, ra, r));
            r
        },
    }
}

/// Create a kernel thread with its own stack and queue it to run.
///
/// The stack is a `MemoryObject` like any other memory: described by a node, so
/// the reaper knows to give the frames back when the thread dies.
pub fn spawn_kernel_thread(
    g: &mut Graph,
    mem: &mut [u8],
    frames: &mut Option<FrameAllocator<'_>>,
    hhdm: u64,
    cpu0: NodeId,
    root: Ref<Root>,
    entry: u64,
) -> (r: Result<Ref<Thread>, VmError>)
    requires
        old(g).wf(),
        old(g).seq < u64::MAX - 5,
        *old(frames) matches Some(fa) ==> fa.wf() && crate::paging::covers(fa, old(mem)@),
        hhdm + old(mem)@.len() <= u64::MAX,
    ensures
        final(g).wf(),
        exists|rs: Result<Stack, VmError>| #[trigger]
            stack_taken(
                old(mem)@,
                *old(frames),
                final(mem)@,
                *final(frames),
                hhdm,
                entry,
                rs,
            ) && match rs {
                Err(e) => r == Err::<Ref<Thread>, VmError>(e) && *final(g) == *old(g),
                Ok(s) => kernel_thread_made(*old(g), *final(g), root.id(), cpu0, s, r),
            },
        final(g)@.since(old(g)@),
{
    let rs = take_stack(mem, frames, hhdm, entry);
    match rs {
        Ok(s) => make_kernel_thread(g, root, cpu0, s),
        Err(e) => Err(e),
    }
}

/// The thread that stands for the boot path.
pub open spec fn boot_thread() -> Thread {
    Thread { state: ThreadState::Running, ..Thread::spec_zero() }
}

/// What adopting the boot path does: a running thread under the root, and the
/// cpu says that it runs it.
pub open spec fn boot_thread_adopted(
    g0: Graph,
    g1: Graph,
    cpu0: NodeId,
    root: NodeId,
    r: Result<Ref<Thread>, VmError>,
) -> bool {
    exists|ga: Graph, ra: Result<Ref<Thread>, GraphError>| #[trigger]
        ga.created(g0, root, boot_thread(), ra) && ga.wf() && match ra {
            Err(e) => r == Err::<Ref<Thread>, VmError>(VmError::Graph(e)) && g1 == ga,
            Ok(t) => if ga@.is_cpu(cpu0) {
                r == Ok::<Ref<Thread>, VmError>(t) && g1@ == ga@.with_current(cpu0, t.id())
            } else {
                r == Err::<Ref<Thread>, VmError>(VmError::StaleSpace) && g1 == ga
            },
        }
}

/// Give the boot path a `Thread` node, so that the thing currently running is
/// in the graph like everything else and can be switched away from.
///
/// The bootloader gave us its stack; we do not own it, so there is no
/// `MemoryObject` for it and no stack to find.
pub fn adopt_boot_thread(g: &mut Graph, cpu0: NodeId, root: Ref<Root>) -> (r: Result<
    Ref<Thread>,
    VmError,
>)
    requires
        old(g).wf(),
        old(g).seq < u64::MAX,
    ensures
        final(g).wf(),
        boot_thread_adopted(*old(g), *final(g), cpu0, root.id(), r),
        final(g)@.since(old(g)@),
{
    let body = Thread { state: ThreadState::Running, ..Thread::zero() };
    let ra = g.create_under_root(root, body);
    let ghost ga = *g;
    assert(ga.created(*old(g), root.id(), boot_thread(), ra));
    let t = match ra {
        Ok(t) => t,
        Err(e) => return Err(VmError::Graph(e)),
    };
    let cpu = match g.typed::<Cpu>(cpu0) {
        Some(c) => c,
        None => return Err(VmError::StaleSpace),
    };
    proof {
        assert(g@.nodes.contains_key(cpu0));
        assert(g@.node_ok(cpu0));
    }
    let old_body: Option<Cpu> = match g.body(cpu) {
        Some(b) => Some(*b),
        None => None,
    };
    if let Some(b) = old_body {
        let mut nb: Cpu = b;
        nb.current = t.id();
        g.write_body(cpu, nb);
    }
    Ok(t)
}

} // verus!
