//! Whatever a graph goes through from the start, the checker accepts it.

use vstd::prelude::*;

use crate::body::{Body, NodeBody, Rights, Root, Thread};
use crate::edge::{Dir, MapsAttr, WaitingAttr};
use crate::graph::{Graph, GraphError, Ref};
use crate::id::{EdgeKind, NodeId, NodeKind};
use crate::ipc::{Received, Step};
use crate::sched::{Decision, Stack};
use crate::view::GraphView;
use crate::vm::VmError;

verus! {

/// An operation on the graph, and what it is asked.
///
/// Creation is of a node as it comes new, running is of a thread that waits
/// for nothing, and a step of the reaper is one that takes no cpu's queue
/// apart. An edge removed on its own is none that a place in the tree or in a
/// run queue hangs on. Loading a program, spawning a process and booting are
/// made of these.
pub enum Call {
    CreateRoot,
    Create { owner: NodeId, body: Body },
    Name { root: NodeId, dst: NodeId, name: Seq<char> },
    Grant { holder: NodeId, target: NodeId, rights: Rights },
    Unlink { e: u32 },
    Bind { t: NodeId, s: NodeId },
    MapMemory { s: NodeId, m: NodeId, attr: MapsAttr },
    Queue { cpu: NodeId, t: NodeId },
    Run { cpu: NodeId, t: NodeId },
    Block { t: NodeId, on: NodeId, attr: WaitingAttr },
    Wake { cpu: NodeId, t: NodeId },
    Rotate { cpu: NodeId },
    Delete { id: NodeId },
    Reap,
    Send {
        cpu: NodeId,
        me: NodeId,
        ep: NodeId,
        words: [u64; 8],
        cap_target: NodeId,
        cap_rights: Rights,
    },
    Receive { cpu: NodeId, me: NodeId, ep: NodeId },
    FinishWait { t: NodeId },
    Schedule { cpu: NodeId, kernel_pml4: u64 },
    GiveUp { cpu: NodeId, t: NodeId },
    RecordEnd { t: NodeId, code: i32 },
    LookUp { t: NodeId, name: Option<Seq<u8>> },
    MakeEndpoint { t: NodeId },
    Start { cpu: NodeId, child: NodeId },
    MakeKernelThread { root: NodeId, cpu: NodeId, stack: Stack },
}

impl Call {
    /// What the call did, if it did something.
    pub open spec fn done(self, g0: Graph, g1: Graph) -> bool {
        let v = g0@;
        let w = g1@;
        match self {
            Call::CreateRoot => {
                let id = g0.next_node(NodeKind::Root);
                &&& v.root_id.is_null()
                &&& !v.node_stock[NodeKind::Root].full()
                &&& w == (GraphView {
                    root_id: id,
                    ..v.with_node(id, Body::Root(<Root as NodeBody>::spec_zero())).bumped()
                })
            },
            Call::Create { owner, body } => {
                let e = g0.next_edge();
                &&& g0.create_refusal(owner, body.kind()) is None
                &&& body.bounded()
                &&& body.fresh()
                &&& crate::id::spec_compatible(
                    EdgeKind::Owns,
                    owner.kind()->Some_0,
                    body.kind(),
                )
                &&& w == v.with_node(g0.next_node(body.kind()), body).link(
                    owner,
                    EdgeKind::Owns,
                    g0.next_node(body.kind()),
                    crate::edge::zeros(24),
                    e.idx(),
                    e.generation(),
                )
            },
            Call::Name { root, dst, name } => {
                let e = g0.next_edge();
                &&& g0.link_refusal(root, EdgeKind::Named, dst) is None
                &&& w == v.link(
                    root,
                    EdgeKind::Named,
                    dst,
                    crate::names::name_data(name),
                    e.idx(),
                    e.generation(),
                )
            },
            Call::Grant { holder, target, rights } => {
                &&& holder.kind() == Some(NodeKind::Process)
                &&& exists|r: Result<u32, GraphError>| #[trigger]
                    g1.capability_granted(g0, holder, target, rights, r)
            },
            Call::Unlink { e } => {
                &&& v.edges.contains_key(e)
                &&& v.edges[e].kind != EdgeKind::Owns && v.edges[e].kind != EdgeKind::Ready
                &&& w == v.unlink(e)
            },
            Call::Bind { t, s } => {
                let u = v.unlink_first(t, Dir::Out, EdgeKind::InSpace);
                &&& g0.link_refusal(t, EdgeKind::InSpace, s) is None
                &&& u.unused(u.next_edge())
                &&& w == v.bound(t, s, u.next_edge())
            },
            Call::MapMemory { s, m, attr } => {
                &&& g0.map_refusal(s, m, attr) is None
                &&& v.memobj(m).map_count < u32::MAX
                &&& w == v.mapped(s, m, attr, v.next_edge())
            },
            Call::Queue { cpu, t } => {
                &&& cpu.kind() == Some(NodeKind::Cpu)
                &&& t.kind() == Some(NodeKind::Thread)
                &&& crate::sched::queued(g0, w, cpu, t)
            },
            Call::Run { cpu, t } => {
                &&& cpu.kind() == Some(NodeKind::Cpu)
                &&& t.kind() == Some(NodeKind::Thread)
                &&& v.live(t)
                &&& v.list(t, Dir::Out, EdgeKind::Waiting).len() == 0
                &&& w == if v.live(cpu) {
                    v.taken_to_run(t).with_current(cpu, t)
                } else {
                    v
                }
            },
            Call::Block { t, on, attr } => {
                let u = v.unlink_first(t, Dir::In, EdgeKind::Ready).unlink_first(
                    t,
                    Dir::Out,
                    EdgeKind::Waiting,
                );
                &&& g0.link_refusal(t, EdgeKind::Waiting, on) is None
                &&& u.unused(u.next_edge())
                &&& w == v.made_blocked(t, on, attr, u.next_edge())
            },
            Call::Wake { cpu, t } => {
                let u = v.wait_ended(t);
                &&& g0.link_refusal(cpu, EdgeKind::Ready, t) is None
                &&& if u.cannot_queue(t) {
                    w == u
                } else {
                    u.descheduled(t).unused(u.descheduled(t).next_edge()) && w == u.made_ready(
                        cpu,
                        t,
                        u.descheduled(t).next_edge(),
                    )
                }
            },
            Call::Rotate { cpu } => {
                &&& cpu.kind() == Some(NodeKind::Cpu)
                &&& v.live(cpu)
                &&& v.list(cpu, Dir::Out, EdgeKind::Ready).len() > 0
                &&& w == v.rotate(cpu, Dir::Out, EdgeKind::Ready)
            },
            Call::Delete { id } => w == v.deleted(id),
            Call::Reap => v.queues_settled() && w == v.reaped().0,
            Call::Send { cpu, me, ep, words, cap_target, cap_rights } => exists|r: Step<i64>|
                #[trigger]
                crate::ipc::sent(g0, w, cpu, me, ep, words, cap_target, cap_rights, r),
            Call::Receive { cpu, me, ep } => exists|r: Step<Received>| #[trigger]
                crate::ipc::received(g0, w, cpu, me, ep, r),
            Call::FinishWait { t } => t.kind() == Some(NodeKind::Thread) && w
                == crate::ipc::abort_noted(v, t),
            Call::Schedule { cpu, kernel_pml4 } => exists|r: Option<Decision>| #[trigger]
                crate::sched::scheduled(g0, w, cpu, kernel_pml4, r),
            Call::GiveUp { cpu, t } => w == crate::sched::given_up(v, cpu, t),
            Call::RecordEnd { t, code } => w == v.ending(t, code),
            Call::LookUp { t, name } => exists|r: i64| #[trigger]
                crate::syscall::looked_up(g0, g1, t, name, r),
            Call::MakeEndpoint { t } => exists|r: i64| #[trigger]
                crate::syscall_objects::endpoint_made(g0, g1, t, r),
            Call::Start { cpu, child } => exists|r: i64| #[trigger]
                crate::syscall_objects::started(g0, g1, cpu, child, r),
            Call::MakeKernelThread { root, cpu, stack } => {
                &&& root.kind() == Some(NodeKind::Root)
                &&& exists|r: Result<Ref<Thread>, VmError>| #[trigger]
                    crate::sched::kernel_thread_made(g0, g1, root, cpu, stack, r)
            },
        }
    }

    /// The call was carried out, or it was refused and changed nothing.
    pub open spec fn leads(self, g0: Graph, g1: Graph) -> bool {
        g1@ == g0@ || self.done(g0, g1)
    }
}

/// The next node of a kind is one that is not there yet, while there is room.
pub proof fn next_node_is_unused(g: Graph, kind: NodeKind)
    requires
        g.wf(),
        !g@.node_stock[kind].full(),
    ensures
        !g@.live(g.next_node(kind)),
        g.next_node(kind).kind() == Some(kind),
        g.next_node(kind).generation() % 2 == 1,
{
    let b = g.books(kind);
    assert(b.wf());
    crate::arena::stock_of_books(b);
    let s = g@.node_stock[kind];
    crate::arena::alloc_keeps_stock(s);
    crate::id::node_id_round_trip(kind, s.next_index(), s.next_generation());
    crate::laws_ids::live_at_its_generation(g, g.next_node(kind));
}

/// Every call keeps every invariant.
#[verifier::spinoff_prover]
#[verifier::rlimit(60)]
pub proof fn every_call_keeps_invariants(call: Call, g0: Graph, g1: Graph)
    requires
        g0.wf(),
        g1.wf(),
        g0@.inv(),
        call.leads(g0, g1),
    ensures
        g1@.inv(),
{
    let v = g0@;
    if g1@ != v {
        if !v.edge_stock.full() {
            crate::laws_ipc::next_edge_is_unused(g0);
        }
        match call {
            Call::CreateRoot => {
                next_node_is_unused(g0, NodeKind::Root);
                crate::laws_make::creating_the_root_keeps_invariants(
                    v,
                    g0.next_node(NodeKind::Root),
                );
            },
            Call::Create { owner, body } => {
                next_node_is_unused(g0, body.kind());
                let e = g0.next_edge();
                crate::laws_make::creating_keeps_invariants(
                    v,
                    owner,
                    g0.next_node(body.kind()),
                    body,
                    e.idx(),
                    e.generation(),
                );
            },
            Call::Name { root, dst, name } => {
                let e = g0.next_edge();
                crate::laws_make::naming_keeps_invariants(
                    v,
                    root,
                    dst,
                    crate::names::name_data(name),
                    e.idx(),
                    e.generation(),
                );
            },
            Call::Grant { holder, target, rights } => {
                let r = choose|r: Result<u32, GraphError>| #[trigger]
                    g1.capability_granted(g0, holder, target, rights, r);
                crate::laws_calls::asking_for_a_capability_keeps_invariants(
                    g0,
                    g1,
                    holder,
                    target,
                    rights,
                    r,
                );
            },
            Call::Unlink { e } => unlinking_keeps_invariants(v, e),
            Call::Bind { t, s } => {
                let u = v.unlink_first(t, Dir::Out, EdgeKind::InSpace);
                crate::laws_make::binding_a_space_keeps_invariants(v, t, s, u.next_edge());
            },
            Call::MapMemory { s, m, attr } => {
                crate::laws_spawn::a_place_in_the_index(v, s, attr.vaddr, 0);
                crate::laws_make::mapping_keeps_invariants(v, s, m, attr, v.next_edge());
            },
            Call::Queue { cpu, t } => {
                crate::laws_calls::trying_to_queue_keeps_invariants(g0, g1@, cpu, t);
            },
            Call::Run { cpu, t } => {
                crate::laws_run::running_keeps_invariants(v, cpu, t);
            },
            Call::Block { t, on, attr } => {
                let u = v.unlink_first(t, Dir::In, EdgeKind::Ready).unlink_first(
                    t,
                    Dir::Out,
                    EdgeKind::Waiting,
                );
                crate::laws_run::blocking_keeps_invariants(v, t, on, attr, u.next_edge());
            },
            Call::Wake { cpu, t } => waking_keeps(v, cpu, t),
            Call::Rotate { cpu } => {
                crate::laws_run::rotating_keeps_invariants(v, cpu);
            },
            Call::Delete { id } => {
                crate::laws_reap::deleting_keeps_invariants(v, id);
            },
            Call::Reap => {
                crate::laws_reap::reaping_keeps_invariants(v);
            },
            _ => kernel_calls_keep_invariants(call, g0, g1),
        }
    }
}

proof fn unlinking_keeps_invariants(v: GraphView, e: u32)
    requires
        v.wf(),
        v.inv(),
        v.edges.contains_key(e),
        v.edges[e].kind != EdgeKind::Owns && v.edges[e].kind != EdgeKind::Ready,
    ensures
        v.unlink(e).inv(),
{
    match v.edges[e].kind {
        EdgeKind::Holds => crate::laws::revoking_keeps_invariants(v, e),
        EdgeKind::InSpace => crate::laws::unbinding_a_space_keeps_invariants(v, e),
        EdgeKind::Maps => crate::laws::unmapping_keeps_invariants(v, e),
        EdgeKind::Waiting => crate::laws::removing_a_wait_keeps_invariants(v, e),
        _ => crate::laws::removing_a_name_keeps_invariants(v, e),
    }
}

proof fn waking_keeps(v: GraphView, cpu: NodeId, t: NodeId)
    requires
        v.wf(),
        v.inv(),
        v.live(cpu),
        v.live(t),
        cpu.kind() == Some(NodeKind::Cpu),
        t.kind() == Some(NodeKind::Thread),
        !v.dying(t),
    ensures
        v.wait_ended(t).cannot_queue(t) ==> v.wait_ended(t).inv(),
        ({
            let u = v.wait_ended(t);
            let e = u.descheduled(t).next_edge();
            !u.cannot_queue(t) && u.descheduled(t).unused(e) ==> u.made_ready(cpu, t, e).inv()
        }),
{
    let u = v.wait_ended(t);
    let e = u.descheduled(t).next_edge();
    if u.cannot_queue(t) {
        assert(v.nodes.contains_key(t));
        assert(v.node_ok(t) && v.body_ok(t));
        let key: crate::view::ListKey = (t, Dir::Out, EdgeKind::Waiting);
        assert(v.lists.contains_key(key));
        assert(v.list_ok(key));
        if v.lists[key].len() > 0 {
            let x = v.lists[key][0];
            assert(v.edges.contains_key(x));
            crate::laws::removing_a_wait_keeps_invariants(v, x);
        } else {
            crate::laws_run::unlisted_body_change_keeps_invariants(
                v,
                t,
                Body::Thread(Thread { wait_aborted: 0, ..v.thread(t) }),
            );
        }
    } else if u.descheduled(t).unused(e) {
        crate::laws_run::waking_keeps_invariants(v, cpu, t, e);
    }
}

proof fn kernel_calls_keep_invariants(call: Call, g0: Graph, g1: Graph)
    requires
        g0.wf(),
        g1.wf(),
        g0@.inv(),
        call.done(g0, g1),
        call is Send || call is Receive || call is FinishWait || call is Schedule || call is GiveUp
            || call is RecordEnd || call is LookUp || call is MakeEndpoint || call is Start
            || call is MakeKernelThread,
    ensures
        g1@.inv(),
{
    let w = g1@;
    match call {
        Call::Send { cpu, me, ep, words, cap_target, cap_rights } => {
            let r = choose|r: Step<i64>| #[trigger]
                crate::ipc::sent(g0, w, cpu, me, ep, words, cap_target, cap_rights, r);
            crate::laws_calls::sending_keeps_invariants(
                g0,
                w,
                cpu,
                me,
                ep,
                words,
                cap_target,
                cap_rights,
                r,
            );
        },
        Call::Receive { cpu, me, ep } => {
            let r = choose|r: Step<Received>| #[trigger]
                crate::ipc::received(g0, w, cpu, me, ep, r);
            crate::laws_calls::receiving_keeps_invariants(g0, w, cpu, me, ep, r);
        },
        Call::FinishWait { t } => {
            crate::laws_calls::finishing_a_wait_keeps_invariants(g0@, t);
        },
        Call::Schedule { cpu, kernel_pml4 } => {
            let r = choose|r: Option<Decision>| #[trigger]
                crate::sched::scheduled(g0, w, cpu, kernel_pml4, r);
            crate::laws_calls::scheduling_keeps_invariants(g0, w, cpu, kernel_pml4, r);
        },
        Call::GiveUp { cpu, t } => {
            crate::laws_calls::giving_up_keeps_invariants(g0@, cpu, t);
        },
        Call::RecordEnd { t, code } => {
            crate::laws_calls::recording_the_end_keeps_invariants(g0@, t, code);
        },
        Call::LookUp { t, name } => {
            let r = choose|r: i64| #[trigger] crate::syscall::looked_up(g0, g1, t, name, r);
            crate::laws_calls::looking_up_keeps_invariants(g0, g1, t, name, r);
        },
        Call::MakeEndpoint { t } => {
            let r = choose|r: i64| #[trigger]
                crate::syscall_objects::endpoint_made(g0, g1, t, r);
            crate::laws_calls::making_an_endpoint_keeps_invariants(g0, g1, t, r);
        },
        Call::Start { cpu, child } => {
            let r = choose|r: i64| #[trigger]
                crate::syscall_objects::started(g0, g1, cpu, child, r);
            crate::laws_calls::starting_keeps_invariants(g0, g1, cpu, child, r);
        },
        Call::MakeKernelThread { root, cpu, stack } => {
            let r = choose|r: Result<Ref<Thread>, VmError>| #[trigger]
                crate::sched::kernel_thread_made(g0, g1, root, cpu, stack, r);
            crate::laws_spawn::making_a_kernel_thread_keeps_invariants(
                g0,
                g1,
                root,
                cpu,
                stack,
                r,
            );
        },
        _ => {},
    }
}

/// The graphs that a sequence of calls leads through, from one that nothing
/// was ever put in.
pub open spec fn history(run: Seq<Graph>, calls: Seq<Call>) -> bool {
    &&& run.len() == calls.len() + 1
    &&& run[0]@ == Graph::nothing()
    &&& forall|i: int| 0 <= i < run.len() ==> (#[trigger] run[i]).wf()
    &&& forall|i: int| 0 <= i < calls.len() ==> (#[trigger] calls[i]).leads(run[i], run[i + 1])
}

/// Any run of calls from the empty graph leads through graphs that keep every
/// invariant, and that the checker accepts.
pub proof fn every_history_passes_the_checker(run: Seq<Graph>, calls: Seq<Call>, i: int)
    requires
        history(run, calls),
        0 <= i < run.len(),
    ensures
        run[i]@.inv(),
        run[i].checkable(),
        run[i].threaded(),
        run[i]@.passes(),
    decreases i,
{
    if i == 0 {
        crate::laws_make::empty_graph_satisfies_invariants();
    } else {
        every_history_passes_the_checker(run, calls, i - 1);
        let call = calls[i - 1];
        assert(call.leads(run[i - 1], run[i - 1 + 1]));
        every_call_keeps_invariants(call, run[i - 1], run[i]);
    }
    crate::laws_check::kept_invariants_pass(run[i]);
}

} // verus!
