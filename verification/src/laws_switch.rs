//! A switch from one thread to another: who is saved, who runs, and who waits
//! behind whom.

use vstd::prelude::*;

use crate::body::{Body, Thread, ThreadState};
use crate::edge::{Dir, EdgeAttr, ReadyAttr};
use crate::graph::Graph;
use crate::id::{EdgeId, EdgeKind, NodeId, NodeKind};
use crate::sched::Decision;
use crate::view::{GraphView, ListKey};

verus! {

/// What a switch finds at the head of the queue: a thread that is ready, on
/// this queue and no other.
proof fn the_head_is_ready(v: GraphView, cpu: NodeId)
    requires
        v.wf(),
        v.inv(),
        v.live(cpu),
        cpu.kind() == Some(NodeKind::Cpu),
        v.run_queue(cpu).len() > 0,
    ensures
        ({
            let e = v.list(cpu, Dir::Out, EdgeKind::Ready)[0];
            let next = v.run_queue(cpu)[0];
            &&& v.queue_head(cpu) == Some(next)
            &&& v.edges.contains_key(e)
            &&& v.edges[e].src == cpu
            &&& v.edges[e].dst == next
            &&& v.edges[e].kind == EdgeKind::Ready
            &&& v.live(next)
            &&& next.kind() == Some(NodeKind::Thread)
            &&& v.nodes[next].body is Thread
            &&& v.thread(next).state == ThreadState::Ready
            &&& v.list(next, Dir::In, EdgeKind::Ready) == seq![e]
            &&& v.cr3_ok(next)
            &&& v.single_ok(next)
        }),
{
    let key: ListKey = (cpu, Dir::Out, EdgeKind::Ready);
    assert(v.nodes.contains_key(cpu));
    assert(v.lists.contains_key(key));
    assert(v.list_ok(key));
    let e = v.lists[key][0];
    assert(v.edges.contains_key(e));
    assert(v.edge_ok(e));
    let next = v.edges[e].dst;
    assert(v.nodes.contains_key(next));
    assert(v.node_ok(next) && v.body_ok(next));
    let ins = v.list(next, Dir::In, EdgeKind::Ready);
    assert(ins.contains(e));
    assert(ins =~= seq![e]);
}

/// A running thread is on no queue, and waits for nothing.
proof fn running_is_on_no_queue(v: GraphView, t: NodeId)
    requires
        v.wf(),
        v.inv(),
        v.live(t),
        t.kind() == Some(NodeKind::Thread),
        v.thread(t).state == ThreadState::Running,
    ensures
        v.nodes[t].body is Thread,
        v.list(t, Dir::In, EdgeKind::Ready).len() == 0,
        v.list(t, Dir::Out, EdgeKind::Waiting).len() == 0,
{
    assert(v.nodes.contains_key(t));
    assert(v.node_ok(t) && v.body_ok(t));
}

/// What the thread that ran goes through, if it goes on being runnable.
proof fn put_back_goes_last(g1: Graph, v2: GraphView, cpu: NodeId, ran: NodeId)
    requires
        g1@.wf(),
        g1@.inv(),
        g1@.live(cpu),
        cpu.kind() == Some(NodeKind::Cpu),
        crate::sched::put_back(g1, v2, cpu, ran),
    ensures
        ({
            let u = g1@;
            let back = u.live(ran) && ran.kind() == Some(NodeKind::Thread) && u.thread(ran).state
                == ThreadState::Running && g1.link_refusal(cpu, EdgeKind::Ready, ran) is None;
            &&& !back ==> v2 == u
            &&& back ==> exists|e: EdgeId| #[trigger]
                u.unused(e) && v2 == u.link(
                    cpu,
                    EdgeKind::Ready,
                    ran,
                    (ReadyAttr { prio: 0 }).spec_bytes(),
                    e.idx(),
                    e.generation(),
                ).with_state(ran, ThreadState::Ready)
        }),
{
    let u = g1@;
    if u.is_thread(ran) && u.thread(ran).state == ThreadState::Running {
        running_is_on_no_queue(u, ran);
        if g1.ready_refusal(cpu, ran) is None {
            let e = choose|e: EdgeId| #[trigger]
                u.descheduled(ran).unused(e) && v2 == u.made_ready(cpu, ran, e);
            assert(u.descheduled(ran) == u);
        }
    }
}

/// What is left of a list when the member at a place goes.
proof fn taken_out(s: Seq<u32>, e: u32, k: int)
    requires
        0 <= k < s.len(),
        s[k] == e,
        forall|i: int| 0 <= i < s.len() && s[i] == e ==> i == k,
    ensures
        crate::slab::without(s, e) == s.remove(k),
{
    assert(s.contains(e));
    assert(s.index_of(e) == k);
}

/// Taking the next thread off the queue takes it alone.
proof fn taking_the_next(v2: GraphView, cpu: NodeId, e: u32, next: NodeId)
    requires
        v2.wf(),
        v2.live(cpu),
        cpu.kind() == Some(NodeKind::Cpu),
        v2.live(next),
        v2.nodes[next].body is Thread,
        next.kind() == Some(NodeKind::Thread),
        v2.edges.contains_key(e),
        v2.edges[e].src == cpu,
        v2.edges[e].dst == next,
        v2.edges[e].kind == EdgeKind::Ready,
        v2.list(next, Dir::In, EdgeKind::Ready) == seq![e],
    ensures
        ({
            let w = v2.taken_to_run(next).with_current(cpu, next);
            &&& w.edges == v2.edges.remove(e)
            &&& w.list(cpu, Dir::Out, EdgeKind::Ready) == crate::slab::without(
                v2.list(cpu, Dir::Out, EdgeKind::Ready),
                e,
            )
            &&& w.list(next, Dir::In, EdgeKind::Ready).len() == 0
            &&& w.nodes == v2.nodes.insert(
                next,
                crate::view::NodeView {
                    body: Body::Thread(
                        Thread { state: ThreadState::Running, ..v2.thread(next) },
                    ),
                    ..v2.nodes[next]
                },
            ).insert(
                cpu,
                crate::view::NodeView {
                    body: Body::Cpu(crate::body::Cpu { current: next, ..v2.cpu(cpu) }),
                    ..v2.nodes[cpu]
                },
            )
        }),
{
    let s = seq![e];
    assert(s[0] == e);
    assert(v2.unlink_first(next, Dir::In, EdgeKind::Ready) == v2.unlink(e));
    assert(v2.unlink(e) == v2.cut(e));
    taken_out(s, e, 0);
    let w = v2.taken_to_run(next).with_current(cpu, next);
    assert(next != cpu);
}

/// A switch saves the stack pointer of the thread that ran, whenever there was
/// one. It adopts that of the thread at the head of the queue, on that
/// thread's kernel stack. It happens whenever another thread is ready, and the
/// cpu then runs that one; without a switch the cpu runs what it ran. No
/// stack pointer that is kept in the graph is changed.
#[verifier::spinoff_prover]
pub proof fn a_switch_saves_who_ran(
    g0: Graph,
    v1: GraphView,
    cpu: NodeId,
    kernel_pml4: u64,
    r: Option<Decision>,
)
    requires
        g0.wf(),
        g0@.inv(),
        g0@.live(cpu),
        cpu.kind() == Some(NodeKind::Cpu),
        crate::sched::scheduled(g0, v1, cpu, kernel_pml4, r),
    ensures
        ({
            let v = g0@;
            let q = v.run_queue(cpu);
            let ran = v.cpu(cpu).current;
            &&& r is None <==> q.len() == 0 || q[0] == ran
            &&& r is None ==> v1.nodes == v.nodes
            &&& r matches Some(d) ==> {
                let next = q[0];
                &&& v.live(ran) && ran.kind() == Some(NodeKind::Thread) ==> (d.save matches Some(t)
                    && t.id() == ran)
                &&& !(v.live(ran) && ran.kind() == Some(NodeKind::Thread)) ==> d.save is None
                &&& d.new_rsp == v.thread(next).saved_rsp
                &&& d.kernel_rsp == v.thread(next).kstack_top
                &&& v1.cpu(cpu).current == next
                &&& v1.thread(next).state == ThreadState::Running
                &&& forall|x: NodeId|
                    v.live(x) && x.kind() == Some(NodeKind::Thread) ==> v1.live(x) && (
                    #[trigger] v1.thread(x)).saved_rsp == v.thread(x).saved_rsp && v1.thread(
                        x,
                    ).kstack_top == v.thread(x).kstack_top && v1.thread(x).msg == v.thread(x).msg
            }
            &&& forall|x: NodeId| #[trigger]
                v.nodes.contains_key(x) ==> v1.nodes.contains_key(x) && v1.nodes[x].flags
                    == v.nodes[x].flags && v1.nodes[x].owner == v.nodes[x].owner && (x.kind()
                    != Some(NodeKind::Thread) && x != cpu ==> v1.nodes[x].body == v.nodes[x].body)
        }),
{
    let v = g0@;
    let q = v.run_queue(cpu);
    assert(v.nodes.contains_key(cpu));
    assert(v.node_ok(cpu));
    if q.len() > 0 {
        the_head_is_ready(v, cpu);
        if r is Some {
            let (g1, v2, e) = the_steps(g0, v1, cpu, kernel_pml4, r);
            let ran = v.cpu(cpu).current;
            let next = q[0];
            put_back_goes_last(g1, v2, cpu, ran);
            taking_the_next(v2, cpu, e, next);
            assert forall|x: NodeId|
                v.live(x) && x.kind() == Some(NodeKind::Thread) implies v1.live(x) && (
            #[trigger] v1.thread(x)).saved_rsp == v.thread(x).saved_rsp && v1.thread(x).kstack_top
                == v.thread(x).kstack_top && v1.thread(x).msg == v.thread(x).msg by {
                assert(v.nodes.contains_key(x));
                assert(v.node_ok(x));
                assert(x != cpu);
            }
            assert forall|x: NodeId| #[trigger] v.nodes.contains_key(x) implies v1.nodes.contains_key(
                x,
            ) && v1.nodes[x].flags == v.nodes[x].flags && v1.nodes[x].owner == v.nodes[x].owner && (
            x.kind() != Some(NodeKind::Thread) && x != cpu ==> v1.nodes[x].body
                == v.nodes[x].body) by {
                assert(v2.nodes.contains_key(x));
            }
        }
    }
}

/// The graphs a switch goes through.
proof fn the_steps(g0: Graph, v1: GraphView, cpu: NodeId, kernel_pml4: u64, r: Option<Decision>) -> (x: (
    Graph,
    GraphView,
    u32,
))
    requires
        g0.wf(),
        g0@.inv(),
        g0@.live(cpu),
        cpu.kind() == Some(NodeKind::Cpu),
        g0@.run_queue(cpu).len() > 0,
        crate::sched::scheduled(g0, v1, cpu, kernel_pml4, r),
        r is Some,
    ensures
        ({
            let v = g0@;
            let next = v.run_queue(cpu)[0];
            let s = v.list(cpu, Dir::Out, EdgeKind::Ready);
            let ran = v.cpu(cpu).current;
            &&& next != ran
            &&& x.2 == s[0]
            &&& x.0@.wf()
            &&& x.0@.inv()
            &&& x.0@.nodes == v.nodes
            &&& x.0@.edges == v.edges
            &&& x.0@.list(cpu, Dir::Out, EdgeKind::Ready) == s.drop_first().push(s[0])
            &&& crate::sched::put_back(x.0, x.1, cpu, ran)
            &&& v1 == x.1.taken_to_run(next).with_current(cpu, next)
            &&& x.1.wf()
            &&& x.1.live(cpu)
            &&& x.1.live(next)
            &&& x.1.nodes[next] == v.nodes[next]
            &&& x.1.nodes[cpu] == v.nodes[cpu]
            &&& x.1.edges.contains_key(s[0])
            &&& x.1.edges[s[0]] == v.edges[s[0]]
            &&& x.1.list(next, Dir::In, EdgeKind::Ready) == seq![s[0]]
        }),
{
    let v = g0@;
    the_head_is_ready(v, cpu);
    let next = v.run_queue(cpu)[0];
    let ran = v.cpu(cpu).current;
    let s = v.list(cpu, Dir::Out, EdgeKind::Ready);
    let turned = v.rotate(cpu, Dir::Out, EdgeKind::Ready);
    let (g1, v2) = choose|g1: Graph, v2: GraphView|
        g1@ == turned && #[trigger] crate::sched::put_back(g1, v2, cpu, ran) && v1
            == v2.taken_to_run(next).with_current(cpu, next);
    crate::laws_run::rotating_keeps_invariants(v, cpu);
    assert(v.nodes.contains_key(cpu));
    put_back_goes_last(g1, v2, cpu, ran);
    if turned.is_thread(ran) && turned.thread(ran).state == ThreadState::Running {
        crate::laws_calls::trying_to_queue_keeps_invariants(g1, v2, cpu, ran);
    }
    (g1, v2, s[0])
}

/// After a switch the queue is what stood behind its head, and behind that the
/// thread that ran, if it can still run.
#[verifier::spinoff_prover]
pub proof fn a_switch_moves_the_queue_up(
    g0: Graph,
    v1: GraphView,
    cpu: NodeId,
    kernel_pml4: u64,
    r: Option<Decision>,
)
    requires
        g0.wf(),
        g0@.inv(),
        g0@.live(cpu),
        cpu.kind() == Some(NodeKind::Cpu),
        crate::sched::scheduled(g0, v1, cpu, kernel_pml4, r),
        r is Some,
    ensures
        ({
            let v = g0@;
            let ran = v.cpu(cpu).current;
            let rest = v.run_queue(cpu).drop_first();
            let runnable = v.live(ran) && !v.dying(ran) && ran.kind() == Some(NodeKind::Thread)
                && v.thread(ran).state == ThreadState::Running && !v.dying(cpu)
                && !v.edge_stock.full();
            &&& !runnable ==> v1.run_queue(cpu) == rest
            &&& runnable ==> v1.run_queue(cpu) == rest.push(ran) && v1.thread(ran).state
                == ThreadState::Ready
        }),
{
    let v = g0@;
    let ran = v.cpu(cpu).current;
    let rest = v.run_queue(cpu).drop_first();
    let s = v.list(cpu, Dir::Out, EdgeKind::Ready);
    assert(v.nodes.contains_key(cpu));
    assert(v.node_ok(cpu));
    the_head_is_ready(v, cpu);
    let (g1, v2, e) = the_steps(g0, v1, cpu, kernel_pml4, r);
    let u = g1@;
    let next = v.run_queue(cpu)[0];
    put_back_goes_last(g1, v2, cpu, ran);
    taking_the_next(v2, cpu, e, next);
    let key: ListKey = (cpu, Dir::Out, EdgeKind::Ready);
    assert(v.lists.contains_key(key));
    assert(v.list_ok(key));
    assert(s.no_duplicates());
    assert forall|i: int| 0 <= i < s.len() implies v.edges.contains_key(#[trigger] s[i]) by {}
    let runnable = v.live(ran) && !v.dying(ran) && ran.kind() == Some(NodeKind::Thread)
        && v.thread(ran).state == ThreadState::Running && !v.dying(cpu) && !v.edge_stock.full();
    assert(runnable == (u.live(ran) && ran.kind() == Some(NodeKind::Thread) && u.thread(ran).state
        == ThreadState::Running && g1.link_refusal(cpu, EdgeKind::Ready, ran) is None)) by {
        if ran.kind() == Some(NodeKind::Thread) {
            link_refused_when(g1, cpu, ran);
        }
    }
    if runnable {
        let e2 = choose|e2: EdgeId| #[trigger]
            u.unused(e2) && v2 == u.link(
                cpu,
                EdgeKind::Ready,
                ran,
                (ReadyAttr { prio: 0 }).spec_bytes(),
                e2.idx(),
                e2.generation(),
            ).with_state(ran, ThreadState::Ready);
        let l2 = s.drop_first().push(e).push(e2.idx());
        assert(v2.list(cpu, Dir::Out, EdgeKind::Ready) == l2);
        taken_out(l2, e, s.len() - 1);
        assert(l2.remove(s.len() - 1) =~= s.drop_first().push(e2.idx()));
        let l3 = s.drop_first().push(e2.idx());
        assert(v1.run_queue(cpu) =~= rest.push(ran)) by {
            assert forall|i: int| 0 <= i < s.len() - 1 implies v1.edges[#[trigger] l3[i]].dst
                == v.edges[s[i + 1]].dst by {
                assert(l3[i] == s[i + 1]);
                assert(v.edges.contains_key(s[i + 1]));
            }
            assert(v1.edges[e2.idx()].dst == ran);
        }
    } else {
        let l2 = s.drop_first().push(e);
        taken_out(l2, e, s.len() - 1);
        assert(l2.remove(s.len() - 1) =~= s.drop_first());
        let l3 = s.drop_first();
        assert(v1.run_queue(cpu) =~= rest) by {
            assert forall|i: int| 0 <= i < s.len() - 1 implies v1.edges[#[trigger] l3[i]].dst
                == v.edges[s[i + 1]].dst by {
                assert(l3[i] == s[i + 1]);
                assert(v.edges.contains_key(s[i + 1]));
            }
        }
    }
}

/// When a thread cannot be queued on a cpu that is there.
proof fn link_refused_when(g: Graph, cpu: NodeId, t: NodeId)
    requires
        g@.live(cpu),
        cpu.kind() == Some(NodeKind::Cpu),
        t.kind() == Some(NodeKind::Thread),
    ensures
        g.link_refusal(cpu, EdgeKind::Ready, t) is None <==> g@.live(t) && !g@.dying(t) && !g@.dying(
            cpu,
        ) && !g@.edge_stock.full(),
{
}

/// A thread runs on the page tables of the space it is in, and one that is in
/// none on the kernel's.
pub proof fn a_switch_adopts_the_space(
    g0: Graph,
    v1: GraphView,
    cpu: NodeId,
    kernel_pml4: u64,
    d: Decision,
)
    requires
        g0.wf(),
        g0@.inv(),
        g0@.live(cpu),
        cpu.kind() == Some(NodeKind::Cpu),
        crate::sched::scheduled(g0, v1, cpu, kernel_pml4, Some(d)),
    ensures
        ({
            let v = g0@;
            let next = v.run_queue(cpu)[0];
            &&& forall|s: NodeId| #[trigger]
                v.thread_in(next, s) ==> d.cr3 == if v.space(s).pml4_phys != 0 {
                    v.space(s).pml4_phys
                } else {
                    kernel_pml4
                }
            &&& (forall|s: NodeId| !#[trigger] v.thread_in(next, s)) ==> d.cr3 == kernel_pml4
        }),
{
    let v = g0@;
    the_head_is_ready(v, cpu);
    let next = v.run_queue(cpu)[0];
    let ins = v.list(next, Dir::Out, EdgeKind::InSpace);
    let key: ListKey = (next, Dir::Out, EdgeKind::InSpace);
    assert(v.nodes.contains_key(next));
    assert(v.lists.contains_key(key));
    assert(v.list_ok(key));
    assert forall|s: NodeId| #[trigger] v.thread_in(next, s) implies ins.len() > 0 && v.edges[ins[0]].dst
        == s by {
        let i = choose|i: u32| #[trigger]
            v.edges.contains_key(i) && v.edges[i].kind == EdgeKind::InSpace && v.edges[i].src
                == next && v.edges[i].dst == s;
        assert(v.edge_ok(i));
        assert(ins.contains(i));
    }
    if ins.len() > 0 {
        assert(v.edges.contains_key(ins[0]));
        assert(v.thread_in(next, v.edges[ins[0]].dst));
    }
}

} // verus!
