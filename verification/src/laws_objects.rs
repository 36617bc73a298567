//! What the calls that make, hand out, start and end things do, in terms of
//! who holds and who owns what before and after.

use vstd::prelude::*;

use crate::abi::{E_BADHANDLE, E_BADKIND, E_NOSPACE, E_NOTFOUND, E_PERM};
use crate::body::{Endpoint, NodeBody, Process, Rights, Thread, ThreadState};
use crate::edge::Dir;
use crate::graph::{Graph, GraphError, Ref};
use crate::id::{EdgeId, EdgeKind, NodeId, NodeKind};
use crate::load::State;
use crate::proc::SpawnError;
use crate::sched::Decision;
use crate::view::{GraphView, ListKey};

verus! {

// ----------------------------------------------------------------- processes ---

/// What a handle to a process comes to, by what is held.
proof fn process_handle_goes_by_what_is_held(
    v: GraphView,
    t: NodeId,
    p: NodeId,
    arg: u64,
    slot: u32,
    q: NodeId,
    rights: u32,
    need: u32,
)
    requires
        v.wf(),
        v.inv(),
        v.works_for(t, p),
        crate::laws_authority::names_slot(arg, slot),
        v.holds_in(p, slot, q, rights),
    ensures
        v.process_of(t) == Some(p),
        v.process_handle(t, arg, Rights(need)) == if rights & need != need {
            Err::<NodeId, i64>(E_PERM)
        } else if v.dying(q) {
            Err::<NodeId, i64>(E_BADHANDLE)
        } else if q.kind() != Some(NodeKind::Process) {
            Err::<NodeId, i64>(E_BADKIND)
        } else {
            Ok::<NodeId, i64>(q)
        },
        v.live(q),
{
    crate::laws_authority::handle_goes_by_what_is_held(v, t, p, arg, slot, q, rights, need);
}

/// A capability granted where nothing refused it: the slot was empty, and now
/// holds the object, with the rights it was granted with.
pub proof fn a_grant_is_held(
    g0: Graph,
    g1: Graph,
    p: NodeId,
    d: NodeId,
    rights: Rights,
    slot: u32,
)
    requires
        g0.wf(),
        g0@.inv(),
        p.kind() == Some(NodeKind::Process),
        g1.capability_granted(g0, p, d, rights, Ok::<u32, GraphError>(slot)),
    ensures
        0 < slot < 256,
        g0@.holds_nothing(p, slot),
        g1@.holds_in(p, slot, d, rights.0),
        g1@.capabilities_kept(g0@),
{
    let v = g0@;
    crate::caps::no_free_slot_means_full(v.process(p));
    crate::laws_messages::granted_is_held(v, p, d, rights, slot, g0.next_edge());
    assert(v.nodes.contains_key(p));
    assert(v.node_ok(p) && v.body_ok(p));
    assert forall|e: u32, x: NodeId, r: u32| !#[trigger] v.capability(e, p, slot, x, r) by {
        if v.capability(e, p, slot, x, r) {
            assert(v.edge_ok(e));
            let out = v.list(p, Dir::Out, EdgeKind::Holds);
            let j = out.index_of(e);
            assert(out[j] == e);
        }
    }
}

/// A grant copies what one slot of the caller names into the process that
/// another names, with the rights that the caller has on it and the mask
/// leaves. It needs the grant right on that process, and room there.
pub proof fn a_grant_narrows(
    g0: Graph,
    g1: Graph,
    t: NodeId,
    p: NodeId,
    proc_arg: u64,
    proc_slot: u32,
    q: NodeId,
    q_rights: u32,
    cap_arg: u64,
    cap_slot: u32,
    d: NodeId,
    rights: u32,
    mask_arg: u64,
    mask: u32,
    r: i64,
)
    requires
        g0.wf(),
        g0@.inv(),
        g0@.works_for(t, p),
        crate::laws_authority::names_slot(proc_arg, proc_slot),
        g0@.holds_in(p, proc_slot, q, q_rights),
        crate::laws_authority::names_slot(cap_arg, cap_slot),
        g0@.holds_in(p, cap_slot, d, rights),
        crate::laws_authority::names_slot(mask_arg, mask),
        crate::syscall_objects::grant_answered(g0, g1, t, proc_arg, cap_arg, mask_arg, r),
    ensures
        r < 0 ==> g1 == g0,
        q_rights & 32 == 0 ==> r == E_PERM,
        q_rights & 32 != 0 && g0@.dying(q) ==> r == E_BADHANDLE,
        q_rights & 32 != 0 && !g0@.dying(q) && q.kind() != Some(NodeKind::Process) ==> r
            == E_BADKIND,
        q_rights & 32 != 0 && !g0@.dying(q) && q.kind() == Some(NodeKind::Process) && g0@.dying(d)
            ==> r == E_BADHANDLE,
        r == E_NOSPACE ==> forall|s: u32| 0 < s < 256 ==> !#[trigger] g0@.holds_nothing(q, s),
        r >= 0 ==> {
            &&& 0 < r < 256
            &&& q.kind() == Some(NodeKind::Process)
            &&& g0@.holds_nothing(q, r as u32)
            &&& g1@.holds_in(q, r as u32, d, rights & mask)
            &&& g1@.capabilities_kept(g0@)
        },
        q_rights & 32 != 0 && !g0@.dying(q) && q.kind() == Some(NodeKind::Process) && !g0@.dying(d)
            && !g0@.edge_stock.full() && (exists|s: u32|
            0 < s < 256 && #[trigger] g0@.holds_nothing(q, s)) ==> r > 0,
{
    let v = g0@;
    crate::laws_authority::one_bit(q_rights);
    crate::laws_authority::one_bit(rights);
    crate::laws_authority::low_half(cap_arg, cap_slot);
    crate::laws_authority::low_half(mask_arg, mask);
    process_handle_goes_by_what_is_held(v, t, p, proc_arg, proc_slot, q, q_rights, 32);
    crate::laws_authority::what_is_held_resolves(v, p, cap_slot, d, rights, 0);
    if q_rights & 32 != 0 && !v.dying(q) && q.kind() == Some(NodeKind::Process) && !v.dying(d) {
        let rg = choose|rg: Result<u32, GraphError>| #[trigger]
            g1.capability_granted(g0, q, d, Rights(rights & mask), rg) && r == match rg {
                Ok(slot) => slot as i64,
                Err(GraphError::NoFreeSlot) => E_NOSPACE,
                Err(_) => E_BADHANDLE,
            };
        a_grant_is_refused_when(g0, p, cap_slot, q, d, rights);
        if let Ok(slot) = rg {
            a_grant_is_held(g0, g1, q, d, Rights(rights & mask), slot);
        }
    }
}

/// A grant of what is held is refused only for want of room: in the table, or
/// for the edge.
proof fn a_grant_is_refused_when(g: Graph, p: NodeId, slot: u32, q: NodeId, d: NodeId, rights: u32)
    requires
        g.wf(),
        g@.inv(),
        g@.holds_in(p, slot, d, rights),
        g@.live(q),
        !g@.dying(q),
        q.kind() == Some(NodeKind::Process),
        !g@.dying(d),
    ensures
        g.grant_refusal(q, d) == Some(GraphError::NoFreeSlot) <==> forall|s: u32|
            0 < s < 256 ==> !#[trigger] g@.holds_nothing(q, s),
        g.grant_refusal(q, d) is Some && g.grant_refusal(q, d) != Some(GraphError::NoFreeSlot)
            ==> g@.edge_stock.full(),
{
    let v = g@;
    let e = choose|e: u32| #[trigger] v.capability(e, p, slot, d, rights);
    assert(v.edge_ok(e));
    crate::caps::no_free_slot_means_full(v.process(q));
    assert(v.nodes.contains_key(q));
    assert(v.node_ok(q) && v.body_ok(q));
    let h = v.process(q).handles@;
    assert forall|s: u32| 0 < s < 256 implies (h[s as int] != 0 <==> !#[trigger] v.holds_nothing(
        q,
        s,
    )) by {
        if h[s as int] != 0 {
            let x = h[s as int];
            assert(v.edges.contains_key(x));
            assert(v.capability(x, q, s, v.edges[x].dst, v.holds(x).rights.0));
        } else {
            assert forall|x: u32, y: NodeId, z: u32| !#[trigger] v.capability(x, q, s, y, z) by {
                if v.capability(x, q, s, y, z) {
                    assert(v.edge_ok(x));
                    let out = v.list(q, Dir::Out, EdgeKind::Holds);
                    let j = out.index_of(x);
                    assert(out[j] == x);
                }
            }
        }
    }
    if forall|s: u32| 0 < s < 256 ==> !#[trigger] v.holds_nothing(q, s) {
        assert forall|s: int| 1 <= s < crate::limits::HANDLE_SLOTS implies #[trigger] h[s] != 0 by {
            assert(!v.holds_nothing(q, s as u32));
        }
    } else {
        let s = choose|s: u32| 0 < s < 256 && #[trigger] v.holds_nothing(q, s);
        assert(h[s as int] == 0);
    }
}

/// A kill needs the manage right. It marks the process as going away and takes
/// it from its owner, and it marks nothing else.
pub proof fn a_kill_detaches(
    g0: Graph,
    g1: Graph,
    t: NodeId,
    p: NodeId,
    arg: u64,
    slot: u32,
    q: NodeId,
    rights: u32,
    r: i64,
)
    requires
        g0.wf(),
        g0@.inv(),
        g0@.works_for(t, p),
        crate::laws_authority::names_slot(arg, slot),
        g0@.holds_in(p, slot, q, rights),
        crate::syscall_objects::kill_answered(g0, g1, t, arg, r),
    ensures
        rights & 128 == 0 ==> r == E_PERM && g1 == g0,
        rights & 128 != 0 && g0@.dying(q) ==> r == E_BADHANDLE && g1 == g0,
        rights & 128 != 0 && !g0@.dying(q) && q.kind() != Some(NodeKind::Process) ==> r == E_BADKIND
            && g1 == g0,
        rights & 128 != 0 && !g0@.dying(q) && q.kind() == Some(NodeKind::Process) ==> {
            &&& r == 0
            &&& g1@.live(q)
            &&& g1@.dying(q)
            &&& forall|o: NodeId| !#[trigger] g1@.owns(o, q)
            &&& forall|x: NodeId| #[trigger]
                g0@.nodes.contains_key(x) && x != q ==> g1@.nodes.contains_key(x) && g1@.dying(x)
                    == g0@.dying(x)
        },
{
    let v = g0@;
    crate::laws_authority::one_bit(rights);
    process_handle_goes_by_what_is_held(v, t, p, arg, slot, q, rights, 128);
    if rights & 128 != 0 && !v.dying(q) && q.kind() == Some(NodeKind::Process) {
        deleting_marks_and_detaches(v, q);
    }
}

/// Deleting marks one node as going away, and takes it from its owner. Of
/// every process it leaves what its body holds.
pub proof fn deleting_marks_and_detaches(v: GraphView, id: NodeId)
    requires
        v.wf(),
        v.inv(),
        v.live(id),
        !v.dying(id),
    ensures
        v.deleted(id).dying(id),
        forall|o: NodeId| !#[trigger] v.deleted(id).owns(o, id),
        forall|x: NodeId| #[trigger]
            v.nodes.contains_key(x) ==> v.deleted(id).nodes.contains_key(x) && (x != id
                ==> v.deleted(id).dying(x) == v.dying(x)) && (v.nodes[x].body is Process
                || v.nodes[x].body is Cpu ==> v.deleted(id).nodes[x].body == v.nodes[x].body),
        forall|x: NodeId| #[trigger] v.deleted(id).nodes.contains_key(x) ==> v.nodes.contains_key(x),
{
    let a = v.marked(id);
    let f = v.nodes[id].flags;
    assert((f | 1u8) & 1u8 != 0) by (bit_vector);
    assert(v.nodes.contains_key(id));
    assert(v.owned_ok(id));
    crate::laws_reap::header_wf(v, id, crate::view::NodeView {
        flags: f | crate::slab::FLAG_DYING,
        ..v.nodes[id]
    });
    assert(a.nodes.contains_key(id));
    one_list_goes(a, id, Dir::In, EdgeKind::Owns);
    let b = a.unlink_first(id, Dir::In, EdgeKind::Owns);
    one_list_goes(b, id, Dir::In, EdgeKind::Ready);
    let c = b.unlink_first(id, Dir::In, EdgeKind::Ready);
    one_list_goes(c, id, Dir::Out, EdgeKind::Waiting);
    let d = c.unlink_first(id, Dir::Out, EdgeKind::Waiting);
    let w = v.deleted(id);
    let ow = v.list(id, Dir::In, EdgeKind::Owns);
    assert(w.edges == d.edges);
    assert forall|o: NodeId| !#[trigger] w.owns(o, id) by {
        if w.owns(o, id) {
            let e = choose|e: u32| #[trigger]
                w.edges.contains_key(e) && w.edges[e].kind == EdgeKind::Owns && w.edges[e].src == o
                    && w.edges[e].dst == id;
            assert(d.edges.contains_key(e));
            assert(c.edges.contains_key(e));
            assert(b.edges.contains_key(e));
            assert(a.edges.contains_key(e));
            assert(v.edge_ok(e));
            assert(ow.contains(e));
            assert(ow[0] == e);
        }
    }
    assert forall|x: NodeId| #[trigger] v.nodes.contains_key(x) implies w.nodes.contains_key(x) && (x
        != id ==> w.dying(x) == v.dying(x)) && (v.nodes[x].body is Process || v.nodes[x].body is Cpu
        ==> w.nodes[x].body == v.nodes[x].body) by {
        assert(v.node_ok(x));
        assert(a.nodes.contains_key(x));
        assert(b.nodes.contains_key(x));
        assert(c.nodes.contains_key(x));
        assert(d.nodes.contains_key(x));
    }
    assert forall|x: NodeId| #[trigger] w.nodes.contains_key(x) implies v.nodes.contains_key(x) by {
        assert(d.nodes.contains_key(x));
        assert(c.nodes.contains_key(x));
        assert(b.nodes.contains_key(x));
        assert(a.nodes.contains_key(x));
    }
    assert(b.nodes.contains_key(id) && c.nodes.contains_key(id) && d.nodes.contains_key(id));
}

/// Taking the first edge of one of these lists takes that edge, and changes no
/// process and no cpu.
proof fn one_list_goes(v: GraphView, id: NodeId, dir: Dir, kind: EdgeKind)
    requires
        v.wf(),
        v.live(id),
        kind == EdgeKind::Owns || kind == EdgeKind::Ready || kind == EdgeKind::Waiting,
    ensures
        ({
            let w = v.unlink_first(id, dir, kind);
            let s = v.list(id, dir, kind);
            &&& w.wf()
            &&& w.live(id)
            &&& forall|e: u32| #[trigger]
                w.edges.contains_key(e) ==> v.edges.contains_key(e) && w.edges[e] == v.edges[e]
            &&& s.len() > 0 ==> !w.edges.contains_key(s[0])
            &&& forall|x: NodeId| #[trigger] w.nodes.contains_key(x) <==> v.nodes.contains_key(x)
            &&& forall|x: NodeId| #[trigger]
                w.nodes.contains_key(x) ==> w.nodes[x].flags == v.nodes[x].flags && (
                v.nodes[x].body is Process || v.nodes[x].body is Cpu ==> w.nodes[x].body
                    == v.nodes[x].body)
        }),
{
    let key: ListKey = (id, dir, kind);
    assert(v.nodes.contains_key(id));
    assert(v.lists.contains_key(key));
    assert(v.list_ok(key));
    crate::steps::unlink_first_keeps_nodes(v, id, dir, kind);
    if v.lists[key].len() > 0 {
        let e = v.lists[key][0];
        assert(v.edges.contains_key(e));
        assert(v.edge_ok(e));
        assert(v.node_ok(v.edges[e].src));
        crate::steps::unlink_keeps_nodes(v, e);
        crate::laws::unlink_wf(v, e);
    }
}

/// Starting a process needs the manage right. It puts a thread that the process
/// owns at the end of the cpu's queue, ready to run, or changes nothing.
pub proof fn starting_queues_a_thread(
    g0: Graph,
    g1: Graph,
    cpu0: NodeId,
    t: NodeId,
    p: NodeId,
    arg: u64,
    slot: u32,
    q: NodeId,
    rights: u32,
    r: i64,
)
    requires
        g0.wf(),
        g0@.inv(),
        g0@.works_for(t, p),
        crate::laws_authority::names_slot(arg, slot),
        g0@.holds_in(p, slot, q, rights),
        crate::syscall_objects::start_answered(g0, g1, cpu0, t, arg, r),
    ensures
        rights & 128 == 0 ==> r == E_PERM && g1 == g0,
        rights & 128 != 0 && g0@.dying(q) ==> r == E_BADHANDLE && g1 == g0,
        rights & 128 != 0 && !g0@.dying(q) && q.kind() != Some(NodeKind::Process) ==> r == E_BADKIND
            && g1 == g0,
        r != 0 ==> g1 == g0,
        r == 0 ==> exists|x: NodeId| #[trigger]
            g0@.owns(q, x) && x.kind() == Some(NodeKind::Thread) && g1@.run_queue(cpu0).len() > 0
                && g1@.run_queue(cpu0).last() == x && g1@.thread(x).state == ThreadState::Ready,
{
    let v = g0@;
    crate::laws_authority::one_bit(rights);
    process_handle_goes_by_what_is_held(v, t, p, arg, slot, q, rights, 128);
    if rights & 128 != 0 && !v.dying(q) && q.kind() == Some(NodeKind::Process) {
        if exists|i: int| crate::spawn::first_owned_thread(v, q, i) {
            let (i, pr, rq) = choose|i: int, pr: Ref<Process>, rq: Result<Ref<Process>, SpawnError>|
                #![trigger crate::spawn::first_owned_thread(v, q, i), crate::syscall_objects::queued_first(g0, g1, cpu0, q, i, pr, rq)]
                crate::spawn::first_owned_thread(v, q, i) && crate::syscall_objects::queued_first(
                    g0,
                    g1,
                    cpu0,
                    q,
                    i,
                    pr,
                    rq,
                ) && r == match rq {
                    Ok(_) => 0,
                    Err(_) => E_BADHANDLE,
                };
            let s = v.list(q, Dir::Out, EdgeKind::Owns);
            let key: ListKey = (q, Dir::Out, EdgeKind::Owns);
            assert(v.nodes.contains_key(q));
            assert(v.lists.contains_key(key));
            assert(v.list_ok(key));
            assert(v.edges.contains_key(s[i]));
            let x = v.edges[s[i]].dst;
            assert(v.owns(q, x));
            if r == 0 {
                queued_is_last(g0, g1@, cpu0, x);
            }
        }
    }
}

/// A thread that was queued is last in the queue.
pub proof fn queued_is_last(g0: Graph, v1: GraphView, cpu: NodeId, t: NodeId)
    requires
        crate::sched::queued(g0, v1, cpu, t),
        g0.ready_refusal(cpu, t) is None,
        cpu != t,
    ensures
        v1.run_queue(cpu).len() > 0,
        v1.run_queue(cpu).last() == t,
        v1.thread(t).state == ThreadState::Ready,
{
    let e = choose|e: EdgeId| #[trigger]
        g0@.descheduled(t).unused(e) && v1 == g0@.made_ready(cpu, t, e);
    let s = v1.list(cpu, Dir::Out, EdgeKind::Ready);
    assert(s.last() == e.idx());
    assert(v1.edges[e.idx()].dst == t);
    assert(v1.run_queue(cpu)[s.len() - 1] == t);
}

// ---------------------------------------------------------------- endpoints ---

/// An endpoint that was made is new, belongs to the caller, and is the
/// caller's to use in every way.
pub proof fn a_new_endpoint_is_the_callers(g0: Graph, g1: Graph, t: NodeId, p: NodeId, r: i64)
    requires
        g0.wf(),
        g0@.inv(),
        g0@.works_for(t, p),
        crate::syscall_objects::endpoint_made(g0, g1, t, r),
    ensures
        r < 0 ==> r == E_NOSPACE,
        r >= 0 ==> 0 < r < 256 && exists|ep: NodeId| #[trigger]
            g1@.holds_in(p, r as u32, ep, 255) && !g0@.live(ep) && g1@.live(ep) && ep.kind() == Some(
                NodeKind::Endpoint,
            ) && g1@.owns(p, ep),
{
    let (ga, re, rg) = choose|
        ga: Graph,
        re: Result<Ref<Endpoint>, GraphError>,
        rg: Result<u32, GraphError>,
    | #[trigger]
        crate::syscall_objects::endpoint_steps(g0, ga, g1, p, re, rg, r);
    if re is Ok && rg is Ok {
        let ep = re->Ok_0.id();
        let slot = rg->Ok_0;
        crate::laws_process::creating_adds_one(g0, ga, p, Endpoint::spec_zero(), re);
        crate::laws_calls::trying_to_create_keeps_invariants(
            g0,
            ga,
            p,
            Endpoint::spec_zero(),
            re,
        );
        a_grant_is_held(ga, g1, p, ep, Rights(255), slot);
        let e = choose|e: u32| #[trigger]
            ga@.edges.contains_key(e) && ga@.edges[e].kind == EdgeKind::Owns && ga@.edges[e].src
                == p && ga@.edges[e].dst == ep;
        assert(ga@.nodes.contains_key(ep));
        assert(g1@.edges.contains_key(e));
        assert(g1@.owns(p, ep));
        assert(g1@.live(ep));
        assert(g1@.holds_in(p, slot, ep, 255));
    } else if re is Ok {
    }
}

// -------------------------------------------------------------------- lookup ---

/// A lookup needs a capability to the root that carries the lookup right. What
/// it finds is what the root names so, and what it grants on that is what its
/// kind allows: reading and writing of a device, sending and receiving of an
/// endpoint, and reading of anything else.
pub proof fn a_lookup_finds_what_is_named(
    g0: Graph,
    g1: Graph,
    t: NodeId,
    p: NodeId,
    name: Seq<u8>,
    r: i64,
)
    requires
        g0.wf(),
        g0@.inv(),
        g0@.works_for(t, p),
        crate::syscall::looked_up(g0, g1, t, Some(name), r),
    ensures
        r < 0 ==> g1 == g0,
        r >= 0 ==> 0 < r < 256 && may_look(g0@, p) && exists|e: u32| #[trigger]
            g0@.edges.contains_key(e) && g0@.edges[e].kind == EdgeKind::Named && g0@.edges[e].src
                == g0@.root_id && g0@.edge_name(e) == vstd::utf8::decode_utf8(name) && g1@.holds_in(
                p,
                r as u32,
                g0@.edges[e].dst,
                if g0@.edges[e].dst.kind() == Some(NodeKind::Device) {
                    3
                } else if g0@.edges[e].dst.kind() == Some(NodeKind::Endpoint) {
                    24
                } else {
                    1
                },
            ),
        name.len() <= 23 && vstd::utf8::valid_utf8(name) && !may_look(g0@, p) ==> r == E_PERM,
        name.len() <= 23 && vstd::utf8::valid_utf8(name) && may_look(g0@, p) && (forall|e: u32|
            #[trigger] g0@.edges.contains_key(e) && g0@.edges[e].kind == EdgeKind::Named
                && g0@.edges[e].src == g0@.root_id ==> g0@.edge_name(e) != vstd::utf8::decode_utf8(
                name,
            )) ==> r == E_NOTFOUND,
{
    let v = g0@;
    may_look_by_edges(v, p);
    let text = vstd::utf8::decode_utf8(name);
    let s = v.list_or_none(v.root_id, Dir::Out, EdgeKind::Named);
    if name.len() <= 23 && vstd::utf8::valid_utf8(name) && may_look(v, p) {
        assert forall|i: int| v.first_spelled(text, i) implies v.edges.contains_key(s[i])
            && v.edges[s[i]].kind == EdgeKind::Named && v.edges[s[i]].src == v.root_id
            && v.edge_name(s[i]) == text by {
            let key: ListKey = (v.root_id, Dir::Out, EdgeKind::Named);
            assert(v.nodes.contains_key(v.root_id));
            assert(v.lists.contains_key(key));
            assert(v.list_ok(key));
        }
        if exists|i: int| v.first_spelled(text, i) {
            let (i, rg) = choose|i: int, rg: Result<u32, GraphError>|
                #![trigger v.first_spelled(text, i), crate::syscall::name_granted(g0, g1, p, i, rg)]
                v.first_spelled(text, i) && crate::syscall::name_granted(g0, g1, p, i, rg) && r
                    == match rg {
                    Ok(slot) => slot as i64,
                    Err(e) => crate::syscall::lookup_error(e),
                };
            let d = v.edges[s[i]].dst;
            if let Ok(slot) = rg {
                a_grant_is_held(
                    g0,
                    g1,
                    p,
                    d,
                    crate::syscall::lookup_rights(d.kind()),
                    slot,
                );
                assert(v.edges.contains_key(s[i]));
            }
        }
    }
}

/// The process holds a root with the lookup right.
pub open spec fn may_look(v: GraphView, p: NodeId) -> bool {
    exists|e: u32| #[trigger]
        v.edges.contains_key(e) && v.edges[e].kind == EdgeKind::Holds && v.edges[e].src == p
            && v.edges[e].dst.kind() == Some(NodeKind::Root) && v.holds(e).rights.0 & 64 == 64
}

proof fn may_look_by_edges(v: GraphView, p: NodeId)
    requires
        v.wf(),
        v.live(p),
    ensures
        v.may_look_up(p) <==> may_look(v, p),
{
    let out = v.list(p, Dir::Out, EdgeKind::Holds);
    let key: ListKey = (p, Dir::Out, EdgeKind::Holds);
    assert(v.nodes.contains_key(p));
    assert(v.lists.contains_key(key));
    assert(v.list_ok(key));
    if v.may_look_up(p) {
        let i = choose|i: int|
            0 <= i < out.len() && v.edges[#[trigger] out[i]].dst.kind() == Some(NodeKind::Root)
                && v.holds(out[i]).rights.spec_contains(Rights(64));
        assert(v.edges.contains_key(out[i]));
    }
    if may_look(v, p) {
        let e = choose|e: u32| #[trigger]
            v.edges.contains_key(e) && v.edges[e].kind == EdgeKind::Holds && v.edges[e].src == p
                && v.edges[e].dst.kind() == Some(NodeKind::Root) && v.holds(e).rights.0 & 64 == 64;
        assert(v.edge_ok(e));
        let i = out.index_of(e);
        assert(out[i] == e);
    }
}

// ------------------------------------------------------------------ spawning ---

/// Where the memory of an object starts.
pub open spec fn v_base(v: GraphView, d: NodeId) -> int {
    v.memobj(d).phys_base as int
}

/// A thread that the process owns will go on at the address.
pub open spec fn starts_at(v: GraphView, p: NodeId, entry: u64) -> bool {
    exists|t: NodeId, space: NodeId, s: crate::sched::Stack| #[trigger]
        crate::laws_process::first_thread(v, t, p, space, entry, s)
}

/// Spawning needs the read right on a memory object. What comes of it is the
/// caller's to manage in every way.
pub proof fn spawning_goes_by_what_is_held(
    s0: State<'_>,
    s1: State<'_>,
    t: NodeId,
    p: NodeId,
    arg: u64,
    slot: u32,
    d: NodeId,
    rights: u32,
    active: u64,
    hhdm: u64,
    stub: u64,
    r: i64,
)
    requires
        s0.g.wf(),
        s0.g@.inv(),
        s0.g@.works_for(t, p),
        crate::laws_authority::names_slot(arg, slot),
        s0.g@.holds_in(p, slot, d, rights),
        d.kind() == Some(NodeKind::MemoryObject) ==> v_base(s0.g@, d) + s0.g@.memobj(d).pages * 4096
            <= s0.mem.len(),
        crate::syscall_objects::spawn_answered(s0, s1, t, arg, active, hhdm, stub, r),
    ensures
        rights & 1 == 0 ==> r == E_PERM && s1 == s0,
        rights & 1 != 0 && s0.g@.dying(d) ==> r == E_BADHANDLE && s1 == s0,
        rights & 1 != 0 && !s0.g@.dying(d) && d.kind() != Some(NodeKind::MemoryObject) ==> r
            == E_BADKIND && s1 == s0,
        r >= 0 ==> exists|child: NodeId| #[trigger]
            s1.g@.holds_in(p, r as u32, child, 255) && !s0.g@.live(child) && child.kind() == Some(
                NodeKind::Process,
            ) && starts_at(
                s1.g@,
                child,
                crate::edge::le64(s0.mem, v_base(s0.g@, d) + 24),
            ),
        rights & 1 != 0 && !s0.g@.dying(d) && d.kind() == Some(NodeKind::MemoryObject)
            && crate::elf::parse_error(
            s0.mem.subrange(v_base(s0.g@, d), v_base(s0.g@, d) + s0.g@.memobj(d).pages * 4096),
        ) is Some ==> r == crate::abi::E_BADIMAGE && s1 == s0,
{
    let v = s0.g@;
    reveal(crate::spawn::prepared);
    crate::laws_authority::one_bit(rights);
    crate::laws_authority::handle_goes_by_what_is_held(v, t, p, arg, slot, d, rights, 1);
    if rights & 1 != 0 && !v.dying(d) && d.kind() == Some(NodeKind::MemoryObject) && r >= 0 {
        let (phys, pages) = crate::syscall_objects::image_handle(v, t, arg)->Ok_0;
        let bytes = s0.mem.subrange(phys as int, phys + pages * 4096);
        let (sa, rp) = choose|
            sa: State<'_>,
            rp: Result<(Ref<Process>, Ref<Thread>), SpawnError>,
        | #[trigger]
            crate::spawn::prepared(s0, sa, p, bytes, active, hhdm, stub, Seq::empty(), rp)
                && sa.g.wf() && crate::syscall_objects::child_granted(sa, s1, p, rp, r);
        let (child, th) = rp->Ok_0;
        crate::laws_process::a_new_process_starts_at_its_entry(
            s0,
            sa,
            p,
            bytes,
            active,
            hhdm,
            stub,
            Seq::empty(),
            child,
            th,
        );
        let rg = choose|rg: Result<u32, GraphError>| #[trigger]
            s1.g.capability_granted(sa.g, p, child.id(), Rights(255), rg) && r == match rg {
                Ok(slot) => slot as i64,
                Err(_) => E_NOSPACE,
            };
        let slot = rg->Ok_0;
        crate::laws_messages::granted_is_held(
            sa.g@,
            p,
            child.id(),
            Rights(255),
            slot,
            sa.g.next_edge(),
        );
        assert(s1.g@.holds_in(p, slot, child.id(), 255));
        let (space, st) = choose|space: NodeId, st: crate::sched::Stack| #[trigger]
            crate::laws_process::first_thread(
                sa.g@,
                th.id(),
                child.id(),
                space,
                crate::edge::le64(bytes, 24),
                st,
            );
        assert(sa.g@.nodes.contains_key(p));
        crate::laws_process::a_first_thread_stays(
            sa.g@,
            s1.g@,
            p,
            th.id(),
            child.id(),
            space,
            crate::edge::le64(bytes, 24),
            st,
        );
        image_entry(s0.mem, phys as int, phys + pages * 4096);
        assert(starts_at(s1.g@, child.id(), crate::edge::le64(bytes, 24)));
    }
}

/// The entry point of an image is the one in memory.
proof fn image_entry(mem: Seq<u8>, lo: int, hi: int)
    requires
        0 <= lo,
        lo + 64 <= hi <= mem.len(),
    ensures
        crate::edge::le64(mem.subrange(lo, hi), 24) == crate::edge::le64(mem, lo + 24),
{
    let b = mem.subrange(lo, hi);
    assert(b[24] == mem[lo + 24] && b[25] == mem[lo + 25] && b[26] == mem[lo + 26] && b[27]
        == mem[lo + 27]);
    assert(b[28] == mem[lo + 28] && b[29] == mem[lo + 29] && b[30] == mem[lo + 30] && b[31]
        == mem[lo + 31]);
    assert(crate::edge::le32(b, 24) == crate::edge::le32(mem, lo + 24));
    assert(crate::edge::le32(b, 28) == crate::edge::le32(mem, lo + 28));
}

// ---------------------------------------------------------------------- ends ---

/// A thread that ends is marked as going away and never saved: whatever runs
/// next, it is not that thread.
pub proof fn an_ended_thread_is_left(
    g0: Graph,
    v1: GraphView,
    cpu: NodeId,
    kernel_pml4: u64,
    me: NodeId,
    r: Option<Decision>,
)
    requires
        g0.wf(),
        g0@.inv(),
        g0@.live(cpu),
        cpu.kind() == Some(NodeKind::Cpu),
        g0@.cpu(cpu).current == me,
        g0@.live(me),
        me.kind() == Some(NodeKind::Thread),
        crate::sched::thread_exited(g0, v1, cpu, kernel_pml4, r),
    ensures
        v1.live(me),
        v1.dying(me),
        v1.cpu(cpu).current != me,
        r matches Some(d) ==> d.save is None,
{
    let g1 = choose|g1: Graph|
        g1.wf() && g1@ == crate::sched::given_up(g0@, cpu, g0@.running_on(cpu)) && #[trigger]
            crate::sched::scheduled(g1, v1, cpu, kernel_pml4, r);
    left_behind(g0@, g1, v1, cpu, kernel_pml4, me, r);
}

/// A process that ends says how, and is marked as going away. The thread that
/// said so is never saved.
pub proof fn an_ended_process_is_left(
    g0: Graph,
    v1: GraphView,
    cpu: NodeId,
    kernel_pml4: u64,
    code: i32,
    t: NodeId,
    p: NodeId,
    r: Option<Decision>,
)
    requires
        g0.wf(),
        g0@.inv(),
        g0@.live(cpu),
        cpu.kind() == Some(NodeKind::Cpu),
        g0@.cpu(cpu).current == t,
        g0@.works_for(t, p),
        crate::sched::process_exited(g0, v1, cpu, kernel_pml4, code, r),
    ensures
        v1.live(p),
        v1.dying(p),
        v1.process(p).exit_code == code,
        r matches Some(d) ==> d.save is None,
{
    let g1 = choose|g1: Graph|
        g1.wf() && g1@ == crate::sched::given_up(g0@.ending(t, code), cpu, g0@.ends(t))
            && #[trigger] crate::sched::scheduled(g1, v1, cpu, kernel_pml4, r);
    let v = g0@.ending(t, code);
    crate::laws_calls::recording_the_end_keeps_invariants(g0@, t, code);
    assert(g0@.nodes.contains_key(p));
    assert(g0@.node_ok(p));
    assert(v.process(p).exit_code == code);
    left_behind(v, g1, v1, cpu, kernel_pml4, p, r);
}

/// What is given up is marked, its body as it was, and nobody is saved.
proof fn left_behind(
    v: GraphView,
    g1: Graph,
    v1: GraphView,
    cpu: NodeId,
    kernel_pml4: u64,
    gone: NodeId,
    r: Option<Decision>,
)
    requires
        v.wf(),
        v.inv(),
        v.live(cpu),
        cpu.kind() == Some(NodeKind::Cpu),
        v.live(gone),
        gone != cpu,
        g1.wf(),
        g1@ == crate::sched::given_up(v, cpu, gone),
        crate::sched::scheduled(g1, v1, cpu, kernel_pml4, r),
    ensures
        v1.live(gone),
        v1.dying(gone),
        gone.kind() == Some(NodeKind::Thread) ==> v1.cpu(cpu).current != gone,
        v.nodes[gone].body is Process ==> v1.nodes[gone].body == v.nodes[gone].body,
        r matches Some(d) ==> d.save is None,
{
    assert(v.nodes.contains_key(gone) && v.nodes.contains_key(cpu));
    assert(v.node_ok(gone) && v.node_ok(cpu));
    if !v.dying(gone) {
        deleting_marks_and_detaches(v, gone);
    }
    crate::laws_calls::giving_up_keeps_invariants(v, cpu, gone);
    let w = v.deleted(gone);
    assert(w.nodes.contains_key(gone) && w.nodes.contains_key(cpu));
    let u = g1@;
    assert(u.nodes.contains_key(gone) && u.nodes.contains_key(cpu));
    assert(u.dying(gone));
    assert(u.cpu(cpu).current == NodeId(0));
    nobody_is_null(u);
    crate::laws_switch::a_switch_saves_who_ran(g1, v1, cpu, kernel_pml4, r);
    if u.run_queue(cpu).len() > 0 {
        the_queue_is_not_dying(u, cpu);
    }
}

/// The null id names nothing.
proof fn nobody_is_null(v: GraphView)
    requires
        v.wf(),
    ensures
        !v.live(NodeId(0)),
{
    if v.live(NodeId(0)) {
        assert(v.nodes.contains_key(NodeId(0)));
        assert(v.node_ok(NodeId(0)));
        reveal(NodeId::spec_generation);
        assert(NodeId(0).generation() == 0);
    }
}

/// What is queued is not going away.
proof fn the_queue_is_not_dying(v: GraphView, cpu: NodeId)
    requires
        v.wf(),
        v.inv(),
        v.live(cpu),
        cpu.kind() == Some(NodeKind::Cpu),
        v.run_queue(cpu).len() > 0,
    ensures
        !v.dying(v.run_queue(cpu)[0]),
{
    let key: ListKey = (cpu, Dir::Out, EdgeKind::Ready);
    assert(v.nodes.contains_key(cpu));
    assert(v.lists.contains_key(key));
    assert(v.list_ok(key));
    let e = v.lists[key][0];
    assert(v.edges.contains_key(e));
    assert(v.edge_ok(e));
    let next = v.edges[e].dst;
    assert(v.nodes.contains_key(next));
    assert(v.node_ok(next) && v.body_ok(next));
    assert(v.list(next, Dir::In, EdgeKind::Ready).contains(e));
    assert(v.list(next, Dir::In, EdgeKind::Ready).len() > 0);
}

} // verus!
