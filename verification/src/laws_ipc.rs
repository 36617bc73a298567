//! What a message does on its way: its words arrive as they were sent, and a
//! capability it carries arrives with the rights it was sent with.

use vstd::prelude::*;

use crate::body::{Message, Rights};
use crate::graph::{Graph, GraphError};
use crate::id::{NodeId, NodeKind};
use crate::view::GraphView;

verus! {

/// The next edge is one that is not there yet, as long as there is room.
pub proof fn next_edge_is_unused(g: Graph)
    requires
        g.wf(),
        !g@.edge_stock.full(),
    ensures
        g@.unused(g.next_edge()),
{
    let b = g.edges.books();
    crate::arena::stock_of_books(b);
    crate::arena::alloc_keeps_books(b);
    let i = b.next_index();
    let x = (g.edges.slots@[i as int].generation + 1) as u32;
    crate::id::edge_id_round_trip(g.next_edge(), i, x);
}

/// A message delivered arrives word for word. The capability it carries lands
/// in the slot the receiver is told, resolves to the object that was sent for
/// exactly the rights that were sent, and takes nothing from the sender.
pub proof fn messages_arrive_as_sent(
    g0: Graph,
    v1: GraphView,
    from: NodeId,
    to: NodeId,
    r: Result<u32, i64>,
    need: Rights,
)
    requires
        g0.wf(),
        g0@.inv(),
        from.kind() == Some(NodeKind::Thread),
        to.kind() == Some(NodeKind::Thread),
        crate::ipc::delivered(g0, v1, from, to, r),
    ensures
        r is Err ==> v1 == g0@,
        r matches Ok(slot) ==> {
            let v = g0@;
            let msg = v.thread(from).msg;
            let p = v.thread(to).owner_proc;
            &&& v1.thread(to).msg.words == msg.words
            &&& v1.thread(to).msg.cap_slot == slot
            &&& !msg.carries() ==> slot == 0
            &&& msg.carries() ==> {
                &&& v1.slot_rights(p, slot) == Some(Rights(msg.cap_rights))
                &&& v1.resolution(p, slot, need) == if !Rights(msg.cap_rights).spec_contains(need) {
                    Err::<NodeId, GraphError>(
                        GraphError::MissingRights { have: Rights(msg.cap_rights), need },
                    )
                } else if v.dying(msg.cap_target) {
                    Err::<NodeId, GraphError>(GraphError::Dying(msg.cap_target))
                } else {
                    Ok::<NodeId, GraphError>(msg.cap_target)
                }
            }
            &&& forall|q: NodeId, s: u32, n: Rights|
                q.kind() == Some(NodeKind::Process) && !(msg.carries() && q == p && s == slot)
                    ==> #[trigger] v1.resolution(q, s, n) == v.resolution(q, s, n)
        },
{
    let v = g0@;
    let msg = v.thread(from).msg;
    let p = v.thread(to).owner_proc;
    if let Ok(slot) = r {
        assert(v.nodes.contains_key(to) && v.nodes.contains_key(from));
        assert(v.node_ok(to) && v.node_ok(from));
        if msg.carries() {
            let u = v.granted(p, msg.cap_target, Rights(msg.cap_rights), slot, g0.next_edge());
            crate::caps::no_free_slot_means_full(v.process(p));
            next_edge_is_unused(g0);
            crate::laws_caps::granted_resolves(
                v,
                p,
                msg.cap_target,
                Rights(msg.cap_rights),
                slot,
                g0.next_edge(),
                need,
            );
            assert(u.live(to) && u.nodes[to] == v.nodes[to]);
            parking_keeps_handles(u, to, Message { cap_slot: slot, ..msg }, p, slot);
        } else {
            parking_keeps_handles(v, to, Message { cap_slot: 0, ..msg }, p, 0);
        }
    }
}

/// Parking a message on a thread changes nothing that a handle resolves to.
proof fn parking_keeps_handles(u: GraphView, t: NodeId, m: Message, p: NodeId, slot: u32)
    requires
        u.live(t),
        t.kind() == Some(NodeKind::Thread),
    ensures
        p.kind() == Some(NodeKind::Process) ==> u.with_message(t, m).slot_rights(p, slot)
            == u.slot_rights(p, slot),
        forall|q: NodeId, s: u32, n: Rights|
            q.kind() == Some(NodeKind::Process) ==> #[trigger] u.with_message(t, m).resolution(
                q,
                s,
                n,
            ) == u.resolution(q, s, n),
        u.with_message(t, m).thread(t).msg == m,
{
    let w = u.with_message(t, m);
    assert forall|q: NodeId, s: u32, n: Rights|
        q.kind() == Some(NodeKind::Process) implies #[trigger] w.resolution(q, s, n)
        == u.resolution(q, s, n) by {
        assert(q != t);
    }
}

} // verus!
