//! Authority is one edge: what holding, copying, revoking and deleting do to
//! what a handle resolves to; and names, ids and frames that come back.

use vstd::prelude::*;

use crate::arena::{Books, RETIRE_AT};
use crate::body::Rights;
use crate::edge::{Dir, EdgeAttr, HoldsAttr};
use crate::frames::FrameAllocator;
use crate::graph::{Graph, GraphError};
use crate::id::{EdgeId, EdgeKind, NodeId, NodeKind};
use crate::limits::{HANDLE_SLOTS, MAX_WALK};
use crate::view::GraphView;

verus! {

// ---------------------------------------------------------------- authority ---

/// A handle resolves only through an edge of the process's own, that carries
/// the rights asked for, to an object that is not going away. What the object
/// itself holds does not matter.
pub proof fn authority_is_one_edge(v: GraphView, p: NodeId, slot: u32, need: Rights)
    requires
        v.wf(),
        p.kind() == Some(NodeKind::Process),
        v.resolution(p, slot, need) is Ok,
    ensures
        ({
            let t = v.resolution(p, slot, need)->Ok_0;
            let e = v.process(p).handles@[slot as int];
            &&& v.live(t)
            &&& !v.dying(t)
            &&& v.list(p, Dir::Out, EdgeKind::Holds).contains(e)
            &&& v.edges[e].src == p
            &&& v.edges[e].dst == t
            &&& v.holds(e).rights.spec_contains(need)
        }),
{
    let e = v.process(p).handles@[slot as int];
    assert(v.edges.contains_key(e));
    assert(v.edge_ok(e));
}

/// A capability just granted resolves to its object, for the rights it carries
/// and no others. Every other handle, of that process and of every other,
/// resolves to what it did.
pub proof fn granted_resolves(
    v: GraphView,
    p: NodeId,
    target: NodeId,
    rights: Rights,
    slot: u32,
    e: EdgeId,
    need: Rights,
)
    requires
        v.wf(),
        v.inv(),
        v.live(p),
        p.kind() == Some(NodeKind::Process),
        v.live(target),
        1 <= slot < HANDLE_SLOTS,
        v.unused(e),
    ensures
        ({
            let w = v.granted(p, target, rights, slot, e);
            &&& w.resolution(p, slot, need) == if !rights.spec_contains(need) {
                Err::<NodeId, GraphError>(GraphError::MissingRights { have: rights, need })
            } else if v.dying(target) {
                Err::<NodeId, GraphError>(GraphError::Dying(target))
            } else {
                Ok::<NodeId, GraphError>(target)
            }
            &&& w.slot_rights(p, slot) == Some(rights)
            &&& forall|q: NodeId, s: u32, n: Rights|
                q.kind() == Some(NodeKind::Process) && !(q == p && s == slot)
                    ==> #[trigger] w.resolution(q, s, n) == v.resolution(q, s, n)
        }),
{
    let w = v.granted(p, target, rights, slot, e);
    let attr = HoldsAttr { rights, slot };
    attr.round_trip();
    crate::laws::table_stays_bounded(v.process(p), slot, e.idx());
    assert(v.nodes.contains_key(p));
    assert(v.node_ok(p));
    let h = w.process(p).handles@;
    assert(h == v.process(p).handles@.update(slot as int, e.idx()));
    assert forall|q: NodeId, s: u32, n: Rights|
        q.kind() == Some(NodeKind::Process) && !(q == p && s == slot) implies #[trigger]
        w.resolution(q, s, n) == v.resolution(q, s, n) by {
        if v.live(q) && 1 <= s < HANDLE_SLOTS {
            assert(v.nodes.contains_key(q));
            assert(v.node_ok(q) && v.body_ok(q));
            let x = v.process(q).handles@[s as int];
            assert(w.process(q).handles@[s as int] == x);
            if x != 0 {
                assert(v.edges.contains_key(x));
            }
        }
    }
}

/// Giving up a capability empties its slot, and nothing else: every other
/// handle resolves to what it did.
pub proof fn revoked_slot_is_empty(v: GraphView, e: u32, need: Rights)
    requires
        v.wf(),
        v.inv(),
        v.edges.contains_key(e),
        v.edges[e].kind == EdgeKind::Holds,
    ensures
        ({
            let w = v.unlink(e);
            let p = v.edges[e].src;
            let slot = v.holds(e).slot;
            &&& w.resolution(p, slot, need) == Err::<NodeId, GraphError>(
                GraphError::EmptySlot(slot),
            )
            &&& w.slot_rights(p, slot) is None
            &&& forall|q: NodeId, s: u32, n: Rights|
                q.kind() == Some(NodeKind::Process) && !(q == p && s == slot)
                    ==> #[trigger] w.resolution(q, s, n) == v.resolution(q, s, n)
        }),
{
    let w = v.unlink(e);
    let p = v.edges[e].src;
    let slot = v.holds(e).slot;
    crate::laws::revoking_keeps_invariants(v, e);
    assert(v.edge_ok(e));
    assert(v.nodes.contains_key(p));
    assert(v.node_ok(p));
    assert forall|q: NodeId, s: u32, n: Rights|
        q.kind() == Some(NodeKind::Process) && !(q == p && s == slot) implies #[trigger]
        w.resolution(q, s, n) == v.resolution(q, s, n) by {
        if v.live(q) && 1 <= s < HANDLE_SLOTS {
            assert(v.nodes.contains_key(q));
            assert(v.node_ok(q) && v.body_ok(q));
            let x = v.process(q).handles@[s as int];
            assert(w.process(q).handles@[s as int] == x);
            if x != 0 {
                assert(v.edges.contains_key(x));
                assert(v.holds(x).slot == s);
                assert(x != e);
            }
        }
    }
}

/// A capability granted and given up again leaves every handle resolving to
/// what it did.
pub proof fn revoking_undoes_granting(
    v: GraphView,
    p: NodeId,
    target: NodeId,
    rights: Rights,
    slot: u32,
    e: EdgeId,
    q: NodeId,
    s: u32,
    need: Rights,
)
    requires
        v.wf(),
        v.inv(),
        v.live(p),
        p.kind() == Some(NodeKind::Process),
        q.kind() == Some(NodeKind::Process),
        v.live(target),
        1 <= slot < HANDLE_SLOTS,
        v.process(p).handles@[slot as int] == 0,
        v.unused(e),
        crate::id::spec_compatible(EdgeKind::Holds, NodeKind::Process, target.kind()->Some_0),
        v.granted(p, target, rights, slot, e).wf(),
    ensures
        v.granted(p, target, rights, slot, e).unlink(e.idx()).resolution(q, s, need)
            == v.resolution(q, s, need),
{
    let w = v.granted(p, target, rights, slot, e);
    let attr = HoldsAttr { rights, slot };
    attr.round_trip();
    granted_resolves(v, p, target, rights, slot, e, need);
    crate::laws_make::granting_keeps_invariants(v, p, target, rights, slot, e);
    revoked_slot_is_empty(w, e.idx(), need);
}

/// A capability copied carries no right that the one it was copied from does
/// not, and none outside the mask.
pub proof fn copies_only_narrow(v: GraphView, from: NodeId, slot: u32, mask: Rights, right: Rights)
    requires
        v.slot_rights(from, slot) is Some,
        v.slot_rights(from, slot)->Some_0.spec_intersect(mask).spec_contains(right),
    ensures
        v.slot_rights(from, slot)->Some_0.spec_contains(right),
        mask.spec_contains(right),
{
    let have = v.slot_rights(from, slot)->Some_0;
    crate::body::intersection_only_narrows(have, mask);
    crate::body::containment_is_transitive(have, have.spec_intersect(mask), right);
    crate::body::containment_is_transitive(mask, have.spec_intersect(mask), right);
}

/// From the moment an object is going away, no handle anywhere resolves to it.
pub proof fn dying_objects_never_resolve(v: GraphView, t: NodeId, p: NodeId, slot: u32, need: Rights)
    requires
        v.dying(t),
    ensures
        v.resolution(p, slot, need) != Ok::<NodeId, GraphError>(t),
{
}

// -------------------------------------------------------------------- names ---

/// A name just given is found, and leads to the object, as long as nothing had
/// that name before and the walk reaches it.
pub proof fn a_name_given_is_found(v: GraphView, t: NodeId, name: Seq<char>, e: EdgeId)
    requires
        v.wf(),
        !v.root_id.is_null(),
        v.live(v.root_id),
        v.live(t),
        v.unused(e),
        crate::names::name_fits(name),
        v.list(v.root_id, Dir::Out, EdgeKind::Named).len() < MAX_WALK,
        forall|i: int| !v.first_named(name, i),
    ensures
        ({
            let w = v.link(
                v.root_id,
                EdgeKind::Named,
                t,
                crate::names::name_data(name),
                e.idx(),
                e.generation(),
            );
            let n = v.list(v.root_id, Dir::Out, EdgeKind::Named).len() as int;
            &&& w.first_named(name, n)
            &&& w.edges[w.list(w.root_id, Dir::Out, EdgeKind::Named)[n]].dst == t
        }),
{
    let s = v.list(v.root_id, Dir::Out, EdgeKind::Named);
    let n = s.len() as int;
    let w = v.link(
        v.root_id,
        EdgeKind::Named,
        t,
        crate::names::name_data(name),
        e.idx(),
        e.generation(),
    );
    let key = (v.root_id, Dir::Out, EdgeKind::Named);
    assert(v.nodes.contains_key(v.root_id));
    assert(v.lists.contains_key(key));
    assert(v.list_ok(key));
    crate::names::name_reads_back(name);
    let u = w.list_or_none(w.root_id, Dir::Out, EdgeKind::Named);
    assert(u == s.push(e.idx()));
    assert forall|j: int| 0 <= j < n implies w.edge_name(#[trigger] u[j]) != name by {
        assert(u[j] == s[j]);
        assert(v.edges.contains_key(s[j]));
        if v.edge_name(s[j]) == name {
            earliest_name(v, name, j);
        }
    }
    assert(w.edge_name(u[n]) == name);
}

/// Where some name spells it, there is a first that does.
proof fn earliest_name(v: GraphView, name: Seq<char>, j: int)
    requires
        0 <= j < v.list_or_none(v.root_id, Dir::Out, EdgeKind::Named).len(),
        j < MAX_WALK,
        v.edge_name(v.list_or_none(v.root_id, Dir::Out, EdgeKind::Named)[j]) == name,
    ensures
        exists|i: int| v.first_named(name, i),
    decreases j,
{
    let s = v.list_or_none(v.root_id, Dir::Out, EdgeKind::Named);
    if exists|i: int| 0 <= i < j && v.edge_name(#[trigger] s[i]) == name {
        let i = choose|i: int| 0 <= i < j && v.edge_name(#[trigger] s[i]) == name;
        earliest_name(v, name, i);
    } else {
        assert(v.first_named(name, j));
    }
}

// ---------------------------------------------------------------------- ids ---

/// A generation of a slot that has been and gone.
pub open spec fn spent(b: Books, i: int, generation: u32) -> bool {
    0 <= i < b.gens.len() && generation < b.gens[i]
}

/// The generation a slot was freed in is spent from then on: however the arena
/// is used, a spent generation stays spent, and an allocation never hands one
/// out again.
pub proof fn spent_ids_stay_spent(b: Books, i: int, generation: u32, j: u32)
    requires
        b.wf(),
        spent(b, i, generation),
    ensures
        !b.full() ==> spent(b.after_alloc(), i, generation) && !(b.next_index() == i && (
        b.gens[i] + 1) as u32 == generation),
        b.is_live(j as int) ==> spent(b.after_free(j), i, generation),
{
    if !b.full() {
        crate::arena::alloc_keeps_books(b);
        let k = b.next_index() as int;
        assert(b.gens[k] <= RETIRE_AT + 1);
    }
    if b.is_live(j as int) {
        crate::arena::free_keeps_books(b, j);
    }
}

/// Freeing a slot spends its generation.
pub proof fn freeing_spends_the_id(b: Books, i: u32)
    requires
        b.wf(),
        b.is_live(i as int),
    ensures
        spent(b.after_free(i), i as int, b.gens[i as int]),
{
    crate::arena::free_keeps_books(b, i);
}

/// An id with a spent generation names no node: a stale id is an error, never
/// another object.
pub proof fn spent_ids_name_nothing(g: Graph, id: NodeId)
    requires
        g.wf(),
        id.kind() is Some,
        spent(g.books(id.kind()->Some_0), id.idx() as int, id.generation()),
    ensures
        !g@.live(id),
{
    if g@.live(id) {
        assert(g.spec_live(id));
        let k = id.kind()->Some_0;
        assert(g.names(k, id.idx(), id.generation()));
    }
}

// ------------------------------------------------------------------- frames ---

/// The count of free frames is a matter of which are free.
proof fn same_free_same_count(a: Seq<u64>, b: Seq<u64>, n: int)
    requires
        forall|f: int| 0 <= f < n ==> crate::bits::bit(a, f) == #[trigger] crate::bits::bit(b, f),
    ensures
        crate::bits::count_clear(a, n) == crate::bits::count_clear(b, n),
    decreases n,
{
    if n > 0 {
        assert(crate::bits::bit(a, n - 1) == crate::bits::bit(b, n - 1));
        same_free_same_count(a, b, n - 1);
    }
}

/// Frames taken and given back are as they were before: the same ones are
/// free, and as many.
pub proof fn frames_given_back_are_free(
    f0: FrameAllocator<'_>,
    f1: FrameAllocator<'_>,
    f2: FrameAllocator<'_>,
    at: int,
    count: int,
)
    requires
        f0.wf(),
        f2.wf(),
        f1.same_shape(f0),
        f2.same_shape(f1),
        f0.fits(at, count),
        forall|f: int| #[trigger] f1.free(f) <==> f0.free(f) && !(at <= f < at + count),
        forall|f: int| #[trigger]
            f2.free(f) <==> f1.free(f) || (at <= f < at + count && f < f1.total_frames),
    ensures
        forall|f: int| #[trigger] f2.free(f) <==> f0.free(f),
        f2.free_frames == f0.free_frames,
{
    assert forall|f: int| #[trigger] f2.free(f) <==> f0.free(f) by {
        assert(f2.free(f) <==> f1.free(f) || (at <= f < at + count && f < f1.total_frames));
        assert(f1.free(f) <==> f0.free(f) && !(at <= f < at + count));
        if at <= f < at + count {
            assert(f0.free(f));
        }
    }
    assert forall|f: int| 0 <= f < f0.total_frames implies crate::bits::bit(f0.bits(), f)
        == #[trigger] crate::bits::bit(f2.bits(), f) by {
        assert(f2.free(f) <==> f0.free(f));
    }
    same_free_same_count(f0.bits(), f2.bits(), f0.total_frames as int);
}

} // verus!
