//! What a program may do, in terms of the edges it was given: every call goes
//! by one `Holds` edge, and every pointer by `Maps` edges.

use vstd::prelude::*;

use crate::abi::{E_BADHANDLE, E_FAULT, E_PERM};
use crate::body::Rights;
use crate::edge::{Dir, Prot};
use crate::graph::{Graph, GraphError};
use crate::id::{EdgeKind, NodeId, NodeKind};
use crate::limits::HANDLE_SLOTS;
use crate::syscall::Call;
use crate::view::{GraphView, ListKey};

verus! {

// ------------------------------------------------------------------ holding ---

impl GraphView {
    /// The process holds an object in a slot, with these rights.
    pub open spec fn holds_in(self, p: NodeId, slot: u32, d: NodeId, rights: u32) -> bool {
        exists|e: u32| #[trigger] self.capability(e, p, slot, d, rights)
    }

    /// An edge is that capability.
    pub open spec fn capability(self, e: u32, p: NodeId, slot: u32, d: NodeId, rights: u32) -> bool {
        &&& self.edges.contains_key(e)
        &&& self.edges[e].kind == EdgeKind::Holds
        &&& self.edges[e].src == p
        &&& self.edges[e].dst == d
        &&& self.holds(e).slot == slot
        &&& self.holds(e).rights.0 == rights
    }

    /// The process holds nothing in a slot.
    pub open spec fn holds_nothing(self, p: NodeId, slot: u32) -> bool {
        forall|e: u32, d: NodeId, rights: u32| !#[trigger] self.capability(e, p, slot, d, rights)
    }

    /// The thread works for the process.
    pub open spec fn works_for(self, t: NodeId, p: NodeId) -> bool {
        &&& self.live(t)
        &&& t.kind() == Some(NodeKind::Thread)
        &&& self.thread(t).owner_proc == p
        &&& self.live(p)
        &&& p.kind() == Some(NodeKind::Process)
    }

    /// The thread runs in the space.
    pub open spec fn thread_in(self, t: NodeId, s: NodeId) -> bool {
        exists|i: u32| #[trigger]
            self.edges.contains_key(i) && self.edges[i].kind == EdgeKind::InSpace
                && self.edges[i].src == t && self.edges[i].dst == s
    }

    /// Some mapping of the space covers the byte and allows the access: one
    /// reads, two writes.
    pub open spec fn byte_usable(self, s: NodeId, a: int, bit: u8) -> bool {
        exists|e: u32| #[trigger]
            self.edges.contains_key(e) && self.edges[e].kind == EdgeKind::Maps && self.edges[e].src
                == s && self.maps(e).vaddr <= a && a < self.maps(e).vaddr + 4096 * self.maps(
                e,
            ).len_pages && self.maps(e).prot.0 & bit == bit
    }

    /// Every byte of the range is in the lower half of memory, and usable.
    pub open spec fn usable(self, s: NodeId, ptr: u64, len: int, bit: u8) -> bool {
        len == 0 || {
            &&& ptr + len <= 0x8000_0000_0000
            &&& forall|a: int| ptr <= a < ptr + len ==> #[trigger] self.byte_usable(s, a, bit)
        }
    }
}

/// The low half of an argument is the slot that it names.
pub open spec fn names_slot(arg: u64, slot: u32) -> bool {
    arg & 0xffff_ffff == slot
}

pub proof fn low_half(arg: u64, slot: u32)
    requires
        names_slot(arg, slot),
    ensures
        crate::syscall::slot_of(arg) == slot,
{
    assert(arg & 0xffff_ffff == arg % 0x1_0000_0000) by (bit_vector);
}

/// What is held resolves, if the right asked for is among those held and the
/// object is not going away.
pub proof fn what_is_held_resolves(v: GraphView, p: NodeId, slot: u32, d: NodeId, rights: u32, need: u32)
    requires
        v.wf(),
        v.inv(),
        v.live(p),
        p.kind() == Some(NodeKind::Process),
        v.holds_in(p, slot, d, rights),
    ensures
        0 < slot < 256,
        v.live(d),
        v.slot_rights(p, slot) == Some(Rights(rights)),
        rights & need != need ==> v.resolution(p, slot, Rights(need)) matches Err(
            GraphError::MissingRights { .. },
        ),
        rights & need == need && v.dying(d) ==> v.resolution(p, slot, Rights(need)) == Err::<
            NodeId,
            GraphError,
        >(GraphError::Dying(d)),
        rights & need == need && !v.dying(d) ==> v.resolution(p, slot, Rights(need)) == Ok::<
            NodeId,
            GraphError,
        >(d),
{
    let e = choose|e: u32| #[trigger] v.capability(e, p, slot, d, rights);
    assert(v.edge_ok(e));
    assert(v.nodes.contains_key(p));
    assert(v.node_ok(p) && v.body_ok(p));
    let out = v.list(p, Dir::Out, EdgeKind::Holds);
    assert(out.contains(e));
    let j = out.index_of(e);
    assert(v.holds(out[j]).slot == slot);
    assert(v.process(p).handles@[slot as int] == e);
    assert(v.holds(e).rights == Rights(rights));
}

/// A slot that holds nothing resolves to nothing.
pub proof fn what_is_not_held_does_not_resolve(v: GraphView, p: NodeId, slot: u32, need: u32)
    requires
        v.wf(),
        v.inv(),
        v.live(p),
        p.kind() == Some(NodeKind::Process),
        v.holds_nothing(p, slot),
    ensures
        v.resolution(p, slot, Rights(need)) == Err::<NodeId, GraphError>(
            GraphError::EmptySlot(slot),
        ),
        slot != 0 ==> v.slot_rights(p, slot) is None,
{
    assert(v.nodes.contains_key(p));
    assert(v.node_ok(p) && v.body_ok(p));
    if 0 < slot < HANDLE_SLOTS {
        let e = v.process(p).handles@[slot as int];
        if e != 0 {
            assert(v.edges.contains_key(e));
            assert(v.capability(e, p, slot, v.edges[e].dst, v.holds(e).rights.0));
        }
    }
}

/// The answer to a handle, by what the process holds.
pub proof fn handle_goes_by_what_is_held(
    v: GraphView,
    t: NodeId,
    p: NodeId,
    arg: u64,
    slot: u32,
    d: NodeId,
    rights: u32,
    need: u32,
)
    requires
        v.wf(),
        v.inv(),
        v.works_for(t, p),
        names_slot(arg, slot),
        v.holds_in(p, slot, d, rights),
    ensures
        v.process_of(t) == Some(p),
        v.handle(t, arg, Rights(need)) == if rights & need != need {
            Err::<NodeId, i64>(E_PERM)
        } else if v.dying(d) {
            Err::<NodeId, i64>(E_BADHANDLE)
        } else {
            Ok::<NodeId, i64>(d)
        },
        v.live(d),
{
    low_half(arg, slot);
    what_is_held_resolves(v, p, slot, d, rights, need);
}

pub proof fn handle_of_nothing(v: GraphView, t: NodeId, p: NodeId, arg: u64, slot: u32, need: u32)
    requires
        v.wf(),
        v.inv(),
        v.works_for(t, p),
        names_slot(arg, slot),
        v.holds_nothing(p, slot),
    ensures
        v.process_of(t) == Some(p),
        v.handle(t, arg, Rights(need)) == Err::<NodeId, i64>(E_BADHANDLE),
{
    low_half(arg, slot);
    what_is_not_held_does_not_resolve(v, p, slot, need);
}

/// A program is told the rights that it holds, and for an empty slot that it
/// is one.
pub proof fn rights_are_told(v: GraphView, t: NodeId, p: NodeId, arg: u64, slot: u32, d: NodeId, rights: u32)
    requires
        v.wf(),
        v.inv(),
        v.works_for(t, p),
        names_slot(arg, slot),
    ensures
        v.holds_in(p, slot, d, rights) ==> crate::syscall::rights_answer(v, t, arg) == rights,
        slot != 0 && v.holds_nothing(p, slot) ==> crate::syscall::rights_answer(v, t, arg) == E_BADHANDLE,
{
    low_half(arg, slot);
    if v.holds_in(p, slot, d, rights) {
        what_is_held_resolves(v, p, slot, d, rights, 0);
    }
    if v.holds_nothing(p, slot) {
        what_is_not_held_does_not_resolve(v, p, slot, 0);
    }
}

// ----------------------------------------------------------------- pointers ---

/// A pointer is good exactly where every byte behind it is mapped in the
/// thread's space, with the access asked for.
pub proof fn pointers_go_by_mappings(
    v: GraphView,
    t: NodeId,
    s: NodeId,
    ptr: u64,
    len: u64,
    need: Prot,
)
    requires
        v.wf(),
        v.inv(),
        v.live(t),
        t.kind() == Some(NodeKind::Thread),
        v.thread_in(t, s),
    ensures
        v.range_ok(t, ptr, len, need) <==> v.usable(s, ptr, len as int, need.0),
{
    let i = choose|i: u32| #[trigger]
        v.edges.contains_key(i) && v.edges[i].kind == EdgeKind::InSpace && v.edges[i].src == t
            && v.edges[i].dst == s;
    assert(v.edge_ok(i));
    assert(v.nodes.contains_key(t));
    assert(v.node_ok(t) && v.body_ok(t));
    let ins = v.list(t, Dir::Out, EdgeKind::InSpace);
    let k = ins.index_of(i);
    assert(ins[k] == i);
    assert(ins[0] == i);
    assert(v.space_under(t) == Some(s));
    assert(v.live(s) && v.nodes.contains_key(s));
    let key: ListKey = (s, Dir::Out, EdgeKind::Maps);
    assert(v.lists.contains_key(key));
    assert(v.list_ok(key));
    let out = v.list(s, Dir::Out, EdgeKind::Maps);
    assert forall|a: int| v.byte_ok(s, a, need) <==> #[trigger] v.byte_usable(s, a, need.0) by {
        if v.byte_ok(s, a, need) {
            let k = choose|k: int|
                0 <= k < out.len() && v.maps(#[trigger] out[k]).vaddr <= a < v.maps(
                    out[k],
                ).end_at() && v.maps(out[k]).prot.contains(need);
            assert(v.edges.contains_key(out[k]));
        }
        if v.byte_usable(s, a, need.0) {
            let e = choose|e: u32| #[trigger]
                v.edges.contains_key(e) && v.edges[e].kind == EdgeKind::Maps && v.edges[e].src == s
                    && v.maps(e).vaddr <= a && a < v.maps(e).vaddr + 4096 * v.maps(e).len_pages
                    && v.maps(e).prot.0 & need.0 == need.0;
            assert(v.edge_ok(e));
            let k = out.index_of(e);
            assert(out[k] == e);
        }
    }
    if v.range_ok(t, ptr, len, need) && len > 0 {
        assert forall|a: int| ptr <= a < ptr + len implies #[trigger] v.byte_usable(
            s,
            a,
            need.0,
        ) by {
            assert(v.byte_ok(v.space_under(t)->Some_0, a, need));
        }
    }
    if v.usable(s, ptr, len as int, need.0) && len > 0 {
        assert forall|a: int| ptr <= a < ptr + len implies #[trigger] v.byte_ok(s, a, need) by {
            assert(v.byte_usable(s, a, need.0));
        }
    }
}

/// Writing to a device needs a capability to it that carries the write right,
/// and a buffer that can be read: no more of it, and no less.
pub proof fn writing_reads_the_buffer(
    v: GraphView,
    t: NodeId,
    p: NodeId,
    s: NodeId,
    arg: u64,
    slot: u32,
    d: NodeId,
    rights: u32,
    ptr: u64,
    len: u64,
)
    requires
        v.wf(),
        v.inv(),
        v.works_for(t, p),
        v.thread_in(t, s),
        names_slot(arg, slot),
        v.holds_in(p, slot, d, rights),
    ensures
        crate::syscall::write_answer(v, t, arg, ptr, len) == if rights & 2 == 0 {
            Err::<u16, i64>(E_PERM)
        } else if v.dying(d) || d.kind() != Some(NodeKind::Device) {
            Err::<u16, i64>(E_BADHANDLE)
        } else if v.usable(s, ptr, len as int, 1) {
            Ok::<u16, i64>(v.nodes[d].body->Device_0.io_base)
        } else {
            Err::<u16, i64>(E_FAULT)
        },
{
    one_bit(rights);
    handle_goes_by_what_is_held(v, t, p, arg, slot, d, rights, 2);
    pointers_go_by_mappings(v, t, s, ptr, len, Prot(1));
}

/// A right is one bit: it is there, or it is not.
pub proof fn one_bit(r: u32)
    ensures
        r & 1 == 1 || r & 1 == 0,
        r & 2 == 2 || r & 2 == 0,
        r & 8 == 8 || r & 8 == 0,
        r & 16 == 16 || r & 16 == 0,
        r & 32 == 32 || r & 32 == 0,
        r & 64 == 64 || r & 64 == 0,
        r & 128 == 128 || r & 128 == 0,
        r & 0 == 0,
{
    assert((r & 1 == 1 || r & 1 == 0) && (r & 2 == 2 || r & 2 == 0) && (r & 8 == 8 || r & 8 == 0)
        && (r & 16 == 16 || r & 16 == 0) && (r & 32 == 32 || r & 32 == 0) && (r & 64 == 64 || r & 64
        == 0) && (r & 128 == 128 || r & 128 == 0) && r & 0 == 0) by (bit_vector);
}

/// Nothing is written for a slot that holds nothing.
pub proof fn writing_needs_a_handle(
    v: GraphView,
    t: NodeId,
    p: NodeId,
    arg: u64,
    slot: u32,
    ptr: u64,
    len: u64,
)
    requires
        v.wf(),
        v.inv(),
        v.works_for(t, p),
        names_slot(arg, slot),
        v.holds_nothing(p, slot),
    ensures
        crate::syscall::write_answer(v, t, arg, ptr, len) == Err::<u16, i64>(E_BADHANDLE),
{
    handle_of_nothing(v, t, p, arg, slot, 2);
}

/// A snapshot is written where the caller may write, all of it or none.
pub proof fn inspecting_writes_the_buffer(
    g: Graph,
    t: NodeId,
    s: NodeId,
    ptr: u64,
    len: u64,
    r: core::result::Result<usize, i64>,
)
    requires
        g.wf(),
        g@.inv(),
        g@.live(t),
        t.kind() == Some(NodeKind::Thread),
        g@.thread_in(t, s),
        crate::syscall_objects::inspect_answered(g, t, ptr, len, r),
    ensures
        ({
            let n = g.snapshot().len();
            if len < n {
                r == Err::<usize, i64>(n as i64)
            } else if g@.usable(s, ptr, n as int, 2) {
                r == Ok::<usize, i64>(n as usize)
            } else {
                r == Err::<usize, i64>(E_FAULT)
            }
        }),
{
    crate::inspect::snapshot_counts(g);
    crate::inspect::snapshot_length(g);
    pointers_go_by_mappings(g@, t, s, ptr, g.snapshot().len() as u64, Prot(2));
}

// -------------------------------------------------------------------- calls ---

/// The number a program asks for a call by.
pub open spec fn asked_by(c: Call) -> u64 {
    match c {
        Call::Exit => 0,
        Call::Yield => 1,
        Call::Write => 2,
        Call::Lookup => 3,
        Call::Inspect => 4,
        Call::Rights => 5,
        Call::Send => 6,
        Call::Recv => 7,
        Call::Spawn => 8,
        Call::Grant => 9,
        Call::Start => 10,
        Call::Kill => 11,
        Call::Endpoint => 12,
        Call::Check => 13,
    }
}

/// Every call has its own number, and no two share one.
pub proof fn calls_are_told_apart(c: Call, d: Call)
    ensures
        c.number() == asked_by(c),
        c.number() == d.number() <==> c == d,
{
}

} // verus!
