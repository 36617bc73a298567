//! The system call boundary.
//!
//! This is where the capability system stops being a diagram and starts being
//! the thing that decides what a program can do. Every argument naming a kernel
//! object is a *slot number*; turning one into an object is `Graph::resolve`,
//! which is three dependent loads and two compares and no traversal at all. A
//! process cannot name an object it was not given, because there is no syntax
//! for it.

use vstd::prelude::*;

use crate::abi::{
    E_BADCALL, E_BADHANDLE, E_BADKIND, E_FAULT, E_NOSPACE, E_NOTFOUND, E_PERM, SYS_CHECK,
    SYS_ENDPOINT, SYS_EXIT, SYS_GRANT, SYS_INSPECT, SYS_KILL, SYS_LOOKUP, SYS_RECV, SYS_RIGHTS,
    SYS_SEND, SYS_SPAWN, SYS_START, SYS_WRITE, SYS_YIELD,
};
use crate::body::{Device, Endpoint, MemoryObject, NodeBody, Process, Rights, Thread};
use crate::edge::{Dir, EdgeAttr, HoldsAttr, MapsAttr, NamedAttr, Prot};
use crate::graph::{Graph, GraphError, Ref};
use crate::id::{EdgeKind, NodeId, NodeKind};
use crate::limits::MAX_NAME_LEN;
use crate::sched::process_of;
use crate::view::GraphView;

verus! {

/// The rights bits the ABI shows are the graph's own. If the two ever drifted,
/// capability checks would silently change meaning.
pub proof fn rights_agree()
    ensures
        Rights(crate::abi::R_READ) == Rights(1),
        Rights(crate::abi::R_WRITE) == Rights(2),
        Rights(crate::abi::R_MAP) == Rights(4),
        Rights(crate::abi::R_SEND) == Rights(8),
        Rights(crate::abi::R_RECV) == Rights(16),
        Rights(crate::abi::R_GRANT) == Rights(32),
        Rights(crate::abi::R_LOOKUP) == Rights(64),
        Rights(crate::abi::R_MANAGE) == Rights(128),
{
}

// ---------------------------------------------------------------- dispatch ---

/// What a system call number asks for.
#[derive(Clone, Copy, Debug, PartialEq, Eq, Structural)]
pub enum Call {
    Exit,
    Yield,
    Write,
    Lookup,
    Inspect,
    Rights,
    Send,
    Recv,
    Spawn,
    Grant,
    Start,
    Kill,
    Endpoint,
    Check,
}

impl Call {
    pub open spec fn number(self) -> u64 {
        match self {
            Call::Exit => SYS_EXIT,
            Call::Yield => SYS_YIELD,
            Call::Write => SYS_WRITE,
            Call::Lookup => SYS_LOOKUP,
            Call::Inspect => SYS_INSPECT,
            Call::Rights => SYS_RIGHTS,
            Call::Send => SYS_SEND,
            Call::Recv => SYS_RECV,
            Call::Spawn => SYS_SPAWN,
            Call::Grant => SYS_GRANT,
            Call::Start => SYS_START,
            Call::Kill => SYS_KILL,
            Call::Endpoint => SYS_ENDPOINT,
            Call::Check => SYS_CHECK,
        }
    }
}

/// Which call a number names; for any other number the answer is the error.
pub fn dispatch(nr: u64) -> (r: Result<Call, i64>)
    ensures
        r matches Ok(c) ==> c.number() == nr,
        r matches Err(e) ==> e == E_BADCALL && forall|c: Call| #[trigger] c.number() != nr,
{
    if nr == SYS_EXIT {
        Ok(Call::Exit)
    } else if nr == SYS_YIELD {
        Ok(Call::Yield)
    } else if nr == SYS_WRITE {
        Ok(Call::Write)
    } else if nr == SYS_LOOKUP {
        Ok(Call::Lookup)
    } else if nr == SYS_INSPECT {
        Ok(Call::Inspect)
    } else if nr == SYS_RIGHTS {
        Ok(Call::Rights)
    } else if nr == SYS_SEND {
        Ok(Call::Send)
    } else if nr == SYS_RECV {
        Ok(Call::Recv)
    } else if nr == SYS_SPAWN {
        Ok(Call::Spawn)
    } else if nr == SYS_GRANT {
        Ok(Call::Grant)
    } else if nr == SYS_START {
        Ok(Call::Start)
    } else if nr == SYS_KILL {
        Ok(Call::Kill)
    } else if nr == SYS_ENDPOINT {
        Ok(Call::Endpoint)
    } else if nr == SYS_CHECK {
        Ok(Call::Check)
    } else {
        Err(E_BADCALL)
    }
}

// ---------------------------------------------------------------- pointers ---

/// Where the user half ends.
pub const USER_END: u64 = 0x0000_8000_0000_0000;

impl GraphView {
    /// Some mapping of the space covers the byte with the access needed.
    pub open spec fn byte_ok(self, s: NodeId, a: int, need: Prot) -> bool {
        let out = self.list(s, Dir::Out, EdgeKind::Maps);
        exists|k: int|
            0 <= k < out.len() && self.maps(#[trigger] out[k]).vaddr <= a < self.maps(
                out[k],
            ).end_at() && self.maps(out[k]).prot.contains(need)
    }

    /// Every byte of the range is in the user half, and covered.
    pub open spec fn range_ok(self, t: NodeId, addr: u64, len: u64, need: Prot) -> bool {
        ||| len == 0
        ||| {
            &&& addr + len <= USER_END
            &&& self.space_under(t) is Some
            &&& forall|a: int|
                addr <= a < addr + len ==> #[trigger] self.byte_ok(
                    self.space_under(t)->Some_0,
                    a,
                    need,
                )
        }
    }
}

/// The end of the first mapping that covers a byte with the access needed.
fn covering_end(g: &Graph, s: NodeId, at: u128, need: Prot) -> (r: Option<u128>)
    requires
        g.wf(),
        g@.live(s),
    ensures
        r is Some <==> g@.byte_ok(s, at as int, need),
        r matches Some(e) ==> e > at && forall|a: int|
            at <= a < e ==> #[trigger] g@.byte_ok(s, a, need),
{
    let ghost v = g@;
    let ghost out = v.list(s, Dir::Out, EdgeKind::Maps);
    proof {
        crate::walk::wf_is_threaded(*g);
        assert(g.spec_live(s));
    }
    let ids = crate::checks::outgoing(g, s, EdgeKind::Maps);
    let mut k: usize = 0;
    while k < ids.len()
        invariant
            k <= ids@.len() == out.len(),
            g.wf(),
            v == g@,
            out == v.list(s, Dir::Out, EdgeKind::Maps),
            forall|i: int|
                0 <= i < ids@.len() ==> (#[trigger] ids@[i]).idx() == out[i] && v.has_edge(ids@[i]),
            forall|j: int|
                0 <= j < k ==> !(v.maps(#[trigger] out[j]).vaddr <= at < v.maps(out[j]).end_at()
                    && v.maps(out[j]).prot.contains(need)),
        decreases ids@.len() - k,
    {
        assert(ids@[k as int].idx() == out[k as int]);
        if let Some(edge) = g.edge(ids[k]) {
            let attr = MapsAttr::decode(edge.data);
            assert(attr == v.maps(out[k as int]));
            let end: u128 = attr.wide_end();
            if at >= attr.vaddr as u128 && at < end && attr.prot.contains(need) {
                proof {
                    assert forall|a: int| at <= a < end implies #[trigger] v.byte_ok(s, a, need) by {
                        assert(v.maps(out[k as int]).vaddr <= a < v.maps(out[k as int]).end_at());
                    }
                }
                return Some(end);
            }
        }
        k = k + 1;
    }
    None
}

/// Is `[addr, addr + len)` backed by mappings the caller may use this way?
///
/// "Is this user pointer valid?" is a graph query here, and that is the honest
/// answer rather than a convenience: the `Maps` edges are the authority on what
/// is mapped, so asking them is asking the truth rather than a copy of it.
pub fn user_range_ok(g: &Graph, current: NodeId, len: u64, addr: u64, need: Prot) -> (r: bool)
    requires
        g.wf(),
    ensures
        r == g@.range_ok(current, addr, len, need),
{
    if len == 0 {
        return true;
    }
    // The user half only. A kernel address here is a bug or worse.
    if len > USER_END || addr > USER_END - len {
        return false;
    }
    let end: u128 = addr as u128 + len as u128;
    let thread = match g.typed::<Thread>(current) {
        Some(t) => t,
        None => return false,
    };
    let space = match g.space_of(thread) {
        Some(s) => s,
        None => return false,
    };
    let ghost s = space.id();
    // Every byte must be covered, and a range may span several mappings.
    let mut cursor: u128 = addr as u128;
    while cursor < end
        invariant
            g.wf(),
            s == space.id(),
            g@.live(s),
            g@.space_under(current) == Some(s),
            addr <= cursor,
            end == addr + len,
            len > 0,
            end <= USER_END,
            forall|a: int| addr <= a < cursor && a < end ==> #[trigger] g@.byte_ok(s, a, need),
        decreases
            if cursor < end {
                end - cursor
            } else {
                0
            },
    {
        match covering_end(g, space.id(), cursor, need) {
            Some(e) => {
                cursor = e;
            },
            None => {
                proof {
                    let a = cursor as int;
                    assert(!g@.byte_ok(g@.space_under(current)->Some_0, a, need));
                    assert(addr <= a < addr + len);
                    assert(!g@.range_ok(current, addr, len, need));
                }
                return false;
            },
        }
    }
    true
}

// ----------------------------------------------------------------- handles ---

/// The error a failed resolution is answered with.
pub open spec fn resolve_error(e: GraphError) -> i64 {
    match e {
        GraphError::MissingRights { .. } => E_PERM,
        _ => E_BADHANDLE,
    }
}

pub(crate) fn error_of(e: GraphError) -> (r: i64)
    ensures
        r == resolve_error(e),
{
    match e {
        GraphError::MissingRights { .. } => E_PERM,
        _ => E_BADHANDLE,
    }
}

/// The slot number an argument carries.
pub open spec fn slot_of(arg: u64) -> u32 {
    (arg % 0x1_0000_0000) as u32
}

pub(crate) fn slot(arg: u64) -> (r: u32)
    ensures
        r == slot_of(arg),
{
    (arg % 0x1_0000_0000) as u32
}

impl GraphView {
    /// What the calling thread's handle resolves to, as a call sees it.
    pub open spec fn handle(self, t: NodeId, arg: u64, need: Rights) -> Result<NodeId, i64> {
        match self.process_of(t) {
            None => Err(E_BADHANDLE),
            Some(p) => match self.resolution(p, slot_of(arg), need) {
                Ok(id) => Ok(id),
                Err(e) => Err(resolve_error(e)),
            },
        }
    }
}

/// Resolve a handle of the calling thread's process.
pub(crate) fn handle(g: &Graph, current: NodeId, arg: u64, need: Rights) -> (r: Result<
    (Ref<Process>, NodeId),
    i64,
>)
    requires
        g.wf(),
    ensures
        r matches Ok((p, id)) ==> g@.process_of(current) == Some(p.id()) && g@.handle(
            current,
            arg,
            need,
        ) == Ok::<NodeId, i64>(id) && g@.live(id) && g@.live(p.id()),
        r matches Err(e) ==> g@.handle(current, arg, need) == Err::<NodeId, i64>(e),
{
    let p = match process_of(g, current) {
        Some(p) => p,
        None => return Err(E_BADHANDLE),
    };
    match g.resolve(p, slot(arg), need) {
        Ok(id) => Ok((p, id)),
        Err(e) => Err(error_of(e)),
    }
}

/// What writing to a device comes to, before any byte is written: the port to
/// write to, or the error.
pub open spec fn write_answer(
    v: GraphView,
    t: NodeId,
    arg: u64,
    ptr: u64,
    len: u64,
) -> Result<u16, i64> {
    match v.handle(t, arg, Rights(2)) {
        Err(e) => Err(e),
        Ok(id) => if id.kind() != Some(NodeKind::Device) {
            Err(E_BADHANDLE)
        } else if !v.range_ok(t, ptr, len, Prot(1)) {
            Err(E_FAULT)
        } else {
            Ok(v.nodes[id].body->Device_0.io_base)
        },
    }
}

/// Write to a device. The only authority check is one `Holds` edge with the
/// `Write` right; there is no ambient permission to fall back on. The caller
/// moves the bytes.
pub fn sys_write(g: &Graph, current: NodeId, arg: u64, ptr: u64, len: u64) -> (r: Result<u16, i64>)
    requires
        g.wf(),
    ensures
        r == write_answer(g@, current, arg, ptr, len),
{
    let (_, target): (Ref<Process>, NodeId) = match handle(g, current, arg, Rights::write()) {
        Ok(x) => x,
        Err(e) => return Err(e),
    };
    let d = match g.typed::<Device>(target) {
        Some(d) => d,
        None => return Err(E_BADHANDLE),
    };
    if !user_range_ok(g, current, len, ptr, Prot::read()) {
        return Err(E_FAULT);
    }
    match g.body(d) {
        Some(b) => {
            proof {
                assert(g@.nodes.contains_key(target));
                assert(g@.node_ok(target));
            }
            Ok(b.io_base)
        },
        None => Err(E_BADHANDLE),
    }
}

// ------------------------------------------------------------------ lookup ---

impl GraphView {
    /// The process holds the root with `Lookup`.
    pub open spec fn may_look_up(self, p: NodeId) -> bool {
        let out = self.list(p, Dir::Out, EdgeKind::Holds);
        exists|i: int|
            0 <= i < out.len() && self.edges[#[trigger] out[i]].dst.kind() == Some(NodeKind::Root)
                && self.holds(out[i]).rights.spec_contains(Rights(64))
    }
}

impl GraphView {
    /// Position `i` is the first of the root's names that spells `name`.
    pub open spec fn first_spelled(self, name: Seq<char>, i: int) -> bool {
        let s = self.list_or_none(self.root_id, Dir::Out, EdgeKind::Named);
        &&& 0 <= i < s.len()
        &&& self.edge_name(s[i]) == name
        &&& forall|j: int| 0 <= j < i ==> self.edge_name(#[trigger] s[j]) != name
    }
}

/// The first of the root's names that spells `name`, and what it names.
fn find_name(g: &Graph, name: &str) -> (r: Option<NodeId>)
    requires
        g.wf(),
    ensures
        r is Some <==> exists|i: int| g@.first_spelled(name@, i),
        r matches Some(id) ==> exists|i: int| #[trigger]
            g@.first_spelled(name@, i) && id == g@.edges[g@.list(
                g@.root_id,
                Dir::Out,
                EdgeKind::Named,
            )[i]].dst,
{
    let ghost v = g@;
    let root = match g.root() {
        Some(r) => r,
        None => {
            proof {
                if v.live(v.root_id) {
                    assert(v.nodes.contains_key(v.root_id));
                    assert(v.node_ok(v.root_id));
                }
            }
            return None;
        },
    };
    if !g.is_live(root.id()) {
        return None;
    }
    let ghost s = v.list(v.root_id, Dir::Out, EdgeKind::Named);
    proof {
        crate::walk::wf_is_threaded(*g);
        assert(g.spec_live(root.id()));
    }
    let ids = crate::checks::outgoing(g, root.id(), EdgeKind::Named);
    let mut k: usize = 0;
    while k < ids.len()
        invariant
            k <= ids@.len() == s.len(),
            g.wf(),
            v == g@,
            v.live(v.root_id),
            s == v.list(v.root_id, Dir::Out, EdgeKind::Named),
            forall|i: int|
                0 <= i < ids@.len() ==> (#[trigger] ids@[i]).idx() == s[i] && v.has_edge(ids@[i]),
            forall|j: int| 0 <= j < k ==> v.edge_name(#[trigger] s[j]) != name@,
        decreases ids@.len() - k,
    {
        assert(ids@[k as int].idx() == s[k as int]);
        if let Some(e) = g.edge(ids[k]) {
            let n = NamedAttr::decode(e.data);
            if n.matches(name) {
                assert(v.first_spelled(name@, k as int));
                return Some(e.dst);
            }
        }
        k = k + 1;
    }
    None
}

/// Does the process hold the root with `Lookup`?
fn may_look_up(g: &Graph, p: Ref<Process>) -> (r: bool)
    requires
        g.wf(),
        g@.live(p.id()),
    ensures
        r == g@.may_look_up(p.id()),
{
    let ghost v = g@;
    let ghost out = v.list(p.id(), Dir::Out, EdgeKind::Holds);
    proof {
        crate::walk::wf_is_threaded(*g);
        assert(g.spec_live(p.id()));
    }
    let ids = crate::checks::outgoing(g, p.id(), EdgeKind::Holds);
    let mut k: usize = 0;
    while k < ids.len()
        invariant
            k <= ids@.len() == out.len(),
            g.wf(),
            v == g@,
            out == v.list(p.id(), Dir::Out, EdgeKind::Holds),
            forall|i: int|
                0 <= i < ids@.len() ==> (#[trigger] ids@[i]).idx() == out[i] && v.has_edge(ids@[i]),
            forall|j: int|
                0 <= j < k ==> !(v.edges[#[trigger] out[j]].dst.kind() == Some(NodeKind::Root)
                    && v.holds(out[j]).rights.spec_contains(Rights(64))),
        decreases ids@.len() - k,
    {
        assert(ids@[k as int].idx() == out[k as int]);
        if let Some(e) = g.edge(ids[k]) {
            let rights = HoldsAttr::decode(e.data).rights;
            assert(rights == v.holds(out[k as int]).rights);
            let is_root: bool = match e.dst.kind() {
                Some(NodeKind::Root) => true,
                _ => false,
            };
            if is_root && rights.contains(Rights::lookup()) {
                assert(v.edges[out[k as int]].dst.kind() == Some(NodeKind::Root));
                return true;
            }
        }
        k = k + 1;
    }
    false
}

/// What a lookup grants on what it found. Naming something must not hand over
/// control of it: a device is readable and writable; a memory object holding a
/// program image is readable only, which is exactly the authority needed to
/// spawn it and no more.
pub open spec fn lookup_rights(kind: Option<NodeKind>) -> Rights {
    match kind {
        Some(NodeKind::Device) => Rights(3),
        Some(NodeKind::Endpoint) => Rights(24),
        _ => Rights(1),
    }
}

fn rights_for(kind: Option<NodeKind>) -> (r: Rights)
    ensures
        r == lookup_rights(kind),
{
    proof {
        assert(1u32 | 2u32 == 3u32 && 8u32 | 16u32 == 24u32) by (bit_vector);
    }
    match kind {
        Some(NodeKind::Device) => Rights::read().union(Rights::write()),
        Some(NodeKind::MemoryObject) => Rights::read(),
        Some(NodeKind::Endpoint) => Rights::send().union(Rights::recv()),
        _ => Rights::read(),
    }
}

/// The error a failed lookup grant is answered with.
pub open spec fn lookup_error(e: GraphError) -> i64 {
    match e {
        GraphError::Incompatible { .. } => E_BADKIND,
        _ => E_NOSPACE,
    }
}

/// What a lookup comes to. The name is there unless its range was refused.
pub open spec fn looked_up(
    g0: Graph,
    g1: Graph,
    t: NodeId,
    name: Option<Seq<u8>>,
    r: i64,
) -> bool {
    let v = g0@;
    if v.process_of(t) is None {
        r == E_BADHANDLE && g1 == g0
    } else if name is None {
        r == E_FAULT && g1 == g0
    } else if name->Some_0.len() > MAX_NAME_LEN || !vstd::utf8::valid_utf8(name->Some_0) {
        r == E_NOTFOUND && g1 == g0
    } else if !v.may_look_up(v.process_of(t)->Some_0) {
        r == E_PERM && g1 == g0
    } else {
        let text = vstd::utf8::decode_utf8(name->Some_0);
        ||| (forall|i: int| !v.first_spelled(text, i)) && r == E_NOTFOUND && g1 == g0
        ||| exists|i: int, rg: Result<u32, GraphError>|
            #![trigger v.first_spelled(text, i), name_granted(g0, g1, v.process_of(t)->Some_0, i, rg)]
            v.first_spelled(text, i) && name_granted(g0, g1, v.process_of(t)->Some_0, i, rg) && r
                == match rg {
                Ok(slot) => slot as i64,
                Err(e) => lookup_error(e),
            }
    }
}

/// The process was granted what the `i`-th name of the root names.
pub open spec fn name_granted(
    g0: Graph,
    g1: Graph,
    p: NodeId,
    i: int,
    rg: Result<u32, GraphError>,
) -> bool {
    let found = g0@.edges[g0@.list(g0@.root_id, Dir::Out, EdgeKind::Named)[i]].dst;
    g1.capability_granted(g0, p, found, lookup_rights(found.kind()), rg)
}

/// The one name query the kernel offers. Requires a capability to the root
/// carrying `Lookup`, which in practice only the first process is given. The
/// caller hands over the bytes of the name, or nothing where its range is not
/// the process's to read.
pub fn sys_lookup(g: &mut Graph, current: NodeId, name: Option<&[u8]>) -> (r: i64)
    requires
        old(g).wf(),
        old(g).seq < u64::MAX,
    ensures
        final(g).wf(),
        looked_up(
            *old(g),
            *final(g),
            current,
            match name {
                Some(b) => Some(b@),
                None => None,
            },
            r,
        ),
        final(g)@.since(old(g)@),
{
    let ghost g0 = *g;
    let p = match process_of(g, current) {
        Some(p) => p,
        None => return E_BADHANDLE,
    };
    let bytes = match name {
        Some(b) => b,
        None => return E_FAULT,
    };
    if bytes.len() > MAX_NAME_LEN {
        return E_NOTFOUND;
    }
    let text = match crate::edge::utf8_text(bytes) {
        Some(s) => s,
        None => return E_NOTFOUND,
    };
    // Authority first: holding the root with Lookup is what permits this.
    if !may_look_up(g, p) {
        return E_PERM;
    }
    let found: NodeId = match find_name(g, text) {
        Some(id) => id,
        None => return E_NOTFOUND,
    };
    let ghost i = choose|i: int| #[trigger]
        g0@.first_spelled(text@, i) && found == g0@.edges[g0@.list(
            g0@.root_id,
            Dir::Out,
            EdgeKind::Named,
        )[i]].dst;
    let rights = rights_for(found.kind());
    let rg = g.grant_raw(p, found, rights);
    assert(name_granted(g0, *g, p.id(), i, rg));
    assert(g0@.first_spelled(text@, i));
    match rg {
        Ok(slot) => slot as i64,
        Err(GraphError::Incompatible { .. }) => E_BADKIND,
        Err(_) => E_NOSPACE,
    }
}

/// What asking for a slot's rights comes to.
pub open spec fn rights_answer(v: GraphView, t: NodeId, arg: u64) -> i64 {
    match v.process_of(t) {
        None => E_BADHANDLE,
        Some(p) => match v.slot_rights(p, slot_of(arg)) {
            Some(x) => x.0 as i64,
            None => E_BADHANDLE,
        },
    }
}

/// What rights does this slot carry? Lets a program discover what it may do
/// rather than finding out by failing.
pub fn sys_rights(g: &Graph, current: NodeId, arg: u64) -> (r: i64)
    requires
        g.wf(),
    ensures
        r == rights_answer(g@, current, arg),
{
    let p = match process_of(g, current) {
        Some(p) => p,
        None => return E_BADHANDLE,
    };
    match g.rights_of(p, slot(arg)) {
        Some(x) => x.0 as i64,
        None => E_BADHANDLE,
    }
}

} // verus!
