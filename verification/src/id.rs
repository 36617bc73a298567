//! Identifiers, node kinds, and edge kinds.
//!
//! Both id types are 8-byte scalars. A generation of zero is never handed out,
//! so all-zero memory is a valid null id.

use vstd::prelude::*;

verus! {

/// Node kinds. `Root` has code 0 so that a zeroed id is the null id.
#[derive(Clone, Copy, PartialEq, Eq, Structural, Hash, Debug)]
pub enum NodeKind {
    Root,
    Cpu,
    Process,
    Thread,
    AddressSpace,
    MemoryObject,
    Endpoint,
    Device,
}

impl NodeKind {
    /// The number a kind is written as inside an id.
    pub open spec fn spec_code(self) -> u8 {
        match self {
            NodeKind::Root => 0,
            NodeKind::Cpu => 1,
            NodeKind::Process => 2,
            NodeKind::Thread => 3,
            NodeKind::AddressSpace => 4,
            NodeKind::MemoryObject => 5,
            NodeKind::Endpoint => 6,
            NodeKind::Device => 7,
        }
    }

    #[verifier::when_used_as_spec(spec_code)]
    pub fn code(self) -> (r: u8)
        ensures
            r == self.spec_code(),
    {
        match self {
            NodeKind::Root => 0,
            NodeKind::Cpu => 1,
            NodeKind::Process => 2,
            NodeKind::Thread => 3,
            NodeKind::AddressSpace => 4,
            NodeKind::MemoryObject => 5,
            NodeKind::Endpoint => 6,
            NodeKind::Device => 7,
        }
    }

    pub open spec fn spec_from_u8(v: u8) -> Option<NodeKind> {
        match v {
            0 => Some(NodeKind::Root),
            1 => Some(NodeKind::Cpu),
            2 => Some(NodeKind::Process),
            3 => Some(NodeKind::Thread),
            4 => Some(NodeKind::AddressSpace),
            5 => Some(NodeKind::MemoryObject),
            6 => Some(NodeKind::Endpoint),
            7 => Some(NodeKind::Device),
            _ => None,
        }
    }

    /// The kind a code names. The inverse of `code`, and `None` for a number
    /// that is no kind's code.
    #[verifier::when_used_as_spec(spec_from_u8)]
    pub fn from_u8(v: u8) -> (r: Option<NodeKind>)
        ensures
            r == Self::spec_from_u8(v),
            forall|k: NodeKind| (r == Some(k)) == (v == #[trigger] k.spec_code()),
    {
        match v {
            0 => Some(NodeKind::Root),
            1 => Some(NodeKind::Cpu),
            2 => Some(NodeKind::Process),
            3 => Some(NodeKind::Thread),
            4 => Some(NodeKind::AddressSpace),
            5 => Some(NodeKind::MemoryObject),
            6 => Some(NodeKind::Endpoint),
            7 => Some(NodeKind::Device),
            _ => None,
        }
    }

    pub open spec fn spec_name(self) -> Seq<char> {
        match self {
            NodeKind::Root => "Root"@,
            NodeKind::Cpu => "Cpu"@,
            NodeKind::Process => "Process"@,
            NodeKind::Thread => "Thread"@,
            NodeKind::AddressSpace => "AddressSpace"@,
            NodeKind::MemoryObject => "MemoryObject"@,
            NodeKind::Endpoint => "Endpoint"@,
            NodeKind::Device => "Device"@,
        }
    }

    pub fn name(self) -> (r: &'static str)
        ensures
            r@ == self.spec_name(),
    {
        match self {
            NodeKind::Root => "Root",
            NodeKind::Cpu => "Cpu",
            NodeKind::Process => "Process",
            NodeKind::Thread => "Thread",
            NodeKind::AddressSpace => "AddressSpace",
            NodeKind::MemoryObject => "MemoryObject",
            NodeKind::Endpoint => "Endpoint",
            NodeKind::Device => "Device",
        }
    }
}

/// Edge kinds: every relationship the kernel records.
#[derive(Clone, Copy, PartialEq, Eq, Structural, Hash, Debug)]
pub enum EdgeKind {
    Owns,
    Holds,
    InSpace,
    Maps,
    Ready,
    Waiting,
    Named,
}

impl EdgeKind {
    /// The number a kind is written as inside an edge, and its index in a
    /// node's table of list heads.
    pub open spec fn spec_code(self) -> u8 {
        match self {
            EdgeKind::Owns => 0,
            EdgeKind::Holds => 1,
            EdgeKind::InSpace => 2,
            EdgeKind::Maps => 3,
            EdgeKind::Ready => 4,
            EdgeKind::Waiting => 5,
            EdgeKind::Named => 6,
        }
    }

    #[verifier::when_used_as_spec(spec_code)]
    pub fn code(self) -> (r: u8)
        ensures
            r == self.spec_code(),
            r < 7,
    {
        match self {
            EdgeKind::Owns => 0,
            EdgeKind::Holds => 1,
            EdgeKind::InSpace => 2,
            EdgeKind::Maps => 3,
            EdgeKind::Ready => 4,
            EdgeKind::Waiting => 5,
            EdgeKind::Named => 6,
        }
    }

    pub open spec fn spec_from_u8(v: u8) -> Option<EdgeKind> {
        match v {
            0 => Some(EdgeKind::Owns),
            1 => Some(EdgeKind::Holds),
            2 => Some(EdgeKind::InSpace),
            3 => Some(EdgeKind::Maps),
            4 => Some(EdgeKind::Ready),
            5 => Some(EdgeKind::Waiting),
            6 => Some(EdgeKind::Named),
            _ => None,
        }
    }

    /// The kind a code names, `None` for a number that is no kind's code.
    #[verifier::when_used_as_spec(spec_from_u8)]
    pub fn from_u8(v: u8) -> (r: Option<EdgeKind>)
        ensures
            r == Self::spec_from_u8(v),
            forall|k: EdgeKind| (r == Some(k)) == (v == #[trigger] k.spec_code()),
    {
        match v {
            0 => Some(EdgeKind::Owns),
            1 => Some(EdgeKind::Holds),
            2 => Some(EdgeKind::InSpace),
            3 => Some(EdgeKind::Maps),
            4 => Some(EdgeKind::Ready),
            5 => Some(EdgeKind::Waiting),
            6 => Some(EdgeKind::Named),
            _ => None,
        }
    }

    pub open spec fn spec_name(self) -> Seq<char> {
        match self {
            EdgeKind::Owns => "Owns"@,
            EdgeKind::Holds => "Holds"@,
            EdgeKind::InSpace => "InSpace"@,
            EdgeKind::Maps => "Maps"@,
            EdgeKind::Ready => "Ready"@,
            EdgeKind::Waiting => "Waiting"@,
            EdgeKind::Named => "Named"@,
        }
    }

    pub fn name(self) -> (r: &'static str)
        ensures
            r@ == self.spec_name(),
    {
        match self {
            EdgeKind::Owns => "Owns",
            EdgeKind::Holds => "Holds",
            EdgeKind::InSpace => "InSpace",
            EdgeKind::Maps => "Maps",
            EdgeKind::Ready => "Ready",
            EdgeKind::Waiting => "Waiting",
            EdgeKind::Named => "Named",
        }
    }
}

/// Which endpoints an edge kind accepts.
pub open spec fn spec_compatible(kind: EdgeKind, src: NodeKind, dst: NodeKind) -> bool {
    match kind {
        EdgeKind::Owns => {
            ||| src == NodeKind::Root && dst != NodeKind::Root
            ||| src == NodeKind::Process && (dst == NodeKind::Process || dst == NodeKind::Thread
                || dst == NodeKind::AddressSpace || dst == NodeKind::MemoryObject || dst
                == NodeKind::Endpoint)
            ||| src == NodeKind::Thread && dst == NodeKind::MemoryObject
        },
        EdgeKind::Holds => src == NodeKind::Process && dst != NodeKind::Cpu,
        EdgeKind::InSpace => src == NodeKind::Thread && dst == NodeKind::AddressSpace,
        EdgeKind::Maps => src == NodeKind::AddressSpace && dst == NodeKind::MemoryObject,
        EdgeKind::Ready => src == NodeKind::Cpu && dst == NodeKind::Thread,
        EdgeKind::Waiting => src == NodeKind::Thread && (dst == NodeKind::Endpoint || dst
            == NodeKind::Device),
        EdgeKind::Named => src == NodeKind::Root,
    }
}

/// The runtime endpoint-compatibility table.
///
/// Typed call sites enforce this at compile time through the `link_*` methods;
/// this function is the check on the generic path and in the checker.
#[verifier::when_used_as_spec(spec_compatible)]
pub fn compatible(kind: EdgeKind, src: NodeKind, dst: NodeKind) -> (r: bool)
    ensures
        r == spec_compatible(kind, src, dst),
{
    match kind {
        // Storage and lifetime. Root owns anything but itself; a process owns the objects
        // it creates, including child processes; a thread owns its stack.
        EdgeKind::Owns => match src {
            NodeKind::Root => match dst {
                NodeKind::Root => false,
                _ => true,
            },
            NodeKind::Process => match dst {
                NodeKind::Process => true,
                NodeKind::Thread => true,
                NodeKind::AddressSpace => true,
                NodeKind::MemoryObject => true,
                NodeKind::Endpoint => true,
                _ => false,
            },
            NodeKind::Thread => match dst {
                NodeKind::MemoryObject => true,
                _ => false,
            },
            _ => false,
        },
        // Capabilities: only processes hold them.
        EdgeKind::Holds => match src {
            NodeKind::Process => match dst {
                NodeKind::Cpu => false,
                _ => true,
            },
            _ => false,
        },
        EdgeKind::InSpace => match (src, dst) {
            (NodeKind::Thread, NodeKind::AddressSpace) => true,
            _ => false,
        },
        EdgeKind::Maps => match (src, dst) {
            (NodeKind::AddressSpace, NodeKind::MemoryObject) => true,
            _ => false,
        },
        EdgeKind::Ready => match (src, dst) {
            (NodeKind::Cpu, NodeKind::Thread) => true,
            _ => false,
        },
        EdgeKind::Waiting => match (src, dst) {
            (NodeKind::Thread, NodeKind::Endpoint) => true,
            (NodeKind::Thread, NodeKind::Device) => true,
            _ => false,
        },
        EdgeKind::Named => match src {
            NodeKind::Root => true,
            _ => false,
        },
    }
}

/// The three fields of a packed number come back out of it.
proof fn pack_parts(a: int, b: int, c: int)
    requires
        0 <= a < 256,
        0 <= b < 0x100_0000,
        0 <= c < 0x1_0000_0000,
    ensures
        (a + b * 256 + c * 0x1_0000_0000) % 256 == a,
        (a + b * 256 + c * 0x1_0000_0000) / 256 % 0x100_0000 == b,
        (a + b * 256 + c * 0x1_0000_0000) / 0x1_0000_0000 == c,
        0 <= a + b * 256 + c * 0x1_0000_0000 < 0x1_0000_0000_0000_0000,
{
    let x = a + b * 256 + c * 0x1_0000_0000;
    vstd::arithmetic::div_mod::lemma_fundamental_div_mod_converse(x, 256, b + c * 0x100_0000, a);
    vstd::arithmetic::div_mod::lemma_fundamental_div_mod_converse(x / 256, 0x100_0000, c, b);
    vstd::arithmetic::div_mod::lemma_fundamental_div_mod_converse(x, 0x1_0000_0000, c, a + b * 256);
}

/// `kind:8 | idx:24 | gen:32`. Encoding the kind in the id sends a lookup
/// straight to the right slab with no dispatch table.
#[derive(Clone, Copy, PartialEq, Eq, Structural, Hash, Debug)]
pub struct NodeId(pub u64);

impl NodeId {
    pub const MAX_IDX: u32 = 0x00FF_FFFF;

    pub open spec fn spec_null() -> NodeId {
        NodeId(0)
    }

    /// The id that names nothing.
    #[verifier::when_used_as_spec(spec_null)]
    pub fn null() -> (r: NodeId)
        ensures
            r == Self::spec_null(),
            r.is_null(),
    {
        reveal(NodeId::spec_generation);
        NodeId(0)
    }

    #[verifier::opaque]
    pub open spec fn spec_new(kind: NodeKind, idx: u32, generation: u32) -> NodeId {
        NodeId((kind.spec_code() + (idx as int % 0x100_0000) * 256 + generation * 0x1_0000_0000) as u64)
    }

    /// Pack a kind, an index and a generation. Only the low 24 bits of the
    /// index are kept.
    #[verifier::when_used_as_spec(spec_new)]
    pub fn new(kind: NodeKind, idx: u32, generation: u32) -> (r: NodeId)
        ensures
            r == Self::spec_new(kind, idx, generation),
            r.kind() == Some(kind),
            r.generation() == generation,
            r.idx() == idx as int % 0x100_0000,
    {
        proof {
            reveal(NodeId::spec_new);
            reveal(NodeId::spec_kind_raw);
            reveal(NodeId::spec_idx);
            reveal(NodeId::spec_generation);
            pack_parts(kind.spec_code() as int, idx as int % 0x100_0000, generation as int);
        }
        NodeId(
            kind.code() as u64 + (idx as u64 % 0x100_0000) * 256 + (generation as u64)
                * 0x1_0000_0000,
        )
    }

    #[verifier::opaque]
    pub open spec fn spec_kind_raw(self) -> u8 {
        (self.0 % 256) as u8
    }

    #[verifier::when_used_as_spec(spec_kind_raw)]
    pub fn kind_raw(self) -> (r: u8)
        ensures
            r == self.spec_kind_raw(),
    {
        reveal(NodeId::spec_kind_raw);
        (self.0 % 256) as u8
    }

    #[verifier::opaque]
    pub open spec fn spec_idx(self) -> u32 {
        (self.0 / 256 % 0x100_0000) as u32
    }

    #[verifier::when_used_as_spec(spec_idx)]
    pub fn idx(self) -> (r: u32)
        ensures
            r == self.spec_idx(),
            r <= 0x00FF_FFFF,
    {
        reveal(NodeId::spec_idx);
        (self.0 / 256 % 0x100_0000) as u32
    }

    #[verifier::opaque]
    pub open spec fn spec_generation(self) -> u32 {
        (self.0 / 0x1_0000_0000) as u32
    }

    #[verifier::when_used_as_spec(spec_generation)]
    pub fn generation(self) -> (r: u32)
        ensures
            r == self.spec_generation(),
    {
        reveal(NodeId::spec_generation);
        (self.0 / 0x1_0000_0000) as u32
    }

    pub open spec fn spec_is_null(self) -> bool {
        self.spec_generation() == 0
    }

    /// A null id is one that was never handed out: generation zero.
    #[verifier::when_used_as_spec(spec_is_null)]
    pub fn is_null(self) -> (r: bool)
        ensures
            r == self.spec_is_null(),
    {
        self.generation() == 0
    }

    pub open spec fn spec_kind(self) -> Option<NodeKind> {
        NodeKind::spec_from_u8(self.spec_kind_raw())
    }

    #[verifier::when_used_as_spec(spec_kind)]
    pub fn kind(self) -> (r: Option<NodeKind>)
        ensures
            r == self.spec_kind(),
    {
        NodeKind::from_u8(self.kind_raw())
    }
}

impl Default for NodeId {
    fn default() -> (r: NodeId)
        ensures
            r == NodeId::spec_null(),
    {
        NodeId(0)
    }
}

/// Packing loses nothing: the three parts come back out, for every index that
/// fits in 24 bits.
pub proof fn node_id_round_trip(kind: NodeKind, idx: u32, generation: u32)
    requires
        idx <= NodeId::MAX_IDX,
    ensures
        NodeId::new(kind, idx, generation).kind() == Some(kind),
        NodeId::new(kind, idx, generation).idx() == idx,
        NodeId::new(kind, idx, generation).generation() == generation,
{
    reveal(NodeId::spec_new);
    reveal(NodeId::spec_kind_raw);
    reveal(NodeId::spec_idx);
    reveal(NodeId::spec_generation);
    pack_parts(kind.spec_code() as int, idx as int % 0x100_0000, generation as int);
}

/// An id with a known kind is the packing of its three parts, so two ids with
/// the same parts are the same id.
pub proof fn node_id_parts(id: NodeId)
    ensures
        id.kind() matches Some(k) ==> id == NodeId::new(k, id.idx(), id.generation()),
        id.idx() <= NodeId::MAX_IDX,
        NodeId::null().is_null(),
{
    reveal(NodeId::spec_new);
    reveal(NodeId::spec_kind_raw);
    reveal(NodeId::spec_idx);
    reveal(NodeId::spec_generation);
    let x = id.0 as int;
    vstd::arithmetic::div_mod::lemma_fundamental_div_mod(x, 256);
    vstd::arithmetic::div_mod::lemma_fundamental_div_mod(x / 256, 0x100_0000);
    vstd::arithmetic::div_mod::lemma_div_denominator(x, 256, 0x100_0000);
}

/// `idx:32 | gen:32`. Edge slot 0 is a permanent sentinel meaning "no edge", so
/// that a zeroed list head is an empty list.
#[derive(Clone, Copy, PartialEq, Eq, Structural, Hash, Debug)]
pub struct EdgeId(pub u64);

impl EdgeId {
    pub open spec fn spec_null() -> EdgeId {
        EdgeId(0)
    }

    #[verifier::when_used_as_spec(spec_null)]
    pub fn null() -> (r: EdgeId)
        ensures
            r == Self::spec_null(),
            r.is_null(),
    {
        reveal(EdgeId::spec_generation);
        EdgeId(0)
    }

    #[verifier::opaque]
    pub open spec fn spec_new(idx: u32, generation: u32) -> EdgeId {
        EdgeId((idx + generation * 0x1_0000_0000) as u64)
    }

    #[verifier::when_used_as_spec(spec_new)]
    pub fn new(idx: u32, generation: u32) -> (r: EdgeId)
        ensures
            r == Self::spec_new(idx, generation),
            r.idx() == idx,
            r.generation() == generation,
    {
        proof {
            edge_pack(idx as int, generation as int);
            reveal(EdgeId::spec_new);
            reveal(EdgeId::spec_idx);
            reveal(EdgeId::spec_generation);
        }
        EdgeId(idx as u64 + (generation as u64) * 0x1_0000_0000)
    }

    #[verifier::opaque]
    pub open spec fn spec_idx(self) -> u32 {
        (self.0 % 0x1_0000_0000) as u32
    }

    #[verifier::when_used_as_spec(spec_idx)]
    pub fn idx(self) -> (r: u32)
        ensures
            r == self.spec_idx(),
    {
        reveal(EdgeId::spec_idx);
        (self.0 % 0x1_0000_0000) as u32
    }

    #[verifier::opaque]
    pub open spec fn spec_generation(self) -> u32 {
        (self.0 / 0x1_0000_0000) as u32
    }

    #[verifier::when_used_as_spec(spec_generation)]
    pub fn generation(self) -> (r: u32)
        ensures
            r == self.spec_generation(),
    {
        reveal(EdgeId::spec_generation);
        (self.0 / 0x1_0000_0000) as u32
    }

    pub open spec fn spec_is_null(self) -> bool {
        self.spec_generation() == 0
    }

    #[verifier::when_used_as_spec(spec_is_null)]
    pub fn is_null(self) -> (r: bool)
        ensures
            r == self.spec_is_null(),
    {
        self.generation() == 0
    }
}

impl Default for EdgeId {
    fn default() -> (r: EdgeId)
        ensures
            r == EdgeId::spec_null(),
    {
        EdgeId(0)
    }
}

/// Packing an edge id loses nothing, in either direction.
pub proof fn edge_id_round_trip(id: EdgeId, idx: u32, generation: u32)
    ensures
        EdgeId::new(idx, generation).idx() == idx,
        EdgeId::new(idx, generation).generation() == generation,
        EdgeId::new(id.idx(), id.generation()) == id,
        EdgeId::null().is_null(),
{
    reveal(EdgeId::spec_new);
    reveal(EdgeId::spec_idx);
    reveal(EdgeId::spec_generation);
    edge_pack(idx as int, generation as int);
    vstd::arithmetic::div_mod::lemma_fundamental_div_mod(id.0 as int, 0x1_0000_0000);
}

proof fn edge_pack(a: int, b: int)
    requires
        0 <= a < 0x1_0000_0000,
        0 <= b < 0x1_0000_0000,
    ensures
        (a + b * 0x1_0000_0000) % 0x1_0000_0000 == a,
        (a + b * 0x1_0000_0000) / 0x1_0000_0000 == b,
        0 <= a + b * 0x1_0000_0000 < 0x1_0000_0000_0000_0000,
{
    vstd::arithmetic::div_mod::lemma_fundamental_div_mod_converse(
        a + b * 0x1_0000_0000,
        0x1_0000_0000,
        b,
        a,
    );
}

} // verus!
