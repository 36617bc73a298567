//! The bytes a snapshot is made of.

use vstd::prelude::*;

use crate::abi::{AdjacencyEntry, EdgeRecord, InspectHeader, NodeRecord};
use crate::mem::{read_u32, read_u64};

verus! {

// ----------------------------------------------------------------- encoding ---

impl InspectHeader {
    pub open spec fn bytes(self) -> Seq<u8> {
        crate::edge::u32_bytes(self.magic) + crate::edge::u32_bytes(self.version)
            + crate::edge::u64_bytes(self.seq) + crate::edge::u32_bytes(self.node_count)
            + crate::edge::u32_bytes(self.edge_count) + crate::edge::u32_bytes(self.node_offset)
            + crate::edge::u32_bytes(self.adjacency_offset) + crate::edge::u32_bytes(
            self.edge_offset,
        ) + crate::edge::zeros(4) + crate::edge::u64_bytes(self.total_frames)
            + crate::edge::u64_bytes(self.free_frames) + crate::edge::u64_bytes(self.ticks)
    }

    pub fn encode(&self, out: &mut Vec<u8>)
        ensures
            final(out)@ == old(out)@ + self.bytes(),
            self.bytes().len() == 64,
    {
        push_u32(out, self.magic);
        push_u32(out, self.version);
        push_u64(out, self.seq);
        push_u32(out, self.node_count);
        push_u32(out, self.edge_count);
        push_u32(out, self.node_offset);
        push_u32(out, self.adjacency_offset);
        push_u32(out, self.edge_offset);
        push_u32(out, 0);
        push_u64(out, self.total_frames);
        push_u64(out, self.free_frames);
        push_u64(out, self.ticks);
        assert(crate::edge::u32_bytes(0) =~= crate::edge::zeros(4));
        assert(out@ =~= old(out)@ + self.bytes());
    }
}

impl NodeRecord {
    pub open spec fn bytes(self) -> Seq<u8> {
        crate::edge::u64_bytes(self.id) + seq![self.kind, self.flags] + crate::edge::zeros(6)
            + crate::edge::u64_bytes(self.a) + crate::edge::u64_bytes(self.b)
    }

    pub fn encode(&self, out: &mut Vec<u8>)
        ensures
            final(out)@ == old(out)@ + self.bytes(),
            self.bytes().len() == 32,
    {
        push_u64(out, self.id);
        out.push(self.kind);
        out.push(self.flags);
        push_zeros(out, 6);
        push_u64(out, self.a);
        push_u64(out, self.b);
        assert(out@ =~= old(out)@ + self.bytes());
    }
}

impl AdjacencyEntry {
    pub open spec fn bytes(self) -> Seq<u8> {
        crate::edge::u32_bytes(self.first) + crate::edge::u32_bytes(self.count)
    }

    pub fn encode(&self, out: &mut Vec<u8>)
        ensures
            final(out)@ == old(out)@ + self.bytes(),
            self.bytes().len() == 8,
    {
        push_u32(out, self.first);
        push_u32(out, self.count);
        assert(out@ =~= old(out)@ + self.bytes());
    }
}

impl EdgeRecord {
    pub open spec fn bytes(self) -> Seq<u8> {
        crate::edge::u64_bytes(self.src) + crate::edge::u64_bytes(self.dst) + seq![
            self.kind,
            self.flags,
        ] + crate::edge::zeros(6) + crate::edge::u64_bytes(self.a) + crate::edge::u64_bytes(self.b)
    }

    pub fn encode(&self, out: &mut Vec<u8>)
        ensures
            final(out)@ == old(out)@ + self.bytes(),
            self.bytes().len() == 40,
    {
        push_u64(out, self.src);
        push_u64(out, self.dst);
        out.push(self.kind);
        out.push(self.flags);
        push_zeros(out, 6);
        push_u64(out, self.a);
        push_u64(out, self.b);
        assert(out@ =~= old(out)@ + self.bytes());
    }
}

fn push_u32(out: &mut Vec<u8>, v: u32)
    ensures
        final(out)@ == old(out)@ + crate::edge::u32_bytes(v),
{
    out.push((v % 256) as u8);
    out.push((v / 256 % 256) as u8);
    out.push((v / 0x1_0000 % 256) as u8);
    out.push((v / 0x100_0000) as u8);
    assert(out@ =~= old(out)@ + crate::edge::u32_bytes(v));
}

fn push_u64(out: &mut Vec<u8>, v: u64)
    ensures
        final(out)@ == old(out)@ + crate::edge::u64_bytes(v),
{
    push_u32(out, (v % 0x1_0000_0000) as u32);
    push_u32(out, (v / 0x1_0000_0000) as u32);
    assert(out@ =~= old(out)@ + crate::edge::u64_bytes(v));
}

fn push_zeros(out: &mut Vec<u8>, n: usize)
    ensures
        final(out)@ == old(out)@ + crate::edge::zeros(n as nat),
{
    let mut i: usize = 0;
    assert(out@ =~= old(out)@ + crate::edge::zeros(0));
    while i < n
        invariant
            i <= n,
            out@ == old(out)@ + crate::edge::zeros(i as nat),
        decreases n - i,
    {
        out.push(0);
        i = i + 1;
        assert(out@ =~= old(out)@ + crate::edge::zeros(i as nat));
    }
}

/// A header takes as many bytes as it is said to.
pub proof fn header_length(h: InspectHeader)
    ensures
        h.bytes().len() == 64,
{
}

// ----------------------------------------------------------------- decoding ---

/// The header that the first bytes of a snapshot hold.
pub open spec fn header_in(b: Seq<u8>) -> InspectHeader {
    InspectHeader {
        magic: crate::edge::le32(b, 0),
        version: crate::edge::le32(b, 4),
        seq: crate::edge::le64(b, 8),
        node_count: crate::edge::le32(b, 16),
        edge_count: crate::edge::le32(b, 20),
        node_offset: crate::edge::le32(b, 24),
        adjacency_offset: crate::edge::le32(b, 28),
        edge_offset: crate::edge::le32(b, 32),
        total_frames: crate::edge::le64(b, 40),
        free_frames: crate::edge::le64(b, 48),
        ticks: crate::edge::le64(b, 56),
    }
}

/// The node record at an offset.
pub open spec fn node_in(b: Seq<u8>, at: int) -> NodeRecord {
    NodeRecord {
        id: crate::edge::le64(b, at),
        kind: b[at + 8],
        flags: b[at + 9],
        a: crate::edge::le64(b, at + 16),
        b: crate::edge::le64(b, at + 24),
    }
}

/// The adjacency entry at an offset.
pub open spec fn adjacency_in(b: Seq<u8>, at: int) -> AdjacencyEntry {
    AdjacencyEntry { first: crate::edge::le32(b, at), count: crate::edge::le32(b, at + 4) }
}

/// The edge record at an offset.
pub open spec fn edge_in(b: Seq<u8>, at: int) -> EdgeRecord {
    EdgeRecord {
        src: crate::edge::le64(b, at),
        dst: crate::edge::le64(b, at + 8),
        kind: b[at + 16],
        flags: b[at + 17],
        a: crate::edge::le64(b, at + 24),
        b: crate::edge::le64(b, at + 32),
    }
}

/// Read the header of a snapshot. There is none in fewer bytes than it takes.
pub fn read_header(b: &[u8]) -> (r: Option<InspectHeader>)
    ensures
        r == if b@.len() < 64 {
            None
        } else {
            Some(header_in(b@))
        },
{
    if b.len() < 64 {
        return None;
    }
    Some(
        InspectHeader {
            magic: read_u32(b, 0),
            version: read_u32(b, 4),
            seq: read_u64(b, 8),
            node_count: read_u32(b, 16),
            edge_count: read_u32(b, 20),
            node_offset: read_u32(b, 24),
            adjacency_offset: read_u32(b, 28),
            edge_offset: read_u32(b, 32),
            total_frames: read_u64(b, 40),
            free_frames: read_u64(b, 48),
            ticks: read_u64(b, 56),
        },
    )
}

/// Read one node record, if it is inside the bytes.
pub fn read_node(b: &[u8], at: usize) -> (r: Option<NodeRecord>)
    ensures
        r == if at + 32 > b@.len() {
            None
        } else {
            Some(node_in(b@, at as int))
        },
{
    if b.len() < 32 || at > b.len() - 32 {
        return None;
    }
    Some(
        NodeRecord {
            id: read_u64(b, at),
            kind: b[at + 8],
            flags: b[at + 9],
            a: read_u64(b, at + 16),
            b: read_u64(b, at + 24),
        },
    )
}

/// Read one adjacency entry, if it is inside the bytes.
pub fn read_adjacency(b: &[u8], at: usize) -> (r: Option<AdjacencyEntry>)
    ensures
        r == if at + 8 > b@.len() {
            None
        } else {
            Some(adjacency_in(b@, at as int))
        },
{
    if b.len() < 8 || at > b.len() - 8 {
        return None;
    }
    Some(AdjacencyEntry { first: read_u32(b, at), count: read_u32(b, at + 4) })
}

/// Read one edge record, if it is inside the bytes.
pub fn read_edge(b: &[u8], at: usize) -> (r: Option<EdgeRecord>)
    ensures
        r == if at + 40 > b@.len() {
            None
        } else {
            Some(edge_in(b@, at as int))
        },
{
    if b.len() < 40 || at > b.len() - 40 {
        return None;
    }
    Some(
        EdgeRecord {
            src: read_u64(b, at),
            dst: read_u64(b, at + 8),
            kind: b[at + 16],
            flags: b[at + 17],
            a: read_u64(b, at + 24),
            b: read_u64(b, at + 32),
        },
    )
}

// --------------------------------------------------------------- round trip ---

/// Bytes `s` lie at `at`.
pub open spec fn lies_at(b: Seq<u8>, at: int, s: Seq<u8>) -> bool {
    0 <= at && at + s.len() <= b.len() && b.subrange(at, at + s.len()) == s
}

proof fn part_lies(b: Seq<u8>, at: int, s: Seq<u8>, lo: int, hi: int)
    requires
        lies_at(b, at, s),
        0 <= lo <= hi <= s.len(),
    ensures
        lies_at(b, at + lo, s.subrange(lo, hi)),
{
    let w = b.subrange(at, at + s.len());
    assert(b.subrange(at + lo, at + hi) =~= w.subrange(lo, hi));
}

/// A header written is the header read.
pub proof fn header_reads_back(b: Seq<u8>, h: InspectHeader)
    requires
        lies_at(b, 0, h.bytes()),
    ensures
        header_in(b) == h,
{
    let s = h.bytes();
    assert(s.len() == 64);
    assert(s.subrange(0, 4) =~= crate::edge::u32_bytes(h.magic));
    part_lies(b, 0, s, 0, 4);
    crate::edge::le32_reads_u32_bytes(b, 0, h.magic);
    assert(s.subrange(4, 8) =~= crate::edge::u32_bytes(h.version));
    part_lies(b, 0, s, 4, 8);
    crate::edge::le32_reads_u32_bytes(b, 4, h.version);
    assert(s.subrange(8, 16) =~= crate::edge::u64_bytes(h.seq));
    part_lies(b, 0, s, 8, 16);
    crate::edge::le64_reads_u64_bytes(b, 8, h.seq);
    assert(s.subrange(16, 20) =~= crate::edge::u32_bytes(h.node_count));
    part_lies(b, 0, s, 16, 20);
    crate::edge::le32_reads_u32_bytes(b, 16, h.node_count);
    assert(s.subrange(20, 24) =~= crate::edge::u32_bytes(h.edge_count));
    part_lies(b, 0, s, 20, 24);
    crate::edge::le32_reads_u32_bytes(b, 20, h.edge_count);
    assert(s.subrange(24, 28) =~= crate::edge::u32_bytes(h.node_offset));
    part_lies(b, 0, s, 24, 28);
    crate::edge::le32_reads_u32_bytes(b, 24, h.node_offset);
    assert(s.subrange(28, 32) =~= crate::edge::u32_bytes(h.adjacency_offset));
    part_lies(b, 0, s, 28, 32);
    crate::edge::le32_reads_u32_bytes(b, 28, h.adjacency_offset);
    assert(s.subrange(32, 36) =~= crate::edge::u32_bytes(h.edge_offset));
    part_lies(b, 0, s, 32, 36);
    crate::edge::le32_reads_u32_bytes(b, 32, h.edge_offset);
    assert(s.subrange(40, 48) =~= crate::edge::u64_bytes(h.total_frames));
    part_lies(b, 0, s, 40, 48);
    crate::edge::le64_reads_u64_bytes(b, 40, h.total_frames);
    assert(s.subrange(48, 56) =~= crate::edge::u64_bytes(h.free_frames));
    part_lies(b, 0, s, 48, 56);
    crate::edge::le64_reads_u64_bytes(b, 48, h.free_frames);
    assert(s.subrange(56, 64) =~= crate::edge::u64_bytes(h.ticks));
    part_lies(b, 0, s, 56, 64);
    crate::edge::le64_reads_u64_bytes(b, 56, h.ticks);
}

/// A node record written is the record read.
pub proof fn node_reads_back(b: Seq<u8>, at: int, n: NodeRecord)
    requires
        lies_at(b, at, n.bytes()),
    ensures
        node_in(b, at) == n,
{
    let s = n.bytes();
    assert(s.len() == 32);
    assert(s.subrange(0, 8) =~= crate::edge::u64_bytes(n.id));
    part_lies(b, at, s, 0, 8);
    crate::edge::le64_reads_u64_bytes(b, at, n.id);
    let w = b.subrange(at, at + 32);
    assert(w[8] == n.kind && w[9] == n.flags);
    assert(s.subrange(16, 24) =~= crate::edge::u64_bytes(n.a));
    part_lies(b, at, s, 16, 24);
    crate::edge::le64_reads_u64_bytes(b, at + 16, n.a);
    assert(s.subrange(24, 32) =~= crate::edge::u64_bytes(n.b));
    part_lies(b, at, s, 24, 32);
    crate::edge::le64_reads_u64_bytes(b, at + 24, n.b);
}

/// An adjacency entry written is the entry read.
pub proof fn adjacency_reads_back(b: Seq<u8>, at: int, n: AdjacencyEntry)
    requires
        lies_at(b, at, n.bytes()),
    ensures
        adjacency_in(b, at) == n,
{
    let s = n.bytes();
    assert(s.len() == 8);
    assert(s.subrange(0, 4) =~= crate::edge::u32_bytes(n.first));
    part_lies(b, at, s, 0, 4);
    crate::edge::le32_reads_u32_bytes(b, at, n.first);
    assert(s.subrange(4, 8) =~= crate::edge::u32_bytes(n.count));
    part_lies(b, at, s, 4, 8);
    crate::edge::le32_reads_u32_bytes(b, at + 4, n.count);
}

/// An edge record written is the record read.
pub proof fn edge_reads_back(b: Seq<u8>, at: int, n: EdgeRecord)
    requires
        lies_at(b, at, n.bytes()),
    ensures
        edge_in(b, at) == n,
{
    let s = n.bytes();
    assert(s.len() == 40);
    assert(s.subrange(0, 8) =~= crate::edge::u64_bytes(n.src));
    part_lies(b, at, s, 0, 8);
    crate::edge::le64_reads_u64_bytes(b, at, n.src);
    assert(s.subrange(8, 16) =~= crate::edge::u64_bytes(n.dst));
    part_lies(b, at, s, 8, 16);
    crate::edge::le64_reads_u64_bytes(b, at + 8, n.dst);
    let w = b.subrange(at, at + 40);
    assert(w[16] == n.kind && w[17] == n.flags);
    assert(s.subrange(24, 32) =~= crate::edge::u64_bytes(n.a));
    part_lies(b, at, s, 24, 32);
    crate::edge::le64_reads_u64_bytes(b, at + 24, n.a);
    assert(s.subrange(32, 40) =~= crate::edge::u64_bytes(n.b));
    part_lies(b, at, s, 32, 40);
    crate::edge::le64_reads_u64_bytes(b, at + 32, n.b);
}

} // verus!
