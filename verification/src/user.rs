//! What a program does for itself: gather its output into lines, read rights,
//! and read a snapshot of the kernel.

use vstd::prelude::*;

use crate::abi::{InspectHeader, EDGE_SIZE, INSPECT_MAGIC, NODE_SIZE};
use crate::records::{read_edge, read_header, read_node};
use crate::text::{push_letters, push_str};

verus! {

// ---------------------------------------------------------------- console ---

pub const CONSOLE_BYTES: usize = 256;

/// Gathers output in a fixed buffer and flushes when it fills or a line ends.
/// No allocator behind it, so the buffer is the limit.
pub struct Console {
    pub buf: [u8; CONSOLE_BYTES],
    pub len: usize,
}

impl Console {
    pub open spec fn wf(self) -> bool {
        self.len <= CONSOLE_BYTES
    }

    /// What has been gathered and not flushed.
    pub open spec fn pending(self) -> Seq<u8> {
        self.buf@.subrange(0, self.len as int)
    }

    pub fn new() -> (r: Console)
        ensures
            r.wf(),
            r.pending() == Seq::<u8>::empty(),
    {
        let r = Console { buf: [0;CONSOLE_BYTES], len: 0 };
        assert(r.pending() =~= Seq::<u8>::empty());
        r
    }

    /// Hand over what has been gathered, to be written out. Nothing is written
    /// when nothing was gathered.
    pub fn flush(&mut self) -> (r: Vec<u8>)
        requires
            old(self).wf(),
        ensures
            final(self).wf(),
            r@ == old(self).pending(),
            final(self).pending() == Seq::<u8>::empty(),
    {
        let mut out: Vec<u8> = Vec::new();
        let mut i: usize = 0;
        while i < self.len
            invariant
                i <= self.len <= CONSOLE_BYTES,
                *self == *old(self),
                out@ == self.buf@.subrange(0, i as int),
            decreases self.len - i,
        {
            out.push(self.buf[i]);
            i = i + 1;
            assert(out@ =~= self.buf@.subrange(0, i as int));
        }
        self.len = 0;
        assert(self.pending() =~= Seq::<u8>::empty());
        out
    }

    /// Gather one byte. What is handed over goes out first, for a full buffer,
    /// and after the byte, for the end of a line.
    pub fn write_byte(&mut self, b: u8) -> (r: (Vec<u8>, Vec<u8>))
        requires
            old(self).wf(),
        ensures
            final(self).wf(),
            r.0@ == if old(self).len == CONSOLE_BYTES {
                old(self).pending()
            } else {
                Seq::empty()
            },
            ({
                let held = if old(self).len == CONSOLE_BYTES {
                    Seq::empty()
                } else {
                    old(self).pending()
                };
                if b == 0x0a {
                    r.1@ == held.push(b) && final(self).pending() == Seq::<u8>::empty()
                } else {
                    r.1@ == Seq::<u8>::empty() && final(self).pending() == held.push(b)
                }
            }),
            r.0@ + r.1@ + final(self).pending() == old(self).pending().push(b),
            b == 0x0a ==> final(self).pending().len() == 0,
    {
        let mut first: Vec<u8> = Vec::new();
        if self.len == CONSOLE_BYTES {
            first = self.flush();
        }
        let ghost held = self.pending();
        assert(held.len() == self.len);
        self.buf[self.len] = b;
        self.len = self.len + 1;
        assert(self.pending() =~= held.push(b));
        let mut second: Vec<u8> = Vec::new();
        if b == 0x0a {
            second = self.flush();
        }
        assert(first@ + second@ + self.pending() =~= old(self).pending().push(b));
        (first, second)
    }
}

impl Default for Console {
    fn default() -> (r: Console)
        ensures
            r.wf(),
            r.pending() == Seq::<u8>::empty(),
    {
        Console::new()
    }
}

/// Nothing written is lost or reordered: what goes out, and what is still
/// held, is what was held and the byte.
pub proof fn console_keeps_every_byte(
    held: Seq<u8>,
    b: u8,
    first: Seq<u8>,
    second: Seq<u8>,
    after: Seq<u8>,
    full: bool,
)
    requires
        first == if full {
            held
        } else {
            Seq::empty()
        },
        ({
            let h = if full {
                Seq::empty()
            } else {
                held
            };
            if b == 0x0a {
                second == h.push(b) && after == Seq::<u8>::empty()
            } else {
                second == Seq::<u8>::empty() && after == h.push(b)
            }
        }),
    ensures
        first + second + after == held.push(b),
{
    assert(first + second + after =~= held.push(b));
}

// ------------------------------------------------------------------ rights ---

/// How a bitmask of rights is written: the letters of those that are there, or
/// a dash where there is none.
pub open spec fn mask_text(bits: u32) -> Seq<u8> {
    let s = crate::text::right_letters(bits, 8);
    if s.len() == 0 {
        crate::text::lit("-"@)
    } else {
        s
    }
}

/// Render a rights bitmask the way the kernel's own dump does.
pub fn rights_str(bits: u32) -> (r: Vec<u8>)
    ensures
        r@ == mask_text(bits),
{
    let mut out: Vec<u8> = Vec::new();
    push_letters(&mut out, bits);
    assert(out@ =~= crate::text::right_letters(bits, 8));
    if out.len() == 0 {
        push_str(&mut out, "-");
        assert(out@ =~= crate::text::lit("-"@));
    }
    out
}

// --------------------------------------------------------------- snapshots ---

/// How many of the first `n` node records are of kind `k`.
pub open spec fn nodes_of_kind(b: Seq<u8>, at: int, n: int, k: int) -> int
    decreases n,
{
    if n <= 0 {
        0
    } else {
        nodes_of_kind(b, at, n - 1, k) + if crate::records::node_in(
            b,
            at + 32 * (n - 1),
        ).kind == k {
            1int
        } else {
            0
        }
    }
}

/// How many of the first `n` edge records are of kind `k`.
pub open spec fn edges_of_kind(b: Seq<u8>, at: int, n: int, k: int) -> int
    decreases n,
{
    if n <= 0 {
        0
    } else {
        edges_of_kind(b, at, n - 1, k) + if crate::records::edge_in(
            b,
            at + 40 * (n - 1),
        ).kind == k {
            1int
        } else {
            0
        }
    }
}

/// The tables that a header speaks of lie inside the bytes.
pub open spec fn tables_inside(b: Seq<u8>, h: InspectHeader) -> bool {
    &&& h.node_offset + 32 * h.node_count <= b.len()
    &&& h.edge_offset + 40 * h.edge_count <= b.len()
}

/// Count the nodes of a snapshot by kind, from userspace, with no kernel help.
pub fn count_nodes(b: &[u8], h: &InspectHeader) -> (r: Vec<u32>)
    requires
        tables_inside(b@, *h),
    ensures
        r@.len() == 8,
        forall|k: int|
            0 <= k < 8 ==> #[trigger] r@[k] == nodes_of_kind(
                b@,
                h.node_offset as int,
                h.node_count as int,
                k,
            ),
{
    let mut counts: Vec<u32> = Vec::new();
    let mut j: usize = 0;
    while j < 8
        invariant
            j <= 8,
            counts@.len() == j,
            forall|k: int| 0 <= k < j ==> #[trigger] counts@[k] == 0,
        decreases 8 - j,
    {
        counts.push(0);
        j = j + 1;
    }
    let mut i: u32 = 0;
    while i < h.node_count
        invariant
            i <= h.node_count,
            tables_inside(b@, *h),
            counts@.len() == 8,
            forall|k: int|
                0 <= k < 8 ==> #[trigger] counts@[k] == nodes_of_kind(
                    b@,
                    h.node_offset as int,
                    i as int,
                    k,
                ) && counts@[k] <= i,
        decreases h.node_count - i,
    {
        assert(b.len() == b@.len());
        let at: usize = h.node_offset as usize + NODE_SIZE * i as usize;
        if let Some(rec) = read_node(b, at) {
            let k: usize = rec.kind as usize;
            if k < 8 {
                let n: u32 = counts[k];
                counts.set(k, n + 1);
            }
        }
        i = i + 1;
    }
    counts
}

/// Count the edges of a snapshot by kind.
pub fn count_edges(b: &[u8], h: &InspectHeader) -> (r: Vec<u32>)
    requires
        tables_inside(b@, *h),
    ensures
        r@.len() == 7,
        forall|k: int|
            0 <= k < 7 ==> #[trigger] r@[k] == edges_of_kind(
                b@,
                h.edge_offset as int,
                h.edge_count as int,
                k,
            ),
{
    let mut counts: Vec<u32> = Vec::new();
    let mut j: usize = 0;
    while j < 7
        invariant
            j <= 7,
            counts@.len() == j,
            forall|k: int| 0 <= k < j ==> #[trigger] counts@[k] == 0,
        decreases 7 - j,
    {
        counts.push(0);
        j = j + 1;
    }
    let mut i: u32 = 0;
    while i < h.edge_count
        invariant
            i <= h.edge_count,
            tables_inside(b@, *h),
            counts@.len() == 7,
            forall|k: int|
                0 <= k < 7 ==> #[trigger] counts@[k] == edges_of_kind(
                    b@,
                    h.edge_offset as int,
                    i as int,
                    k,
                ) && counts@[k] <= i,
        decreases h.edge_count - i,
    {
        assert(b.len() == b@.len());
        let at: usize = h.edge_offset as usize + EDGE_SIZE * i as usize;
        if let Some(rec) = read_edge(b, at) {
            let k: usize = rec.kind as usize;
            if k < 7 {
                let n: u32 = counts[k];
                counts.set(k, n + 1);
            }
        }
        i = i + 1;
    }
    counts
}

/// What a program learns of a snapshot it was handed: the header and both
/// counts, or nothing where the bytes are no snapshot.
pub struct Census {
    pub header: InspectHeader,
    pub nodes: Vec<u32>,
    pub edges: Vec<u32>,
}

/// Take stock of the whole kernel, as data, from one call.
pub fn whole_kernel_state(b: &[u8]) -> (r: Option<Census>)
    ensures
        r is Some <==> b@.len() >= 64 && crate::records::header_in(b@).magic == INSPECT_MAGIC
            && tables_inside(b@, crate::records::header_in(b@)),
        r matches Some(c) ==> {
            let h = crate::records::header_in(b@);
            &&& c.header == h
            &&& c.nodes@.len() == 8
            &&& c.edges@.len() == 7
            &&& forall|k: int|
                0 <= k < 8 ==> #[trigger] c.nodes@[k] == nodes_of_kind(
                    b@,
                    h.node_offset as int,
                    h.node_count as int,
                    k,
                )
            &&& forall|k: int|
                0 <= k < 7 ==> #[trigger] c.edges@[k] == edges_of_kind(
                    b@,
                    h.edge_offset as int,
                    h.edge_count as int,
                    k,
                )
        },
{
    let h = match read_header(b) {
        Some(h) => h,
        None => return None,
    };
    if h.magic != INSPECT_MAGIC {
        return None;
    }
    let nodes_end: u64 = h.node_offset as u64 + 32 * h.node_count as u64;
    let edges_end: u64 = h.edge_offset as u64 + 40 * h.edge_count as u64;
    if nodes_end > b.len() as u64 || edges_end > b.len() as u64 {
        return None;
    }
    let nodes = count_nodes(b, &h);
    let edges = count_edges(b, &h);
    Some(Census { header: h, nodes, edges })
}

} // verus!
