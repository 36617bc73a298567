//! Turning an ELF image into a process.
//!
//! Every resource the program will use becomes a node owned, directly or
//! indirectly, by its `Process`. That is not tidiness: it is the entire
//! lifetime story. Killing the process detaches one `Owns` edge, and the
//! address space, its page tables, its memory and its threads all follow,
//! because ownership means "dies with" and nothing else has to remember.

use vstd::prelude::*;

use crate::edge::Prot;
use crate::elf::{ElfError, Segment, PF_R, PF_W, PF_X};
use crate::graph::GraphError;
use crate::vm::VmError;

verus! {

/// Where a user stack lives. High in the user half, far from any program text.
pub const USER_STACK_BASE: u64 = 0x0000_7fff_0000_0000;
pub const USER_STACK_PAGES: u32 = 4;

/// The largest image the loader will take, in pages.
pub const MAX_IMAGE_PAGES: usize = 2048;
/// The most separately-protected runs one image may have.
pub const MAX_RUNS: usize = 16;

#[derive(Clone, Copy, Debug, PartialEq, Eq, Structural)]
pub enum SpawnError {
    Elf(ElfError),
    Vm(VmError),
    Graph(GraphError),
    ImageTooLarge,
    TooManyRuns,
    SegmentOutsideImage,
}

/// Why the graph refused, in words.
pub open spec fn graph_reason_text(e: GraphError) -> Seq<char> {
    match e {
        GraphError::ArenaFull(_) => "graph: a node arena is full"@,
        GraphError::EdgeArenaFull => "graph: the edge arena is full"@,
        GraphError::NoFreeSlot => "graph: the handle table is full"@,
        GraphError::RangeOverlap => "graph: two mappings would cover the same page"@,
        GraphError::TooManyMappings => "graph: the address space has too many mappings"@,
        GraphError::Incompatible { .. } => "graph: that edge kind does not join those node kinds"@,
        GraphError::Dying(_) => "graph: the owner is being destroyed"@,
        GraphError::StaleNode(_) => "graph: stale reference"@,
        GraphError::StaleEdge(_) => "graph: stale reference"@,
        GraphError::MissingRights { .. } => "graph: missing right"@,
        GraphError::EmptySlot(_) => "graph: empty handle slot"@,
        GraphError::NameTooLong => "graph: name does not fit inline"@,
        GraphError::RootExists => "graph: a root already exists"@,
        GraphError::BadState => "graph: illegal thread state transition"@,
    }
}

/// Why the graph refused. Worth naming: an arena filling up and an invariant
/// being violated are very different problems.
pub fn graph_reason(e: GraphError) -> (r: &'static str)
    ensures
        r@ == graph_reason_text(e),
{
    match e {
        GraphError::ArenaFull(_) => "graph: a node arena is full",
        GraphError::EdgeArenaFull => "graph: the edge arena is full",
        GraphError::NoFreeSlot => "graph: the handle table is full",
        GraphError::RangeOverlap => "graph: two mappings would cover the same page",
        GraphError::TooManyMappings => "graph: the address space has too many mappings",
        GraphError::Incompatible { .. } => "graph: that edge kind does not join those node kinds",
        GraphError::Dying(_) => "graph: the owner is being destroyed",
        GraphError::StaleNode(_) => "graph: stale reference",
        GraphError::StaleEdge(_) => "graph: stale reference",
        GraphError::MissingRights { .. } => "graph: missing right",
        GraphError::EmptySlot(_) => "graph: empty handle slot",
        GraphError::NameTooLong => "graph: name does not fit inline",
        GraphError::RootExists => "graph: a root already exists",
        GraphError::BadState => "graph: illegal thread state transition",
    }
}

impl SpawnError {
    pub open spec fn text(self) -> Seq<char> {
        match self {
            SpawnError::Elf(ElfError::TooSmall) => "elf: file too small"@,
            SpawnError::Elf(ElfError::NotAnElf) => "elf: not an elf"@,
            SpawnError::Elf(ElfError::NotX86_64) => "elf: wrong architecture"@,
            SpawnError::Elf(ElfError::NotExecutable) => "elf: not ET_EXEC"@,
            SpawnError::Elf(ElfError::BadProgramHeaders) => "elf: bad program headers"@,
            SpawnError::Elf(ElfError::NoLoadableSegments) => "elf: nothing to load"@,
            SpawnError::Vm(VmError::Graph(e)) => graph_reason_text(e),
            SpawnError::Vm(VmError::Paging(_)) => "vm: out of frames"@,
            SpawnError::Vm(VmError::OutOfBounds) => "vm: range outside the object"@,
            SpawnError::Vm(VmError::NoAllocator) => "vm: no frame allocator"@,
            SpawnError::Vm(VmError::StaleSpace) => "vm: address space vanished"@,
            SpawnError::Graph(e) => graph_reason_text(e),
            SpawnError::ImageTooLarge => "image is larger than the loader accepts"@,
            SpawnError::TooManyRuns => "image has too many separately-protected runs"@,
            SpawnError::SegmentOutsideImage => "a segment falls outside the mapped image"@,
        }
    }

    /// A short reason, so a failed spawn says what went wrong rather than
    /// printing a struct nobody reads.
    pub fn describe(&self) -> (r: &'static str)
        ensures
            r@ == self.text(),
    {
        match *self {
            SpawnError::Elf(ElfError::TooSmall) => "elf: file too small",
            SpawnError::Elf(ElfError::NotAnElf) => "elf: not an elf",
            SpawnError::Elf(ElfError::NotX86_64) => "elf: wrong architecture",
            SpawnError::Elf(ElfError::NotExecutable) => "elf: not ET_EXEC",
            SpawnError::Elf(ElfError::BadProgramHeaders) => "elf: bad program headers",
            SpawnError::Elf(ElfError::NoLoadableSegments) => "elf: nothing to load",
            SpawnError::Vm(VmError::Graph(e)) => graph_reason(e),
            SpawnError::Vm(VmError::Paging(_)) => "vm: out of frames",
            SpawnError::Vm(VmError::OutOfBounds) => "vm: range outside the object",
            SpawnError::Vm(VmError::NoAllocator) => "vm: no frame allocator",
            SpawnError::Vm(VmError::StaleSpace) => "vm: address space vanished",
            SpawnError::Graph(e) => graph_reason(e),
            SpawnError::ImageTooLarge => "image is larger than the loader accepts",
            SpawnError::TooManyRuns => "image has too many separately-protected runs",
            SpawnError::SegmentOutsideImage => "a segment falls outside the mapped image",
        }
    }
}

impl From<VmError> for SpawnError {
    fn from(e: VmError) -> (r: SpawnError) {
        SpawnError::Vm(e)
    }
}

impl vstd::std_specs::convert::FromSpecImpl<VmError> for SpawnError {
    open spec fn obeys_from_spec() -> bool {
        true
    }

    open spec fn from_spec(e: VmError) -> SpawnError {
        SpawnError::Vm(e)
    }
}

impl From<GraphError> for SpawnError {
    fn from(e: GraphError) -> (r: SpawnError) {
        SpawnError::Graph(e)
    }
}

impl vstd::std_specs::convert::FromSpecImpl<GraphError> for SpawnError {
    open spec fn obeys_from_spec() -> bool {
        true
    }

    open spec fn from_spec(e: GraphError) -> SpawnError {
        SpawnError::Graph(e)
    }
}

// ------------------------------------------------------------- protections ---

/// The protection that a segment's flags ask for.
pub open spec fn spec_prot_of(flags: u32) -> Prot {
    let u = Prot(8);
    let r = if flags & PF_R != 0 {
        u.union(Prot(1))
    } else {
        u
    };
    let w = if flags & PF_W != 0 {
        r.union(Prot(2))
    } else {
        r
    };
    if flags & PF_X != 0 {
        w.union(Prot(4))
    } else {
        w
    }
}

#[verifier::when_used_as_spec(spec_prot_of)]
pub fn prot_of(flags: u32) -> (r: Prot)
    ensures
        r == spec_prot_of(flags),
{
    let mut p = Prot::user();
    if flags & PF_R != 0 {
        p = p.union(Prot::read());
    }
    if flags & PF_W != 0 {
        p = p.union(Prot::write());
    }
    if flags & PF_X != 0 {
        p = p.union(Prot::exec());
    }
    p
}

/// Segment `s` touches page `p` of an image that starts at `lo`.
pub open spec fn touches(s: Segment, lo: int, p: int) -> bool {
    s.low() <= lo + p * 4096 < s.high()
}

/// The protection of page `p`: the union of every segment that touches it.
pub open spec fn page_prot(s: Seq<Segment>, lo: int, p: int) -> u8
    decreases s.len(),
{
    if s.len() == 0 {
        0
    } else {
        let r = page_prot(s.drop_last(), lo, p);
        if touches(s.last(), lo, p) {
            r | prot_of(s.last().flags).0
        } else {
            r
        }
    }
}

/// One protection byte per page: the union of everything covering it.
///
/// Segments are laid out per *page*, not per segment, because a linker will
/// happily put the end of one segment and the start of the next in the same
/// page. Two `Maps` edges covering one virtual page would overlap, and rightly
/// be refused, since the hardware has only one set of permission bits per page.
pub fn page_prots(segs: &Vec<Segment>, lo: u64, total: usize) -> (r: Vec<u8>)
    requires
        lo % 4096 == 0,
        lo + total * 4096 <= u64::MAX,
        forall|i: int|
            0 <= i < segs@.len() ==> (#[trigger] segs@[i]).fits() && lo <= segs@[i].low()
                && segs@[i].high() <= lo + total * 4096,
    ensures
        r@.len() == total,
        forall|p: int| 0 <= p < total ==> #[trigger] r@[p] == page_prot(segs@, lo as int, p),
{
    let mut prot: Vec<u8> = Vec::new();
    let mut n: usize = 0;
    while n < total
        invariant
            n <= total,
            prot@.len() == n,
            forall|p: int| 0 <= p < n ==> prot@[p] == 0,
        decreases total - n,
    {
        prot.push(0);
        n = n + 1;
    }
    let mut i: usize = 0;
    assert(segs@.take(0) =~= Seq::<Segment>::empty());
    while i < segs.len()
        invariant
            i <= segs@.len(),
            prot@.len() == total,
            lo % 4096 == 0,
            lo + total * 4096 <= u64::MAX,
            forall|i: int|
                0 <= i < segs@.len() ==> (#[trigger] segs@[i]).fits() && lo <= segs@[i].low()
                    && segs@[i].high() <= lo + total * 4096,
            forall|p: int|
                0 <= p < total ==> #[trigger] prot@[p] == page_prot(
                    segs@.take(i as int),
                    lo as int,
                    p,
                ),
        decreases segs@.len() - i,
    {
        let s = segs[i];
        assert(segs@[i as int].fits());
        let bits: u8 = prot_of(s.flags).0;
        let first: usize = ((s.vaddr / 4096 * 4096 - lo) / 4096) as usize;
        let last: usize = (((s.vaddr + s.mem_size + 4095) / 4096 * 4096 - lo) / 4096) as usize;
        let ghost before = prot@;
        let mut p: usize = first;
        proof {
            assert(lo + first * 4096 == s.low());
            assert(lo + last * 4096 == s.high());
        }
        while p < last
            invariant
                first <= p,
                p == first || p <= last,
                last <= total,
                prot@.len() == total == before.len(),
                forall|q: int|
                    0 <= q < total ==> #[trigger] prot@[q] == if first <= q < p {
                        before[q] | bits
                    } else {
                        before[q]
                    },
            decreases last - p,
        {
            let b: u8 = prot[p] | bits;
            prot.set(p, b);
            p = p + 1;
        }
        proof {
            let t = segs@.take(i + 1);
            assert(t.drop_last() =~= segs@.take(i as int));
            assert(t.last() == s);
            assert forall|q: int| 0 <= q < total implies #[trigger] prot@[q] == page_prot(
                t,
                lo as int,
                q,
            ) by {
                assert(before[q] == page_prot(segs@.take(i as int), lo as int, q));
                assert(touches(s, lo as int, q) <==> first <= q < last);
            }
        }
        i = i + 1;
    }
    assert(segs@.take(segs@.len() as int) =~= segs@);
    prot
}

/// Consecutive pages that share a protection.
#[derive(Clone, Copy, Debug, PartialEq, Eq, Structural)]
pub struct PageRun {
    pub start: usize,
    pub pages: usize,
    pub prot: u8,
}

impl PageRun {
    pub open spec fn end(self) -> int {
        self.start + self.pages
    }

    /// The pages of the run share its protection, which is some protection,
    /// and the pages on either side do not.
    pub open spec fn fits(self, prot: Seq<u8>) -> bool {
        &&& self.pages > 0
        &&& self.end() <= prot.len()
        &&& self.prot != 0
        &&& forall|p: int| self.start <= p < self.end() ==> #[trigger] prot[p] == self.prot
        &&& self.start > 0 ==> prot[self.start - 1] != self.prot
        &&& self.end() < prot.len() ==> prot[self.end()] != self.prot
    }
}

/// The runs, in order, of the pages before `n`.
pub open spec fn runs_below(prot: Seq<u8>, runs: Seq<PageRun>, n: int) -> bool {
    &&& forall|i: int| 0 <= i < runs.len() ==> (#[trigger] runs[i]).fits(prot) && runs[i].end() <= n
    &&& forall|i: int, j: int|
        0 <= i < j < runs.len() ==> (#[trigger] runs[i]).end() <= (#[trigger] runs[j]).start
    &&& forall|p: int|
        0 <= p < n && #[trigger] prot[p] != 0 ==> exists|i: int|
            0 <= i < runs.len() && (#[trigger] runs[i]).start <= p < runs[i].end()
}

/// Consecutive pages with the same protection become one run.
pub fn page_runs(prot: &Vec<u8>) -> (r: Vec<PageRun>)
    ensures
        runs_below(prot@, r@, prot@.len() as int),
{
    let mut runs: Vec<PageRun> = Vec::new();
    let mut i: usize = 0;
    while i < prot.len()
        invariant
            i <= prot@.len(),
            runs_below(prot@, runs@, i as int),
            0 < i < prot@.len() && prot@[i - 1] != 0 ==> prot@[i - 1] != prot@[i as int],
        decreases prot@.len() - i,
    {
        if prot[i] == 0 {
            i = i + 1;
        } else {
            let start: usize = i;
            while i < prot.len() && prot[i] == prot[start]
                invariant
                    start <= i <= prot@.len(),
                    start < prot@.len(),
                    forall|p: int| start <= p < i ==> #[trigger] prot@[p] == prot@[start as int],
                decreases prot@.len() - i,
            {
                i = i + 1;
            }
            let run = PageRun { start, pages: i - start, prot: prot[start] };
            let ghost before = runs@;
            runs.push(run);
            proof {
                assert(prot@[start as int] == run.prot);
                assert(run.fits(prot@));
                assert forall|p: int| 0 <= p < i && #[trigger] prot@[p] != 0 implies exists|k: int|
                    0 <= k < runs@.len() && (#[trigger] runs@[k]).start <= p < runs@[k].end() by {
                    if p < start {
                        let k = choose|k: int|
                            0 <= k < before.len() && (#[trigger] before[k]).start <= p
                                < before[k].end();
                        assert(runs@[k] == before[k]);
                    } else {
                        assert(runs@[before.len() as int] == run);
                    }
                }
                assert forall|k: int| 0 <= k < runs@.len() implies (#[trigger] runs@[k]).fits(prot@)
                    && runs@[k].end() <= i by {
                    if k < before.len() {
                        assert(runs@[k] == before[k]);
                    }
                }
                assert forall|k: int, j: int| 0 <= k < j < runs@.len() implies (
                #[trigger] runs@[k]).end() <= (#[trigger] runs@[j]).start by {
                    assert(runs@[k] == before[k]);
                    if j < before.len() {
                        assert(runs@[j] == before[j]);
                    }
                }
            }
        }
    }
    runs
}

} // verus!
