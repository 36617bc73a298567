//! Loading the segments of an image into a new address space.

use vstd::prelude::*;

use crate::body::{AddressSpace, MemoryObject, NodeBody, Process};
use crate::edge::{MapFlags, MapsAttr, Prot};
use crate::elf::{Image, Segment};
use crate::frames::FrameAllocator;
use crate::graph::{Graph, Ref};
use crate::id::{EdgeId, NodeId};
use crate::mem::zero_bytes;
use crate::proc::{page_prots, page_runs, PageRun, SpawnError, MAX_IMAGE_PAGES, MAX_RUNS};
use crate::vm::{alloc_object_for, VmError};

verus! {

/// Everything a load works on, at one moment.
pub struct State<'a> {
    pub g: Graph,
    pub mem: Seq<u8>,
    pub frames: Option<FrameAllocator<'a>>,
}

/// The machine can load into the space.
pub open spec fn loadable(s: State<'_>, space: NodeId) -> bool {
    &&& s.g.wf()
    &&& s.g@.live(space)
    &&& s.frames matches Some(fa) ==> crate::paging::ready(
        fa,
        s.mem,
        crate::vm::root_in(s.g@, space),
    )
}

/// Frames taken, and memory changed only in frames that were free, leave every
/// set of tables as it was.
pub proof fn ready_after_taking(
    f0: FrameAllocator<'_>,
    f1: FrameAllocator<'_>,
    m0: Seq<u8>,
    m1: Seq<u8>,
    root: int,
)
    requires
        crate::paging::ready(f0, m0, root),
        f1.wf(),
        f1.same_shape(f0),
        forall|f: int| #[trigger] f1.free(f) ==> f0.free(f),
        m1.len() == m0.len(),
        forall|a: int|
            0 <= a < m0.len() && !f0.free(a / 4096) ==> #[trigger] m1[a] == m0[a],
    ensures
        crate::paging::ready(f1, m1, root),
        crate::paging::same_lookups(m0, m1, root),
        forall|t: int| #[trigger]
            crate::tables::has_table(m1, root, t) ==> crate::tables::has_table(m0, root, t),
        forall|t: int| #[trigger]
            crate::tables::has_table(m0, root, t) ==> !f0.free(t / 4096),
{
    assert forall|p: Seq<int>, a: int|
        #![trigger crate::tables::is_table(m0, root, p), m1[a]]
        crate::tables::is_table(m0, root, p) && crate::tables::table_at(m0, root, p)->Some_0 <= a
            < crate::tables::table_at(m0, root, p)->Some_0 + 4096 implies m1[a] == m0[a] by {
        let t = crate::tables::table_at(m0, root, p)->Some_0;
        assert(!f0.free(t / 4096));
        assert(a / 4096 == t / 4096);
    }
    crate::spaces::elsewhere_kept(m0, m1, root);
    assert forall|p: Seq<int>| #[trigger] crate::tables::is_table(m1, root, p) implies !f1.free(
        crate::tables::table_at(m1, root, p)->Some_0 / 4096,
    ) by {
        assert(crate::tables::table_at(m1, root, p) == crate::tables::table_at(m0, root, p));
        assert(crate::tables::is_table(m0, root, p));
    }
    assert forall|t: int| #[trigger]
        crate::tables::has_table(m1, root, t) implies crate::tables::has_table(m0, root, t) by {
        let p = choose|p: Seq<int>| #[trigger]
            crate::tables::is_table(m1, root, p) && crate::tables::table_at(m1, root, p) == Some(t);
        assert(crate::tables::table_at(m1, root, p) == crate::tables::table_at(m0, root, p));
        assert(crate::tables::is_table(m0, root, p));
    }
}

/// Frame `f` is in use, and not as a table.
pub open spec fn plain(fa: FrameAllocator<'_>, mem: Seq<u8>, root: int, f: int) -> bool {
    !fa.free(f) && !crate::tables::has_table(mem, root, 4096 * f)
}

/// What was in use, and not as a table, still is.
pub open spec fn plain_kept(s0: State<'_>, s1: State<'_>, root: int) -> bool {
    s0.frames is Some ==> s1.frames is Some && forall|f: int|
        plain(s0.frames->Some_0, s0.mem, root, f) ==> #[trigger] plain(
            s1.frames->Some_0,
            s1.mem,
            root,
            f,
        )
}

/// Tables are added out of free frames only.
pub proof fn growing_keeps_plain(
    m0: Seq<u8>,
    f0: FrameAllocator<'_>,
    m1: Seq<u8>,
    f1: FrameAllocator<'_>,
    root: int,
    way: spec_fn(Seq<int>) -> bool,
    f: int,
)
    requires
        crate::paging::grown(m0, f0, m1, f1, root, way),
        plain(f0, m0, root, f),
    ensures
        plain(f1, m1, root, f),
{
    reveal(crate::paging::grown);
    if crate::tables::has_table(m1, root, 4096 * f) {
        let q = choose|q: Seq<int>| #[trigger]
            crate::tables::is_table(m1, root, q) && crate::tables::table_at(m1, root, q) == Some(
                4096 * f,
            );
        assert((4096 * f) / 4096 == f);
        if crate::tables::is_table(m0, root, q) {
            assert(crate::tables::has_table(m0, root, 4096 * f));
        }
    }
}

/// A run of pages got memory of its own, cleared, and was mapped.
pub open spec fn run_mapped(
    s0: State<'_>,
    s1: State<'_>,
    p: NodeId,
    space: NodeId,
    attr: MapsAttr,
    r: Result<u64, SpawnError>,
) -> bool {
    exists|mid: (Graph, Option<FrameAllocator<'_>>), ro: Result<Ref<MemoryObject>, VmError>| #[trigger]
        run_mapped_through(s0, s1, p, space, attr, r, mid, ro)
}

/// The same, with the graph and the allocator after the memory was allocated.
pub open spec fn run_mapped_through(
    s0: State<'_>,
    s1: State<'_>,
    p: NodeId,
    space: NodeId,
    attr: MapsAttr,
    r: Result<u64, SpawnError>,
    mid: (Graph, Option<FrameAllocator<'_>>),
    ro: Result<Ref<MemoryObject>, VmError>,
) -> bool {
    &&& mid.0.wf()
    &&& crate::vm::object_made(s0.g, s0.frames, mid.0, mid.1, p, attr.len_pages, ro)
    &&& match ro {
        Err(e) => {
            &&& r == Err::<u64, SpawnError>(SpawnError::Vm(e))
            &&& s1.g == mid.0
            &&& s1.mem == s0.mem
            &&& s1.frames == mid.1
        },
        Ok(obj) => {
            let phys = mid.0@.memobj(obj.id()).phys_base;
            let cleared = crate::mem::overwritten(
                s0.mem,
                phys as int,
                crate::edge::zeros((attr.len_pages * 4096) as nat),
            );
            &&& phys + attr.len_pages * 4096 <= s0.mem.len()
            &&& exists|rm: Result<EdgeId, VmError>| #[trigger]
                crate::vm::map_done(
                    mid.0,
                    cleared,
                    mid.1,
                    s1.g,
                    s1.mem,
                    s1.frames,
                    space,
                    obj.id(),
                    attr,
                    rm,
                ) && r == match rm {
                    Ok(_) => Ok::<u64, SpawnError>(phys),
                    Err(e) => Err::<u64, SpawnError>(SpawnError::Vm(e)),
                }
        },
    }
}

/// A finished mapping leaves the machine able to load more.
pub proof fn map_done_loadable(
    g0: Graph,
    m0: Seq<u8>,
    f0: Option<FrameAllocator<'_>>,
    g1: Graph,
    m1: Seq<u8>,
    f1: Option<FrameAllocator<'_>>,
    space: NodeId,
    obj: NodeId,
    attr: MapsAttr,
    r: Result<EdgeId, VmError>,
)
    requires
        g0.wf(),
        g1.wf(),
        g0@.live(space),
        f0 matches Some(fa) ==> crate::paging::ready(fa, m0, crate::vm::root_in(g0@, space)),
        crate::vm::map_done(g0, m0, f0, g1, m1, f1, space, obj, attr, r),
    ensures
        g1@.live(space),
        crate::vm::root_in(g1@, space) == crate::vm::root_in(g0@, space),
        m1.len() == m0.len(),
        f1 matches Some(fa) ==> crate::paging::ready(fa, m1, crate::vm::root_in(g1@, space)),
        f0 matches Some(fa) ==> (f1 matches Some(fb) && fb.same_shape(fa)),
        g1.seq <= g0.seq + 2,
        plain_kept(
            State { g: g0, mem: m0, frames: f0 },
            State { g: g1, mem: m1, frames: f1 },
            crate::vm::root_in(g0@, space),
        ),
{
    if crate::vm::map_error(g0, f0 is Some, space, obj, attr) is None {
        crate::paging::grown_ready(
            m0,
            f0->Some_0,
            m1,
            f1->Some_0,
            crate::vm::root_in(g0@, space),
            crate::paging::toward_run(attr.vaddr, attr.len_pages as int),
        );
        assert forall|f: int|
            plain(f0->Some_0, m0, crate::vm::root_in(g0@, space), f) implies #[trigger] plain(
            f1->Some_0,
            m1,
            crate::vm::root_in(g0@, space),
            f,
        ) by {
            growing_keeps_plain(
                m0,
                f0->Some_0,
                m1,
                f1->Some_0,
                crate::vm::root_in(g0@, space),
                crate::paging::toward_run(attr.vaddr, attr.len_pages as int),
                f,
            );
        }
    }
}

/// Give a run of pages memory of its own, clear it, and map it.
fn map_run(
    g: &mut Graph,
    mem: &mut [u8],
    frames: &mut Option<FrameAllocator<'_>>,
    p: Ref<Process>,
    space: Ref<AddressSpace>,
    attr: MapsAttr,
) -> (r: Result<u64, SpawnError>)
    requires
        loadable(State { g: *old(g), mem: old(mem)@, frames: *old(frames) }, space.id()),
        old(g).seq < u64::MAX - 2,
        attr.fits(),
        attr.off_pages == 0,
    ensures
        run_mapped(
            State { g: *old(g), mem: old(mem)@, frames: *old(frames) },
            State { g: *final(g), mem: final(mem)@, frames: *final(frames) },
            p.id(),
            space.id(),
            attr,
            r,
        ),
        loadable(State { g: *final(g), mem: final(mem)@, frames: *final(frames) }, space.id()),
        final(g).seq <= old(g).seq + 3,
        final(mem)@.len() == old(mem)@.len(),
        r matches Ok(phys) ==> phys % 4096 == 0 && phys + attr.len_pages * 4096 <= final(mem)@.len()
            && *final(frames) is Some && forall|f: int|
            phys as int / 4096 <= f < phys as int / 4096 + attr.len_pages ==> #[trigger] plain(
                (*final(frames))->Some_0,
                final(mem)@,
                crate::vm::root_in(old(g)@, space.id()),
                f,
            ),
        crate::vm::root_in(final(g)@, space.id()) == crate::vm::root_in(old(g)@, space.id()),
        plain_kept(
            State { g: *old(g), mem: old(mem)@, frames: *old(frames) },
            State { g: *final(g), mem: final(mem)@, frames: *final(frames) },
            crate::vm::root_in(old(g)@, space.id()),
        ),
        final(g)@.since(old(g)@),
{
    let ghost s0 = State { g: *g, mem: mem@, frames: *frames };
    let ghost root = crate::vm::root_in(g@, space.id());
    let made = alloc_object_for(g, frames, p, attr.len_pages);
    let ghost mid = (*g, *frames);
    let ghost v0 = s0.g@;
    let ghost v1 = g@;
    let obj = match made {
        Ok(o) => o,
        Err(e) => {
            proof {
                let s1 = State { g: *g, mem: mem@, frames: *frames };
                let r = Err::<u64, SpawnError>(SpawnError::Vm(e));
                assert(run_mapped_through(s0, s1, p.id(), space.id(), attr, r, mid, made));
                if let Some(fa) = s0.frames {
                    if !(attr.len_pages == 0 || fa.no_fit(1, attr.len_pages as int)) {
                        let phys = choose|phys: u64| #[trigger]
                            crate::vm::object_made_at(
                                s0.g,
                                fa,
                                *g,
                                *frames,
                                p.id(),
                                attr.len_pages,
                                made,
                                phys,
                            );
                        ready_after_taking(fa, (*frames)->Some_0, mem@, mem@, root);
                    }
                }
            }
            return Err(SpawnError::Vm(e));
        },
    };
    let ghost at = choose|phys: u64| #[trigger]
        crate::vm::object_made_at(
            s0.g,
            s0.frames->Some_0,
            *g,
            *frames,
            p.id(),
            attr.len_pages,
            made,
            phys,
        );
    proof {
        assert(crate::vm::object_made_at(
            s0.g,
            s0.frames->Some_0,
            *g,
            *frames,
            p.id(),
            attr.len_pages,
            made,
            at,
        ));
        let fa = s0.frames->Some_0;
        assert(v1.nodes.contains_key(obj.id()));
        assert(v1.nodes[obj.id()].body == crate::vm::fresh_object(at, attr.len_pages).erase());
        assert(v1.memobj(obj.id()) == crate::vm::fresh_object(at, attr.len_pages));
        assert(v1.live(space.id()));
        assert(crate::vm::root_in(v1, space.id()) == root);
        assert(at + attr.len_pages * 4096 <= mem@.len());
    }
    let phys: u64 = match g.body(obj) {
        Some(b) => b.phys_base,
        None => return Err(SpawnError::Vm(VmError::StaleSpace)),
    };
    assert(phys == at);
    assert(mem.len() == mem@.len());
    zero_bytes(mem, phys as usize, attr.len_pages as usize * 4096);
    let ghost cleared = mem@;
    proof {
        let fa = s0.frames->Some_0;
        let fb = mid.1->Some_0;
        assert(fa.fits(at as int / 4096, attr.len_pages as int));
        assert forall|a: int| 0 <= a < s0.mem.len() && !fa.free(a / 4096) implies #[trigger] cleared[a]
            == s0.mem[a] by {
            if at <= a < at + attr.len_pages * 4096 {
                assert(fa.free(a / 4096));
            }
        }
        ready_after_taking(fa, fb, s0.mem, cleared, root);
        assert forall|f: int| plain(fa, s0.mem, root, f) implies #[trigger] plain(
            fb,
            cleared,
            root,
            f,
        ) by {
            assert(crate::tables::has_table(cleared, root, 4096 * f) ==> crate::tables::has_table(
                s0.mem,
                root,
                4096 * f,
            ));
        }
        assert forall|f: int|
            phys as int / 4096 <= f < phys as int / 4096 + attr.len_pages implies #[trigger] plain(
            fb,
            cleared,
            root,
            f,
        ) by {
            assert(fa.free(f));
            assert(!fb.free(f));
            if crate::tables::has_table(cleared, root, 4096 * f) {
                assert(crate::tables::has_table(s0.mem, root, 4096 * f));
                assert((4096 * f) / 4096 == f);
            }
        }
    }
    let ghost g1 = *g;
    let done = crate::vm::map(g, mem, frames, space, obj, attr);
    proof {
        map_done_loadable(
            g1,
            cleared,
            mid.1,
            *g,
            mem@,
            *frames,
            space.id(),
            obj.id(),
            attr,
            done,
        );
        let s1 = State { g: *g, mem: mem@, frames: *frames };
        let r = match done {
            Ok(_) => Ok::<u64, SpawnError>(phys),
            Err(e) => Err::<u64, SpawnError>(SpawnError::Vm(e)),
        };
        let c = crate::mem::overwritten(
            s0.mem,
            mid.0@.memobj(obj.id()).phys_base as int,
            crate::edge::zeros((attr.len_pages * 4096) as nat),
        );
        assert(c == cleared);
        assert(crate::vm::map_done(
            mid.0,
            c,
            mid.1,
            s1.g,
            s1.mem,
            s1.frames,
            space.id(),
            obj.id(),
            attr,
            done,
        ));
        assert(run_mapped_through(s0, s1, p.id(), space.id(), attr, r, mid, made));
    }
    match done {
        Ok(_) => Ok(phys),
        Err(e) => Err(SpawnError::Vm(e)),
    }
}

// -------------------------------------------------------------------- runs ---

/// A mapped run of an image and the memory behind it.
#[derive(Clone, Copy, Debug, PartialEq, Eq, Structural)]
pub struct Run {
    pub vaddr: u64,
    pub pages: u32,
    pub phys: u64,
}

impl Run {
    pub open spec fn end(self) -> int {
        self.vaddr + self.pages * 4096
    }

    pub open spec fn holds(self, va: int) -> bool {
        self.vaddr <= va < self.end()
    }

    /// The run ends inside the address space, and its memory inside memory.
    pub open spec fn fits(self, len: nat) -> bool {
        self.end() <= u64::MAX && self.phys + self.pages * 4096 <= len
    }
}

/// The mapping a run of pages asks for.
pub open spec fn run_attr(lo: int, run: PageRun) -> MapsAttr {
    MapsAttr {
        vaddr: (lo + run.start * 4096) as u64,
        len_pages: run.pages as u32,
        off_pages: 0,
        prot: Prot(run.prot),
        flags: MapFlags(0),
    }
}

/// One run was mapped.
pub open spec fn run_ok(
    s0: State<'_>,
    s1: State<'_>,
    p: NodeId,
    space: NodeId,
    lo: int,
    run: PageRun,
    phys: u64,
) -> bool {
    run_mapped(s0, s1, p, space, run_attr(lo, run), Ok::<u64, SpawnError>(phys))
}

/// The states a load of the runs goes through: as many as were mapped, in
/// order, and the one a failure leaves.
#[verifier::opaque]
pub open spec fn runs_mapped(
    trace: Seq<State<'_>>,
    s0: State<'_>,
    s1: State<'_>,
    p: NodeId,
    space: NodeId,
    lo: int,
    runs: Seq<PageRun>,
    placed: Seq<Run>,
    r: Result<(), SpawnError>,
) -> bool {
    let k = placed.len() as int;
    &&& trace.len() > k
    &&& trace[0] == s0
    &&& trace.last() == s1
    &&& k <= runs.len()
    &&& k <= MAX_RUNS
    &&& forall|i: int| 0 <= i < trace.len() ==> (#[trigger] trace[i]).g.wf()
    &&& forall|i: int|
        0 <= i < k ==> run_ok(
            trace[i],
            trace[i + 1],
            p,
            space,
            lo,
            runs[i],
            (#[trigger] placed[i]).phys,
        ) && placed[i].vaddr == lo + runs[i].start * 4096 && placed[i].pages == runs[i].pages
            && placed[i].fits(s0.mem.len())
    &&& match r {
        Ok(_) => k == runs.len() && trace.len() == k + 1,
        Err(e) => {
            ||| k == MAX_RUNS && k < runs.len() && trace.len() == k + 1 && e
                == SpawnError::TooManyRuns
            ||| k < MAX_RUNS && k < runs.len() && trace.len() == k + 2 && run_mapped(
                trace[k],
                trace[k + 1],
                p,
                space,
                run_attr(lo, runs[k]),
                Err::<u64, SpawnError>(e),
            )
        },
    }
}

/// There is such a sequence of states.
pub open spec fn runs_done(
    s0: State<'_>,
    s1: State<'_>,
    p: NodeId,
    space: NodeId,
    lo: int,
    runs: Seq<PageRun>,
    placed: Seq<Run>,
    r: Result<(), SpawnError>,
) -> bool {
    exists|trace: Seq<State<'_>>| #[trigger]
        runs_mapped(trace, s0, s1, p, space, lo, runs, placed, r)
}

/// The memory behind every run is in use, and not as a table.
pub open spec fn runs_plain(placed: Seq<Run>, s: State<'_>, root: int) -> bool {
    forall|i: int, f: int|
        #![trigger placed[i], plain(s.frames->Some_0, s.mem, root, f)]
        0 <= i < placed.len() && placed[i].phys as int / 4096 <= f < placed[i].phys as int / 4096
            + placed[i].pages ==> plain(s.frames->Some_0, s.mem, root, f)
}

/// The memory behind every run starts on a page.
pub open spec fn runs_aligned(placed: Seq<Run>) -> bool {
    forall|i: int| 0 <= i < placed.len() ==> (#[trigger] placed[i]).phys % 4096 == 0
}

/// Map the runs of an image, each over memory of its own. What was mapped
/// before a failure stays, and dies with the process.
fn map_runs(
    g: &mut Graph,
    mem: &mut [u8],
    frames: &mut Option<FrameAllocator<'_>>,
    p: Ref<Process>,
    space: Ref<AddressSpace>,
    lo: u64,
    runs: &Vec<PageRun>,
) -> (r: (Vec<Run>, Result<(), SpawnError>))
    requires
        loadable(State { g: *old(g), mem: old(mem)@, frames: *old(frames) }, space.id()),
        old(g).seq < u64::MAX - 64,
        forall|i: int|
            0 <= i < runs@.len() ==> (#[trigger] runs@[i]).pages <= MAX_IMAGE_PAGES && lo
                + runs@[i].end() * 4096 <= u64::MAX,
    ensures
        loadable(State { g: *final(g), mem: final(mem)@, frames: *final(frames) }, space.id()),
        final(g).seq <= old(g).seq + 48,
        final(mem)@.len() == old(mem)@.len(),
        crate::vm::root_in(final(g)@, space.id()) == crate::vm::root_in(old(g)@, space.id()),
        r.0@.len() > 0 ==> *final(frames) is Some,
        runs_aligned(r.0@),
        runs_plain(
            r.0@,
            State { g: *final(g), mem: final(mem)@, frames: *final(frames) },
            crate::vm::root_in(old(g)@, space.id()),
        ),
        runs_done(
            State { g: *old(g), mem: old(mem)@, frames: *old(frames) },
            State { g: *final(g), mem: final(mem)@, frames: *final(frames) },
            p.id(),
            space.id(),
            lo as int,
            runs@,
            r.0@,
            r.1,
        ),
        final(g)@.since(old(g)@),
{
    let ghost s0 = State { g: *g, mem: mem@, frames: *frames };
    let ghost root = crate::vm::root_in(g@, space.id());
    proof {
        reveal(runs_mapped);
    }
    let ghost mut trace: Seq<State<'_>> = seq![s0];
    let mut placed: Vec<Run> = Vec::new();
    let mut i: usize = 0;
    while i < runs.len()
        invariant
            i <= runs@.len(),
            i <= MAX_RUNS,
            placed@.len() == i,
            trace.len() == i + 1,
            trace[0] == s0,
            trace.last() == (State { g: *g, mem: mem@, frames: *frames }),
            forall|k: int| 0 <= k < trace.len() ==> (#[trigger] trace[k]).g.wf(),
            s0 == (State { g: *old(g), mem: old(mem)@, frames: *old(frames) }),
            loadable(State { g: *g, mem: mem@, frames: *frames }, space.id()),
            g@.since(old(g)@),
            old(g).seq < u64::MAX - 64,
            g.seq <= old(g).seq + 3 * i,
            mem@.len() == old(mem)@.len(),
            root == crate::vm::root_in(old(g)@, space.id()),
            crate::vm::root_in(g@, space.id()) == root,
            i > 0 ==> *frames is Some,
            runs_plain(placed@, State { g: *g, mem: mem@, frames: *frames }, root),
            runs_aligned(placed@),
            forall|i: int|
                0 <= i < runs@.len() ==> (#[trigger] runs@[i]).pages <= MAX_IMAGE_PAGES && lo
                    + runs@[i].end() * 4096 <= u64::MAX,
            forall|k: int|
                0 <= k < i ==> run_ok(
                    trace[k],
                    trace[k + 1],
                    p.id(),
                    space.id(),
                    lo as int,
                    runs@[k],
                    (#[trigger] placed@[k]).phys,
                ) && placed@[k].vaddr == lo + runs@[k].start * 4096 && placed@[k].pages
                    == runs@[k].pages && placed@[k].fits(s0.mem.len()),
        decreases runs@.len() - i,
    {
        if i == MAX_RUNS {
            proof {
                reveal(runs_mapped);
                assert(runs_mapped(
                    trace,
                    State { g: *old(g), mem: old(mem)@, frames: *old(frames) },
                    State { g: *g, mem: mem@, frames: *frames },
                    p.id(),
                    space.id(),
                    lo as int,
                    runs@,
                    placed@,
                    Err::<(), SpawnError>(SpawnError::TooManyRuns),
                ));
                assert(runs_done(
                    State { g: *old(g), mem: old(mem)@, frames: *old(frames) },
                    State { g: *g, mem: mem@, frames: *frames },
                    p.id(),
                    space.id(),
                    lo as int,
                    runs@,
                    placed@,
                    Err::<(), SpawnError>(SpawnError::TooManyRuns),
                ));
            }
            return (placed, Err(SpawnError::TooManyRuns));
        }
        let run = runs[i];
        assert(runs@[i as int] == run);
        let vaddr: u64 = lo + (run.start as u64) * 4096;
        let attr = MapsAttr {
            vaddr,
            len_pages: run.pages as u32,
            off_pages: 0,
            prot: Prot(run.prot),
            flags: MapFlags::none(),
        };
        assert(attr == run_attr(lo as int, run));
        let ghost before = trace;
        let done = map_run(g, mem, frames, p, space, attr);
        proof {
            let was = before.last();
            let now = State { g: *g, mem: mem@, frames: *frames };
            assert(runs_plain(placed@, now, root)) by {
                assert forall|k: int, f: int|
                    #![trigger placed@[k], plain(now.frames->Some_0, now.mem, root, f)]
                    0 <= k < placed@.len() && placed@[k].phys as int / 4096 <= f
                        < placed@[k].phys as int / 4096 + placed@[k].pages implies plain(
                    now.frames->Some_0,
                    now.mem,
                    root,
                    f,
                ) by {
                    assert(plain(was.frames->Some_0, was.mem, root, f));
                }
            }
            trace = trace.push(State { g: *g, mem: mem@, frames: *frames });
            assert forall|k: int| 0 <= k < i implies run_ok(
                trace[k],
                trace[k + 1],
                p.id(),
                space.id(),
                lo as int,
                runs@[k],
                (#[trigger] placed@[k]).phys,
            ) by {
                assert(trace[k] == before[k] && trace[k + 1] == before[k + 1]);
            }
            assert(trace[i as int] == before.last());
        }
        match done {
            Err(e) => {
                proof {
                    reveal(runs_mapped);
                    assert(runs_mapped(
                        trace,
                        State { g: *old(g), mem: old(mem)@, frames: *old(frames) },
                        State { g: *g, mem: mem@, frames: *frames },
                        p.id(),
                        space.id(),
                        lo as int,
                        runs@,
                        placed@,
                        Err::<(), SpawnError>(e),
                    ));
                    assert(runs_done(
                        State { g: *old(g), mem: old(mem)@, frames: *old(frames) },
                        State { g: *g, mem: mem@, frames: *frames },
                        p.id(),
                        space.id(),
                        lo as int,
                        runs@,
                        placed@,
                        Err::<(), SpawnError>(e),
                    ));
                }
                return (placed, Err(e));
            },
            Ok(phys) => {
                let ghost had = placed@;
                placed.push(Run { vaddr, pages: run.pages as u32, phys });
                proof {
                    assert forall|k: int| 0 <= k < i + 1 implies run_ok(
                        trace[k],
                        trace[k + 1],
                        p.id(),
                        space.id(),
                        lo as int,
                        runs@[k],
                        (#[trigger] placed@[k]).phys,
                    ) && placed@[k].vaddr == lo + runs@[k].start * 4096 && placed@[k].pages
                        == runs@[k].pages && placed@[k].fits(s0.mem.len()) by {
                        if k < i {
                            assert(placed@[k] == had[k]);
                        }
                    }
                    let now = State { g: *g, mem: mem@, frames: *frames };
                    assert forall|k: int, f: int|
                        #![trigger placed@[k], plain(now.frames->Some_0, now.mem, root, f)]
                        0 <= k < placed@.len() && placed@[k].phys as int / 4096 <= f
                            < placed@[k].phys as int / 4096 + placed@[k].pages implies plain(
                        now.frames->Some_0,
                        now.mem,
                        root,
                        f,
                    ) by {
                        if k < i {
                            assert(placed@[k] == had[k]);
                        }
                    }
                }
            },
        }
        i = i + 1;
    }
    proof {
        assert(runs_mapped(
            trace,
            State { g: *old(g), mem: old(mem)@, frames: *old(frames) },
            State { g: *g, mem: mem@, frames: *frames },
            p.id(),
            space.id(),
            lo as int,
            runs@,
            placed@,
            Ok::<(), SpawnError>(()),
        ));
        assert(runs_done(
            State { g: *old(g), mem: old(mem)@, frames: *old(frames) },
            State { g: *g, mem: mem@, frames: *frames },
            p.id(),
            space.id(),
            lo as int,
            runs@,
            placed@,
            Ok::<(), SpawnError>(()),
        ));
    }
    (placed, Ok(()))
}

// ---------------------------------------------------------------- contents ---

/// Where in memory the byte at `va` lies, if some run holds it.
pub open spec fn home(runs: Seq<Run>, va: int) -> Option<int>
    decreases runs.len(),
{
    if runs.len() == 0 {
        None
    } else {
        match home(runs.drop_last(), va) {
            Some(a) => Some(a),
            None => if runs.last().holds(va) {
                Some(runs.last().phys + (va - runs.last().vaddr))
            } else {
                None
            },
        }
    }
}

/// The memory with bytes written at a virtual address, through the runs.
pub open spec fn with_bytes(mem: Seq<u8>, runs: Seq<Run>, va: int, data: Seq<u8>) -> Seq<u8>
    decreases data.len(),
{
    if data.len() == 0 {
        mem
    } else {
        let m = with_bytes(mem, runs, va, data.drop_last());
        match home(runs, va + data.len() - 1) {
            Some(a) => m.update(a, data.last()),
            None => m,
        }
    }
}

/// The memory with the contents of segments written, in file order.
pub open spec fn with_segments(
    mem: Seq<u8>,
    runs: Seq<Run>,
    bytes: Seq<u8>,
    segs: Seq<Segment>,
) -> Seq<u8>
    decreases segs.len(),
{
    if segs.len() == 0 {
        mem
    } else {
        let s = segs.last();
        with_bytes(
            with_segments(mem, runs, bytes, segs.drop_last()),
            runs,
            s.vaddr as int,
            bytes.subrange(s.offset as int, s.offset + s.file_size),
        )
    }
}

/// What a run holds, some run holds, inside memory.
pub proof fn home_found(runs: Seq<Run>, va: int, len: nat)
    requires
        forall|i: int| 0 <= i < runs.len() ==> (#[trigger] runs[i]).fits(len),
    ensures
        home(runs, va) matches Some(a) ==> 0 <= a < len,
        home(runs, va) is Some <==> exists|i: int|
            0 <= i < runs.len() && (#[trigger] runs[i]).holds(va),
    decreases runs.len(),
{
    if runs.len() > 0 {
        let r = runs.drop_last();
        assert forall|i: int| 0 <= i < r.len() implies (#[trigger] r[i]).fits(len) by {
            assert(r[i] == runs[i]);
        }
        home_found(r, va, len);
        let n = runs.len() - 1;
        assert(runs[n].fits(len));
        if exists|i: int| 0 <= i < runs.len() && (#[trigger] runs[i]).holds(va) {
            let i = choose|i: int| 0 <= i < runs.len() && (#[trigger] runs[i]).holds(va);
            if i < n {
                assert(r[i].holds(va));
            }
        }
        if exists|i: int| 0 <= i < r.len() && (#[trigger] r[i]).holds(va) {
            let i = choose|i: int| 0 <= i < r.len() && (#[trigger] r[i]).holds(va);
            assert(runs[i].holds(va));
        }
        if runs[n].holds(va) {
            assert(runs.last() == runs[n]);
        }
    }
}

/// Find the run that holds an address.
fn find_home(runs: &Vec<Run>, va: u64, Ghost(len): Ghost<nat>) -> (r: Option<u64>)
    requires
        forall|i: int| 0 <= i < runs@.len() ==> (#[trigger] runs@[i]).fits(len),
        len <= u64::MAX,
    ensures
        r matches Some(a) ==> home(runs@, va as int) == Some(a as int) && a < len,
        r is None ==> home(runs@, va as int) is None,
{
    let mut i: usize = 0;
    assert(runs@.take(0) =~= Seq::<Run>::empty());
    while i < runs.len()
        invariant
            i <= runs@.len(),
            forall|i: int| 0 <= i < runs@.len() ==> (#[trigger] runs@[i]).fits(len),
            len <= u64::MAX,
            home(runs@.take(i as int), va as int) is None,
        decreases runs@.len() - i,
    {
        let run = runs[i];
        assert(runs@[i as int].fits(len));
        proof {
            assert(runs@.take(i + 1).drop_last() =~= runs@.take(i as int));
            assert(runs@.take(i + 1).last() == run);
        }
        if va >= run.vaddr && va < run.vaddr + (run.pages as u64) * 4096 {
            proof {
                home_stays(runs@, i + 1, va as int);
            }
            return Some(run.phys + (va - run.vaddr));
        }
        i = i + 1;
    }
    assert(runs@.take(runs@.len() as int) =~= runs@);
    None
}

proof fn home_stays(runs: Seq<Run>, n: int, va: int)
    requires
        0 <= n <= runs.len(),
        home(runs.take(n), va) is Some,
    ensures
        home(runs, va) == home(runs.take(n), va),
    decreases runs.len() - n,
{
    if n == runs.len() {
        assert(runs.take(n) =~= runs);
    } else {
        assert(runs.take(n + 1).drop_last() =~= runs.take(n));
        home_stays(runs, n + 1, va);
    }
}

/// Every byte of a stretch has a home.
pub open spec fn all_home(runs: Seq<Run>, va: int, n: int) -> bool {
    forall|j: int| va <= j < va + n ==> #[trigger] home(runs, j) is Some
}

/// Write one segment's bytes, placed by address.
fn place_bytes(mem: &mut [u8], runs: &Vec<Run>, va: u64, data: &[u8]) -> (r: Result<(), SpawnError>)
    requires
        va + data@.len() <= u64::MAX,
        forall|i: int| 0 <= i < runs@.len() ==> (#[trigger] runs@[i]).fits(old(mem)@.len()),
    ensures
        r is Ok <==> all_home(runs@, va as int, data@.len() as int),
        r is Ok ==> final(mem)@ == with_bytes(old(mem)@, runs@, va as int, data@),
        r is Err ==> r == Err::<(), SpawnError>(SpawnError::SegmentOutsideImage),
        final(mem)@.len() == old(mem)@.len(),
{
    let ghost len = mem@.len();
    let ghost m0 = mem@;
    assert(mem.len() == mem@.len());
    let mut k: usize = 0;
    assert(data@.take(0) =~= Seq::<u8>::empty());
    while k < data.len()
        invariant
            k <= data@.len(),
            va + data@.len() <= u64::MAX,
            len == m0.len(),
            m0 == old(mem)@,
            mem@.len() == len,
            len <= usize::MAX,
            forall|i: int| 0 <= i < runs@.len() ==> (#[trigger] runs@[i]).fits(len),
            mem@ == with_bytes(m0, runs@, va as int, data@.take(k as int)),
            all_home(runs@, va as int, k as int),
        decreases data@.len() - k,
    {
        let at: u64 = va + k as u64;
        match find_home(runs, at, Ghost(len)) {
            None => {
                assert(home(runs@, va + k) is None);
                return Err(SpawnError::SegmentOutsideImage);
            },
            Some(a) => {
                let b: u8 = data[k];
                mem[a as usize] = b;
                proof {
                    assert(data@.take(k + 1).drop_last() =~= data@.take(k as int));
                    assert(data@.take(k + 1).last() == b);
                }
            },
        }
        k = k + 1;
    }
    assert(data@.take(data@.len() as int) =~= data@);
    Ok(())
}

/// Write the contents of every segment, in file order.
fn place_segments(mem: &mut [u8], runs: &Vec<Run>, image: &Image<'_>, segs: &Vec<Segment>) -> (r:
    Result<(), SpawnError>)
    requires
        image.wf(),
        segs@ == image.spec_segments(),
        image.fits(),
        forall|i: int| 0 <= i < runs@.len() ==> (#[trigger] runs@[i]).fits(old(mem)@.len()),
        forall|i: int|
            0 <= i < segs@.len() ==> all_home(
                runs@,
                (#[trigger] segs@[i]).vaddr as int,
                segs@[i].file_size as int,
            ),
    ensures
        r is Ok,
        final(mem)@ == with_segments(old(mem)@, runs@, image.bytes@, segs@),
        final(mem)@.len() == old(mem)@.len(),
{
    let ghost m0 = mem@;
    let mut i: usize = 0;
    assert(segs@.take(0) =~= Seq::<Segment>::empty());
    while i < segs.len()
        invariant
            i <= segs@.len(),
            image.wf(),
            segs@ == image.spec_segments(),
            image.fits(),
            m0 == old(mem)@,
            mem@.len() == m0.len(),
            forall|i: int| 0 <= i < runs@.len() ==> (#[trigger] runs@[i]).fits(m0.len()),
            forall|i: int|
                0 <= i < segs@.len() ==> all_home(
                    runs@,
                    (#[trigger] segs@[i]).vaddr as int,
                    segs@[i].file_size as int,
                ),
            mem@ == with_segments(m0, runs@, image.bytes@, segs@.take(i as int)),
        decreases segs@.len() - i,
    {
        let seg = segs[i];
        proof {
            assert(image.spec_segments()[i as int].fits());
            crate::elf::segments_in_file(*image, image.ph_count as int, i as int);
            assert(segs@.take(i + 1).drop_last() =~= segs@.take(i as int));
            assert(segs@.take(i + 1).last() == seg);
            assert(all_home(runs@, segs@[i as int].vaddr as int, segs@[i as int].file_size as int));
        }
        let data = image.segment_data(&seg);
        match place_bytes(mem, runs, seg.vaddr, data) {
            Err(e) => return Err(e),
            Ok(_) => {},
        }
        i = i + 1;
    }
    assert(segs@.take(segs@.len() as int) =~= segs@);
    Ok(())
}

// -------------------------------------------------------------------- load ---

/// A page that some segment touches has a protection.
pub proof fn touched_page_has_prot(s: Seq<Segment>, lo: int, p: int, i: int)
    requires
        0 <= i < s.len(),
        crate::proc::touches(s[i], lo, p),
    ensures
        crate::proc::page_prot(s, lo, p) != 0,
    decreases s.len(),
{
    let r = crate::proc::page_prot(s.drop_last(), lo, p);
    let b = crate::proc::spec_prot_of(s.last().flags).0;
    assert(b != 0) by {
        let f = s.last().flags;
        assert((8u8 | 1u8) != 0 && (8u8 | 2u8) != 0 && (8u8 | 4u8) != 0 && ((8u8 | 1u8) | 2u8) != 0
            && ((8u8 | 1u8) | 4u8) != 0 && ((8u8 | 2u8) | 4u8) != 0 && (((8u8 | 1u8) | 2u8) | 4u8)
            != 0) by (bit_vector);
    }
    assert(r != 0 || b != 0 ==> r | b != 0) by (bit_vector);
    if i < s.len() - 1 {
        assert(s.drop_last()[i] == s[i]);
        touched_page_has_prot(s.drop_last(), lo, p, i);
    }
}

/// Once every run is mapped, every byte of every segment has a home.
proof fn runs_hold_segments(
    segs: Seq<Segment>,
    lo: int,
    prot: Seq<u8>,
    runs: Seq<PageRun>,
    placed: Seq<Run>,
    len: nat,
    i: int,
)
    requires
        0 <= i < segs.len(),
        0 <= lo,
        lo % 4096 == 0,
        segs[i].fits(),
        segs[i].file_size <= segs[i].mem_size,
        lo <= segs[i].low(),
        segs[i].high() <= lo + prot.len() * 4096,
        forall|p: int| 0 <= p < prot.len() ==> #[trigger] prot[p] == crate::proc::page_prot(segs, lo, p),
        crate::proc::runs_below(prot, runs, prot.len() as int),
        placed.len() == runs.len(),
        forall|k: int|
            0 <= k < placed.len() ==> (#[trigger] placed[k]).vaddr == lo + runs[k].start * 4096
                && placed[k].pages == runs[k].pages && placed[k].fits(len),
    ensures
        all_home(placed, segs[i].vaddr as int, segs[i].file_size as int),
{
    let s = segs[i];
    assert forall|va: int| s.vaddr <= va < s.vaddr + s.file_size implies #[trigger] home(
        placed,
        va,
    ) is Some by {
        let p = (va - lo) / 4096;
        assert(crate::proc::touches(s, lo, p));
        touched_page_has_prot(segs, lo, p, i);
        assert(prot[p] != 0);
        let k = choose|k: int| 0 <= k < runs.len() && (#[trigger] runs[k]).start <= p < runs[k].end();
        assert(runs[k].end() <= prot.len());
        assert(placed[k].vaddr == lo + runs[k].start * 4096);
        assert(placed[k].holds(va));
        home_found(placed, va, len);
    }
}

/// How many pages an image spans.
pub open spec fn image_pages(segs: Seq<Segment>) -> int {
    (crate::elf::highest(segs) - crate::elf::lowest(segs)) / 4096
}

/// What loading an image into a space does.
pub open spec fn loaded(
    s0: State<'_>,
    s1: State<'_>,
    image: Image<'_>,
    p: NodeId,
    space: NodeId,
    r: Result<(), SpawnError>,
) -> bool {
    let segs = image.spec_segments();
    if segs.len() == 0 {
        r == Err::<(), SpawnError>(SpawnError::Elf(crate::elf::ElfError::NoLoadableSegments)) && s1
            == s0
    } else if image_pages(segs) > MAX_IMAGE_PAGES {
        r == Err::<(), SpawnError>(SpawnError::ImageTooLarge) && s1 == s0
    } else {
        exists|runs: Seq<PageRun>, placed: Seq<Run>, trace: Seq<State<'_>>| #[trigger]
            loaded_through(s0, s1, image, p, space, r, runs, placed, trace)
    }
}

/// The same, with the runs the pages fall into, the memory behind each, and
/// the states in between: the runs are mapped, and the contents placed.
pub open spec fn loaded_through(
    s0: State<'_>,
    s1: State<'_>,
    image: Image<'_>,
    p: NodeId,
    space: NodeId,
    r: Result<(), SpawnError>,
    runs: Seq<PageRun>,
    placed: Seq<Run>,
    trace: Seq<State<'_>>,
) -> bool {
    let segs = image.spec_segments();
    let lo = crate::elf::lowest(segs);
    let mid = trace.last();
    let prot = Seq::new(
        image_pages(segs) as nat,
        |q: int| crate::proc::page_prot(segs, lo, q),
    );
    &&& crate::proc::runs_below(prot, runs, prot.len() as int)
    &&& runs_mapped(trace, s0, mid, p, space, lo, runs, placed, r)
    &&& s1.g == mid.g
    &&& s1.frames == mid.frames
    &&& s1.mem == if r is Ok {
        with_segments(mid.mem, placed, image.bytes@, segs)
    } else {
        mid.mem
    }
}

/// Address `a` is in the memory behind one of the runs.
pub open spec fn behind_runs(runs: Seq<Run>, a: int) -> bool {
    exists|i: int|
        0 <= i < runs.len() && (#[trigger] runs[i]).phys <= a < runs[i].phys + runs[i].pages * 4096
}

proof fn home_is_behind(runs: Seq<Run>, va: int)
    ensures
        home(runs, va) matches Some(a) ==> behind_runs(runs, a),
    decreases runs.len(),
{
    if runs.len() > 0 {
        let r = runs.drop_last();
        home_is_behind(r, va);
        if home(r, va) is Some {
            let a = home(r, va)->Some_0;
            let i = choose|i: int|
                0 <= i < r.len() && (#[trigger] r[i]).phys <= a < r[i].phys + r[i].pages * 4096;
            assert(runs[i] == r[i]);
        } else if runs.last().holds(va) {
            assert(runs[runs.len() - 1] == runs.last());
        }
    }
}

/// Placing bytes writes behind the runs only.
proof fn bytes_stay_behind(mem: Seq<u8>, runs: Seq<Run>, va: int, data: Seq<u8>, a: int)
    requires
        !behind_runs(runs, a),
        forall|i: int| 0 <= i < runs.len() ==> (#[trigger] runs[i]).fits(mem.len()),
    ensures
        with_bytes(mem, runs, va, data).len() == mem.len(),
        0 <= a < mem.len() ==> with_bytes(mem, runs, va, data)[a] == mem[a],
    decreases data.len(),
{
    if data.len() > 0 {
        bytes_stay_behind(mem, runs, va, data.drop_last(), a);
        home_is_behind(runs, va + data.len() - 1);
        home_found(runs, va + data.len() - 1, mem.len());
    }
}

pub proof fn segments_stay_behind(
    mem: Seq<u8>,
    runs: Seq<Run>,
    bytes: Seq<u8>,
    segs: Seq<Segment>,
    a: int,
)
    requires
        !behind_runs(runs, a),
        forall|i: int| 0 <= i < runs.len() ==> (#[trigger] runs[i]).fits(mem.len()),
    ensures
        with_segments(mem, runs, bytes, segs).len() == mem.len(),
        0 <= a < mem.len() ==> with_segments(mem, runs, bytes, segs)[a] == mem[a],
    decreases segs.len(),
{
    if segs.len() > 0 {
        segments_stay_behind(mem, runs, bytes, segs.drop_last(), a);
        let s = segs.last();
        bytes_stay_behind(
            with_segments(mem, runs, bytes, segs.drop_last()),
            runs,
            s.vaddr as int,
            bytes.subrange(s.offset as int, s.offset + s.file_size),
            a,
        );
    }
}

/// Filling in the contents leaves the tables alone.
proof fn contents_keep_ready(
    fa: FrameAllocator<'_>,
    m0: Seq<u8>,
    m1: Seq<u8>,
    root: int,
    placed: Seq<Run>,
    s: State<'_>,
)
    requires
        s.frames == Some(fa),
        s.mem == m0,
        crate::paging::ready(fa, m0, root),
        runs_plain(placed, s, root),
        runs_aligned(placed),
        m1.len() == m0.len(),
        forall|a: int| 0 <= a < m0.len() && !behind_runs(placed, a) ==> #[trigger] m1[a] == m0[a],
    ensures
        crate::paging::ready(fa, m1, root),
        crate::paging::same_lookups(m0, m1, root),
{
    assert forall|p: Seq<int>, a: int|
        #![trigger crate::tables::is_table(m0, root, p), m1[a]]
        crate::tables::is_table(m0, root, p) && crate::tables::table_at(m0, root, p)->Some_0 <= a
            < crate::tables::table_at(m0, root, p)->Some_0 + 4096 implies m1[a] == m0[a] by {
        let t = crate::tables::table_at(m0, root, p)->Some_0;
        if behind_runs(placed, a) {
            let i = choose|i: int|
                0 <= i < placed.len() && (#[trigger] placed[i]).phys <= a < placed[i].phys
                    + placed[i].pages * 4096;
            let f = a / 4096;
            assert(placed[i].phys % 4096 == 0);
            assert(placed[i].phys as int / 4096 <= f < placed[i].phys as int / 4096
                + placed[i].pages);
            assert(plain(s.frames->Some_0, s.mem, root, f));
            assert(4096 * f == t);
            assert(crate::tables::has_table(m0, root, t));
        }
    }
    crate::spaces::elsewhere_kept(m0, m1, root);
    assert forall|p: Seq<int>| #[trigger] crate::tables::is_table(m1, root, p) implies !fa.free(
        crate::tables::table_at(m1, root, p)->Some_0 / 4096,
    ) by {
        assert(crate::tables::table_at(m1, root, p) == crate::tables::table_at(m0, root, p));
        assert(crate::tables::is_table(m0, root, p));
    }
}

/// What is known of the runs once they are mapped.
pub proof fn runs_mapped_facts(
    trace: Seq<State<'_>>,
    s0: State<'_>,
    s1: State<'_>,
    p: NodeId,
    space: NodeId,
    lo: int,
    runs: Seq<PageRun>,
    placed: Seq<Run>,
    r: Result<(), SpawnError>,
)
    requires
        runs_mapped(trace, s0, s1, p, space, lo, runs, placed, r),
    ensures
        trace.last() == s1,
        r is Ok ==> placed.len() == runs.len(),
        placed.len() <= runs.len(),
        forall|k: int|
            0 <= k < placed.len() ==> (#[trigger] placed[k]).vaddr == lo + runs[k].start * 4096
                && placed[k].pages == runs[k].pages && placed[k].fits(s0.mem.len()),
{
    reveal(runs_mapped);
}

/// Map an image's segments, and copy their contents in.
///
/// A page's protection is the union of every segment that touches it, and
/// consecutive pages sharing a protection become one mapping. That does mean a
/// page holding both read-only and writable data ends up writable; a real
/// dynamic loader makes exactly the same trade, for exactly this reason.
pub fn load_segments(
    g: &mut Graph,
    mem: &mut [u8],
    frames: &mut Option<FrameAllocator<'_>>,
    p: Ref<Process>,
    space: Ref<AddressSpace>,
    image: &Image<'_>,
) -> (r: Result<(), SpawnError>)
    requires
        image.wf(),
        image.fits(),
        loadable(State { g: *old(g), mem: old(mem)@, frames: *old(frames) }, space.id()),
        old(g).seq < u64::MAX - 64,
    ensures
        loadable(State { g: *final(g), mem: final(mem)@, frames: *final(frames) }, space.id()),
        final(g).seq <= old(g).seq + 48,
        final(mem)@.len() == old(mem)@.len(),
        loaded(
            State { g: *old(g), mem: old(mem)@, frames: *old(frames) },
            State { g: *final(g), mem: final(mem)@, frames: *final(frames) },
            *image,
            p.id(),
            space.id(),
            r,
        ),
        final(g)@.since(old(g)@),
{
    let ghost s0 = State { g: *g, mem: mem@, frames: *frames };
    let ghost root = crate::vm::root_in(g@, space.id());
    let segs = image.segments();
    let (lo, hi): (u64, u64) = match image.span() {
        Ok(x) => x,
        Err(e) => return Err(SpawnError::Elf(e)),
    };
    proof {
        crate::elf::span_holds_all(segs@);
        assert forall|i: int| 0 <= i < segs@.len() implies (#[trigger] segs@[i]).fits() by {
            assert(image.spec_segments()[i].fits());
        }
        assert(segs@[0].low() <= segs@[0].high());
    }
    let total: u64 = (hi - lo) / 4096;
    if total > MAX_IMAGE_PAGES as u64 {
        return Err(SpawnError::ImageTooLarge);
    }
    assert(lo + total * 4096 == hi);
    let prot = page_prots(&segs, lo, total as usize);
    let runs = page_runs(&prot);
    proof {
        assert forall|i: int| 0 <= i < runs@.len() implies (#[trigger] runs@[i]).pages
            <= MAX_IMAGE_PAGES && lo + runs@[i].end() * 4096 <= u64::MAX by {
            assert(runs@[i].fits(prot@));
        }
    }
    let (placed, done): (Vec<Run>, Result<(), SpawnError>) = map_runs(
        g,
        mem,
        frames,
        p,
        space,
        lo,
        &runs,
    );
    let ghost mid = State { g: *g, mem: mem@, frames: *frames };
    let ghost trace = choose|t: Seq<State<'_>>| #[trigger]
        runs_mapped(t, s0, mid, p.id(), space.id(), lo as int, runs@, placed@, done);
    let ghost want = Seq::new(
        image_pages(segs@) as nat,
        |q: int| crate::proc::page_prot(segs@, lo as int, q),
    );
    proof {
        assert(runs_mapped(trace, s0, mid, p.id(), space.id(), lo as int, runs@, placed@, done));
        runs_mapped_facts(trace, s0, mid, p.id(), space.id(), lo as int, runs@, placed@, done);
        assert(prot@ =~= want);
    }
    match done {
        Err(e) => {
            proof {
                assert(loaded_through(
                    s0,
                    mid,
                    *image,
                    p.id(),
                    space.id(),
                    Err::<(), SpawnError>(e),
                    runs@,
                    placed@,
                    trace,
                ));
            }
            return Err(e);
        },
        Ok(_) => {},
    }
    proof {
        assert forall|i: int| 0 <= i < placed@.len() implies (#[trigger] placed@[i]).fits(
            mem@.len(),
        ) by {}
        assert forall|i: int| 0 <= i < segs@.len() implies all_home(
            placed@,
            (#[trigger] segs@[i]).vaddr as int,
            segs@[i].file_size as int,
        ) by {
            crate::elf::segments_in_file(*image, image.ph_count as int, i);
            runs_hold_segments(segs@, lo as int, prot@, runs@, placed@, mem@.len(), i);
        }
    }
    let ghost m1 = mem@;
    // Now the contents, placed by address rather than by segment order.
    match place_segments(mem, &placed, image, &segs) {
        Ok(_) => {},
        Err(e) => return Err(e),
    }
    proof {
        if mid.frames is Some {
            let fa = mid.frames->Some_0;
            assert forall|a: int| 0 <= a < m1.len() && !behind_runs(
                placed@,
                a,
            ) implies #[trigger] mem@[a] == m1[a] by {
                segments_stay_behind(m1, placed@, image.bytes@, segs@, a);
            }
            contents_keep_ready(fa, m1, mem@, root, placed@, mid);
        }
        assert(loaded_through(
            s0,
            State { g: *g, mem: mem@, frames: *frames },
            *image,
            p.id(),
            space.id(),
            done,
            runs@,
            placed@,
            trace,
        ));
    }
    done
}

} // verus!
