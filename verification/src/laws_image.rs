//! A loaded image, seen through the space it was loaded into: every byte of the
//! file where the file says, zeroes where it says nothing, and every page
//! allowing what its segments ask for.

use vstd::prelude::*;

use crate::body::MemoryObject;
use crate::edge::{EdgeAttr, MapsAttr};
use crate::elf::{Image, Segment};
use crate::frames::FrameAllocator;
use crate::graph::{Graph, Ref};
use crate::id::{EdgeId, EdgeKind, NodeId};
use crate::load::{Run, State};
use crate::proc::{PageRun, SpawnError};
use crate::view::GraphView;
use crate::vm::VmError;

verus! {

// ---------------------------------------------------------------------- runs ---

impl GraphView {
    /// The space maps memory at a physical address.
    pub open spec fn mapped_over(self, s: NodeId, attr: MapsAttr, phys: u64) -> bool {
        exists|e: u32| #[trigger]
            self.edges.contains_key(e) && self.edges[e].kind == EdgeKind::Maps && self.edges[e].src
                == s && self.maps(e) == attr && self.nodes.contains_key(self.edges[e].dst)
                && self.nodes[self.edges[e].dst].body is MemoryObject && self.memobj(
                self.edges[e].dst,
            ).phys_base == phys
    }

    /// What backs a mapping still does.
    pub open spec fn backing_kept(self, o: GraphView, s: NodeId) -> bool {
        forall|attr: MapsAttr, phys: u64| #[trigger]
            o.mapped_over(s, attr, phys) ==> self.mapped_over(s, attr, phys)
    }
}

/// An object that is made leaves every mapping backed as it was.
proof fn making_keeps_backing(
    g0: Graph,
    g1: Graph,
    owner: NodeId,
    body: MemoryObject,
    r: Result<Ref<MemoryObject>, crate::graph::GraphError>,
    s: NodeId,
)
    requires
        g1.created(g0, owner, body, r),
        r is Ok,
    ensures
        g1@.backing_kept(g0@, s),
        g1@.nodes.contains_key(r->Ok_0.id()),
        g1@.nodes[r->Ok_0.id()].body == crate::body::Body::MemoryObject(body),
        forall|n: NodeId| #[trigger]
            g0@.nodes.contains_key(n) ==> g1@.nodes.contains_key(n) && g1@.nodes[n].body
                == g0@.nodes[n].body,
{
    let (v, w) = (g0@, g1@);
    assert forall|attr: MapsAttr, phys: u64| #[trigger] v.mapped_over(s, attr, phys) implies w.mapped_over(
        s,
        attr,
        phys,
    ) by {
        let e = choose|e: u32| #[trigger]
            v.edges.contains_key(e) && v.edges[e].kind == EdgeKind::Maps && v.edges[e].src == s
                && v.maps(e) == attr && v.nodes.contains_key(v.edges[e].dst)
                && v.nodes[v.edges[e].dst].body is MemoryObject && v.memobj(v.edges[e].dst).phys_base
                == phys;
        assert(w.edges.contains_key(e) && w.edges[e] == v.edges[e]);
        assert(w.nodes.contains_key(v.edges[e].dst));
    }
}

/// A mapping that is made is backed by its object, and the others still are by
/// theirs.
proof fn mapping_keeps_backing(v: GraphView, s: NodeId, m: NodeId, attr: MapsAttr, e: EdgeId)
    requires
        v.wf(),
        v.nodes.contains_key(m),
        v.nodes[m].body is MemoryObject,
        !v.edges.contains_key(e.idx()),
        s.kind() == Some(crate::id::NodeKind::AddressSpace),
    ensures
        v.mapped(s, m, attr, e).backing_kept(v, s),
        v.mapped(s, m, attr, e).mapped_over(s, attr, v.memobj(m).phys_base),
{
    let w = v.mapped(s, m, attr, e);
    attr.round_trip();
    assert(v.node_ok(m));
    assert(m != s);
    assert(w.edges.contains_key(e.idx()));
    assert(w.maps(e.idx()) == attr);
    assert forall|a: MapsAttr, phys: u64| #[trigger] v.mapped_over(s, a, phys) implies w.mapped_over(
        s,
        a,
        phys,
    ) by {
        let x = choose|x: u32| #[trigger]
            v.edges.contains_key(x) && v.edges[x].kind == EdgeKind::Maps && v.edges[x].src == s
                && v.maps(x) == a && v.nodes.contains_key(v.edges[x].dst)
                && v.nodes[v.edges[x].dst].body is MemoryObject && v.memobj(v.edges[x].dst).phys_base
                == phys;
        assert(w.edges.contains_key(x) && w.edges[x] == v.edges[x]);
        let d = v.edges[x].dst;
        assert(v.node_ok(d));
        assert(d != s);
    }
}

/// One run that was mapped: its memory was free, is now zero and the space's,
/// and what was in use is as it was.
#[verifier::rlimit(40)]
#[verifier::spinoff_prover]
proof fn a_run_comes(
    s0: State<'_>,
    s1: State<'_>,
    p: NodeId,
    space: NodeId,
    attr: MapsAttr,
    phys: u64,
)
    requires
        crate::load::loadable(s0, space),
        s1.g.wf(),
        space.kind() == Some(crate::id::NodeKind::AddressSpace),
        crate::load::run_mapped(s0, s1, p, space, attr, Ok::<u64, SpawnError>(phys)),
    ensures
        crate::load::loadable(s1, space),
        crate::vm::root_in(s1.g@, space) == crate::vm::root_in(s0.g@, space),
        s1.mem.len() == s0.mem.len(),
        s0.frames is Some && s1.frames is Some,
        phys % 4096 == 0,
        phys + attr.len_pages * 4096 <= s0.mem.len(),
        s1.g@.mapped_over(space, attr, phys),
        s1.g@.backing_kept(s0.g@, space),
        ({
            let root = crate::vm::root_in(s0.g@, space);
            &&& forall|f: int|
                phys as int / 4096 <= f < phys as int / 4096 + attr.len_pages
                    ==> s0.frames->Some_0.free(f) && #[trigger] crate::load::plain(
                    s1.frames->Some_0,
                    s1.mem,
                    root,
                    f,
                )
            &&& crate::load::plain_kept(s0, s1, root)
            &&& forall|a: int|
                phys <= a < phys + attr.len_pages * 4096 ==> #[trigger] s1.mem[a] == 0
            &&& forall|a: int|
                0 <= a < s0.mem.len() && crate::load::plain(
                    s0.frames->Some_0,
                    s0.mem,
                    root,
                    a / 4096,
                ) ==> #[trigger] s1.mem[a] == s0.mem[a]
        }),
{
    let r = Ok::<u64, SpawnError>(phys);
    let root = crate::vm::root_in(s0.g@, space);
    let (mid, ro) = choose|
        mid: (Graph, Option<FrameAllocator<'_>>),
        ro: Result<Ref<MemoryObject>, VmError>,
    | #[trigger]
        crate::load::run_mapped_through(s0, s1, p, space, attr, r, mid, ro);
    let obj = ro->Ok_0;
    let fa = s0.frames->Some_0;
    let at = choose|at: u64| #[trigger]
        crate::vm::object_made_at(s0.g, fa, mid.0, mid.1, p, attr.len_pages, ro, at);
    let fresh = crate::vm::fresh_object(at, attr.len_pages);
    let v1 = mid.0@;
    making_keeps_backing(s0.g, mid.0, p, fresh, crate::vm::graph_answer(ro), space);
    assert(v1.memobj(obj.id()) == fresh);
    let c = crate::mem::overwritten(
        s0.mem,
        at as int,
        crate::edge::zeros((attr.len_pages * 4096) as nat),
    );
    let rm = choose|rm: Result<EdgeId, VmError>| #[trigger]
        crate::vm::map_done(
            mid.0,
            c,
            mid.1,
            s1.g,
            s1.mem,
            s1.frames,
            space,
            obj.id(),
            attr,
            rm,
        ) && r == match rm {
            Ok(_) => Ok::<u64, SpawnError>(at),
            Err(e) => Err::<u64, SpawnError>(SpawnError::Vm(e)),
        };
    let fb = mid.1->Some_0;
    assert(at == phys);
    assert(s0.g@.nodes.contains_key(space));
    assert(crate::vm::root_in(v1, space) == root);
    assert(fa.fits(at as int / 4096, attr.len_pages as int));
    cleared_frames(fa, fb, s0.mem, c, root, at, attr.len_pages as int);
    crate::load::map_done_loadable(
        mid.0,
        c,
        mid.1,
        s1.g,
        s1.mem,
        s1.frames,
        space,
        obj.id(),
        attr,
        rm,
    );
    mapping_keeps_backing(v1, space, obj.id(), attr, mid.0.next_edge());
    let fc = s1.frames->Some_0;
    let way = crate::paging::toward_run(attr.vaddr, attr.len_pages as int);
    assert forall|a: int|
        0 <= a < s0.mem.len() && crate::load::plain(fb, c, root, a / 4096) implies #[trigger] s1.mem[a]
        == c[a] by {
        plain_bytes_stay(c, fb, s1.mem, fc, root, way, a);
    }
    assert forall|a: int| phys <= a < phys + attr.len_pages * 4096 implies #[trigger] s1.mem[a]
        == 0 by {
        assert(crate::load::plain(fb, c, root, a / 4096));
        assert(c[a] == 0);
    }
    assert forall|a: int|
        0 <= a < s0.mem.len() && crate::load::plain(fa, s0.mem, root, a / 4096) implies #[trigger] s1.mem[a]
        == s0.mem[a] by {
        assert(crate::load::plain(fb, c, root, a / 4096));
        if phys <= a < phys + attr.len_pages * 4096 {
            assert(fa.free(a / 4096));
        }
    }
    assert forall|f: int|
        phys as int / 4096 <= f < phys as int / 4096 + attr.len_pages implies fa.free(f)
        && #[trigger] crate::load::plain(fc, s1.mem, root, f) by {
        assert(crate::load::plain(fb, c, root, f));
    }
    assert forall|f: int| crate::load::plain(fa, s0.mem, root, f) implies #[trigger] crate::load::plain(
        fc,
        s1.mem,
        root,
        f,
    ) by {
        assert(crate::load::plain(fb, c, root, f));
    }
    assert forall|x: MapsAttr, y: u64| #[trigger] s0.g@.mapped_over(space, x, y) implies s1.g@.mapped_over(
        space,
        x,
        y,
    ) by {
        assert(v1.mapped_over(space, x, y));
    }
}

/// Frames that were taken and cleared are in use, and no table; what was so
/// still is.
proof fn cleared_frames(
    fa: FrameAllocator<'_>,
    fb: FrameAllocator<'_>,
    m0: Seq<u8>,
    c: Seq<u8>,
    root: int,
    at: u64,
    n: int,
)
    requires
        crate::paging::ready(fa, m0, root),
        fb.wf(),
        fb.same_shape(fa),
        at % 4096 == 0,
        at + n * 4096 <= m0.len(),
        n >= 0,
        c == crate::mem::overwritten(m0, at as int, crate::edge::zeros((n * 4096) as nat)),
        fa.fits(at as int / 4096, n),
        forall|f: int| #[trigger]
            fb.free(f) <==> fa.free(f) && !(at as int / 4096 <= f < at as int / 4096 + n),
    ensures
        crate::paging::ready(fb, c, root),
        forall|f: int|
            at as int / 4096 <= f < at as int / 4096 + n ==> fa.free(f) && #[trigger] crate::load::plain(
                fb,
                c,
                root,
                f,
            ),
        forall|f: int|
            crate::load::plain(fa, m0, root, f) ==> #[trigger] crate::load::plain(fb, c, root, f),
{
    assert forall|a: int| 0 <= a < m0.len() && !fa.free(a / 4096) implies #[trigger] c[a]
        == m0[a] by {
        if at <= a < at + n * 4096 {
            assert(fa.free(a / 4096));
        }
    }
    crate::load::ready_after_taking(fa, fb, m0, c, root);
    assert forall|f: int| crate::load::plain(fa, m0, root, f) implies #[trigger] crate::load::plain(
        fb,
        c,
        root,
        f,
    ) by {
        assert(crate::tables::has_table(c, root, 4096 * f) ==> crate::tables::has_table(
            m0,
            root,
            4096 * f,
        ));
    }
    assert forall|f: int|
        at as int / 4096 <= f < at as int / 4096 + n implies fa.free(f) && #[trigger] crate::load::plain(
        fb,
        c,
        root,
        f,
    ) by {
        assert(fa.free(f));
        assert(!fb.free(f));
        if crate::tables::has_table(c, root, 4096 * f) {
            assert(crate::tables::has_table(m0, root, 4096 * f));
            assert((4096 * f) / 4096 == f);
        }
    }
}

/// Adding tables leaves a frame alone that is in use, and no table.
proof fn plain_bytes_stay(
    m0: Seq<u8>,
    f0: FrameAllocator<'_>,
    m1: Seq<u8>,
    f1: FrameAllocator<'_>,
    root: int,
    way: spec_fn(Seq<int>) -> bool,
    a: int,
)
    requires
        crate::paging::grown(m0, f0, m1, f1, root, way),
        0 <= a < m0.len(),
        crate::load::plain(f0, m0, root, a / 4096),
    ensures
        m1[a] == m0[a],
{
    reveal(crate::paging::grown);
    let t = a / 4096 * 4096;
    if crate::paging::touched(m0, root, way, t) {
        let q = choose|q: Seq<int>| #[trigger]
            crate::tables::is_table(m0, root, q) && (q.len() == 0 || way(q))
                && crate::tables::table_at(m0, root, q) == Some(t);
        assert(crate::tables::has_table(m0, root, 4096 * (a / 4096)));
    }
}

/// All the runs: each is the space's, zero, and apart from the others.
pub open spec fn runs_stand(
    s: State<'_>,
    space: NodeId,
    lo: int,
    runs: Seq<PageRun>,
    placed: Seq<Run>,
    k: int,
) -> bool {
    &&& forall|i: int|
        0 <= i < k ==> s.g@.mapped_over(
            space,
            crate::load::run_attr(lo, runs[i]),
            (#[trigger] placed[i]).phys,
        )
    &&& forall|i: int, a: int|
        #![trigger placed[i], s.mem[a]]
        0 <= i < k && placed[i].phys <= a < placed[i].phys + placed[i].pages * 4096 ==> s.mem[a]
            == 0
    &&& apart(placed, k)
}

/// The memory of no two runs meets.
pub open spec fn apart(placed: Seq<Run>, k: int) -> bool {
    forall|i: int, j: int|
        0 <= i < j < k ==> {
            ||| (#[trigger] placed[i]).phys + placed[i].pages * 4096 <= (#[trigger] placed[j]).phys
            ||| placed[j].phys + placed[j].pages * 4096 <= placed[i].phys
        }
}

/// The same, and more that one run after the other keeps.
pub open spec fn runs_hold_on(
    s: State<'_>,
    space: NodeId,
    lo: int,
    runs: Seq<PageRun>,
    placed: Seq<Run>,
    k: int,
    root: int,
    len: nat,
) -> bool {
    &&& crate::load::loadable(s, space)
    &&& crate::vm::root_in(s.g@, space) == root
    &&& s.mem.len() == len
    &&& k > 0 ==> s.frames is Some
    &&& runs_stand(s, space, lo, runs, placed, k)
    &&& forall|i: int| 0 <= i < k ==> (#[trigger] placed[i]).phys % 4096 == 0
    &&& forall|i: int, f: int|
        #![trigger placed[i], crate::load::plain(s.frames->Some_0, s.mem, root, f)]
        0 <= i < k && placed[i].phys as int / 4096 <= f < placed[i].phys as int / 4096
            + placed[i].pages ==> crate::load::plain(s.frames->Some_0, s.mem, root, f)
}

/// One run more.
#[verifier::spinoff_prover]
#[verifier::rlimit(40)]
proof fn one_run_more(
    a: State<'_>,
    b: State<'_>,
    p: NodeId,
    space: NodeId,
    lo: int,
    runs: Seq<PageRun>,
    placed: Seq<Run>,
    k: int,
    root: int,
    len: nat,
)
    requires
        0 <= k < placed.len(),
        k < runs.len(),
        runs_hold_on(a, space, lo, runs, placed, k, root, len),
        b.g.wf(),
        space.kind() == Some(crate::id::NodeKind::AddressSpace),
        crate::load::run_mapped(
            a,
            b,
            p,
            space,
            crate::load::run_attr(lo, runs[k]),
            Ok::<u64, SpawnError>(placed[k].phys),
        ),
        forall|i: int| 0 <= i <= k ==> (#[trigger] placed[i]).fits(len) && placed[i].pages > 0,
        placed[k].pages == runs[k].pages,
        runs[k].pages <= 2048,
    ensures
        runs_hold_on(b, space, lo, runs, placed, k + 1, root, len),
{
    let attr = crate::load::run_attr(lo, runs[k]);
    let run = placed[k];
    assert(attr.len_pages == run.pages);
    a_run_comes(a, b, p, space, attr, run.phys);
    assert forall|i: int, f: int|
        #![trigger placed[i], crate::load::plain(b.frames->Some_0, b.mem, root, f)]
        0 <= i < k + 1 && placed[i].phys as int / 4096 <= f < placed[i].phys as int / 4096
            + placed[i].pages implies crate::load::plain(b.frames->Some_0, b.mem, root, f) by {
        if i < k {
            assert(crate::load::plain(a.frames->Some_0, a.mem, root, f));
        }
    }
    assert forall|i: int| 0 <= i < k + 1 implies b.g@.mapped_over(
        space,
        crate::load::run_attr(lo, runs[i]),
        (#[trigger] placed[i]).phys,
    ) by {
        if i < k {
            assert(a.g@.mapped_over(space, crate::load::run_attr(lo, runs[i]), placed[i].phys));
        }
    }
    assert forall|i: int, x: int|
        #![trigger placed[i], b.mem[x]]
        0 <= i < k + 1 && placed[i].phys <= x < placed[i].phys + placed[i].pages
            * 4096 implies b.mem[x] == 0 by {
        if i < k {
            assert(placed[i].phys % 4096 == 0);
            assert(placed[i].fits(len));
            let f = x / 4096;
            assert(placed[i].phys as int / 4096 <= f < placed[i].phys as int / 4096
                + placed[i].pages);
            assert(crate::load::plain(a.frames->Some_0, a.mem, root, f));
            assert(a.mem[x] == 0);
        }
    }
    assert forall|i: int, j: int| 0 <= i < j < k + 1 implies {
        ||| (#[trigger] placed[i]).phys + placed[i].pages * 4096 <= (#[trigger] placed[j]).phys
        ||| placed[j].phys + placed[j].pages * 4096 <= placed[i].phys
    } by {
        if j == k {
            assert(placed[i].phys % 4096 == 0);
            assert(placed[i].fits(len) && placed[j].fits(len));
            assert forall|f: int|
                placed[i].phys as int / 4096 <= f < placed[i].phys as int / 4096
                    + placed[i].pages implies #[trigger] crate::load::plain(
                a.frames->Some_0,
                a.mem,
                root,
                f,
            ) by {}
            assert forall|f: int|
                run.phys as int / 4096 <= f < run.phys as int / 4096 + run.pages implies
                #[trigger] a.frames->Some_0.free(f) by {
                assert(crate::load::plain(b.frames->Some_0, b.mem, root, f));
            }
            runs_do_not_meet(placed[i], run, a.frames->Some_0, a.mem, root);
        }
    }
}

proof fn the_runs_stand(
    trace: Seq<State<'_>>,
    s0: State<'_>,
    s1: State<'_>,
    p: NodeId,
    space: NodeId,
    lo: int,
    runs: Seq<PageRun>,
    placed: Seq<Run>,
    k: int,
)
    requires
        crate::load::runs_mapped(
            trace,
            s0,
            s1,
            p,
            space,
            lo,
            runs,
            placed,
            Ok::<(), SpawnError>(()),
        ),
        crate::load::loadable(s0, space),
        space.kind() == Some(crate::id::NodeKind::AddressSpace),
        forall|i: int| 0 <= i < runs.len() ==> 0 < (#[trigger] runs[i]).pages <= 2048,
        0 <= k <= placed.len(),
    ensures
        k < trace.len(),
        runs_hold_on(
            trace[k],
            space,
            lo,
            runs,
            placed,
            k,
            crate::vm::root_in(s0.g@, space),
            s0.mem.len(),
        ),
    decreases k,
{
    reveal(crate::load::runs_mapped);
    let root = crate::vm::root_in(s0.g@, space);
    if k > 0 {
        the_runs_stand(trace, s0, s1, p, space, lo, runs, placed, k - 1);
        assert(crate::load::run_ok(
            trace[k - 1],
            trace[k - 1 + 1],
            p,
            space,
            lo,
            runs[k - 1],
            placed[k - 1].phys,
        ));
        assert forall|i: int| 0 <= i <= k - 1 implies (#[trigger] placed[i]).fits(s0.mem.len())
            && placed[i].pages > 0 by {
            assert(runs[i].pages > 0);
        }
        assert(runs[k - 1].pages <= 2048);
        one_run_more(
            trace[k - 1],
            trace[k],
            p,
            space,
            lo,
            runs,
            placed,
            k - 1,
            root,
            s0.mem.len(),
        );
    }
}

/// Memory that was free is apart from memory in use.
proof fn runs_do_not_meet(x: Run, y: Run, fa: FrameAllocator<'_>, mem: Seq<u8>, root: int)
    requires
        x.phys % 4096 == 0,
        y.phys % 4096 == 0,
        x.pages > 0,
        y.pages > 0,
        forall|f: int|
            x.phys as int / 4096 <= f < x.phys as int / 4096 + x.pages ==> #[trigger] crate::load::plain(
                fa,
                mem,
                root,
                f,
            ),
        forall|f: int|
            y.phys as int / 4096 <= f < y.phys as int / 4096 + y.pages ==> #[trigger] fa.free(f),
    ensures
        x.phys + x.pages * 4096 <= y.phys || y.phys + y.pages * 4096 <= x.phys,
{
    let (i, j) = (x.phys as int / 4096, y.phys as int / 4096);
    if x.phys + x.pages * 4096 > y.phys && y.phys + y.pages * 4096 > x.phys {
        let f = if i < j {
            j
        } else {
            i
        };
        assert(crate::load::plain(fa, mem, root, f));
        assert(fa.free(f));
    }
}

// ------------------------------------------------------------------ contents ---

/// Where the runs put an address.
proof fn home_is_in_a_run(placed: Seq<Run>, x: int) -> (i: int)
    requires
        crate::load::home(placed, x) is Some,
    ensures
        0 <= i < placed.len(),
        placed[i].vaddr <= x < placed[i].vaddr + placed[i].pages * 4096,
        crate::load::home(placed, x) == Some(placed[i].phys + (x - placed[i].vaddr)),
    decreases placed.len(),
{
    let r = placed.drop_last();
    if crate::load::home(r, x) is Some {
        home_is_in_a_run(r, x)
    } else {
        placed.len() - 1
    }
}

/// No two addresses are put at one place, if no two runs share memory or
/// addresses.
proof fn homes_differ(placed: Seq<Run>, x: int, y: int)
    requires
        apart(placed, placed.len() as int),
        crate::load::home(placed, x) is Some,
        crate::load::home(placed, x) == crate::load::home(placed, y),
    ensures
        x == y,
{
    let i = home_is_in_a_run(placed, x);
    let j = home_is_in_a_run(placed, y);
}

/// What is written at an address is what is at its place, and elsewhere is
/// what was.
proof fn bytes_are_placed(mem: Seq<u8>, placed: Seq<Run>, va: int, data: Seq<u8>, x: int)
    requires
        apart(placed, placed.len() as int),
        forall|i: int| 0 <= i < placed.len() ==> (#[trigger] placed[i]).fits(mem.len()),
        crate::load::home(placed, x) is Some,
    ensures
        crate::load::with_bytes(mem, placed, va, data).len() == mem.len(),
        ({
            let a = crate::load::home(placed, x)->Some_0;
            crate::load::with_bytes(mem, placed, va, data)[a] == if va <= x < va + data.len() {
                data[x - va]
            } else {
                mem[a]
            }
        }),
    decreases data.len(),
{
    crate::load::home_found(placed, x, mem.len());
    if data.len() > 0 {
        bytes_are_placed(mem, placed, va, data.drop_last(), x);
        let y = va + data.len() - 1;
        crate::load::home_found(placed, y, mem.len());
        if crate::load::home(placed, y) is Some && crate::load::home(placed, y)
            == crate::load::home(placed, x) {
            homes_differ(placed, x, y);
        }
    }
}

/// The file has a byte for the address in the segment.
pub open spec fn in_file(s: Segment, x: int) -> bool {
    s.vaddr <= x < s.vaddr + s.file_size
}

/// The last segment with a byte for an address decides it; with none it is
/// what it was.
proof fn segments_are_placed(mem: Seq<u8>, placed: Seq<Run>, bytes: Seq<u8>, segs: Seq<Segment>, x: int)
    requires
        apart(placed, placed.len() as int),
        forall|i: int| 0 <= i < placed.len() ==> (#[trigger] placed[i]).fits(mem.len()),
        crate::load::home(placed, x) is Some,
        forall|i: int|
            0 <= i < segs.len() ==> (#[trigger] segs[i]).offset + segs[i].file_size <= bytes.len(),
    ensures
        crate::load::with_segments(mem, placed, bytes, segs).len() == mem.len(),
        ({
            let a = crate::load::home(placed, x)->Some_0;
            let m = crate::load::with_segments(mem, placed, bytes, segs);
            &&& (forall|i: int| 0 <= i < segs.len() ==> !in_file(#[trigger] segs[i], x)) ==> m[a]
                == mem[a]
            &&& forall|i: int|
                0 <= i < segs.len() && in_file(#[trigger] segs[i], x) && (forall|j: int|
                    i < j < segs.len() ==> !in_file(#[trigger] segs[j], x)) ==> m[a]
                    == bytes[segs[i].offset + (x - segs[i].vaddr)]
        }),
    decreases segs.len(),
{
    let a = crate::load::home(placed, x)->Some_0;
    if segs.len() > 0 {
        let r = segs.drop_last();
        let s = segs.last();
        assert forall|i: int| 0 <= i < r.len() implies (#[trigger] r[i]).offset + r[i].file_size
            <= bytes.len() by {
            assert(segs[i] == r[i]);
        }
        segments_are_placed(mem, placed, bytes, r, x);
        let m = crate::load::with_segments(mem, placed, bytes, r);
        let data = bytes.subrange(s.offset as int, s.offset + s.file_size);
        assert(segs[segs.len() - 1] == s);
        bytes_are_placed(m, placed, s.vaddr as int, data, x);
        let w = crate::load::with_segments(mem, placed, bytes, segs);
        if forall|i: int| 0 <= i < segs.len() ==> !in_file(#[trigger] segs[i], x) {
            assert forall|i: int| 0 <= i < r.len() implies !in_file(#[trigger] r[i], x) by {
                assert(segs[i] == r[i]);
            }
            assert(!in_file(segs[segs.len() - 1], x));
        }
        assert forall|i: int|
            0 <= i < segs.len() && in_file(#[trigger] segs[i], x) && (forall|j: int|
                i < j < segs.len() ==> !in_file(#[trigger] segs[j], x)) implies w[a]
            == bytes[segs[i].offset + (x - segs[i].vaddr)] by {
            if i < r.len() {
                assert(!in_file(segs[segs.len() - 1], x));
                assert(in_file(r[i], x));
                assert forall|j: int| i < j < r.len() implies !in_file(#[trigger] r[j], x) by {
                    assert(segs[j] == r[j]);
                }
            }
        }
    }
}

// ---------------------------------------------------------------- protection ---

/// Some segment that reaches into the page of an address asks for this.
pub open spec fn asked_for(segs: Seq<Segment>, x: int, flag: u32) -> bool {
    exists|i: int|
        0 <= i < segs.len() && reaches_page(#[trigger] segs[i], x) && segs[i].flags & flag == flag
}

/// The segment, rounded out to pages, reaches into the page of an address.
pub open spec fn reaches_page(s: Segment, x: int) -> bool {
    s.vaddr as int / 4096 <= x / 4096 && x / 4096 * 4096 < s.vaddr + s.mem_size
}

/// A page allows what some segment in it asks for, and no more: to be read for
/// the flag four, written for two, and run for one; and the user may always
/// get at it.
proof fn pages_allow_what_is_asked(segs: Seq<Segment>, lo: int, x: int)
    requires
        lo % 4096 == 0,
        lo <= x,
    ensures
        ({
            let b = crate::proc::page_prot(segs, lo, (x - lo) / 4096);
            &&& (b & 1 == 1) <==> asked_for(segs, x, 4)
            &&& (b & 2 == 2) <==> asked_for(segs, x, 2)
            &&& (b & 4 == 4) <==> asked_for(segs, x, 1)
            &&& (b & 8 == 8) <==> asked_for(segs, x, 0)
        }),
    decreases segs.len(),
{
    let p = (x - lo) / 4096;
    if segs.len() == 0 {
        assert(0u8 & 1 != 1 && 0u8 & 2 != 2 && 0u8 & 4 != 4 && 0u8 & 8 != 8) by (bit_vector);
    } else {
        let r = segs.drop_last();
        let s = segs.last();
        pages_allow_what_is_asked(r, lo, x);
        assert(lo + p * 4096 == x / 4096 * 4096);
        assert(crate::proc::touches(s, lo, p) <==> reaches_page(s, x));
        let old = crate::proc::page_prot(r, lo, p);
        let bits = crate::proc::spec_prot_of(s.flags).0;
        one_segment_asks(s.flags, old);
        one_more_asks(segs, x, 4);
        one_more_asks(segs, x, 2);
        one_more_asks(segs, x, 1);
        one_more_asks(segs, x, 0);
        let f = s.flags;
        assert(f & 0 == 0) by (bit_vector);
    }
}

proof fn one_more_asks(segs: Seq<Segment>, x: int, flag: u32)
    requires
        segs.len() > 0,
    ensures
        asked_for(segs, x, flag) <==> asked_for(segs.drop_last(), x, flag) || (reaches_page(
            segs.last(),
            x,
        ) && segs.last().flags & flag == flag),
{
    let r = segs.drop_last();
    if asked_for(r, x, flag) {
        let i = choose|i: int|
            0 <= i < r.len() && reaches_page(#[trigger] r[i], x) && r[i].flags & flag == flag;
        assert(segs[i] == r[i]);
    }
    if reaches_page(segs.last(), x) && segs.last().flags & flag == flag {
        assert(segs[segs.len() - 1] == segs.last());
    }
    if asked_for(segs, x, flag) {
        let i = choose|i: int|
            0 <= i < segs.len() && reaches_page(#[trigger] segs[i], x) && segs[i].flags & flag
                == flag;
        if i < r.len() {
            assert(r[i] == segs[i]);
        }
    }
}

proof fn one_segment_asks(f: u32, old: u8)
    ensures
        ({
            let b = crate::proc::spec_prot_of(f).0;
            let n = old | b;
            &&& (n & 1 == 1) <==> (old & 1 == 1) || f & 4 == 4
            &&& (n & 2 == 2) <==> (old & 2 == 2) || f & 2 == 2
            &&& (n & 4 == 4) <==> (old & 4 == 4) || f & 1 == 1
            &&& n & 8 == 8
        }),
{
    let r: u8 = if f & 4 != 0 {
        8u8 | 1
    } else {
        8
    };
    let w: u8 = if f & 2 != 0 {
        r | 2
    } else {
        r
    };
    let b: u8 = if f & 1 != 0 {
        w | 4
    } else {
        w
    };
    assert(b == crate::proc::spec_prot_of(f).0);
    assert({
        let r: u8 = if f & 4 != 0 {
            8u8 | 1
        } else {
            8
        };
        let w: u8 = if f & 2 != 0 {
            r | 2
        } else {
            r
        };
        let b: u8 = if f & 1 != 0 {
            w | 4
        } else {
            w
        };
        let n = old | b;
        &&& ((n & 1 == 1) <==> (old & 1 == 1) || f & 4 == 4)
        &&& ((n & 2 == 2) <==> (old & 2 == 2) || f & 2 == 2)
        &&& ((n & 4 == 4) <==> (old & 4 == 4) || f & 1 == 1)
        &&& n & 8 == 8
    }) by (bit_vector);
}

// --------------------------------------------------------------------- image ---

/// The space maps an address to a place in memory, allowing this.
pub open spec fn maps_to(v: GraphView, space: NodeId, x: int, a: int, prot: u8) -> bool {
    exists|attr: MapsAttr, phys: u64| #[trigger]
        v.mapped_over(space, attr, phys) && attr.vaddr <= x < attr.vaddr + attr.len_pages * 4096 && a
            == phys + attr.off_pages * 4096 + (x - attr.vaddr) && attr.prot.0 == prot
}

/// A loaded image is where its file says: at every address of a segment the
/// space maps a byte of memory. It is the file's where the file has one (the
/// last segment's, where several do) and zero where no segment has. Its page
/// allows reading, writing and running exactly as the segments that reach into
/// it ask, to the user.
#[verifier::spinoff_prover]
pub proof fn a_loaded_image_is_in_place(
    s0: State<'_>,
    s1: State<'_>,
    image: Image<'_>,
    p: NodeId,
    space: NodeId,
    i: int,
    x: int,
)
    requires
        crate::load::loadable(s0, space),
        space.kind() == Some(crate::id::NodeKind::AddressSpace),
        image.wf(),
        image.fits(),
        crate::load::loaded(s0, s1, image, p, space, Ok::<(), SpawnError>(())),
        0 <= i < image.spec_segments().len(),
        image.spec_segments()[i].vaddr <= x,
        x < image.spec_segments()[i].vaddr + image.spec_segments()[i].mem_size,
    ensures
        exists|a: int, prot: u8| #[trigger]
            maps_to(s1.g@, space, x, a, prot) && ({
                let segs = image.spec_segments();
                &&& 0 <= a < s1.mem.len()
                &&& in_file(segs[i], x) && (forall|j: int|
                    i < j < segs.len() ==> !in_file(#[trigger] segs[j], x)) ==> s1.mem[a]
                    == image.bytes@[segs[i].offset + (x - segs[i].vaddr)]
                &&& (forall|j: int| 0 <= j < segs.len() ==> !in_file(#[trigger] segs[j], x))
                    ==> s1.mem[a] == 0
                &&& (prot & 1 == 1) <==> asked_for(segs, x, 4)
                &&& (prot & 2 == 2) <==> asked_for(segs, x, 2)
                &&& (prot & 4 == 4) <==> asked_for(segs, x, 1)
                &&& prot & 8 == 8
            }),
{
    let segs = image.spec_segments();
    let (runs, placed, mid) = the_runs_of_an_image(s0, s1, image, p, space);
    let lo = crate::elf::lowest(segs);
    let h = the_run_of_an_address(segs, runs, placed, s0.mem.len(), i, x);
    let attr = crate::load::run_attr(lo, runs[h]);
    let a = placed[h].phys + (x - placed[h].vaddr);
    assert(mid.g@.mapped_over(space, attr, placed[h].phys));
    assert(placed[h].fits(s0.mem.len()));
    assert(runs[h].pages <= 2048);
    assert(maps_to(s1.g@, space, x, a, runs[h].prot));
    assert(mid.mem[a] == 0);
    segments_are_placed(mid.mem, placed, image.bytes@, segs, x);
    assert(maps_to(s1.g@, space, x, a, runs[h].prot) && 0 <= a < s1.mem.len());
}

/// The runs an image was loaded into.
proof fn the_runs_of_an_image<'a>(
    s0: State<'a>,
    s1: State<'a>,
    image: Image<'_>,
    p: NodeId,
    space: NodeId,
) -> (r: (Seq<PageRun>, Seq<Run>, State<'a>))
    requires
        crate::load::loadable(s0, space),
        space.kind() == Some(crate::id::NodeKind::AddressSpace),
        image.fits(),
        crate::load::loaded(s0, s1, image, p, space, Ok::<(), SpawnError>(())),
        image.spec_segments().len() > 0,
    ensures
        ({
            let segs = image.spec_segments();
            let lo = crate::elf::lowest(segs);
            let (runs, placed, mid) = r;
            &&& runs_stand(mid, space, lo, runs, placed, placed.len() as int)
            &&& mid.mem.len() == s0.mem.len()
            &&& s1.g == mid.g
            &&& s1.mem == crate::load::with_segments(mid.mem, placed, image.bytes@, segs)
            &&& runs_cover(segs, runs, placed, s0.mem.len())
            &&& forall|j: int|
                0 <= j < segs.len() ==> (#[trigger] segs[j]).offset + segs[j].file_size
                    <= image.bytes@.len()
        }),
{
    let segs = image.spec_segments();
    let ok = Ok::<(), SpawnError>(());
    let (runs, placed, trace) = choose|
        runs: Seq<PageRun>,
        placed: Seq<Run>,
        trace: Seq<State<'a>>,
    | #[trigger]
        crate::load::loaded_through(s0, s1, image, p, space, ok, runs, placed, trace);
    let lo = crate::elf::lowest(segs);
    let mid = trace.last();
    let prot = pages_of(segs);
    crate::load::runs_mapped_facts(trace, s0, mid, p, space, lo, runs, placed, ok);
    assert forall|k: int| 0 <= k < runs.len() implies 0 < (#[trigger] runs[k]).pages <= 2048 by {
        assert(runs[k].fits(prot));
    }
    the_runs_stand(trace, s0, mid, p, space, lo, runs, placed, placed.len() as int);
    assert(trace[placed.len() as int] == mid) by {
        reveal(crate::load::runs_mapped);
    }
    assert forall|j: int| 0 <= j < segs.len() implies (#[trigger] segs[j]).offset
        + segs[j].file_size <= image.bytes@.len() by {
        crate::elf::segments_in_file(image, image.ph_count as int, j);
    }
    assert forall|j: int| 0 <= j < segs.len() implies (#[trigger] segs[j]).fits() by {}
    (runs, placed, mid)
}

/// What each page of an image allows.
pub open spec fn pages_of(segs: Seq<Segment>) -> Seq<u8> {
    Seq::new(
        crate::load::image_pages(segs) as nat,
        |q: int| crate::proc::page_prot(segs, crate::elf::lowest(segs), q),
    )
}

/// The runs take in every page that is asked for, each once.
pub open spec fn runs_cover(segs: Seq<Segment>, runs: Seq<PageRun>, placed: Seq<Run>, len: nat) -> bool {
    let lo = crate::elf::lowest(segs);
    let prot = pages_of(segs);
    &&& forall|j: int| 0 <= j < segs.len() ==> (#[trigger] segs[j]).fits()
    &&& prot.len() <= 2048
    &&& crate::proc::runs_below(prot, runs, prot.len() as int)
    &&& placed.len() == runs.len()
    &&& forall|k: int|
        0 <= k < placed.len() ==> (#[trigger] placed[k]).vaddr == lo + runs[k].start * 4096
            && placed[k].pages == runs[k].pages && placed[k].fits(len)
    &&& forall|k: int| 0 <= k < runs.len() ==> 0 < (#[trigger] runs[k]).pages <= 2048
}

/// The run that takes in an address, and what its page allows.
proof fn the_run_of_an_address(
    segs: Seq<Segment>,
    runs: Seq<PageRun>,
    placed: Seq<Run>,
    len: nat,
    i: int,
    x: int,
) -> (h: int)
    requires
        runs_cover(segs, runs, placed, len),
        0 <= i < segs.len(),
        segs[i].vaddr <= x < segs[i].vaddr + segs[i].mem_size,
    ensures
        0 <= h < placed.len(),
        placed[h].vaddr <= x < placed[h].vaddr + placed[h].pages * 4096,
        crate::load::run_attr(crate::elf::lowest(segs), runs[h]).vaddr == placed[h].vaddr,
        crate::load::run_attr(crate::elf::lowest(segs), runs[h]).len_pages == placed[h].pages,
        crate::load::home(placed, x) == Some(placed[h].phys + (x - placed[h].vaddr)),
        ({
            let prot = runs[h].prot;
            &&& (prot & 1 == 1) <==> asked_for(segs, x, 4)
            &&& (prot & 2 == 2) <==> asked_for(segs, x, 2)
            &&& (prot & 4 == 4) <==> asked_for(segs, x, 1)
            &&& prot & 8 == 8
        }),
{
    let s = segs[i];
    let lo = crate::elf::lowest(segs);
    let prot = pages_of(segs);
    crate::elf::span_holds_all(segs);
    lowest_is_positive(segs);
    assert(s.fits());
    assert(lo <= s.low() && s.high() <= crate::elf::highest(segs));
    let pg = (x - lo) / 4096;
    assert(crate::proc::touches(s, lo, pg));
    crate::load::touched_page_has_prot(segs, lo, pg, i);
    assert(0 <= pg < prot.len());
    assert(prot[pg] != 0);
    let k = choose|k: int| 0 <= k < runs.len() && (#[trigger] runs[k]).start <= pg < runs[k].end();
    assert(placed[k].vaddr == lo + runs[k].start * 4096);
    assert(placed[k].holds(x));
    crate::load::home_found(placed, x, len);
    let h = home_is_in_a_run(placed, x);
    assert(placed[h].vaddr == lo + runs[h].start * 4096);
    assert(runs[h].fits(prot));
    assert(runs[h].start <= pg < runs[h].end());
    assert(prot[pg] == runs[h].prot);
    pages_allow_what_is_asked(segs, lo, x);
    assert(asked_for(segs, x, 0)) by {
        let f = s.flags;
        assert(f & 0 == 0) by (bit_vector);
        assert(reaches_page(segs[i], x));
    }
    h
}

proof fn lowest_is_positive(segs: Seq<Segment>)
    ensures
        crate::elf::lowest(segs) >= 0,
    decreases segs.len(),
{
    if segs.len() > 0 {
        lowest_is_positive(segs.drop_last());
    }
}

} // verus!
