//! The kernel half of every address space is one fixed mapping: nothing that
//! happens after boot changes what an address in it translates to, in any
//! space.

use vstd::prelude::*;

use crate::body::{AddressSpace, MemoryObject};
use crate::edge::{Dir, EdgeAttr, MapFlags, MapsAttr};
use crate::elf::Image;
use crate::frames::FrameAllocator;
use crate::graph::{Graph, Ref};
use crate::id::{EdgeId, EdgeKind, NodeId, NodeKind};
use crate::load::{Run, State};
use crate::proc::{PageRun, SpawnError};
use crate::syscall::USER_END;
use crate::view::GraphView;
use crate::vm::VmError;

verus! {

/// The address is in the upper half of the 48-bit space.
pub open spec fn kernel_side(x: u64) -> bool {
    crate::tables::page_number(x) >= 0x8_0000_0000
}

impl GraphView {
    /// In every space, the kernel half translates in `m1` as it did in `m0`.
    pub open spec fn kernel_half_kept(self, m0: Seq<u8>, m1: Seq<u8>) -> bool {
        forall|s: NodeId, x: u64|
            #![trigger self.is_space(s), crate::tables::lookup(m1, crate::vm::root_in(self, s), x)]
            self.is_space(s) && kernel_side(x) ==> crate::tables::lookup(
                m1,
                crate::vm::root_in(self, s),
                x,
            ) == crate::tables::lookup(m0, crate::vm::root_in(self, s), x)
    }
}

/// No page of a user range is in the kernel half.
proof fn outside_user_ranges(x: u64, v: u64, n: int)
    requires
        kernel_side(x),
        0 <= n,
        v + n * 4096 <= USER_END,
    ensures
        crate::paging::page_offset(x, v) >= n,
{
    let a = crate::tables::page_number(x);
    let b = v as int / 4096;
    assert(crate::tables::page_number(v) == b || b == 0x8_0000_0000) by {
        assert(b <= 0x8_0000_0000);
    }
    assert(crate::tables::page_number(v) == b);
    assert(b + n <= 0x8_0000_0000);
    assert((a - b) % 0x10_0000_0000 == a - b);
}

/// What two steps keep one after the other, they keep together.
pub proof fn kernel_half_twice(
    v: GraphView,
    w: GraphView,
    m0: Seq<u8>,
    m1: Seq<u8>,
    m2: Seq<u8>,
)
    requires
        v.kernel_half_kept(m0, m1),
        w.kernel_half_kept(m1, m2),
        v.spaces_stay(w),
    ensures
        v.kernel_half_kept(m0, m2),
{
    assert forall|s: NodeId, x: u64|
        #![trigger v.is_space(s), crate::tables::lookup(m2, crate::vm::root_in(v, s), x)]
        v.is_space(s) && kernel_side(x) implies crate::tables::lookup(
        m2,
        crate::vm::root_in(v, s),
        x,
    ) == crate::tables::lookup(m0, crate::vm::root_in(v, s), x) by {
        assert(w.is_space(s));
        assert(crate::vm::root_in(w, s) == crate::vm::root_in(v, s));
        assert(crate::tables::lookup(m2, crate::vm::root_in(w, s), x) == crate::tables::lookup(
            m1,
            crate::vm::root_in(w, s),
            x,
        ));
        assert(crate::tables::lookup(m1, crate::vm::root_in(v, s), x) == crate::tables::lookup(
            m0,
            crate::vm::root_in(v, s),
            x,
        ));
    }
}

/// Where every space translates as it did, its kernel half does.
pub proof fn same_lookups_keep_it(v: GraphView, m0: Seq<u8>, m1: Seq<u8>)
    requires
        forall|s: NodeId| #[trigger]
            v.is_space(s) ==> crate::paging::same_lookups(m0, m1, crate::vm::root_in(v, s)),
    ensures
        v.kernel_half_kept(m0, m1),
{
}

/// Spaces that stay twice stay.
pub proof fn spaces_stay_on(u: GraphView, v: GraphView, w: GraphView)
    requires
        u.spaces_stay(v),
        v.spaces_stay(w),
    ensures
        u.spaces_stay(w),
{
    assert forall|t: NodeId| #[trigger] u.is_space(t) implies w.is_space(t) && w.space(t).pml4_phys
        == u.space(t).pml4_phys by {
        assert(v.is_space(t));
    }
}

/// What happens to other things takes no space away.
pub proof fn quiet_spaces_stay(v: GraphView, w: GraphView)
    requires
        v.quiet(w),
    ensures
        v.spaces_stay(w),
{
    assert forall|t: NodeId| #[trigger] v.is_space(t) implies w.is_space(t) && w.space(t).pml4_phys
        == v.space(t).pml4_phys by {
        assert(v.same_node(w, t));
    }
}

/// Where one space's user tables grow, every other translates as it did.
proof fn growing_spares_the_kernel_half(
    v: GraphView,
    m0: Seq<u8>,
    f0: FrameAllocator<'_>,
    m1: Seq<u8>,
    f1: FrameAllocator<'_>,
    s: NodeId,
    way: spec_fn(Seq<int>) -> bool,
)
    requires
        v.paging_ok(m0, f0),
        v.is_space(s),
        crate::paging::grown(m0, f0, m1, f1, crate::vm::root_in(v, s), way),
        forall|q: Seq<int>| #[trigger] way(q) ==> crate::laws_paging::user_side(q),
        forall|x: u64|
            kernel_side(x) ==> #[trigger] crate::tables::lookup(m1, crate::vm::root_in(v, s), x)
                == crate::tables::lookup(m0, crate::vm::root_in(v, s), x),
    ensures
        v.kernel_half_kept(m0, m1),
{
    assert forall|t: NodeId, x: u64|
        #![trigger v.is_space(t), crate::tables::lookup(m1, crate::vm::root_in(v, t), x)]
        v.is_space(t) && kernel_side(x) implies crate::tables::lookup(
        m1,
        crate::vm::root_in(v, t),
        x,
    ) == crate::tables::lookup(m0, crate::vm::root_in(v, t), x) by {
        if t != s {
            crate::laws_paging::neighbour_kept(
                m0,
                f0,
                m1,
                f1,
                crate::vm::root_in(v, s),
                crate::vm::root_in(v, t),
                way,
            );
        }
    }
}

/// Mapping leaves the kernel half alone, in every space.
pub proof fn mapping_spares_the_kernel_half(
    g0: Graph,
    m0: Seq<u8>,
    f0: FrameAllocator<'_>,
    g1: Graph,
    m1: Seq<u8>,
    f1: FrameAllocator<'_>,
    s: NodeId,
    m: NodeId,
    attr: MapsAttr,
    r: Result<EdgeId, VmError>,
)
    requires
        g0@.paging_ok(m0, f0),
        s.kind() == Some(NodeKind::AddressSpace),
        crate::vm::map_done(g0, m0, Some(f0), g1, m1, Some(f1), s, m, attr, r),
    ensures
        g0@.kernel_half_kept(m0, m1),
{
    let v = g0@;
    if crate::vm::map_error(g0, true, s, m, attr) is None {
        let root = crate::vm::root_in(v, s);
        let n = attr.len_pages as int;
        assert(v.is_space(s));
        crate::laws_paging::user_ways(attr.vaddr, n);
        assert forall|x: u64| kernel_side(x) implies #[trigger] crate::tables::lookup(m1, root, x)
            == crate::tables::lookup(m0, root, x) by {
            outside_user_ranges(x, attr.vaddr, n);
        }
        growing_spares_the_kernel_half(
            v,
            m0,
            f0,
            m1,
            f1,
            s,
            crate::paging::toward_run(attr.vaddr, n),
        );
    }
}

/// Unmapping a range of the user half does too.
pub proof fn unmapping_spares_the_kernel_half(
    v: GraphView,
    m0: Seq<u8>,
    f: FrameAllocator<'_>,
    m1: Seq<u8>,
    e: u32,
)
    requires
        v.wf(),
        v.paging_ok(m0, f),
        v.edges.contains_key(e),
        v.edges[e].kind == EdgeKind::Maps,
        v.user_space(v.edges[e].src) || crate::vm::user_range(v.maps(e)),
        ({
            let a = v.maps(e);
            let root = crate::vm::root_in(v, v.edges[e].src);
            let n = a.len_pages as int;
            &&& crate::paging::leaves_changed(m0, m1, root, crate::paging::toward_run(a.vaddr, n))
            &&& crate::paging::unmapped_run(m0, m1, root, a.vaddr, n)
        }),
    ensures
        v.kernel_half_kept(m0, m1),
{
    let s = v.edges[e].src;
    let a = v.maps(e);
    let root = crate::vm::root_in(v, s);
    let n = a.len_pages as int;
    let way = crate::paging::toward_run(a.vaddr, n);
    crate::laws_paging::unmapped_mappings(v, e);
    if v.user_space(s) {
        let out = v.list(s, Dir::Out, EdgeKind::Maps);
        assert(out[out.index_of(e)] == e);
        assert(v.range_sound(out[out.index_of(e)]));
    }
    crate::laws_paging::user_ways(a.vaddr, n);
    crate::paging::leaves_grow(m0, f, m1, root, way);
    assert forall|x: u64| kernel_side(x) implies #[trigger] crate::tables::lookup(m1, root, x)
        == crate::tables::lookup(m0, root, x) by {
        outside_user_ranges(x, a.vaddr, n);
    }
    growing_spares_the_kernel_half(v, m0, f, m1, f, s, way);
}

/// Serving a page fault does too.
pub proof fn faulting_spares_the_kernel_half(
    v: GraphView,
    m0: Seq<u8>,
    f0: FrameAllocator<'_>,
    m1: Seq<u8>,
    f1: FrameAllocator<'_>,
    current: NodeId,
    page: u64,
    goal: (u64, u64, crate::edge::Prot),
)
    requires
        v.wf(),
        v.paging_ok(m0, f0),
        page % 4096 == 0,
        crate::vm_check::fault_goal(v, current, page, goal),
        crate::vm_check::fault_served(m0, Some(f0), m1, Some(f1), page, goal)
            || crate::vm_check::fault_refused(m0, Some(f0), m1, Some(f1), page, goal),
    ensures
        v.kernel_half_kept(m0, m1),
{
    let s = v.space_under(current)->Some_0;
    let root = crate::paging::root_of(goal.0);
    crate::laws_paging::space_under_is_space(v, current);
    crate::laws_paging::user_ways(page, 1);
    assert forall|x: u64| kernel_side(x) implies #[trigger] crate::tables::lookup(m1, root, x)
        == crate::tables::lookup(m0, root, x) by {
        outside_user_ranges(x, page, 1);
    }
    growing_spares_the_kernel_half(
        v,
        m0,
        f0,
        m1,
        f1,
        s,
        crate::paging::toward_run(page, 1),
    );
}

/// Making a space leaves every other as it was, and gives the new one the
/// kernel half of the one in use.
pub proof fn creating_shares_the_kernel_half(
    g0: Graph,
    m0: Seq<u8>,
    f0: FrameAllocator<'_>,
    g1: Graph,
    m1: Seq<u8>,
    f1: FrameAllocator<'_>,
    active: u64,
    owner: NodeId,
    r: Result<Ref<AddressSpace>, VmError>,
)
    requires
        g0.wf(),
        g0@.paging_ok(m0, f0),
        g0@.runs_in(active),
        crate::vm::space_made(g0, m0, Some(f0), g1, m1, Some(f1), active, owner, r),
    ensures
        g0@.kernel_half_kept(m0, m1),
        g0@.spaces_stay(g1@),
        r matches Ok(s) ==> forall|x: u64|
            kernel_side(x) ==> #[trigger] crate::tables::lookup(
                m1,
                crate::vm::root_in(g1@, s.id()),
                x,
            ) == crate::tables::lookup(m0, crate::paging::root_of(active), x),
{
    let v = g0@;
    if !f0.no_fit(1, 1) {
        let phys = choose|phys: u64| #[trigger]
            crate::vm::space_made_at(g0, m0, f0, g1, m1, Some(f1), active, owner, r, phys);
        crate::tables::entry_bits(phys);
        assert forall|s: NodeId, x: u64|
            #![trigger v.is_space(s), crate::tables::lookup(m1, crate::vm::root_in(v, s), x)]
            v.is_space(s) && kernel_side(x) implies crate::tables::lookup(
            m1,
            crate::vm::root_in(v, s),
            x,
        ) == crate::tables::lookup(m0, crate::vm::root_in(v, s), x) by {
            crate::laws_paging::free_frame_written(
                m0,
                f0,
                m1,
                f1,
                crate::vm::root_in(v, s),
                phys as int,
            );
        }
        if let Ok(s) = r {
            let root = crate::paging::root_of(active);
            assert(g1@.space(s.id()).pml4_phys == phys);
            assert forall|x: u64| kernel_side(x) implies #[trigger] crate::tables::lookup(
                m1,
                crate::vm::root_in(g1@, s.id()),
                x,
            ) == crate::tables::lookup(m0, root, x) by {
                upper_index(x);
                assert(crate::vm::root_shares_kernel(m0, m1, root, phys as int));
                assert(crate::vm::root_in(g1@, s.id()) == phys);
            }
        }
    }
}

/// An address of the upper half takes an entry of the upper half of the root.
proof fn upper_index(x: u64)
    requires
        kernel_side(x),
    ensures
        crate::tables::spec_index(x, 3) >= 256,
{
    assert((x / 4096) % 0x10_0000_0000 >= 0x8_0000_0000 ==> (x >> 39) & 0x1FF >= 256)
        by (bit_vector);
}

/// A step of the reaper leaves the kernel half alone, in every space.
pub proof fn reaping_spares_the_kernel_half(
    v: GraphView,
    m0: Seq<u8>,
    fa: FrameAllocator<'_>,
    m1: Seq<u8>,
)
    requires
        v.wf(),
        v.paging_ok(m0, fa),
        crate::reaper::memory_after(v, m0, m1),
    ensures
        v.kernel_half_kept(m0, m1),
{
    crate::laws_reclaim::next_mapping(v);
    if let Some(e) = crate::reaper::unmap_next(v) {
        unmapping_spares_the_kernel_half(v, m0, fa, m1, e);
    }
}

/// Giving a run of pages memory of its own does too.
#[verifier::rlimit(40)]
pub proof fn mapping_a_run_spares_the_kernel_half(
    s0: State<'_>,
    s1: State<'_>,
    p: NodeId,
    space: NodeId,
    attr: MapsAttr,
    r: Result<u64, SpawnError>,
)
    requires
        s0.g.wf(),
        s0.frames matches Some(fa) && s0.g@.paging_ok(s0.mem, fa),
        s0.g@.is_space(space),
        attr.off_pages == 0,
        crate::load::run_mapped(s0, s1, p, space, attr, r),
    ensures
        s0.g@.kernel_half_kept(s0.mem, s1.mem),
{
    let f0 = s0.frames->Some_0;
    let (mid, ro) = choose|
        mid: (Graph, Option<FrameAllocator<'_>>),
        ro: Result<Ref<MemoryObject>, VmError>,
    | #[trigger]
        crate::load::run_mapped_through(s0, s1, p, space, attr, r, mid, ro);
    let fm = mid.1->Some_0;
    let vm = mid.0@;
    assert(mid.1 is Some);
    crate::laws_loading::allocating_keeps_tables(
        s0.g,
        s0.mem,
        f0,
        mid.0,
        fm,
        p,
        attr.len_pages,
        ro,
    );
    if let Ok(obj) = ro {
        let id = obj.id();
        let phys = vm.memobj(id).phys_base;
        let n = (attr.len_pages * 4096) as nat;
        let cleared = crate::mem::overwritten(s0.mem, phys as int, crate::edge::zeros(n));
        let rm = choose|rm: Result<EdgeId, VmError>| #[trigger]
            crate::vm::map_done(
                mid.0,
                cleared,
                mid.1,
                s1.g,
                s1.mem,
                s1.frames,
                space,
                id,
                attr,
                rm,
            ) && r == match rm {
                Ok(_) => Ok::<u64, SpawnError>(phys),
                Err(e) => Err::<u64, SpawnError>(SpawnError::Vm(e)),
            };
        assert forall|a: int|
            0 <= a < s0.mem.len() && #[trigger] cleared[a] != s0.mem[a] implies vm.writable(
            s0.mem,
            a / 4096,
        ) by {
            assert(phys <= a < phys + n);
            assert(vm.plainly_held(a / 4096));
            crate::laws_loading::plain_memory_is_writable(vm, s0.mem, a / 4096);
        }
        crate::laws_memory::writing_elsewhere_keeps_tables(vm, s0.mem, fm, cleared, fm);
        assert(vm.kernel_half_kept(s0.mem, cleared)) by {
            assert forall|s: NodeId, x: u64|
                #![trigger vm.is_space(s), crate::tables::lookup(cleared, crate::vm::root_in(vm, s), x)]
                vm.is_space(s) && kernel_side(x) implies crate::tables::lookup(
                cleared,
                crate::vm::root_in(vm, s),
                x,
            ) == crate::tables::lookup(s0.mem, crate::vm::root_in(vm, s), x) by {}
        }
        mapping_spares_the_kernel_half(
            mid.0,
            cleared,
            fm,
            s1.g,
            s1.mem,
            s1.frames->Some_0,
            space,
            id,
            attr,
            rm,
        );
        kernel_half_twice(vm, vm, s0.mem, cleared, s1.mem);
        assert(s0.g@.kernel_half_kept(s0.mem, s0.mem));
        kernel_half_twice(s0.g@, vm, s0.mem, s0.mem, s1.mem);
    }
}

/// Every state that mapping the runs goes through has the kernel half it
/// started with.
proof fn mapping_runs_spares_the_kernel_half(
    trace: Seq<State<'_>>,
    s0: State<'_>,
    s1: State<'_>,
    p: NodeId,
    space: NodeId,
    lo: int,
    runs: Seq<PageRun>,
    placed: Seq<Run>,
    r: Result<(), SpawnError>,
    n: int,
)
    requires
        s0.g@.inv(),
        s0.frames matches Some(fa) && s0.g@.paging_ok(s0.mem, fa),
        p.kind() == Some(NodeKind::Process),
        s0.g@.is_space(space),
        crate::load::runs_mapped(trace, s0, s1, p, space, lo, runs, placed, r),
        0 <= n < trace.len(),
    ensures
        s0.g@.kernel_half_kept(s0.mem, trace[n].mem),
    decreases n,
{
    reveal(crate::load::runs_mapped);
    if n > 0 {
        mapping_runs_spares_the_kernel_half(
            trace,
            s0,
            s1,
            p,
            space,
            lo,
            runs,
            placed,
            r,
            n - 1,
        );
        crate::laws_loading::mapping_runs_keeps_tables(
            trace,
            s0,
            s1,
            p,
            space,
            lo,
            runs,
            placed,
            r,
            n - 1,
        );
        let a = trace[n - 1];
        let b = trace[n];
        assert(a.g.wf());
        assert(a.g@.is_space(space)) by {
            assert(s0.g@.is_space(space));
        }
        let attr = crate::load::run_attr(lo, runs[n - 1]);
        if n <= placed.len() {
            let k = placed[n - 1];
            assert(crate::load::run_ok(a, trace[n - 1 + 1], p, space, lo, runs[n - 1], k.phys));
            mapping_a_run_spares_the_kernel_half(
                a,
                b,
                p,
                space,
                attr,
                Ok::<u64, SpawnError>(k.phys),
            );
        } else {
            mapping_a_run_spares_the_kernel_half(
                a,
                b,
                p,
                space,
                attr,
                Err::<u64, SpawnError>(r->Err_0),
            );
        }
        kernel_half_twice(s0.g@, a.g@, s0.mem, a.mem, b.mem);
    }
}

/// Loading an image leaves the kernel half alone, in every space and however
/// far it gets.
pub proof fn loading_spares_the_kernel_half(
    s0: State<'_>,
    s1: State<'_>,
    image: Image<'_>,
    p: NodeId,
    space: NodeId,
    r: Result<(), SpawnError>,
)
    requires
        s0.g@.inv(),
        s0.frames matches Some(fa) && s0.g@.paging_ok(s0.mem, fa),
        p.kind() == Some(NodeKind::Process),
        s0.g@.is_space(space),
        crate::load::loaded(s0, s1, image, p, space, r),
    ensures
        s0.g@.kernel_half_kept(s0.mem, s1.mem),
{
    let segs = image.spec_segments();
    if segs.len() > 0 && crate::load::image_pages(segs) <= crate::proc::MAX_IMAGE_PAGES {
        let (runs, placed, trace) = choose|
            runs: Seq<PageRun>,
            placed: Seq<Run>,
            trace: Seq<State<'_>>,
        | #[trigger]
            crate::load::loaded_through(s0, s1, image, p, space, r, runs, placed, trace);
        let mid = trace.last();
        let lo = crate::elf::lowest(segs);
        let n = trace.len() - 1;
        assert(trace.len() > placed.len()) by {
            reveal(crate::load::runs_mapped);
        }
        mapping_runs_spares_the_kernel_half(
            trace,
            s0,
            mid,
            p,
            space,
            lo,
            runs,
            placed,
            r,
            n,
        );
        crate::laws_loading::mapping_runs_keeps_tables(
            trace,
            s0,
            mid,
            p,
            space,
            lo,
            runs,
            placed,
            r,
            n,
        );
        if r is Ok {
            crate::laws_loading::contents_keep_tables(
                trace,
                s0,
                mid,
                p,
                space,
                lo,
                runs,
                placed,
                image.bytes@,
                segs,
                r,
            );
            let v = mid.g@;
            assert forall|s: NodeId, x: u64|
                #![trigger v.is_space(s), crate::tables::lookup(s1.mem, crate::vm::root_in(v, s), x)]
                v.is_space(s) && kernel_side(x) implies crate::tables::lookup(
                s1.mem,
                crate::vm::root_in(v, s),
                x,
            ) == crate::tables::lookup(mid.mem, crate::vm::root_in(v, s), x) by {}
            kernel_half_twice(s0.g@, v, s0.mem, mid.mem, s1.mem);
        }
    }
}

} // verus!
