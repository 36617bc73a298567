//! Where the graph meets the hardware.
//!
//! Page tables are a cache of `Maps` edges. This module is the whole of that
//! invariant's enforcement: `map`, `unmap` and `fault_in` are the only
//! functions that write a user page-table entry, and they create or destroy
//! the edge in the same operation, or act on one that is there.
//! `check_page_tables` walks the tables and compares them with the edges in
//! both directions.

use vstd::prelude::*;

use crate::body::{AddressSpace, MemFlags, MemoryObject, NodeBody, Process, Root};
use crate::edge::{EdgeAttr, MapFlags, MapsAttr};
use crate::frames::FrameAllocator;
use crate::graph::{Graph, GraphError, Ref};
use crate::id::{EdgeId, EdgeKind, NodeId};
use crate::paging::{map_pages, unmap_pages, MapError};
use crate::spaces::{free_user_tables, new_address_space};
use crate::syscall::USER_END;
use crate::view::GraphView;

verus! {

#[derive(Clone, Copy, Debug, PartialEq, Eq, Structural)]
pub enum VmError {
    Graph(GraphError),
    Paging(MapError),
    /// The requested slice runs off the end of the memory object, or is not
    /// for whole pages of the user half.
    OutOfBounds,
    NoAllocator,
    StaleSpace,
}

impl From<GraphError> for VmError {
    fn from(e: GraphError) -> (r: VmError) {
        VmError::Graph(e)
    }
}

impl vstd::std_specs::convert::FromSpecImpl<GraphError> for VmError {
    open spec fn obeys_from_spec() -> bool {
        true
    }

    open spec fn from_spec(e: GraphError) -> VmError {
        VmError::Graph(e)
    }
}

// ---------------------------------------------------------------- creating ---

/// The body of a new address space.
pub open spec fn fresh_space(phys: u64) -> AddressSpace {
    AddressSpace { pml4_phys: phys, ..AddressSpace::spec_zero() }
}

/// The graph's own answer inside the kernel's.
pub open spec fn graph_answer<B: NodeBody>(r: Result<Ref<B>, VmError>) -> Result<Ref<B>, GraphError> {
    match r {
        Ok(x) => Ok(x),
        Err(VmError::Graph(e)) => Err(e),
        Err(_) => arbitrary(),
    }
}

/// What making an address space does. Every frame is where it was unless the
/// space was made, and the root of a made one is empty below the kernel half.
pub open spec fn space_made(
    g0: Graph,
    m0: Seq<u8>,
    f0: Option<FrameAllocator<'_>>,
    g1: Graph,
    m1: Seq<u8>,
    f1: Option<FrameAllocator<'_>>,
    active: u64,
    owner: NodeId,
    r: Result<Ref<AddressSpace>, VmError>,
) -> bool {
    match f0 {
        None => {
            &&& r == Err::<Ref<AddressSpace>, VmError>(VmError::NoAllocator)
            &&& g1 == g0
            &&& m1 == m0
            &&& f1 is None
        },
        Some(fa) => if fa.no_fit(1, 1) {
            &&& r == Err::<Ref<AddressSpace>, VmError>(VmError::Paging(MapError::OutOfFrames))
            &&& g1 == g0
            &&& m1 == m0
            &&& f1 == f0
        } else {
            exists|phys: u64| #[trigger]
                space_made_at(g0, m0, fa, g1, m1, f1, active, owner, r, phys)
        },
    }
}

/// The same, with the frame that was taken for the root.
pub open spec fn space_made_at(
    g0: Graph,
    m0: Seq<u8>,
    fa: FrameAllocator<'_>,
    g1: Graph,
    m1: Seq<u8>,
    f1: Option<FrameAllocator<'_>>,
    active: u64,
    owner: NodeId,
    r: Result<Ref<AddressSpace>, VmError>,
    phys: u64,
) -> bool {
    &&& phys % 4096 == 0
    &&& phys > 0
    &&& fa.taken_at(1, phys as int / 4096)
    &&& fa.free(phys as int / 4096)
    &&& crate::spaces::shares_kernel(m0, m1, crate::paging::root_of(active), phys as int)
    &&& root_shares_kernel(m0, m1, crate::paging::root_of(active), phys as int)
    &&& r is Err ==> r->Err_0 is Graph
    &&& g1.created(g0, owner, fresh_space(phys), graph_answer(r))
    &&& f1 matches Some(fb) && fb.wf() && fb.same_shape(fa) && fb.hint == hint_made(
        phys as int / 4096,
        1,
        r is Ok,
    ) && (r is Err ==> forall|f: int| #[trigger] fb.free(f) <==> fa.free(f)) && (r is Ok
        ==> crate::paging::ready(fb, m1, phys as int) && forall|f: int| #[trigger]
        fb.free(f) <==> fa.free(f) && f != phys as int / 4096)
}

/// The new root translates nothing below the kernel half, and in it what the
/// root in use translates.
pub open spec fn root_shares_kernel(m0: Seq<u8>, m1: Seq<u8>, active: int, root: int) -> bool {
    forall|w: u64| #[trigger]
        crate::tables::lookup(m1, root, w) == if crate::tables::spec_index(w, 3) < 256 {
            None
        } else {
            crate::tables::lookup(m0, active, w)
        }
}

/// Where the allocator's next sweep starts after `n` frames were taken at
/// `at`: behind them, or with them if they were given back.
pub open spec fn hint_made(at: int, n: int, kept: bool) -> int {
    if kept {
        at + n
    } else {
        at
    }
}

/// Take a root for a new space.
fn take_root(mem: &mut [u8], active: u64, frames: &mut Option<FrameAllocator<'_>>) -> (r: Result<
    u64,
    VmError,
>)
    requires
        *old(frames) matches Some(fa) ==> crate::paging::ready(
            fa,
            old(mem)@,
            crate::paging::root_of(active),
        ),
    ensures
        *old(frames) is None ==> r == Err::<u64, VmError>(VmError::NoAllocator) && *final(frames)
            is None && final(mem)@ == old(mem)@,
        *old(frames) matches Some(fa) ==> (*final(frames) matches Some(fb) && fb.wf()
            && fb.same_shape(fa) && if fa.no_fit(1, 1) {
            r == Err::<u64, VmError>(VmError::Paging(MapError::OutOfFrames)) && *final(frames)
                == *old(frames) && final(mem)@ == old(mem)@
        } else {
            r matches Ok(phys) && phys > 0 && phys % 4096 == 0 && phys < 0x10_0000_0000_0000
                && fa.taken_at(1, phys as int / 4096) && fb.hint == phys as int / 4096 + 1
                && fa.free(phys as int / 4096) && (forall|f: int| #[trigger]
                fb.free(f) <==> fa.free(f) && f != phys as int / 4096)
                && crate::spaces::shares_kernel(
                old(mem)@,
                final(mem)@,
                crate::paging::root_of(active),
                phys as int,
            ) && root_shares_kernel(
                old(mem)@,
                final(mem)@,
                crate::paging::root_of(active),
                phys as int,
            ) && crate::paging::ready(fb, final(mem)@, phys as int) && crate::paging::root_of(phys)
                == phys
        }),
{
    match frames {
        None => Err(VmError::NoAllocator),
        Some(fa) => {
            let ghost f0 = *fa;
            match new_address_space(mem, active, fa) {
                Some(phys) => {
                    assert(phys as int / 4096 < f0.total_frames);
                    Ok(phys)
                },
                None => Err(VmError::Paging(MapError::OutOfFrames)),
            }
        },
    }
}

/// A root with an empty user half has no table but itself to give back.
proof fn bare_root(m: Seq<u8>, root: int, f: int)
    requires
        forall|i: int|
            0 <= i < 256 ==> #[trigger] crate::mem::word(m, crate::tables::slot(root, i)) == 0,
    ensures
        crate::spaces::user_table(m, root, f) <==> root == 4096 * f,
{
    if crate::spaces::hangs(m, root, Seq::empty(), 256, f) {
        let e: Seq<int> = Seq::empty();
        let q = choose|q: Seq<int>| #[trigger]
            crate::tables::is_table(m, root, q) && crate::tables::below(q, e) && q[0] < 256
                && crate::tables::table_at(m, root, q) == Some(4096 * f);
        assert(0 <= q[0] < 256);
        let q1 = q.take(1);
        assert(q1.drop_last() =~= e);
        assert(q1.last() == q[0]);
        assert(crate::mem::word(m, crate::tables::slot(root, q[0])) == 0);
        crate::tables::frame_bits(0);
        assert(crate::tables::table_at(m, root, e) == Some(root));
        assert(crate::tables::table_at(m, root, q1) is None);
        crate::paging::stuck(m, root, q, 1);
    }
}

/// Give the root of a space that could not be described back.
fn return_root(mem: &[u8], phys: u64, frames: &mut Option<FrameAllocator<'_>>)
    requires
        *old(frames) matches Some(fa) && crate::paging::ready(fa, mem@, phys as int),
        phys < 0x10_0000_0000_0000,
        phys % 4096 == 0,
        crate::paging::root_of(phys) == phys,
        forall|i: int|
            0 <= i < 256 ==> #[trigger] crate::mem::word(
                mem@,
                crate::tables::slot(phys as int, i),
            ) == 0,
    ensures
        *final(frames) matches Some(fb) && fb.wf() && fb.same_shape((*old(frames))->Some_0)
            && fb.hint == crate::frames::hint_back(
            (*old(frames))->Some_0.hint as int,
            phys as int / 4096,
        ) && (forall|f: int| #[trigger]
            fb.free(f) <==> (*old(frames))->Some_0.free(f) || (0 <= f < fb.total_frames && f
                == phys as int / 4096)),
{
    match frames {
        None => {},
        Some(fa) => {
            let ghost f0 = *fa;
            free_user_tables(mem, phys, fa);
            proof {
                assert forall|f: int| #[trigger] fa.free(f) <==> f0.free(f) || (0 <= f
                    < f0.total_frames && f == phys as int / 4096) by {
                    bare_root(mem@, phys as int, f);
                }
                let given = |f: int| crate::spaces::user_table(mem@, phys as int, f);
                assert forall|f: int| #[trigger] given(f) <==> f == phys as int / 4096 by {
                    bare_root(mem@, phys as int, f);
                }
                assert(given(phys as int / 4096));
            }
        },
    }
}

/// Create an address space with an empty user half, owned by the root.
pub fn create_space(
    g: &mut Graph,
    mem: &mut [u8],
    frames: &mut Option<FrameAllocator<'_>>,
    active: u64,
    owner: Ref<Root>,
) -> (r: Result<Ref<AddressSpace>, VmError>)
    requires
        old(g).wf(),
        old(g).seq < u64::MAX,
        *old(frames) matches Some(fa) ==> crate::paging::ready(
            fa,
            old(mem)@,
            crate::paging::root_of(active),
        ),
    ensures
        final(g).wf(),
        space_made(
            *old(g),
            old(mem)@,
            *old(frames),
            *final(g),
            final(mem)@,
            *final(frames),
            active,
            owner.id(),
            r,
        ),
        final(g)@.since(old(g)@),
{
    let pml4: u64 = match take_root(mem, active, frames) {
        Ok(p) => p,
        Err(e) => return Err(e),
    };
    let ghost f1 = *frames;
    let body = AddressSpace { pml4_phys: pml4, ..AddressSpace::zero() };
    match g.create_under_root(owner, body) {
        Ok(s) => {
            proof {
                let r = Ok::<Ref<AddressSpace>, VmError>(s);
                assert(space_made_at(
                    *old(g),
                    old(mem)@,
                    (*old(frames))->Some_0,
                    *g,
                    mem@,
                    *frames,
                    active,
                    owner.id(),
                    r,
                    pml4,
                ));
            }
            Ok(s)
        },
        Err(e) => {
            return_root(mem, pml4, frames);
            proof {
                let r = Err::<Ref<AddressSpace>, VmError>(VmError::Graph(e));
                assert(space_made_at(
                    *old(g),
                    old(mem)@,
                    (*old(frames))->Some_0,
                    *g,
                    mem@,
                    *frames,
                    active,
                    owner.id(),
                    r,
                    pml4,
                ));
            }
            Err(VmError::Graph(e))
        },
    }
}

/// The same, owned by a process, so the space dies with it.
pub fn create_space_for(
    g: &mut Graph,
    mem: &mut [u8],
    frames: &mut Option<FrameAllocator<'_>>,
    active: u64,
    owner: Ref<Process>,
) -> (r: Result<Ref<AddressSpace>, VmError>)
    requires
        old(g).wf(),
        old(g).seq < u64::MAX,
        *old(frames) matches Some(fa) ==> crate::paging::ready(
            fa,
            old(mem)@,
            crate::paging::root_of(active),
        ),
    ensures
        final(g).wf(),
        space_made(
            *old(g),
            old(mem)@,
            *old(frames),
            *final(g),
            final(mem)@,
            *final(frames),
            active,
            owner.id(),
            r,
        ),
        final(g)@.since(old(g)@),
{
    let pml4: u64 = match take_root(mem, active, frames) {
        Ok(p) => p,
        Err(e) => return Err(e),
    };
    let ghost f1 = *frames;
    let body = AddressSpace { pml4_phys: pml4, ..AddressSpace::zero() };
    match g.create_under_process(owner, body) {
        Ok(s) => {
            proof {
                let r = Ok::<Ref<AddressSpace>, VmError>(s);
                assert(space_made_at(
                    *old(g),
                    old(mem)@,
                    (*old(frames))->Some_0,
                    *g,
                    mem@,
                    *frames,
                    active,
                    owner.id(),
                    r,
                    pml4,
                ));
            }
            Ok(s)
        },
        Err(e) => {
            return_root(mem, pml4, frames);
            proof {
                let r = Err::<Ref<AddressSpace>, VmError>(VmError::Graph(e));
                assert(space_made_at(
                    *old(g),
                    old(mem)@,
                    (*old(frames))->Some_0,
                    *g,
                    mem@,
                    *frames,
                    active,
                    owner.id(),
                    r,
                    pml4,
                ));
            }
            Err(VmError::Graph(e))
        },
    }
}

/// The body of an object over contiguous frames.
pub open spec fn fresh_object(phys: u64, pages: u32) -> MemoryObject {
    MemoryObject { phys_base: phys, pages, ..MemoryObject::spec_zero() }
}

/// What allocating an object does. The frames are taken exactly when the node
/// that describes them was made.
pub open spec fn object_made(
    g0: Graph,
    f0: Option<FrameAllocator<'_>>,
    g1: Graph,
    f1: Option<FrameAllocator<'_>>,
    owner: NodeId,
    pages: u32,
    r: Result<Ref<MemoryObject>, VmError>,
) -> bool {
    match f0 {
        None => {
            &&& r == Err::<Ref<MemoryObject>, VmError>(VmError::NoAllocator)
            &&& g1 == g0
            &&& f1 is None
        },
        Some(fa) => if pages == 0 || fa.no_fit(1, pages as int) {
            &&& r == Err::<Ref<MemoryObject>, VmError>(VmError::Paging(MapError::OutOfFrames))
            &&& g1 == g0
            &&& f1 == f0
        } else {
            exists|phys: u64| #[trigger] object_made_at(g0, fa, g1, f1, owner, pages, r, phys)
        },
    }
}

/// The same, with the place the frames were taken from.
pub open spec fn object_made_at(
    g0: Graph,
    fa: FrameAllocator<'_>,
    g1: Graph,
    f1: Option<FrameAllocator<'_>>,
    owner: NodeId,
    pages: u32,
    r: Result<Ref<MemoryObject>, VmError>,
    phys: u64,
) -> bool {
    let at = phys as int / 4096;
    &&& phys % 4096 == 0
    &&& phys > 0
    &&& fa.taken_at(pages as int, at)
    &&& at + pages <= fa.total_frames
    &&& r is Err ==> r->Err_0 is Graph
    &&& g1.created(g0, owner, fresh_object(phys, pages), graph_answer(r))
    &&& f1 matches Some(fb) && fb.wf() && fb.same_shape(fa) && fb.hint == hint_made(
        at,
        pages as int,
        r is Ok,
    ) && forall|f: int| #[trigger]
        fb.free(f) <==> fa.free(f) && !(r is Ok && at <= f < at + pages)
}

/// Take contiguous frames for an object.
fn take_frames(frames: &mut Option<FrameAllocator<'_>>, pages: u32) -> (r: Result<u64, VmError>)
    requires
        *old(frames) matches Some(fa) ==> fa.wf(),
    ensures
        *old(frames) is None ==> r == Err::<u64, VmError>(VmError::NoAllocator) && *final(frames)
            is None,
        *old(frames) matches Some(fa) ==> (*final(frames) matches Some(fb) && fb.wf()
            && fb.same_shape(fa) && if pages == 0 || fa.no_fit(1, pages as int) {
            r == Err::<u64, VmError>(VmError::Paging(MapError::OutOfFrames)) && *final(frames)
                == *old(frames)
        } else {
            r matches Ok(phys) && phys > 0 && phys % 4096 == 0 && fa.taken_at(
                pages as int,
                phys as int / 4096,
            ) && phys as int / 4096 + pages <= fa.total_frames && fb.hint == phys as int / 4096
                + pages && forall|f: int| #[trigger]
                fb.free(f) <==> fa.free(f) && !(phys as int / 4096 <= f < phys as int / 4096 + pages)
        }),
{
    match frames {
        None => Err(VmError::NoAllocator),
        Some(fa) => {
            let ghost f0 = *fa;
            match fa.alloc_contiguous(pages as usize) {
                Some(phys) => {
                    proof {
                        let at = phys as int / 4096;
                        assert(f0.fits(at, pages as int));
                        assert(!f0.no_fit(1, pages as int));
                    }
                    Ok(phys)
                },
                None => Err(VmError::Paging(MapError::OutOfFrames)),
            }
        },
    }
}

/// Give back the frames of an object that could not be described.
fn return_frames(frames: &mut Option<FrameAllocator<'_>>, phys: u64, pages: u32)
    requires
        *old(frames) matches Some(fa) && fa.wf() && phys as int / 4096 + pages <= fa.total_frames,
    ensures
        *final(frames) matches Some(fb) && fb.wf() && fb.same_shape((*old(frames))->Some_0)
            && fb.hint == crate::frames::hint_back(
            (*old(frames))->Some_0.hint as int,
            phys as int / 4096,
        ) && (forall|f: int| #[trigger]
            fb.free(f) <==> (*old(frames))->Some_0.free(f) || phys as int / 4096 <= f < phys as int
                / 4096 + pages),
{
    match frames {
        None => {},
        Some(fa) => {
            fa.free_contiguous(phys, pages as usize);
        },
    }
}

/// Allocate physically contiguous frames and describe them with a node. The
/// node is what makes the frames accountable: from here on the reaper knows to
/// return them.
pub fn alloc_object(
    g: &mut Graph,
    frames: &mut Option<FrameAllocator<'_>>,
    owner: Ref<Root>,
    pages: u32,
) -> (r: Result<Ref<MemoryObject>, VmError>)
    requires
        old(g).wf(),
        old(g).seq < u64::MAX,
        *old(frames) matches Some(fa) ==> fa.wf(),
    ensures
        final(g).wf(),
        object_made(*old(g), *old(frames), *final(g), *final(frames), owner.id(), pages, r),
        final(g)@.since(old(g)@),
{
    let phys: u64 = match take_frames(frames, pages) {
        Ok(p) => p,
        Err(e) => return Err(e),
    };
    let ghost f0 = (*old(frames))->Some_0;
    let ghost f1 = (*frames)->Some_0;
    let body = MemoryObject {
        phys_base: phys,
        pages,
        flags: MemFlags::none(),
        ..MemoryObject::zero()
    };
    match g.create_under_root(owner, body) {
        Ok(m) => {
            proof {
                let r = Ok::<Ref<MemoryObject>, VmError>(m);
                assert(object_made_at(*old(g), f0, *g, *frames, owner.id(), pages, r, phys));
            }
            Ok(m)
        },
        Err(e) => {
            return_frames(frames, phys, pages);
            proof {
                let r = Err::<Ref<MemoryObject>, VmError>(VmError::Graph(e));
                let f2 = (*frames)->Some_0;
                assert(f0.fits(phys as int / 4096, pages as int));
                assert forall|f: int| #[trigger] f2.free(f) <==> f0.free(f) by {
                    assert(f1.free(f) <==> f0.free(f) && !(phys as int / 4096 <= f < phys as int
                        / 4096 + pages));
                }
                assert(object_made_at(*old(g), f0, *g, *frames, owner.id(), pages, r, phys));
            }
            Err(VmError::Graph(e))
        },
    }
}

/// Allocate frames described by a node owned by a process.
pub fn alloc_object_for(
    g: &mut Graph,
    frames: &mut Option<FrameAllocator<'_>>,
    owner: Ref<Process>,
    pages: u32,
) -> (r: Result<Ref<MemoryObject>, VmError>)
    requires
        old(g).wf(),
        old(g).seq < u64::MAX,
        *old(frames) matches Some(fa) ==> fa.wf(),
    ensures
        final(g).wf(),
        object_made(*old(g), *old(frames), *final(g), *final(frames), owner.id(), pages, r),
        final(g)@.since(old(g)@),
{
    let phys: u64 = match take_frames(frames, pages) {
        Ok(p) => p,
        Err(e) => return Err(e),
    };
    let ghost f0 = (*old(frames))->Some_0;
    let ghost f1 = (*frames)->Some_0;
    let body = MemoryObject {
        phys_base: phys,
        pages,
        flags: MemFlags::none(),
        ..MemoryObject::zero()
    };
    match g.create_under_process(owner, body) {
        Ok(m) => {
            proof {
                let r = Ok::<Ref<MemoryObject>, VmError>(m);
                assert(object_made_at(*old(g), f0, *g, *frames, owner.id(), pages, r, phys));
            }
            Ok(m)
        },
        Err(e) => {
            return_frames(frames, phys, pages);
            proof {
                let r = Err::<Ref<MemoryObject>, VmError>(VmError::Graph(e));
                let f2 = (*frames)->Some_0;
                assert(f0.fits(phys as int / 4096, pages as int));
                assert forall|f: int| #[trigger] f2.free(f) <==> f0.free(f) by {
                    assert(f1.free(f) <==> f0.free(f) && !(phys as int / 4096 <= f < phys as int
                        / 4096 + pages));
                }
                assert(object_made_at(*old(g), f0, *g, *frames, owner.id(), pages, r, phys));
            }
            Err(VmError::Graph(e))
        },
    }
}

// ----------------------------------------------------------------- mapping ---

/// A range of whole pages in the user half.
pub open spec fn user_range(a: MapsAttr) -> bool {
    a.vaddr % 4096 == 0 && a.end_at() <= USER_END
}

/// Why a mapping is refused before any entry is written, if it is.
pub open spec fn map_error(
    g: Graph,
    allocator: bool,
    s: NodeId,
    m: NodeId,
    attr: MapsAttr,
) -> Option<VmError> {
    if !g@.live(m) {
        Some(VmError::StaleSpace)
    } else if attr.off_pages + attr.len_pages > g@.memobj(m).pages {
        Some(VmError::OutOfBounds)
    } else if !user_range(attr) {
        Some(VmError::OutOfBounds)
    } else if !g@.live(s) {
        Some(VmError::StaleSpace)
    } else if g.map_refusal(s, m, attr) is Some {
        Some(VmError::Graph(g.map_refusal(s, m, attr)->Some_0))
    } else if !allocator {
        Some(VmError::NoAllocator)
    } else {
        None
    }
}

/// The root of a space's page tables.
pub open spec fn root_in(v: GraphView, s: NodeId) -> int {
    crate::paging::root_of(v.space(s).pml4_phys)
}

/// Map a slice of a memory object into an address space.
///
/// The edge comes first, because creating it is what performs the overlap
/// check. If the page-table write fails after that, the edge is removed again:
/// a `Maps` edge with no page tables behind it is precisely what must not be.
pub fn map(
    g: &mut Graph,
    mem: &mut [u8],
    frames: &mut Option<FrameAllocator<'_>>,
    space: Ref<AddressSpace>,
    obj: Ref<MemoryObject>,
    attr: MapsAttr,
) -> (r: Result<EdgeId, VmError>)
    requires
        old(g).wf(),
        old(g).seq < u64::MAX - 1,
        old(g)@.live(obj.id()) ==> old(g)@.memobj(obj.id()).map_count < u32::MAX && old(
            g,
        )@.memobj(obj.id()).phys_base + old(g)@.memobj(obj.id()).pages * 4096 <= u64::MAX,
        old(g)@.live(space.id()) ==> (*old(frames) matches Some(fa) ==> crate::paging::ready(
            fa,
            old(mem)@,
            root_in(old(g)@, space.id()),
        )),
    ensures
        final(g).wf(),
        map_done(
            *old(g),
            old(mem)@,
            *old(frames),
            *final(g),
            final(mem)@,
            *final(frames),
            space.id(),
            obj.id(),
            attr,
            r,
        ),
        final(g)@.since(old(g)@),
{
    let ghost v0 = g@;
    let ghost m0 = mem@;
    let (phys_base, pages): (u64, u32) = match g.body(obj) {
        Some(b) => (b.phys_base, b.pages),
        None => return Err(VmError::StaleSpace),
    };
    proof {
        assert(v0.nodes.contains_key(obj.id()));
        assert(v0.node_ok(obj.id()));
    }
    if attr.off_pages as u64 + attr.len_pages as u64 > pages as u64 {
        return Err(VmError::OutOfBounds);
    }
    // The kernel half is shared by every space and never changes after boot.
    if attr.vaddr % 4096 != 0 || attr.vaddr > USER_END || attr.len_pages as u64 * 4096 > USER_END
        - attr.vaddr {
        return Err(VmError::OutOfBounds);
    }
    let pml4: u64 = match g.body(space) {
        Some(b) => b.pml4_phys,
        None => return Err(VmError::StaleSpace),
    };
    proof {
        assert(v0.nodes.contains_key(space.id()));
        assert(v0.node_ok(space.id()));
        assert(pml4 == v0.space(space.id()).pml4_phys);
    }
    let edge = match g.link_maps(space, obj, attr) {
        Ok(e) => e,
        Err(e) => return Err(VmError::Graph(e)),
    };
    assert(g@.has_edge(edge));
    let paddr: u64 = phys_base + (attr.off_pages as u64) * 4096;
    match frames {
        None => {
            let _ = g.unlink(edge);
            Err(VmError::NoAllocator)
        },
        Some(fa) => {
            let ghost f0 = *fa;
            // A lazy mapping writes no entries at all. The edge is the
            // mapping; the page tables are a cache of it, and a cache is
            // allowed to be cold. `fault_in` fills it a page at a time.
            if attr.flags.contains(MapFlags::lazy()) {
                proof {
                    crate::paging::grown_none(
                        m0,
                        f0,
                        crate::paging::root_of(pml4),
                        crate::paging::toward_run(attr.vaddr, attr.len_pages as int),
                    );
                }
                return Ok(edge);
            }
            let done = map_pages(mem, pml4, attr.vaddr, paddr, attr.len_pages, attr.prot, fa);
            let ghost m1 = mem@;
            let ghost f1 = *fa;
            match done {
                Ok(_) => Ok(edge),
                Err(e) => {
                    // Roll back both halves, in the order that leaves nothing
                    // dangling.
                    proof {
                        crate::paging::grown_ready(
                            m0,
                            f0,
                            m1,
                            f1,
                            crate::paging::root_of(pml4),
                            crate::paging::toward_run(attr.vaddr, attr.len_pages as int),
                        );
                    }
                    unmap_pages(mem, pml4, attr.vaddr, attr.len_pages);
                    let _ = g.unlink(edge);
                    proof {
                        let root = crate::paging::root_of(pml4);
                        let way = crate::paging::toward_run(attr.vaddr, attr.len_pages as int);
                        crate::paging::leaves_grow(m1, f1, mem@, root, way);
                        crate::paging::grown_twice(m0, f0, m1, f1, mem@, f1, root, way);
                        let k = choose|k: int|
                            0 <= k < attr.len_pages && #[trigger] crate::paging::map_stopped(
                                m0,
                                m1,
                                f1,
                                root,
                                attr.vaddr,
                                paddr,
                                attr.prot,
                                k,
                                e,
                            );
                        assert forall|w: u64| #[trigger]
                            crate::tables::lookup(mem@, root, w) == if crate::paging::page_offset(
                            w,
                            attr.vaddr,
                        ) < attr.len_pages {
                            None
                        } else {
                            crate::tables::lookup(m0, root, w)
                        } by {
                            assert(crate::tables::lookup(m1, root, w)
                                == if crate::paging::page_offset(w, attr.vaddr) < k {
                                Some(
                                    crate::paging::page_at(
                                        paddr,
                                        crate::paging::page_offset(w, attr.vaddr),
                                    ) | crate::paging::flags_of(attr.prot),
                                )
                            } else {
                                crate::tables::lookup(m0, root, w)
                            });
                        }
                    }
                    Err(VmError::Paging(e))
                },
            }
        },
    }
}

/// What asking for a mapping does. A refusal changes nothing; without an
/// allocator the edge is made and removed again.
pub open spec fn map_done(
    g0: Graph,
    m0: Seq<u8>,
    f0: Option<FrameAllocator<'_>>,
    g1: Graph,
    m1: Seq<u8>,
    f1: Option<FrameAllocator<'_>>,
    s: NodeId,
    m: NodeId,
    attr: MapsAttr,
    r: Result<EdgeId, VmError>,
) -> bool {
    &&& f1 is Some <==> f0 is Some
    &&& match map_error(g0, f0 is Some, s, m, attr) {
        Some(e) => {
            &&& r == Err::<EdgeId, VmError>(e)
            &&& m1 == m0
            &&& f1 == f0
            &&& e != VmError::NoAllocator ==> g1 == g0
            &&& e == VmError::NoAllocator ==> g1@ == g0@.mapped(s, m, attr, g0.next_edge()).unlink(
                g0.next_edge().idx(),
            )
        },
        None => map_written(
            g0@,
            m0,
            f0->Some_0,
            g1@,
            m1,
            f1->Some_0,
            s,
            m,
            attr,
            g0.next_edge(),
            r,
        ),
    }
}

/// What writing the entries of a new mapping does: all of them are written, or
/// none is there and neither is the edge.
pub open spec fn map_written(
    v0: GraphView,
    m0: Seq<u8>,
    f0: FrameAllocator<'_>,
    v1: GraphView,
    m1: Seq<u8>,
    f1: FrameAllocator<'_>,
    s: NodeId,
    m: NodeId,
    attr: MapsAttr,
    edge: EdgeId,
    r: Result<EdgeId, VmError>,
) -> bool {
    let root = root_in(v0, s);
    let paddr = (v0.memobj(m).phys_base + attr.off_pages * 4096) as u64;
    &&& v0.unused(edge)
    &&& v0.mapped(s, m, attr, edge).wf()
    &&& crate::paging::grown(
        m0,
        f0,
        m1,
        f1,
        root,
        crate::paging::toward_run(attr.vaddr, attr.len_pages as int),
    )
    &&& attr.flags.contains(MapFlags(1)) ==> r is Ok && m1 == m0 && f1 == f0
    &&& match r {
        Ok(e) => {
            &&& e == edge
            &&& v1 == v0.mapped(s, m, attr, edge)
            &&& !attr.flags.contains(MapFlags(1)) ==> crate::paging::mapped_run(
                m0,
                m1,
                root,
                attr.vaddr,
                paddr,
                attr.len_pages as int,
                attr.prot,
            ) && crate::paging::vacant(m0, root, attr.vaddr, attr.len_pages as int)
        },
        Err(e) => {
            &&& v1 == v0.mapped(s, m, attr, edge).unlink(edge.idx())
            &&& crate::paging::unmapped_run(m0, m1, root, attr.vaddr, attr.len_pages as int)
            &&& match e {
                VmError::Paging(MapError::AlreadyMapped(va)) => crate::tables::lookup(
                    m0,
                    root,
                    va,
                ) is Some && exists|k: int|
                    0 <= k < attr.len_pages && va == #[trigger] crate::paging::page_at(
                        attr.vaddr,
                        k,
                    ),
                VmError::Paging(MapError::OutOfFrames) => f1.no_fit(1, 1) || exists|k: int|
                    0 <= k < attr.len_pages && crate::tables::blocked(
                        m0,
                        root,
                        #[trigger] crate::paging::page_at(attr.vaddr, k),
                    ),
                _ => false,
            }
        },
    }
}

/// What unmapping does: the edge goes, and its entries.
pub open spec fn unmap_done(
    g0: Graph,
    m0: Seq<u8>,
    g1: Graph,
    m1: Seq<u8>,
    edge: EdgeId,
    r: Result<(), VmError>,
) -> bool {
    if !g0@.has_edge(edge) {
        &&& r == Err::<(), VmError>(VmError::Graph(GraphError::StaleEdge(edge)))
        &&& g1 == g0
        &&& m1 == m0
    } else if g0@.edges[edge.idx()].kind != EdgeKind::Maps {
        &&& r == Err::<(), VmError>(VmError::StaleSpace)
        &&& g1 == g0
        &&& m1 == m0
    } else {
        let s = g0@.edges[edge.idx()].src;
        let a = g0@.maps(edge.idx());
        &&& r == Ok::<(), VmError>(())
        &&& g1@ == g0@.unlink(edge.idx())
        &&& crate::paging::leaves_changed(
            m0,
            m1,
            root_in(g0@, s),
            crate::paging::toward_run(a.vaddr, a.len_pages as int),
        )
        &&& crate::tables::tree(m1, root_in(g0@, s))
        &&& crate::paging::unmapped_run(m0, m1, root_in(g0@, s), a.vaddr, a.len_pages as int)
    }
}

/// Remove a mapping: clear the entries, and drop the edge. The caller flushes
/// the pages.
pub fn unmap(g: &mut Graph, mem: &mut [u8], edge: EdgeId) -> (r: Result<(), VmError>)
    requires
        old(g).wf(),
        old(g).seq < u64::MAX,
        old(g)@.has_edge(edge) && old(g)@.edges[edge.idx()].kind == EdgeKind::Maps ==> {
            &&& old(g)@.maps(edge.idx()).fits()
            &&& crate::tables::tree(
                old(mem)@,
                root_in(old(g)@, old(g)@.edges[edge.idx()].src),
            )
        },
    ensures
        final(g).wf(),
        unmap_done(*old(g), old(mem)@, *final(g), final(mem)@, edge, r),
        final(g)@.since(old(g)@),
{
    let ghost v0 = g@;
    let (src, attr): (NodeId, MapsAttr) = match g.edge(edge) {
        Some(e) => (e.src, MapsAttr::decode(e.data)),
        None => return Err(VmError::Graph(GraphError::StaleEdge(edge))),
    };
    proof {
        assert(v0.edges.contains_key(edge.idx()));
        assert(v0.edge_ok(edge.idx()));
        assert(v0.nodes.contains_key(src));
        assert(v0.node_ok(src));
    }
    let space = match g.typed::<AddressSpace>(src) {
        Some(s) => s,
        None => return Err(VmError::StaleSpace),
    };
    let pml4: u64 = match g.body(space) {
        Some(b) => b.pml4_phys,
        None => return Err(VmError::StaleSpace),
    };
    assert(pml4 == v0.space(src).pml4_phys);
    unmap_pages(mem, pml4, attr.vaddr, attr.len_pages);
    match g.unlink(edge) {
        Ok(_) => Ok(()),
        Err(e) => Err(VmError::Graph(e)),
    }
}

} // verus!
