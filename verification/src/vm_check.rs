//! Page faults, and comparing the page tables with the graph in both
//! directions.

use vstd::prelude::*;

use crate::body::{AddressSpace, MemoryObject, NodeBody, Thread};
use crate::edge::{Dir, EdgeAttr, MapFlags, MapsAttr, Prot};
use crate::frames::FrameAllocator;
use crate::graph::Graph;
use crate::id::{EdgeId, EdgeKind, NodeId, NodeKind};
use crate::paging::{flags_match, map_pages, translate};
use crate::spaces::walk_user_pages;
use crate::syscall::USER_END;
use crate::tables::PTE_ADDR_MASK;
use crate::view::GraphView;

verus! {

impl GraphView {
    /// Every mapping of a space, and the memory behind it, ends inside the
    /// 64-bit space.
    pub open spec fn mappings_fit(self, s: NodeId) -> bool {
        let out = self.list(s, Dir::Out, EdgeKind::Maps);
        forall|k: int|
            0 <= k < out.len() ==> self.maps(#[trigger] out[k]).fits() && self.memobj(
                self.edges[out[k]].dst,
            ).phys_base + (self.maps(out[k]).off_pages + self.maps(out[k]).len_pages) * 4096
                <= u64::MAX
    }

    /// The space a thread runs in.
    pub open spec fn space_under(self, t: NodeId) -> Option<NodeId> {
        let s = self.list(t, Dir::Out, EdgeKind::InSpace);
        if self.live(t) && t.kind() == Some(NodeKind::Thread) && s.len() > 0 {
            Some(self.edges[s[0]].dst)
        } else {
            None
        }
    }

    /// Mapping `e` of space `s` covers the page and is filled in on demand.
    pub open spec fn lazily_covers(self, s: NodeId, e: u32, page: u64) -> bool {
        &&& self.list(s, Dir::Out, EdgeKind::Maps).contains(e)
        &&& self.maps(e).spec_covers(page)
        &&& self.maps(e).flags.contains(MapFlags(1))
    }

    /// The mapping serves a fault on the page with that frame and protection.
    pub open spec fn serves(self, s: NodeId, e: u32, page: u64, goal: (u64, u64, Prot)) -> bool {
        &&& self.lazily_covers(s, e, page)
        &&& goal.1 == self.behind(e, page)
        &&& goal.2 == self.maps(e).prot
    }

    /// The physical page behind a virtual page of a mapping.
    pub open spec fn behind(self, e: u32, vaddr: u64) -> int {
        let a = self.maps(e);
        self.memobj(self.edges[e].dst).phys_base + (a.off_pages + (vaddr - a.vaddr) / 4096) * 4096
    }
}

/// Where the entry for a fault goes and what it says: the page-table root, the
/// frame and the protection.
pub open spec fn fault_goal(
    v: GraphView,
    current: NodeId,
    page: u64,
    goal: (u64, u64, Prot),
) -> bool {
    let s = v.space_under(current)->Some_0;
    &&& page < USER_END
    &&& v.space_under(current) is Some
    &&& goal.0 == v.space(s).pml4_phys
    &&& exists|e: u32| #[trigger] v.serves(s, e, page, goal)
}

/// Which page a fault could be served with.
///
/// This is the question adjacency cannot answer on its own: *which mapping
/// covers this address?* The answer is the range index, a binary search over
/// the space's `Maps` edges, kept sorted by the same two operations that create
/// and destroy them.
fn fault_target(g: &Graph, current: NodeId, page: u64) -> (r: Option<(u64, u64, Prot)>)
    requires
        g.wf(),
        g@.space_under(current) matches Some(s) ==> g@.index_ok(s) && g@.mappings_fit(s),
    ensures
        r matches Some(goal) ==> fault_goal(g@, current, page, goal),
        r is None ==> forall|goal: (u64, u64, Prot)| !fault_goal(g@, current, page, goal),
{
    let ghost v = g@;
    // The kernel half never changes after boot.
    if page >= USER_END {
        return None;
    }
    let t = match g.typed::<Thread>(current) {
        Some(t) => t,
        None => return None,
    };
    let space = match g.space_of(t) {
        Some(s) => s,
        None => return None,
    };
    let ghost s = space.id();
    let ghost out = v.list(s, Dir::Out, EdgeKind::Maps);
    proof {
        assert(v.nodes.contains_key(s));
        assert(v.node_ok(s));
        assert(v.lists.contains_key((s, Dir::Out, EdgeKind::Maps)));
        crate::maps::indexed_mappings_are_disjoint(v, s);
        assert forall|e: u32, f: u32|
            out.contains(e) && out.contains(f) && #[trigger] v.maps(e).spec_covers(page)
                && #[trigger] v.maps(f).spec_covers(page) implies e == f by {
            let i = out.index_of(e);
            let j = out.index_of(f);
            if i < j {
                assert(!v.maps(out[i]).spec_overlaps(v.maps(out[j])));
            }
            if j < i {
                assert(!v.maps(out[j]).spec_overlaps(v.maps(out[i])));
            }
        }
    }
    let (eid, attr): (EdgeId, MapsAttr) = match g.find_mapping(space, page) {
        Some(x) => x,
        None => {
            proof {
                assert forall|goal: (u64, u64, Prot)| !fault_goal(v, current, page, goal) by {
                    if fault_goal(v, current, page, goal) {
                        let e = choose|e: u32| #[trigger] v.serves(s, e, page, goal);
                        let i = out.index_of(e);
                        assert(v.maps(out[i]).spec_covers(page));
                    }
                }
            }
            return None;
        },
    };
    let ghost e = eid.idx();
    proof {
        let ix = v.space(s).indexed();
        let k = ix.index_of(e);
        assert(v.space(s).ranges@[k] == e);
        assert(v.edges.contains_key(e));
        assert(v.edge_ok(e));
        assert(out.contains(e));
    }
    if !attr.flags.contains(MapFlags::lazy()) {
        // An eager mapping is already in the tables, so a fault on one is a
        // protection violation and the process's own doing.
        proof {
            assert forall|goal: (u64, u64, Prot)| !fault_goal(v, current, page, goal) by {
                if fault_goal(v, current, page, goal) {
                    let f = choose|f: u32| #[trigger] v.serves(s, f, page, goal);
                    assert(v.maps(f).spec_covers(page));
                    assert(v.maps(e).spec_covers(page));
                    assert(e == f);
                }
            }
        }
        return None;
    }
    let dst = match g.edge(eid) {
        Some(x) => x.dst,
        None => return None,
    };
    proof {
        assert(v.nodes.contains_key(dst));
        assert(v.node_ok(dst));
    }
    let obj = match g.typed::<MemoryObject>(dst) {
        Some(o) => o,
        None => return None,
    };
    let base: u64 = match g.body(obj) {
        Some(b) => b.phys_base,
        None => return None,
    };
    let pml4: u64 = match g.body(space) {
        Some(b) => b.pml4_phys,
        None => return None,
    };
    let index: u64 = (page - attr.vaddr) / 4096 + attr.off_pages as u64;
    proof {
        let i = out.index_of(e);
        assert(v.maps(out[i]).fits());
        assert((page - attr.vaddr) / 4096 < attr.len_pages);
    }
    let paddr: u64 = base + index * 4096;
    assert(v.serves(s, e, page, (pml4, paddr, attr.prot)));
    Some((pml4, paddr, attr.prot))
}

/// The page an address is in.
pub open spec fn page_base(addr: u64) -> u64 {
    (addr - addr % 4096) as u64
}

/// Try to satisfy a page fault by filling in one page of a lazy mapping.
///
/// Returns false if nothing here authorises the access, in which case the
/// caller destroys the process.
pub fn fault_in(
    g: &Graph,
    mem: &mut [u8],
    frames: &mut Option<FrameAllocator<'_>>,
    current: NodeId,
    addr: u64,
) -> (r: bool)
    requires
        g.wf(),
        g@.space_under(current) matches Some(s) ==> {
            &&& g@.index_ok(s)
            &&& g@.mappings_fit(s)
            &&& *old(frames) matches Some(fa) ==> crate::paging::ready(
                fa,
                old(mem)@,
                crate::vm::root_in(g@, s),
            )
        },
    ensures
        *final(frames) is Some <==> *old(frames) is Some,
        fault_answered(
            g@,
            old(mem)@,
            *old(frames),
            final(mem)@,
            *final(frames),
            current,
            addr,
            r,
        ),
{
    let page: u64 = addr - addr % 4096;
    let ghost m0 = mem@;
    let (pml4, paddr, prot): (u64, u64, Prot) = match fault_target(g, current, page) {
        Some(t) => t,
        None => return false,
    };
    let ghost goal = (pml4, paddr, prot);
    match frames {
        None => {
            assert(fault_goal(g@, current, page_base(addr), goal));
            false
        },
        Some(fa) => {
            let ghost f0 = *fa;
            assert(crate::paging::page_at(page, 0) == page);
            match map_pages(mem, pml4, page, paddr, 1, prot, fa) {
                Ok(_) => {
                    assert(crate::tables::lookup(m0, crate::paging::root_of(pml4), page) is None)
                        by {
                        assert(crate::tables::lookup(
                            m0,
                            crate::paging::root_of(pml4),
                            crate::paging::page_at(page, 0),
                        ) is None);
                    }
                    assert(fault_goal(g@, current, page_base(addr), goal));
                    true
                },
                // Already present means the fault was about permissions, not
                // absence.
                Err(e) => {
                    proof {
                        let root = crate::paging::root_of(pml4);
                        let k = choose|k: int|
                            0 <= k < 1 && #[trigger] crate::paging::map_stopped(
                                m0,
                                mem@,
                                *fa,
                                root,
                                page,
                                paddr,
                                prot,
                                k,
                                e,
                            );
                        assert forall|w: u64| #[trigger]
                            crate::tables::lookup(mem@, root, w) == crate::tables::lookup(
                            m0,
                            root,
                            w,
                        ) by {}
                        assert(fault_goal(g@, current, page_base(addr), goal));
                    }
                    false
                },
            }
        },
    }
}

/// What a fault comes to: it is served, or there is nothing to serve it with,
/// or it could not be.
pub open spec fn fault_answered(
    v: GraphView,
    m0: Seq<u8>,
    f0: Option<FrameAllocator<'_>>,
    m1: Seq<u8>,
    f1: Option<FrameAllocator<'_>>,
    current: NodeId,
    addr: u64,
    r: bool,
) -> bool {
    let page = page_base(addr);
    &&& r ==> exists|goal: (u64, u64, Prot)| #[trigger]
        fault_goal(v, current, page, goal) && fault_served(m0, f0, m1, f1, page, goal)
    &&& !r ==> (forall|goal: (u64, u64, Prot)| !#[trigger] fault_goal(v, current, page, goal)) && m1
        == m0 && f1 == f0 || exists|goal: (u64, u64, Prot)| #[trigger]
        fault_goal(v, current, page, goal) && fault_refused(m0, f0, m1, f1, page, goal)
}

/// One entry was written where there was none.
pub open spec fn fault_served(
    m0: Seq<u8>,
    f0: Option<FrameAllocator<'_>>,
    m1: Seq<u8>,
    f1: Option<FrameAllocator<'_>>,
    page: u64,
    goal: (u64, u64, Prot),
) -> bool {
    let root = crate::paging::root_of(goal.0);
    &&& f0 is Some
    &&& f1 is Some
    &&& crate::tables::lookup(m0, root, page) is None
    &&& crate::paging::grown(
        m0,
        f0->Some_0,
        m1,
        f1->Some_0,
        root,
        crate::paging::toward_run(page, 1),
    )
    &&& crate::paging::mapped_run(m0, m1, root, page, goal.1, 1, goal.2)
}

/// No entry could be written: there is one already, or no frame for a table.
pub open spec fn fault_refused(
    m0: Seq<u8>,
    f0: Option<FrameAllocator<'_>>,
    m1: Seq<u8>,
    f1: Option<FrameAllocator<'_>>,
    page: u64,
    goal: (u64, u64, Prot),
) -> bool {
    let root = crate::paging::root_of(goal.0);
    match f0 {
        None => m1 == m0,
        Some(fa) => {
            &&& f1 is Some
            &&& crate::paging::grown(
                m0,
                fa,
                m1,
                f1->Some_0,
                root,
                crate::paging::toward_run(page, 1),
            )
            &&& crate::paging::same_lookups(m0, m1, root)
            &&& crate::tables::lookup(m0, root, page) is Some || crate::tables::blocked(
                m0,
                root,
                page,
            ) || f1->Some_0.no_fit(1, 1)
        },
    }
}

// --------------------------------------------------------------- invariant ---

#[derive(Clone, Copy, Debug, PartialEq, Eq, Structural)]
pub enum I5 {
    /// The graph says this page is mapped; the hardware disagrees.
    MissingEntry { space: NodeId, edge: EdgeId, vaddr: u64 },
    /// Mapped, but to the wrong frame.
    WrongFrame { space: NodeId, edge: EdgeId, vaddr: u64, want: u64, got: u64 },
    /// Mapped to the right frame with the wrong permissions.
    WrongProt { space: NodeId, edge: EdgeId, vaddr: u64, entry: u64, prot: Prot },
    /// The hardware has a mapping the graph never authorised. This is the
    /// direction that catches a leak of authority rather than a loss of it.
    UnknownEntry { space: NodeId, vaddr: u64, phys: u64 },
}

impl GraphView {
    /// Page `i` of a mapping is in the tables as the edge says, or not there
    /// yet if the mapping is lazy.
    pub open spec fn page_backed(self, mem: Seq<u8>, s: NodeId, e: u32, i: int) -> bool {
        let a = self.maps(e);
        match crate::tables::lookup(
            mem,
            crate::vm::root_in(self, s),
            crate::paging::page_at(a.vaddr, i),
        ) {
            None => a.flags.contains(MapFlags(1)),
            Some(x) => crate::tables::frame_of(x) == self.frame_for(e, i) && crate::paging::grants(
                x,
                a.prot,
            ),
        }
    }

    /// The physical address page `i` of a mapping should name.
    pub open spec fn frame_for(self, e: u32, i: int) -> int {
        self.memobj(self.edges[e].dst).phys_base + (self.maps(e).off_pages + i) * 4096
    }

    /// Every edge is backed by the entries it claims.
    pub open spec fn backed(self, mem: Seq<u8>, s: NodeId) -> bool {
        let out = self.list(s, Dir::Out, EdgeKind::Maps);
        forall|k: int, i: int|
            0 <= k < out.len() && 0 <= i < self.maps(out[k]).len_pages
                ==> #[trigger] self.page_backed(mem, s, out[k], i)
    }

    /// Some edge of the space accounts for this hardware mapping.
    pub open spec fn covered(self, s: NodeId, vaddr: u64, phys: u64) -> bool {
        let out = self.list(s, Dir::Out, EdgeKind::Maps);
        exists|k: int|
            0 <= k < out.len() && self.maps(#[trigger] out[k]).spec_covers(vaddr) && self.behind(
                out[k],
                vaddr,
            ) == phys
    }

    /// No entry of the user half exists that no edge asked for.
    pub open spec fn accounted(self, mem: Seq<u8>, s: NodeId) -> bool {
        forall|w: u64|
            w < 0x8000_0000_0000 && w % 4096 == 0 && (#[trigger] crate::tables::lookup(
                mem,
                crate::vm::root_in(self, s),
                w,
            )) is Some ==> self.covered(
                s,
                w,
                crate::tables::frame_of(
                    crate::tables::lookup(mem, crate::vm::root_in(self, s), w)->Some_0,
                ),
            )
    }

    /// A live address space that is not the kernel's own.
    pub open spec fn user_space(self, s: NodeId) -> bool {
        self.live(s) && s.kind() == Some(NodeKind::AddressSpace) && self.space(s).is_kernel == 0
    }

    /// The page tables of every user space are a cache of its edges.
    pub open spec fn tables_match(self, mem: Seq<u8>) -> bool {
        forall|s: NodeId| #[trigger]
            self.user_space(s) ==> self.backed(mem, s) && self.accounted(mem, s)
    }
}

impl GraphView {
    /// A user space's tables are a cache of its edges.
    pub open spec fn cached(self, mem: Seq<u8>, s: NodeId) -> bool {
        self.user_space(s) ==> self.backed(mem, s) && self.accounted(mem, s)
    }

    /// The first `k` mappings of a space are backed, and the first `i` pages
    /// of the one after them.
    pub open spec fn backed_until(self, mem: Seq<u8>, s: NodeId, k: int, i: int) -> bool {
        let out = self.list(s, Dir::Out, EdgeKind::Maps);
        &&& 0 <= k < out.len()
        &&& 0 <= i < self.maps(out[k]).len_pages
        &&& forall|x: int, y: int|
            0 <= x <= k && 0 <= y < self.maps(out[x]).len_pages && (x < k || y < i)
                ==> #[trigger] self.page_backed(mem, s, out[x], y)
    }
}

impl I5 {
    /// What a complaint about page `i` of a mapping says.
    pub open spec fn about_page(self, v: GraphView, mem: Seq<u8>, s: NodeId, e: u32, i: int) -> bool {
        let at = crate::paging::page_at(v.maps(e).vaddr, i);
        let found = crate::tables::lookup(mem, crate::vm::root_in(v, s), at);
        match self {
            I5::MissingEntry { space, edge, vaddr } => space == s && v.has_edge(edge) && edge.idx()
                == e && vaddr == at && found is None && !v.maps(e).flags.contains(MapFlags(1)),
            I5::WrongFrame { space, edge, vaddr, want, got } => space == s && v.has_edge(edge)
                && edge.idx() == e && vaddr == at && want == v.frame_for(e, i) && (
            found matches Some(x) && got == crate::tables::frame_of(x)) && got != want,
            I5::WrongProt { space, edge, vaddr, entry, prot } => space == s && v.has_edge(edge)
                && edge.idx() == e && vaddr == at && prot == v.maps(e).prot && found == Some(entry)
                && crate::tables::frame_of(entry) == v.frame_for(e, i) && !crate::paging::grants(
                entry,
                prot,
            ),
            I5::UnknownEntry { .. } => false,
        }
    }

    /// What a complaint about an entry that no edge asked for says: it is the
    /// one at the lowest address.
    pub open spec fn about_entry(self, v: GraphView, mem: Seq<u8>, s: NodeId) -> bool {
        self matches I5::UnknownEntry { space, vaddr, phys } && space == s && vaddr
            < 0x8000_0000_0000 && vaddr % 4096 == 0 && (crate::tables::lookup(
            mem,
            crate::vm::root_in(v, s),
            vaddr,
        ) matches Some(x) && phys == crate::tables::frame_of(x)) && !v.covered(s, vaddr, phys)
            && forall|w: u64|
            w < vaddr && w % 4096 == 0 && (#[trigger] crate::tables::lookup(
                mem,
                crate::vm::root_in(v, s),
                w,
            )) is Some ==> v.covered(
                s,
                w,
                crate::tables::frame_of(
                    crate::tables::lookup(mem, crate::vm::root_in(v, s), w)->Some_0,
                ),
            )
    }

    /// What a complaint about one space says: of the first page that is not
    /// backed, or else of the first entry that no edge asked for.
    pub open spec fn about_space(self, v: GraphView, mem: Seq<u8>, s: NodeId) -> bool {
        let out = v.list(s, Dir::Out, EdgeKind::Maps);
        if v.backed(mem, s) {
            self.about_entry(v, mem, s)
        } else {
            exists|k: int, i: int| #[trigger]
                v.backed_until(mem, s, k, i) && self.about_page(v, mem, s, out[k], i)
        }
    }

    /// The complaint made about the tables: of the first space, in the order
    /// of the arena, whose tables are not a cache of its edges.
    pub open spec fn is_first_of(self, g: Graph, mem: Seq<u8>) -> bool {
        let ids = g.all_live_ids();
        exists|j: int|
            0 <= j < ids.len() && !#[trigger] g@.cached(mem, ids[j]) && self.about_space(
                g@,
                mem,
                ids[j],
            ) && forall|i: int| 0 <= i < j ==> #[trigger] g@.cached(mem, ids[i])
    }
}

/// The pages of one mapping are in the tables as the edge says.
fn check_mapping(g: &Graph, mem: &[u8], node: NodeId, pml4: u64, eid: EdgeId) -> (r: Result<(), I5>)
    requires
        g.wf(),
        g@.user_space(node),
        pml4 == g@.space(node).pml4_phys,
        crate::tables::tree(mem@, crate::vm::root_in(g@, node)),
        g@.mappings_fit(node),
        g@.has_edge(eid),
        g@.list(node, Dir::Out, EdgeKind::Maps).contains(eid.idx()),
    ensures
        r is Ok <==> forall|i: int|
            0 <= i < g@.maps(eid.idx()).len_pages ==> #[trigger] g@.page_backed(
                mem@,
                node,
                eid.idx(),
                i,
            ),
        r matches Err(x) ==> exists|i: int|
            0 <= i < g@.maps(eid.idx()).len_pages && !#[trigger] g@.page_backed(
                mem@,
                node,
                eid.idx(),
                i,
            ) && x.about_page(g@, mem@, node, eid.idx(), i) && forall|y: int|
                0 <= y < i ==> #[trigger] g@.page_backed(mem@, node, eid.idx(), y),
{
    let ghost v = g@;
    let ghost e = eid.idx();
    let (attr, dst): (MapsAttr, NodeId) = match g.edge(eid) {
        Some(x) => (MapsAttr::decode(x.data), x.dst),
        None => return Ok(()),
    };
    proof {
        let out = v.list(node, Dir::Out, EdgeKind::Maps);
        let k = out.index_of(e);
        assert(v.lists.contains_key((node, Dir::Out, EdgeKind::Maps)));
        assert(v.list_ok((node, Dir::Out, EdgeKind::Maps)));
        assert(v.edges[out[k]].kind == EdgeKind::Maps);
        assert(v.edges.contains_key(e));
        assert(v.edge_ok(e));
        assert(v.maps(out[k]).fits());
        assert(v.nodes.contains_key(dst));
        assert(v.node_ok(dst));
    }
    let obj = match g.typed::<MemoryObject>(dst) {
        Some(o) => o,
        None => return Ok(()),
    };
    let base: u64 = match g.body(obj) {
        Some(b) => b.phys_base,
        None => return Ok(()),
    };
    let lazy: bool = attr.flags.contains(MapFlags::lazy());
    let mut i: u32 = 0;
    while i < attr.len_pages
        invariant
            i <= attr.len_pages,
            v == g@,
            e == eid.idx(),
            attr == v.maps(e),
            attr.fits(),
            lazy == attr.flags.contains(MapFlags(1)),
            v.user_space(node),
            v.has_edge(eid),
            pml4 == v.space(node).pml4_phys,
            dst == v.edges[e].dst,
            base == v.memobj(dst).phys_base,
            base + (attr.off_pages + attr.len_pages) * 4096 <= u64::MAX,
            crate::tables::tree(mem@, crate::vm::root_in(v, node)),
            forall|j: int| 0 <= j < i ==> #[trigger] v.page_backed(mem@, node, e, j),
        decreases attr.len_pages - i,
    {
        let vaddr: u64 = attr.vaddr + (i as u64) * 4096;
        let want: u64 = base + (attr.off_pages as u64 + i as u64) * 4096;
        assert(vaddr == crate::paging::page_at(attr.vaddr, i as int));
        assert(want == v.frame_for(e, i as int));
        match translate(mem, pml4, vaddr) {
            None => {
                // A lazy mapping is allowed to have no entry yet: the edge is
                // the mapping and the tables are a cache of it, so a cold
                // cache is not a divergence. What is *not* allowed is an entry
                // nobody authorised.
                if !lazy {
                    assert(!v.page_backed(mem@, node, e, i as int));
                    let x = I5::MissingEntry { space: node, edge: eid, vaddr };
                    assert(x.about_page(v, mem@, node, e, i as int));
                    return Err(x);
                }
            },
            Some((got, entry)) => {
                if got != want {
                    assert(!v.page_backed(mem@, node, e, i as int));
                    return Err(I5::WrongFrame { space: node, edge: eid, vaddr, want, got });
                }
                if !flags_match(entry, attr.prot) {
                    assert(!v.page_backed(mem@, node, e, i as int));
                    return Err(
                        I5::WrongProt { space: node, edge: eid, vaddr, entry, prot: attr.prot },
                    );
                }
            },
        }
        assert(v.page_backed(mem@, node, e, i as int));
        i = i + 1;
    }
    Ok(())
}

/// Is this hardware mapping accounted for by some `Maps` edge on this space?
fn covered(g: &Graph, space: NodeId, vaddr: u64, phys: u64) -> (r: bool)
    requires
        g.wf(),
        g@.live(space),
        g@.mappings_fit(space),
    ensures
        r == g@.covered(space, vaddr, phys),
{
    let ghost v = g@;
    let ghost out = v.list(space, Dir::Out, EdgeKind::Maps);
    proof {
        crate::walk::wf_is_threaded(*g);
        assert(g.spec_live(space));
    }
    let ids = crate::checks::outgoing(g, space, EdgeKind::Maps);
    let mut k: usize = 0;
    while k < ids.len()
        invariant
            k <= ids@.len() == out.len(),
            g.wf(),
            v == g@,
            v.live(space),
            v.mappings_fit(space),
            out == v.list(space, Dir::Out, EdgeKind::Maps),
            forall|i: int|
                0 <= i < ids@.len() ==> (#[trigger] ids@[i]).idx() == out[i] && v.has_edge(ids@[i]),
            forall|i: int|
                0 <= i < k ==> !(v.maps(#[trigger] out[i]).spec_covers(vaddr) && v.behind(
                    out[i],
                    vaddr,
                ) == phys),
        decreases ids@.len() - k,
    {
        let eid = ids[k];
        let ghost e = out[k as int];
        assert(ids@[k as int].idx() == e);
        proof {
            assert(v.lists.contains_key((space, Dir::Out, EdgeKind::Maps)));
            assert(v.list_ok((space, Dir::Out, EdgeKind::Maps)));
            assert(v.edges[e].kind == EdgeKind::Maps);
            assert(v.edge_ok(e));
            assert(v.maps(e).fits());
            let d = v.edges[e].dst;
            assert(v.nodes.contains_key(d));
            assert(v.node_ok(d));
        }
        if let Some(edge) = g.edge(eid) {
            let attr = MapsAttr::decode(edge.data);
            if attr.covers(vaddr) {
                if let Some(obj) = g.typed::<MemoryObject>(edge.dst) {
                    if let Some(b) = g.body(obj) {
                        let page: u64 = (vaddr - attr.vaddr) / 4096;
                        assert(page < attr.len_pages);
                        if b.phys_base + (attr.off_pages as u64 + page) * 4096 == phys {
                            assert(v.maps(out[k as int]).spec_covers(vaddr));
                            return true;
                        }
                    }
                }
            }
        }
        k = k + 1;
    }
    false
}

/// Compare one space's tables with its edges, in both directions.
fn check_space(g: &Graph, mem: &[u8], node: NodeId, pml4: u64) -> (r: Result<(), I5>)
    requires
        g.wf(),
        g@.user_space(node),
        pml4 == g@.space(node).pml4_phys,
        crate::tables::tree(mem@, crate::vm::root_in(g@, node)),
        g@.mappings_fit(node),
    ensures
        r is Ok <==> g@.backed(mem@, node) && g@.accounted(mem@, node),
        r matches Err(x) ==> x.about_space(g@, mem@, node),
{
    let ghost v = g@;
    let ghost out = v.list(node, Dir::Out, EdgeKind::Maps);
    proof {
        crate::walk::wf_is_threaded(*g);
        assert(g.spec_live(node));
    }
    // Direction one: every edge is backed by the entries it claims.
    let ids = crate::checks::outgoing(g, node, EdgeKind::Maps);
    let mut k: usize = 0;
    while k < ids.len()
        invariant
            k <= ids@.len() == out.len(),
            g.wf(),
            v == g@,
            v.user_space(node),
            pml4 == v.space(node).pml4_phys,
            crate::tables::tree(mem@, crate::vm::root_in(v, node)),
            v.mappings_fit(node),
            out == v.list(node, Dir::Out, EdgeKind::Maps),
            forall|i: int|
                0 <= i < ids@.len() ==> (#[trigger] ids@[i]).idx() == out[i] && v.has_edge(ids@[i]),
            forall|j: int, i: int|
                0 <= j < k && 0 <= i < v.maps(out[j]).len_pages ==> #[trigger] v.page_backed(
                    mem@,
                    node,
                    out[j],
                    i,
                ),
        decreases ids@.len() - k,
    {
        assert(ids@[k as int].idx() == out[k as int]);
        assert(out.contains(out[k as int]));
        match check_mapping(g, mem, node, pml4, ids[k]) {
            Err(x) => {
                proof {
                    let e = out[k as int];
                    let i = choose|i: int|
                        0 <= i < v.maps(e).len_pages && !#[trigger] v.page_backed(mem@, node, e, i)
                            && x.about_page(v, mem@, node, e, i) && forall|y: int|
                            0 <= y < i ==> #[trigger] v.page_backed(mem@, node, e, y);
                    assert(!v.page_backed(mem@, node, out[k as int], i));
                    assert(!v.backed(mem@, node));
                    assert(v.backed_until(mem@, node, k as int, i));
                }
                return Err(x);
            },
            Ok(_) => {},
        }
        k = k + 1;
    }
    // Direction two: no entry exists that no edge asked for.
    let entries = walk_user_pages(mem, pml4);
    let ghost root = crate::vm::root_in(v, node);
    let mut n: usize = 0;
    while n < entries.len()
        invariant
            n <= entries@.len(),
            g.wf(),
            v == g@,
            v.user_space(node),
            root == crate::vm::root_in(v, node),
            v.mappings_fit(node),
            v.backed(mem@, node),
            forall|w: u64|
                w < 0x8000_0000_0000 && w % 4096 == 0 && (#[trigger] crate::tables::lookup(
                    mem@,
                    root,
                    w,
                )) is Some ==> entries@.contains(
                    (w, crate::tables::lookup(mem@, root, w)->Some_0),
                ),
            forall|j: int, k: int|
                0 <= j < k < entries@.len() ==> (#[trigger] entries@[j]).0 < (
                #[trigger] entries@[k]).0,
            forall|k: int|
                0 <= k < entries@.len() ==> (#[trigger] entries@[k]).0 < 0x8000_0000_0000
                    && entries@[k].0 % 4096 == 0 && crate::tables::lookup(mem@, root, entries@[k].0)
                    == Some(entries@[k].1),
            forall|j: int|
                0 <= j < n ==> v.covered(
                    node,
                    (#[trigger] entries@[j]).0,
                    crate::tables::frame_of(entries@[j].1),
                ),
        decreases entries@.len() - n,
    {
        let (vaddr, entry): (u64, u64) = entries[n];
        let phys: u64 = entry & PTE_ADDR_MASK;
        assert(entries@[n as int] == (vaddr, entry));
        if !covered(g, node, vaddr, phys) {
            assert(crate::tables::lookup(mem@, root, vaddr) == Some(entry));
            assert(!v.accounted(mem@, node));
            proof {
                assert forall|w: u64|
                    w < vaddr && w % 4096 == 0 && (#[trigger] crate::tables::lookup(
                        mem@,
                        root,
                        w,
                    )) is Some implies v.covered(
                    node,
                    w,
                    crate::tables::frame_of(crate::tables::lookup(mem@, root, w)->Some_0),
                ) by {
                    let x = (w, crate::tables::lookup(mem@, root, w)->Some_0);
                    assert(entries@.contains(x));
                    let j = entries@.index_of(x);
                    assert(entries@[j] == x);
                    assert(j < n);
                }
            }
            return Err(I5::UnknownEntry { space: node, vaddr, phys });
        }
        n = n + 1;
    }
    proof {
        assert forall|w: u64|
            w < 0x8000_0000_0000 && w % 4096 == 0 && (#[trigger] crate::tables::lookup(
                mem@,
                root,
                w,
            )) is Some implies v.covered(
            node,
            w,
            crate::tables::frame_of(crate::tables::lookup(mem@, root, w)->Some_0),
        ) by {
            let x = (w, crate::tables::lookup(mem@, root, w)->Some_0);
            assert(entries@.contains(x));
            let j = entries@.index_of(x);
            assert(entries@[j] == x);
        }
    }
    Ok(())
}

/// Compare the tables of every user address space with its edges, in both
/// directions.
///
/// The kernel's own space is exempt: it is one fixed mapping of all of physical
/// memory plus the image, and walking it would take as long as memory is large
/// and prove nothing.
pub fn check_page_tables(g: &Graph, mem: &[u8]) -> (r: Result<(), I5>)
    requires
        g.wf(),
        forall|s: NodeId| #[trigger]
            g@.user_space(s) ==> crate::tables::tree(mem@, crate::vm::root_in(g@, s))
                && g@.mappings_fit(s),
    ensures
        r is Ok <==> g@.tables_match(mem@),
        r matches Err(x) ==> x.is_first_of(*g, mem@),
{
    let ghost v = g@;
    let nodes = g.live_nodes();
    proof {
        crate::walk::every_live_node_is_listed(*g);
    }
    let mut i: usize = 0;
    while i < nodes.len()
        invariant
            i <= nodes@.len(),
            g.wf(),
            v == g@,
            nodes@ == g.all_live_ids(),
            forall|x: NodeId| #[trigger] g.all_live_ids().contains(x) <==> g.spec_live(x),
            forall|s: NodeId| #[trigger]
                v.user_space(s) ==> crate::tables::tree(mem@, crate::vm::root_in(v, s))
                    && v.mappings_fit(s),
            forall|j: int|
                0 <= j < i ==> #[trigger] v.cached(mem@, nodes@[j]),
        decreases nodes@.len() - i,
    {
        let node = nodes[i];
        assert(nodes@.contains(nodes@[i as int]));
        assert(v.nodes.contains_key(node));
        assert(v.node_ok(node));
        if let Some(space) = g.typed::<AddressSpace>(node) {
            if let Some(body) = g.body(space) {
                if body.is_kernel == 0 {
                    assert(v.user_space(node));
                    match check_space(g, mem, node, body.pml4_phys) {
                        Err(x) => {
                            assert(!v.cached(mem@, nodes@[i as int]));
                            return Err(x);
                        },
                        Ok(_) => {},
                    }
                }
            }
        }
        assert(v.cached(mem@, nodes@[i as int]));
        i = i + 1;
    }
    proof {
        assert forall|s: NodeId| #[trigger] v.user_space(s) implies v.backed(mem@, s)
            && v.accounted(mem@, s) by {
            assert(g.spec_live(s));
            assert(nodes@.contains(s));
            let j = nodes@.index_of(s);
            assert(v.cached(mem@, nodes@[j]));
        }
    }
    Ok(())
}

} // verus!
