//! What the processor makes of the page tables: where its walk goes, and what
//! the bits of an entry mean to it.

use vstd::prelude::*;

use crate::body::AddressSpace;
use crate::edge::{Dir, MapsAttr, Prot};
use crate::frames::FrameAllocator;
use crate::graph::{Graph, Ref};
use crate::id::{EdgeId, EdgeKind, NodeId, NodeKind};
use crate::view::{GraphView, ListKey};
use crate::vm::VmError;

verus! {

/// The frame that an entry leads to: forty bits of it, from the twelfth on.
pub open spec fn leads_to(e: u64) -> int {
    e as int / 4096 % 0x100_0000_0000 * 4096
}

/// The entry of a table that nine bits of an address select.
pub open spec fn selected(mem: Seq<u8>, table: int, v: u64, unit: int) -> u64 {
    crate::edge::le64(mem, table + 8 * (v as int / unit % 512))
}

/// An entry that leads on: present, and no large page.
pub open spec fn leads_on(e: u64) -> bool {
    e % 2 == 1 && e as int / 128 % 2 == 0
}

/// What the processor finds for an address, in four steps of nine bits each.
#[verifier::opaque]
pub open spec fn walked(mem: Seq<u8>, root: int, v: u64) -> Option<u64> {
    let a = selected(mem, root, v, 0x80_0000_0000);
    let b = selected(mem, leads_to(a), v, 0x4000_0000);
    let c = selected(mem, leads_to(b), v, 0x20_0000);
    let d = selected(mem, leads_to(c), v, 0x1000);
    if leads_on(a) && leads_on(b) && leads_on(c) && d % 2 == 1 {
        Some(d)
    } else {
        None
    }
}

proof fn indices(v: u64)
    ensures
        crate::tables::spec_index(v, 3) == v as int / 0x80_0000_0000 % 512,
        crate::tables::spec_index(v, 2) == v as int / 0x4000_0000 % 512,
        crate::tables::spec_index(v, 1) == v as int / 0x20_0000 % 512,
        crate::tables::spec_index(v, 0) == v as int / 0x1000 % 512,
{
    assert((v >> 39) & 0x1ff == v / 0x80_0000_0000 % 512 && (v >> 30) & 0x1ff == v / 0x4000_0000
        % 512 && (v >> 21) & 0x1ff == v / 0x20_0000 % 512 && (v >> 12) & 0x1ff == v / 0x1000 % 512)
        by (bit_vector);
}

pub proof fn entry_parts(e: u64)
    ensures
        crate::tables::present(e) <==> e % 2 == 1,
        crate::tables::huge(e) <==> e as int / 128 % 2 == 1,
        crate::tables::frame_of(e) == leads_to(e),
{
    assert((e & 1 != 0 <==> e % 2 == 1) && (e & 0x80 != 0 <==> e / 128 % 2 == 1) && e
        & 0x000F_FFFF_FFFF_F000 == e / 4096 % 0x100_0000_0000 * 4096) by (bit_vector);
}

/// A lookup is the processor's walk.
pub proof fn a_lookup_is_the_walk(mem: Seq<u8>, root: int, v: u64)
    ensures
        crate::tables::lookup(mem, root, v) == walked(mem, root, v),
{
    reveal(crate::mem::word);
    reveal(walked);
    indices(v);
    let p = crate::tables::path_of(v);
    let (i, j, k) = (p[0], p[1], p[2]);
    let a = selected(mem, root, v, 0x80_0000_0000);
    let b = selected(mem, leads_to(a), v, 0x4000_0000);
    let c = selected(mem, leads_to(b), v, 0x20_0000);
    let d = selected(mem, leads_to(c), v, 0x1000);
    entry_parts(a);
    entry_parts(b);
    entry_parts(c);
    entry_parts(d);
    let one = seq![i];
    let two = seq![i, j];
    assert(p.drop_last() =~= two);
    assert(two.drop_last() =~= one);
    assert(one.drop_last() =~= Seq::<int>::empty());
    assert(crate::tables::table_at(mem, root, Seq::<int>::empty()) == Some(root));
    assert(crate::tables::table_at(mem, root, one) == crate::tables::down(mem, root, i));
    assert(crate::tables::slot(root, i) == root + 8 * i);
    if leads_on(a) {
        assert(crate::tables::table_at(mem, root, one) == Some(leads_to(a)));
        assert(crate::tables::table_at(mem, root, two) == crate::tables::down(
            mem,
            leads_to(a),
            j,
        ));
        if leads_on(b) {
            assert(crate::tables::table_at(mem, root, p) == crate::tables::down(
                mem,
                leads_to(b),
                k,
            ));
        }
    }
}

/// What an entry says to the processor: the frame, that it is there, and
/// whether it may be written, got at by the user, and run.
pub open spec fn entry_says(e: u64, frame: int, prot: u8) -> bool {
    &&& leads_to(e) == frame
    &&& e % 2 == 1
    &&& (e as int / 2 % 2 == 1) <==> (prot as int / 2 % 2 == 1)
    &&& (e as int / 4 % 2 == 1) <==> (prot as int / 8 % 2 == 1)
    &&& (e >= 0x8000_0000_0000_0000) <==> (prot as int / 4 % 2 == 0)
    &&& e as int / 128 % 2 == 0
}

/// The bits of a protection are what they mean: two is writing, eight the
/// user's, four running; what may not be run is marked so, and nothing is
/// marked that was not asked for.
pub proof fn entries_say_what_is_allowed(frame: u64, prot: Prot)
    requires
        frame % 4096 == 0,
        frame < 0x10_0000_0000_0000,
    ensures
        entry_says(frame | crate::paging::flags_of(prot), frame as int, prot.0),
{
    let p = prot.0;
    let w: u64 = if p & 2 == 2 {
        2
    } else {
        0
    };
    let u: u64 = if p & 8 == 8 {
        4
    } else {
        0
    };
    let x: u64 = if p & 4 == 4 {
        0
    } else {
        0x8000_0000_0000_0000
    };
    let f = (1u64 | w) | u | x;
    assert(f == crate::paging::flags_of(prot));
    let e = frame | f;
    assert((p & 2 == 2 <==> p / 2 % 2 == 1) && (p & 8 == 8 <==> p / 8 % 2 == 1) && (p & 4 == 4
        <==> p / 4 % 2 == 1)) by (bit_vector);
    assert(frame % 4096 == 0 && frame < 0x10_0000_0000_0000 && (w == 2 || w == 0) && (u == 4 || u
        == 0) && (x == 0 || x == 0x8000_0000_0000_0000) ==> {
        let e = frame | ((1u64 | w) | u | x);
        &&& e / 4096 % 0x100_0000_0000 * 4096 == frame
        &&& e % 2 == 1
        &&& (e / 2 % 2 == 1 <==> w == 2)
        &&& (e / 4 % 2 == 1 <==> u == 4)
        &&& (e >= 0x8000_0000_0000_0000 <==> x != 0)
        &&& e / 128 % 2 == 0
    }) by (bit_vector);
}

/// Once a mapping is made, the processor finds each of its pages: the frame of
/// the object as many pages in, allowing what the mapping allows. What it finds
/// for any other page is what it found before.
pub proof fn a_mapping_is_what_the_processor_sees(
    g0: Graph,
    m0: Seq<u8>,
    f0: Option<FrameAllocator<'_>>,
    g1: Graph,
    m1: Seq<u8>,
    f1: Option<FrameAllocator<'_>>,
    s: NodeId,
    m: NodeId,
    attr: MapsAttr,
    r: Result<EdgeId, VmError>,
    w: u64,
)
    requires
        crate::vm::map_done(g0, m0, f0, g1, m1, f1, s, m, attr, r),
        r is Ok,
        attr.flags.0 & 1 == 0,
        g0@.memobj(m).phys_base % 4096 == 0,
        g0@.memobj(m).phys_base + (attr.off_pages + attr.len_pages) * 4096 < 0x10_0000_0000_0000,
        w < 0x8000_0000_0000,
    ensures
        ({
            let root = leads_to(g0@.space(s).pml4_phys);
            if attr.vaddr <= w < attr.vaddr + attr.len_pages * 4096 {
                walked(m1, root, w) matches Some(e) && entry_says(
                    e,
                    g0@.memobj(m).phys_base + (attr.off_pages + (w - attr.vaddr) / 4096) * 4096,
                    attr.prot.0,
                )
            } else {
                walked(m1, root, w) == walked(m0, root, w)
            }
        }),
{
    let root = crate::vm::root_in(g0@, s);
    entry_parts(g0@.space(s).pml4_phys);
    a_lookup_is_the_walk(m0, root, w);
    a_lookup_is_the_walk(m1, root, w);
    a_mapping_is_written(g0, m0, f0, g1, m1, f1, s, m, attr, r);
    a_run_is_looked_up(m0, m1, root, attr, g0@.memobj(m).phys_base, w);
}

/// A mapping that is made is in the user half, and written.
proof fn a_mapping_is_written(
    g0: Graph,
    m0: Seq<u8>,
    f0: Option<FrameAllocator<'_>>,
    g1: Graph,
    m1: Seq<u8>,
    f1: Option<FrameAllocator<'_>>,
    s: NodeId,
    m: NodeId,
    attr: MapsAttr,
    r: Result<EdgeId, VmError>,
)
    requires
        crate::vm::map_done(g0, m0, f0, g1, m1, f1, s, m, attr, r),
        r is Ok,
        attr.flags.0 & 1 == 0,
    ensures
        attr.vaddr % 4096 == 0,
        attr.vaddr + attr.len_pages * 4096 <= 0x8000_0000_0000,
        crate::paging::mapped_run(
            m0,
            m1,
            crate::vm::root_in(g0@, s),
            attr.vaddr,
            (g0@.memobj(m).phys_base + attr.off_pages * 4096) as u64,
            attr.len_pages as int,
            attr.prot,
        ),
{
    let fl = attr.flags.0;
    assert(fl & 1 == 0 ==> fl & 1 != 1) by (bit_vector);
}

/// Each page of a run that is written is looked up as its frame.
proof fn a_run_is_looked_up(
    m0: Seq<u8>,
    m1: Seq<u8>,
    root: int,
    attr: MapsAttr,
    base: u64,
    w: u64,
)
    requires
        attr.vaddr % 4096 == 0,
        attr.vaddr + attr.len_pages * 4096 <= 0x8000_0000_0000,
        crate::paging::mapped_run(
            m0,
            m1,
            root,
            attr.vaddr,
            (base + attr.off_pages * 4096) as u64,
            attr.len_pages as int,
            attr.prot,
        ),
        base % 4096 == 0,
        base + (attr.off_pages + attr.len_pages) * 4096 < 0x10_0000_0000_0000,
        w < 0x8000_0000_0000,
    ensures
        if attr.vaddr <= w < attr.vaddr + attr.len_pages * 4096 {
            crate::tables::lookup(m1, root, w) matches Some(e) && entry_says(
                e,
                base + (attr.off_pages + (w - attr.vaddr) / 4096) * 4096,
                attr.prot.0,
            )
        } else {
            crate::tables::lookup(m1, root, w) == crate::tables::lookup(m0, root, w)
        },
{
    let paddr = (base + attr.off_pages * 4096) as u64;
    let k = crate::paging::page_offset(w, attr.vaddr);
    user_offsets(w, attr.vaddr, attr.len_pages as int);
    if attr.vaddr <= w < attr.vaddr + attr.len_pages * 4096 {
        let f = crate::paging::page_at(paddr, k);
        assert(f == paddr + k * 4096);
        entries_say_what_is_allowed(f, attr.prot);
    }
}

/// Which page of a run in the user half an address is in.
proof fn user_offsets(w: u64, v: u64, n: int)
    requires
        w < 0x8000_0000_0000,
        v % 4096 == 0,
        0 <= n,
        v + n * 4096 <= 0x8000_0000_0000,
    ensures
        crate::paging::page_offset(w, v) < n <==> v <= w < v + n * 4096,
        v <= w < v + n * 4096 ==> crate::paging::page_offset(w, v) == (w - v) / 4096,
{
    let (i, j) = (w as int / 4096, v as int / 4096);
    assert(crate::tables::page_number(w) == i);
    assert(crate::tables::page_number(v) == j);
    if i >= j {
        assert((i - j) % 0x10_0000_0000 == i - j);
    } else {
        assert((i - j) % 0x10_0000_0000 == i - j + 0x10_0000_0000) by (nonlinear_arith)
            requires
                -0x8_0000_0000 <= i - j < 0,
        ;
    }
}

/// A fault is served from a mapping of the thread's own space that fills in on
/// demand: the processor then finds the frame of the object as many pages in,
/// allowing what the mapping allows, where it found nothing.
pub proof fn a_fault_fills_in_its_page(
    v: GraphView,
    m0: Seq<u8>,
    f0: Option<FrameAllocator<'_>>,
    m1: Seq<u8>,
    f1: Option<FrameAllocator<'_>>,
    t: NodeId,
    s: NodeId,
    addr: u64,
)
    requires
        v.wf(),
        v.inv(),
        v.live(t),
        t.kind() == Some(NodeKind::Thread),
        v.thread_in(t, s),
        forall|e: u32| #[trigger] fills_in(v, s, e, addr) ==> mapping_is_aligned(v, e),
        forall|e: u32| #[trigger]
            v.edges.contains_key(e) && v.edges[e].kind == EdgeKind::Maps && v.edges[e].src == s
                ==> v.maps(e).vaddr % 4096 == 0,
        crate::vm_check::fault_answered(v, m0, f0, m1, f1, t, addr, true),
    ensures
        addr < 0x8000_0000_0000,
        exists|e: u32| #[trigger] fills_in(v, s, e, addr) && seen_through(v, m0, m1, s, e, addr),
{
    let page = crate::vm_check::page_base(addr);
    the_space_under(v, t, s);
    let goal = choose|goal: (u64, u64, Prot)| #[trigger]
        crate::vm_check::fault_goal(v, t, page, goal) && crate::vm_check::fault_served(
            m0,
            f0,
            m1,
            f1,
            page,
            goal,
        );
    let e = the_server(v, t, s, addr, goal);
    a_page_is_filled_in(v, m0, f0, m1, f1, s, e, addr, goal);
}

/// A mapping and the memory behind it start on a page, and end inside what an
/// entry can name.
pub open spec fn mapping_is_aligned(v: GraphView, e: u32) -> bool {
    let base = v.memobj(v.edges[e].dst).phys_base;
    &&& v.maps(e).vaddr % 4096 == 0
    &&& base % 4096 == 0
    &&& base + (v.maps(e).off_pages + v.maps(e).len_pages) * 4096 < 0x10_0000_0000_0000
}

/// The processor finds the page of an address through a mapping, and did not
/// before.
pub open spec fn seen_through(
    v: GraphView,
    m0: Seq<u8>,
    m1: Seq<u8>,
    s: NodeId,
    e: u32,
    addr: u64,
) -> bool {
    let m = v.maps(e);
    let root = leads_to(v.space(s).pml4_phys);
    let page = (addr - addr % 4096) as u64;
    &&& walked(m0, root, page) is None
    &&& walked(m1, root, page) matches Some(x) && entry_says(
        x,
        v.memobj(v.edges[e].dst).phys_base + (m.off_pages + (addr - m.vaddr) / 4096) * 4096,
        m.prot.0,
    )
}

/// The mapping that a fault was served from.
proof fn the_server(v: GraphView, t: NodeId, s: NodeId, addr: u64, goal: (u64, u64, Prot)) -> (e: u32)
    requires
        v.wf(),
        v.live(s),
        v.space_under(t) == Some(s),
        crate::vm_check::fault_goal(v, t, crate::vm_check::page_base(addr), goal),
        forall|e: u32| #[trigger]
            v.edges.contains_key(e) && v.edges[e].kind == EdgeKind::Maps && v.edges[e].src == s
                ==> v.maps(e).vaddr % 4096 == 0,
    ensures
        addr < 0x8000_0000_0000,
        goal.0 == v.space(s).pml4_phys,
        fills_in(v, s, e, addr),
        goal.1 == v.memobj(v.edges[e].dst).phys_base + (v.maps(e).off_pages + (addr - v.maps(
            e,
        ).vaddr) / 4096) * 4096,
        goal.2 == v.maps(e).prot,
{
    let page = crate::vm_check::page_base(addr);
    let s2 = v.space_under(t)->Some_0;
    assert(s2 == s);
    let e = choose|e: u32| #[trigger] v.serves(s2, e, page, goal);
    what_serves(v, s, addr, e, goal);
    e
}

proof fn a_page_is_filled_in(
    v: GraphView,
    m0: Seq<u8>,
    f0: Option<FrameAllocator<'_>>,
    m1: Seq<u8>,
    f1: Option<FrameAllocator<'_>>,
    s: NodeId,
    e: u32,
    addr: u64,
    goal: (u64, u64, Prot),
)
    requires
        addr < 0x8000_0000_0000,
        goal.0 == v.space(s).pml4_phys,
        fills_in(v, s, e, addr),
        mapping_is_aligned(v, e),
        goal.1 == v.memobj(v.edges[e].dst).phys_base + (v.maps(e).off_pages + (addr - v.maps(
            e,
        ).vaddr) / 4096) * 4096,
        goal.2 == v.maps(e).prot,
        crate::vm_check::fault_served(m0, f0, m1, f1, crate::vm_check::page_base(addr), goal),
    ensures
        seen_through(v, m0, m1, s, e, addr),
{
    let m = v.maps(e);
    let base = v.memobj(v.edges[e].dst).phys_base;
    let k = (addr - m.vaddr) / 4096;
    assert(0 <= k < m.len_pages);
    assert(goal.1 % 4096 == 0 && goal.1 < 0x10_0000_0000_0000);
    served_is_seen(m0, f0, m1, f1, crate::vm_check::page_base(addr), goal);
    entry_parts(v.space(s).pml4_phys);
}

/// Where no mapping of the thread's space fills the page in, or the address is
/// not in the user half, a fault is not served, and nothing changes.
pub proof fn a_fault_elsewhere_is_not_served(
    v: GraphView,
    m0: Seq<u8>,
    f0: Option<FrameAllocator<'_>>,
    m1: Seq<u8>,
    f1: Option<FrameAllocator<'_>>,
    t: NodeId,
    s: NodeId,
    addr: u64,
    r: bool,
)
    requires
        v.wf(),
        v.inv(),
        v.live(t),
        t.kind() == Some(NodeKind::Thread),
        v.thread_in(t, s),
        forall|e: u32| #[trigger]
            v.edges.contains_key(e) && v.edges[e].kind == EdgeKind::Maps && v.edges[e].src == s
                ==> v.maps(e).vaddr % 4096 == 0,
        (forall|e: u32| !#[trigger] fills_in(v, s, e, addr)) || addr >= 0x8000_0000_0000,
        crate::vm_check::fault_answered(v, m0, f0, m1, f1, t, addr, r),
    ensures
        !r,
        m1 == m0,
        f1 == f0,
{
    let page = crate::vm_check::page_base(addr);
    the_space_under(v, t, s);
    assert forall|goal: (u64, u64, Prot)| !#[trigger] crate::vm_check::fault_goal(
        v,
        t,
        page,
        goal,
    ) by {
        if crate::vm_check::fault_goal(v, t, page, goal) {
            let e = the_server(v, t, s, addr, goal);
        }
    }
}

/// A mapping that serves a fault fills it in, as many pages in.
proof fn what_serves(v: GraphView, s: NodeId, addr: u64, e: u32, goal: (u64, u64, Prot))
    requires
        v.wf(),
        v.live(s),
        v.serves(s, e, crate::vm_check::page_base(addr), goal),
        forall|e: u32| #[trigger]
            v.edges.contains_key(e) && v.edges[e].kind == EdgeKind::Maps && v.edges[e].src == s
                ==> v.maps(e).vaddr % 4096 == 0,
    ensures
        fills_in(v, s, e, addr),
        goal.1 == v.memobj(v.edges[e].dst).phys_base + (v.maps(e).off_pages + (addr - v.maps(
            e,
        ).vaddr) / 4096) * 4096,
        goal.2 == v.maps(e).prot,
{
    let out = v.list(s, Dir::Out, EdgeKind::Maps);
    let key: ListKey = (s, Dir::Out, EdgeKind::Maps);
    assert(v.nodes.contains_key(s));
    assert(v.lists.contains_key(key));
    assert(v.list_ok(key));
    let i = out.index_of(e);
    assert(v.edges.contains_key(out[i]));
    one_page(addr, v.maps(e).vaddr, v.maps(e).len_pages as int);
}

/// Two addresses of one page are in the same mappings, as many pages in.
proof fn one_page(addr: u64, vaddr: u64, n: int)
    requires
        vaddr % 4096 == 0,
        n >= 0,
    ensures
        ({
            let page = (addr - addr % 4096) as u64;
            &&& vaddr <= page < vaddr + n * 4096 <==> vaddr <= addr < vaddr + n * 4096
            &&& vaddr <= addr ==> (page - vaddr) / 4096 == (addr - vaddr) / 4096
        }),
{
}

/// What a fault is served with is what the processor then finds.
proof fn served_is_seen(
    m0: Seq<u8>,
    f0: Option<FrameAllocator<'_>>,
    m1: Seq<u8>,
    f1: Option<FrameAllocator<'_>>,
    page: u64,
    goal: (u64, u64, Prot),
)
    requires
        crate::vm_check::fault_served(m0, f0, m1, f1, page, goal),
        page % 4096 == 0,
        page < 0x8000_0000_0000,
        goal.1 % 4096 == 0,
        goal.1 < 0x10_0000_0000_0000,
    ensures
        walked(m0, crate::paging::root_of(goal.0), page) is None,
        walked(m1, crate::paging::root_of(goal.0), page) matches Some(x) && entry_says(
            x,
            goal.1 as int,
            goal.2.0,
        ),
{
    let root = crate::paging::root_of(goal.0);
    a_lookup_is_the_walk(m0, root, page);
    a_lookup_is_the_walk(m1, root, page);
    user_offsets(page, page, 1);
    entries_say_what_is_allowed(goal.1, goal.2);
    assert(crate::paging::page_at(goal.1, 0) == goal.1);
}

/// A mapping of the space covers the address, and fills in on demand.
pub open spec fn fills_in(v: GraphView, s: NodeId, e: u32, addr: u64) -> bool {
    &&& v.edges.contains_key(e)
    &&& v.edges[e].kind == EdgeKind::Maps
    &&& v.edges[e].src == s
    &&& v.maps(e).vaddr <= addr < v.maps(e).vaddr + v.maps(e).len_pages * 4096
    &&& v.maps(e).flags.0 & 1 == 1
}

/// The space that a thread is in is the one that it runs in.
proof fn the_space_under(v: GraphView, t: NodeId, s: NodeId)
    requires
        v.wf(),
        v.inv(),
        v.live(t),
        t.kind() == Some(NodeKind::Thread),
        v.thread_in(t, s),
    ensures
        v.space_under(t) == Some(s),
        v.live(s),
{
    let i = choose|i: u32| #[trigger]
        v.edges.contains_key(i) && v.edges[i].kind == EdgeKind::InSpace && v.edges[i].src == t
            && v.edges[i].dst == s;
    assert(v.edge_ok(i));
    assert(v.nodes.contains_key(t));
    assert(v.node_ok(t) && v.body_ok(t));
    let ins = v.list(t, Dir::Out, EdgeKind::InSpace);
    let k = ins.index_of(i);
    assert(ins[k] == i);
    assert(ins[0] == i);
}

/// Once a mapping is gone, the processor finds none of its pages, and finds
/// every other as it did; and the edge is gone.
pub proof fn an_unmapping_is_what_the_processor_sees(
    g0: Graph,
    m0: Seq<u8>,
    g1: Graph,
    m1: Seq<u8>,
    edge: EdgeId,
    r: Result<(), VmError>,
    w: u64,
)
    requires
        g0.wf(),
        g0@.has_edge(edge),
        g0@.edges[edge.idx()].kind == EdgeKind::Maps,
        g0@.maps(edge.idx()).vaddr % 4096 == 0,
        g0@.maps(edge.idx()).vaddr + g0@.maps(edge.idx()).len_pages * 4096 <= 0x8000_0000_0000,
        crate::vm::unmap_done(g0, m0, g1, m1, edge, r),
        w < 0x8000_0000_0000,
    ensures
        r is Ok,
        !g1@.edges.contains_key(edge.idx()),
        ({
            let a = g0@.maps(edge.idx());
            let root = leads_to(g0@.space(g0@.edges[edge.idx()].src).pml4_phys);
            if a.vaddr <= w < a.vaddr + a.len_pages * 4096 {
                walked(m1, root, w) is None
            } else {
                walked(m1, root, w) == walked(m0, root, w)
            }
        }),
{
    let e = edge.idx();
    let s = g0@.edges[e].src;
    let a = g0@.maps(e);
    let root = crate::vm::root_in(g0@, s);
    entry_parts(g0@.space(s).pml4_phys);
    a_lookup_is_the_walk(m0, root, w);
    a_lookup_is_the_walk(m1, root, w);
    user_offsets(w, a.vaddr, a.len_pages as int);
    crate::steps::unlink_keeps_nodes(g0@, e);
}

/// A new space shows its user nothing, and shows the kernel what it saw.
#[verifier::spinoff_prover]
pub proof fn a_new_space_is_the_kernels(
    g0: Graph,
    m0: Seq<u8>,
    fa: FrameAllocator<'_>,
    g1: Graph,
    m1: Seq<u8>,
    f1: Option<FrameAllocator<'_>>,
    active: u64,
    owner: NodeId,
    r: Result<Ref<AddressSpace>, VmError>,
    phys: u64,
    w: u64,
)
    requires
        crate::vm::space_made_at(g0, m0, fa, g1, m1, f1, active, owner, r, phys),
        phys < 0x10_0000_0000_0000,
    ensures
        w < 0x8000_0000_0000 ==> walked(m1, phys as int, w) is None,
        w >= 0xffff_8000_0000_0000 ==> walked(m1, phys as int, w) == walked(
            m0,
            leads_to(active),
            w,
        ),
        r is Ok ==> g1@.space(r->Ok_0.id()).pml4_phys == phys && g1@.space(
            r->Ok_0.id(),
        ).is_kernel == 0,
{
    entry_parts(active);
    indices(w);
    a_lookup_is_the_walk(m0, crate::paging::root_of(active), w);
    a_lookup_is_the_walk(m1, phys as int, w);
    assert(crate::tables::lookup(m1, phys as int, w) == if crate::tables::spec_index(w, 3) < 256 {
        None
    } else {
        crate::tables::lookup(m0, crate::paging::root_of(active), w)
    });
}

// ---------------------------------------------------------------------- check ---

/// An entry leads to a frame, and allows exactly what the protection says.
pub open spec fn entry_grants(e: u64, frame: int, prot: u8) -> bool {
    &&& leads_to(e) == frame
    &&& e % 2 == 1
    &&& (e as int / 2 % 2 == 1) <==> (prot as int / 2 % 2 == 1)
    &&& (e as int / 4 % 2 == 1) <==> (prot as int / 8 % 2 == 1)
    &&& (e >= 0x8000_0000_0000_0000) <==> (prot as int / 4 % 2 == 0)
}

proof fn granting_bits(e: u64, prot: Prot)
    ensures
        crate::paging::grants(e, prot) <==> entry_grants(
            e,
            crate::tables::frame_of(e) as int,
            prot.0,
        ),
{
    let p = prot.0;
    entry_parts(e);
    assert((e & 2 != 0 <==> e / 2 % 2 == 1) && (e & 4 != 0 <==> e / 4 % 2 == 1) && (e
        & 0x8000_0000_0000_0000 == 0 <==> e < 0x8000_0000_0000_0000) && (p & 2 == 2 <==> p / 2 % 2
        == 1) && (p & 8 == 8 <==> p / 8 % 2 == 1) && (p & 4 == 4 <==> p / 4 % 2 == 1))
        by (bit_vector);
}

/// Page tables that pass the check are a cache of the edges, one way: for every
/// page of every mapping of a user's space the processor finds the frame that
/// the mapping says, allowing what it says. It finds nothing only where the
/// mapping fills in on demand.
pub proof fn what_is_mapped_is_seen(v: GraphView, mem: Seq<u8>, s: NodeId, e: u32, i: int)
    requires
        v.wf(),
        v.live(s),
        s.kind() == Some(NodeKind::AddressSpace),
        v.space(s).is_kernel == 0,
        v.tables_match(mem),
        v.edges.contains_key(e),
        v.edges[e].kind == EdgeKind::Maps,
        v.edges[e].src == s,
        0 <= i < v.maps(e).len_pages,
        v.maps(e).vaddr + i * 4096 <= u64::MAX,
    ensures
        ({
            let m = v.maps(e);
            let root = leads_to(v.space(s).pml4_phys);
            match walked(mem, root, (m.vaddr + i * 4096) as u64) {
                None => m.flags.0 & 1 == 1,
                Some(x) => entry_grants(
                    x,
                    v.memobj(v.edges[e].dst).phys_base + (m.off_pages + i) * 4096,
                    m.prot.0,
                ),
            }
        }),
{
    let m = v.maps(e);
    let root = crate::vm::root_in(v, s);
    let out = v.list(s, Dir::Out, EdgeKind::Maps);
    assert(v.user_space(s));
    assert(v.backed(mem, s));
    assert(v.edge_ok(e));
    let k = out.index_of(e);
    assert(v.page_backed(mem, s, out[k], i));
    entry_parts(v.space(s).pml4_phys);
    let at = crate::paging::page_at(m.vaddr, i);
    a_lookup_is_the_walk(mem, root, at);
    if let Some(x) = crate::tables::lookup(mem, root, at) {
        granting_bits(x, m.prot);
    }
}

/// And the other way: what the processor finds in the user half of such a
/// space, a mapping of it accounts for.
pub proof fn what_is_seen_is_mapped(v: GraphView, mem: Seq<u8>, s: NodeId, w: u64)
    requires
        v.wf(),
        v.live(s),
        s.kind() == Some(NodeKind::AddressSpace),
        v.space(s).is_kernel == 0,
        v.tables_match(mem),
        w < 0x8000_0000_0000,
        w % 4096 == 0,
        walked(mem, leads_to(v.space(s).pml4_phys), w) is Some,
    ensures
        exists|e: u32| #[trigger]
            v.edges.contains_key(e) && v.edges[e].kind == EdgeKind::Maps && v.edges[e].src == s
                && v.maps(e).vaddr <= w && w < v.maps(e).vaddr + v.maps(e).len_pages * 4096
                && leads_to(walked(mem, leads_to(v.space(s).pml4_phys), w)->Some_0) == v.memobj(
                v.edges[e].dst,
            ).phys_base + (v.maps(e).off_pages + (w - v.maps(e).vaddr) / 4096) * 4096,
{
    let root = crate::vm::root_in(v, s);
    assert(v.user_space(s));
    assert(v.accounted(mem, s));
    entry_parts(v.space(s).pml4_phys);
    a_lookup_is_the_walk(mem, root, w);
    let x = crate::tables::lookup(mem, root, w)->Some_0;
    entry_parts(x);
    let out = v.list(s, Dir::Out, EdgeKind::Maps);
    let phys = crate::tables::frame_of(x);
    assert(v.covered(s, w, phys));
    let k = choose|k: int|
        0 <= k < out.len() && v.maps(#[trigger] out[k]).spec_covers(w) && v.behind(out[k], w)
            == phys;
    let key: ListKey = (s, Dir::Out, EdgeKind::Maps);
    assert(v.nodes.contains_key(s));
    assert(v.lists.contains_key(key));
    assert(v.list_ok(key));
    assert(v.edges.contains_key(out[k]));
}

} // verus!
