//! What the checker says of graphs that are not right, what the graph refuses,
//! and how ids are written.

use bramble::body::{
    AddressSpace, Cpu, Endpoint, MemoryObject, NodeBody, Process, Rights, Root, Thread, ThreadState,
};
use bramble::checker::{Checker, Violation};
use bramble::dump::push_name;
use bramble::edge::{Dir, EdgeAttr, MapFlags, MapsAttr, Prot, RawEdgeData};
use bramble::graph::{Graph, GraphError, Ref};
use bramble::id::{EdgeId, EdgeKind, NodeId, NodeKind};
use bramble::limits::MAX_EDGES;
use bramble::slab::FLAG_DYING;
use bramble::text::{push_edge, push_node, push_rights};

struct Parts {
    g: Box<Graph>,
    root: Ref<Root>,
    cpu: Ref<Cpu>,
    p: Ref<Process>,
    t: Ref<Thread>,
    s: Ref<AddressSpace>,
    m: Ref<MemoryObject>,
    slot: u32,
    maps: EdgeId,
}

fn mapping(vaddr: u64, len_pages: u32) -> MapsAttr {
    MapsAttr { vaddr, len_pages, off_pages: 0, prot: Prot::rw(), flags: MapFlags::none() }
}

/// A process with a queued thread, a space with one mapping, and a capability.
fn parts() -> Parts {
    let mut g = Box::new(Graph::empty());
    let root = g.create_root().unwrap();
    let cpu = g.create_under_root(root, Cpu::zero()).unwrap();
    let p = g.create_under_root(root, Process::zero()).unwrap();
    let t = g.create_under_process(p, Thread::zero()).unwrap();
    let s = g.create_under_process(p, AddressSpace { pml4_phys: 0x5000, ..AddressSpace::zero() }).unwrap();
    let m = g.create_under_process(p, MemoryObject { pages: 16, ..MemoryObject::zero() }).unwrap();
    let ep = g.create_under_process(p, Endpoint::zero()).unwrap();
    let slot = g.grant(p, ep, Rights::all()).unwrap();
    g.link_in_space(t, s).unwrap();
    let maps = g.link_maps(s, m, mapping(0x40_0000, 4)).unwrap();
    g.make_ready(cpu, t).unwrap();
    assert_eq!(Checker::new().check(&g), Ok(()));
    Parts { g, root, cpu, p, t, s, m, slot, maps }
}

fn complaint(w: &Parts) -> Violation {
    Checker::new().check(&w.g).unwrap_err()
}

fn owning(w: &Parts, id: NodeId) -> EdgeId {
    w.g.in_edges(id, EdgeKind::Owns).next().unwrap()
}

fn text(b: Vec<u8>) -> String {
    String::from_utf8(b).unwrap()
}

// ----------------------------------------------------------------------- lists ---

#[test]
fn a_header_of_another_kind_is_reported() {
    let mut w = parts();
    w.g.header_mut(w.t.id()).unwrap().kind = 200;
    assert_eq!(complaint(&w), Violation::HeaderKindMismatch { node: w.t.id(), header_kind: 200 });
}

#[test]
fn a_list_that_leads_to_a_free_slot_is_reported() {
    let mut w = parts();
    w.g.header_mut(w.m.id()).unwrap().set_head(Dir::Out, EdgeKind::Holds, 500);
    assert_eq!(complaint(&w), Violation::DeadEdgeInList { node: w.m.id(), edge_idx: 500 });
}

#[test]
fn an_edge_on_the_wrong_list_is_reported() {
    let mut w = parts();
    let e = owning(&w, w.t.id()).idx();
    w.g.header_mut(w.p.id()).unwrap().set_head(Dir::Out, EdgeKind::Named, e);
    assert_eq!(
        complaint(&w),
        Violation::ListKindMismatch { node: w.p.id(), edge_idx: e, expected: EdgeKind::Named }
    );

    let mut w = parts();
    w.g.header_mut(w.cpu.id()).unwrap().set_head(Dir::Out, EdgeKind::Owns, e);
    assert_eq!(complaint(&w), Violation::ListEndpointMismatch { node: w.cpu.id(), edge_idx: e });
}

#[test]
fn a_broken_back_link_is_reported() {
    let mut w = parts();
    let first = owning(&w, w.t.id()).idx();
    let second = owning(&w, w.s.id()).idx();
    w.g.edges.at_mut(second).out_prev = second;
    assert_eq!(complaint(&w), Violation::BrokenBackLink { node: w.p.id(), edge_idx: first });
}

// ----------------------------------------------------------------------- edges ---

#[test]
fn an_edge_off_its_lists_is_reported() {
    let mut w = parts();
    w.g.header_mut(w.s.id()).unwrap().set_head(Dir::Out, EdgeKind::Maps, 0);
    assert_eq!(complaint(&w), Violation::EdgeMissingFromOutList { edge: w.maps });

    let mut w = parts();
    w.g.header_mut(w.m.id()).unwrap().set_head(Dir::In, EdgeKind::Maps, 0);
    assert_eq!(complaint(&w), Violation::EdgeMissingFromInList { edge: w.maps });
}

#[test]
fn an_edge_between_the_wrong_kinds_is_reported() {
    let mut w = parts();
    let e = w.maps.idx();
    w.g.edges.at_mut(e).kind = EdgeKind::Ready.code();
    let s = w.g.header_mut(w.s.id()).unwrap();
    s.set_head(Dir::Out, EdgeKind::Maps, 0);
    s.set_head(Dir::Out, EdgeKind::Ready, e);
    let m = w.g.header_mut(w.m.id()).unwrap();
    m.set_head(Dir::In, EdgeKind::Maps, 0);
    m.set_head(Dir::In, EdgeKind::Ready, e);
    assert_eq!(
        complaint(&w),
        Violation::Incompatible {
            edge: w.maps,
            kind: EdgeKind::Ready,
            src: NodeKind::AddressSpace,
            dst: NodeKind::MemoryObject,
        }
    );
}

// ------------------------------------------------------------------- ownership ---

#[test]
fn every_node_has_one_owner() {
    let mut w = parts();
    let e = owning(&w, w.m.id());
    w.g.unlink(e).unwrap();
    assert_eq!(complaint(&w), Violation::NoOwner { node: w.m.id() });

    let mut w = parts();
    w.g.link_raw(w.root.id(), EdgeKind::Owns, w.m.id(), RawEdgeData::zero()).unwrap();
    assert_eq!(complaint(&w), Violation::MultipleOwners { node: w.m.id() });
}

#[test]
fn a_stale_owner_is_reported() {
    let mut w = parts();
    w.g.header_mut(w.t.id()).unwrap().owner = w.root.id();
    assert_eq!(
        complaint(&w),
        Violation::OwnerCacheStale { node: w.t.id(), cached: w.root.id(), actual: w.p.id() }
    );
}

#[test]
fn a_cycle_of_owners_is_reported() {
    let mut w = parts();
    let child = w.g.create_under_process(w.p, Process::zero()).unwrap();
    let e = owning(&w, w.p.id());
    w.g.unlink(e).unwrap();
    w.g.link_raw(child.id(), EdgeKind::Owns, w.p.id(), RawEdgeData::zero()).unwrap();
    assert_eq!(complaint(&w), Violation::OwnershipCycle { node: w.p.id() });
}

#[test]
fn a_dying_node_is_out_of_the_tree_and_the_queues() {
    let mut w = parts();
    w.g.header_mut(w.t.id()).unwrap().flags = FLAG_DYING;
    assert_eq!(complaint(&w), Violation::DyingStillOwned { node: w.t.id() });
    let e = owning(&w, w.t.id());
    w.g.unlink(e).unwrap();
    assert_eq!(complaint(&w), Violation::DyingStillScheduled { node: w.t.id() });
}

// ---------------------------------------------------------- what edges stand for ---

#[test]
fn a_state_that_its_edges_contradict_is_reported() {
    let mut w = parts();
    w.g.body_mut(w.t).unwrap().state = ThreadState::Blocked;
    assert_eq!(
        complaint(&w),
        Violation::ThreadStateMismatch {
            thread: w.t.id(),
            state: ThreadState::Blocked,
            ready: true,
            waiting: false,
        }
    );
}

#[test]
fn a_handle_table_is_a_view_of_the_capabilities() {
    let mut w = parts();
    let process = w.p.id();
    let held = w.g.out_edges(process, EdgeKind::Holds).next().unwrap();
    let other = owning(&w, w.t.id()).idx();
    w.g.body_mut(w.p).unwrap().handles[5] = other;
    assert_eq!(complaint(&w), Violation::HandleSlotDead { process, slot: 5 });
    w.g.body_mut(w.p).unwrap().handles[5] = held.idx();
    assert_eq!(complaint(&w), Violation::HandleSlotMismatch { process, slot: 5 });
    let slot = w.slot as usize;
    let b = w.g.body_mut(w.p).unwrap();
    b.handles[5] = 0;
    b.handles[slot] = 0;
    assert_eq!(complaint(&w), Violation::HoldsEdgeNotInTable { edge: held });
}

#[test]
fn a_thread_is_in_one_space() {
    let mut w = parts();
    w.g.link_raw(w.t.id(), EdgeKind::InSpace, w.s.id(), RawEdgeData::zero()).unwrap();
    assert_eq!(
        complaint(&w),
        Violation::Cardinality { node: w.t.id(), kind: EdgeKind::InSpace, dir: "out", count: 2 }
    );
}

#[test]
fn a_range_index_is_a_view_of_the_mappings() {
    let mut w = parts();
    let space = w.s.id();
    w.g.body_mut(w.s).unwrap().mapping_count = 5;
    assert_eq!(complaint(&w), Violation::RangeIndexCount { space, indexed: 5, edges: 1 });
    w.g.body_mut(w.s).unwrap().mapping_count = 5000;
    assert_eq!(complaint(&w), Violation::RangeIndexCount { space, indexed: 5000, edges: 0 });
    let other = owning(&w, w.t.id()).idx();
    let b = w.g.body_mut(w.s).unwrap();
    b.mapping_count = 1;
    b.ranges[0] = other;
    assert_eq!(complaint(&w), Violation::RangeIndexStale { space, at: 0 });

    let mut w = parts();
    let second = w.g.link_maps(w.s, w.m, mapping(0x80_0000, 4)).unwrap();
    let first = w.maps.idx();
    let b = w.g.body_mut(w.s).unwrap();
    b.ranges[0] = second.idx();
    b.ranges[1] = first;
    assert_eq!(complaint(&w), Violation::RangeIndexUnsorted { space, at: 1 });
    w.g.edges.at_mut(first).data = mapping(0x40_0000, 0).encode();
    let b = w.g.body_mut(w.s).unwrap();
    b.ranges[0] = first;
    b.ranges[1] = first;
    assert_eq!(complaint(&w), Violation::RangeIndexMissing { space, edge: second });
}

#[test]
fn a_stale_cache_is_reported() {
    let mut w = parts();
    w.g.body_mut(w.t).unwrap().cr3 = 1;
    assert_eq!(
        complaint(&w),
        Violation::Cr3CacheStale { thread: w.t.id(), cached: 1, actual: 0x5000 }
    );

    let mut w = parts();
    w.g.body_mut(w.m).unwrap().map_count = 9;
    assert_eq!(complaint(&w), Violation::MapCountStale { node: w.m.id(), cached: 9, actual: 1 });
}

#[test]
fn the_first_of_two_complaints_is_made() {
    let mut w = parts();
    w.g.body_mut(w.m).unwrap().map_count = 9;
    w.g.body_mut(w.t).unwrap().cr3 = 1;
    assert!(matches!(complaint(&w), Violation::Cr3CacheStale { .. }));
    w.g.body_mut(w.p).unwrap().handles[5] = 1;
    assert!(matches!(complaint(&w), Violation::HandleSlotDead { slot: 5, .. }));
    w.g.header_mut(w.t.id()).unwrap().owner = w.root.id();
    assert!(matches!(complaint(&w), Violation::OwnerCacheStale { .. }));
    w.g.header_mut(w.m.id()).unwrap().set_head(Dir::In, EdgeKind::Maps, 0);
    assert!(matches!(complaint(&w), Violation::EdgeMissingFromInList { .. }));
    w.g.header_mut(w.t.id()).unwrap().kind = 200;
    assert!(matches!(complaint(&w), Violation::HeaderKindMismatch { .. }));
}

// -------------------------------------------------------------------- refusals ---

#[test]
fn what_is_gone_is_refused() {
    let mut w = parts();
    let gone = w.m.id();
    w.g.begin_delete(gone).unwrap();
    w.g.reap_all();
    assert_eq!(w.g.begin_delete(gone), Err(GraphError::StaleNode(gone)));
    assert_eq!(w.g.unlink(w.maps), Err(GraphError::StaleEdge(w.maps)));
    assert_eq!(Checker::new().check(&w.g), Ok(()));
}

#[test]
fn a_second_root_a_long_name_and_a_queued_thread_are_refused() {
    let mut w = parts();
    assert_eq!(w.g.create_root().unwrap_err(), GraphError::RootExists);
    assert_eq!(w.g.link_named(w.root, w.m, "a-name-of-24-characters!").unwrap_err(), GraphError::NameTooLong);
    assert_eq!(w.g.make_ready(w.cpu, w.t), Err(GraphError::BadState));
    assert_eq!(Checker::new().check(&w.g), Ok(()));
}

#[test]
fn the_edge_arena_fills_up() {
    let mut w = parts();
    let mut made = w.g.edge_count();
    loop {
        match w.g.link_raw(w.root.id(), EdgeKind::Named, w.m.id(), RawEdgeData::zero()) {
            Ok(_) => made += 1,
            Err(e) => {
                assert_eq!(e, GraphError::EdgeArenaFull);
                break;
            }
        }
    }
    assert_eq!(made as usize, MAX_EDGES - 1);
    assert_eq!(w.g.edge_count(), made);
    assert_eq!(Checker::new().check(&w.g), Ok(()));
}

// ------------------------------------------------------------------------ texts ---

#[test]
fn ids_and_rights_are_written_out() {
    let w = parts();
    let mut out = Vec::new();
    push_node(&mut out, w.t.id());
    assert_eq!(text(out), "Thread#0.1");
    let mut out = Vec::new();
    push_node(&mut out, NodeId::null());
    push_edge(&mut out, EdgeId::null());
    assert_eq!(text(out), "NodeId(null)EdgeId(null)");
    let mut out = Vec::new();
    push_edge(&mut out, w.maps);
    assert_eq!(text(out), format!("Edge#{}.1", w.maps.idx()));
    let mut out = Vec::new();
    push_rights(&mut out, Rights::none());
    push_rights(&mut out, Rights::read().union(Rights::send()));
    assert_eq!(text(out), "-Rs");
    let mut out = Vec::new();
    push_name(&mut out, "\"a\\\"b\"");
    assert_eq!(text(out), " name=\"a\\\"b\"");
}

#[test]
fn bodies_are_equal_but_for_what_is_derived() {
    assert!(Process::zero() == Process::zero());
    let mut p = Process::zero();
    p.handles[3] = 1;
    assert!(p != Process::zero());
    let mut p = Process::zero();
    p.next_slot_hint = 4;
    assert!(p == Process::zero());
    assert!(AddressSpace::zero() == AddressSpace::zero());
    let mut s = AddressSpace::zero();
    s.ranges[2] = 7;
    assert!(s == AddressSpace::zero());
    s.pml4_phys = 0x1000;
    assert!(s != AddressSpace::zero());
}
