//! Ids, lists and deletions over a graph's life: what is handed out, what is
//! put back as it was, and what is left when a subtree is gone.

use bramble::body::{Device, Endpoint, MemoryObject, NodeBody, Process, Rights, Thread};
use bramble::checker::Checker;
use bramble::edge::RawEdgeData;
use bramble::graph::{Graph, GraphError, Ref};
use bramble::id::{compatible, EdgeId, EdgeKind, NodeId, NodeKind};
use bramble::reap::ReapStep;
use bramble::{AddressSpace, Root};

fn rooted() -> (Box<Graph>, Ref<Root>) {
    let mut g = Box::new(Graph::empty());
    let root = g.create_root().unwrap();
    (g, root)
}

fn consistent(g: &Graph) -> bool {
    Checker::new().check(g).is_ok()
}

fn outs(g: &Graph, id: NodeId, kind: EdgeKind) -> Vec<EdgeId> {
    let mut it = g.out_edges(id, kind);
    let mut v = vec![];
    while let Some(e) = it.next() {
        v.push(e);
    }
    v
}

fn ins(g: &Graph, id: NodeId, kind: EdgeKind) -> Vec<EdgeId> {
    let mut it = g.in_edges(id, kind);
    let mut v = vec![];
    while let Some(e) = it.next() {
        v.push(e);
    }
    v
}

const KINDS: [EdgeKind; 7] = [
    EdgeKind::Owns,
    EdgeKind::Holds,
    EdgeKind::InSpace,
    EdgeKind::Maps,
    EdgeKind::Ready,
    EdgeKind::Waiting,
    EdgeKind::Named,
];

fn all_lists(g: &Graph) -> Vec<(NodeId, Vec<EdgeId>, Vec<EdgeId>)> {
    let mut v = vec![];
    for id in g.live_nodes() {
        for k in KINDS {
            v.push((id, outs(g, id, k), ins(g, id, k)));
        }
    }
    v
}

#[test]
fn the_root_owns_anything_but_a_root() {
    assert!(!compatible(EdgeKind::Owns, NodeKind::Root, NodeKind::Root));
    assert!(compatible(EdgeKind::Owns, NodeKind::Root, NodeKind::Cpu));
    assert!(compatible(EdgeKind::Owns, NodeKind::Root, NodeKind::Device));
    assert!(compatible(EdgeKind::Named, NodeKind::Root, NodeKind::Root));
    let (mut g, root) = rooted();
    assert_eq!(
        g.link_raw(root.id(), EdgeKind::Owns, root.id(), RawEdgeData::zero()),
        Err(GraphError::Incompatible {
            kind: EdgeKind::Owns,
            src: NodeKind::Root,
            dst: NodeKind::Root
        })
    );
    assert_eq!(g.edge_count(), 0);
    assert!(consistent(&g));
}

#[test]
fn the_first_ids_are_the_first_slots() {
    let (mut g, root) = rooted();
    assert_eq!(root.id(), NodeId::new(NodeKind::Root, 0, 1));
    let p = g.create_under_root(root, Process::zero()).unwrap();
    assert_eq!(p.id(), NodeId::new(NodeKind::Process, 0, 1));
    assert_eq!(g.first_in(p.id(), EdgeKind::Owns), Some(EdgeId::new(1, 1)));
    let q = g.create_under_root(root, Process::zero()).unwrap();
    assert_eq!(q.id(), NodeId::new(NodeKind::Process, 1, 1));
    assert_eq!(g.first_in(q.id(), EdgeKind::Owns), Some(EdgeId::new(2, 1)));
}

#[test]
fn a_device_arena_takes_sixteen() {
    let (mut g, root) = rooted();
    for i in 0..16 {
        let d = g.create_under_root(root, Device::zero()).unwrap();
        assert_eq!(d.id(), NodeId::new(NodeKind::Device, i, 1));
    }
    assert_eq!(
        g.create_under_root(root, Device::zero()).err(),
        Some(GraphError::ArenaFull(NodeKind::Device))
    );
    assert!(g.create_under_root(root, Endpoint::zero()).is_ok());
}

#[test]
fn a_freed_slot_comes_back_under_another_id() {
    let (mut g, root) = rooted();
    let a = g.create_under_root(root, Endpoint::zero()).unwrap();
    let b = g.create_under_root(root, Endpoint::zero()).unwrap();
    g.begin_delete(a.id()).unwrap();
    g.begin_delete(b.id()).unwrap();
    assert_eq!(g.reap_all(), 2);
    assert!(!g.is_live(a.id()) && !g.is_live(b.id()));
    // The slot freed last is used first.
    let c = g.create_under_root(root, Endpoint::zero()).unwrap();
    assert_eq!(c.id().generation(), 3);
    let d = g.create_under_root(root, Endpoint::zero()).unwrap();
    assert_eq!(d.id().generation(), 3);
    assert_ne!(c.id().idx(), d.id().idx());
    assert!(!g.is_live(a.id()) && !g.is_live(b.id()));
    assert_eq!(g.begin_delete(a.id()), Err(GraphError::StaleNode(a.id())));
}

#[test]
fn no_id_is_handed_out_twice() {
    let (mut g, root) = rooted();
    let mut seen: Vec<NodeId> = vec![];
    let mut edges: Vec<EdgeId> = vec![];
    for round in 0..40 {
        let e = g.create_under_root(root, Endpoint::zero()).unwrap();
        assert!(!seen.contains(&e.id()));
        seen.push(e.id());
        let owns = g.first_in(e.id(), EdgeKind::Owns).unwrap();
        assert!(!edges.contains(&owns));
        edges.push(owns);
        if round % 3 != 0 {
            g.begin_delete(e.id()).unwrap();
            g.reap_all();
        }
        assert!(consistent(&g));
    }
}

#[test]
fn binding_again_leaves_the_first_binding_stale() {
    let (mut g, root) = rooted();
    let p = g.create_under_root(root, Process::zero()).unwrap();
    let t = g.create_under_process(p, Thread::zero()).unwrap();
    let a = g.create_under_process(p, AddressSpace::zero()).unwrap();
    let b = g.create_under_process(p, AddressSpace::zero()).unwrap();
    let first = g.link_in_space(t, a).unwrap();
    let second = g.link_in_space(t, b).unwrap();
    assert_ne!(first, second);
    assert!(g.edge(first).is_none());
    assert_eq!(g.edge(second).map(|e| e.dst), Some(b.id()));
    assert_eq!(g.unlink(first), Err(GraphError::StaleEdge(first)));
}

#[test]
fn linking_and_unlinking_restores_every_list() {
    let (mut g, root) = rooted();
    let a = g.create_under_root(root, Endpoint::zero()).unwrap();
    let b = g.create_under_root(root, Endpoint::zero()).unwrap();
    g.link_named(root, a, "one").unwrap();
    let before = all_lists(&g);
    let e = g.link_named(root, b, "two").unwrap();
    assert_ne!(all_lists(&g), before);
    g.unlink(e).unwrap();
    assert_eq!(all_lists(&g), before);
}

#[test]
fn granting_and_revoking_restores_every_list() {
    let (mut g, root) = rooted();
    let p = g.create_under_root(root, Process::zero()).unwrap();
    let e = g.create_under_root(root, Endpoint::zero()).unwrap();
    g.grant(p, e, Rights::send()).unwrap();
    let before = all_lists(&g);
    let slot = g.grant(p, e, Rights::all()).unwrap();
    assert_ne!(all_lists(&g), before);
    g.revoke(p, slot).unwrap();
    assert_eq!(all_lists(&g), before);
}

#[test]
fn another_name_changes_no_lookup() {
    let (mut g, root) = rooted();
    let a = g.create_under_root(root, Endpoint::zero()).unwrap();
    let b = g.create_under_root(root, Endpoint::zero()).unwrap();
    g.link_named(root, a, "console").unwrap();
    assert_eq!(g.lookup_name("console"), Some(a.id()));
    assert_eq!(g.lookup_name("disk"), None);
    g.link_named(root, b, "clock").unwrap();
    assert_eq!(g.lookup_name("console"), Some(a.id()));
    assert_eq!(g.lookup_name("disk"), None);
    assert_eq!(g.lookup_name("clock"), Some(b.id()));
}

#[test]
fn the_lists_add_up_to_the_edges() {
    let (mut g, root) = rooted();
    let p = g.create_under_root(root, Process::zero()).unwrap();
    let e = g.create_under_process(p, Endpoint::zero()).unwrap();
    g.grant(p, e, Rights::all()).unwrap();
    g.link_named(root, e, "line").unwrap();
    let lists = all_lists(&g);
    let out: usize = lists.iter().map(|l| l.1.len()).sum();
    let into: usize = lists.iter().map(|l| l.2.len()).sum();
    assert_eq!(out, 4);
    assert_eq!(into, 4);
    assert_eq!(g.edge_count(), 4);
}

#[test]
fn deleting_frees_what_is_owned_and_nothing_else() {
    let (mut g, root) = rooted();
    let keep = g.create_under_root(root, Process::zero()).unwrap();
    let spare = g.create_under_process(keep, Endpoint::zero()).unwrap();
    let p = g.create_under_root(root, Process::zero()).unwrap();
    let child = g.create_under_process(p, Process::zero()).unwrap();
    let t = g.create_under_process(child, Thread::zero()).unwrap();
    let stack = g.create_under_thread(t, MemoryObject::zero()).unwrap();
    let gone = [p.id(), child.id(), t.id(), stack.id()];
    g.grant(keep, spare, Rights::send()).unwrap();
    g.grant_raw(keep, child.id(), Rights::all()).unwrap();
    g.grant(keep, spare, Rights::recv()).unwrap();
    let held = outs(&g, keep.id(), EdgeKind::Holds);
    g.begin_delete(p.id()).unwrap();
    assert_eq!(g.reap_all(), 4);
    for id in gone {
        assert!(!g.is_live(id));
    }
    assert!(g.is_live(keep.id()) && g.is_live(spare.id()) && g.is_live(root.id()));
    // What is left is in the order it was in.
    assert_eq!(outs(&g, keep.id(), EdgeKind::Holds), vec![held[0], held[2]]);
    assert_eq!(g.reap_step(), ReapStep::Idle);
    assert!(consistent(&g));
}

#[test]
fn a_slab_hands_nothing_out_twice() {
    let mut slab = bramble::slab::Slab::<bramble::Endpoint, 3>::zero();
    let mut seen: Vec<(u32, u32)> = Vec::new();
    for round in 0..20u32 {
        let a = slab.allocate(<bramble::Endpoint as bramble::NodeBody>::zero()).unwrap();
        let b = slab.allocate(<bramble::Endpoint as bramble::NodeBody>::zero()).unwrap();
        assert!(!seen.contains(&a) && !seen.contains(&b) && a != b);
        seen.push(a);
        seen.push(b);
        assert!(slab.get(a.0, a.1).is_some());
        slab.free(if round % 2 == 0 { a.0 } else { b.0 });
        slab.free(if round % 2 == 0 { b.0 } else { a.0 });
        for (idx, generation) in &seen {
            assert!(slab.get(*idx, *generation).is_none());
        }
    }
    assert_eq!(seen[0], (0, 1));
    assert_eq!(slab.live_count(), 0);
}
