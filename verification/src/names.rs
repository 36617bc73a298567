//! Names: a name is a `Named` edge from the root, and aliases are free.

use vstd::prelude::*;

use crate::body::{Nameable, NodeBody, Root};
use crate::edge::{Dir, EdgeAttr, NamedAttr};
use crate::graph::{Graph, GraphError, Ref, Result};
use crate::id::{EdgeId, EdgeKind, NodeId};
use crate::limits::{MAX_NAME_LEN, MAX_WALK};
use crate::view::GraphView;

verus! {

/// A name as an edge carries it: its bytes, padding, and its length.
pub open spec fn name_data(name: Seq<char>) -> Seq<u8> {
    let b = vstd::utf8::encode_utf8(name);
    b + crate::edge::zeros((MAX_NAME_LEN - b.len()) as nat) + seq![b.len() as u8]
}

/// The name fits inline.
pub open spec fn name_fits(name: Seq<char>) -> bool {
    vstd::utf8::encode_utf8(name).len() <= MAX_NAME_LEN
}

impl GraphView {
    /// The name an edge carries.
    pub open spec fn edge_name(self, e: u32) -> Seq<char> {
        crate::edge::text_of(NamedAttr::spec_decode(self.edges[e].data).name_bytes())
    }

    /// Position `i` is the first of the root's names, among those a walk looks
    /// at, that spells `name`.
    pub open spec fn first_named(self, name: Seq<char>, i: int) -> bool {
        let s = self.list_or_none(self.root_id, Dir::Out, EdgeKind::Named);
        &&& 0 <= i < s.len()
        &&& i < MAX_WALK
        &&& self.edge_name(s[i]) == name
        &&& forall|j: int| 0 <= j < i ==> self.edge_name(#[trigger] s[j]) != name
    }
}

/// A name read back from the bytes that carry it is the name.
pub proof fn name_reads_back(name: Seq<char>)
    requires
        name_fits(name),
    ensures
        name_data(name).len() == 24,
        crate::edge::text_of(NamedAttr::spec_decode(name_data(name)).name_bytes()) == name,
{
    let b = vstd::utf8::encode_utf8(name);
    let d = name_data(name);
    let a = NamedAttr::spec_decode(d);
    let want = d.subrange(0, MAX_NAME_LEN as int);
    crate::edge::name_array_exists(want);
    assert(a.bytes@ == want);
    assert(a.len == b.len());
    assert(a.name_bytes() =~= b);
    vstd::utf8::encode_utf8_valid_utf8(name);
    vstd::utf8::encode_utf8_decode_utf8(name);
}

impl Graph {
    /// Give a node a name. One node may have many.
    pub fn link_named<B: Nameable>(&mut self, root: Ref<Root>, dst: Ref<B>, name: &str) -> (r: Result<
        EdgeId,
    >)
        requires
            old(self).wf(),
            old(self).seq < u64::MAX,
        ensures
            final(self).wf(),
            !name_fits(name@) ==> r == Err::<EdgeId, GraphError>(GraphError::NameTooLong)
                && *final(self) == *old(self),
            name_fits(name@) ==> match old(self).link_refusal(
                root.id(),
                EdgeKind::Named,
                dst.id(),
            ) {
                Some(e) => r == Err::<EdgeId, GraphError>(e) && *final(self) == *old(self),
                None => {
                    let e = old(self).next_edge();
                    &&& r == Ok::<EdgeId, GraphError>(e)
                    &&& old(self)@.unused(e)
                    &&& final(self)@ == old(self)@.link(
                        root.id(),
                        EdgeKind::Named,
                        dst.id(),
                        name_data(name@),
                        e.idx(),
                        e.generation(),
                    )
                },
            },
            final(self)@.since(old(self)@),
    {
        let attr = match NamedAttr::new(name) {
            Some(a) => a,
            None => return Err(GraphError::NameTooLong),
        };
        proof {
            let b = vstd::utf8::encode_utf8(name@);
            assert forall|i: int| 0 <= i < b.len() implies attr.bytes@[i] == b[i] by {
                assert(attr.name_bytes()[i] == b[i]);
            }
            assert(attr.spec_bytes() =~= name_data(name@));
        }
        self.link_raw(root.id(), EdgeKind::Named, dst.id(), attr.encode())
    }

    /// The one name query the kernel offers.
    pub fn lookup_name(&self, name: &str) -> (r: Option<NodeId>)
        requires
            self.wf(),
        ensures
            r is Some <==> exists|i: int| self@.first_named(name@, i),
            r matches Some(id) ==> self@.live(id) && exists|i: int| #[trigger]
                self@.first_named(name@, i) && id == self@.edges[self@.list(
                    self@.root_id,
                    Dir::Out,
                    EdgeKind::Named,
                )[i]].dst,
    {
        let root = match self.root() {
            Some(r) => r,
            None => {
                proof {
                    assert(!self@.live(self@.root_id)) by {
                        if self@.live(self@.root_id) {
                            assert(self@.nodes.contains_key(self@.root_id));
                            assert(self@.node_ok(self@.root_id));
                        }
                    }
                }
                return None;
            },
        };
        let rid = root.id();
        let ghost s = self@.list_or_none(rid, Dir::Out, EdgeKind::Named);
        proof {
            if self.spec_live(rid) {
                crate::unlink::list_members_live(*self, rid, Dir::Out, EdgeKind::Named);
            }
        }
        let mut it = self.walk_out(rid, EdgeKind::Named).into_iter();
        let ghost all = self@.walk(rid, Dir::Out, EdgeKind::Named);
        let ghost mut n: int = 0;
        proof {
            assert(all.subrange(0, all.len() as int) =~= all);
        }
        loop
            invariant
                self.wf(),
                it.wf(),
                rid == self@.root_id,
                s == self@.list_or_none(rid, Dir::Out, EdgeKind::Named),
                all == self@.walk(rid, Dir::Out, EdgeKind::Named),
                0 <= n <= all.len(),
                it.remaining() == all.subrange(n, all.len() as int),
                forall|i: int| 0 <= i < s.len() ==> self.edge_live(#[trigger] s[i]),
                forall|j: int| 0 <= j < n ==> self@.edge_name(#[trigger] s[j]) != name@,
            ensures
                forall|j: int| 0 <= j < all.len() ==> self@.edge_name(#[trigger] s[j]) != name@,
            decreases all.len() - n,
        {
            match it.next() {
                None => {
                    break;
                },
                Some(eid) => {
                    proof {
                        assert(all.subrange(n, all.len() as int)[0] == all[n]);
                        assert(all.subrange(n, all.len() as int).drop_first() =~= all.subrange(
                            n + 1,
                            all.len() as int,
                        ));
                        assert(self.edge_live(s[n]));
                        assert(self@.edges.contains_key(s[n]));
                        assert(self@.edge_ok(s[n]));
                        crate::id::edge_id_round_trip(eid, s[n], self@.edges[s[n]].generation);
                    }
                    match self.edge(eid) {
                        None => {},
                        Some(e) => {
                            let attr = NamedAttr::decode(e.data);
                            if attr.matches(name) {
                                assert(self@.first_named(name@, n));
                                return Some(e.dst);
                            }
                        },
                    }
                    proof {
                        n = n + 1;
                    }
                },
            }
        }
        proof {
            if exists|i: int| self@.first_named(name@, i) {
                let i = choose|i: int| self@.first_named(name@, i);
                assert(self@.edge_name(s[i]) != name@);
            }
        }
        None
    }
}

} // verus!
