//! A plain intrusive run queue: the same job done the way a conventional kernel
//! does it. It exists only to be measured against.

use vstd::prelude::*;

verus! {

pub const SLOTS: usize = 64;
pub const EMPTY: u16 = 0xFFFF;

#[derive(Clone, Copy, Debug, PartialEq, Eq, Structural)]
pub struct Link {
    pub next: u16,
    pub prev: u16,
    pub live: bool,
}

pub struct Queue {
    pub links: [Link; SLOTS],
    pub head: u16,
    pub len: u16,
}

/// The position after `i`, going round.
pub open spec fn after(i: int, n: int) -> int {
    if i + 1 == n {
        0
    } else {
        i + 1
    }
}

impl Queue {
    /// The queue holds exactly `s`, head first.
    pub open spec fn holds(self, s: Seq<u16>) -> bool {
        let l = self.links@;
        &&& s.no_duplicates()
        &&& self.len == s.len()
        &&& self.head == if s.len() > 0 {
            s[0]
        } else {
            EMPTY
        }
        &&& forall|i: int| 0 <= i < s.len() ==> (#[trigger] s[i]) < SLOTS
        &&& forall|id: u16|
            id < SLOTS ==> ((#[trigger] l[id as int]).live <==> s.contains(id))
        &&& forall|i: int|
            0 <= i < s.len() ==> l[#[trigger] s[i] as int].next == s[after(i, s.len() as int)]
        &&& forall|i: int|
            0 <= i < s.len() ==> l[s[after(i, s.len() as int)] as int].prev == #[trigger] s[i]
    }

    pub open spec fn wf(self) -> bool {
        exists|s: Seq<u16>| self.holds(s)
    }

    pub fn new() -> (r: Queue)
        ensures
            r.holds(Seq::empty()),
    {
        let r = Queue {
            links: [Link { next: EMPTY, prev: EMPTY, live: false };SLOTS],
            head: EMPTY,
            len: 0,
        };
        r
    }

    /// Put a thread at the back, unless it is queued already.
    pub fn push(&mut self, id: u16)
        requires
            old(self).wf(),
            id < SLOTS,
        ensures
            final(self).wf(),
            forall|s: Seq<u16>| #[trigger]
                old(self).holds(s) ==> final(self).holds(
                    if s.contains(id) {
                        s
                    } else {
                        s.push(id)
                    },
                ),
    {
        let i: usize = id as usize;
        let ghost s = choose|s: Seq<u16>| self.holds(s);
        proof {
            assert forall|t: Seq<u16>| #[trigger] self.holds(t) implies t == s by {
                same_contents(*self, s, t);
            }
        }
        if self.links[i].live {
            return;
        }
        proof {
            few_members(*self, s);
        }
        if self.head == EMPTY {
            self.links[i] = Link { next: id, prev: id, live: true };
            self.head = id;
        } else {
            let head: u16 = self.head;
            let tail: u16 = self.links[head as usize].prev;
            proof {
                let n = s.len() as int;
                assert(s[n - 1] == tail) by {
                    assert(after(n - 1, n) == 0);
                    assert(self.links@[s[after(n - 1, n)] as int].prev == s[n - 1]);
                }
                assert(s[0] == head);
                assert(!s.contains(id));
            }
            self.links[i] = Link { next: head, prev: tail, live: true };
            let mut lt: Link = self.links[tail as usize];
            lt.next = id;
            self.links[tail as usize] = lt;
            let mut lh: Link = self.links[head as usize];
            lh.prev = id;
            self.links[head as usize] = lh;
        }
        self.len = self.len + 1;
        proof {
            let t = s.push(id);
            let l0 = old(self).links@;
            let l = self.links@;
            let n = s.len() as int;
            assert(t.no_duplicates());
            assert forall|x: u16| x < SLOTS implies ((#[trigger] l[x as int]).live <==> t.contains(
                x,
            )) by {
                if x != id {
                    assert(l[x as int].live == l0[x as int].live);
                    if s.contains(x) {
                        let k = s.index_of(x);
                        assert(t[k] == x);
                    }
                } else {
                    assert(t[n] == id);
                }
            }
            assert forall|k: int| 0 <= k < t.len() implies l[#[trigger] t[k] as int].next == t[after(
                k,
                t.len() as int,
            )] && l[t[after(k, t.len() as int)] as int].prev == t[k] by {
                if k < n {
                    assert(t[k] == s[k]);
                    assert(l0[s[k] as int].next == s[after(k, n)]);
                    assert(l0[s[after(k, n)] as int].prev == s[k]);
                    if k < n - 1 {
                        assert(t[k + 1] == s[k + 1]);
                        assert(s[k] != s[n - 1]);
                        assert(s[k + 1] != s[0]);
                    }
                }
            }
            assert(self.holds(t));
        }
    }

    /// Who runs next.
    pub fn peek(&self) -> (r: Option<u16>)
        requires
            self.wf(),
        ensures
            forall|s: Seq<u16>| #[trigger]
                self.holds(s) ==> r == (if s.len() > 0 {
                    Some(s[0])
                } else {
                    None
                }),
    {
        if self.head == EMPTY {
            None
        } else {
            Some(self.head)
        }
    }

    /// The head goes to the back. False when the queue is empty.
    pub fn rotate(&mut self) -> (r: bool)
        requires
            old(self).wf(),
        ensures
            final(self).wf(),
            forall|s: Seq<u16>| #[trigger]
                old(self).holds(s) ==> r == (s.len() > 0) && final(self).holds(
                    if s.len() > 0 {
                        s.drop_first().push(s[0])
                    } else {
                        s
                    },
                ),
    {
        let ghost s = choose|s: Seq<u16>| self.holds(s);
        proof {
            assert forall|t: Seq<u16>| #[trigger] self.holds(t) implies t == s by {
                same_contents(*self, s, t);
            }
        }
        if self.head == EMPTY {
            return false;
        }
        let h: usize = self.head as usize;
        self.head = self.links[h].next;
        proof {
            let t = s.drop_first().push(s[0]);
            let n = s.len() as int;
            let l = self.links@;
            assert(l[s[0] as int].next == s[after(0, n)]);
            assert forall|k: int| 0 <= k < n implies #[trigger] t[k] == s[after(k, n)] by {}
            assert forall|x: u16| t.contains(x) <==> s.contains(x) by {
                if s.contains(x) {
                    let k = s.index_of(x);
                    if k == 0 {
                        assert(t[n - 1] == x);
                    } else {
                        assert(t[k - 1] == x);
                    }
                }
            }
            assert forall|k: int| 0 <= k < n implies l[#[trigger] t[k] as int].next == t[after(k, n)]
                && l[t[after(k, n)] as int].prev == t[k] by {
                assert(l[s[after(k, n)] as int].next == s[after(after(k, n), n)]);
                assert(l[s[after(after(k, n), n)] as int].prev == s[after(k, n)]);
                assert(t[after(k, n)] == s[after(after(k, n), n)]);
            }
            assert(self.holds(t));
        }
        true
    }
}

/// A queue holds one sequence.
proof fn same_contents(q: Queue, s: Seq<u16>, t: Seq<u16>)
    requires
        q.holds(s),
        q.holds(t),
    ensures
        s == t,
{
    assert forall|i: int| 0 <= i < s.len() implies s[i] == t[i] by {
        same_member(q, s, t, i);
    }
    assert(s =~= t);
}

proof fn same_member(q: Queue, s: Seq<u16>, t: Seq<u16>, i: int)
    requires
        q.holds(s),
        q.holds(t),
        0 <= i < s.len(),
    ensures
        s[i] == t[i],
    decreases i,
{
    if i > 0 {
        same_member(q, s, t, i - 1);
        assert(q.links@[s[i - 1] as int].next == s[after(i - 1, s.len() as int)]);
        assert(q.links@[t[i - 1] as int].next == t[after(i - 1, t.len() as int)]);
    }
}

/// A queue has no more members than slots.
proof fn few_members(q: Queue, s: Seq<u16>)
    requires
        q.holds(s),
    ensures
        s.len() <= SLOTS,
{
    let all = Seq::new(SLOTS as nat, |i: int| i as u16);
    s.unique_seq_to_set();
    all.lemma_cardinality_of_set();
    assert forall|x: u16| s.to_set().contains(x) implies all.to_set().contains(x) by {
        let k = s.index_of(x);
        assert(s[k] < SLOTS);
        assert(all[x as int] == x);
    }
    assert(s.to_set().subset_of(all.to_set()));
    vstd::set_lib::lemma_len_subset(s.to_set(), all.to_set());
}

} // verus!
