//! Circular doubly-linked lists threaded through an array of links.
//!
//! A list is a sequence of indices; `ring` says that the `next` and `prev`
//! arrays thread exactly that sequence into a circle. Index 0 is never a
//! member, so a head of 0 is the empty list.

use vstd::prelude::*;

verus! {

/// The position after `i` going round a circle of `n`.
pub open spec fn succ(i: int, n: int) -> int {
    if i + 1 == n {
        0
    } else {
        i + 1
    }
}

/// The position before `i` going round a circle of `n`.
pub open spec fn pred(i: int, n: int) -> int {
    if i == 0 {
        n - 1
    } else {
        i - 1
    }
}

/// `next` and `prev` thread the members of `s` into a circle, in order.
pub open spec fn ring(next: Seq<u32>, prev: Seq<u32>, s: Seq<u32>) -> bool {
    &&& next.len() == prev.len()
    &&& s.no_duplicates()
    &&& forall|i: int| 0 <= i < s.len() ==> 0 < #[trigger] s[i] < next.len()
    &&& forall|i: int|
        0 <= i < s.len() ==> #[trigger] next[s[i] as int] == s[succ(i, s.len() as int)]
    &&& forall|i: int|
        0 <= i < s.len() ==> #[trigger] prev[s[i] as int] == s[pred(i, s.len() as int)]
}

/// The members met by following `next` from `cur` until `head` comes round
/// again, at most `fuel` of them.
pub open spec fn walk_from(next: Seq<u32>, head: u32, cur: u32, fuel: nat) -> Seq<u32>
    decreases fuel,
{
    if cur == 0 || fuel == 0 {
        Seq::empty()
    } else {
        let n = next[cur as int];
        seq![cur] + if n == head {
            Seq::empty()
        } else {
            walk_from(next, head, n, (fuel - 1) as nat)
        }
    }
}

/// The list that starts at `head`.
pub open spec fn list_at(next: Seq<u32>, head: u32) -> Seq<u32> {
    walk_from(next, head, head, next.len())
}

/// Walking a ring from one of its members visits the rest of it, in order.
proof fn walk_visits(next: Seq<u32>, prev: Seq<u32>, s: Seq<u32>, i: int, fuel: nat)
    requires
        ring(next, prev, s),
        0 <= i < s.len(),
        s.len() - i <= fuel,
    ensures
        walk_from(next, s[0], s[i], fuel) == s.subrange(i, s.len() as int),
    decreases s.len() - i,
{
    let n = s.len() as int;
    assert(next[s[i] as int] == s[succ(i, n)]);
    if i + 1 == n {
        assert(s.subrange(i, n) =~= seq![s[i]]);
        assert(seq![s[i]] + Seq::<u32>::empty() =~= seq![s[i]]);
    } else {
        assert(s[i + 1] != s[0]);
        walk_visits(next, prev, s, i + 1, (fuel - 1) as nat);
        assert(s.subrange(i, n) =~= seq![s[i]] + s.subrange(i + 1, n));
    }
}

/// Distinct indices below `n`, none of them 0, are fewer than `n`.
pub proof fn distinct_are_few(s: Seq<u32>, n: nat)
    requires
        s.no_duplicates(),
        forall|i: int| 0 <= i < s.len() ==> 0 < #[trigger] s[i] < n,
    ensures
        s.len() == 0 || s.len() < n,
{
    let vals = s.map_values(|v: u32| v as int);
    let all = vstd::set_lib::set_int_range(1, n as int);
    assert forall|i: int, j: int| 0 <= i < j < vals.len() implies vals[i] != vals[j] by {
        assert(s[i] != s[j]);
    }
    assert(vals.no_duplicates());
    vals.unique_seq_to_set();
    if s.len() > 0 {
        assert(0 < s[0] < n);
        vstd::set_lib::lemma_int_range(1, n as int);
        assert forall|x: int| vals.to_set().contains(x) implies all.contains(x) by {
            let i = choose|i: int| 0 <= i < vals.len() && vals[i] == x;
            assert(vals[i] == s[i] as int);
        }
        vstd::set_lib::lemma_len_subset(vals.to_set(), all);
    }
}

/// A ring is the list at its first member, and it is shorter than the arena.
pub proof fn ring_is_list(next: Seq<u32>, prev: Seq<u32>, s: Seq<u32>)
    requires
        ring(next, prev, s),
    ensures
        s.len() > 0 ==> list_at(next, s[0]) == s,
        s.len() > 0 ==> s.len() < next.len(),
        list_at(next, 0) == Seq::<u32>::empty(),
{
    if s.len() > 0 {
        distinct_are_few(s, next.len());
        walk_visits(next, prev, s, 0, next.len());
        assert(s.subrange(0, s.len() as int) =~= s);
    }
}

/// Links off the ring can change without disturbing it.
pub proof fn ring_frame(
    next: Seq<u32>,
    prev: Seq<u32>,
    next2: Seq<u32>,
    prev2: Seq<u32>,
    s: Seq<u32>,
)
    requires
        ring(next, prev, s),
        next2.len() == next.len(),
        prev2.len() == prev.len(),
        forall|i: int|
            0 <= i < s.len() ==> next2[#[trigger] s[i] as int] == next[s[i] as int]
                && prev2[s[i] as int] == prev[s[i] as int],
    ensures
        ring(next2, prev2, s),
{
}

/// Splicing `e` in before the head of a ring, or alone, makes it the tail.
pub proof fn ring_push(
    next: Seq<u32>,
    prev: Seq<u32>,
    s: Seq<u32>,
    e: u32,
    next2: Seq<u32>,
    prev2: Seq<u32>,
)
    requires
        ring(next, prev, s),
        0 < e < next.len(),
        !s.contains(e),
        s.len() == 0 ==> next2 == next.update(e as int, e) && prev2 == prev.update(e as int, e),
        s.len() > 0 ==> next2 == next.update(e as int, s[0]).update(s.last() as int, e),
        s.len() > 0 ==> prev2 == prev.update(e as int, s.last()).update(s[0] as int, e),
    ensures
        ring(next2, prev2, s.push(e)),
{
    let t = s.push(e);
    let n = s.len() as int;
    assert forall|i: int, j: int| 0 <= i < t.len() && 0 <= j < t.len() && i != j implies t[i]
        != t[j] by {
        if i == n {
            assert(s.contains(s[j]));
        } else if j == n {
            assert(s.contains(s[i]));
        }
    }
    assert forall|i: int| 0 <= i < t.len() implies next2[t[i] as int] == #[trigger] t[succ(
        i,
        n + 1,
    )] && prev2[t[i] as int] == t[pred(i, n + 1)] by {
        if i < n {
            assert(s[i] != e) by {
                assert(s.contains(s[i]));
            }
            assert(next[s[i] as int] == s[succ(i, n)] && prev[s[i] as int] == s[pred(i, n)]);
            if i != n - 1 {
                assert(s[i] != s[n - 1]);
            }
            if i != 0 {
                assert(s[i] != s[0]);
            }
        } else if n > 0 {
            assert(s[0] != e && s[n - 1] != e) by {
                assert(s.contains(s[0]) && s.contains(s[n - 1]));
            }
        }
    }
}

/// Splicing out the member at `k` leaves the rest of the ring in order.
pub proof fn ring_remove(
    next: Seq<u32>,
    prev: Seq<u32>,
    s: Seq<u32>,
    k: int,
    next2: Seq<u32>,
    prev2: Seq<u32>,
)
    requires
        ring(next, prev, s),
        0 <= k < s.len(),
        s.len() == 1 ==> next2 == next.update(s[k] as int, 0) && prev2 == prev.update(
            s[k] as int,
            0,
        ),
        s.len() > 1 ==> next2 == next.update(prev[s[k] as int] as int, next[s[k] as int]).update(
            s[k] as int,
            0,
        ),
        s.len() > 1 ==> prev2 == prev.update(next[s[k] as int] as int, prev[s[k] as int]).update(
            s[k] as int,
            0,
        ),
    ensures
        ring(next2, prev2, s.remove(k)),
{
    let t = s.remove(k);
    let n = s.len() as int;
    if n > 1 {
        let p = pred(k, n);
        let q = succ(k, n);
        assert(next[s[k] as int] == s[q] && prev[s[k] as int] == s[p]);
        assert forall|i: int| 0 <= i < t.len() implies 0 < #[trigger] t[i] < next2.len() by {
            assert(t[i] == if i < k {
                s[i]
            } else {
                s[i + 1]
            });
        }
        assert forall|i: int| 0 <= i < t.len() implies next2[#[trigger] t[i] as int] == t[succ(
            i,
            n - 1,
        )] && prev2[t[i] as int] == t[pred(i, n - 1)] by {
            let si = if i < k {
                i
            } else {
                i + 1
            };
            assert(t[i] == s[si]);
            assert(si != k && s[si] != s[k]);
            assert(next[s[si] as int] == s[succ(si, n)] && prev[s[si] as int] == s[pred(si, n)]);
            if si != p {
                assert(s[si] != s[p]);
            }
            if si != q {
                assert(s[si] != s[q]);
            }
            let ti = succ(i, n - 1);
            assert(t[ti] == if ti < k {
                s[ti]
            } else {
                s[ti + 1]
            });
            let tp = pred(i, n - 1);
            assert(t[tp] == if tp < k {
                s[tp]
            } else {
                s[tp + 1]
            });
        }
    } else {
        assert(t =~= Seq::<u32>::empty());
    }
    assert forall|i: int, j: int| 0 <= i < t.len() && 0 <= j < t.len() && i != j implies t[i]
        != t[j] by {
        let si = if i < k {
            i
        } else {
            i + 1
        };
        let sj = if j < k {
            j
        } else {
            j + 1
        };
        assert(t[i] == s[si] && t[j] == s[sj]);
    }
}

/// A ring read from another starting member is a ring: the same circle.
pub proof fn ring_rotate(next: Seq<u32>, prev: Seq<u32>, s: Seq<u32>)
    requires
        ring(next, prev, s),
        s.len() > 0,
    ensures
        ring(next, prev, s.drop_first().push(s[0])),
{
    let n = s.len() as int;
    let t = s.drop_first().push(s[0]);
    assert forall|i: int| 0 <= i < n implies #[trigger] t[i] == s[succ(i, n)] by {}
    assert forall|i: int, j: int| 0 <= i < n && 0 <= j < n && i != j implies t[i] != t[j] by {
        assert(succ(i, n) != succ(j, n));
        assert(s[succ(i, n)] != s[succ(j, n)]);
    }
    assert forall|i: int| 0 <= i < n implies next[#[trigger] t[i] as int] == t[succ(i, n)]
        && prev[t[i] as int] == t[pred(i, n)] by {
        let si = succ(i, n);
        assert(next[s[si] as int] == s[succ(si, n)] && prev[s[si] as int] == s[pred(si, n)]);
        assert(t[succ(i, n)] == s[succ(si, n)]);
        assert(t[pred(i, n)] == s[succ(pred(i, n), n)]);
    }
}

/// The same circle read from its last member.
pub proof fn ring_unrotate(next: Seq<u32>, prev: Seq<u32>, s: Seq<u32>)
    requires
        ring(next, prev, s),
        s.len() > 0,
    ensures
        ring(next, prev, seq![s.last()] + s.drop_last()),
{
    let n = s.len() as int;
    let t = seq![s.last()] + s.drop_last();
    assert forall|i: int| 0 <= i < n implies #[trigger] t[i] == s[pred(i, n)] by {}
    assert forall|i: int, j: int| 0 <= i < n && 0 <= j < n && i != j implies t[i] != t[j] by {
        assert(pred(i, n) != pred(j, n));
        assert(s[pred(i, n)] != s[pred(j, n)]);
    }
    assert forall|i: int| 0 <= i < n implies next[#[trigger] t[i] as int] == t[succ(i, n)]
        && prev[t[i] as int] == t[pred(i, n)] by {
        let si = pred(i, n);
        assert(next[s[si] as int] == s[succ(si, n)] && prev[s[si] as int] == s[pred(si, n)]);
        assert(t[pred(i, n)] == s[pred(si, n)]);
        assert(t[succ(i, n)] == s[pred(succ(i, n), n)]);
    }
}

} // verus!
