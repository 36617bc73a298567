//! The bookkeeping that every arena shares: generations, a free list, and the
//! counts kept beside them.
//!
//! Occupancy is the parity of a slot's generation: even means free, odd means
//! live, and zero means never used.

use vstd::prelude::*;

verus! {

/// A slot whose generation reaches this is never reused, which removes the
/// wraparound hazard at the cost of retiring one slot after two billion
/// allocations of it.
pub const RETIRE_AT: u32 = 0xFFFF_FFFD;

pub open spec fn is_odd(g: u32) -> bool {
    g % 2 == 1
}

/// How many of the slots are live.
pub open spec fn count_live(gens: Seq<u32>) -> nat
    decreases gens.len(),
{
    if gens.len() == 0 {
        0
    } else {
        count_live(gens.drop_last()) + if is_odd(gens.last()) {
            1nat
        } else {
            0nat
        }
    }
}

/// Changing one generation changes the count by that slot's own change.
pub proof fn count_live_update(gens: Seq<u32>, i: int, g: u32)
    requires
        0 <= i < gens.len(),
    ensures
        count_live(gens.update(i, g)) == count_live(gens) - (if is_odd(gens[i]) {
            1int
        } else {
            0int
        }) + (if is_odd(g) {
            1int
        } else {
            0int
        }),
        is_odd(gens[i]) ==> count_live(gens) >= 1,
    decreases gens.len(),
{
    let n = gens.len() as int;
    let gens2 = gens.update(i, g);
    if i == n - 1 {
        assert(gens2.drop_last() =~= gens.drop_last());
    } else {
        count_live_update(gens.drop_last(), i, g);
        assert(gens2.drop_last() =~= gens.drop_last().update(i, g));
    }
}

/// No more slots are live than there are.
pub proof fn count_live_bound(gens: Seq<u32>)
    ensures
        count_live(gens) <= gens.len(),
    decreases gens.len(),
{
    if gens.len() > 0 {
        count_live_bound(gens.drop_last());
    }
}

/// Slots that are all free count for nothing.
pub proof fn count_live_none(gens: Seq<u32>)
    requires
        forall|i: int| 0 <= i < gens.len() ==> !is_odd(#[trigger] gens[i]),
    ensures
        count_live(gens) == 0,
    decreases gens.len(),
{
    if gens.len() > 0 {
        count_live_none(gens.drop_last());
    }
}

/// The live indices below `n`, in order.
pub open spec fn live_below(gens: Seq<u32>, n: int) -> Seq<u32>
    decreases n,
{
    if n <= 0 {
        Seq::empty()
    } else if is_odd(gens[n - 1]) {
        live_below(gens, n - 1).push((n - 1) as u32)
    } else {
        live_below(gens, n - 1)
    }
}

/// The listing of live indices is ascending, holds every live index once and
/// nothing else, and is as long as the count.
pub proof fn live_below_lists(gens: Seq<u32>, n: int)
    requires
        0 <= n <= gens.len() <= 0x100_0000,
    ensures
        forall|i: int| #![trigger live_below(gens, n)[i]]
            0 <= i < live_below(gens, n).len() ==> 0 <= live_below(gens, n)[i] < n && is_odd(
                gens[live_below(gens, n)[i] as int],
            ),
        forall|i: int, j: int|
            0 <= i < j < live_below(gens, n).len() ==> live_below(gens, n)[i] < live_below(
                gens,
                n,
            )[j],
        forall|k: u32| 0 <= k < n && is_odd(gens[k as int]) ==> #[trigger] live_below(gens, n).contains(k),
        live_below(gens, n).len() == count_live(gens.subrange(0, n)),
    decreases n,
{
    if n > 0 {
        live_below_lists(gens, n - 1);
        let prev = live_below(gens, n - 1);
        let cur = live_below(gens, n);
        assert(gens.subrange(0, n).drop_last() =~= gens.subrange(0, n - 1));
        assert forall|k: u32| 0 <= k < n && is_odd(gens[k as int]) implies #[trigger] cur.contains(
            k,
        ) by {
            if k < n - 1 {
                assert(prev.contains(k));
                let w = choose|w: int| 0 <= w < prev.len() && prev[w] == k;
                assert(cur[w] == k);
            } else {
                assert(cur[cur.len() - 1] == k);
            }
        }
    } else {
        assert(gens.subrange(0, 0) =~= Seq::<u32>::empty());
    }
}

/// Slots past the last one used add nothing to the listing or the count.
pub proof fn live_below_stops(gens: Seq<u32>, n: int, m: int)
    requires
        0 <= n <= m <= gens.len(),
        forall|i: int| n <= i < m ==> !is_odd(#[trigger] gens[i]),
    ensures
        live_below(gens, m) == live_below(gens, n),
    decreases m - n,
{
    if n < m {
        live_below_stops(gens, n, m - 1);
    }
}

/// What follows position `i` of a free list, as index+1, with 0 at the end.
pub open spec fn after(s: Seq<u32>, i: int) -> int {
    if i + 1 < s.len() {
        s[i + 1] + 1
    } else {
        0
    }
}

/// `next` links the indices of `s` into a list that starts at `head`. Links
/// are stored as index+1, so that 0 is the end.
pub open spec fn chain(next: Seq<u32>, head: u32, s: Seq<u32>) -> bool {
    &&& s.no_duplicates()
    &&& head == after(s, -1)
    &&& forall|i: int| 0 <= i < s.len() ==> #[trigger] s[i] < next.len()
    &&& forall|i: int| 0 <= i < s.len() ==> #[trigger] next[s[i] as int] == after(s, i)
}

/// The indices met by following a free list, at most `fuel` of them.
pub open spec fn follow(next: Seq<u32>, head: u32, fuel: nat) -> Seq<u32>
    decreases fuel,
{
    if head == 0 || fuel == 0 {
        Seq::empty()
    } else {
        seq![(head - 1) as u32] + follow(next, next[head - 1], (fuel - 1) as nat)
    }
}

/// A chain is what following it from its head meets.
pub proof fn follow_is_chain(next: Seq<u32>, head: u32, s: Seq<u32>, fuel: nat)
    requires
        chain(next, head, s),
        s.len() <= fuel,
    ensures
        follow(next, head, fuel) == s,
    decreases fuel,
{
    if s.len() > 0 {
        assert(next[s[0] as int] == after(s, 0));
        let rest = s.drop_first();
        assert forall|i: int| 0 <= i < rest.len() implies #[trigger] rest[i] < next.len() by {
            assert(rest[i] == s[i + 1]);
        }
        assert forall|i: int| 0 <= i < rest.len() implies #[trigger] next[rest[i] as int] == after(
            rest,
            i,
        ) by {
            assert(rest[i] == s[i + 1]);
            assert(next[s[i + 1] as int] == after(s, i + 1));
        }
        assert(rest.no_duplicates());
        follow_is_chain(next, next[s[0] as int], rest, (fuel - 1) as nat);
        assert(seq![s[0]] + rest =~= s);
    }
}

/// A chain's indices are distinct and inside the arena, so it is no longer.
pub proof fn chain_is_short(next: Seq<u32>, head: u32, s: Seq<u32>)
    requires
        chain(next, head, s),
    ensures
        s.len() <= next.len(),
{
    let vals = s.map_values(|v: u32| v as int);
    assert forall|i: int, j: int| 0 <= i < j < vals.len() implies vals[i] != vals[j] by {
        assert(s[i] != s[j]);
    }
    assert(vals.no_duplicates());
    vals.unique_seq_to_set();
    let all = vstd::set_lib::set_int_range(0, next.len() as int);
    vstd::set_lib::lemma_int_range(0, next.len() as int);
    assert forall|x: int| vals.to_set().contains(x) implies all.contains(x) by {
        let i = choose|i: int| 0 <= i < vals.len() && vals[i] == x;
        assert(vals[i] == s[i] as int);
    }
    vstd::set_lib::lemma_len_subset(vals.to_set(), all);
}

/// An arena's books: one generation and one free-list link per slot, the head
/// of the free list, the first index never used, and two counts. The first
/// `base` indices are never handed out.
pub struct Books {
    pub gens: Seq<u32>,
    pub next: Seq<u32>,
    pub free_head: u32,
    pub bump: u32,
    pub live: u32,
    pub retired: u32,
    pub base: nat,
}

impl Books {
    /// The free list, most recently freed first.
    pub open spec fn free(self) -> Seq<u32> {
        follow(self.next, self.free_head, self.next.len())
    }

    /// First index never used.
    pub open spec fn fresh(self) -> int {
        if self.bump < self.base {
            self.base as int
        } else {
            self.bump as int
        }
    }

    /// Nothing is left to hand out.
    pub open spec fn full(self) -> bool {
        self.free_head == 0 && self.fresh() >= self.gens.len()
    }

    /// The index the next allocation takes: the top of the free list, or else
    /// one that was never used.
    pub open spec fn next_index(self) -> u32 {
        if self.free_head != 0 {
            (self.free_head - 1) as u32
        } else {
            self.fresh() as u32
        }
    }

    pub open spec fn wf(self) -> bool {
        &&& self.gens.len() == self.next.len()
        &&& self.base <= self.gens.len() <= 0x100_0000
        &&& self.bump <= self.gens.len()
        &&& self.live == count_live(self.gens)
        &&& chain(self.next, self.free_head, self.free())
        &&& forall|i: int|
            0 <= i < self.free().len() ==> self.base <= #[trigger] self.free()[i] < self.bump
                && !is_odd(self.gens[self.free()[i] as int])
                && self.gens[self.free()[i] as int] < RETIRE_AT
        &&& forall|i: int|
            0 <= i < self.gens.len() ==> (#[trigger] self.gens[i]) <= RETIRE_AT + 1 && (i
                < self.base || i >= self.bump ==> self.gens[i] == 0)
        &&& self.live + self.retired + self.free().len() == self.fresh() - self.base
    }

    /// The books after the next allocation.
    pub open spec fn after_alloc(self) -> Books {
        let i = self.next_index();
        Books {
            gens: self.gens.update(i as int, (self.gens[i as int] + 1) as u32),
            next: self.next.update(i as int, 0),
            free_head: if self.free_head != 0 {
                self.next[i as int]
            } else {
                0
            },
            bump: if self.free_head != 0 {
                self.bump
            } else {
                (self.fresh() + 1) as u32
            },
            live: (self.live + 1) as u32,
            retired: self.retired,
            base: self.base,
        }
    }

    /// The books after freeing slot `i`: retired if its generation has run
    /// out, else on top of the free list.
    pub open spec fn after_free(self, i: u32) -> Books {
        let g = (self.gens[i as int] + 1) as u32;
        let retire = g >= RETIRE_AT;
        Books {
            gens: self.gens.update(i as int, g),
            next: self.next.update(
                i as int,
                if retire {
                    0
                } else {
                    self.free_head
                },
            ),
            free_head: if retire {
                self.free_head
            } else {
                (i + 1) as u32
            },
            bump: self.bump,
            live: (self.live - 1) as u32,
            retired: if retire {
                (self.retired + 1) as u32
            } else {
                self.retired
            },
            base: self.base,
        }
    }

    /// Slot `i` is live.
    pub open spec fn is_live(self, i: int) -> bool {
        0 <= i < self.gens.len() && is_odd(self.gens[i])
    }
}

/// Allocation takes a slot that was free and keeps the books in order.
pub proof fn alloc_keeps_books(b: Books)
    requires
        b.wf(),
        !b.full(),
    ensures
        b.after_alloc().wf(),
        b.base <= b.next_index() < b.gens.len(),
        !is_odd(b.gens[b.next_index() as int]),
        b.gens[b.next_index() as int] < RETIRE_AT,
        b.live + 1 <= b.gens.len(),
        b.fresh() < b.gens.len() || b.free_head != 0,
        b.after_alloc().free() == if b.free_head != 0 {
            b.free().drop_first()
        } else {
            b.free()
        },
{
    let i = b.next_index();
    let c = b.after_alloc();
    let s = b.free();
    if b.free_head != 0 {
        assert(s.len() > 0);
        assert(s[0] == i);
        assert(b.next[s[0] as int] == after(s, 0));
        let t = s.drop_first();
        assert(t.no_duplicates());
        assert forall|k: int| 0 <= k < t.len() implies #[trigger] t[k] < c.next.len() && b.base
            <= t[k] < c.bump && !is_odd(c.gens[t[k] as int]) && c.gens[t[k] as int]
            < RETIRE_AT by {
            assert(t[k] == s[k + 1]);
            assert(s[k + 1] != s[0]);
        }
        assert forall|k: int| 0 <= k < t.len() implies #[trigger] c.next[t[k] as int] == after(
            t,
            k,
        ) by {
            assert(t[k] == s[k + 1]);
            assert(b.next[s[k + 1] as int] == after(s, k + 1));
            assert(s[k + 1] != s[0]);
        }
        assert(chain(c.next, c.free_head, t));
        chain_is_short(c.next, c.free_head, t);
        follow_is_chain(c.next, c.free_head, t, c.next.len());
    } else {
        assert(s.len() == 0);
        assert(chain(c.next, 0, s));
        follow_is_chain(c.next, 0, s, c.next.len());
    }
    count_live_update(b.gens, i as int, (b.gens[i as int] + 1) as u32);
    count_live_bound(c.gens);
}

/// Freeing a live slot keeps the books in order, and every outstanding
/// generation of it is stale from then on.
pub proof fn free_keeps_books(b: Books, i: u32)
    requires
        b.wf(),
        b.is_live(i as int),
    ensures
        b.after_free(i).wf(),
        b.gens[i as int] <= RETIRE_AT,
        b.base <= i < b.bump,
        b.live >= 1,
        b.retired + 1 <= b.gens.len(),
        b.gens[i as int] + 1 < RETIRE_AT ==> b.after_free(i).free() == seq![i] + b.free(),
        b.gens[i as int] + 1 >= RETIRE_AT ==> b.after_free(i).free() == b.free(),
{
    let c = b.after_free(i);
    let s = b.free();
    let g = (b.gens[i as int] + 1) as u32;
    assert(b.gens[i as int] != RETIRE_AT + 1);
    assert forall|k: int| 0 <= k < s.len() implies #[trigger] s[k] != i by {}
    if g >= RETIRE_AT {
        assert forall|k: int| 0 <= k < s.len() implies #[trigger] c.next[s[k] as int] == after(
            s,
            k,
        ) by {
            assert(b.next[s[k] as int] == after(s, k));
        }
        assert(chain(c.next, c.free_head, s));
        chain_is_short(c.next, c.free_head, s);
        follow_is_chain(c.next, c.free_head, s, c.next.len());
    } else {
        let t = seq![i] + s;
        assert forall|k: int| 0 <= k < t.len() implies #[trigger] t[k] < c.next.len() && b.base
            <= t[k] < c.bump && !is_odd(c.gens[t[k] as int]) && c.gens[t[k] as int]
            < RETIRE_AT by {
            if k > 0 {
                assert(t[k] == s[k - 1]);
            }
        }
        assert forall|k: int| 0 <= k < t.len() implies #[trigger] c.next[t[k] as int] == after(
            t,
            k,
        ) by {
            if k > 0 {
                assert(t[k] == s[k - 1]);
                assert(b.next[s[k - 1] as int] == after(s, k - 1));
            }
        }
        assert forall|x: int, y: int| 0 <= x < t.len() && 0 <= y < t.len() && x != y implies t[x]
            != t[y] by {
            if x > 0 {
                assert(t[x] == s[x - 1]);
            }
            if y > 0 {
                assert(t[y] == s[y - 1]);
            }
        }
        assert(chain(c.next, c.free_head, t));
        chain_is_short(c.next, c.free_head, t);
        follow_is_chain(c.next, c.free_head, t, c.next.len());
    }
    count_live_update(b.gens, i as int, g);
    count_live_bound(b.gens);
}

/// The links of live slots are no part of the free list.
pub proof fn relink_keeps_books(b: Books, c: Books)
    requires
        b.wf(),
        c == (Books { next: c.next, ..b }),
        c.next.len() == b.next.len(),
        forall|i: int|
            0 <= i < b.gens.len() && !is_odd(b.gens[i]) ==> #[trigger] c.next[i] == b.next[i],
    ensures
        c.wf(),
        c.free() == b.free(),
{
    let s = b.free();
    assert forall|k: int| 0 <= k < s.len() implies #[trigger] c.next[s[k] as int] == after(
        s,
        k,
    ) by {
        assert(b.next[s[k] as int] == after(s, k));
    }
    assert(chain(c.next, c.free_head, s));
    chain_is_short(c.next, c.free_head, s);
    follow_is_chain(c.next, c.free_head, s, c.next.len());
}

/// What an arena has to give: the generation each slot is at, the free slots
/// with the one freed last in front, the first index never used, and how many
/// slots are retired. The indices below `first` are never handed out.
#[verifier::ext_equal]
pub struct Stock {
    pub gens: Seq<u32>,
    pub free: Seq<u32>,
    pub fresh: int,
    pub retired: int,
    pub first: int,
}

impl Stock {
    /// An arena of `slots` slots none of which was ever used.
    pub open spec fn blank(slots: nat, first: int) -> Stock {
        Stock {
            gens: Seq::new(slots, |i: int| 0u32),
            free: Seq::empty(),
            fresh: first,
            retired: 0,
            first,
        }
    }

    /// Nothing is left to hand out.
    pub open spec fn full(self) -> bool {
        self.free.len() == 0 && self.fresh >= self.gens.len()
    }

    /// The index the next allocation takes: the slot freed last, or else one
    /// that was never used.
    pub open spec fn next_index(self) -> u32 {
        if self.free.len() > 0 {
            self.free[0]
        } else {
            self.fresh as u32
        }
    }

    /// The generation the next allocation hands out.
    pub open spec fn next_generation(self) -> u32 {
        (self.gens[self.next_index() as int] + 1) as u32
    }

    /// The stock after the next allocation.
    pub open spec fn after_alloc(self) -> Stock {
        Stock {
            gens: self.gens.update(self.next_index() as int, self.next_generation()),
            free: if self.free.len() > 0 {
                self.free.drop_first()
            } else {
                self.free
            },
            fresh: if self.free.len() > 0 {
                self.fresh
            } else {
                self.fresh + 1
            },
            ..self
        }
    }

    /// The stock after freeing slot `i`: retired if its generation has run
    /// out, else in front of the free slots.
    pub open spec fn after_free(self, i: u32) -> Stock {
        let g = (self.gens[i as int] + 1) as u32;
        let retire = g >= RETIRE_AT;
        Stock {
            gens: self.gens.update(i as int, g),
            free: if retire {
                self.free
            } else {
                seq![i] + self.free
            },
            retired: if retire {
                self.retired + 1
            } else {
                self.retired
            },
            ..self
        }
    }

    /// The generation slot `i` is at; no slot is at none.
    pub open spec fn age(self, i: int) -> u32 {
        if 0 <= i < self.gens.len() {
            self.gens[i]
        } else {
            0
        }
    }

    /// The slots are each live, free, retired or never used.
    pub open spec fn wf(self) -> bool {
        &&& 0 <= self.first <= self.fresh
        &&& self.first <= self.gens.len() <= 0x100_0000
        &&& self.free.no_duplicates()
        &&& forall|i: int|
            0 <= i < self.free.len() ==> self.first <= #[trigger] self.free[i] < self.fresh
                && self.free[i] < self.gens.len() && !is_odd(self.gens[self.free[i] as int])
                && self.gens[self.free[i] as int] < RETIRE_AT
        &&& forall|i: int|
            0 <= i < self.gens.len() ==> (#[trigger] self.gens[i]) <= RETIRE_AT + 1 && (i
                < self.first || i >= self.fresh ==> self.gens[i] == 0)
    }
}

impl Books {
    /// What the books say the arena has to give.
    pub open spec fn stock(self) -> Stock {
        Stock {
            gens: self.gens,
            free: self.free(),
            fresh: self.fresh(),
            retired: self.retired as int,
            first: self.base as int,
        }
    }
}

/// Books in order keep a stock in order, and both give out the same slot next.
pub proof fn stock_of_books(b: Books)
    requires
        b.wf(),
        b.gens.len() > 0,
    ensures
        b.stock().wf(),
        b.stock().full() == b.full(),
        b.stock().next_index() == b.next_index(),
{
    assert(chain(b.next, b.free_head, b.free()));
}

/// An allocation takes from the stock what it takes from the books.
pub proof fn alloc_from_stock(b: Books)
    requires
        b.wf(),
        !b.full(),
    ensures
        b.after_alloc().stock() == b.stock().after_alloc(),
{
    alloc_keeps_books(b);
    stock_of_books(b);
    let c = b.after_alloc();
    assert(b.free_head == 0 <==> b.free().len() == 0);
    assert(c.stock() =~= b.stock().after_alloc());
}

/// Freeing a slot puts back into the stock what it puts back into the books.
pub proof fn free_to_stock(b: Books, i: u32)
    requires
        b.wf(),
        b.is_live(i as int),
    ensures
        b.after_free(i).stock() == b.stock().after_free(i),
{
    free_keeps_books(b, i);
    assert(b.after_free(i).stock() =~= b.stock().after_free(i));
}

/// An allocation from a stock in order leaves one in order.
pub proof fn alloc_keeps_stock(s: Stock)
    requires
        s.wf(),
        !s.full(),
    ensures
        s.after_alloc().wf(),
        s.first <= s.next_index() < s.gens.len(),
        !is_odd(s.gens[s.next_index() as int]),
        is_odd(s.next_generation()),
        s.next_generation() == s.gens[s.next_index() as int] + 1,
        s.next_generation() <= RETIRE_AT,
        forall|i: int| #[trigger] s.age(i) <= s.after_alloc().age(i),
{
    let i = s.next_index() as int;
    let t = s.after_alloc();
    assert(s.gens[i] <= RETIRE_AT + 1);
    if s.free.len() > 0 {
        assert(s.free[0] == i);
        assert forall|k: int| 0 <= k < t.free.len() implies t.first <= #[trigger] t.free[k]
            < t.fresh && t.free[k] < t.gens.len() && !is_odd(t.gens[t.free[k] as int])
            && t.gens[t.free[k] as int] < RETIRE_AT by {
            assert(t.free[k] == s.free[k + 1]);
            assert(s.free[k + 1] != s.free[0]);
        }
    } else {
        assert(s.gens[i] == 0);
    }
}

/// Freeing a live slot of a stock in order leaves one in order.
pub proof fn free_keeps_stock(s: Stock, i: u32)
    requires
        s.wf(),
        is_odd(s.age(i as int)),
    ensures
        s.after_free(i).wf(),
        s.after_free(i).gens[i as int] == s.gens[i as int] + 1,
        forall|j: int| #[trigger] s.age(j) <= s.after_free(i).age(j),
{
    let t = s.after_free(i);
    assert(s.gens[i as int] <= RETIRE_AT + 1);
    assert forall|k: int| 0 <= k < t.free.len() implies t.first <= #[trigger] t.free[k] < t.fresh
        && t.free[k] < t.gens.len() && !is_odd(t.gens[t.free[k] as int])
        && t.gens[t.free[k] as int] < RETIRE_AT by {
        if t.free.len() == s.free.len() {
            assert(t.free[k] == s.free[k]);
        } else if k > 0 {
            assert(t.free[k] == s.free[k - 1]);
        }
    }
    assert forall|x: int, y: int| 0 <= x < t.free.len() && 0 <= y < t.free.len() && x
        != y implies t.free[x] != t.free[y] by {
        if t.free.len() > s.free.len() {
            if x > 0 {
                assert(t.free[x] == s.free[x - 1]);
            }
            if y > 0 {
                assert(t.free[y] == s.free[y - 1]);
            }
        }
    }
}

/// An arena of slots never used is in order.
pub proof fn blank_books(b: Books)
    requires
        b.gens.len() == b.next.len(),
        b.base <= b.gens.len() <= 0x100_0000,
        forall|i: int| 0 <= i < b.gens.len() ==> #[trigger] b.gens[i] == 0,
        b.free_head == 0 && b.bump == 0 && b.live == 0 && b.retired == 0,
    ensures
        b.wf(),
        b.free() == Seq::<u32>::empty(),
        b.stock() == Stock::blank(b.gens.len(), b.base as int),
{
    count_live_none(b.gens);
    assert(b.stock() =~= Stock::blank(b.gens.len(), b.base as int));
}

} // verus!
