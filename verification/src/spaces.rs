//! Whole sets of page tables: walking every page of one, making one, and
//! giving one back.

use vstd::prelude::*;

use crate::frames::FrameAllocator;
use crate::mem::{read_u64, write_u64, zero_bytes};
use crate::tables::{PTE_ADDR_MASK, PTE_HUGE, PTE_PRESENT};

verus! {

// ----------------------------------------------------------------- walking ---

/// How much of the address space one entry of a table at `level` covers.
pub open spec fn unit(level: int) -> int {
    if level <= 0 {
        0x1000
    } else if level == 1 {
        0x20_0000
    } else if level == 2 {
        0x4000_0000
    } else {
        0x80_0000_0000
    }
}

/// The leaf entry of `v`, looked up from the table `t` at `level`.
pub open spec fn find(mem: Seq<u8>, t: int, level: int, v: u64) -> Option<u64>
    decreases level,
{
    let i = crate::tables::spec_index(v, level as u64) as int;
    if level <= 0 {
        let e = crate::mem::word(mem, crate::tables::slot(t, i));
        if crate::tables::present(e) {
            Some(e)
        } else {
            None
        }
    } else {
        match crate::tables::down(mem, t, i) {
            Some(u) => find(mem, u, level - 1, v),
            None => None,
        }
    }
}

/// Looking an address up is finding it from the root.
proof fn lookup_finds(mem: Seq<u8>, root: int, v: u64)
    ensures
        crate::tables::lookup(mem, root, v) == find(mem, root, 3, v),
{
    let p = crate::tables::path_of(v);
    let q1 = p.take(1);
    let q2 = p.take(2);
    assert(p.take(0) =~= Seq::<int>::empty());
    assert(q1.drop_last() =~= p.take(0));
    assert(q2.drop_last() =~= q1);
    assert(p.drop_last() =~= q2);
    assert(q1.last() == p[0]);
    assert(q2.last() == p[1]);
    assert(p.last() == p[2]);
    reveal_with_fuel(find, 4);
    reveal_with_fuel(crate::tables::table_at, 4);
}

/// Which entry of a table covers an address of its range.
proof fn index_in_range(v: u64, level: int, base: int, i: int)
    requires
        0 <= level <= 3,
        0 <= i < 512,
        0 <= base,
        base % (512 * unit(level)) == 0,
        base + i * unit(level) <= v < base + (i + 1) * unit(level),
    ensures
        crate::tables::spec_index(v, level as u64) == i,
{
    assert(((v >> 12) & 0x1FF) == (v / 0x1000) % 512 && ((v >> 21) & 0x1FF) == (v / 0x20_0000) % 512
        && ((v >> 30) & 0x1FF) == (v / 0x4000_0000) % 512 && ((v >> 39) & 0x1FF) == (v
        / 0x80_0000_0000) % 512) by (bit_vector);
    quotient_in_range(v as int, unit(level), base, i);
}

/// Dividing by the size of an entry counts entries.
proof fn quotient_in_range(v: int, u: int, base: int, i: int)
    requires
        u > 0,
        0 <= base,
        0 <= i < 512,
        base % (512 * u) == 0,
        base + i * u <= v < base + (i + 1) * u,
    ensures
        (v / u) % 512 == i,
        (base + i * u) % u == 0,
{
    let d = base / (512 * u);
    vstd::arithmetic::div_mod::lemma_fundamental_div_mod(base, 512 * u);
    let q = 512 * d + i;
    let r = v - (base + i * u);
    assert(base == q * u - i * u) by (nonlinear_arith)
        requires
            base == (512 * u) * d,
            q == 512 * d + i,
    ;
    assert((i + 1) * u == i * u + u) by (nonlinear_arith);
    vstd::arithmetic::div_mod::lemma_fundamental_div_mod_converse(v, u, q, r);
    vstd::arithmetic::div_mod::lemma_mod_multiples_basic(q, u);
}

/// The list holds, in ascending order, every page from `lo` up to `hi` that
/// table `t` maps, with its entry.
#[verifier::opaque]
pub open spec fn listing(
    s: Seq<(u64, u64)>,
    mem: Seq<u8>,
    t: int,
    level: int,
    lo: int,
    hi: int,
) -> bool {
    &&& forall|k: int|
        0 <= k < s.len() ==> lo <= (#[trigger] s[k]).0 < hi && s[k].0 % 4096 == 0 && find(
            mem,
            t,
            level,
            s[k].0,
        ) == Some(s[k].1)
    &&& forall|v: u64|
        lo <= v < hi && v % 4096 == 0 && (#[trigger] find(mem, t, level, v)) is Some ==> s.contains(
            (v, find(mem, t, level, v)->Some_0),
        )
    &&& forall|j: int, k: int| 0 <= j < k < s.len() ==> (#[trigger] s[j]).0 < (#[trigger] s[k]).0
}

/// Two neighbouring listings make one.
proof fn listings_join(
    a: Seq<(u64, u64)>,
    b: Seq<(u64, u64)>,
    mem: Seq<u8>,
    t: int,
    level: int,
    lo: int,
    mid: int,
    hi: int,
)
    requires
        lo <= mid <= hi,
        listing(a, mem, t, level, lo, mid),
        listing(b, mem, t, level, mid, hi),
    ensures
        listing(a + b, mem, t, level, lo, hi),
{
    reveal(listing);
    let c = a + b;
    assert forall|k: int| 0 <= k < c.len() implies lo <= (#[trigger] c[k]).0 < hi && c[k].0 % 4096
        == 0 && find(mem, t, level, c[k].0) == Some(c[k].1) by {
        if k < a.len() {
            assert(c[k] == a[k]);
        } else {
            assert(c[k] == b[k - a.len()]);
        }
    }
    assert forall|v: u64|
        lo <= v < hi && v % 4096 == 0 && (#[trigger] find(mem, t, level, v)) is Some implies c.contains(
        (v, find(mem, t, level, v)->Some_0),
    ) by {
        let x = (v, find(mem, t, level, v)->Some_0);
        if v < mid {
            assert(a.contains(x));
            let k = a.index_of(x);
            assert(c[k] == x);
        } else {
            assert(b.contains(x));
            let k = b.index_of(x);
            assert(c[a.len() + k] == x);
        }
    }
    assert forall|j: int, k: int| 0 <= j < k < c.len() implies (#[trigger] c[j]).0 < (
    #[trigger] c[k]).0 by {
        if k < a.len() {
            assert(c[j] == a[j] && c[k] == a[k]);
        } else if j < a.len() {
            assert(c[j] == a[j] && c[k] == b[k - a.len()]);
        } else {
            assert(c[j] == b[j - a.len()] && c[k] == b[k - a.len()]);
        }
    }
}

/// What one entry of a table above the leaves contributes.
proof fn listing_of_entry(
    s: Seq<(u64, u64)>,
    mem: Seq<u8>,
    t: int,
    level: int,
    base: int,
    i: int,
)
    requires
        1 <= level <= 3,
        0 <= i < 512,
        0 <= base,
        base % (512 * unit(level)) == 0,
        crate::tables::down(mem, t, i) matches Some(u) ==> listing(
            s,
            mem,
            u,
            level - 1,
            base + i * unit(level),
            base + (i + 1) * unit(level),
        ),
        crate::tables::down(mem, t, i) is None ==> s.len() == 0,
    ensures
        listing(s, mem, t, level, base + i * unit(level), base + (i + 1) * unit(level)),
{
    reveal(listing);
    let lo = base + i * unit(level);
    let hi = base + (i + 1) * unit(level);
    assert forall|v: u64| lo <= v < hi implies #[trigger] find(mem, t, level, v) == match crate::tables::down(
        mem,
        t,
        i,
    ) {
        Some(u) => find(mem, u, level - 1, v),
        None => None,
    } by {
        index_in_range(v, level, base, i);
    }
    if let Some(u) = crate::tables::down(mem, t, i) {
        assert forall|k: int| 0 <= k < s.len() implies lo <= (#[trigger] s[k]).0 < hi && s[k].0
            % 4096 == 0 && find(mem, t, level, s[k].0) == Some(s[k].1) by {
            assert(find(mem, u, level - 1, s[k].0) == Some(s[k].1));
        }
        assert forall|v: u64|
            lo <= v < hi && v % 4096 == 0 && (#[trigger] find(
                mem,
                t,
                level,
                v,
            )) is Some implies s.contains((v, find(mem, t, level, v)->Some_0)) by {
            assert(find(mem, u, level - 1, v) is Some);
        }
    }
}

/// What one entry of a leaf table contributes.
proof fn listing_of_leaf(
    s: Seq<(u64, u64)>,
    mem: Seq<u8>,
    t: int,
    base: int,
    i: int,
    at: u64,
    e: u64,
)
    requires
        0 <= i < 512,
        0 <= base,
        base % (512 * unit(0)) == 0,
        at == base + i * unit(0),
        e == crate::mem::word(mem, crate::tables::slot(t, i)),
        s == if crate::tables::present(e) {
            seq![(at, e)]
        } else {
            Seq::empty()
        },
    ensures
        listing(s, mem, t, 0, base + i * unit(0), base + (i + 1) * unit(0)),
{
    reveal(listing);
    let lo = base + i * unit(0);
    let hi = base + (i + 1) * unit(0);
    quotient_in_range(at as int, unit(0), base, i);
    assert forall|v: u64| lo <= v < hi implies #[trigger] find(mem, t, 0, v) == (
    if crate::tables::present(e) {
        Some(e)
    } else {
        None
    }) by {
        index_in_range(v, 0, base, i);
    }
    if crate::tables::present(e) {
        assert(s[0] == (at, e));
        assert forall|v: u64|
            lo <= v < hi && v % 4096 == 0 && (#[trigger] find(mem, t, 0, v)) is Some implies s.contains(
            (v, find(mem, t, 0, v)->Some_0),
        ) by {
            assert(v == at);
            assert(s[0] == (v, e));
        }
    }
}

proof fn listing_empty(mem: Seq<u8>, t: int, level: int, at: int)
    ensures
        listing(Seq::empty(), mem, t, level, at, at),
{
    reveal(listing);
}

/// Append every page mapped through the first `n` entries of a table.
fn walk_table(
    mem: &[u8],
    t: usize,
    level: u64,
    base: u64,
    n: usize,
    out: &mut Vec<(u64, u64)>,
    Ghost(root): Ghost<int>,
    Ghost(p): Ghost<Seq<int>>,
)
    requires
        crate::tables::tree(mem@, root),
        crate::tables::is_table(mem@, root, p),
        crate::tables::table_at(mem@, root, p) == Some(t as int),
        level <= 3,
        p.len() == 3 - level,
        n <= 512,
        base as int % (512 * unit(level as int)) == 0,
        base + 512 * unit(level as int) <= 0x1_0000_0000_0000,
    ensures
        exists|s: Seq<(u64, u64)>|
            final(out)@ == old(out)@ + s && #[trigger] listing(
                s,
                mem@,
                t as int,
                level as int,
                base as int,
                base + n * unit(level as int),
            ),
    decreases level,
{
    let ghost o = out@;
    let ghost l = level as int;
    let step: u64 = if level == 0 {
        0x1000
    } else if level == 1 {
        0x20_0000
    } else if level == 2 {
        0x4000_0000
    } else {
        0x80_0000_0000
    };
    let ghost mut s: Seq<(u64, u64)> = Seq::empty();
    assert(out@ =~= o + s);
    proof {
        listing_empty(mem@, t as int, l, base as int);
    }
    let mut i: usize = 0;
    while i < n
        invariant
            i <= n <= 512,
            o == old(out)@,
            l == level,
            step == unit(l),
            crate::tables::tree(mem@, root),
            crate::tables::is_table(mem@, root, p),
            crate::tables::table_at(mem@, root, p) == Some(t as int),
            level <= 3,
            p.len() == 3 - level,
            base as int % (512 * unit(l)) == 0,
            base + 512 * unit(l) <= 0x1_0000_0000_0000,
            out@ == o + s,
            listing(s, mem@, t as int, l, base as int, base + i * unit(l)),
        decreases n - i,
    {
        let ghost lo = base + i * unit(l);
        let ghost hi = base + (i + 1) * unit(l);
        let ghost before = out@;
        assert(mem.len() == mem@.len());
        let e: u64 = read_u64(mem, t + 8 * i);
        let ghost mut more: Seq<(u64, u64)> = Seq::empty();
        proof {
            reveal(crate::mem::word);
            crate::tables::frame_bits(e);
            assert(i * unit(l) <= 511 * unit(l)) by (nonlinear_arith)
                requires
                    i <= 511,
                    unit(l) > 0,
            ;
            assert((i + 1) * unit(l) == i * unit(l) + unit(l)) by (nonlinear_arith);
        }
        let at: u64 = base + (i as u64) * step;
        if level == 0 {
            if e & PTE_PRESENT != 0 {
                out.push((at, e));
                proof {
                    more = seq![(at, e)];
                }
            }
            proof {
                assert(out@ =~= before + more);
                listing_of_leaf(more, mem@, t as int, base as int, i as int, at, e);
            }
        } else {
            if e & PTE_PRESENT != 0 && e & PTE_HUGE == 0 {
                proof {
                    crate::tables::child_table(mem@, root, p, i as int);
                    assert(crate::tables::is_table(mem@, root, p.push(i as int)));
                    assert(512 * unit(l - 1) == unit(l));
                    assert(at as int % (512 * unit(l - 1)) == 0) by {
                        aligned_child(base as int, i as int, l);
                    }
                }
                walk_table(
                    mem,
                    (e & PTE_ADDR_MASK) as usize,
                    level - 1,
                    at,
                    512,
                    out,
                    Ghost(root),
                    Ghost(p.push(i as int)),
                );
                proof {
                    more = choose|x: Seq<(u64, u64)>|
                        out@ == before + x && #[trigger] listing(
                            x,
                            mem@,
                            crate::tables::frame_of(e) as int,
                            l - 1,
                            at as int,
                            at + 512 * unit(l - 1),
                        );
                }
            }
            proof {
                assert(out@ =~= before + more);
                listing_of_entry(more, mem@, t as int, l, base as int, i as int);
            }
        }
        proof {
            listings_join(s, more, mem@, t as int, l, base as int, lo, hi);
            assert(out@ =~= o + (s + more));
            s = s + more;
        }
        i = i + 1;
    }
    assert(listing(s, mem@, t as int, l, base as int, base + n * unit(l)));
}

proof fn aligned_child(base: int, i: int, l: int)
    requires
        1 <= l <= 3,
        0 <= i < 512,
        0 <= base,
        base % (512 * unit(l)) == 0,
    ensures
        (base + i * unit(l)) % (512 * unit(l - 1)) == 0,
{
    assert(i * unit(l) < (i + 1) * unit(l)) by (nonlinear_arith)
        requires
            unit(l) > 0,
    ;
    quotient_in_range(base + i * unit(l), unit(l), base, i);
}

/// Every present small page in the *user* half, in address order, with its
/// entry: the half of the comparison that looks for mappings the graph does
/// not know about.
pub fn walk_user_pages(mem: &[u8], pml4: u64) -> (r: Vec<(u64, u64)>)
    requires
        crate::tables::tree(mem@, crate::paging::root_of(pml4)),
    ensures
        forall|k: int|
            0 <= k < r@.len() ==> (#[trigger] r@[k]).0 < 0x8000_0000_0000 && r@[k].0 % 4096 == 0
                && crate::tables::lookup(mem@, crate::paging::root_of(pml4), r@[k].0) == Some(
                r@[k].1,
            ),
        forall|v: u64|
            v < 0x8000_0000_0000 && v % 4096 == 0 && (#[trigger] crate::tables::lookup(
                mem@,
                crate::paging::root_of(pml4),
                v,
            )) is Some ==> r@.contains(
                (v, crate::tables::lookup(mem@, crate::paging::root_of(pml4), v)->Some_0),
            ),
        forall|j: int, k: int| 0 <= j < k < r@.len() ==> (#[trigger] r@[j]).0 < (#[trigger] r@[k]).0,
{
    let ghost root = crate::paging::root_of(pml4);
    let ghost p: Seq<int> = Seq::empty();
    proof {
        crate::tables::root_is_table(mem@, root);
        assert(crate::tables::is_table(mem@, root, p));
    }
    assert(mem.len() == mem@.len());
    let mut out: Vec<(u64, u64)> = Vec::new();
    walk_table(
        mem,
        (pml4 & PTE_ADDR_MASK) as usize,
        3,
        0,
        256,
        &mut out,
        Ghost(root),
        Ghost(p),
    );
    proof {
        let s = choose|s: Seq<(u64, u64)>|
            out@ == Seq::<(u64, u64)>::empty() + s && #[trigger] listing(
                s,
                mem@,
                root,
                3,
                0,
                256 * unit(3),
            );
        assert(out@ =~= s);
        reveal(listing);
        assert forall|v: u64| #[trigger] crate::tables::lookup(mem@, root, v) == find(
            mem@,
            root,
            3,
            v,
        ) by {
            lookup_finds(mem@, root, v);
        }
        assert forall|k: int| 0 <= k < out@.len() implies (#[trigger] out@[k]).0 < 0x8000_0000_0000
            && out@[k].0 % 4096 == 0 && crate::tables::lookup(mem@, root, out@[k].0) == Some(
            out@[k].1,
        ) by {
            assert(find(mem@, root, 3, s[k].0) == Some(s[k].1));
        }
        assert forall|v: u64|
            v < 0x8000_0000_0000 && v % 4096 == 0 && (#[trigger] crate::tables::lookup(
                mem@,
                root,
                v,
            )) is Some implies out@.contains(
            (v, crate::tables::lookup(mem@, root, v)->Some_0),
        ) by {
            assert(find(mem@, root, 3, v) is Some);
        }
    }
    out
}

// ------------------------------------------------------------- giving back ---

/// The frame `f` is a table below the one at `p`, through one of its first `n`
/// entries.
pub open spec fn hangs(mem: Seq<u8>, root: int, p: Seq<int>, n: int, f: int) -> bool {
    exists|q: Seq<int>| #[trigger]
        crate::tables::is_table(mem, root, q) && crate::tables::below(q, p) && q[p.len() as int] < n
            && crate::tables::table_at(mem, root, q) == Some(4096 * f)
}

/// The frame `f` is the root or one of the tables of the user half.
pub open spec fn user_table(mem: Seq<u8>, root: int, f: int) -> bool {
    root == 4096 * f || hangs(mem, root, Seq::empty(), 256, f)
}

/// What entry `i` adds to the tables below.
proof fn hangs_step(mem: Seq<u8>, root: int, p: Seq<int>, i: int, f: int)
    requires
        crate::tables::is_table(mem, root, p),
        p.len() < 3,
        0 <= i < 512,
    ensures
        hangs(mem, root, p, i + 1, f) <==> hangs(mem, root, p, i, f) || (crate::tables::down(
            mem,
            crate::tables::table_at(mem, root, p)->Some_0,
            i,
        ) matches Some(u) && (u == 4096 * f || hangs(mem, root, p.push(i), 512, f))),
{
    let n = p.len() as int;
    let b = p.push(i);
    crate::tables::child_table(mem, root, p, i);
    if hangs(mem, root, p, i + 1, f) {
        let q = choose|q: Seq<int>| #[trigger]
            crate::tables::is_table(mem, root, q) && crate::tables::below(q, p) && q[n] < i + 1
                && crate::tables::table_at(mem, root, q) == Some(4096 * f);
        if q[n] < i {
            assert(hangs(mem, root, p, i, f));
        } else {
            assert(q[n] == i) by {
                assert(0 <= q[n] < 512);
            }
            assert(q.take(n + 1) =~= b) by {
                assert(q.take(n) == p);
                assert forall|k: int| 0 <= k < n + 1 implies q.take(n + 1)[k] == b[k] by {
                    if k < n {
                        assert(q.take(n)[k] == p[k]);
                    }
                }
            }
            if q.len() == n + 1 {
                assert(q =~= b);
            } else {
                if crate::tables::table_at(mem, root, b) is None {
                    crate::paging::stuck(mem, root, q, n + 1);
                }
                assert(crate::tables::below(q, b));
                assert(0 <= q[n + 1] < 512);
                assert(hangs(mem, root, b, 512, f));
            }
        }
    }
    if hangs(mem, root, p, i, f) {
        let q = choose|q: Seq<int>| #[trigger]
            crate::tables::is_table(mem, root, q) && crate::tables::below(q, p) && q[n] < i
                && crate::tables::table_at(mem, root, q) == Some(4096 * f);
        assert(q[n] < i + 1);
    }
    if let Some(u) = crate::tables::down(mem, crate::tables::table_at(mem, root, p)->Some_0, i) {
        if u == 4096 * f {
            assert(crate::tables::is_table(mem, root, b));
            assert(b.take(n) =~= p);
            assert(b[n] == i);
        }
        if hangs(mem, root, b, 512, f) {
            let q = choose|q: Seq<int>| #[trigger]
                crate::tables::is_table(mem, root, q) && crate::tables::below(q, b) && q[n + 1]
                    < 512 && crate::tables::table_at(mem, root, q) == Some(4096 * f);
            assert(q.take(n + 1) == b);
            assert(q.take(n) =~= p) by {
                assert forall|k: int| 0 <= k < n implies q.take(n)[k] == p[k] by {
                    assert(q.take(n + 1)[k] == b[k]);
                }
            }
            assert(q[n] == i) by {
                assert(q.take(n + 1)[n] == b[n]);
            }
        }
    }
}

/// Give back every table below the first `n` entries of a table.
fn free_below(
    mem: &[u8],
    t: usize,
    level: u64,
    n: usize,
    fa: &mut FrameAllocator<'_>,
    Ghost(root): Ghost<int>,
    Ghost(p): Ghost<Seq<int>>,
)
    requires
        crate::tables::tree(mem@, root),
        crate::tables::is_table(mem@, root, p),
        crate::tables::table_at(mem@, root, p) == Some(t as int),
        1 <= level <= 3,
        p.len() == 3 - level,
        n <= 512,
        old(fa).wf(),
    ensures
        final(fa).wf(),
        final(fa).same_shape(*old(fa)),
        forall|f: int| #[trigger]
            final(fa).free(f) <==> old(fa).free(f) || (0 <= f < old(fa).total_frames && hangs(
                mem@,
                root,
                p,
                n as int,
                f,
            )),
        crate::frames::lowered(
            old(fa).hint as int,
            final(fa).hint as int,
            |f: int| hangs(mem@, root, p, n as int, f),
        ),
    decreases level,
{
    let ghost s0 = *fa;
    proof {
        assert forall|f: int| !#[trigger] hangs(mem@, root, p, 0, f) by {
            if hangs(mem@, root, p, 0, f) {
                let q = choose|q: Seq<int>| #[trigger]
                    crate::tables::is_table(mem@, root, q) && crate::tables::below(q, p) && q[p.len() as int]
                        < 0 && crate::tables::table_at(mem@, root, q) == Some(4096 * f);
                assert(0 <= q[p.len() as int]);
            }
        }
        crate::frames::lowered_none(fa.hint as int, |f: int| hangs(mem@, root, p, 0, f));
    }
    let mut i: usize = 0;
    while i < n
        invariant
            i <= n <= 512,
            s0 == *old(fa),
            crate::tables::tree(mem@, root),
            crate::tables::is_table(mem@, root, p),
            crate::tables::table_at(mem@, root, p) == Some(t as int),
            1 <= level <= 3,
            p.len() == 3 - level,
            fa.wf(),
            fa.same_shape(s0),
            forall|f: int| #[trigger]
                fa.free(f) <==> s0.free(f) || (0 <= f < s0.total_frames && hangs(
                    mem@,
                    root,
                    p,
                    i as int,
                    f,
                )),
            crate::frames::lowered(
                s0.hint as int,
                fa.hint as int,
                |f: int| hangs(mem@, root, p, i as int, f),
            ),
        decreases n - i,
    {
        let ghost s1 = *fa;
        assert(mem.len() == mem@.len());
        let e: u64 = read_u64(mem, t + 8 * i);
        proof {
            reveal(crate::mem::word);
            crate::tables::frame_bits(e);
            crate::tables::child_table(mem@, root, p, i as int);
        }
        if e & PTE_PRESENT != 0 && e & PTE_HUGE == 0 {
            let u: u64 = e & PTE_ADDR_MASK;
            assert(crate::tables::is_table(mem@, root, p.push(i as int)));
            if level > 1 {
                free_below(
                    mem,
                    u as usize,
                    level - 1,
                    512,
                    fa,
                    Ghost(root),
                    Ghost(p.push(i as int)),
                );
            }
            let ghost s2 = *fa;
            fa.free_contiguous(u, 1);
            proof {
                assert forall|f: int| #[trigger] fa.free(f) <==> s0.free(f) || (0 <= f
                    < s0.total_frames && hangs(mem@, root, p, i + 1, f)) by {
                    hangs_step(mem@, root, p, i as int, f);
                    assert(fa.free(f) <==> s2.free(f) || (f == u as int / 4096 && f
                        < s2.total_frames));
                    assert(s1.free(f) <==> s0.free(f) || (0 <= f < s0.total_frames && hangs(
                        mem@,
                        root,
                        p,
                        i as int,
                        f,
                    )));
                    if level > 1 {
                        assert(s2.free(f) <==> s1.free(f) || (0 <= f < s1.total_frames && hangs(
                            mem@,
                            root,
                            p.push(i as int),
                            512,
                            f,
                        )));
                    } else {
                        assert(!hangs(mem@, root, p.push(i as int), 512, f));
                    }
                }
                let first = |f: int| hangs(mem@, root, p, i as int, f);
                let under = |f: int| hangs(mem@, root, p.push(i as int), 512, f);
                let two = |f: int| first(f) || under(f);
                let given = |f: int| hangs(mem@, root, p, i + 1, f);
                assert(crate::frames::lowered(s1.hint as int, s2.hint as int, under)) by {
                    if level <= 1 {
                        assert forall|f: int| !#[trigger] under(f) by {
                            assert(!hangs(mem@, root, p.push(i as int), 512, f));
                        }
                    }
                }
                crate::frames::lowered_both(
                    s0.hint as int,
                    s1.hint as int,
                    s2.hint as int,
                    first,
                    under,
                    two,
                );
                assert forall|f: int| #[trigger] given(f) <==> two(f) || f == u as int / 4096 by {
                    hangs_step(mem@, root, p, i as int, f);
                }
                crate::frames::lowered_more(
                    s0.hint as int,
                    s2.hint as int,
                    u as int / 4096,
                    two,
                    given,
                );
            }
        } else {
            proof {
                assert forall|f: int| #[trigger] fa.free(f) <==> s0.free(f) || (0 <= f
                    < s0.total_frames && hangs(mem@, root, p, i + 1, f)) by {
                    hangs_step(mem@, root, p, i as int, f);
                }
                let first = |f: int| hangs(mem@, root, p, i as int, f);
                let given = |f: int| hangs(mem@, root, p, i + 1, f);
                assert forall|f: int| #[trigger] given(f) <==> first(f) by {
                    hangs_step(mem@, root, p, i as int, f);
                }
                crate::frames::lowered_both(
                    s0.hint as int,
                    s1.hint as int,
                    s1.hint as int,
                    first,
                    |f: int| false,
                    given,
                );
            }
        }
        i = i + 1;
    }
}

/// Return every frame the user half of this address space uses for page tables,
/// and the root itself. Called when an `AddressSpace` node is reaped.
pub fn free_user_tables(mem: &[u8], pml4: u64, fa: &mut FrameAllocator<'_>)
    requires
        crate::tables::tree(mem@, crate::paging::root_of(pml4)),
        pml4 < 0x10_0000_0000_0000,
        old(fa).wf(),
    ensures
        final(fa).wf(),
        final(fa).same_shape(*old(fa)),
        forall|f: int| #[trigger]
            final(fa).free(f) <==> old(fa).free(f) || (0 <= f < old(fa).total_frames && user_table(
                mem@,
                crate::paging::root_of(pml4),
                f,
            )),
        crate::frames::lowered(
            old(fa).hint as int,
            final(fa).hint as int,
            |f: int| user_table(mem@, crate::paging::root_of(pml4), f),
        ),
{
    let ghost root = crate::paging::root_of(pml4);
    let ghost p: Seq<int> = Seq::empty();
    let ghost s0 = *fa;
    proof {
        crate::tables::root_is_table(mem@, root);
        assert(crate::tables::is_table(mem@, root, p));
        assert(pml4 < 0x10_0000_0000_0000 ==> (pml4 & 0x000F_FFFF_FFFF_F000) / 4096 == pml4 / 4096)
            by (bit_vector);
        crate::tables::frame_bits(pml4);
    }
    assert(mem.len() == mem@.len());
    free_below(mem, (pml4 & PTE_ADDR_MASK) as usize, 3, 256, fa, Ghost(root), Ghost(p));
    let ghost s1 = *fa;
    fa.free_contiguous(pml4, 1);
    proof {
        assert forall|f: int| #[trigger] fa.free(f) <==> s0.free(f) || (0 <= f < s0.total_frames
            && user_table(mem@, root, f)) by {
            assert(fa.free(f) <==> s1.free(f) || (f == pml4 as int / 4096 && f < s1.total_frames));
            assert(s1.free(f) <==> s0.free(f) || (0 <= f < s0.total_frames && hangs(
                mem@,
                root,
                p,
                256,
                f,
            )));
        }
        let first = |f: int| hangs(mem@, root, p, 256, f);
        let given = |f: int| user_table(mem@, root, f);
        assert forall|f: int| #[trigger] given(f) <==> first(f) || f == pml4 as int / 4096 by {
            assert(root == 4096 * (pml4 as int / 4096));
        }
        crate::frames::lowered_more(
            s0.hint as int,
            s1.hint as int,
            pml4 as int / 4096,
            first,
            given,
        );
    }
}

// ------------------------------------------------------------------ making ---

/// Memory that keeps every table of a tree keeps the tree.
pub proof fn elsewhere_kept(m: Seq<u8>, n: Seq<u8>, root: int)
    requires
        crate::tables::tree(m, root),
        n.len() == m.len(),
        forall|p: Seq<int>, a: int|
            #![trigger crate::tables::is_table(m, root, p), n[a]]
            crate::tables::is_table(m, root, p) && crate::tables::table_at(m, root, p)->Some_0 <= a
                < crate::tables::table_at(m, root, p)->Some_0 + 4096 ==> n[a] == m[a],
    ensures
        crate::tables::tree(n, root),
        forall|p: Seq<int>|
            crate::tables::path_ok(p) ==> #[trigger] crate::tables::table_at(n, root, p)
                == crate::tables::table_at(m, root, p),
        crate::paging::same_lookups(m, n, root),
{
    assert forall|q: Seq<int>, j: int|
        #![trigger crate::tables::is_table(m, root, q), crate::tables::slot(crate::tables::table_at(m, root, q)->Some_0, j)]
        crate::tables::is_table(m, root, q) && 0 <= j < 512 implies crate::mem::word(
        n,
        crate::tables::slot(crate::tables::table_at(m, root, q)->Some_0, j),
    ) == crate::mem::word(
        m,
        crate::tables::slot(crate::tables::table_at(m, root, q)->Some_0, j),
    ) by {
        let s = crate::tables::slot(crate::tables::table_at(m, root, q)->Some_0, j);
        assert forall|a: int| s <= a < s + 8 implies n[a] == m[a] by {}
        crate::mem::same_bytes_same_word(n, m, s);
    }
    assert forall|p: Seq<int>| crate::tables::path_ok(p) implies #[trigger] crate::tables::table_at(
        n,
        root,
        p,
    ) == crate::tables::table_at(m, root, p) by {
        crate::tables::tables_kept(m, n, root, p);
    }
    assert forall|q: Seq<int>| #[trigger]
        crate::tables::is_table(n, root, q) <==> crate::tables::is_table(m, root, q) by {
        if crate::tables::path_ok(q) {
            assert(crate::tables::table_at(n, root, q) == crate::tables::table_at(m, root, q));
        }
    }
    crate::tables::root_is_table(m, root);
    assert forall|i: int| 0 <= i < 512 implies !(crate::tables::present(
        #[trigger] crate::mem::word(n, crate::tables::slot(root, i)),
    ) && crate::tables::huge(crate::mem::word(n, crate::tables::slot(root, i)))) by {
        let e: Seq<int> = Seq::empty();
        assert(crate::tables::is_table(m, root, e));
        let s = crate::tables::slot(crate::tables::table_at(m, root, e)->Some_0, i);
        assert(crate::mem::word(n, s) == crate::mem::word(m, s));
        assert(!(crate::tables::present(crate::mem::word(m, crate::tables::slot(root, i)))
            && crate::tables::huge(crate::mem::word(m, crate::tables::slot(root, i)))));
    }
    assert forall|w: u64| #[trigger]
        crate::tables::lookup(n, root, w) == crate::tables::lookup(m, root, w) by {
        let q = crate::tables::path_of(w);
        crate::tables::paths_differ(w, w);
        crate::tables::index_bound(w, 0);
        let j = crate::tables::spec_index(w, 0) as int;
        assert(crate::tables::table_at(n, root, q) == crate::tables::table_at(m, root, q));
        if crate::tables::table_at(m, root, q) is Some {
            assert(crate::tables::is_table(m, root, q));
            let s = crate::tables::slot(crate::tables::table_at(m, root, q)->Some_0, j);
            assert(crate::mem::word(n, s) == crate::mem::word(m, s));
        }
    }
}

/// A root whose upper half is copied from another, in memory otherwise
/// unchanged.
pub open spec fn shares_kernel(m0: Seq<u8>, m1: Seq<u8>, active: int, root: int) -> bool {
    &&& m1.len() == m0.len()
    &&& forall|a: int|
        0 <= a < m0.len() && !(root <= a < root + 4096) ==> #[trigger] m1[a] == m0[a]
    &&& forall|i: int|
        0 <= i < 256 ==> #[trigger] crate::mem::word(m1, crate::tables::slot(root, i)) == 0
    &&& forall|i: int|
        256 <= i < 512 ==> #[trigger] crate::mem::word(m1, crate::tables::slot(root, i))
            == crate::mem::word(m0, crate::tables::slot(active, i))
}

/// The tables of such a root are itself, and the other root's kernel half.
pub proof fn shared_tables(
    f0: FrameAllocator<'_>,
    m0: Seq<u8>,
    m1: Seq<u8>,
    active: int,
    root: int,
    q: Seq<int>,
)
    requires
        crate::paging::ready(f0, m0, active),
        shares_kernel(m0, m1, active, root),
        root % 4096 == 0,
        f0.free(root / 4096),
        crate::tables::path_ok(q),
        q.len() > 0,
    ensures
        crate::tables::table_at(m1, root, q) == if q[0] < 256 {
            None
        } else {
            crate::tables::table_at(m0, active, q)
        },
    decreases q.len(),
{
    let o = q.drop_last();
    let j = q.last();
    crate::tables::frame_bits(0);
    assert forall|k: int| 0 <= k < o.len() implies 0 <= #[trigger] o[k] < 512 by {
        assert(o[k] == q[k]);
    }
    assert(j == q[q.len() - 1]);
    if o.len() == 0 {
        assert(crate::tables::table_at(m1, root, o) == Some(root));
        assert(crate::tables::table_at(m0, active, o) == Some(active));
        assert(q[0] == j);
        if j < 256 {
            assert(crate::mem::word(m1, crate::tables::slot(root, j)) == 0);
        } else {
            assert(crate::mem::word(m1, crate::tables::slot(root, j)) == crate::mem::word(
                m0,
                crate::tables::slot(active, j),
            ));
        }
    } else {
        shared_tables(f0, m0, m1, active, root, o);
        assert(o[0] == q[0]);
        if q[0] >= 256 && crate::tables::table_at(m0, active, o) is Some {
            assert(crate::tables::is_table(m0, active, o));
            let t = crate::tables::table_at(m0, active, o)->Some_0;
            assert(!f0.free(t / 4096));
            let s = crate::tables::slot(t, j);
            assert forall|a: int| s <= a < s + 8 implies m1[a] == m0[a] by {
                assert(a / 4096 == t / 4096);
            }
            crate::mem::same_bytes_same_word(m1, m0, s);
        }
    }
}

/// A fresh root that shares the kernel's half is a valid one.
proof fn fresh_root_ready(
    f0: FrameAllocator<'_>,
    f1: FrameAllocator<'_>,
    m0: Seq<u8>,
    m1: Seq<u8>,
    active: int,
    root: int,
)
    requires
        crate::paging::ready(f0, m0, active),
        shares_kernel(m0, m1, active, root),
        root % 4096 == 0,
        f0.free(root / 4096),
        f1.wf(),
        f1.same_shape(f0),
        forall|f: int| #[trigger] f1.free(f) <==> f0.free(f) && f != root / 4096,
    ensures
        crate::paging::ready(f1, m1, root),
        forall|w: u64| #[trigger]
            crate::tables::lookup(m1, root, w) == if crate::tables::spec_index(w, 3) < 256 {
                None
            } else {
                crate::tables::lookup(m0, active, w)
            },
{
    crate::tables::root_is_table(m0, active);
    crate::tables::root_is_table(m1, root);
    assert forall|q: Seq<int>| #[trigger] crate::tables::is_table(m1, root, q) implies (q.len() == 0
        && crate::tables::table_at(m1, root, q) == Some(root)) || (q.len() > 0
        && crate::tables::is_table(m0, active, q) && crate::tables::table_at(m1, root, q)
        == crate::tables::table_at(m0, active, q) && crate::tables::table_at(m1, root, q)
        != Some(root)) by {
        if q.len() > 0 {
            shared_tables(f0, m0, m1, active, root, q);
            let t = crate::tables::table_at(m0, active, q)->Some_0;
            assert(crate::tables::is_table(m0, active, q));
            assert(!f0.free(t / 4096));
        }
    }
    assert(crate::tables::tree(m1, root)) by {
        assert forall|p: Seq<int>, q: Seq<int>|
            #![trigger crate::tables::is_table(m1, root, p), crate::tables::is_table(m1, root, q)]
            crate::tables::is_table(m1, root, p) && crate::tables::is_table(m1, root, q)
                && crate::tables::table_at(m1, root, p) == crate::tables::table_at(
                m1,
                root,
                q,
            ) implies p == q by {
            if p.len() == 0 {
                assert(q.len() == 0);
                assert(p =~= q);
            } else {
                assert(crate::tables::is_table(m0, active, p));
                assert(crate::tables::is_table(m0, active, q));
            }
        }
        assert forall|i: int| 0 <= i < 512 implies !(crate::tables::present(
            #[trigger] crate::mem::word(m1, crate::tables::slot(root, i)),
        ) && crate::tables::huge(crate::mem::word(m1, crate::tables::slot(root, i)))) by {
            crate::tables::frame_bits(0);
            if i >= 256 {
                assert(!(crate::tables::present(
                    crate::mem::word(m0, crate::tables::slot(active, i)),
                ) && crate::tables::huge(crate::mem::word(m0, crate::tables::slot(active, i)))));
            }
        }
        assert(root + 4096 <= m1.len());
    }
    assert forall|w: u64| #[trigger]
        crate::tables::lookup(m1, root, w) == if crate::tables::spec_index(w, 3) < 256 {
        None
    } else {
        crate::tables::lookup(m0, active, w)
    } by {
        let q = crate::tables::path_of(w);
        crate::tables::paths_differ(w, w);
        crate::tables::index_bound(w, 0);
        shared_tables(f0, m0, m1, active, root, q);
        let j = crate::tables::spec_index(w, 0) as int;
        if q[0] >= 256 && crate::tables::table_at(m0, active, q) is Some {
            assert(crate::tables::is_table(m0, active, q));
            let t = crate::tables::table_at(m0, active, q)->Some_0;
            assert(!f0.free(t / 4096));
            let s = crate::tables::slot(t, j);
            assert forall|a: int| s <= a < s + 8 implies m1[a] == m0[a] by {
                assert(a / 4096 == t / 4096);
            }
            crate::mem::same_bytes_same_word(m1, m0, s);
        }
    }
}

/// Create a fresh address space: an empty user half, sharing the kernel's
/// higher half so that a switch to it does not unmap the code doing the switch.
///
/// Sharing the upper entries, rather than copying the tables beneath, is what
/// makes the kernel mapping one fixed thing in every address space.
pub fn new_address_space(mem: &mut [u8], active: u64, fa: &mut FrameAllocator<'_>) -> (r: Option<
    u64,
>)
    requires
        crate::paging::ready(*old(fa), old(mem)@, crate::paging::root_of(active)),
    ensures
        final(fa).wf(),
        final(fa).same_shape(*old(fa)),
        r is None <==> old(fa).no_fit(1, 1),
        r is None ==> final(mem)@ == old(mem)@ && *final(fa) == *old(fa),
        r matches Some(phys) ==> {
            &&& phys > 0
            &&& phys % 4096 == 0
            &&& crate::paging::root_of(phys) == phys
            &&& old(fa).taken_at(1, phys as int / 4096)
            &&& old(fa).free(phys as int / 4096)
            &&& final(fa).hint == phys as int / 4096 + 1
            &&& forall|f: int| #[trigger]
                final(fa).free(f) <==> old(fa).free(f) && f != phys as int / 4096
            &&& shares_kernel(
                old(mem)@,
                final(mem)@,
                crate::paging::root_of(active),
                phys as int,
            )
            &&& crate::paging::ready(*final(fa), final(mem)@, phys as int)
            &&& forall|w: u64| #[trigger]
                crate::tables::lookup(final(mem)@, phys as int, w) == if crate::tables::spec_index(
                    w,
                    3,
                ) < 256 {
                    None
                } else {
                    crate::tables::lookup(old(mem)@, crate::paging::root_of(active), w)
                }
        },
{
    let ghost m0 = mem@;
    let ghost f0 = *fa;
    let ghost a = crate::paging::root_of(active);
    let phys: u64 = match fa.allocate() {
        Some(f) => f,
        None => return None,
    };
    proof {
        assert(f0.fits(phys as int / 4096, 1));
        assert(!f0.no_fit(1, 1));
        crate::tables::root_is_table(m0, a);
        assert(crate::tables::is_table(m0, a, Seq::<int>::empty()));
        assert(!f0.free(a / 4096));
        crate::tables::entry_bits(phys);
        assert(phys + 4096 <= m0.len());
    }
    assert(mem.len() == mem@.len());
    zero_bytes(mem, phys as usize, 4096);
    let kernel: usize = (active & PTE_ADDR_MASK) as usize;
    let mut i: usize = 256;
    proof {
        assert forall|k: int| 0 <= k < 512 implies #[trigger] crate::mem::word(
            mem@,
            crate::tables::slot(phys as int, k),
        ) == 0 by {
            crate::mem::zero_word(mem@, crate::tables::slot(phys as int, k));
        }
    }
    while i < 512
        invariant
            256 <= i <= 512,
            kernel == a,
            mem@.len() == m0.len(),
            phys + 4096 <= m0.len(),
            a + 4096 <= m0.len(),
            a + 4096 <= phys || phys + 4096 <= a,
            forall|x: int|
                0 <= x < m0.len() && !(phys <= x < phys + 4096) ==> #[trigger] mem@[x] == m0[x],
            forall|k: int|
                0 <= k < 256 ==> #[trigger] crate::mem::word(
                    mem@,
                    crate::tables::slot(phys as int, k),
                ) == 0,
            forall|k: int|
                256 <= k < i ==> #[trigger] crate::mem::word(
                    mem@,
                    crate::tables::slot(phys as int, k),
                ) == crate::mem::word(m0, crate::tables::slot(a, k)),
        decreases 512 - i,
    {
        let ghost before = mem@;
        assert(mem.len() == mem@.len());
        let e: u64 = read_u64(mem, kernel + 8 * i);
        proof {
            let s = crate::tables::slot(a, i as int);
            assert(e == crate::mem::word(mem@, s)) by {
                reveal(crate::mem::word);
            }
            crate::mem::same_bytes_same_word(mem@, m0, s);
        }
        write_u64(mem, phys as usize + 8 * i, e);
        proof {
            assert forall|k: int| 0 <= k < 512 implies #[trigger] crate::mem::word(
                mem@,
                crate::tables::slot(phys as int, k),
            ) == if k == i {
                e
            } else {
                crate::mem::word(before, crate::tables::slot(phys as int, k))
            } by {
                crate::mem::word_written(
                    before,
                    crate::tables::slot(phys as int, i as int),
                    e,
                    crate::tables::slot(phys as int, k),
                );
            }
        }
        i = i + 1;
    }
    proof {
        fresh_root_ready(f0, *fa, m0, mem@, a, phys as int);
    }
    Some(phys)
}

} // verus!
