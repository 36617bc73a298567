//! The few words about the machine that are set once at boot and read
//! everywhere, and what boot reports of it.

use vstd::prelude::*;

use crate::frames::{Region, RegionKind};

verus! {

/// Where the direct map starts, the page tables to run on when a thread has
/// none of its own, and the stack a system call is taken on.
#[derive(Clone, Copy, Debug, PartialEq, Eq, Structural)]
pub struct Machine {
    pub hhdm: u64,
    pub kernel_pml4: u64,
    pub kernel_rsp: u64,
}

/// Nothing is known yet.
pub fn init() -> (r: Machine)
    ensures
        r == (Machine { hhdm: 0, kernel_pml4: 0, kernel_rsp: 0 }),
{
    Machine { hhdm: 0, kernel_pml4: 0, kernel_rsp: 0 }
}

pub fn set_hhdm(m: &mut Machine, offset: u64)
    ensures
        *final(m) == (Machine { hhdm: offset, ..*old(m) }),
{
    m.hhdm = offset;
}

pub fn set_kernel_pml4(m: &mut Machine, phys: u64)
    ensures
        *final(m) == (Machine { kernel_pml4: phys, ..*old(m) }),
{
    m.kernel_pml4 = phys;
}

pub fn set_kernel_rsp(m: &mut Machine, top: u64)
    ensures
        *final(m) == (Machine { kernel_rsp: top, ..*old(m) }),
{
    m.kernel_rsp = top;
}

pub fn kernel_pml4(m: &Machine) -> (r: u64)
    ensures
        r == m.kernel_pml4,
{
    m.kernel_pml4
}

pub fn hhdm(m: &Machine) -> (r: u64)
    ensures
        r == m.hhdm,
{
    m.hhdm
}

/// The needle is in the haystack at `i`.
pub open spec fn occurs_at(haystack: Seq<u8>, needle: Seq<u8>, i: int) -> bool {
    0 <= i && i + needle.len() <= haystack.len() && haystack.subrange(i, i + needle.len())
        == needle
}

fn matches_at(haystack: &[u8], needle: &[u8], i: usize) -> (r: bool)
    requires
        i + needle@.len() <= haystack@.len(),
    ensures
        r == occurs_at(haystack@, needle@, i as int),
{
    assert(haystack.len() == haystack@.len());
    let mut k: usize = 0;
    while k < needle.len()
        invariant
            k <= needle@.len(),
            i + needle@.len() <= haystack@.len() <= usize::MAX,
            forall|j: int| 0 <= j < k ==> haystack@[i + j] == needle@[j],
        decreases needle@.len() - k,
    {
        if haystack[i + k] != needle[k] {
            assert(haystack@.subrange(i as int, i + needle@.len())[k as int] != needle@[k as int]);
            return false;
        }
        k = k + 1;
    }
    assert(haystack@.subrange(i as int, i + needle@.len()) =~= needle@);
    true
}

/// Substring search, for a kernel with no helpers to lean on. The empty needle
/// is nowhere.
pub fn contains(haystack: &[u8], needle: &[u8]) -> (r: bool)
    ensures
        r <==> needle@.len() > 0 && exists|i: int| occurs_at(haystack@, needle@, i),
{
    if needle.len() == 0 || haystack.len() < needle.len() {
        return false;
    }
    let last: usize = haystack.len() - needle.len();
    let mut i: usize = 0;
    loop
        invariant
            last == haystack@.len() - needle@.len(),
            i <= last,
            needle@.len() > 0,
            forall|j: int| 0 <= j < i ==> !occurs_at(haystack@, needle@, j),
        decreases last - i,
    {
        if matches_at(haystack, needle, i) {
            return true;
        }
        if i == last {
            proof {
                assert forall|j: int| !occurs_at(haystack@, needle@, j) by {}
            }
            return false;
        }
        i = i + 1;
    }
}

/// How many bytes the first `n` regions have, and how many of them are usable.
pub open spec fn memory_below(entries: Seq<Region>, n: int) -> (int, int)
    decreases n,
{
    if n <= 0 {
        (0, 0)
    } else {
        let (t, u) = memory_below(entries, n - 1);
        let e = entries[n - 1];
        (
            t + e.length,
            u + if e.kind == RegionKind::Usable {
                e.length as int
            } else {
                0
            },
        )
    }
}

/// How much memory the map describes, and how much of it is usable.
pub fn memory_totals(entries: &[Region]) -> (r: (u64, u64))
    requires
        memory_below(entries@, entries@.len() as int).0 <= u64::MAX,
    ensures
        (r.0 as int, r.1 as int) == memory_below(entries@, entries@.len() as int),
{
    let mut total: u64 = 0;
    let mut usable: u64 = 0;
    let mut i: usize = 0;
    while i < entries.len()
        invariant
            i <= entries@.len(),
            (total as int, usable as int) == memory_below(entries@, i as int),
            usable <= total,
            memory_below(entries@, entries@.len() as int).0 <= u64::MAX,
        decreases entries@.len() - i,
    {
        proof {
            memory_grows(entries@, i + 1, entries@.len() as int);
        }
        let e = entries[i];
        total = total + e.length;
        if e.kind == RegionKind::Usable {
            usable = usable + e.length;
        }
        i = i + 1;
    }
    (total, usable)
}

proof fn memory_grows(entries: Seq<Region>, n: int, m: int)
    requires
        0 <= n <= m <= entries.len(),
    ensures
        memory_below(entries, n).0 <= memory_below(entries, m).0,
    decreases m - n,
{
    if n < m {
        memory_grows(entries, n, m - 1);
    }
}

} // verus!
