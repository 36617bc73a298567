//! Bits of a map kept in 64-bit words.

use vstd::prelude::*;

verus! {

/// Bit `i` of the map is set.
#[verifier::opaque]
pub open spec fn bit(bits: Seq<u64>, i: int) -> bool {
    bits[i / 64] & (1u64 << (i % 64) as u64) != 0
}

/// Setting one bit of a word sets that bit and no other.
pub proof fn set_bit(x: u64, b: u64, c: u64)
    requires
        b < 64,
        c < 64,
    ensures
        (x | (1u64 << b)) & (1u64 << c) != 0 <==> b == c || x & (1u64 << c) != 0,
{
    assert(b < 64 && c < 64 ==> ((x | (1u64 << b)) & (1u64 << c) != 0 <==> (b == c || x & (1u64
        << c) != 0))) by (bit_vector);
}

/// Clearing one bit of a word clears that bit and no other.
pub proof fn clear_bit(x: u64, b: u64, c: u64)
    requires
        b < 64,
        c < 64,
    ensures
        (x & !(1u64 << b)) & (1u64 << c) != 0 <==> b != c && x & (1u64 << c) != 0,
{
    assert(b < 64 && c < 64 ==> ((x & !(1u64 << b)) & (1u64 << c) != 0 <==> (b != c && x & (1u64
        << c) != 0))) by (bit_vector);
}

/// Every bit of a full word is set.
pub proof fn full_word(b: u64)
    requires
        b < 64,
    ensures
        u64::MAX & (1u64 << b) != 0,
{
    assert(b < 64 ==> 0xFFFF_FFFF_FFFF_FFFFu64 & (1u64 << b) != 0) by (bit_vector);
}

/// Setting one bit of the map, seen from every other bit.
pub proof fn set_in_map(before: Seq<u64>, after: Seq<u64>, i: int)
    requires
        0 <= i / 64 < before.len(),
        0 <= i,
        after == before.update(i / 64, before[i / 64] | (1u64 << (i % 64) as u64)),
    ensures
        forall|j: int|
            0 <= j < before.len() * 64 ==> (#[trigger] bit(after, j) <==> j == i || bit(before, j)),
{
    reveal(bit);
    assert forall|j: int| 0 <= j < before.len() * 64 implies (#[trigger] bit(after, j) <==> j == i
        || bit(before, j)) by {
        if j / 64 == i / 64 {
            set_bit(before[i / 64], (i % 64) as u64, (j % 64) as u64);
        }
    }
}

/// Clearing one bit of the map, seen from every other bit.
pub proof fn clear_in_map(before: Seq<u64>, after: Seq<u64>, i: int)
    requires
        0 <= i / 64 < before.len(),
        0 <= i,
        after == before.update(i / 64, before[i / 64] & !(1u64 << (i % 64) as u64)),
    ensures
        forall|j: int|
            0 <= j < before.len() * 64 ==> (#[trigger] bit(after, j) <==> j != i && bit(before, j)),
{
    reveal(bit);
    assert forall|j: int| 0 <= j < before.len() * 64 implies (#[trigger] bit(after, j) <==> j != i
        && bit(before, j)) by {
        if j / 64 == i / 64 {
            clear_bit(before[i / 64], (i % 64) as u64, (j % 64) as u64);
        }
    }
}

/// How many of the first `n` bits are clear.
pub open spec fn count_clear(bits: Seq<u64>, n: int) -> int
    decreases n,
{
    if n <= 0 {
        0
    } else {
        count_clear(bits, n - 1) + if bit(bits, n - 1) {
            0int
        } else {
            1
        }
    }
}

/// The count is never more than the bits counted.
pub proof fn count_clear_bound(bits: Seq<u64>, n: int)
    requires
        0 <= n,
    ensures
        0 <= count_clear(bits, n) <= n,
    decreases n,
{
    if n > 0 {
        count_clear_bound(bits, n - 1);
    }
}

/// Changing one bit changes the count by one.
pub proof fn count_clear_step(before: Seq<u64>, after: Seq<u64>, n: int, i: int)
    requires
        0 <= n,
        0 <= i,
        forall|j: int| 0 <= j < n && j != i ==> (#[trigger] bit(after, j) <==> bit(before, j)),
    ensures
        i >= n ==> count_clear(after, n) == count_clear(before, n),
        i < n && bit(before, i) == bit(after, i) ==> count_clear(after, n) == count_clear(before, n),
        i < n && !bit(before, i) && bit(after, i) ==> count_clear(after, n) == count_clear(
            before,
            n,
        ) - 1,
        i < n && bit(before, i) && !bit(after, i) ==> count_clear(after, n) == count_clear(
            before,
            n,
        ) + 1,
    decreases n,
{
    if n > 0 {
        count_clear_step(before, after, n - 1, i);
        if n - 1 != i {
            assert(bit(after, n - 1) == bit(before, n - 1));
        }
    }
}

/// A map of full words has nothing clear.
pub proof fn count_clear_full(bits: Seq<u64>, n: int)
    requires
        forall|j: int| 0 <= j < n ==> #[trigger] bit(bits, j),
    ensures
        count_clear(bits, n) == 0,
    decreases n,
{
    if n > 0 {
        count_clear_full(bits, n - 1);
        assert(bit(bits, n - 1));
    }
}

} // verus!
