//! Little-endian numbers in a stretch of bytes, and physical memory as one.

use vstd::prelude::*;

verus! {

/// The 16-bit number written little-endian at `at`.
pub open spec fn le16(b: Seq<u8>, at: int) -> u16 {
    (b[at] + b[at + 1] * 256) as u16
}

pub fn read_u16(b: &[u8], at: usize) -> (r: u16)
    requires
        at + 2 <= b@.len(),
    ensures
        r == le16(b@, at as int),
{
    b[at] as u16 + b[at + 1] as u16 * 256
}

pub fn read_u32(b: &[u8], at: usize) -> (r: u32)
    requires
        at + 4 <= b@.len(),
    ensures
        r == crate::edge::le32(b@, at as int),
{
    b[at] as u32 + b[at + 1] as u32 * 256 + b[at + 2] as u32 * 0x1_0000 + b[at + 3] as u32
        * 0x100_0000
}

pub fn read_u64(b: &[u8], at: usize) -> (r: u64)
    requires
        at + 8 <= b@.len(),
    ensures
        r == crate::edge::le64(b@, at as int),
{
    assert(b.len() == b@.len());
    read_u32(b, at) as u64 + read_u32(b, at + 4) as u64 * 0x1_0000_0000
}

/// The bytes with `s` written over them at `at`.
pub open spec fn overwritten(b: Seq<u8>, at: int, s: Seq<u8>) -> Seq<u8> {
    Seq::new(
        b.len(),
        |i: int|
            if at <= i < at + s.len() {
                s[i - at]
            } else {
                b[i]
            },
    )
}

pub fn write_u32(b: &mut [u8], at: usize, v: u32)
    requires
        at + 4 <= old(b)@.len(),
    ensures
        final(b)@ == overwritten(old(b)@, at as int, crate::edge::u32_bytes(v)),
{
    b[at] = (v % 256) as u8;
    b[at + 1] = (v / 256 % 256) as u8;
    b[at + 2] = (v / 0x1_0000 % 256) as u8;
    b[at + 3] = (v / 0x100_0000) as u8;
    assert(b@ =~= overwritten(old(b)@, at as int, crate::edge::u32_bytes(v)));
}

pub fn write_u64(b: &mut [u8], at: usize, v: u64)
    requires
        at + 8 <= old(b)@.len(),
    ensures
        final(b)@ == overwritten(old(b)@, at as int, crate::edge::u64_bytes(v)),
{
    assert(b.len() == b@.len());
    write_u32(b, at, (v % 0x1_0000_0000) as u32);
    write_u32(b, at + 4, (v / 0x1_0000_0000) as u32);
    assert(b@ =~= overwritten(old(b)@, at as int, crate::edge::u64_bytes(v)));
}

/// Write bytes over a stretch of memory.
pub fn write_bytes(b: &mut [u8], at: usize, s: &[u8])
    requires
        at + s@.len() <= old(b)@.len(),
    ensures
        final(b)@ == overwritten(old(b)@, at as int, s@),
{
    let ghost before = b@;
    let mut i: usize = 0;
    while i < s.len()
        invariant
            i <= s@.len(),
            at + s@.len() <= b@.len(),
            b@ == overwritten(before, at as int, s@.subrange(0, i as int)),
            before == old(b)@,
        decreases s@.len() - i,
    {
        assert(b.len() == b@.len());
        b[at + i] = s[i];
        i = i + 1;
        assert(b@ =~= overwritten(before, at as int, s@.subrange(0, i as int)));
    }
    assert(s@.subrange(0, s@.len() as int) =~= s@);
    assert(b@ =~= overwritten(before, at as int, s@));
}

/// Fill a stretch of memory with zeroes.
pub fn zero_bytes(b: &mut [u8], at: usize, n: usize)
    requires
        at + n <= old(b)@.len(),
    ensures
        final(b)@ == overwritten(old(b)@, at as int, crate::edge::zeros(n as nat)),
{
    let ghost before = b@;
    let mut i: usize = 0;
    while i < n
        invariant
            i <= n,
            at + n <= b@.len(),
            b@ == overwritten(before, at as int, crate::edge::zeros(i as nat)),
            before == old(b)@,
        decreases n - i,
    {
        assert(b.len() == b@.len());
        b[at + i] = 0;
        i = i + 1;
        assert(b@ =~= overwritten(before, at as int, crate::edge::zeros(i as nat)));
    }
}

// ------------------------------------------------------------------- words ---

/// The 64-bit word at an address.
#[verifier::opaque]
pub open spec fn word(mem: Seq<u8>, a: int) -> u64 {
    crate::edge::le64(mem, a)
}

/// The memory with a 64-bit word replaced.
pub open spec fn with_word(mem: Seq<u8>, a: int, v: u64) -> Seq<u8> {
    overwritten(mem, a, crate::edge::u64_bytes(v))
}

/// A word written is read back, and no other word is touched.
pub proof fn word_written(mem: Seq<u8>, a: int, v: u64, b: int)
    requires
        0 <= a,
        a + 8 <= mem.len(),
        0 <= b,
        b + 8 <= mem.len(),
    ensures
        b == a ==> word(with_word(mem, a, v), b) == v,
        b >= a + 8 || a >= b + 8 ==> word(with_word(mem, a, v), b) == word(mem, b),
{
    reveal(word);
    let w = with_word(mem, a, v);
    if b == a {
        assert(w.subrange(a, a + 8) =~= crate::edge::u64_bytes(v));
        crate::edge::le64_reads_u64_bytes(w, a, v);
    }
}

/// A word is the bytes it is made of.
pub proof fn same_bytes_same_word(m: Seq<u8>, n: Seq<u8>, a: int)
    requires
        forall|i: int| a <= i < a + 8 ==> m[i] == n[i],
    ensures
        word(m, a) == word(n, a),
{
    reveal(word);
}

/// A word of zero bytes is zero.
pub proof fn zero_word(m: Seq<u8>, a: int)
    requires
        forall|i: int| a <= i < a + 8 ==> m[i] == 0,
    ensures
        word(m, a) == 0,
{
    reveal(word);
}

} // verus!
