//! Edges: 64 bytes, cross-linked into two circular doubly-linked lists at once
//! (the source's out-list for its kind, the target's in-list for its kind).
//!
//! Circular rather than null-terminated so that a single head pointer gives
//! constant-time push-tail, pop-head and unlink.

use vstd::prelude::*;

use crate::body::Rights;
use crate::id::{EdgeKind, NodeId};
use crate::limits::MAX_NAME_LEN;

verus! {

// ------------------------------------------------------------ byte layout ---

/// Little-endian bytes of a 32-bit number.
pub open spec fn u32_bytes(v: u32) -> Seq<u8> {
    seq![
        (v % 256) as u8,
        (v / 256 % 256) as u8,
        (v / 0x1_0000 % 256) as u8,
        (v / 0x100_0000) as u8,
    ]
}

/// Little-endian bytes of a 64-bit number.
pub open spec fn u64_bytes(v: u64) -> Seq<u8> {
    u32_bytes((v % 0x1_0000_0000) as u32) + u32_bytes((v / 0x1_0000_0000) as u32)
}

/// The 32-bit number written little-endian at `at`.
pub open spec fn le32(b: Seq<u8>, at: int) -> u32 {
    (b[at] + b[at + 1] * 256 + b[at + 2] * 0x1_0000 + b[at + 3] * 0x100_0000) as u32
}

/// The 64-bit number written little-endian at `at`.
pub open spec fn le64(b: Seq<u8>, at: int) -> u64 {
    (le32(b, at) + le32(b, at + 4) * 0x1_0000_0000) as u64
}

pub open spec fn zeros(n: nat) -> Seq<u8> {
    Seq::new(n, |i: int| 0u8)
}

/// Reading back the bytes of a number gives the number.
pub proof fn le32_reads_u32_bytes(b: Seq<u8>, at: int, v: u32)
    requires
        0 <= at,
        at + 4 <= b.len(),
        b.subrange(at, at + 4) == u32_bytes(v),
    ensures
        le32(b, at) == v,
{
    let s = b.subrange(at, at + 4);
    assert(b[at] == s[0] && b[at + 1] == s[1] && b[at + 2] == s[2] && b[at + 3] == s[3]);
}

/// Reading back the bytes of a number gives the number.
pub proof fn le64_reads_u64_bytes(b: Seq<u8>, at: int, v: u64)
    requires
        0 <= at,
        at + 8 <= b.len(),
        b.subrange(at, at + 8) == u64_bytes(v),
    ensures
        le64(b, at) == v,
{
    let lo = (v % 0x1_0000_0000) as u32;
    let hi = (v / 0x1_0000_0000) as u32;
    let s = b.subrange(at, at + 8);
    assert(b.subrange(at, at + 4) =~= s.subrange(0, 4));
    assert(s.subrange(0, 4) =~= u32_bytes(lo));
    assert(b.subrange(at + 4, at + 8) =~= s.subrange(4, 8));
    assert(s.subrange(4, 8) =~= u32_bytes(hi));
    le32_reads_u32_bytes(b, at, lo);
    le32_reads_u32_bytes(b, at + 4, hi);
}

/// Type-erased edge attributes. 24 bytes, little-endian, decoded by the
/// per-kind codecs below.
#[derive(Clone, Copy, PartialEq, Eq, Debug)]
pub struct RawEdgeData(pub [u8; 24]);

impl RawEdgeData {
    pub fn zero() -> (r: RawEdgeData)
        ensures
            r.0@ == zeros(24),
    {
        let bytes: [u8; 24] = [0u8;24];
        proof {
            vstd::array::axiom_spec_array_fill_for_copy_type::<u8, 24>(0u8);
        }
        assert(bytes@ =~= zeros(24));
        RawEdgeData(bytes)
    }

    fn put_u32(&mut self, at: usize, v: u32)
        requires
            at + 4 <= 24,
        ensures
            final(self).0@ == old(self).0@.subrange(0, at as int) + u32_bytes(v) + old(
                self,
            ).0@.subrange(at + 4, 24),
    {
        self.0[at] = (v % 256) as u8;
        self.0[at + 1] = (v / 256 % 256) as u8;
        self.0[at + 2] = (v / 0x1_0000 % 256) as u8;
        self.0[at + 3] = (v / 0x100_0000) as u8;
    }

    fn put_u64(&mut self, at: usize, v: u64)
        requires
            at + 8 <= 24,
        ensures
            final(self).0@ == old(self).0@.subrange(0, at as int) + u64_bytes(v) + old(
                self,
            ).0@.subrange(at + 8, 24),
    {
        self.put_u32(at, (v % 0x1_0000_0000) as u32);
        self.put_u32(at + 4, (v / 0x1_0000_0000) as u32);
    }

    fn get_u32(&self, at: usize) -> (r: u32)
        requires
            at + 4 <= 24,
        ensures
            r == le32(self.0@, at as int),
    {
        self.0[at] as u32 + self.0[at + 1] as u32 * 256 + self.0[at + 2] as u32 * 0x1_0000
            + self.0[at + 3] as u32 * 0x100_0000
    }

    fn get_u64(&self, at: usize) -> (r: u64)
        requires
            at + 8 <= 24,
        ensures
            r == le64(self.0@, at as int),
    {
        self.get_u32(at) as u64 + self.get_u32(at + 4) as u64 * 0x1_0000_0000
    }
}

/// Attribute payload for one edge kind.
pub trait EdgeAttr: Copy {
    spec fn spec_kind() -> EdgeKind;

    fn kind() -> (r: EdgeKind)
        ensures
            r == Self::spec_kind(),
    ;

    /// What the payload must satisfy to survive the trip through bytes.
    spec fn encodable(self) -> bool;

    spec fn spec_bytes(self) -> Seq<u8>;

    fn encode(self) -> (r: RawEdgeData)
        ensures
            r.0@ == self.spec_bytes(),
    ;

    spec fn spec_decode(b: Seq<u8>) -> Self;

    fn decode(raw: RawEdgeData) -> (r: Self)
        ensures
            r == Self::spec_decode(raw.0@),
    ;

    /// Decoding what was encoded gives the payload back.
    proof fn round_trip(self)
        requires
            self.encodable(),
        ensures
            self.spec_bytes().len() == 24,
            Self::spec_decode(self.spec_bytes()) == self,
    ;
}

// --------------------------------------------------------------- payloads ---

#[derive(Clone, Copy, Debug, PartialEq, Eq, Structural)]
pub struct OwnsAttr;

impl EdgeAttr for OwnsAttr {
    open spec fn spec_kind() -> EdgeKind {
        EdgeKind::Owns
    }

    fn kind() -> EdgeKind {
        EdgeKind::Owns
    }

    open spec fn encodable(self) -> bool {
        true
    }

    open spec fn spec_bytes(self) -> Seq<u8> {
        zeros(24)
    }

    fn encode(self) -> RawEdgeData {
        RawEdgeData::zero()
    }

    open spec fn spec_decode(b: Seq<u8>) -> OwnsAttr {
        OwnsAttr
    }

    fn decode(raw: RawEdgeData) -> OwnsAttr {
        OwnsAttr
    }

    proof fn round_trip(self) {
    }
}

#[derive(Clone, Copy, Debug, PartialEq, Eq, Structural)]
pub struct HoldsAttr {
    pub rights: Rights,
    /// The userspace handle number this capability answers to.
    pub slot: u32,
}

impl EdgeAttr for HoldsAttr {
    open spec fn spec_kind() -> EdgeKind {
        EdgeKind::Holds
    }

    fn kind() -> EdgeKind {
        EdgeKind::Holds
    }

    open spec fn encodable(self) -> bool {
        true
    }

    open spec fn spec_bytes(self) -> Seq<u8> {
        u32_bytes(self.rights.0) + u32_bytes(self.slot) + zeros(16)
    }

    fn encode(self) -> RawEdgeData {
        let mut r = RawEdgeData::zero();
        r.put_u32(0, self.rights.0);
        r.put_u32(4, self.slot);
        assert(r.0@ =~= self.spec_bytes());
        r
    }

    open spec fn spec_decode(b: Seq<u8>) -> HoldsAttr {
        HoldsAttr { rights: Rights(le32(b, 0)), slot: le32(b, 4) }
    }

    fn decode(raw: RawEdgeData) -> HoldsAttr {
        HoldsAttr { rights: Rights(raw.get_u32(0)), slot: raw.get_u32(4) }
    }

    proof fn round_trip(self) {
        let b = self.spec_bytes();
        assert(b.subrange(0, 4) =~= u32_bytes(self.rights.0));
        assert(b.subrange(4, 8) =~= u32_bytes(self.slot));
        le32_reads_u32_bytes(b, 0, self.rights.0);
        le32_reads_u32_bytes(b, 4, self.slot);
    }
}

#[derive(Clone, Copy, Debug, PartialEq, Eq, Structural)]
pub struct InSpaceAttr;

impl EdgeAttr for InSpaceAttr {
    open spec fn spec_kind() -> EdgeKind {
        EdgeKind::InSpace
    }

    fn kind() -> EdgeKind {
        EdgeKind::InSpace
    }

    open spec fn encodable(self) -> bool {
        true
    }

    open spec fn spec_bytes(self) -> Seq<u8> {
        zeros(24)
    }

    fn encode(self) -> RawEdgeData {
        RawEdgeData::zero()
    }

    open spec fn spec_decode(b: Seq<u8>) -> InSpaceAttr {
        InSpaceAttr
    }

    fn decode(raw: RawEdgeData) -> InSpaceAttr {
        InSpaceAttr
    }

    proof fn round_trip(self) {
    }
}

/// Page protection bits carried by a `Maps` edge. The page tables must satisfy
/// these exactly.
#[derive(Clone, Copy, Debug, PartialEq, Eq, Structural)]
pub struct Prot(pub u8);

impl Prot {
    pub fn none() -> (r: Prot)
        ensures
            r == Prot(0),
    {
        Prot(0)
    }

    pub fn read() -> (r: Prot)
        ensures
            r == Prot(1),
    {
        Prot(1)
    }

    pub fn write() -> (r: Prot)
        ensures
            r == Prot(2),
    {
        Prot(2)
    }

    pub fn exec() -> (r: Prot)
        ensures
            r == Prot(4),
    {
        Prot(4)
    }

    pub fn user() -> (r: Prot)
        ensures
            r == Prot(8),
    {
        Prot(8)
    }

    pub fn rw() -> (r: Prot)
        ensures
            r == Prot(3),
    {
        Prot(3)
    }

    pub fn rwu() -> (r: Prot)
        ensures
            r == Prot(11),
    {
        Prot(11)
    }

    pub fn rxu() -> (r: Prot)
        ensures
            r == Prot(13),
    {
        Prot(13)
    }

    pub open spec fn spec_contains(self, o: Prot) -> bool {
        self.0 & o.0 == o.0
    }

    #[verifier::when_used_as_spec(spec_contains)]
    pub fn contains(self, o: Prot) -> (r: bool)
        ensures
            r == self.spec_contains(o),
    {
        self.0 & o.0 == o.0
    }

    pub open spec fn spec_union(self, o: Prot) -> Prot {
        Prot(self.0 | o.0)
    }

    #[verifier::when_used_as_spec(spec_union)]
    pub fn union(self, o: Prot) -> (r: Prot)
        ensures
            r == self.spec_union(o),
    {
        Prot(self.0 | o.0)
    }
}

impl Default for Prot {
    fn default() -> (r: Prot)
        ensures
            r == Prot(0),
    {
        Prot(0)
    }
}

/// How a mapping is realised in the page tables.
#[derive(Clone, Copy, Debug, PartialEq, Eq, Structural)]
pub struct MapFlags(pub u8);

impl MapFlags {
    pub fn none() -> (r: MapFlags)
        ensures
            r == MapFlags(0),
    {
        MapFlags(0)
    }

    /// The edge exists but the page-table entries do not. They are written one
    /// page at a time, when the page is first touched.
    pub fn lazy() -> (r: MapFlags)
        ensures
            r == MapFlags(1),
    {
        MapFlags(1)
    }

    pub open spec fn spec_contains(self, o: MapFlags) -> bool {
        self.0 & o.0 == o.0
    }

    #[verifier::when_used_as_spec(spec_contains)]
    pub fn contains(self, o: MapFlags) -> (r: bool)
        ensures
            r == self.spec_contains(o),
    {
        self.0 & o.0 == o.0
    }
}

impl Default for MapFlags {
    fn default() -> (r: MapFlags)
        ensures
            r == MapFlags(0),
    {
        MapFlags(0)
    }
}

#[derive(Clone, Copy, Debug, PartialEq, Eq, Structural)]
pub struct MapsAttr {
    pub vaddr: u64,
    pub len_pages: u32,
    /// Offset into the memory object, in pages.
    pub off_pages: u32,
    pub prot: Prot,
    pub flags: MapFlags,
}

impl MapsAttr {
    /// Exclusive end of the virtual range, in bytes.
    pub open spec fn end_at(self) -> int {
        self.vaddr + self.len_pages * 4096
    }

    /// The range ends inside the 64-bit address space.
    pub open spec fn fits(self) -> bool {
        self.end_at() <= u64::MAX
    }

    pub open spec fn spec_covers(self, vaddr: u64) -> bool {
        self.vaddr <= vaddr < self.end_at()
    }

    pub open spec fn spec_overlaps(self, other: MapsAttr) -> bool {
        self.vaddr < other.end_at() && other.vaddr < self.end_at()
    }

    /// Does this mapping cover `vaddr`?
    pub fn covers(&self, vaddr: u64) -> (r: bool)
        requires
            self.fits(),
        ensures
            r == self.spec_covers(vaddr),
    {
        vaddr >= self.vaddr && vaddr < self.end()
    }

    /// Exclusive end of the virtual range, in bytes.
    pub fn end(&self) -> (r: u64)
        requires
            self.fits(),
        ensures
            r == self.end_at(),
    {
        self.vaddr + (self.len_pages as u64) * 4096
    }

    pub fn overlaps(&self, other: &MapsAttr) -> (r: bool)
        requires
            self.fits(),
            other.fits(),
        ensures
            r == self.spec_overlaps(*other),
    {
        self.vaddr < other.end() && other.vaddr < self.end()
    }

    /// The end of a stored range, which may lie past the address space.
    pub(crate) fn wide_end(&self) -> (r: u128)
        ensures
            r == self.end_at(),
    {
        self.vaddr as u128 + (self.len_pages as u128) * 4096
    }
}

/// Two ranges overlap exactly when some address lies in both, as long as
/// neither is empty.
pub proof fn overlap_means_a_shared_address(a: MapsAttr, b: MapsAttr)
    requires
        a.len_pages > 0,
        b.len_pages > 0,
    ensures
        a.spec_overlaps(b) <==> exists|v: u64| a.spec_covers(v) && #[trigger] b.spec_covers(v),
        a.spec_overlaps(b) == b.spec_overlaps(a),
{
    if a.spec_overlaps(b) {
        let v = if a.vaddr < b.vaddr {
            b.vaddr
        } else {
            a.vaddr
        };
        assert(a.spec_covers(v) && b.spec_covers(v));
    }
}

impl EdgeAttr for MapsAttr {
    open spec fn spec_kind() -> EdgeKind {
        EdgeKind::Maps
    }

    fn kind() -> EdgeKind {
        EdgeKind::Maps
    }

    open spec fn encodable(self) -> bool {
        true
    }

    open spec fn spec_bytes(self) -> Seq<u8> {
        u64_bytes(self.vaddr) + u32_bytes(self.len_pages) + u32_bytes(self.off_pages)
            + seq![self.prot.0, self.flags.0] + zeros(6)
    }

    fn encode(self) -> RawEdgeData {
        let mut r = RawEdgeData::zero();
        r.put_u64(0, self.vaddr);
        r.put_u32(8, self.len_pages);
        r.put_u32(12, self.off_pages);
        r.0[16] = self.prot.0;
        r.0[17] = self.flags.0;
        assert(r.0@ =~= self.spec_bytes());
        r
    }

    open spec fn spec_decode(b: Seq<u8>) -> MapsAttr {
        MapsAttr {
            vaddr: le64(b, 0),
            len_pages: le32(b, 8),
            off_pages: le32(b, 12),
            prot: Prot(b[16]),
            flags: MapFlags(b[17]),
        }
    }

    fn decode(raw: RawEdgeData) -> MapsAttr {
        MapsAttr {
            vaddr: raw.get_u64(0),
            len_pages: raw.get_u32(8),
            off_pages: raw.get_u32(12),
            prot: Prot(raw.0[16]),
            flags: MapFlags(raw.0[17]),
        }
    }

    proof fn round_trip(self) {
        let b = self.spec_bytes();
        assert(b.subrange(0, 8) =~= u64_bytes(self.vaddr));
        assert(b.subrange(8, 12) =~= u32_bytes(self.len_pages));
        assert(b.subrange(12, 16) =~= u32_bytes(self.off_pages));
        le64_reads_u64_bytes(b, 0, self.vaddr);
        le32_reads_u32_bytes(b, 8, self.len_pages);
        le32_reads_u32_bytes(b, 12, self.off_pages);
    }
}

#[derive(Clone, Copy, Debug, PartialEq, Eq, Structural)]
pub struct ReadyAttr {
    /// Unused by round robin; present so priorities need no format change.
    pub prio: u8,
}

impl Default for ReadyAttr {
    fn default() -> (r: ReadyAttr)
        ensures
            r == (ReadyAttr { prio: 0 }),
    {
        ReadyAttr { prio: 0 }
    }
}

impl EdgeAttr for ReadyAttr {
    open spec fn spec_kind() -> EdgeKind {
        EdgeKind::Ready
    }

    fn kind() -> EdgeKind {
        EdgeKind::Ready
    }

    open spec fn encodable(self) -> bool {
        true
    }

    open spec fn spec_bytes(self) -> Seq<u8> {
        seq![self.prio] + zeros(23)
    }

    fn encode(self) -> RawEdgeData {
        let mut r = RawEdgeData::zero();
        r.0[0] = self.prio;
        assert(r.0@ =~= self.spec_bytes());
        r
    }

    open spec fn spec_decode(b: Seq<u8>) -> ReadyAttr {
        ReadyAttr { prio: b[0] }
    }

    fn decode(raw: RawEdgeData) -> ReadyAttr {
        ReadyAttr { prio: raw.0[0] }
    }

    proof fn round_trip(self) {
    }
}

#[derive(Clone, Copy, Debug, PartialEq, Eq, Structural)]
pub enum WaitRole {
    Send,
    Recv,
}

impl WaitRole {
    pub open spec fn spec_code(self) -> u8 {
        match self {
            WaitRole::Send => 0,
            WaitRole::Recv => 1,
        }
    }

    #[verifier::when_used_as_spec(spec_code)]
    pub fn code(self) -> (r: u8)
        ensures
            r == self.spec_code(),
    {
        match self {
            WaitRole::Send => 0,
            WaitRole::Recv => 1,
        }
    }
}

#[derive(Clone, Copy, Debug, PartialEq, Eq, Structural)]
pub struct WaitingAttr {
    pub role: WaitRole,
    pub badge: u64,
}

impl EdgeAttr for WaitingAttr {
    open spec fn spec_kind() -> EdgeKind {
        EdgeKind::Waiting
    }

    fn kind() -> EdgeKind {
        EdgeKind::Waiting
    }

    open spec fn encodable(self) -> bool {
        true
    }

    open spec fn spec_bytes(self) -> Seq<u8> {
        seq![self.role.spec_code()] + zeros(7) + u64_bytes(self.badge) + zeros(8)
    }

    fn encode(self) -> RawEdgeData {
        let mut r = RawEdgeData::zero();
        r.0[0] = self.role.code();
        r.put_u64(8, self.badge);
        assert(r.0@ =~= self.spec_bytes());
        r
    }

    open spec fn spec_decode(b: Seq<u8>) -> WaitingAttr {
        WaitingAttr {
            role: if b[0] == 0 {
                WaitRole::Send
            } else {
                WaitRole::Recv
            },
            badge: le64(b, 8),
        }
    }

    fn decode(raw: RawEdgeData) -> WaitingAttr {
        WaitingAttr {
            role: if raw.0[0] == 0 {
                WaitRole::Send
            } else {
                WaitRole::Recv
            },
            badge: raw.get_u64(8),
        }
    }

    proof fn round_trip(self) {
        let b = self.spec_bytes();
        assert(b.subrange(8, 16) =~= u64_bytes(self.badge));
        le64_reads_u64_bytes(b, 8, self.badge);
    }
}

/// The text that bytes spell: decoded as UTF-8, or a marker if they are not
/// valid UTF-8.
pub open spec fn text_of(bytes: Seq<u8>) -> Seq<char> {
    if vstd::utf8::valid_utf8(bytes) {
        vstd::utf8::decode_utf8(bytes)
    } else {
        "<invalid>"@
    }
}

/// `core::str::from_utf8`: the bytes as text when they are valid UTF-8, and
/// nothing otherwise.
#[verifier::external_body]
pub(crate) fn utf8_text(bytes: &[u8]) -> (r: Option<&str>)
    ensures
        r is Some <==> vstd::utf8::valid_utf8(bytes@),
        r matches Some(s) ==> s@ == vstd::utf8::decode_utf8(bytes@),
{
    core::str::from_utf8(bytes).ok()
}

/// The name buffer with the given contents.
pub open spec fn name_array(s: Seq<u8>) -> [u8; MAX_NAME_LEN] {
    choose|a: [u8; MAX_NAME_LEN]| #[trigger] a@ == s
}

proof fn name_array_of(a: [u8; MAX_NAME_LEN])
    ensures
        name_array(a@) == a,
{
    let other = name_array(a@);
    assert(a@ == a@);
    assert(other@ == a@);
    assert forall|i: int| 0 <= i < MAX_NAME_LEN implies other[i] == a[i] by {
        assert(other@[i] == a@[i]);
    }
    assert(other =~= a);
}

/// Any contents of the right length are some name buffer's contents.
pub proof fn name_array_exists(s: Seq<u8>)
    requires
        s.len() == MAX_NAME_LEN,
    ensures
        name_array(s)@ == s,
{
    name_array_fill(
        vstd::array::spec_array_fill_for_copy_type::<u8, MAX_NAME_LEN>(0),
        s,
        0,
    );
}

proof fn name_array_fill(a: [u8; MAX_NAME_LEN], s: Seq<u8>, i: int)
    requires
        s.len() == MAX_NAME_LEN,
        0 <= i <= MAX_NAME_LEN,
        forall|j: int| 0 <= j < i ==> a@[j] == s[j],
    ensures
        name_array(s)@ == s,
    decreases MAX_NAME_LEN - i,
{
    if i == MAX_NAME_LEN {
        assert(a@ =~= s);
        assert(a@ == s);
    } else {
        let b = vstd::array::spec_array_update(a, i, s[i]);
        assert(b@ == a@.update(i, s[i]));
        name_array_fill(b, s, i + 1);
    }
}

/// An inline name.
#[derive(Clone, Copy, PartialEq, Eq, Debug)]
pub struct NamedAttr {
    pub bytes: [u8; MAX_NAME_LEN],
    pub len: u8,
}

impl NamedAttr {
    /// The length stays inside the buffer.
    pub open spec fn wf(self) -> bool {
        self.len <= MAX_NAME_LEN
    }

    pub open spec fn name_bytes(self) -> Seq<u8> {
        self.bytes@.subrange(0, self.len as int)
    }

    /// Returns `None` if the name does not fit inline.
    pub fn new(name: &str) -> (r: Option<NamedAttr>)
        ensures
            r is Some <==> vstd::utf8::encode_utf8(name@).len() <= MAX_NAME_LEN,
            r matches Some(a) ==> a.wf() && a.name_bytes() == vstd::utf8::encode_utf8(name@) && (forall|i: int|
                a.len <= i < MAX_NAME_LEN ==> #[trigger] a.bytes@[i] == 0),
    {
        let s = name.as_bytes();
        if s.len() > MAX_NAME_LEN {
            return None;
        }
        let mut bytes: [u8; MAX_NAME_LEN] = [0;MAX_NAME_LEN];
        let mut i: usize = 0;
        while i < s.len()
            invariant
                i <= s.len() <= MAX_NAME_LEN,
                forall|j: int| 0 <= j < i ==> bytes@[j] == s@[j],
                forall|j: int| i <= j < MAX_NAME_LEN ==> bytes@[j] == 0,
            decreases s.len() - i,
        {
            bytes[i] = s[i];
            i = i + 1;
        }
        let a = NamedAttr { bytes, len: s.len() as u8 };
        assert(a.name_bytes() =~= vstd::utf8::encode_utf8(name@));
        Some(a)
    }

    pub fn as_str(&self) -> (r: &str)
        requires
            self.wf(),
        ensures
            r@ == text_of(self.name_bytes()),
    {
        let slice: &[u8] = self.bytes.as_slice();
        match utf8_text(vstd::slice::slice_subrange(slice, 0, self.len as usize)) {
            Some(s) => s,
            None => "<invalid>",
        }
    }

    pub fn matches(&self, name: &str) -> (r: bool)
        requires
            self.wf(),
        ensures
            r == (text_of(self.name_bytes()) == name@),
    {
        let text = self.as_str();
        let a = text.as_bytes();
        let b = name.as_bytes();
        proof {
            vstd::utf8::encode_utf8_decode_utf8(text@);
            vstd::utf8::encode_utf8_decode_utf8(name@);
        }
        if a.len() != b.len() {
            return false;
        }
        let mut i: usize = 0;
        while i < a.len()
            invariant
                i <= a.len() == b.len(),
                a@ == vstd::utf8::encode_utf8(text@),
                b@ == vstd::utf8::encode_utf8(name@),
                forall|j: int| 0 <= j < i ==> a@[j] == b@[j],
                text@ == text_of(self.name_bytes()),
            decreases a.len() - i,
        {
            if a[i] != b[i] {
                return false;
            }
            i = i + 1;
        }
        assert(a@ =~= b@);
        true
    }
}

impl EdgeAttr for NamedAttr {
    open spec fn spec_kind() -> EdgeKind {
        EdgeKind::Named
    }

    fn kind() -> EdgeKind {
        EdgeKind::Named
    }

    open spec fn encodable(self) -> bool {
        self.wf()
    }

    open spec fn spec_bytes(self) -> Seq<u8> {
        self.bytes@ + seq![self.len]
    }

    fn encode(self) -> RawEdgeData {
        let mut r = RawEdgeData::zero();
        let mut i: usize = 0;
        while i < MAX_NAME_LEN
            invariant
                i <= MAX_NAME_LEN,
                forall|j: int| 0 <= j < i ==> r.0@[j] == self.bytes@[j],
            decreases MAX_NAME_LEN - i,
        {
            r.0[i] = self.bytes[i];
            i = i + 1;
        }
        r.0[MAX_NAME_LEN] = self.len;
        assert(r.0@ =~= self.spec_bytes());
        r
    }

    /// The bytes as stored, and the length cut to the buffer.
    open spec fn spec_decode(b: Seq<u8>) -> NamedAttr {
        NamedAttr {
            bytes: name_array(b.subrange(0, MAX_NAME_LEN as int)),
            len: if b[MAX_NAME_LEN as int] < MAX_NAME_LEN {
                b[MAX_NAME_LEN as int]
            } else {
                MAX_NAME_LEN as u8
            },
        }
    }

    fn decode(raw: RawEdgeData) -> NamedAttr {
        let mut bytes: [u8; MAX_NAME_LEN] = [0;MAX_NAME_LEN];
        let mut i: usize = 0;
        while i < MAX_NAME_LEN
            invariant
                i <= MAX_NAME_LEN,
                forall|j: int| 0 <= j < i ==> bytes@[j] == raw.0@[j],
            decreases MAX_NAME_LEN - i,
        {
            bytes[i] = raw.0[i];
            i = i + 1;
        }
        let stored: u8 = raw.0[MAX_NAME_LEN];
        let len: u8 = if (stored as usize) < MAX_NAME_LEN {
            stored
        } else {
            MAX_NAME_LEN as u8
        };
        proof {
            let want = raw.0@.subrange(0, MAX_NAME_LEN as int);
            assert(bytes@ =~= want);
            name_array_of(bytes);
        }
        NamedAttr { bytes, len }
    }

    proof fn round_trip(self) {
        let b = self.spec_bytes();
        let want = b.subrange(0, MAX_NAME_LEN as int);
        assert(self.bytes@ =~= want);
        name_array_of(self.bytes);
    }
}

// ------------------------------------------------------------------ edge ---

/// Which of an edge's two list linkages to operate on.
#[derive(Clone, Copy, PartialEq, Eq, Structural, Debug)]
pub enum Dir {
    /// The source node's out-list.
    Out,
    /// The target node's in-list.
    In,
}

impl Dir {
    pub open spec fn other(self) -> Dir {
        match self {
            Dir::Out => Dir::In,
            Dir::In => Dir::Out,
        }
    }
}

pub const EDGE_FLAG_NONE: u8 = 0;

/// One relationship. Exactly one cache line.
#[derive(Clone, Copy, Debug, PartialEq, Eq)]
pub struct Edge {
    pub src: NodeId,
    pub dst: NodeId,
    pub out_next: u32,
    pub out_prev: u32,
    pub in_next: u32,
    pub in_prev: u32,
    /// Even means free, odd means live. Zero means never used.
    pub generation: u32,
    pub kind: u8,
    pub flags: u8,
    pub data: RawEdgeData,
}

impl Edge {
    /// A slot that has never been used, but for its generation.
    pub open spec fn blank(self) -> bool {
        &&& self.src == NodeId(0)
        &&& self.dst == NodeId(0)
        &&& self.out_prev == 0
        &&& self.in_next == 0
        &&& self.in_prev == 0
        &&& self.kind == 0
        &&& self.flags == 0
        &&& self.data.0@ == zeros(24)
    }

    pub fn zero() -> (r: Edge)
        ensures
            r.blank(),
            r.out_next == 0,
            r.generation == 0,
    {
        Edge {
            src: NodeId(0),
            dst: NodeId(0),
            out_next: 0,
            out_prev: 0,
            in_next: 0,
            in_prev: 0,
            generation: 0,
            kind: 0,
            flags: 0,
            data: RawEdgeData::zero(),
        }
    }

    pub open spec fn spec_edge_kind(self) -> Option<EdgeKind> {
        EdgeKind::spec_from_u8(self.kind)
    }

    pub fn edge_kind(&self) -> (r: Option<EdgeKind>)
        ensures
            r == self.spec_edge_kind(),
    {
        EdgeKind::from_u8(self.kind)
    }

    pub open spec fn spec_is_live(self) -> bool {
        self.generation % 2 == 1
    }

    pub fn is_live(&self) -> (r: bool)
        ensures
            r == self.spec_is_live(),
    {
        self.generation % 2 == 1
    }

    pub open spec fn spec_next(self, dir: Dir) -> u32 {
        match dir {
            Dir::Out => self.out_next,
            Dir::In => self.in_next,
        }
    }

    pub open spec fn spec_prev(self, dir: Dir) -> u32 {
        match dir {
            Dir::Out => self.out_prev,
            Dir::In => self.in_prev,
        }
    }

    /// The endpoint whose list the edge is on, in this direction.
    pub open spec fn endpoint(self, dir: Dir) -> NodeId {
        match dir {
            Dir::Out => self.src,
            Dir::In => self.dst,
        }
    }

    pub fn next(&self, dir: Dir) -> (r: u32)
        ensures
            r == self.spec_next(dir),
    {
        match dir {
            Dir::Out => self.out_next,
            Dir::In => self.in_next,
        }
    }

    pub fn prev(&self, dir: Dir) -> (r: u32)
        ensures
            r == self.spec_prev(dir),
    {
        match dir {
            Dir::Out => self.out_prev,
            Dir::In => self.in_prev,
        }
    }

    pub open spec fn with_next(self, dir: Dir, v: u32) -> Edge {
        match dir {
            Dir::Out => Edge { out_next: v, ..self },
            Dir::In => Edge { in_next: v, ..self },
        }
    }

    pub open spec fn with_prev(self, dir: Dir, v: u32) -> Edge {
        match dir {
            Dir::Out => Edge { out_prev: v, ..self },
            Dir::In => Edge { in_prev: v, ..self },
        }
    }

    pub fn set_next(&mut self, dir: Dir, v: u32)
        ensures
            *final(self) == old(self).with_next(dir, v),
    {
        match dir {
            Dir::Out => self.out_next = v,
            Dir::In => self.in_next = v,
        }
    }

    pub fn set_prev(&mut self, dir: Dir, v: u32)
        ensures
            *final(self) == old(self).with_prev(dir, v),
    {
        match dir {
            Dir::Out => self.out_prev = v,
            Dir::In => self.in_prev = v,
        }
    }
}

} // verus!
