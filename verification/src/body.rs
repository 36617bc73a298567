//! Node bodies: the fixed-size payload of each node kind.
//!
//! Bodies are plain data. Nothing here knows about the hardware: `cr3` and
//! `pml4_phys` are just integers, and the kernel gives them meaning.

use vstd::prelude::*;

use crate::id::{EdgeKind, NodeId, NodeKind};
use crate::limits::{HANDLE_SLOTS, MAX_EDGES, MAX_MAPPINGS_PER_SPACE};

verus! {

/// A body of any kind, for statements about a node whose kind is not fixed.
pub enum Body {
    Root(Root),
    Cpu(Cpu),
    Process(Process),
    Thread(Thread),
    AddressSpace(AddressSpace),
    MemoryObject(MemoryObject),
    Endpoint(Endpoint),
    Device(Device),
}

impl Body {
    pub open spec fn kind(self) -> NodeKind {
        match self {
            Body::Root(_) => NodeKind::Root,
            Body::Cpu(_) => NodeKind::Cpu,
            Body::Process(_) => NodeKind::Process,
            Body::Thread(_) => NodeKind::Thread,
            Body::AddressSpace(_) => NodeKind::AddressSpace,
            Body::MemoryObject(_) => NodeKind::MemoryObject,
            Body::Endpoint(_) => NodeKind::Endpoint,
            Body::Device(_) => NodeKind::Device,
        }
    }

    /// Every edge index the body stores is inside the edge arena, and every
    /// count of stored indices is inside its table.
    pub open spec fn bounded(self) -> bool {
        match self {
            Body::Process(p) => p.bounded(),
            Body::AddressSpace(s) => s.bounded(),
            _ => true,
        }
    }

    /// The body claims no relationship: nothing in a handle table, no mapping
    /// counted or indexed, no cached page-table root, no place in a queue.
    pub open spec fn fresh(self) -> bool {
        match self {
            Body::Process(p) => forall|i: int| 0 <= i < HANDLE_SLOTS ==> #[trigger] p.handles@[i] == 0,
            Body::Thread(t) => t.cr3 == 0 && t.state != ThreadState::Ready && t.state
                != ThreadState::Blocked,
            Body::AddressSpace(s) => s.mapping_count == 0,
            Body::MemoryObject(m) => m.map_count == 0,
            _ => true,
        }
    }
}

/// Implemented by every node body. `zero` is what a free slot holds.
pub trait NodeBody: Copy {
    spec fn spec_kind() -> NodeKind;

    fn kind() -> (r: NodeKind)
        ensures
            r == Self::spec_kind(),
    ;

    spec fn spec_zero() -> Self;

    fn zero() -> (r: Self)
        ensures
            r == Self::spec_zero(),
    ;

    spec fn erase(self) -> Body;

    proof fn erase_kind(self)
        ensures
            self.erase().kind() == Self::spec_kind(),
    ;
}

// ---------------------------------------------------------------- rights ---

/// Capability rights carried by a `Holds` edge.
#[derive(Clone, Copy, PartialEq, Eq, Structural, Debug)]
pub struct Rights(pub u32);

impl Rights {
    pub fn none() -> (r: Rights)
        ensures
            r == Rights(0),
    {
        Rights(0)
    }

    pub fn read() -> (r: Rights)
        ensures
            r == Rights(1),
    {
        Rights(1)
    }

    pub fn write() -> (r: Rights)
        ensures
            r == Rights(2),
    {
        Rights(2)
    }

    pub fn map() -> (r: Rights)
        ensures
            r == Rights(4),
    {
        Rights(4)
    }

    pub fn send() -> (r: Rights)
        ensures
            r == Rights(8),
    {
        Rights(8)
    }

    pub fn recv() -> (r: Rights)
        ensures
            r == Rights(16),
    {
        Rights(16)
    }

    pub fn grant() -> (r: Rights)
        ensures
            r == Rights(32),
    {
        Rights(32)
    }

    pub fn lookup() -> (r: Rights)
        ensures
            r == Rights(64),
    {
        Rights(64)
    }

    pub fn manage() -> (r: Rights)
        ensures
            r == Rights(128),
    {
        Rights(128)
    }

    pub fn all() -> (r: Rights)
        ensures
            r == Rights(0xFF),
    {
        Rights(0xFF)
    }

    pub open spec fn spec_contains(self, other: Rights) -> bool {
        self.0 & other.0 == other.0
    }

    /// Every right in `other` is in `self`.
    #[verifier::when_used_as_spec(spec_contains)]
    pub fn contains(self, other: Rights) -> (r: bool)
        ensures
            r == self.spec_contains(other),
    {
        self.0 & other.0 == other.0
    }

    pub open spec fn spec_union(self, other: Rights) -> Rights {
        Rights(self.0 | other.0)
    }

    #[verifier::when_used_as_spec(spec_union)]
    pub fn union(self, other: Rights) -> (r: Rights)
        ensures
            r == self.spec_union(other),
    {
        Rights(self.0 | other.0)
    }

    pub open spec fn spec_intersect(self, other: Rights) -> Rights {
        Rights(self.0 & other.0)
    }

    #[verifier::when_used_as_spec(spec_intersect)]
    pub fn intersect(self, other: Rights) -> (r: Rights)
        ensures
            r == self.spec_intersect(other),
    {
        Rights(self.0 & other.0)
    }

    pub open spec fn spec_is_empty(self) -> bool {
        self.0 == 0
    }

    #[verifier::when_used_as_spec(spec_is_empty)]
    pub fn is_empty(self) -> (r: bool)
        ensures
            r == self.spec_is_empty(),
    {
        self.0 == 0
    }
}

impl Default for Rights {
    fn default() -> (r: Rights)
        ensures
            r == Rights(0),
    {
        Rights(0)
    }
}

/// Masking rights can only narrow them: whatever the mask, the result is
/// contained in what was held, and in the mask.
pub proof fn intersection_only_narrows(have: Rights, mask: Rights)
    ensures
        have.contains(have.intersect(mask)),
        mask.contains(have.intersect(mask)),
{
    let h = have.0;
    let m = mask.0;
    assert(h & (h & m) == h & m && m & (h & m) == h & m) by (bit_vector);
}

/// Containment is transitive, so a right missing from a capability is missing
/// from everything derived from it.
pub proof fn containment_is_transitive(a: Rights, b: Rights, c: Rights)
    requires
        a.contains(b),
        b.contains(c),
    ensures
        a.contains(c),
{
    let (x, y, z) = (a.0, b.0, c.0);
    assert(x & y == y && y & z == z ==> x & z == z) by (bit_vector);
}

// ----------------------------------------------------------------- bodies ---

#[derive(Clone, Copy, Debug, PartialEq, Eq, Structural)]
pub struct Root {
    pub ticks: u64,
    pub total_frames: u64,
    pub free_frames: u64,
    pub boot_flags: u64,
}

impl NodeBody for Root {
    open spec fn spec_kind() -> NodeKind {
        NodeKind::Root
    }

    fn kind() -> NodeKind {
        NodeKind::Root
    }

    open spec fn spec_zero() -> Root {
        Root { ticks: 0, total_frames: 0, free_frames: 0, boot_flags: 0 }
    }

    fn zero() -> Root {
        Root { ticks: 0, total_frames: 0, free_frames: 0, boot_flags: 0 }
    }

    open spec fn erase(self) -> Body {
        Body::Root(self)
    }

    proof fn erase_kind(self) {
    }
}

#[derive(Clone, Copy, Debug, PartialEq, Eq, Structural)]
pub struct Cpu {
    /// The running thread. A field rather than an edge: two list splices per
    /// context switch for no query benefit.
    pub current: NodeId,
    pub idle_thread: NodeId,
    pub kernel_stack_top: u64,
    pub lapic_id: u32,
    pub need_resched: u8,
}

impl NodeBody for Cpu {
    open spec fn spec_kind() -> NodeKind {
        NodeKind::Cpu
    }

    fn kind() -> NodeKind {
        NodeKind::Cpu
    }

    open spec fn spec_zero() -> Cpu {
        Cpu {
            current: NodeId(0),
            idle_thread: NodeId(0),
            kernel_stack_top: 0,
            lapic_id: 0,
            need_resched: 0,
        }
    }

    fn zero() -> Cpu {
        Cpu {
            current: NodeId(0),
            idle_thread: NodeId(0),
            kernel_stack_top: 0,
            lapic_id: 0,
            need_resched: 0,
        }
    }

    open spec fn erase(self) -> Body {
        Body::Cpu(self)
    }

    proof fn erase_kind(self) {
    }
}

/// The capability container. `handles` is the derived index that makes a
/// syscall's authority check constant-time.
#[derive(Clone, Copy, Debug)]
pub struct Process {
    /// slot -> edge slab index of a `Holds` edge; 0 means the slot is empty.
    pub handles: [u32; HANDLE_SLOTS],
    /// Where to resume the search for a free slot. Zero means "from the
    /// start"; slot 0 is the null handle and is never allocated.
    pub next_slot_hint: u32,
    pub exit_code: i32,
}

/// Where the search for a free slot resumes is no part of what a process is.
impl PartialEq for Process {
    fn eq(&self, other: &Self) -> (r: bool) {
        if self.exit_code != other.exit_code {
            return false;
        }
        let mut i: usize = 0;
        while i < HANDLE_SLOTS
            invariant
                i <= HANDLE_SLOTS,
                forall|j: int| 0 <= j < i ==> self.handles@[j] == other.handles@[j],
            decreases HANDLE_SLOTS - i,
        {
            if self.handles[i] != other.handles[i] {
                return false;
            }
            i = i + 1;
        }
        assert(self.handles@ =~= other.handles@);
        true
    }
}

impl vstd::std_specs::cmp::PartialEqSpecImpl for Process {
    open spec fn obeys_eq_spec() -> bool {
        true
    }

    open spec fn eq_spec(&self, other: &Self) -> bool {
        self.handles@ == other.handles@ && self.exit_code == other.exit_code
    }
}

impl Eq for Process {

}

impl Process {
    pub open spec fn bounded(self) -> bool {
        forall|i: int| 0 <= i < HANDLE_SLOTS ==> #[trigger] self.handles@[i] < MAX_EDGES
    }
}

impl NodeBody for Process {
    open spec fn spec_kind() -> NodeKind {
        NodeKind::Process
    }

    fn kind() -> NodeKind {
        NodeKind::Process
    }

    open spec fn spec_zero() -> Process {
        Process {
            handles: vstd::array::spec_array_fill_for_copy_type::<u32, HANDLE_SLOTS>(0),
            next_slot_hint: 0,
            exit_code: 0,
        }
    }

    fn zero() -> Process {
        Process { handles: [0;HANDLE_SLOTS], next_slot_hint: 0, exit_code: 0 }
    }

    open spec fn erase(self) -> Body {
        Body::Process(self)
    }

    proof fn erase_kind(self) {
    }
}

#[derive(Clone, Copy, Debug, PartialEq, Eq, Structural)]
pub enum ThreadState {
    /// Created but never started: no `Ready` in-edge, no `Waiting` out-edge.
    Inert,
    Ready,
    Running,
    Blocked,
    Dying,
}

impl ThreadState {
    pub open spec fn spec_code(self) -> u8 {
        match self {
            ThreadState::Inert => 0,
            ThreadState::Ready => 1,
            ThreadState::Running => 2,
            ThreadState::Blocked => 3,
            ThreadState::Dying => 4,
        }
    }

    /// The number a snapshot shows for the state.
    #[verifier::when_used_as_spec(spec_code)]
    pub fn code(self) -> (r: u8)
        ensures
            r == self.spec_code(),
    {
        match self {
            ThreadState::Inert => 0,
            ThreadState::Ready => 1,
            ThreadState::Running => 2,
            ThreadState::Blocked => 3,
            ThreadState::Dying => 4,
        }
    }
}

/// One message, held on the sending and receiving threads rather than in a
/// queue. Synchronous rendezvous means a message exists only while exactly two
/// threads are looking at it.
#[derive(Clone, Copy, Debug, PartialEq, Eq)]
pub struct Message {
    pub words: [u64; 8],
    /// The object a transferred capability names, or null.
    pub cap_target: NodeId,
    /// The rights the sender is passing on, masked by what it held.
    pub cap_rights: u32,
    /// Slot the capability landed in on the receiving side, or 0.
    pub cap_slot: u32,
    pub has_cap: u8,
}

impl Message {
    pub open spec fn spec_zero() -> Message {
        Message {
            words: vstd::array::spec_array_fill_for_copy_type::<u64, 8>(0),
            cap_target: NodeId(0),
            cap_rights: 0,
            cap_slot: 0,
            has_cap: 0,
        }
    }

    pub fn zero() -> (r: Message)
        ensures
            r == Self::spec_zero(),
    {
        Message { words: [0;8], cap_target: NodeId(0), cap_rights: 0, cap_slot: 0, has_cap: 0 }
    }
}

#[derive(Clone, Copy, Debug, PartialEq, Eq)]
pub struct Thread {
    /// Hot-hop cache of the `InSpace` target's page-table root.
    pub cr3: u64,
    pub kstack_top: u64,
    pub saved_rsp: u64,
    pub user_entry: u64,
    /// Hot-hop cache of the owning process.
    pub owner_proc: NodeId,
    pub msg: Message,
    pub state: ThreadState,
    /// Set when the thing this thread was waiting on was destroyed under it.
    /// The kernel requeues such a thread with an error rather than letting it
    /// block forever on an object that no longer exists.
    pub wait_aborted: u8,
}

impl NodeBody for Thread {
    open spec fn spec_kind() -> NodeKind {
        NodeKind::Thread
    }

    fn kind() -> NodeKind {
        NodeKind::Thread
    }

    open spec fn spec_zero() -> Thread {
        Thread {
            cr3: 0,
            kstack_top: 0,
            saved_rsp: 0,
            user_entry: 0,
            owner_proc: NodeId(0),
            msg: Message::spec_zero(),
            state: ThreadState::Inert,
            wait_aborted: 0,
        }
    }

    fn zero() -> Thread {
        Thread {
            cr3: 0,
            kstack_top: 0,
            saved_rsp: 0,
            user_entry: 0,
            owner_proc: NodeId(0),
            msg: Message::zero(),
            state: ThreadState::Inert,
            wait_aborted: 0,
        }
    }

    open spec fn erase(self) -> Body {
        Body::Thread(self)
    }

    proof fn erase_kind(self) {
    }
}

#[derive(Clone, Copy, Debug)]
pub struct AddressSpace {
    /// Physical address of the page-table root. The tables themselves are a
    /// cache of `Maps` edges.
    pub pml4_phys: u64,
    /// Also the number of live entries in `ranges`.
    pub mapping_count: u32,
    pub is_kernel: u8,
    /// Edge slab indices of this space's `Maps` edges, sorted by virtual
    /// address: a range query is the one thing adjacency lists cannot answer.
    pub ranges: [u32; MAX_MAPPINGS_PER_SPACE],
}

/// The index is derived from the mappings, so it is no part of what a space is.
impl PartialEq for AddressSpace {
    fn eq(&self, o: &Self) -> (r: bool) {
        self.pml4_phys == o.pml4_phys && self.mapping_count == o.mapping_count && self.is_kernel
            == o.is_kernel
    }
}

impl vstd::std_specs::cmp::PartialEqSpecImpl for AddressSpace {
    open spec fn obeys_eq_spec() -> bool {
        true
    }

    open spec fn eq_spec(&self, o: &Self) -> bool {
        self.pml4_phys == o.pml4_phys && self.mapping_count == o.mapping_count && self.is_kernel
            == o.is_kernel
    }
}

impl Eq for AddressSpace {

}

impl AddressSpace {
    pub open spec fn bounded(self) -> bool {
        &&& self.mapping_count <= MAX_MAPPINGS_PER_SPACE
        &&& forall|i: int|
            0 <= i < MAX_MAPPINGS_PER_SPACE ==> #[trigger] self.ranges@[i] < MAX_EDGES
    }
}

impl NodeBody for AddressSpace {
    open spec fn spec_kind() -> NodeKind {
        NodeKind::AddressSpace
    }

    fn kind() -> NodeKind {
        NodeKind::AddressSpace
    }

    open spec fn spec_zero() -> AddressSpace {
        AddressSpace {
            pml4_phys: 0,
            mapping_count: 0,
            is_kernel: 0,
            ranges: vstd::array::spec_array_fill_for_copy_type::<u32, MAX_MAPPINGS_PER_SPACE>(0),
        }
    }

    fn zero() -> AddressSpace {
        AddressSpace {
            pml4_phys: 0,
            mapping_count: 0,
            is_kernel: 0,
            ranges: [0;MAX_MAPPINGS_PER_SPACE],
        }
    }

    open spec fn erase(self) -> Body {
        Body::AddressSpace(self)
    }

    proof fn erase_kind(self) {
    }
}

#[derive(Clone, Copy, Debug, PartialEq, Eq, Structural)]
pub struct MemFlags(pub u32);

impl MemFlags {
    pub fn none() -> (r: MemFlags)
        ensures
            r == MemFlags(0),
    {
        MemFlags(0)
    }

    /// Device memory: never handed back to the frame allocator.
    pub fn device() -> (r: MemFlags)
        ensures
            r == MemFlags(1),
    {
        MemFlags(1)
    }

    /// Kernel-pinned: the reaper must not reclaim the frames.
    pub fn pinned() -> (r: MemFlags)
        ensures
            r == MemFlags(2),
    {
        MemFlags(2)
    }

    /// The object's pages are not contiguous, and may not exist yet.
    ///
    /// `phys_base` means nothing for such an object. Instead `frames_phys`
    /// points at a table of one physical address per page, zero where the page
    /// has never been touched.
    pub fn paged() -> (r: MemFlags)
        ensures
            r == MemFlags(4),
    {
        MemFlags(4)
    }

    pub open spec fn spec_contains(self, o: MemFlags) -> bool {
        self.0 & o.0 == o.0
    }

    #[verifier::when_used_as_spec(spec_contains)]
    pub fn contains(self, o: MemFlags) -> (r: bool)
        ensures
            r == self.spec_contains(o),
    {
        self.0 & o.0 == o.0
    }
}

#[derive(Clone, Copy, Debug, PartialEq, Eq, Structural)]
pub struct MemoryObject {
    /// First frame, for a contiguous object. Meaningless when paged.
    pub phys_base: u64,
    /// Frame table, for a paged object: `pages` entries of one physical
    /// address each, zero where the page is not yet backed.
    pub frames_phys: u64,
    pub pages: u32,
    pub flags: MemFlags,
    /// Hot-hop cache: number of `Maps` in-edges.
    pub map_count: u32,
    /// How many frames the frame table itself occupies.
    pub frames_pages: u32,
}

impl NodeBody for MemoryObject {
    open spec fn spec_kind() -> NodeKind {
        NodeKind::MemoryObject
    }

    fn kind() -> NodeKind {
        NodeKind::MemoryObject
    }

    open spec fn spec_zero() -> MemoryObject {
        MemoryObject {
            phys_base: 0,
            frames_phys: 0,
            pages: 0,
            flags: MemFlags(0),
            map_count: 0,
            frames_pages: 0,
        }
    }

    fn zero() -> MemoryObject {
        MemoryObject {
            phys_base: 0,
            frames_phys: 0,
            pages: 0,
            flags: MemFlags(0),
            map_count: 0,
            frames_pages: 0,
        }
    }

    open spec fn erase(self) -> Body {
        Body::MemoryObject(self)
    }

    proof fn erase_kind(self) {
    }
}

impl MemoryObject {
    pub open spec fn spec_is_paged(self) -> bool {
        self.flags.spec_contains(MemFlags(4))
    }

    pub fn is_paged(&self) -> (r: bool)
        ensures
            r == self.spec_is_paged(),
    {
        self.flags.contains(MemFlags::paged())
    }
}

#[derive(Clone, Copy, Debug, PartialEq, Eq, Structural)]
pub struct Endpoint {
    /// Monotonic source of badges for capabilities minted from this endpoint.
    pub badge_counter: u64,
}

impl NodeBody for Endpoint {
    open spec fn spec_kind() -> NodeKind {
        NodeKind::Endpoint
    }

    fn kind() -> NodeKind {
        NodeKind::Endpoint
    }

    open spec fn spec_zero() -> Endpoint {
        Endpoint { badge_counter: 0 }
    }

    fn zero() -> Endpoint {
        Endpoint { badge_counter: 0 }
    }

    open spec fn erase(self) -> Body {
        Body::Endpoint(self)
    }

    proof fn erase_kind(self) {
    }
}

#[derive(Clone, Copy, Debug, PartialEq, Eq, Structural)]
pub enum DeviceClass {
    Unclassified,
    SerialConsole,
}

impl DeviceClass {
    pub open spec fn spec_code(self) -> u16 {
        match self {
            DeviceClass::Unclassified => 0,
            DeviceClass::SerialConsole => 1,
        }
    }

    /// The number a snapshot shows for the class.
    #[verifier::when_used_as_spec(spec_code)]
    pub fn code(self) -> (r: u16)
        ensures
            r == self.spec_code(),
    {
        match self {
            DeviceClass::Unclassified => 0,
            DeviceClass::SerialConsole => 1,
        }
    }
}

#[derive(Clone, Copy, Debug, PartialEq, Eq, Structural)]
pub struct Device {
    pub class: DeviceClass,
    pub io_base: u16,
    pub irq: u8,
}

impl NodeBody for Device {
    open spec fn spec_kind() -> NodeKind {
        NodeKind::Device
    }

    fn kind() -> NodeKind {
        NodeKind::Device
    }

    open spec fn spec_zero() -> Device {
        Device { class: DeviceClass::Unclassified, io_base: 0, irq: 0 }
    }

    fn zero() -> Device {
        Device { class: DeviceClass::Unclassified, io_base: 0, irq: 0 }
    }

    open spec fn erase(self) -> Body {
        Body::Device(self)
    }

    proof fn erase_kind(self) {
    }
}

// ----------------------------------------------- endpoint marker traits ---
// These give endpoint compatibility at compile time for every typed call site.
// The table in `id::compatible` is only consulted on the generic path and by
// the checker.

/// May be owned by a `Process`.
pub trait ProcessOwnable: NodeBody {
    proof fn endpoint_fits()
        ensures
            crate::id::spec_compatible(EdgeKind::Owns, NodeKind::Process, Self::spec_kind()),
    ;
}

impl ProcessOwnable for Process {
    proof fn endpoint_fits() {
    }
}

impl ProcessOwnable for Thread {
    proof fn endpoint_fits() {
    }
}

impl ProcessOwnable for AddressSpace {
    proof fn endpoint_fits() {
    }
}

impl ProcessOwnable for MemoryObject {
    proof fn endpoint_fits() {
    }
}

impl ProcessOwnable for Endpoint {
    proof fn endpoint_fits() {
    }
}

/// May be owned by a `Thread`: only its own stack.
pub trait ThreadOwnable: NodeBody {
    proof fn endpoint_fits()
        ensures
            crate::id::spec_compatible(EdgeKind::Owns, NodeKind::Thread, Self::spec_kind()),
    ;
}

impl ThreadOwnable for MemoryObject {
    proof fn endpoint_fits() {
    }
}

/// May be owned by `Root`: anything except another root.
pub trait RootOwnable: NodeBody {
    proof fn endpoint_fits()
        ensures
            crate::id::spec_compatible(EdgeKind::Owns, NodeKind::Root, Self::spec_kind()),
            Self::spec_kind() != NodeKind::Root,
    ;
}

impl RootOwnable for Cpu {
    proof fn endpoint_fits() {
    }
}

impl RootOwnable for Process {
    proof fn endpoint_fits() {
    }
}

impl RootOwnable for Thread {
    proof fn endpoint_fits() {
    }
}

impl RootOwnable for AddressSpace {
    proof fn endpoint_fits() {
    }
}

impl RootOwnable for MemoryObject {
    proof fn endpoint_fits() {
    }
}

impl RootOwnable for Endpoint {
    proof fn endpoint_fits() {
    }
}

impl RootOwnable for Device {
    proof fn endpoint_fits() {
    }
}

/// May be the target of a capability.
pub trait Holdable: NodeBody {
    proof fn endpoint_fits()
        ensures
            crate::id::spec_compatible(EdgeKind::Holds, NodeKind::Process, Self::spec_kind()),
    ;
}

impl Holdable for Root {
    proof fn endpoint_fits() {
    }
}

impl Holdable for Process {
    proof fn endpoint_fits() {
    }
}

impl Holdable for Thread {
    proof fn endpoint_fits() {
    }
}

impl Holdable for AddressSpace {
    proof fn endpoint_fits() {
    }
}

impl Holdable for MemoryObject {
    proof fn endpoint_fits() {
    }
}

impl Holdable for Endpoint {
    proof fn endpoint_fits() {
    }
}

impl Holdable for Device {
    proof fn endpoint_fits() {
    }
}

/// May be waited on by a thread.
pub trait Waitable: NodeBody {
    proof fn endpoint_fits()
        ensures
            crate::id::spec_compatible(EdgeKind::Waiting, NodeKind::Thread, Self::spec_kind()),
    ;
}

impl Waitable for Endpoint {
    proof fn endpoint_fits() {
    }
}

impl Waitable for Device {
    proof fn endpoint_fits() {
    }
}

/// May be given a name. Anything.
pub trait Nameable: NodeBody {
    proof fn endpoint_fits()
        ensures
            crate::id::spec_compatible(EdgeKind::Named, NodeKind::Root, Self::spec_kind()),
    ;
}

impl<B: NodeBody> Nameable for B {
    proof fn endpoint_fits() {
    }
}

} // verus!
