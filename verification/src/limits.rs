//! Static arena sizes.
//!
//! Sized well above what a running system needs so that the exhaustion paths
//! can be exercised. They are constants rather than parameters on purpose: the
//! whole point is one statically sized graph.

use vstd::prelude::*;

verus! {

pub const MAX_ROOTS: usize = 1;

pub const MAX_CPUS: usize = 8;

pub const MAX_PROCESSES: usize = 64;

pub const MAX_THREADS: usize = 128;

pub const MAX_SPACES: usize = 64;

pub const MAX_MEMOBJS: usize = 512;

pub const MAX_ENDPOINTS: usize = 128;

pub const MAX_DEVICES: usize = 16;

/// Edge slots. Slot 0 is the sentinel, so one fewer is usable.
pub const MAX_EDGES: usize = 4096;

/// Handle slots per process. Slot 0 is the null handle.
pub const HANDLE_SLOTS: usize = 256;

/// Longest name that fits inline in an edge.
pub const MAX_NAME_LEN: usize = 23;

/// Most mappings one address space can hold.
pub const MAX_MAPPINGS_PER_SPACE: usize = 32;

/// Longest adjacency list a walk copies out.
pub const MAX_WALK: usize = 256;

pub const N_NODE_KINDS: usize = 8;

pub const N_EDGE_KINDS: usize = 7;

} // verus!
