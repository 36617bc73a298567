//! A kernel whose whole state is one typed directed graph.
//!
//! Processes, threads, address spaces, memory objects, endpoints, devices,
//! capabilities, ownership, names and scheduler queues are nodes and edges of
//! one [`Graph`]. What stands around it (page tables, the frame allocator, the
//! run queue a timer rotates, messages, snapshots) is derived from the graph
//! and proved to stay in step with it.
//!
//! The graph itself is in `id`, `body`, `edge`, `arena`, `slab`, `ring`,
//! `view`, `graph`, `store`, `create`, `link`, `unlink`, `walk`, `caps`,
//! `threads`, `maps`, `names`, `reap` and `checker`. Its invariants are in
//! `invariants`, and that every operation keeps them is proved in the `laws`
//! modules. The kernel's own logic is in the rest.

pub mod abi;
pub mod arena;
pub mod bits;
pub mod body;
pub mod boot;
pub mod caps;
pub mod checker;
pub mod checks;
pub mod create;
pub mod dump;
pub mod edge;
pub mod elf;
pub mod fb;
pub mod frames;
pub mod graph;
pub mod id;
pub mod inspect;
pub mod invariants;
pub mod ipc;
pub mod laws;
pub mod laws_ages;
pub mod laws_authority;
pub mod laws_boot;
pub mod laws_boot_names;
pub mod laws_boot_tables;
pub mod laws_calls;
pub mod laws_caps;
pub mod laws_check;
pub mod laws_delete;
pub mod laws_hardware;
pub mod laws_history;
pub mod laws_ids;
pub mod laws_image;
pub mod laws_inspect;
pub mod laws_ipc;
pub mod laws_kernel;
pub mod laws_kernel_half;
pub mod laws_lists;
pub mod laws_loading;
pub mod laws_make;
pub mod laws_memory;
pub mod laws_messages;
pub mod laws_objects;
pub mod laws_paging;
pub mod laws_process;
pub mod laws_programs;
pub mod laws_reap;
pub mod laws_reclaim;
pub mod laws_records;
pub mod laws_returns;
pub mod laws_run;
pub mod laws_spawn;
pub mod laws_switch;
pub mod limits;
pub mod link;
pub mod load;
pub mod machine;
pub mod maps;
pub mod mem;
pub mod names;
pub mod paging;
pub mod proc;
pub mod reap;
pub mod reaper;
pub mod records;
pub mod ring;
pub mod sched;
pub mod serial;
pub mod slab;
pub mod spaces;
pub mod spawn;
pub mod state;
pub mod steps;
pub mod store;
pub mod syscall;
pub mod syscall_objects;
pub mod tables;
pub mod text;
pub mod threads;
pub mod time;
pub mod timings;
pub mod unlink;
pub mod user;
pub mod view;
pub mod vm;
pub mod vm_check;
pub mod walk;

pub use crate::body::{
    AddressSpace, Cpu, Device, DeviceClass, Endpoint, MemFlags, MemoryObject, Message, NodeBody,
    Process, Rights, Root, Thread, ThreadState,
};
pub use crate::checker::{Checker, Violation};
pub use crate::edge::{
    Dir, Edge, EdgeAttr, HoldsAttr, MapsAttr, NamedAttr, Prot, RawEdgeData, ReadyAttr, WaitRole,
    WaitingAttr,
};
pub use crate::graph::{Graph, GraphError, Ref, Result};
pub use crate::id::{compatible, EdgeId, EdgeKind, NodeId, NodeKind};
pub use crate::reap::{ReapStep, Reclaim};
