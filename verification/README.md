# Bramble

A small operating system for x86_64 whose kernel keeps all of its state in one
typed directed graph: processes, threads, memory, devices, capabilities, names
and wait queues are nodes and edges, not separate tables.

- `src/` is the kernel's logic, verified with Verus. `graph` and the modules
  around it are the graph itself; `frames`, `paging`, `spaces`, `vm` and
  `vm_check` are physical memory and page tables; `elf`, `proc`, `load` and
  `spawn` make processes; `sched`, `ipc`, `syscall` and `syscall_objects` run
  them; `inspect`, `records` and `dump` show the whole of it. Physical memory is
  one slice of bytes, so page tables are read and written in safe code.
- The `laws` modules state what holds across operations: boot, every operation
  on the graph, scheduling, messages and system calls keep the graph's
  invariants, so that the checker accepts a graph whatever it went through; an
  id names one object and never another; a deletion takes away what is owned
  from there down, leaves the rest as it was and empties the handles that led
  there; mapping, unmapping, faults, making a space, allocating, loading,
  spawning and reaping keep the page tables of every user space a cache of its
  `Maps` edges, and no memory that goes back to the pool stays reachable; the
  kernel's half of a space is the kernel's from the start, and what user
  mappings do leaves it alone; a snapshot reads back as the graph it was taken
  of; and a handle resolves through exactly one edge.
- `tests/` runs the library.
- `app/` is the kernel as a program: boot, ports, descriptor tables, stack
  switching, the system-call entry, and the programs it is shown with.
