# menix

The logic of the Menix kernel as a verified library: data structures,
file system, scheduling, memory management and system calls, each with a
contract that Verus proves.

## Layout

- `src/` — the library. Kernel state is held explicitly: the file system
  is an arena of entries and nodes (`vfs`), processes live in a table
  (`process`), tasks are indices into a table of task states (`sched`),
  page tables live in an arena of tables (`paging`). System calls take
  that state and check their arguments (`syscall::*`); reads, writes and
  control requests go to the file's operations (`file::FileOps`), which
  each kind of file provides. Operations on a process's address space
  (`mprotect`, `munmap`) and on sockets are left to the caller.
- Wait queues of events and mutexes are plain first-in first-out vectors
  of task indices (`mutex`).
- `tests/` — tests of the library on concrete values.
- `app/` — what touches memory directly: user pointers and device
  registers.

Loading executables and modules is split the same way: the library reads
the headers and plans every mapping, copy and patch (`elf`, `exec`,
`module`, `module_plan`); allocating, mapping and copying memory by
those plans is left to the kernel that embeds the library. The page-fault
handler decides what to map and maps it in the page table (`fault`).
