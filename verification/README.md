# Kernel synchronisation, verified

The synchronisation objects of a teaching kernel (spin and blocking
mutexes, counting semaphores that remember their holders, condition
variables), the decision logic of its synchronisation and process system
calls, and the deadlock check it runs before a task may wait on a mutex or a
semaphore, written in Verus with their contracts.

- `src/sync/`: the objects, over task ids. A lock or down request is one
  step that tells the scheduler what to do with the caller.
- `src/syscall/sync.rs`: the per-process object tables and the system calls
  on them.
- `src/syscall/deadlock.rs`: the deadlock check, proved to refuse a request
  exactly when some non-empty set of live tasks could never go on, even if
  every other task finished and gave back what it holds.
- `src/syscall/process.rs`: what `trace`, `sbrk` and `get_time` compute.
- `app/`: glue that carries the decisions out with the kernel's scheduler,
  timer and page tables, reached through a trait.
