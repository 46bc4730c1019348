# os

Memory and task management of a small kernel for RV64 machines with SV39
paging, verified with Verus.

- `src/mm`: physical frames, page tables, the memory set of a task, and the
  copies between kernel and user memory.
- `src/task`: the control block of a task and the manager that switches between
  tasks.
- `src/syscall`: the system calls.
- `src/laws.rs`: what holds across these operations.
- `app`: the one instance of tasks and memory that a kernel has, and the system
  calls on it. The processor, the clock and the applications are handed in.
