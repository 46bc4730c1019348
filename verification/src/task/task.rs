//! The control block of a task.
use vstd::prelude::*;

use crate::config::{MAX_SYSCALL_NUM, PAGE_SIZE, VA_SPACE};
use crate::mm::address::VirtAddr;
use crate::mm::frame_allocator::Memory;
use crate::mm::memory_set::{page_count, MemorySet};
use crate::mm::page_table::{MapPermission, PageTableEntry};

verus! {

/// Where a task is in its life.
#[derive(Clone, Copy, Debug, PartialEq, Eq, Structural)]
pub enum TaskStatus {
    /// Not set up yet.
    UnInit,
    /// Able to run.
    Ready,
    /// Running.
    Running,
    /// Done for good.
    Exited,
}

/// The registers of user mode, as a trap saves them.
#[derive(Clone, Copy, Debug, PartialEq, Eq)]
pub struct TrapContext {
    /// The general registers.
    pub x: [usize; 32],
    /// The status register.
    pub sstatus: usize,
    /// Where user mode continues.
    pub sepc: usize,
}

/// The first page above the program break `brk`.
pub open spec fn brk_page(brk: int) -> int {
    (brk + PAGE_SIZE as int - 1) / PAGE_SIZE as int
}

/// What a task may do with its heap.
pub open spec fn heap_permission() -> MapPermission {
    MapPermission { r: true, w: true, x: false, u: true }
}

/// A task, as the kernel sees it.
pub struct TaskControlBlock {
    /// Where the task is in its life.
    pub status: TaskStatus,
    /// The task's memory.
    pub memory_set: MemorySet,
    /// How often the task has called each system call.
    pub syscall_times: [u32; MAX_SYSCALL_NUM],
    /// Where the heap starts.
    pub heap_bottom: usize,
    /// Where the heap ends.
    pub program_brk: usize,
    /// The registers that the task continues with in user mode.
    pub trap_cx: TrapContext,
    /// The code that the task submitted when it exited.
    pub exit_code: Option<i32>,
}

impl TaskControlBlock {
    /// The page table is well formed and the heap lies in the address space.
    pub open spec fn wf(&self) -> bool {
        &&& self.memory_set.page_table.wf()
        &&& self.heap_bottom <= self.program_brk
        &&& self.program_brk as int <= VA_SPACE
    }

    /// The same task with another status.
    pub open spec fn with_status(self, status: TaskStatus) -> TaskControlBlock {
        TaskControlBlock { status, ..self }
    }

    /// `after` is `self` with one more call of system call `id`.
    pub open spec fn call_counted(&self, after: &TaskControlBlock, id: usize) -> bool {
        &&& *after == (TaskControlBlock { syscall_times: after.syscall_times, ..*self })
        &&& after.syscall_times@ == self.syscall_times@.update(
            id as int,
            (self.syscall_times@[id as int] + 1) as u32,
        )
    }

    /// The program break can move by `size`: it stays above the heap's bottom
    /// and inside the address space, the pages that join the heap are not
    /// mapped yet, and there are frames for them.
    pub open spec fn brk_allowed(&self, memory: &Memory, size: i32) -> bool {
        let new_brk = self.program_brk + size;
        let lo = brk_page(self.program_brk as int);
        let hi = brk_page(new_brk);
        &&& self.heap_bottom <= new_brk <= VA_SPACE
        &&& new_brk <= usize::MAX
        &&& self.memory_set.clear(lo, hi)
        &&& page_count(lo, hi) <= memory.free().len()
    }

    /// `after` is `self` with the program break moved by `size`: pages that
    /// join the heap are mapped to cleared frames, pages that leave it are
    /// unmapped and their frames freed.
    pub open spec fn brk_moved(
        &self,
        memory0: &Memory,
        after: &TaskControlBlock,
        memory1: &Memory,
        size: i32,
    ) -> bool {
        let new_brk = self.program_brk + size;
        let lo = brk_page(self.program_brk as int);
        let hi = brk_page(new_brk);
        &&& *after == (TaskControlBlock {
            program_brk: new_brk as usize,
            memory_set: after.memory_set,
            ..*self
        })
        &&& if size >= 0 {
            self.memory_set.area_mapped(
                memory0,
                &after.memory_set,
                memory1,
                lo,
                hi,
                heap_permission(),
            )
        } else {
            self.memory_set.area_unmapped(memory0, &after.memory_set, memory1, hi, lo)
        }
    }

    /// A task that is ready to run, with empty memory and an empty heap. A heap
    /// that starts inside a page shares that page with what lies below it.
    pub fn new(token: usize, heap_bottom: usize, trap_cx: TrapContext) -> (task: TaskControlBlock)
        requires
            heap_bottom as int <= VA_SPACE,
        ensures
            task.wf(),
            task.status == TaskStatus::Ready,
            task.memory_set.page_table.token() == token,
            task.memory_set.mappings() == Map::<usize, PageTableEntry>::empty(),
            task.memory_set.page_table.tables() == Set::<usize>::empty(),
            forall|id: int| 0 <= id < MAX_SYSCALL_NUM ==> task.syscall_times@[id] == 0,
            task.heap_bottom == heap_bottom,
            task.program_brk == heap_bottom,
            task.trap_cx == trap_cx,
            task.exit_code is None,
    {
        TaskControlBlock {
            status: TaskStatus::Ready,
            memory_set: MemorySet::new(token),
            syscall_times: [0u32; MAX_SYSCALL_NUM],
            heap_bottom,
            program_brk: heap_bottom,
            trap_cx,
            exit_code: None,
        }
    }

    /// Where the task is in its life.
    pub fn status(&self) -> (status: TaskStatus)
        ensures
            status == self.status,
    {
        self.status
    }

    /// Whether the task is able to run.
    pub fn is_ready(&self) -> (b: bool)
        ensures
            b == (self.status == TaskStatus::Ready),
    {
        self.status == TaskStatus::Ready
    }

    /// Makes a ready task run.
    pub fn try_turn_to_running(&mut self) -> (r: Result<(), &'static str>)
        ensures
            r is Ok <==> old(self).status == TaskStatus::Ready,
            r is Ok ==> *final(self) == old(self).with_status(TaskStatus::Running),
            r matches Err(msg) ==> *final(self) == *old(self) && msg@ == "task is not ready"@,
    {
        if self.status == TaskStatus::Ready {
            self.status = TaskStatus::Running;
            Ok(())
        } else {
            Err("task is not ready")
        }
    }

    /// Makes a running task ready.
    pub fn try_turn_to_ready(&mut self) -> (r: Result<(), &'static str>)
        ensures
            r is Ok <==> old(self).status == TaskStatus::Running,
            r is Ok ==> *final(self) == old(self).with_status(TaskStatus::Ready),
            r matches Err(msg) ==> *final(self) == *old(self) && msg@ == "task is not running"@,
    {
        if self.status == TaskStatus::Running {
            self.status = TaskStatus::Ready;
            Ok(())
        } else {
            Err("task is not running")
        }
    }

    /// Ends the task.
    pub fn turn_to_exited(&mut self)
        ensures
            *final(self) == old(self).with_status(TaskStatus::Exited),
    {
        self.status = TaskStatus::Exited;
    }

    /// The value that selects the task's page table in the processor.
    pub fn get_user_token(&self) -> (token: usize)
        ensures
            token == self.memory_set.page_table.token(),
    {
        self.memory_set.token()
    }

    /// The registers that the task continues with in user mode.
    pub fn get_trap_cx(&mut self) -> (cx: &mut TrapContext)
        ensures
            *cx == old(self).trap_cx,
            *final(self) == (TaskControlBlock { trap_cx: *final(cx), ..*old(self) }),
    {
        &mut self.trap_cx
    }

    /// Moves the program break by `size` bytes and returns where it was; `None`,
    /// with nothing changed, if it cannot move so.
    pub fn change_program_brk(&mut self, memory: &mut Memory, size: i32) -> (r: Option<usize>)
        requires
            old(self).wf(),
            old(memory).wf(),
            old(self).memory_set.owns_frames(old(memory)),
        ensures
            final(self).wf(),
            final(memory).wf(),
            final(self).memory_set.owns_frames(final(memory)),
            r is Some <==> old(self).brk_allowed(old(memory), size),
            r is None ==> *final(self) == *old(self) && *final(memory) == *old(memory),
            r matches Some(old_brk) ==> {
                &&& old_brk == old(self).program_brk
                &&& old(self).brk_moved(old(memory), final(self), final(memory), size)
            },
    {
        let old_brk: usize = self.program_brk;
        let new_brk: i128 = old_brk as i128 + size as i128;
        if new_brk < self.heap_bottom as i128 || new_brk > VA_SPACE as i128 || new_brk
            > usize::MAX as i128 {
            return None;
        }
        let start = VirtAddr(old_brk).ceil();
        let end = VirtAddr(new_brk as usize).ceil();
        if size >= 0 {
            if start.0 < end.0 && end.0 - start.0 > memory.free_frames() {
                return None;
            }
            if !self.memory_set.is_clear(start, end) {
                return None;
            }
            let permission = MapPermission { r: true, w: true, x: false, u: true };
            self.memory_set.map_pages(memory, start, end, permission);
        } else {
            self.memory_set.unmap_pages(memory, end, start);
        }
        self.program_brk = new_brk as usize;
        Some(old_brk)
    }
}

} // verus!
