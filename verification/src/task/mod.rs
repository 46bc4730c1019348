//! Task management: starting tasks, switching between them, and the memory of
//! the current one.
use vstd::prelude::*;

pub mod task;

use crate::config::MAX_SYSCALL_NUM;
use crate::mm::address::{VirtAddr, VirtPageNum};
use crate::mm::frame_allocator::Memory;
use crate::mm::memory_set::{frames_of, lemma_frames_of_contains, page_count};
use crate::mm::page_table::MapPermission;
use crate::task::task::{brk_page, heap_permission, TaskControlBlock, TaskStatus, TrapContext};

verus! {

/// The task manager, where all the tasks are managed.
pub struct TaskManager {
    /// Total number of tasks.
    num_app: usize,
    /// The tasks and the current one of them.
    inner: TaskManagerInner,
}

/// The tasks and the current one of them.
struct TaskManagerInner {
    /// Task list.
    tasks: Vec<TaskControlBlock>,
    /// Number of the current task.
    current_task: usize,
}

/// A switch of the processor from one task to another.
#[derive(Clone, Copy, Debug, PartialEq, Eq, Structural)]
pub struct ContextSwitch {
    /// The task whose registers are saved; `None` if nobody wants them.
    pub save: Option<usize>,
    /// The task whose registers are loaded.
    pub load: usize,
}

/// The `k`-th task after `current`, where the first follows the last of `n`.
pub open spec fn successor(current: int, k: int, n: int) -> int {
    (current + k) % n
}

/// `next` is the first ready task after `current` in cyclic order, `current`
/// itself being the last candidate.
pub open spec fn is_next_ready(tasks: Seq<TaskControlBlock>, current: int, next: int) -> bool {
    exists|k: int|
        {
            &&& 1 <= k <= tasks.len()
            &&& next == #[trigger] successor(current, k, tasks.len() as int)
            &&& tasks[next].status == TaskStatus::Ready
            &&& forall|j: int|
                1 <= j < k ==> tasks[#[trigger] successor(
                    current,
                    j,
                    tasks.len() as int,
                )].status != TaskStatus::Ready
        }
}

/// No task is ready.
pub open spec fn none_ready(tasks: Seq<TaskControlBlock>) -> bool {
    forall|i: int| 0 <= i < tasks.len() ==> (#[trigger] tasks[i]).status != TaskStatus::Ready
}

impl TaskManager {
    /// The tasks.
    pub closed spec fn tasks(&self) -> Seq<TaskControlBlock> {
        self.inner.tasks@
    }

    /// Which task is the current one.
    pub closed spec fn current(&self) -> int {
        self.inner.current_task as int
    }

    /// How many tasks there are.
    pub closed spec fn num_app(&self) -> int {
        self.num_app as int
    }

    /// There is a current task and every task is well formed.
    pub open spec fn wf(&self) -> bool {
        &&& self.num_app() == self.tasks().len()
        &&& 0 <= self.current() < self.tasks().len()
        &&& forall|i: int| 0 <= i < self.tasks().len() ==> (#[trigger] self.tasks()[i]).wf()
    }

    /// The frames behind the tasks' pages are usable and not free, and no two
    /// tasks share one.
    pub open spec fn owns_frames(&self, memory: &Memory) -> bool {
        &&& forall|i: int|
            0 <= i < self.tasks().len() ==> (#[trigger] self.tasks()[i]).memory_set.owns_frames(
                memory,
            )
        &&& forall|i: int, j: int, v: usize, w: usize|
            #![trigger self.tasks()[i].memory_set.page_table.mapped(v),
                self.tasks()[j].memory_set.page_table.mapped(w)]
            0 <= i < self.tasks().len() && 0 <= j < self.tasks().len() && i != j
                && self.tasks()[i].memory_set.page_table.mapped(v)
                && self.tasks()[j].memory_set.page_table.mapped(w)
                ==> self.tasks()[i].memory_set.page_table.frame(v)
                != self.tasks()[j].memory_set.page_table.frame(w)
    }

    /// Tasks and memory fit together.
    pub open spec fn consistent(&self, memory: &Memory) -> bool {
        self.wf() && memory.wf() && self.owns_frames(memory)
    }

    /// `after` differs from `self` in the current task only.
    pub open spec fn only_current_changed(&self, after: &TaskManager) -> bool {
        &&& after.num_app() == self.num_app()
        &&& after.current() == self.current()
        &&& after.tasks() == self.tasks().update(self.current(), after.tasks()[self.current()])
    }

    /// `after` differs from `self` in the memory set of the current task only.
    pub open spec fn only_memory_changed(&self, after: &TaskManager) -> bool {
        &&& self.only_current_changed(after)
        &&& after.tasks()[self.current()] == (TaskControlBlock {
            memory_set: after.tasks()[self.current()].memory_set,
            ..self.tasks()[self.current()]
        })
    }

    /// The manager of `tasks`, of which the first is the current one.
    pub fn new(tasks: Vec<TaskControlBlock>) -> (manager: TaskManager)
        ensures
            manager.tasks() == tasks@,
            manager.current() == 0,
            manager.num_app() == tasks@.len(),
    {
        let num_app: usize = tasks.len();
        TaskManager { num_app, inner: TaskManagerInner { tasks, current_task: 0 } }
    }

    /// Makes the first task run and returns the switch to it.
    pub fn run_first_task(&mut self) -> (switch: ContextSwitch)
        requires
            old(self).wf(),
            old(self).tasks()[0].status == TaskStatus::Ready,
        ensures
            final(self).wf(),
            final(self).num_app() == old(self).num_app(),
            final(self).current() == old(self).current(),
            final(self).tasks() == old(self).tasks().update(
                0,
                old(self).tasks()[0].with_status(TaskStatus::Running),
            ),
            switch == (ContextSwitch { save: None, load: 0 }),
            started(old(self), final(self), switch),
    {
        let _ = self.inner.tasks[0].try_turn_to_running();
        ContextSwitch { save: None, load: 0 }
    }

    /// Makes the current task ready, if it is running.
    pub fn mark_current_suspended(&mut self)
        requires
            old(self).wf(),
        ensures
            final(self).wf(),
            old(self).only_current_changed(final(self)),
            final(self).tasks() == suspended(old(self).tasks(), old(self).current()),
    {
        let current: usize = self.inner.current_task;
        let _ = self.inner.tasks[current].try_turn_to_ready();
        assert(self.inner.tasks@ =~= suspended(old(self).tasks(), old(self).current()));
    }

    /// Ends the current task.
    pub fn mark_current_exited(&mut self)
        requires
            old(self).wf(),
        ensures
            final(self).wf(),
            old(self).only_current_changed(final(self)),
            final(self).tasks() == exited(old(self).tasks(), old(self).current()),
    {
        let current: usize = self.inner.current_task;
        self.inner.tasks[current].turn_to_exited();
    }

    /// Finds the next task to run: the first ready one after the current one,
    /// in cyclic order.
    pub fn find_next_task(&self) -> (next: Option<usize>)
        requires
            self.wf(),
        ensures
            next is None <==> none_ready(self.tasks()),
            next matches Some(id) ==> id < self.tasks().len() && is_next_ready(
                self.tasks(),
                self.current(),
                id as int,
            ),
    {
        let current: usize = self.inner.current_task;
        let gap: usize = self.num_app - current;
        let ghost n = self.tasks().len() as int;
        let mut passed: usize = 0;
        while passed < self.num_app
            invariant
                self.wf(),
                current == self.current(),
                n == self.tasks().len(),
                gap == self.num_app - current,
                passed <= self.num_app,
                forall|j: int|
                    1 <= j <= passed ==> self.tasks()[#[trigger] successor(
                        current as int,
                        j,
                        n,
                    )].status != TaskStatus::Ready,
            decreases n - passed,
        {
            let k: usize = passed + 1;
            let id: usize = if k < gap {
                current + k
            } else {
                k - gap
            };
            proof {
                lemma_successor(current as int, k as int, n);
            }
            if self.inner.tasks[id].is_ready() {
                assert(is_next_ready(self.tasks(), current as int, id as int));
                return Some(id);
            }
            passed = k;
        }
        proof {
            lemma_none_ready(self.tasks(), current as int);
        }
        None
    }

    /// The token of the current task.
    pub fn get_current_token(&self) -> (token: usize)
        requires
            self.wf(),
        ensures
            token == self.tasks()[self.current()].memory_set.page_table.token(),
    {
        self.inner.tasks[self.inner.current_task].get_user_token()
    }

    /// The registers that the current task continues with in user mode.
    pub fn get_current_trap_cx(&mut self) -> (cx: &mut TrapContext)
        requires
            old(self).wf(),
        ensures
            *cx == old(self).tasks()[old(self).current()].trap_cx,
            old(self).only_current_changed(final(self)),
            final(self).tasks()[old(self).current()] == (TaskControlBlock {
                trap_cx: *final(cx),
                ..old(self).tasks()[old(self).current()]
            }),
    {
        let current: usize = self.inner.current_task;
        self.inner.tasks[current].get_trap_cx()
    }

    /// Moves the program break of the current task by `size` bytes and returns
    /// where it was; `None`, with nothing changed, if it cannot move so.
    pub fn change_current_program_brk(&mut self, memory: &mut Memory, size: i32) -> (r: Option<usize>)
        requires
            old(self).consistent(old(memory)),
        ensures
            final(self).consistent(final(memory)),
            old(self).only_current_changed(final(self)),
            r is Some <==> old(self).tasks()[old(self).current()].brk_allowed(old(memory), size),
            r is None ==> final(self).tasks() == old(self).tasks() && *final(memory) == *old(
                memory,
            ),
            r matches Some(old_brk) ==> {
                &&& old_brk == old(self).tasks()[old(self).current()].program_brk
                &&& old(self).tasks()[old(self).current()].brk_moved(
                    old(memory),
                    &final(self).tasks()[old(self).current()],
                    final(memory),
                    size,
                )
            },
    {
        let cur: usize = self.inner.current_task;
        let r: Option<usize> = self.inner.tasks[cur].change_program_brk(memory, size);
        proof {
            if r is Some {
                let task = old(self).tasks()[cur as int];
                let lo = brk_page(task.program_brk as int);
                let hi = brk_page(task.program_brk + size);
                if size >= 0 {
                    lemma_mapped_owns_frames(
                        old(self),
                        old(memory),
                        self,
                        memory,
                        lo,
                        hi,
                        heap_permission(),
                    );
                } else {
                    lemma_unmapped_owns_frames(old(self), old(memory), self, memory, hi, lo);
                }
            }
        }
        r
    }

    /// Hands the processor to the next ready task and returns the switch to it;
    /// `None` if no task is ready, all applications being completed.
    pub fn run_next_task(&mut self) -> (switch: Option<ContextSwitch>)
        requires
            old(self).wf(),
        ensures
            final(self).wf(),
            rescheduled(old(self), old(self).tasks(), final(self), switch),
    {
        let next: usize = match self.find_next_task() {
            Some(next) => next,
            None => {
                return None;
            },
        };
        let current: usize = self.inner.current_task;
        let _ = self.inner.tasks[next].try_turn_to_running();
        self.inner.current_task = next;
        Some(ContextSwitch { save: Some(current), load: next })
    }

    /// Maps a new memory area of the current task, for user mode as well.
    pub fn mmap(
        &mut self,
        memory: &mut Memory,
        start_va: VirtAddr,
        end_va: VirtAddr,
        permission: MapPermission,
    ) -> (r: Result<(), &'static str>)
        requires
            old(self).consistent(old(memory)),
            old(self).tasks()[old(self).current()].memory_set.clear(
                start_va.floor_spec(),
                end_va.ceil_spec(),
            ) ==> page_count(start_va.floor_spec(), end_va.ceil_spec()) <= old(memory).free().len(),
        ensures
            final(self).consistent(final(memory)),
            old(self).only_memory_changed(final(self)),
            r is Ok <==> old(self).tasks()[old(self).current()].memory_set.clear(
                start_va.floor_spec(),
                end_va.ceil_spec(),
            ),
            r is Ok ==> old(self).tasks()[old(self).current()].memory_set.area_mapped(
                old(memory),
                &final(self).tasks()[old(self).current()].memory_set,
                final(memory),
                start_va.floor_spec(),
                end_va.ceil_spec(),
                permission.with_user_spec(),
            ),
            r matches Err(msg) ==> {
                &&& msg@ == "mmap: area already mapped"@
                &&& final(self).tasks() == old(self).tasks()
                &&& *final(memory) == *old(memory)
            },
    {
        let cur: usize = self.inner.current_task;
        if !self.inner.tasks[cur].memory_set.is_clear(start_va.floor(), end_va.ceil()) {
            assert(self.tasks() =~= old(self).tasks().update(
                cur as int,
                self.tasks()[cur as int],
            ));
            return Err("mmap: area already mapped");
        }
        self.inner.tasks[cur].memory_set.insert_framed_area(
            memory,
            start_va,
            end_va,
            permission.with_user(),
        );
        proof {
            lemma_mapped_owns_frames(
                old(self),
                old(memory),
                self,
                memory,
                start_va.floor_spec(),
                end_va.ceil_spec(),
                permission.with_user_spec(),
            );
        }
        Ok(())
    }

    /// Whether there are frames enough to map the area, if it can be mapped.
    pub fn mmap_fits(&self, memory: &Memory, start_va: VirtAddr, end_va: VirtAddr) -> (b: bool)
        requires
            self.wf(),
        ensures
            b == (self.tasks()[self.current()].memory_set.clear(
                start_va.floor_spec(),
                end_va.ceil_spec(),
            ) ==> page_count(start_va.floor_spec(), end_va.ceil_spec()) <= memory.free().len()),
    {
        let start: VirtPageNum = start_va.floor();
        let end: VirtPageNum = end_va.ceil();
        if start.0 < end.0 && end.0 - start.0 > memory.free_frames() {
            !self.current_ref().memory_set.is_clear(start, end)
        } else {
            true
        }
    }

    /// Unmaps a memory area of the current task.
    pub fn unmap(&mut self, memory: &mut Memory, start_va: VirtAddr, end_va: VirtAddr) -> (r: Result<
        (),
        &'static str,
    >)
        requires
            old(self).consistent(old(memory)),
        ensures
            final(self).consistent(final(memory)),
            old(self).only_memory_changed(final(self)),
            r is Ok <==> old(self).tasks()[old(self).current()].memory_set.removable(
                start_va.floor_spec(),
                end_va.ceil_spec(),
            ),
            r is Ok ==> old(self).tasks()[old(self).current()].memory_set.area_unmapped(
                old(memory),
                &final(self).tasks()[old(self).current()].memory_set,
                final(memory),
                start_va.floor_spec(),
                end_va.ceil_spec(),
            ),
            r matches Err(msg) ==> {
                &&& msg@ == "unmap: area not mapped"@
                &&& final(self).tasks() == old(self).tasks()
                &&& *final(memory) == *old(memory)
            },
    {
        let cur: usize = self.inner.current_task;
        let end_vpn: VirtPageNum = end_va.ceil();
        let mut next_vpn: VirtPageNum = start_va.floor();
        while next_vpn.0 < end_vpn.0
            invariant
                *self == *old(self),
                *memory == *old(memory),
                self.consistent(memory),
                cur == self.current(),
                end_vpn.0 == end_va.ceil_spec(),
                start_va.floor_spec() <= next_vpn.0,
                self.tasks()[cur as int].memory_set.removable(
                    start_va.floor_spec(),
                    next_vpn.0 as int,
                ),
            decreases end_vpn.0 - next_vpn.0,
        {
            if let Some(pte) = self.inner.tasks[cur].memory_set.translate(next_vpn) {
                if !pte.is_valid() {
                    assert(self.tasks() =~= old(self).tasks().update(
                        cur as int,
                        self.tasks()[cur as int],
                    ));
                    return Err("unmap: area not mapped");
                }
            }
            next_vpn.0 = next_vpn.0 + 1;
        }
        self.inner.tasks[cur].memory_set.remove_framed_area(memory, start_va, end_va);
        proof {
            lemma_unmapped_owns_frames(
                old(self),
                old(memory),
                self,
                memory,
                start_va.floor_spec(),
                end_va.ceil_spec(),
            );
        }
        Ok(())
    }

    /// Counts a call of system call `id` by the current task.
    pub fn count_syscall(&mut self, id: usize)
        requires
            old(self).wf(),
            id < MAX_SYSCALL_NUM,
            old(self).tasks()[old(self).current()].syscall_times@[id as int] < u32::MAX,
        ensures
            final(self).wf(),
            old(self).only_current_changed(final(self)),
            old(self).tasks()[old(self).current()].call_counted(
                &final(self).tasks()[old(self).current()],
                id,
            ),
    {
        let mut task = self.current_task();
        let info: &mut TaskControlBlock = task.borrow_mut();
        let times: u32 = info.syscall_times[id];
        info.syscall_times[id] = times + 1;
    }

    /// Exclusive use of the current task.
    pub fn current_task(&mut self) -> (task: Shared<'_, TaskControlBlock>)
        requires
            old(self).wf(),
        ensures
            task.current() == old(self).tasks()[old(self).current()],
            old(self).only_current_changed(final(self)),
            final(self).tasks()[old(self).current()] == *final(task.value),
    {
        let current: usize = self.inner.current_task;
        Shared { value: &mut self.inner.tasks[current] }
    }

    /// The current task.
    pub fn current_ref(&self) -> (task: &TaskControlBlock)
        requires
            self.wf(),
        ensures
            *task == self.tasks()[self.current()],
    {
        &self.inner.tasks[self.inner.current_task]
    }
}

/// Exclusive use of a value.
pub struct Shared<'a, T> {
    /// The value.
    pub value: &'a mut T,
}

impl<'a, T> Shared<'a, T> {
    /// The value as it is now.
    pub open spec fn current(self) -> T {
        *self.value
    }

    /// The value.
    pub fn borrow(&self) -> (value: &T)
        ensures
            *value == self.current(),
    {
        &*self.value
    }

    /// The value, to change it.
    pub fn borrow_mut(&mut self) -> (value: &mut T)
        ensures
            *value == old(self).current(),
            final(self).current() == *final(value),
            *final(final(self).value) == *final(old(self).value),
    {
        &mut *self.value
    }
}

/// Mapping pages of the current task to free frames keeps frames apart.
proof fn lemma_mapped_owns_frames(
    before: &TaskManager,
    memory0: &Memory,
    after: &TaskManager,
    memory1: &Memory,
    lo: int,
    hi: int,
    permission: MapPermission,
)
    requires
        before.consistent(memory0),
        before.only_current_changed(after),
        after.tasks()[before.current()].memory_set.owns_frames(memory1),
        page_count(lo, hi) <= memory0.free().len(),
        before.tasks()[before.current()].memory_set.area_mapped(
            memory0,
            &after.tasks()[before.current()].memory_set,
            memory1,
            lo,
            hi,
            permission,
        ),
    ensures
        after.owns_frames(memory1),
{
    let cur = before.current();
    let free = memory0.free();
    assert forall|i: int, v: usize|
        #![trigger after.tasks()[i].memory_set.page_table.mapped(v)]
        0 <= i < after.tasks().len() && i != cur
            && after.tasks()[i].memory_set.page_table.mapped(v) implies {
        &&& memory1.usable(after.tasks()[i].memory_set.page_table.frame(v))
        &&& !memory1.free().contains(after.tasks()[i].memory_set.page_table.frame(v))
        &&& !free.contains(after.tasks()[i].memory_set.page_table.frame(v))
    } by {
        let ppn = after.tasks()[i].memory_set.page_table.frame(v);
        assert(before.tasks()[i].memory_set.owns_frames(memory0));
        assert(before.tasks()[i].memory_set.page_table.mapped(v));
        if memory1.free().contains(ppn) {
            let k = memory1.free().index_of(ppn);
            assert(free[k] == ppn);
        }
    }
    assert forall|w: usize|
        #[trigger] after.tasks()[cur].memory_set.page_table.mapped(w) implies {
        let ppn = after.tasks()[cur].memory_set.page_table.frame(w);
        free.contains(ppn) || (before.tasks()[cur].memory_set.page_table.mapped(w)
            && before.tasks()[cur].memory_set.page_table.frame(w) == ppn)
    } by {
        if lo <= w < hi {
            let k = free.len() - 1 - (w - lo);
            assert(free[k] == after.tasks()[cur].memory_set.page_table.frame(w));
        }
    }
}

/// Unmapping pages of the current task keeps frames apart.
proof fn lemma_unmapped_owns_frames(
    before: &TaskManager,
    memory0: &Memory,
    after: &TaskManager,
    memory1: &Memory,
    lo: int,
    hi: int,
)
    requires
        before.consistent(memory0),
        before.only_current_changed(after),
        after.tasks()[before.current()].memory_set.owns_frames(memory1),
        0 <= lo,
        hi <= usize::MAX,
        before.tasks()[before.current()].memory_set.area_unmapped(
            memory0,
            &after.tasks()[before.current()].memory_set,
            memory1,
            lo,
            hi,
        ),
    ensures
        after.owns_frames(memory1),
{
    let cur = before.current();
    let mappings = before.tasks()[cur].memory_set.mappings();
    assert forall|w: usize|
        #[trigger] after.tasks()[cur].memory_set.page_table.mapped(w) implies {
        &&& before.tasks()[cur].memory_set.page_table.mapped(w)
        &&& before.tasks()[cur].memory_set.page_table.frame(w)
            == after.tasks()[cur].memory_set.page_table.frame(w)
    } by {}
    assert forall|i: int, v: usize|
        #![trigger after.tasks()[i].memory_set.page_table.mapped(v)]
        0 <= i < after.tasks().len() && i != cur
            && after.tasks()[i].memory_set.page_table.mapped(v) implies {
        &&& memory1.usable(after.tasks()[i].memory_set.page_table.frame(v))
        &&& !memory1.free().contains(after.tasks()[i].memory_set.page_table.frame(v))
    } by {
        let ppn = after.tasks()[i].memory_set.page_table.frame(v);
        assert(before.tasks()[i].memory_set.owns_frames(memory0));
        assert(before.tasks()[i].memory_set.page_table.mapped(v));
        if memory1.free().contains(ppn) {
            let k = memory1.free().index_of(ppn);
            if k < memory0.free().len() {
                assert(memory0.free()[k] == ppn);
            } else {
                assert(frames_of(mappings, lo, hi)[k - memory0.free().len()] == ppn);
                lemma_frames_of_contains(mappings, lo, hi, ppn);
                let w = choose|w: usize|
                    lo <= w < hi && #[trigger] mappings.contains_key(w) && mappings[w].ppn == ppn;
                assert(before.tasks()[cur].memory_set.page_table.mapped(w));
            }
        }
    }
}

/// The successor of a task, without a division.
pub proof fn lemma_successor(current: int, k: int, n: int)
    requires
        0 <= current < n,
        0 <= k <= n,
    ensures
        successor(current, k, n) == if current + k < n {
            current + k
        } else {
            current + k - n
        },
{
    if current + k < n {
        vstd::arithmetic::div_mod::lemma_small_mod((current + k) as nat, n as nat);
    } else {
        vstd::arithmetic::div_mod::lemma_fundamental_div_mod_converse(
            current + k,
            n,
            1,
            current + k - n,
        );
    }
}

/// The successors of a task are all the tasks.
proof fn lemma_none_ready(tasks: Seq<TaskControlBlock>, current: int)
    requires
        0 <= current < tasks.len(),
        forall|j: int|
            1 <= j <= tasks.len() ==> tasks[#[trigger] successor(
                current,
                j,
                tasks.len() as int,
            )].status != TaskStatus::Ready,
    ensures
        none_ready(tasks),
{
    let n = tasks.len() as int;
    assert forall|i: int| 0 <= i < n implies (#[trigger] tasks[i]).status != TaskStatus::Ready by {
        let k = if i > current {
            i - current
        } else {
            i - current + n
        };
        lemma_successor(current, k, n);
        assert(successor(current, k, n) == i);
    }
}

/// `tasks` with task `current` ready, if it was running.
pub open spec fn suspended(tasks: Seq<TaskControlBlock>, current: int) -> Seq<TaskControlBlock> {
    if tasks[current].status == TaskStatus::Running {
        tasks.update(current, tasks[current].with_status(TaskStatus::Ready))
    } else {
        tasks
    }
}

/// `tasks` with task `current` ended, having submitted `exit_code`.
pub open spec fn exited_with(
    tasks: Seq<TaskControlBlock>,
    current: int,
    exit_code: i32,
) -> Seq<TaskControlBlock> {
    tasks.update(
        current,
        TaskControlBlock {
            status: TaskStatus::Exited,
            exit_code: Some(exit_code),
            ..tasks[current]
        },
    )
}

/// `tasks` with task `current` ended.
pub open spec fn exited(tasks: Seq<TaskControlBlock>, current: int) -> Seq<TaskControlBlock> {
    tasks.update(current, tasks[current].with_status(TaskStatus::Exited))
}

/// `after` is `before` once its first task runs; `switch` is the switch to it.
pub open spec fn started(before: &TaskManager, after: &TaskManager, switch: ContextSwitch) -> bool {
    &&& after.num_app() == before.num_app()
    &&& after.current() == before.current()
    &&& after.tasks() == before.tasks().update(
        0,
        before.tasks()[0].with_status(TaskStatus::Running),
    )
    &&& switch == (ContextSwitch { save: None, load: 0 })
}

/// Makes the first task run and returns the switch to it.
pub fn run_first_task(manager: &mut TaskManager) -> (switch: ContextSwitch)
    requires
        old(manager).wf(),
        old(manager).tasks()[0].status == TaskStatus::Ready,
    ensures
        final(manager).wf(),
        final(manager).num_app() == old(manager).num_app(),
        final(manager).current() == old(manager).current(),
        final(manager).tasks() == old(manager).tasks().update(
            0,
            old(manager).tasks()[0].with_status(TaskStatus::Running),
        ),
        switch == (ContextSwitch { save: None, load: 0 }),
        started(old(manager), final(manager), switch),
{
    manager.run_first_task()
}

/// `after` is `before` once its tasks have become `tasks` and the next ready
/// one of them the current one; `switch` is the switch to it.
pub open spec fn rescheduled(
    before: &TaskManager,
    tasks: Seq<TaskControlBlock>,
    after: &TaskManager,
    switch: Option<ContextSwitch>,
) -> bool {
    &&& after.num_app() == before.num_app()
    &&& match switch {
        None => {
            &&& none_ready(tasks)
            &&& after.tasks() == tasks
            &&& after.current() == before.current()
        },
        Some(s) => {
            &&& s.save == Some(before.current() as usize)
            &&& is_next_ready(tasks, before.current(), s.load as int)
            &&& after.tasks() == tasks.update(
                s.load as int,
                tasks[s.load as int].with_status(TaskStatus::Running),
            )
            &&& after.current() == s.load
        },
    }
}

/// Suspends the current task and hands the processor to the next ready one,
/// which is the current one again if no other is ready.
pub fn suspend_current_and_run_next(manager: &mut TaskManager) -> (switch: Option<ContextSwitch>)
    requires
        old(manager).wf(),
    ensures
        final(manager).wf(),
        rescheduled(
            old(manager),
            suspended(old(manager).tasks(), old(manager).current()),
            final(manager),
            switch,
        ),
{
    manager.mark_current_suspended();
    manager.run_next_task()
}

/// Ends the current task and hands the processor to the next ready one.
pub fn exit_current_and_run_next(manager: &mut TaskManager) -> (switch: Option<ContextSwitch>)
    requires
        old(manager).wf(),
    ensures
        final(manager).wf(),
        rescheduled(
            old(manager),
            exited(old(manager).tasks(), old(manager).current()),
            final(manager),
            switch,
        ),
{
    manager.mark_current_exited();
    manager.run_next_task()
}

/// The token of the current task.
pub fn current_user_token(manager: &TaskManager) -> (token: usize)
    requires
        manager.wf(),
    ensures
        token == manager.tasks()[manager.current()].memory_set.page_table.token(),
{
    manager.get_current_token()
}

/// The registers that the current task continues with in user mode.
pub fn current_trap_cx(manager: &mut TaskManager) -> (cx: &mut TrapContext)
    requires
        old(manager).wf(),
    ensures
        *cx == old(manager).tasks()[old(manager).current()].trap_cx,
        old(manager).only_current_changed(final(manager)),
        final(manager).tasks()[old(manager).current()] == (TaskControlBlock {
            trap_cx: *final(cx),
            ..old(manager).tasks()[old(manager).current()]
        }),
{
    manager.get_current_trap_cx()
}

/// Moves the program break of the current task by `size` bytes and returns
/// where it was; `None`, with nothing changed, if it cannot move so.
pub fn change_program_brk(manager: &mut TaskManager, memory: &mut Memory, size: i32) -> (r: Option<
    usize,
>)
    requires
        old(manager).consistent(old(memory)),
    ensures
        final(manager).consistent(final(memory)),
        old(manager).only_current_changed(final(manager)),
        r is Some <==> old(manager).tasks()[old(manager).current()].brk_allowed(old(memory), size),
        r is None ==> final(manager).tasks() == old(manager).tasks() && *final(memory) == *old(
            memory,
        ),
        r matches Some(old_brk) ==> {
            &&& old_brk == old(manager).tasks()[old(manager).current()].program_brk
            &&& old(manager).tasks()[old(manager).current()].brk_moved(
                old(memory),
                &final(manager).tasks()[old(manager).current()],
                final(memory),
                size,
            )
        },
{
    manager.change_current_program_brk(memory, size)
}

} // verus!
