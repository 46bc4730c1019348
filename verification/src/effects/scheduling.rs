//! Tasks, and the switches between them.
use vstd::prelude::*;

use crate::syscall::process::{exit_step, yield_step};
use crate::task::task::{TaskControlBlock, TaskStatus};
use crate::task::{
    exited, exited_with, is_next_ready, lemma_successor, rescheduled, started, successor, suspended,
    ContextSwitch, TaskManager,
};

verus! {

/// Counting a call raises the count of that system call by one, and changes
/// nothing else of the task.
pub proof fn law_call_counted(before: &TaskControlBlock, after: &TaskControlBlock, id: usize, n: int)
    requires
        before.call_counted(after, id),
        id < 500,
        0 <= n < 500,
        before.syscall_times@[id as int] < u32::MAX,
    ensures
        after.syscall_times@[n] == before.syscall_times@[n] + if n == id {
            1int
        } else {
            0
        },
        after.status == before.status,
        after.memory_set == before.memory_set,
        after.heap_bottom == before.heap_bottom,
        after.program_brk == before.program_brk,
        after.trap_cx == before.trap_cx,
        after.exit_code == before.exit_code,
{
}

/// A change of the current task, or of its memory alone, leaves the others and
/// the choice of the current one as they are.
pub proof fn law_only_current_changed(before: &TaskManager, after: &TaskManager, i: int)
    requires
        before.wf(),
        before.only_current_changed(after),
        0 <= i < before.tasks().len(),
    ensures
        after.current() == before.current(),
        after.num_app() == before.num_app(),
        after.tasks().len() == before.tasks().len(),
        i != before.current() ==> after.tasks()[i] == before.tasks()[i],
        before.only_memory_changed(after) ==> {
            &&& after.tasks()[i].status == before.tasks()[i].status
            &&& after.tasks()[i].syscall_times == before.tasks()[i].syscall_times
            &&& after.tasks()[i].heap_bottom == before.tasks()[i].heap_bottom
            &&& after.tasks()[i].program_brk == before.tasks()[i].program_brk
            &&& after.tasks()[i].trap_cx == before.tasks()[i].trap_cx
            &&& after.tasks()[i].exit_code == before.tasks()[i].exit_code
        },
{
}

/// A change of status changes nothing else of a task.
pub proof fn law_with_status(task: TaskControlBlock, status: TaskStatus)
    ensures
        ({
            let after = task.with_status(status);
            &&& after.status == status
            &&& after.memory_set == task.memory_set
            &&& after.syscall_times == task.syscall_times
            &&& after.heap_bottom == task.heap_bottom
            &&& after.program_brk == task.program_brk
            &&& after.trap_cx == task.trap_cx
            &&& after.exit_code == task.exit_code
        }),
{
}

/// The next task is ready, and no ready task lies between the current one and
/// it: behind the current one up to it, or, if it does not come later in the
/// list, behind the current one to the end and from the start up to it.
pub proof fn law_next_ready(tasks: Seq<TaskControlBlock>, current: int, next: int, j: int)
    requires
        0 <= current < tasks.len(),
        is_next_ready(tasks, current, next),
        0 <= j < tasks.len(),
    ensures
        0 <= next < tasks.len(),
        tasks[next].status is Ready,
        (if current < next {
            current < j && j < next
        } else {
            current < j || j < next
        }) ==> !(tasks[j].status is Ready),
{
    let n = tasks.len() as int;
    let k = choose|k: int|
        {
            &&& 1 <= k <= n
            &&& next == #[trigger] successor(current, k, n)
            &&& tasks[next].status == TaskStatus::Ready
            &&& forall|j: int|
                1 <= j < k ==> tasks[#[trigger] successor(current, j, n)].status
                    != TaskStatus::Ready
        };
    lemma_successor(current, k, n);
    let d = if j > current {
        j - current
    } else {
        j - current + n
    };
    lemma_successor(current, d, n);
    assert(successor(current, d, n) == j);
}

/// A task is handed the processor exactly if some task is ready. It is the next
/// ready one; it runs, it is the current one, and nothing else changes. The
/// registers of the one that was current are saved.
pub proof fn law_rescheduled(
    before: &TaskManager,
    tasks: Seq<TaskControlBlock>,
    after: &TaskManager,
    switch: Option<ContextSwitch>,
    i: int,
)
    requires
        0 <= before.current() < tasks.len(),
        rescheduled(before, tasks, after, switch),
        0 <= i < tasks.len(),
    ensures
        tasks[i].status is Ready ==> switch is Some,
        after.num_app() == before.num_app(),
        after.tasks().len() == tasks.len(),
        switch is None ==> {
            &&& after.tasks()[i] == tasks[i]
            &&& after.current() == before.current()
        },
        switch matches Some(s) ==> {
            &&& 0 <= s.load < tasks.len()
            &&& tasks[s.load as int].status is Ready
            &&& (if before.current() < s.load {
                before.current() < i && i < s.load
            } else {
                before.current() < i || i < s.load
            }) ==> !(tasks[i].status is Ready)
            &&& s.save == Some(before.current() as usize)
            &&& after.current() == s.load
            &&& i != s.load ==> after.tasks()[i] == tasks[i]
            &&& i == s.load ==> after.tasks()[i].status is Running
            &&& after.tasks()[i].memory_set == tasks[i].memory_set
            &&& after.tasks()[i].syscall_times == tasks[i].syscall_times
            &&& after.tasks()[i].heap_bottom == tasks[i].heap_bottom
            &&& after.tasks()[i].program_brk == tasks[i].program_brk
            &&& after.tasks()[i].trap_cx == tasks[i].trap_cx
            &&& after.tasks()[i].exit_code == tasks[i].exit_code
        },
{
    if let Some(s) = switch {
        law_next_ready(tasks, before.current(), s.load as int, i);
    }
}

/// When a task exits, whatever its exit code, some other task is handed the
/// processor exactly if one is ready: the next of them. The one that exited has
/// exited for good, with its code; the next one runs; nothing else changes.
pub proof fn law_exit(
    before: &TaskManager,
    after: &TaskManager,
    exit_code: i32,
    switch: Option<ContextSwitch>,
    i: int,
)
    requires
        before.wf(),
        exit_step(before, after, exit_code, switch),
        0 <= i < before.tasks().len(),
    ensures
        i != before.current() && before.tasks()[i].status is Ready ==> switch is Some,
        after.tasks().len() == before.tasks().len(),
        after.num_app() == before.num_app(),
        after.tasks()[before.current()].status is Exited,
        after.tasks()[before.current()].exit_code == Some(exit_code),
        switch is None ==> after.current() == before.current(),
        switch matches Some(s) ==> {
            &&& 0 <= s.load < before.tasks().len()
            &&& s.load != before.current()
            &&& s.save == Some(before.current() as usize)
            &&& before.tasks()[s.load as int].status is Ready
            &&& after.tasks()[s.load as int].status is Running
            &&& after.current() == s.load
            &&& (if before.current() < s.load {
                before.current() < i && i < s.load
            } else {
                before.current() < i || i < s.load
            }) ==> !(before.tasks()[i].status is Ready)
        },
        i != before.current() && (switch is None || i != switch->0.load) ==> after.tasks()[i]
            == before.tasks()[i],
        i != before.current() ==> after.tasks()[i].exit_code == before.tasks()[i].exit_code,
        after.tasks()[i].memory_set == before.tasks()[i].memory_set,
        after.tasks()[i].syscall_times == before.tasks()[i].syscall_times,
        after.tasks()[i].heap_bottom == before.tasks()[i].heap_bottom,
        after.tasks()[i].program_brk == before.tasks()[i].program_brk,
        after.tasks()[i].trap_cx == before.tasks()[i].trap_cx,
{
    let current = before.current();
    let tasks = before.tasks().update(
        current,
        TaskControlBlock {
            status: TaskStatus::Exited,
            exit_code: Some(exit_code),
            ..before.tasks()[current]
        },
    );
    assert(rescheduled(before, tasks, after, switch));
    law_rescheduled(before, tasks, after, switch, i);
    law_rescheduled(before, tasks, after, switch, current);
    if let Some(s) = switch {
        law_rescheduled(before, tasks, after, switch, s.load as int);
    }
}

/// A task that yields is answered 0. It is ready if it was running, and the next
/// ready task runs, which is the one that yields only if no other is ready.
/// Nothing else changes.
pub proof fn law_yield(
    before: &TaskManager,
    after: &TaskManager,
    switch: Option<ContextSwitch>,
    r: isize,
    i: int,
)
    requires
        before.wf(),
        yield_step(before, after, switch, r),
        0 <= i < before.tasks().len(),
    ensures
        r == 0,
        before.tasks()[i].status is Ready ==> switch is Some,
        before.tasks()[before.current()].status is Running ==> switch is Some,
        after.tasks().len() == before.tasks().len(),
        after.num_app() == before.num_app(),
        switch is None ==> after.current() == before.current() && after.tasks()[i]
            == before.tasks()[i],
        switch matches Some(s) ==> {
            &&& 0 <= s.load < before.tasks().len()
            &&& s.save == Some(before.current() as usize)
            &&& before.tasks()[s.load as int].status is Ready || (s.load == before.current()
                && before.tasks()[s.load as int].status is Running)
            &&& after.tasks()[s.load as int].status is Running
            &&& after.current() == s.load
            &&& s.load != before.current() && before.tasks()[before.current()].status is Running
                ==> after.tasks()[before.current()].status is Ready
            &&& s.load != before.current() && !(before.tasks()[before.current()].status is Running)
                ==> after.tasks()[before.current()].status
                == before.tasks()[before.current()].status
            &&& (if before.current() < s.load {
                before.current() < i && i < s.load
            } else {
                before.current() < i || i < s.load
            }) ==> !(before.tasks()[i].status is Ready)
            &&& i != before.current() && i != s.load ==> after.tasks()[i] == before.tasks()[i]
        },
        after.tasks()[i].memory_set == before.tasks()[i].memory_set,
        after.tasks()[i].syscall_times == before.tasks()[i].syscall_times,
        after.tasks()[i].heap_bottom == before.tasks()[i].heap_bottom,
        after.tasks()[i].program_brk == before.tasks()[i].program_brk,
        after.tasks()[i].trap_cx == before.tasks()[i].trap_cx,
        after.tasks()[i].exit_code == before.tasks()[i].exit_code,
{
    let current = before.current();
    let tasks = suspended(before.tasks(), current);
    law_suspended(before.tasks(), current, i);
    law_suspended(before.tasks(), current, current);
    law_rescheduled(before, tasks, after, switch, i);
    law_rescheduled(before, tasks, after, switch, current);
    if let Some(s) = switch {
        law_suspended(before.tasks(), current, s.load as int);
        law_rescheduled(before, tasks, after, switch, s.load as int);
    }
}

/// Suspending a task makes it ready if it was running, and changes nothing else.
pub proof fn law_suspended(tasks: Seq<TaskControlBlock>, current: int, i: int)
    requires
        0 <= current < tasks.len(),
        0 <= i < tasks.len(),
    ensures
        ({
            let after = suspended(tasks, current);
            &&& after.len() == tasks.len()
            &&& i != current || !(tasks[i].status is Running) ==> after[i] == tasks[i]
            &&& i == current && tasks[i].status is Running ==> after[i].status is Ready
            &&& after[i].memory_set == tasks[i].memory_set
            &&& after[i].syscall_times == tasks[i].syscall_times
            &&& after[i].heap_bottom == tasks[i].heap_bottom
            &&& after[i].program_brk == tasks[i].program_brk
            &&& after[i].trap_cx == tasks[i].trap_cx
            &&& after[i].exit_code == tasks[i].exit_code
        }),
{
}

/// Ending a task, with or without a code, leaves all else as it is.
pub proof fn law_exited(tasks: Seq<TaskControlBlock>, current: int, exit_code: i32, i: int)
    requires
        0 <= current < tasks.len(),
        0 <= i < tasks.len(),
    ensures
        ({
            let ended = exited(tasks, current);
            let ended_with = exited_with(tasks, current, exit_code);
            &&& ended.len() == tasks.len() && ended_with.len() == tasks.len()
            &&& ended[current].status is Exited && ended_with[current].status is Exited
            &&& ended_with[current].exit_code == Some(exit_code)
            &&& i != current ==> ended[i] == tasks[i] && ended_with[i] == tasks[i]
            &&& ended[i].exit_code == tasks[i].exit_code
            &&& ended[i].memory_set == tasks[i].memory_set
            &&& ended[i].syscall_times == tasks[i].syscall_times
            &&& ended[i].heap_bottom == tasks[i].heap_bottom
            &&& ended[i].program_brk == tasks[i].program_brk
            &&& ended[i].trap_cx == tasks[i].trap_cx
        }),
{
}

/// When the first task starts, it runs, nothing is saved, and nothing else
/// changes.
pub proof fn law_started(
    before: &TaskManager,
    after: &TaskManager,
    switch: ContextSwitch,
    i: int,
)
    requires
        started(before, after, switch),
        0 <= i < before.tasks().len(),
    ensures
        switch.save is None,
        switch.load == 0,
        after.current() == before.current(),
        after.num_app() == before.num_app(),
        after.tasks().len() == before.tasks().len(),
        after.tasks()[0].status is Running,
        i != 0 ==> after.tasks()[i] == before.tasks()[i],
        after.tasks()[i].memory_set == before.tasks()[i].memory_set,
        after.tasks()[i].syscall_times == before.tasks()[i].syscall_times,
        after.tasks()[i].heap_bottom == before.tasks()[i].heap_bottom,
        after.tasks()[i].program_brk == before.tasks()[i].program_brk,
        after.tasks()[i].trap_cx == before.tasks()[i].trap_cx,
        after.tasks()[i].exit_code == before.tasks()[i].exit_code,
{
}

} // verus!
