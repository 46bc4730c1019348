use os::task::task::{TaskControlBlock, TaskStatus, TrapContext};
use os::task::{
    current_trap_cx, current_user_token, exit_current_and_run_next, run_first_task,
    suspend_current_and_run_next, ContextSwitch, TaskManager,
};

fn manager(n: usize) -> TaskManager {
    let cx = TrapContext { x: [0; 32], sstatus: 0, sepc: 0x1000 };
    let tasks = (0..n).map(|i| TaskControlBlock::new(100 + i, 0x10000, cx)).collect();
    TaskManager::new(tasks)
}

fn switch(save: usize, load: usize) -> Option<ContextSwitch> {
    Some(ContextSwitch { save: Some(save), load })
}

#[test]
fn the_first_task_starts() {
    let mut m = manager(2);
    assert_eq!(run_first_task(&mut m), ContextSwitch { save: None, load: 0 });
    assert_eq!(m.current_ref().status(), TaskStatus::Running);
    assert_eq!(current_user_token(&m), 100);
}

#[test]
fn tasks_take_turns() {
    let mut m = manager(3);
    run_first_task(&mut m);
    assert_eq!(suspend_current_and_run_next(&mut m), switch(0, 1));
    assert_eq!(current_user_token(&m), 101);
    assert_eq!(suspend_current_and_run_next(&mut m), switch(1, 2));
    assert_eq!(suspend_current_and_run_next(&mut m), switch(2, 0));
    assert_eq!(m.current_ref().status(), TaskStatus::Running);
}

#[test]
fn a_lonely_task_yields_to_itself() {
    let mut m = manager(1);
    run_first_task(&mut m);
    assert_eq!(suspend_current_and_run_next(&mut m), switch(0, 0));
    assert_eq!(m.current_ref().status(), TaskStatus::Running);
}

#[test]
fn exited_tasks_are_passed_over() {
    let mut m = manager(3);
    run_first_task(&mut m);
    assert_eq!(suspend_current_and_run_next(&mut m), switch(0, 1));
    assert_eq!(exit_current_and_run_next(&mut m), switch(1, 2));
    assert_eq!(suspend_current_and_run_next(&mut m), switch(2, 0));
    assert_eq!(suspend_current_and_run_next(&mut m), switch(0, 2));
    assert_eq!(exit_current_and_run_next(&mut m), switch(2, 0));
    assert_eq!(exit_current_and_run_next(&mut m), None);
    assert_eq!(m.current_ref().status(), TaskStatus::Exited);
    assert_eq!(m.find_next_task(), None);
}

#[test]
fn a_task_that_does_not_run_is_not_suspended() {
    let mut m = manager(2);
    m.mark_current_exited();
    m.mark_current_suspended();
    assert_eq!(m.current_ref().status(), TaskStatus::Exited);
}

#[test]
fn status_changes_are_checked() {
    let cx = TrapContext { x: [0; 32], sstatus: 0, sepc: 0 };
    let mut task = TaskControlBlock::new(1, 0, cx);
    assert!(task.is_ready());
    assert_eq!(task.try_turn_to_ready(), Err("task is not running"));
    assert_eq!(task.try_turn_to_running(), Ok(()));
    assert_eq!(task.try_turn_to_running(), Err("task is not ready"));
    assert_eq!(task.try_turn_to_ready(), Ok(()));
    task.turn_to_exited();
    assert_eq!(task.status(), TaskStatus::Exited);
}

#[test]
fn the_trap_context_of_the_current_task_is_kept() {
    let mut m = manager(2);
    run_first_task(&mut m);
    current_trap_cx(&mut m).x[10] = 42;
    suspend_current_and_run_next(&mut m);
    assert_eq!(current_trap_cx(&mut m).x[10], 0);
    suspend_current_and_run_next(&mut m);
    assert_eq!(current_trap_cx(&mut m).x[10], 42);
    assert_eq!(current_trap_cx(&mut m).sepc, 0x1000);
}

#[test]
fn the_current_task_can_be_changed_in_place() {
    let mut m = manager(2);
    {
        let mut task = m.current_task();
        task.borrow_mut().syscall_times[3] = 8;
        assert_eq!(task.borrow().syscall_times[3], 8);
    }
    m.count_syscall(3);
    assert_eq!(m.current_ref().syscall_times[3], 9);
}
