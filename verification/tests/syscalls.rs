use os::config::{SYSCALL_TRACE, VA_SPACE};
use os::mm::address::{VirtAddr, VirtPageNum};
use os::mm::frame_allocator::Memory;
use os::mm::init;
use os::mm::memory_set::MemorySet;
use os::mm::page_table::MapPermission;
use os::mm::user_data::ToBytes;
use os::syscall::process::{
    copy_to_virt, count_and_trace, sys_exit, sys_get_time, sys_mmap, sys_munmap, sys_sbrk,
    sys_trace, sys_yield, MmapProt, TimeVal, PROT_EXEC, PROT_READ,
};
use os::task::task::{TaskControlBlock, TaskStatus, TrapContext};
use os::task::{run_first_task, suspend_current_and_run_next, ContextSwitch, TaskManager};

fn kernel(n: usize, frames: usize) -> (TaskManager, Memory) {
    let mut memory = Memory::new(frames + 1, 1);
    init(&mut memory, &MemorySet::new(9));
    let cx = TrapContext { x: [0; 32], sstatus: 0, sepc: 0 };
    let tasks = (0..n).map(|i| TaskControlBlock::new(100 + i, 0x10000, cx)).collect();
    let mut manager = TaskManager::new(tasks);
    run_first_task(&mut manager);
    (manager, memory)
}

fn read(manager: &TaskManager, memory: &mut Memory, at: usize) -> isize {
    sys_trace(manager, memory, 0, at, 0)
}

fn write(manager: &TaskManager, memory: &mut Memory, at: usize, data: usize) -> isize {
    sys_trace(manager, memory, 1, at, data)
}

#[test]
fn protection_bits_become_permissions() {
    assert_eq!(MmapProt::from_bits(8), None);
    assert_eq!(MmapProt::from_bits(usize::MAX), None);
    let prot = MmapProt::from_bits(PROT_READ | PROT_EXEC).unwrap();
    assert!(prot.contains(PROT_READ));
    assert!(!prot.contains(2));
    assert_eq!(
        MapPermission::from(prot),
        MapPermission { r: true, w: false, x: true, u: false }
    );
    assert_eq!(
        MapPermission::from(MmapProt { bits: 2 }),
        MapPermission { r: false, w: true, x: false, u: false }
    );
    assert_eq!(MapPermission::from(MmapProt { bits: 0 }), MapPermission::empty());
}

#[test]
fn mapped_memory_is_usable_and_zero() {
    let (mut m, mut memory) = kernel(1, 8);
    assert_eq!(sys_mmap(&mut m, &mut memory, 0x4000, 0x1001, 3), 0);
    assert_eq!(memory.free_frames(), 6);
    assert_eq!(read(&m, &mut memory, 0x4000), 0);
    assert_eq!(read(&m, &mut memory, 0x5fff), 0);
    assert_eq!(read(&m, &mut memory, 0x6000), -1);
    assert_eq!(read(&m, &mut memory, 0x3fff), -1);
    assert_eq!(write(&m, &mut memory, 0x5fff, 0x1ff), 0);
    assert_eq!(read(&m, &mut memory, 0x5fff), 255);
    assert_eq!(read(&m, &mut memory, 0x5ffe), 0);
}

#[test]
fn mmap_refuses_bad_arguments() {
    let (mut m, mut memory) = kernel(1, 8);
    assert_eq!(sys_mmap(&mut m, &mut memory, 0x4001, 0x1000, 3), -1);
    assert_eq!(sys_mmap(&mut m, &mut memory, 0x4000, 0x1000, 0), -1);
    assert_eq!(sys_mmap(&mut m, &mut memory, 0x4000, 0x1000, 8), -1);
    assert_eq!(sys_mmap(&mut m, &mut memory, 0x4000, 0x1000, 11), -1);
    assert_eq!(memory.free_frames(), 8);
}

#[test]
fn mmap_refuses_mapped_pages() {
    let (mut m, mut memory) = kernel(1, 8);
    assert_eq!(sys_mmap(&mut m, &mut memory, 0x4000, 0x2000, 3), 0);
    assert_eq!(sys_mmap(&mut m, &mut memory, 0x5000, 0x1000, 3), -1);
    assert_eq!(sys_mmap(&mut m, &mut memory, 0x3000, 0x1001, 3), -1);
    assert_eq!(memory.free_frames(), 6);
    assert_eq!(sys_mmap(&mut m, &mut memory, 0x3000, 0x1000, 3), 0);
    assert_eq!(
        m.mmap(&mut memory, VirtAddr(0x5000), VirtAddr(0x5001), MapPermission::empty()),
        Err("mmap: area already mapped")
    );
}

#[test]
fn an_empty_area_maps_nothing() {
    let (mut m, mut memory) = kernel(1, 8);
    assert_eq!(sys_mmap(&mut m, &mut memory, 0x4000, 0, 3), 0);
    assert_eq!(memory.free_frames(), 8);
    let top = VA_SPACE as usize - 0x1000;
    assert_eq!(sys_mmap(&mut m, &mut memory, top, 0x1000, 3), 0);
    assert_eq!(memory.free_frames(), 8);
    assert_eq!(read(&m, &mut memory, top), -1);
}

#[test]
fn mmap_looks_ahead_for_frames() {
    let (m, memory) = kernel(1, 2);
    assert!(m.mmap_fits(&memory, VirtAddr(0x4000), VirtAddr(0x6000)));
    assert!(!m.mmap_fits(&memory, VirtAddr(0x4000), VirtAddr(0x6001)));
    assert!(m.mmap_fits(&memory, VirtAddr(0x6000), VirtAddr(0x4000)));
}

#[test]
fn protection_is_kept() {
    let (mut m, mut memory) = kernel(1, 8);
    assert_eq!(sys_mmap(&mut m, &mut memory, 0x4000, 0x1000, 1), 0);
    assert_eq!(sys_mmap(&mut m, &mut memory, 0x5000, 0x1000, 2), 0);
    assert_eq!(sys_mmap(&mut m, &mut memory, 0x6000, 0x1000, 4), 0);
    assert_eq!(read(&m, &mut memory, 0x4000), 0);
    assert_eq!(write(&m, &mut memory, 0x4000, 1), -1);
    assert_eq!(read(&m, &mut memory, 0x5000), -1);
    assert_eq!(write(&m, &mut memory, 0x5000, 1), 0);
    assert_eq!(read(&m, &mut memory, 0x6000), -1);
    assert_eq!(write(&m, &mut memory, 0x6000, 1), -1);
}

#[test]
fn munmap_undoes_mmap() {
    let (mut m, mut memory) = kernel(1, 8);
    assert_eq!(sys_mmap(&mut m, &mut memory, 0x4000, 0x2000, 3), 0);
    assert_eq!(write(&m, &mut memory, 0x4000, 5), 0);
    assert_eq!(sys_munmap(&mut m, &mut memory, 0x4000, 0x2000), 0);
    assert_eq!(memory.free_frames(), 8);
    assert_eq!(read(&m, &mut memory, 0x4000), -1);
    assert_eq!(sys_mmap(&mut m, &mut memory, 0x4000, 0x2000, 3), 0);
    assert_eq!(read(&m, &mut memory, 0x4000), 0);
}

#[test]
fn munmap_refuses_bad_arguments() {
    let (mut m, mut memory) = kernel(1, 8);
    assert_eq!(sys_mmap(&mut m, &mut memory, 0x4000, 0x2000, 3), 0);
    assert_eq!(sys_munmap(&mut m, &mut memory, 0x4001, 0x1000), -1);
    assert_eq!(sys_munmap(&mut m, &mut memory, 0x4000, 0x1001), -1);
    assert_eq!(memory.free_frames(), 6);
}

#[test]
fn munmap_refuses_empty_entries() {
    let (mut m, mut memory) = kernel(1, 8);
    assert_eq!(sys_mmap(&mut m, &mut memory, 0x4000, 0x1000, 3), 0);
    assert_eq!(sys_munmap(&mut m, &mut memory, 0x4000, 0x2000), -1);
    assert_eq!(
        m.unmap(&mut memory, VirtAddr(0x5000), VirtAddr(0x6000)),
        Err("unmap: area not mapped")
    );
    assert_eq!(read(&m, &mut memory, 0x4000), 0);
}

#[test]
fn munmap_passes_over_pages_without_a_table() {
    let (mut m, mut memory) = kernel(1, 8);
    assert_eq!(sys_munmap(&mut m, &mut memory, 0x4000_0000, 0x3000), 0);
    assert_eq!(memory.free_frames(), 8);
    assert_eq!(m.current_ref().memory_set.translate(VirtPageNum(0x40000)), None);
}

#[test]
fn tasks_do_not_see_each_other() {
    let (mut m, mut memory) = kernel(2, 8);
    assert_eq!(sys_mmap(&mut m, &mut memory, 0x4000, 0x1000, 3), 0);
    assert_eq!(write(&m, &mut memory, 0x4000, 7), 0);
    suspend_current_and_run_next(&mut m);
    assert_eq!(read(&m, &mut memory, 0x4000), -1);
    assert_eq!(sys_mmap(&mut m, &mut memory, 0x4000, 0x1000, 3), 0);
    assert_eq!(read(&m, &mut memory, 0x4000), 0);
    assert_eq!(write(&m, &mut memory, 0x4000, 9), 0);
    suspend_current_and_run_next(&mut m);
    assert_eq!(read(&m, &mut memory, 0x4000), 7);
}

#[test]
fn the_time_is_written_across_pages() {
    let (mut m, mut memory) = kernel(1, 8);
    assert_eq!(sys_mmap(&mut m, &mut memory, 0x4000, 0x2000, 3), 0);
    let ts = 0x5000 - 8;
    assert_eq!(sys_get_time(&m, &mut memory, 3_000_258, ts, 0), 0);
    let bytes: Vec<u8> = (0..16).map(|i| read(&m, &mut memory, ts + i) as u8).collect();
    assert_eq!(bytes, vec![3, 0, 0, 0, 0, 0, 0, 0, 2, 1, 0, 0, 0, 0, 0, 0]);
    assert_eq!(bytes, TimeVal { sec: 3, usec: 258 }.to_bytes());
    assert_eq!(read(&m, &mut memory, ts - 1), 0);
    assert_eq!(read(&m, &mut memory, ts + 16), 0);
}

#[test]
fn values_are_copied_to_the_current_task() {
    let (mut m, mut memory) = kernel(1, 8);
    assert_eq!(sys_mmap(&mut m, &mut memory, 0x4000, 0x1000, 1), 0);
    copy_to_virt(&m, &mut memory, &0x5au8, 0x4003);
    assert_eq!(read(&m, &mut memory, 0x4003), 0x5a);
}

#[test]
fn trace_counts_calls() {
    let (mut m, mut memory) = kernel(1, 8);
    assert_eq!(sys_trace(&m, &mut memory, 2, SYSCALL_TRACE, 0), 0);
    assert_eq!(count_and_trace(&mut m, &mut memory, 2, SYSCALL_TRACE, 0), 1);
    assert_eq!(count_and_trace(&mut m, &mut memory, 2, 64, 0), 0);
    m.count_syscall(64);
    assert_eq!(count_and_trace(&mut m, &mut memory, 2, 64, 0), 1);
    assert_eq!(count_and_trace(&mut m, &mut memory, 2, SYSCALL_TRACE, 0), 4);
}

#[test]
fn other_trace_requests_are_refused() {
    let (m, mut memory) = kernel(1, 8);
    assert_eq!(sys_trace(&m, &mut memory, 3, 0, 0), -1);
    assert_eq!(sys_trace(&m, &mut memory, usize::MAX, usize::MAX, 0), -1);
    assert_eq!(sys_trace(&m, &mut memory, 0, usize::MAX, 0), -1);
}

#[test]
fn the_break_moves_with_its_memory() {
    let (mut m, mut memory) = kernel(1, 8);
    assert_eq!(sys_sbrk(&mut m, &mut memory, 0), 0x10000);
    assert_eq!(sys_sbrk(&mut m, &mut memory, 0x1001), 0x10000);
    assert_eq!(memory.free_frames(), 6);
    assert_eq!(write(&m, &mut memory, 0x11fff, 1), 0);
    assert_eq!(read(&m, &mut memory, 0x12000), -1);
    assert_eq!(sys_sbrk(&mut m, &mut memory, -1), 0x11001);
    assert_eq!(memory.free_frames(), 7);
    assert_eq!(read(&m, &mut memory, 0x11000), -1);
    assert_eq!(sys_sbrk(&mut m, &mut memory, -0x1000), 0x11000);
    assert_eq!(memory.free_frames(), 8);
    assert_eq!(sys_sbrk(&mut m, &mut memory, -1), -1);
    assert_eq!(sys_sbrk(&mut m, &mut memory, 0), 0x10000);
}

#[test]
fn the_exit_code_is_kept() {
    let (mut m, _memory) = kernel(1, 1);
    assert_eq!(m.current_ref().exit_code, None);
    assert_eq!(sys_exit(&mut m, -3), None);
    assert_eq!(m.current_ref().exit_code, Some(-3));
    assert_eq!(m.current_ref().status(), TaskStatus::Exited);
}

#[test]
fn a_heap_may_start_inside_a_page() {
    let mut memory = Memory::new(9, 1);
    init(&mut memory, &MemorySet::new(9));
    let cx = TrapContext { x: [0; 32], sstatus: 0, sepc: 0 };
    let mut m = TaskManager::new(vec![TaskControlBlock::new(1, 0x10800, cx)]);
    assert_eq!(sys_sbrk(&mut m, &mut memory, 0x800), 0x10800);
    assert_eq!(memory.free_frames(), 8);
    assert_eq!(sys_sbrk(&mut m, &mut memory, 1), 0x11000);
    assert_eq!(memory.free_frames(), 7);
    assert_eq!(sys_sbrk(&mut m, &mut memory, -0x802), -1);
}

#[test]
fn the_break_stops_at_mapped_pages_and_without_frames() {
    let (mut m, mut memory) = kernel(1, 4);
    assert_eq!(sys_sbrk(&mut m, &mut memory, 0x5000), -1);
    assert_eq!(sys_mmap(&mut m, &mut memory, 0x11000, 0x1000, 3), 0);
    assert_eq!(sys_sbrk(&mut m, &mut memory, 0x2000), -1);
    assert_eq!(sys_sbrk(&mut m, &mut memory, 0x1000), 0x10000);
    assert_eq!(memory.free_frames(), 2);
}

#[test]
fn yield_and_exit_hand_the_processor_on() {
    let (mut m, _memory) = kernel(2, 1);
    assert_eq!(
        sys_yield(&mut m),
        (Some(ContextSwitch { save: Some(0), load: 1 }), 0)
    );
    assert_eq!(sys_exit(&mut m, -3), Some(ContextSwitch { save: Some(1), load: 0 }));
    assert_eq!(
        sys_yield(&mut m),
        (Some(ContextSwitch { save: Some(0), load: 0 }), 0)
    );
    assert_eq!(sys_exit(&mut m, 0), None);
    assert_eq!(m.current_ref().exit_code, Some(0));
}
