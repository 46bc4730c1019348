use os::config::{PAGE_SIZE, VA_SPACE};
use os::mm::address::{VirtAddr, VirtPageNum};
use os::mm::frame_allocator::Memory;
use os::mm::memory_set::MemorySet;
use os::mm::page_table::{translated_byte_buffer, MapPermission, PageTable, Segment};
use os::mm::{init, trace_read, trace_write};

fn permission(r: bool, w: bool, x: bool, u: bool) -> MapPermission {
    MapPermission { r, w, x, u }
}

fn machine(frames: usize) -> Memory {
    let mut memory = Memory::new(frames, 1);
    init(&mut memory, &MemorySet::new(9));
    memory
}

#[test]
fn addresses_keep_39_bits() {
    assert_eq!(VirtAddr::from(0x1234usize), VirtAddr(0x1234));
    assert_eq!(VirtAddr::from(VA_SPACE as usize), VirtAddr(0));
    assert_eq!(VirtAddr::from(usize::MAX), VirtAddr(0x7f_ffff_ffff));
}

#[test]
fn pages_round_down_and_up() {
    assert_eq!(VirtAddr(0).floor(), VirtPageNum(0));
    assert_eq!(VirtAddr(0).ceil(), VirtPageNum(0));
    assert_eq!(VirtAddr(4095).floor(), VirtPageNum(0));
    assert_eq!(VirtAddr(1).ceil(), VirtPageNum(1));
    assert_eq!(VirtAddr(4096).ceil(), VirtPageNum(1));
    assert_eq!(VirtAddr(4097).ceil(), VirtPageNum(2));
}

#[test]
fn init_frees_all_frames_above_the_kernel() {
    let mut memory = Memory::new(4, 1);
    assert_eq!(memory.free_frames(), 0);
    assert_eq!(memory.frame_alloc(), None);
    init(&mut memory, &MemorySet::new(9));
    assert_eq!(memory.size(), 4 * PAGE_SIZE);
    assert_eq!(memory.free_frames(), 3);
    assert_eq!(memory.frame_alloc(), Some(3));
    assert_eq!(memory.frame_alloc(), Some(2));
    assert_eq!(memory.frame_alloc(), Some(1));
    assert_eq!(memory.frame_alloc(), None);
}

#[test]
fn freed_frames_come_back_cleared() {
    let mut memory = machine(3);
    let frame = memory.frame_alloc().unwrap();
    memory.copy_in(frame * PAGE_SIZE, &vec![7u8, 8, 9], 1, 2);
    let mut seen: Vec<u8> = Vec::new();
    memory.copy_out(frame * PAGE_SIZE, 2, &mut seen);
    assert_eq!(seen, vec![8, 9]);
    memory.frame_dealloc(frame);
    assert_eq!(memory.frame_alloc(), Some(frame));
    let mut cleared: Vec<u8> = Vec::new();
    memory.copy_out(frame * PAGE_SIZE, 2, &mut cleared);
    assert_eq!(cleared, vec![0, 0]);
}

#[test]
fn a_leaf_table_makes_its_empty_entries_visible() {
    let mut table = PageTable::new(1);
    assert_eq!(table.translate(VirtPageNum(5)), None);
    table.map(VirtPageNum(5), 2, permission(true, false, false, true));
    let entry = table.translate(VirtPageNum(5)).unwrap();
    assert!(entry.is_valid());
    assert!(entry.readable());
    assert!(!entry.writable());
    assert!(entry.user());
    assert_eq!(entry.ppn(), 2);
    let neighbour = table.translate(VirtPageNum(511)).unwrap();
    assert!(!neighbour.is_valid());
    assert_eq!(table.translate(VirtPageNum(512)), None);
    assert_eq!(table.unmap(VirtPageNum(5)), Some(2));
    assert_eq!(table.unmap(VirtPageNum(5)), None);
    assert!(!table.translate(VirtPageNum(5)).unwrap().is_valid());
}

#[test]
fn a_buffer_is_cut_at_page_boundaries() {
    let memory = machine(8);
    let mut table = PageTable::new(1);
    table.map(VirtPageNum(1), 3, permission(true, true, false, true));
    table.map(VirtPageNum(2), 2, permission(true, true, false, true));
    assert!(table.is_backed(&memory, 0x1ffc, 8));
    assert!(!table.is_backed(&memory, 0x2ffc, 8));
    assert!(!table.is_backed(&memory, 0x7f_ffff_ffff, 2));
    let segments = translated_byte_buffer(&table, &memory, 0x1ffc, 8);
    assert_eq!(
        segments,
        vec![Segment { paddr: 0x3ffc, len: 4 }, Segment { paddr: 0x2000, len: 4 }]
    );
    assert_eq!(translated_byte_buffer(&table, &memory, 0x1ffc, 0), Vec::<Segment>::new());
}

#[test]
fn user_bytes_are_read_back() {
    let mut memory = machine(8);
    let mut table = PageTable::new(1);
    table.map(VirtPageNum(1), 3, permission(true, true, false, true));
    assert!(trace_write(&mut memory, &table, 0xabu8, 0x1010));
    assert_eq!(trace_read::<u8>(&memory, &table, 0x1010), Some(0xab));
    assert_eq!(trace_read::<u8>(&memory, &table, 0x1011), Some(0));
}

#[test]
fn pages_without_permission_are_refused() {
    let mut memory = machine(8);
    let mut table = PageTable::new(1);
    table.map(VirtPageNum(1), 3, permission(true, false, false, true));
    table.map(VirtPageNum(2), 4, permission(false, true, false, true));
    table.map(VirtPageNum(3), 5, permission(true, true, true, false));
    assert!(!trace_write(&mut memory, &table, 1u8, 0x1000));
    assert_eq!(trace_read::<u8>(&memory, &table, 0x1000), Some(0));
    assert!(trace_write(&mut memory, &table, 1u8, 0x2000));
    assert_eq!(trace_read::<u8>(&memory, &table, 0x2000), None);
    assert!(!trace_write(&mut memory, &table, 1u8, 0x3000));
    assert_eq!(trace_read::<u8>(&memory, &table, 0x3000), None);
    assert_eq!(trace_read::<u8>(&memory, &table, 0x4000), None);
    assert_eq!(trace_read::<u8>(&memory, &table, 0x40_0000), None);
}

#[test]
fn areas_take_and_return_frames() {
    let mut memory = machine(8);
    let mut set = MemorySet::new(4);
    set.insert_framed_area(
        &mut memory,
        VirtAddr(0x1800),
        VirtAddr(0x2801),
        permission(true, true, false, true),
    );
    assert_eq!(memory.free_frames(), 5);
    assert!(!set.is_clear(VirtPageNum(0), VirtPageNum(2)));
    assert!(set.is_clear(VirtPageNum(3), VirtPageNum(9)));
    set.remove_framed_area(&mut memory, VirtAddr(0x1800), VirtAddr(0x2801));
    assert_eq!(memory.free_frames(), 7);
    assert!(set.is_clear(VirtPageNum(0), VirtPageNum(9)));
    assert_eq!(set.token(), 4);
}
