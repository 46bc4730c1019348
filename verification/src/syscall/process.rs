//! The system calls that deal with processes: their end, their turn, the time,
//! their memory, and what they have called.
use vstd::prelude::*;

use crate::config::{MAX_SYSCALL_NUM, PAGE_SIZE, SYSCALL_TRACE};
use crate::mm::address::{va, VirtAddr};
use crate::mm::frame_allocator::Memory;
use crate::mm::memory_set::page_count;
use crate::mm::page_table::{MapPermission, PageTable};
use crate::mm::user_data::ToBytes;
use crate::mm::{trace_read, trace_write, write_virt};
use crate::task::task::{TaskControlBlock, TaskStatus};
use crate::task::{
    change_program_brk, exit_current_and_run_next, exited, exited_with, rescheduled,
    suspend_current_and_run_next, suspended, ContextSwitch, TaskManager,
};

verus! {

/// A time, as seconds and microseconds.
#[derive(Clone, Copy, Debug, PartialEq, Eq, Structural)]
pub struct TimeVal {
    /// Full seconds.
    pub sec: usize,
    /// Microseconds within the second.
    pub usec: usize,
}

/// Task information.
#[allow(dead_code)]
pub struct TaskInfo {
    /// Task status in its life cycle.
    status: TaskStatus,
    /// The numbers of system calls called by the task.
    syscall_times: [u32; MAX_SYSCALL_NUM],
    /// Total running time of the task.
    time: usize,
}

impl ToBytes for TimeVal {
    open spec fn size() -> nat {
        16
    }

    /// Both fields as 64-bit little-endian words.
    open spec fn bytes(&self) -> Seq<u8> {
        vstd::bytes::spec_u64_to_le_bytes(self.sec as u64) + vstd::bytes::spec_u64_to_le_bytes(
            self.usec as u64,
        )
    }

    fn to_bytes(&self) -> (bytes: Vec<u8>) {
        let mut bytes: Vec<u8> = vstd::bytes::u64_to_le_bytes(self.sec as u64);
        let mut usec: Vec<u8> = vstd::bytes::u64_to_le_bytes(self.usec as u64);
        bytes.append(&mut usec);
        bytes
    }

    proof fn lemma_bytes_len(&self) {
        vstd::bytes::lemma_auto_spec_u64_to_from_le_bytes();
    }
}

/// The time `now`, in microseconds since the start, as a `TimeVal`.
pub open spec fn time_val(now: usize) -> TimeVal {
    TimeVal { sec: now / 1_000_000, usec: now % 1_000_000 }
}

/// One call of `sys_exit`.
pub open spec fn exit_step(
    before: &TaskManager,
    after: &TaskManager,
    exit_code: i32,
    switch: Option<ContextSwitch>,
) -> bool {
    rescheduled(
        before,
        exited_with(before.tasks(), before.current(), exit_code),
        after,
        switch,
    )
}

/// The current task exits and submits an exit code, which is kept with it.
/// Returns the switch to the next task; `None` if no task is ready, all
/// applications being completed.
pub fn sys_exit(manager: &mut TaskManager, exit_code: i32) -> (switch: Option<ContextSwitch>)
    requires
        old(manager).wf(),
    ensures
        final(manager).wf(),
        rescheduled(
            old(manager),
            exited_with(old(manager).tasks(), old(manager).current(), exit_code),
            final(manager),
            switch,
        ),
        exit_step(old(manager), final(manager), exit_code, switch),
{
    let mut task = manager.current_task();
    let info: &mut TaskControlBlock = task.borrow_mut();
    info.exit_code = Some(exit_code);
    assert(exited(manager.tasks(), manager.current()) =~= exited_with(
        old(manager).tasks(),
        old(manager).current(),
        exit_code,
    ));
    exit_current_and_run_next(manager)
}

/// One call of `sys_yield`.
pub open spec fn yield_step(
    before: &TaskManager,
    after: &TaskManager,
    switch: Option<ContextSwitch>,
    r: isize,
) -> bool {
    &&& rescheduled(before, suspended(before.tasks(), before.current()), after, switch)
    &&& r == 0
}

/// The current task gives up the processor for other tasks. Returns the switch
/// to the next task, and what the call returns once the task runs again.
pub fn sys_yield(manager: &mut TaskManager) -> (r: (Option<ContextSwitch>, isize))
    requires
        old(manager).wf(),
    ensures
        final(manager).wf(),
        rescheduled(
            old(manager),
            suspended(old(manager).tasks(), old(manager).current()),
            final(manager),
            r.0,
        ),
        r.1 == 0,
        yield_step(old(manager), final(manager), r.0, r.1),
{
    let switch: Option<ContextSwitch> = suspend_current_and_run_next(manager);
    (switch, 0)
}

/// One copy of `data` to the memory of the current task at `dst`.
pub open spec fn copy_step(
    manager: &TaskManager,
    memory0: &Memory,
    memory1: &Memory,
    data: Seq<u8>,
    dst: usize,
) -> bool {
    &&& memory1.same_setup(memory0)
    &&& memory1.free() == memory0.free()
    &&& current_table(manager).written(memory0.bytes(), memory1.bytes(), va(dst), data)
}

/// Copies `src` to the memory of the current task at `dst`, page by page.
pub fn copy_to_virt<T: ToBytes>(manager: &TaskManager, memory: &mut Memory, src: &T, dst: usize)
    requires
        manager.consistent(old(memory)),
        current_table(manager).backed(old(memory), va(dst), T::size()),
    ensures
        manager.consistent(final(memory)),
        final(memory).same_setup(old(memory)),
        final(memory).free() == old(memory).free(),
        current_table(manager).written(
            old(memory).bytes(),
            final(memory).bytes(),
            va(dst),
            src.bytes(),
        ),
        copy_step(manager, old(memory), final(memory), src.bytes(), dst),
{
    let bytes: Vec<u8> = src.to_bytes();
    proof {
        src.lemma_bytes_len();
    }
    write_virt(memory, &manager.current_ref().memory_set.page_table, &bytes, dst);
    proof {
        lemma_same_frames_consistent(manager, old(memory), memory);
    }
}

/// The page table of the current task.
pub open spec fn current_table(manager: &TaskManager) -> PageTable {
    manager.tasks()[manager.current()].memory_set.page_table
}

/// Consistency does not depend on what memory holds.
proof fn lemma_same_frames_consistent(manager: &TaskManager, before: &Memory, after: &Memory)
    requires
        manager.consistent(before),
        after.wf(),
        after.same_setup(before),
        after.free() == before.free(),
    ensures
        manager.consistent(after),
{
    assert forall|i: int| 0 <= i < manager.tasks().len() implies (
    #[trigger] manager.tasks()[i]).memory_set.owns_frames(after) by {
        assert(manager.tasks()[i].memory_set.owns_frames(before));
    }
}

/// One call of `sys_get_time`.
pub open spec fn time_step(
    manager: &TaskManager,
    memory0: &Memory,
    memory1: &Memory,
    now: usize,
    ts: usize,
    r: isize,
) -> bool {
    &&& copy_step(manager, memory0, memory1, time_val(now).bytes(), ts)
    &&& r == 0
}

/// Writes the time `now`, in microseconds since the start, to `ts` in the
/// memory of the current task. The time zone is ignored.
pub fn sys_get_time(
    manager: &TaskManager,
    memory: &mut Memory,
    now: usize,
    ts: usize,
    _tz: usize,
) -> (r: isize)
    requires
        manager.consistent(old(memory)),
        current_table(manager).backed(old(memory), va(ts), TimeVal::size()),
    ensures
        manager.consistent(final(memory)),
        r == 0,
        final(memory).same_setup(old(memory)),
        final(memory).free() == old(memory).free(),
        current_table(manager).written(
            old(memory).bytes(),
            final(memory).bytes(),
            va(ts),
            time_val(now).bytes(),
        ),
        time_step(manager, old(memory), final(memory), now, ts, r),
{
    let time: TimeVal = TimeVal { sec: now / 1_000_000, usec: now % 1_000_000 };
    copy_to_virt(manager, memory, &time, ts);
    0
}

/// One call of `sys_trace`.
pub open spec fn trace_step(
    manager: &TaskManager,
    memory0: &Memory,
    memory1: &Memory,
    trace_request: usize,
    id: usize,
    data: usize,
    r: isize,
) -> bool {
    let table = current_table(manager);
    if trace_request == 0 {
        &&& *memory1 == *memory0
        &&& r == if table.user_readable(id) {
            memory0.bytes()[table.phys(va(id))] as int
        } else {
            -1
        }
    } else if trace_request == 1 {
        if table.user_writable(id) {
            &&& r == 0
            &&& copy_step(manager, memory0, memory1, seq![(data % 256) as u8], id)
        } else {
            r == -1 && *memory1 == *memory0
        }
    } else if trace_request == 2 {
        &&& *memory1 == *memory0
        &&& r == manager.tasks()[manager.current()].syscall_times@[id as int] as isize
    } else {
        r == -1 && *memory1 == *memory0
    }
}

/// Looks into the current task.
///
/// Request 0 reads the byte at address `id`, request 1 writes the low byte of
/// `data` to address `id`, request 2 asks how often the task has called system
/// call `id`. An address that user mode cannot use so, and any other request,
/// is answered by -1.
pub fn sys_trace(
    manager: &TaskManager,
    memory: &mut Memory,
    trace_request: usize,
    id: usize,
    data: usize,
) -> (r: isize)
    requires
        manager.consistent(old(memory)),
        trace_request == 2 ==> id < MAX_SYSCALL_NUM,
    ensures
        manager.consistent(final(memory)),
        trace_request != 1 ==> *final(memory) == *old(memory),
        trace_request == 0 ==> r == if current_table(manager).user_readable(id) {
            old(memory).bytes()[current_table(manager).phys(va(id))] as int
        } else {
            -1
        },
        trace_request == 1 ==> if current_table(manager).user_writable(id) {
            &&& r == 0
            &&& final(memory).same_setup(old(memory))
            &&& final(memory).free() == old(memory).free()
            &&& current_table(manager).written(
                old(memory).bytes(),
                final(memory).bytes(),
                va(id),
                seq![(data % 256) as u8],
            )
        } else {
            r == -1 && *final(memory) == *old(memory)
        },
        trace_request == 2 ==> r == manager.tasks()[manager.current()].syscall_times@[id as int] as isize,
        trace_request > 2 ==> r == -1,
        trace_step(manager, old(memory), final(memory), trace_request, id, data, r),
{
    proof {
        lemma_byte_backed(manager, memory, id);
    }
    if trace_request == 0 {
        let table: &PageTable = &manager.current_ref().memory_set.page_table;
        let value: Option<u8> = trace_read::<u8>(memory, table, id);
        match value {
            Some(byte) => {
                assert(byte.bytes()[0] == byte);
                byte as isize
            },
            None => -1,
        }
    } else if trace_request == 1 {
        let table: &PageTable = &manager.current_ref().memory_set.page_table;
        let byte: u8 = (data % 256) as u8;
        if trace_write::<u8>(memory, table, byte, id) {
            proof {
                lemma_same_frames_consistent(manager, old(memory), memory);
            }
            0
        } else {
            -1
        }
    } else if trace_request == 2 {
        manager.current_ref().syscall_times[id] as isize
    } else {
        -1
    }
}

/// A byte that user mode can read or write has memory behind it.
proof fn lemma_byte_backed(manager: &TaskManager, memory: &Memory, word: usize)
    requires
        manager.consistent(memory),
    ensures
        current_table(manager).user_readable(word) || current_table(manager).user_writable(word)
            ==> current_table(manager).backed(memory, va(word), 1),
{
    let task = manager.tasks()[manager.current()];
    assert(task.memory_set.owns_frames(memory));
}

/// One `trace` system call from its entry on.
pub open spec fn counted_trace_step(
    before: &TaskManager,
    memory0: &Memory,
    after: &TaskManager,
    memory1: &Memory,
    trace_request: usize,
    id: usize,
    data: usize,
    r: isize,
) -> bool {
    &&& before.only_current_changed(after)
    &&& before.tasks()[before.current()].call_counted(
        &after.tasks()[before.current()],
        SYSCALL_TRACE,
    )
    &&& trace_step(after, memory0, memory1, trace_request, id, data, r)
}

/// The `trace` system call from its entry on: the call counts itself, then
/// does its work.
pub fn count_and_trace(
    manager: &mut TaskManager,
    memory: &mut Memory,
    trace_request: usize,
    id: usize,
    data: usize,
) -> (r: isize)
    requires
        old(manager).consistent(old(memory)),
        trace_request == 2 ==> id < MAX_SYSCALL_NUM,
        old(manager).tasks()[old(manager).current()].syscall_times@[SYSCALL_TRACE as int] < u32::MAX,
    ensures
        final(manager).consistent(final(memory)),
        old(manager).only_current_changed(final(manager)),
        old(manager).tasks()[old(manager).current()].call_counted(
            &final(manager).tasks()[old(manager).current()],
            SYSCALL_TRACE,
        ),
        trace_request != 1 ==> *final(memory) == *old(memory),
        trace_request == 0 ==> r == if current_table(old(manager)).user_readable(id) {
            old(memory).bytes()[current_table(old(manager)).phys(va(id))] as int
        } else {
            -1
        },
        trace_request == 1 ==> if current_table(old(manager)).user_writable(id) {
            &&& r == 0
            &&& final(memory).same_setup(old(memory))
            &&& final(memory).free() == old(memory).free()
            &&& current_table(old(manager)).written(
                old(memory).bytes(),
                final(memory).bytes(),
                va(id),
                seq![(data % 256) as u8],
            )
        } else {
            r == -1 && *final(memory) == *old(memory)
        },
        trace_request == 2 && id == SYSCALL_TRACE ==> r == (old(manager).tasks()[old(
            manager,
        ).current()].syscall_times@[id as int] + 1) as isize,
        trace_request == 2 && id != SYSCALL_TRACE ==> r == old(manager).tasks()[old(
            manager,
        ).current()].syscall_times@[id as int] as isize,
        trace_request > 2 ==> r == -1,
        counted_trace_step(
            old(manager),
            old(memory),
            final(manager),
            final(memory),
            trace_request,
            id,
            data,
            r,
        ),
{
    manager.count_syscall(SYSCALL_TRACE);
    proof {
        assert forall|i: int| 0 <= i < manager.tasks().len() implies (
        #[trigger] manager.tasks()[i]).memory_set == old(manager).tasks()[i].memory_set by {}
        assert forall|i: int| 0 <= i < manager.tasks().len() implies (
        #[trigger] manager.tasks()[i]).memory_set.owns_frames(memory) by {
            assert(old(manager).tasks()[i].memory_set.owns_frames(memory));
        }
    }
    sys_trace(manager, memory, trace_request, id, data)
}

/// Protection of memory that `mmap` maps: bit 0 to read, bit 1 to write, bit 2
/// to execute.
#[derive(Clone, Copy, Debug, PartialEq, Eq, Structural)]
pub struct MmapProt {
    /// The bits.
    pub bits: usize,
}

/// No access.
pub const PROT_NONE: usize = 0;

/// Read access.
pub const PROT_READ: usize = 1;

/// Write access.
pub const PROT_WRITE: usize = 2;

/// Access to execute.
pub const PROT_EXEC: usize = 4;

impl MmapProt {
    /// The protection with these bits; `None` if one of them has no meaning.
    pub fn from_bits(bits: usize) -> (prot: Option<MmapProt>)
        ensures
            prot == if bits < 8 {
                Some(MmapProt { bits })
            } else {
                None
            },
    {
        assert((bits & !(1usize | 2usize | 4usize) == 0) == (bits < 8)) by (bit_vector);
        if bits & !(PROT_READ | PROT_WRITE | PROT_EXEC) == 0 {
            Some(MmapProt { bits })
        } else {
            None
        }
    }

    /// Whether all bits of `flag` are set.
    pub fn contains(&self, flag: usize) -> (b: bool)
        ensures
            b == (self.bits & flag == flag),
    {
        self.bits & flag == flag
    }
}

/// What the protection bits `prot` let the kernel do.
pub open spec fn permission_of(prot: usize) -> MapPermission {
    MapPermission { r: prot % 2 == 1, w: prot / 2 % 2 == 1, x: prot / 4 % 2 == 1, u: false }
}

impl From<MmapProt> for MapPermission {
    fn from(prot: MmapProt) -> (permission: MapPermission) {
        let mut permission: MapPermission = MapPermission::empty();
        if prot.contains(PROT_READ) {
            permission.r = true;
        }
        if prot.contains(PROT_WRITE) {
            permission.w = true;
        }
        if prot.contains(PROT_EXEC) {
            permission.x = true;
        }
        proof {
            let bits = prot.bits;
            assert((bits & 1 == 1) == (bits % 2 == 1)) by (bit_vector);
            assert((bits & 2 == 2) == (bits / 2 % 2 == 1)) by (bit_vector);
            assert((bits & 4 == 4) == (bits / 4 % 2 == 1)) by (bit_vector);
        }
        permission
    }
}

impl vstd::std_specs::convert::FromSpecImpl<MmapProt> for MapPermission {
    open spec fn obeys_from_spec() -> bool {
        true
    }

    open spec fn from_spec(prot: MmapProt) -> MapPermission {
        permission_of(prot.bits)
    }
}

/// The first page of the area that starts at `start`.
pub open spec fn area_lo(start: usize) -> int {
    va(start) / PAGE_SIZE as int
}

/// The first page after the area of `len` bytes that starts at `start`.
pub open spec fn area_hi(start: usize, len: usize) -> int {
    (va((start + len) as usize) + PAGE_SIZE as int - 1) / PAGE_SIZE as int
}

/// `mmap` takes these arguments: the area starts at a page, and the protection
/// has a meaning and allows something.
pub open spec fn mmap_valid(start: usize, prot: usize) -> bool {
    start % PAGE_SIZE == 0 && 0 < prot < 8
}

/// One call of `sys_mmap`.
pub open spec fn mmap_step(
    before: &TaskManager,
    memory0: &Memory,
    after: &TaskManager,
    memory1: &Memory,
    start: usize,
    len: usize,
    prot: usize,
    r: isize,
) -> bool {
    let set0 = before.tasks()[before.current()].memory_set;
    let set1 = after.tasks()[before.current()].memory_set;
    let lo = area_lo(start);
    let hi = area_hi(start, len);
    &&& before.only_memory_changed(after)
    &&& if mmap_valid(start, prot) && set0.clear(lo, hi) {
        &&& r == 0
        &&& page_count(lo, hi) <= memory0.free().len()
        &&& set0.area_mapped(
            memory0,
            &set1,
            memory1,
            lo,
            hi,
            permission_of(prot).with_user_spec(),
        )
    } else {
        &&& r == -1
        &&& after.tasks() == before.tasks()
        &&& *memory1 == *memory0
    }
}

/// Maps `len` bytes, widened to whole pages, at `start` in the memory of the
/// current task. Returns 0; or -1, with nothing changed, if the arguments are
/// not valid or a page of the area is mapped already.
pub fn sys_mmap(
    manager: &mut TaskManager,
    memory: &mut Memory,
    start: usize,
    len: usize,
    prot: usize,
) -> (r: isize)
    requires
        old(manager).consistent(old(memory)),
        mmap_valid(start, prot) ==> start + len <= usize::MAX,
        mmap_valid(start, prot) && old(manager).tasks()[old(manager).current()].memory_set.clear(
            area_lo(start),
            area_hi(start, len),
        ) ==> page_count(area_lo(start), area_hi(start, len)) <= old(memory).free().len(),
    ensures
        final(manager).consistent(final(memory)),
        old(manager).only_memory_changed(final(manager)),
        r == 0 || r == -1,
        r == 0 <==> mmap_valid(start, prot) && old(manager).tasks()[old(
            manager,
        ).current()].memory_set.clear(area_lo(start), area_hi(start, len)),
        r == 0 ==> old(manager).tasks()[old(manager).current()].memory_set.area_mapped(
            old(memory),
            &final(manager).tasks()[old(manager).current()].memory_set,
            final(memory),
            area_lo(start),
            area_hi(start, len),
            permission_of(prot).with_user_spec(),
        ),
        r == -1 ==> final(manager).tasks() == old(manager).tasks() && *final(memory) == *old(memory),
        mmap_step(
            old(manager),
            old(memory),
            final(manager),
            final(memory),
            start,
            len,
            prot,
            r,
        ),
{
    proof {
        let tasks = manager.tasks();
        assert(tasks =~= tasks.update(manager.current(), tasks[manager.current()]));
    }
    let protection: MmapProt = match MmapProt::from_bits(prot) {
        Some(protection) => protection,
        None => {
            return -1;
        },
    };
    if protection.bits == PROT_NONE {
        return -1;
    }
    if start % PAGE_SIZE != 0 {
        return -1;
    }
    let start_va: VirtAddr = VirtAddr::from(start);
    let end_va: VirtAddr = VirtAddr::from(start + len);
    match manager.mmap(memory, start_va, end_va, MapPermission::from(protection)) {
        Ok(_) => 0,
        Err(_) => -1,
    }
}

/// One call of `sys_munmap`.
pub open spec fn munmap_step(
    before: &TaskManager,
    memory0: &Memory,
    after: &TaskManager,
    memory1: &Memory,
    start: usize,
    len: usize,
    r: isize,
) -> bool {
    let set0 = before.tasks()[before.current()].memory_set;
    let set1 = after.tasks()[before.current()].memory_set;
    let lo = area_lo(start);
    let hi = area_hi(start, len);
    &&& before.only_memory_changed(after)
    &&& if start % PAGE_SIZE == 0 && len % PAGE_SIZE == 0 && set0.removable(lo, hi) {
        &&& r == 0
        &&& set0.area_unmapped(memory0, &set1, memory1, lo, hi)
    } else {
        &&& r == -1
        &&& after.tasks() == before.tasks()
        &&& *memory1 == *memory0
    }
}

/// Unmaps `len` bytes at `start` in the memory of the current task. Returns 0;
/// or -1, with nothing changed, if the area does not consist of whole pages or
/// the entry of one of its pages is empty.
pub fn sys_munmap(manager: &mut TaskManager, memory: &mut Memory, start: usize, len: usize) -> (r:
    isize)
    requires
        old(manager).consistent(old(memory)),
        start % PAGE_SIZE == 0 && len % PAGE_SIZE == 0 ==> start + len <= usize::MAX,
    ensures
        final(manager).consistent(final(memory)),
        old(manager).only_memory_changed(final(manager)),
        r == 0 || r == -1,
        r == 0 <==> start % PAGE_SIZE == 0 && len % PAGE_SIZE == 0 && old(manager).tasks()[old(
            manager,
        ).current()].memory_set.removable(area_lo(start), area_hi(start, len)),
        r == 0 ==> old(manager).tasks()[old(manager).current()].memory_set.area_unmapped(
            old(memory),
            &final(manager).tasks()[old(manager).current()].memory_set,
            final(memory),
            area_lo(start),
            area_hi(start, len),
        ),
        r == -1 ==> final(manager).tasks() == old(manager).tasks() && *final(memory) == *old(memory),
        munmap_step(
            old(manager),
            old(memory),
            final(manager),
            final(memory),
            start,
            len,
            r,
        ),
{
    proof {
        let tasks = manager.tasks();
        assert(tasks =~= tasks.update(manager.current(), tasks[manager.current()]));
    }
    if start % PAGE_SIZE != 0 || len % PAGE_SIZE != 0 {
        return -1;
    }
    let start_va: VirtAddr = VirtAddr::from(start);
    let end_va: VirtAddr = VirtAddr::from(start + len);
    match manager.unmap(memory, start_va, end_va) {
        Ok(_) => 0,
        Err(_) => -1,
    }
}

/// One call of `sys_sbrk`.
pub open spec fn sbrk_step(
    before: &TaskManager,
    memory0: &Memory,
    after: &TaskManager,
    memory1: &Memory,
    size: i32,
    r: isize,
) -> bool {
    let task0 = before.tasks()[before.current()];
    let task1 = after.tasks()[before.current()];
    &&& before.only_current_changed(after)
    &&& if task0.brk_allowed(memory0, size) {
        &&& r == task0.program_brk as isize
        &&& task0.brk_moved(memory0, &task1, memory1, size)
    } else {
        &&& r == -1
        &&& after.tasks() == before.tasks()
        &&& *memory1 == *memory0
    }
}

/// Changes the size of the data segment by `size` bytes. Returns where the
/// program break was; or -1, with nothing changed, if it cannot move so.
pub fn sys_sbrk(manager: &mut TaskManager, memory: &mut Memory, size: i32) -> (r: isize)
    requires
        old(manager).consistent(old(memory)),
    ensures
        final(manager).consistent(final(memory)),
        old(manager).only_current_changed(final(manager)),
        if old(manager).tasks()[old(manager).current()].brk_allowed(old(memory), size) {
            &&& r == old(manager).tasks()[old(manager).current()].program_brk as isize
            &&& old(manager).tasks()[old(manager).current()].brk_moved(
                old(memory),
                &final(manager).tasks()[old(manager).current()],
                final(memory),
                size,
            )
        } else {
            &&& r == -1
            &&& final(manager).tasks() == old(manager).tasks()
            &&& *final(memory) == *old(memory)
        },
        sbrk_step(old(manager), old(memory), final(manager), final(memory), size, r),
{
    match change_program_brk(manager, memory, size) {
        Some(old_brk) => old_brk as isize,
        None => -1,
    }
}

} // verus!
