//! What holds across the operations of the kernel.
use vstd::prelude::*;

use crate::config::{PAGE_SIZE, VA_SPACE};
use crate::mm::address::{page_of, va};
use crate::mm::frame_allocator::Memory;
use crate::mm::memory_set::{
    frames_of, lemma_frames_of_contains, page_count, with_area, with_cleared, MemorySet,
};
use crate::mm::page_table::{MapPermission, PageTable, PageTableEntry};
use crate::mm::user_data::ToBytes;
use crate::syscall::process::{area_hi, area_lo, permission_of, time_val, TimeVal};
use crate::task::task::{brk_page, heap_permission, TaskControlBlock, TaskStatus};
use crate::task::{
    exited, exited_with, is_next_ready, lemma_successor, rescheduled, successor, suspended,
    ContextSwitch, TaskManager,
};

verus! {

/// Tasks without any memory fit every memory.
pub proof fn law_fresh_tasks_are_consistent(manager: &TaskManager, memory: &Memory)
    requires
        manager.wf(),
        memory.wf(),
        forall|i: int|
            0 <= i < manager.tasks().len() ==> (#[trigger] manager.tasks()[i]).memory_set.mappings()
                == Map::<usize, PageTableEntry>::empty(),
    ensures
        manager.consistent(memory),
{
}

/// Once an area is mapped, user mode can read each of its bytes exactly if the
/// protection has the read bit, write it exactly if it has the write bit, and
/// execute it exactly if it has the bit for that.
pub proof fn law_mapped_area_is_usable(
    before: &MemorySet,
    memory0: &Memory,
    after: &MemorySet,
    memory1: &Memory,
    start: usize,
    len: usize,
    prot: usize,
    word: usize,
)
    requires
        start + len <= usize::MAX,
        va(start) + len < VA_SPACE,
        start <= word < start + len,
        before.area_mapped(
            memory0,
            after,
            memory1,
            area_lo(start),
            area_hi(start, len),
            permission_of(prot).with_user_spec(),
        ),
    ensures
        after.page_table.user_readable(word) == (prot % 2 == 1),
        after.page_table.user_writable(word) == (prot / 2 % 2 == 1),
        after.page_table.user_executable(word) == (prot / 4 % 2 == 1),
{
    lemma_va_offset(start, word - start);
    lemma_va_offset(start, len as int);
    assert(area_lo(start) <= page_of(va(word)) < area_hi(start, len));
    assert(after.page_table.mapped(page_of(va(word))));
}

/// Inside the address space, addresses advance with the words that name them.
proof fn lemma_va_offset(word: usize, n: int)
    requires
        0 <= n,
        word + n <= usize::MAX,
        va(word) + n < VA_SPACE,
    ensures
        va((word + n) as usize) == va(word) + n,
{
}

/// A freshly mapped page holds zeros.
pub proof fn law_mapped_area_is_zero(
    before: &MemorySet,
    memory0: &Memory,
    after: &MemorySet,
    memory1: &Memory,
    lo: int,
    hi: int,
    permission: MapPermission,
    a: int,
)
    requires
        memory0.wf(),
        0 <= a < VA_SPACE,
        lo <= page_of(a) < hi,
        page_count(lo, hi) <= memory0.free().len(),
        before.area_mapped(memory0, after, memory1, lo, hi, permission),
    ensures
        memory1.bytes()[after.page_table.phys(a)] == 0,
{
    let free = memory0.free();
    let n = page_count(lo, hi);
    let k = free.len() - 1 - (page_of(a) - lo);
    let ppn = after.page_table.frame(page_of(a));
    assert(after.mappings().contains_key(page_of(a)));
    assert(ppn == free[k]);
    assert(free.skip(free.len() - n)[k - (free.len() - n)] == ppn);
    assert(memory0.usable(ppn));
    assert(after.page_table.phys(a) / PAGE_SIZE as int == ppn);
}

/// An area that shares a page with a mapped one cannot be mapped.
pub proof fn law_mapped_area_cannot_be_mapped_again(
    before: &MemorySet,
    memory0: &Memory,
    after: &MemorySet,
    memory1: &Memory,
    lo: int,
    hi: int,
    permission: MapPermission,
    lo2: int,
    hi2: int,
    page: usize,
)
    requires
        before.area_mapped(memory0, after, memory1, lo, hi, permission),
        lo <= page < hi,
        lo2 <= page < hi2,
    ensures
        !after.clear(lo2, hi2),
{
    assert(after.page_table.mapped(page));
}

/// Unmapping an area that was mapped just before is allowed, and undoes it: the
/// same pages are mapped to the same frames as at first, and the same frames
/// are free.
pub proof fn law_unmap_undoes_map(
    set0: &MemorySet,
    memory0: &Memory,
    set1: &MemorySet,
    memory1: &Memory,
    set2: &MemorySet,
    memory2: &Memory,
    lo: int,
    hi: int,
    permission: MapPermission,
)
    requires
        0 <= lo,
        hi <= usize::MAX,
        set0.clear(lo, hi),
        page_count(lo, hi) <= memory0.free().len(),
        set0.area_mapped(memory0, set1, memory1, lo, hi, permission),
    ensures
        set1.removable(lo, hi),
        set1.area_unmapped(memory1, set2, memory2, lo, hi) ==> {
            &&& set2.mappings() == set0.mappings()
            &&& memory2.free().len() == memory0.free().len()
            &&& forall|ppn: usize| memory2.free().contains(ppn) <==> memory0.free().contains(ppn)
        },
{
    let free = memory0.free();
    let n = page_count(lo, hi);
    assert forall|v: usize| lo <= v < hi implies (#[trigger] set1.page_table.walk(v) matches Some(
        pte,
    ) ==> pte.valid) by {
        assert(set1.page_table.mapped(v));
    }
    if set1.area_unmapped(memory1, set2, memory2, lo, hi) {
        assert forall|v: usize| #[trigger] set0.mappings().contains_key(v) implies !(lo <= v < hi) by {
            assert(set0.page_table.mapped(v));
        }
        assert(set2.mappings() =~= set0.mappings());
        let back = frames_of(set1.mappings(), lo, hi);
        lemma_frames_of_full(set1.mappings(), lo, hi);
        assert forall|ppn: usize| memory2.free().contains(ppn) <==> free.contains(ppn) by {
            lemma_frames_of_contains(set1.mappings(), lo, hi, ppn);
            if free.contains(ppn) {
                let k = free.index_of(ppn);
                if k < free.len() - n {
                    assert(memory2.free()[k] == ppn);
                } else {
                    let v = (lo + (free.len() - 1 - k)) as usize;
                    assert(set1.mappings().contains_key(v));
                    assert(set1.mappings()[v].ppn == ppn);
                    let j = back.index_of(ppn);
                    assert(memory2.free()[free.len() - n + j] == ppn);
                }
            }
            if memory2.free().contains(ppn) {
                let k = memory2.free().index_of(ppn);
                if k < free.len() - n {
                    assert(free[k] == ppn);
                } else {
                    assert(back[k - (free.len() - n)] == ppn);
                    let v = choose|v: usize|
                        lo <= v < hi && #[trigger] set1.mappings().contains_key(v)
                            && set1.mappings()[v].ppn == ppn;
                    assert(free[free.len() - 1 - (v - lo)] == ppn);
                }
            }
        }
    }
}

/// An area that is mapped throughout has one frame for each page.
proof fn lemma_frames_of_full(mappings: Map<usize, PageTableEntry>, lo: int, hi: int)
    requires
        0 <= lo,
        hi <= usize::MAX,
        forall|v: usize| lo <= v < hi ==> #[trigger] mappings.contains_key(v),
    ensures
        frames_of(mappings, lo, hi).len() == page_count(lo, hi),
    decreases hi - lo,
{
    if lo < hi {
        assert(mappings.contains_key((hi - 1) as usize));
        lemma_frames_of_full(mappings, lo, hi - 1);
    }
}

/// Once an area is unmapped, user mode can neither read nor write its bytes.
pub proof fn law_unmapped_area_is_unusable(
    before: &MemorySet,
    memory0: &Memory,
    after: &MemorySet,
    memory1: &Memory,
    start: usize,
    len: usize,
    word: usize,
)
    requires
        start + len <= usize::MAX,
        va(start) + len < VA_SPACE,
        start <= word < start + len,
        before.area_unmapped(memory0, after, memory1, area_lo(start), area_hi(start, len)),
    ensures
        !after.page_table.user_readable(word),
        !after.page_table.user_writable(word),
{
    lemma_va_offset(start, word - start);
    lemma_va_offset(start, len as int);
    assert(area_lo(start) <= page_of(va(word)) < area_hi(start, len));
    assert(!after.page_table.mapped(page_of(va(word))));
}

/// Mapping an area changes neither the mapping nor the contents of a page that
/// was mapped before.
pub proof fn law_map_keeps_other_pages(
    before: &MemorySet,
    memory0: &Memory,
    after: &MemorySet,
    memory1: &Memory,
    lo: int,
    hi: int,
    permission: MapPermission,
    a: int,
)
    requires
        memory0.wf(),
        before.owns_frames(memory0),
        before.clear(lo, hi),
        page_count(lo, hi) <= memory0.free().len(),
        before.area_mapped(memory0, after, memory1, lo, hi, permission),
        0 <= a < VA_SPACE,
        before.page_table.mapped(page_of(a)),
    ensures
        after.page_table.walk(page_of(a)) == before.page_table.walk(page_of(a)),
        memory1.bytes()[after.page_table.phys(a)] == memory0.bytes()[before.page_table.phys(a)],
{
    assert(after.page_table.mapped(page_of(a)));
    lemma_clearing_spares(memory0, memory1, page_count(lo, hi), before.page_table.phys(a));
}

/// Clearing free frames leaves the bytes of the others as they are.
proof fn lemma_clearing_spares(memory0: &Memory, memory1: &Memory, n: int, p: int)
    requires
        memory0.wf(),
        0 <= n <= memory0.free().len(),
        memory1.bytes() == with_cleared(memory0.bytes(), memory0.free(), n),
        0 <= p < memory0.bytes().len(),
        !memory0.free().contains((p / PAGE_SIZE as int) as usize),
    ensures
        memory1.bytes()[p] == memory0.bytes()[p],
{
    let free = memory0.free();
    let f = (p / PAGE_SIZE as int) as usize;
    let taken = free.skip(free.len() - n);
    if taken.contains(f) {
        let k = taken.index_of(f);
        assert(free[free.len() - n + k] == f);
    }
}

/// Unmapping an area changes neither the mapping nor the contents of a page
/// outside it.
pub proof fn law_unmap_keeps_other_pages(
    before: &MemorySet,
    memory0: &Memory,
    after: &MemorySet,
    memory1: &Memory,
    lo: int,
    hi: int,
    a: int,
)
    requires
        before.area_unmapped(memory0, after, memory1, lo, hi),
        0 <= a < VA_SPACE,
        !(lo <= page_of(a) < hi),
    ensures
        after.page_table.walk(page_of(a)) == before.page_table.walk(page_of(a)),
        before.page_table.mapped(page_of(a)) ==> memory1.bytes()[after.page_table.phys(a)]
            == memory0.bytes()[before.page_table.phys(a)],
{
    assert(after.page_table.mapped(page_of(a)) == before.page_table.mapped(page_of(a)));
}

/// What is written to user memory is read back, be it within a page or across
/// pages.
pub proof fn law_read_gives_back_write(
    table: &PageTable,
    before: Seq<u8>,
    after: Seq<u8>,
    a: int,
    data: Seq<u8>,
)
    requires
        table.written(before, after, a, data),
    ensures
        table.contents(after, a, data.len()) == data,
{
    assert forall|i: int| 0 <= i < data.len() implies #[trigger] table.contents(
        after,
        a,
        data.len(),
    )[i] == data[i] by {
        assert(after[table.phys(a + i)] == data[a + i - a]);
    }
    assert(table.contents(after, a, data.len()) =~= data);
}

/// A byte that was written through the `trace` call is read back through it.
pub proof fn law_trace_reads_back(
    table: &PageTable,
    before: Seq<u8>,
    after: Seq<u8>,
    id: usize,
    byte: u8,
)
    requires
        table.written(before, after, va(id), seq![byte]),
    ensures
        after[table.phys(va(id))] == byte,
{
}

/// A write to user memory leaves the task's other bytes as they are.
pub proof fn law_write_keeps_other_bytes(
    table: &PageTable,
    memory: &Memory,
    after: Seq<u8>,
    a: int,
    data: Seq<u8>,
    b: int,
)
    requires
        table.wf(),
        table.backed(memory, a, data.len()),
        table.written(memory.bytes(), after, a, data),
        table.backed(memory, b, 1),
        !(a <= b < a + data.len()),
    ensures
        after[table.phys(b)] == memory.bytes()[table.phys(b)],
{
    assert(table.mapped(page_of(b)));
    assert forall|c: int| a <= c < a + data.len() implies #[trigger] table.phys(c) != table.phys(
        b,
    ) by {
        assert(table.mapped(page_of(c)));
        if table.phys(c) == table.phys(b) {
            table.lemma_phys_injective(c, b);
        }
    }
}

/// A write to the memory of one task changes no byte of another task and none
/// of the kernel.
pub proof fn law_write_is_isolated(
    manager: &TaskManager,
    memory: &Memory,
    after: Seq<u8>,
    writer: int,
    a: int,
    data: Seq<u8>,
)
    requires
        manager.consistent(memory),
        0 <= writer < manager.tasks().len(),
        manager.tasks()[writer].memory_set.page_table.backed(memory, a, data.len()),
        manager.tasks()[writer].memory_set.page_table.written(memory.bytes(), after, a, data),
    ensures
        forall|i: int, b: int|
            #![trigger manager.tasks()[i].memory_set.page_table.phys(b)]
            0 <= i < manager.tasks().len() && i != writer && 0 <= b < VA_SPACE
                && manager.tasks()[i].memory_set.page_table.mapped(page_of(b))
                ==> after[manager.tasks()[i].memory_set.page_table.phys(b)]
                == memory.bytes()[manager.tasks()[i].memory_set.page_table.phys(b)],
        forall|p: int|
            0 <= p < memory.reserved() * PAGE_SIZE ==> #[trigger] after[p] == memory.bytes()[p],
{
    let table = manager.tasks()[writer].memory_set.page_table;
    assert(manager.tasks()[writer].memory_set.owns_frames(memory));
    assert forall|i: int, b: int|
        #![trigger manager.tasks()[i].memory_set.page_table.phys(b)]
        0 <= i < manager.tasks().len() && i != writer && 0 <= b < VA_SPACE
            && manager.tasks()[i].memory_set.page_table.mapped(
            page_of(b),
        ) implies after[manager.tasks()[i].memory_set.page_table.phys(b)]
        == memory.bytes()[manager.tasks()[i].memory_set.page_table.phys(b)] by {
        let p = manager.tasks()[i].memory_set.page_table.phys(b);
        assert(manager.tasks()[i].memory_set.owns_frames(memory));
        assert forall|c: int| a <= c < a + data.len() implies #[trigger] table.phys(c) != p by {
            assert(table.mapped(page_of(c)));
        }
    }
    assert forall|p: int| 0 <= p < memory.reserved() * PAGE_SIZE implies #[trigger] after[p]
        == memory.bytes()[p] by {
        assert forall|c: int| a <= c < a + data.len() implies #[trigger] table.phys(c) != p by {
            assert(table.mapped(page_of(c)));
            assert(memory.usable(table.frame(page_of(c))));
        }
    }
}

/// When memory of the current task is mapped, the other tasks keep their bytes.
pub proof fn law_map_is_isolated(
    before: &TaskManager,
    memory0: &Memory,
    after: &TaskManager,
    memory1: &Memory,
    lo: int,
    hi: int,
    permission: MapPermission,
    i: int,
    a: int,
)
    requires
        before.consistent(memory0),
        before.only_current_changed(after),
        page_count(lo, hi) <= memory0.free().len(),
        before.tasks()[before.current()].memory_set.area_mapped(
            memory0,
            &after.tasks()[before.current()].memory_set,
            memory1,
            lo,
            hi,
            permission,
        ),
        0 <= i < before.tasks().len(),
        i != before.current(),
        0 <= a < VA_SPACE,
        before.tasks()[i].memory_set.page_table.mapped(page_of(a)),
    ensures
        after.tasks()[i] == before.tasks()[i],
        memory1.bytes()[before.tasks()[i].memory_set.page_table.phys(a)]
            == memory0.bytes()[before.tasks()[i].memory_set.page_table.phys(a)],
{
    assert(before.tasks()[i].memory_set.owns_frames(memory0));
    lemma_clearing_spares(
        memory0,
        memory1,
        page_count(lo, hi),
        before.tasks()[i].memory_set.page_table.phys(a),
    );
}

/// A page of some task stands on frame `ppn`.
pub open spec fn in_use(manager: &TaskManager, ppn: usize) -> bool {
    exists|i: int, v: usize|
        {
            &&& 0 <= i < manager.tasks().len()
            &&& #[trigger] manager.tasks()[i].memory_set.page_table.mapped(v)
            &&& manager.tasks()[i].memory_set.page_table.frame(v) == ppn
        }
}

/// Every frame that does not hold the kernel is free or in use.
pub open spec fn no_frame_lost(manager: &TaskManager, memory: &Memory) -> bool {
    forall|ppn: usize|
        #![trigger memory.free().contains(ppn)]
        memory.usable(ppn) && !memory.free().contains(ppn) ==> in_use(manager, ppn)
}

/// Mapping memory of the current task loses no frame.
pub proof fn law_map_loses_no_frame(
    before: &TaskManager,
    memory0: &Memory,
    after: &TaskManager,
    memory1: &Memory,
    lo: int,
    hi: int,
    permission: MapPermission,
)
    requires
        before.consistent(memory0),
        no_frame_lost(before, memory0),
        before.only_current_changed(after),
        0 <= lo,
        hi <= usize::MAX,
        before.tasks()[before.current()].memory_set.clear(lo, hi),
        page_count(lo, hi) <= memory0.free().len(),
        before.tasks()[before.current()].memory_set.area_mapped(
            memory0,
            &after.tasks()[before.current()].memory_set,
            memory1,
            lo,
            hi,
            permission,
        ),
    ensures
        no_frame_lost(after, memory1),
{
    let cur = before.current();
    let free = memory0.free();
    assert forall|ppn: usize|
        #![trigger memory1.free().contains(ppn)]
        memory1.usable(ppn) && !memory1.free().contains(ppn) implies in_use(after, ppn) by {
        if free.contains(ppn) {
            let k = free.index_of(ppn);
            if k < free.len() - page_count(lo, hi) {
                assert(memory1.free()[k] == ppn);
            }
            let v = (lo + (free.len() - 1 - k)) as usize;
            assert(after.tasks()[cur].memory_set.page_table.mapped(v));
        } else {
            let (i, v) = choose|i: int, v: usize|
                {
                    &&& 0 <= i < before.tasks().len()
                    &&& #[trigger] before.tasks()[i].memory_set.page_table.mapped(v)
                    &&& before.tasks()[i].memory_set.page_table.frame(v) == ppn
                };
            assert(after.tasks()[i].memory_set.page_table.mapped(v));
        }
    }
}

/// Unmapping memory of the current task loses no frame.
pub proof fn law_unmap_loses_no_frame(
    before: &TaskManager,
    memory0: &Memory,
    after: &TaskManager,
    memory1: &Memory,
    lo: int,
    hi: int,
)
    requires
        before.consistent(memory0),
        no_frame_lost(before, memory0),
        before.only_current_changed(after),
        0 <= lo,
        hi <= usize::MAX,
        before.tasks()[before.current()].memory_set.area_unmapped(
            memory0,
            &after.tasks()[before.current()].memory_set,
            memory1,
            lo,
            hi,
        ),
    ensures
        no_frame_lost(after, memory1),
{
    let cur = before.current();
    let mappings = before.tasks()[cur].memory_set.mappings();
    assert forall|ppn: usize|
        #![trigger memory1.free().contains(ppn)]
        memory1.usable(ppn) && !memory1.free().contains(ppn) implies in_use(after, ppn) by {
        if memory0.free().contains(ppn) {
            let k = memory0.free().index_of(ppn);
            assert(memory1.free()[k] == ppn);
        }
        let (i, v) = choose|i: int, v: usize|
            {
                &&& 0 <= i < before.tasks().len()
                &&& #[trigger] before.tasks()[i].memory_set.page_table.mapped(v)
                &&& before.tasks()[i].memory_set.page_table.frame(v) == ppn
            };
        if i == cur && lo <= v < hi {
            assert(mappings.contains_key(v));
            lemma_frames_of_contains(mappings, lo, hi, ppn);
            let k = frames_of(mappings, lo, hi).index_of(ppn);
            assert(memory1.free()[memory0.free().len() + k] == ppn);
        }
        assert(after.tasks()[i].memory_set.page_table.mapped(v));
    }
}

/// Seconds and microseconds make up the time, and the microseconds are less
/// than a second.
pub proof fn law_time_is_whole(now: usize)
    ensures
        time_val(now).sec * 1_000_000 + time_val(now).usec == now,
        time_val(now).usec < 1_000_000,
{
}

/// The sixteen bytes of a time determine it.
pub proof fn law_time_bytes_determine_time(x: TimeVal, y: TimeVal)
    requires
        x.bytes() == y.bytes(),
    ensures
        x.bytes().len() == 16,
        x == y,
{
    vstd::bytes::lemma_auto_spec_u64_to_from_le_bytes();
    let xs = vstd::bytes::spec_u64_to_le_bytes(x.sec as u64);
    let xu = vstd::bytes::spec_u64_to_le_bytes(x.usec as u64);
    let ys = vstd::bytes::spec_u64_to_le_bytes(y.sec as u64);
    let yu = vstd::bytes::spec_u64_to_le_bytes(y.usec as u64);
    assert(xs =~= x.bytes().take(8));
    assert(ys =~= y.bytes().take(8));
    assert(xu =~= x.bytes().skip(8));
    assert(yu =~= y.bytes().skip(8));
    assert(vstd::bytes::spec_u64_from_le_bytes(xs) == x.sec as u64);
    assert(vstd::bytes::spec_u64_from_le_bytes(ys) == y.sec as u64);
    assert(vstd::bytes::spec_u64_from_le_bytes(xu) == x.usec as u64);
    assert(vstd::bytes::spec_u64_from_le_bytes(yu) == y.usec as u64);
}

/// `tasks` are the tasks of `before` once the current one has given up the
/// processor: it is suspended, or it has ended, with an exit code or without.
pub open spec fn gave_up_processor(before: &TaskManager, tasks: Seq<TaskControlBlock>) -> bool {
    ||| tasks == suspended(before.tasks(), before.current())
    ||| tasks == exited(before.tasks(), before.current())
    ||| exists|code: i32| tasks == #[trigger] exited_with(before.tasks(), before.current(), code)
}

/// No task but the current one is running.
pub open spec fn only_current_runs(manager: &TaskManager) -> bool {
    forall|i: int|
        0 <= i < manager.tasks().len() && (#[trigger] manager.tasks()[i]).status
            == TaskStatus::Running ==> i == manager.current()
}

/// Yielding and exiting keep it so that no task but the current one is running.
pub proof fn law_one_task_runs(
    before: &TaskManager,
    tasks: Seq<TaskControlBlock>,
    after: &TaskManager,
    switch: Option<ContextSwitch>,
)
    requires
        before.wf(),
        only_current_runs(before),
        gave_up_processor(before, tasks),
        rescheduled(before, tasks, after, switch),
    ensures
        only_current_runs(after),
        switch is Some ==> after.tasks()[after.current()].status == TaskStatus::Running,
{
    if switch is Some {
        lemma_next_in_range(before, tasks, switch->0.load as int);
    }
}

/// The task that gets the processor exists.
proof fn lemma_next_in_range(before: &TaskManager, tasks: Seq<TaskControlBlock>, next: int)
    requires
        before.wf(),
        tasks.len() == before.tasks().len(),
        is_next_ready(tasks, before.current(), next),
    ensures
        0 <= next < before.tasks().len(),
{
    let n = before.tasks().len() as int;
    let k = choose|k: int| 1 <= k <= n && next == #[trigger] successor(before.current(), k, n);
    lemma_successor(before.current(), k, n);
}

/// Starting the first task keeps it so as well, if nothing was started before.
pub proof fn law_first_task_runs(before: &TaskManager, after: &TaskManager)
    requires
        before.wf(),
        before.current() == 0,
        only_current_runs(before),
        after.current() == before.current(),
        after.tasks() == before.tasks().update(
            0,
            before.tasks()[0].with_status(TaskStatus::Running),
        ),
    ensures
        only_current_runs(after),
        after.tasks()[after.current()].status == TaskStatus::Running,
{
    assert forall|i: int|
        0 <= i < after.tasks().len() && (#[trigger] after.tasks()[i]).status
            == TaskStatus::Running implies i == after.current() by {
        assert(i != 0 ==> before.tasks()[i].status == TaskStatus::Running);
    }
}

/// A task that has exited stays so, whatever the tasks do with the processor,
/// and keeps the exit code that it submitted.
pub proof fn law_exited_stays_exited(
    before: &TaskManager,
    tasks: Seq<TaskControlBlock>,
    after: &TaskManager,
    switch: Option<ContextSwitch>,
    i: int,
)
    requires
        before.wf(),
        gave_up_processor(before, tasks),
        rescheduled(before, tasks, after, switch),
        0 <= i < before.tasks().len(),
        before.tasks()[i].status == TaskStatus::Exited,
    ensures
        after.tasks()[i].status == TaskStatus::Exited,
        i != before.current() ==> after.tasks()[i].exit_code == before.tasks()[i].exit_code,
{
}

/// A task that exits with a code has ended, and the code is kept with it.
pub proof fn law_exit_code_is_kept(
    before: &TaskManager,
    after: &TaskManager,
    switch: Option<ContextSwitch>,
    exit_code: i32,
)
    requires
        before.wf(),
        rescheduled(
            before,
            exited_with(before.tasks(), before.current(), exit_code),
            after,
            switch,
        ),
    ensures
        after.tasks()[before.current()].status == TaskStatus::Exited,
        after.tasks()[before.current()].exit_code == Some(exit_code),
{
}

/// A running task that yields always leaves somebody to run, if only itself.
pub proof fn law_yield_finds_a_task(
    before: &TaskManager,
    after: &TaskManager,
    switch: Option<ContextSwitch>,
)
    requires
        before.wf(),
        before.tasks()[before.current()].status == TaskStatus::Running,
        rescheduled(before, suspended(before.tasks(), before.current()), after, switch),
    ensures
        switch is Some,
{
    let tasks = suspended(before.tasks(), before.current());
    assert(tasks[before.current()].status == TaskStatus::Ready);
}

/// How many steps ahead of task `from` task `to` is, in cyclic order.
pub open spec fn distance(from: int, to: int, n: int) -> int {
    if from < to {
        to - from
    } else {
        to - from + n
    }
}

/// Tasks take turns: whenever the processor changes hands, a ready task gets it
/// or is still ready and fewer steps away from its turn. So a yield passes over
/// no ready task, and no task waits for more than all the others.
pub proof fn law_ready_task_comes_closer(
    before: &TaskManager,
    tasks: Seq<TaskControlBlock>,
    after: &TaskManager,
    switch: ContextSwitch,
    i: int,
)
    requires
        before.wf(),
        tasks.len() == before.tasks().len(),
        rescheduled(before, tasks, after, Some(switch)),
        0 <= i < tasks.len(),
        tasks[i].status == TaskStatus::Ready,
    ensures
        after.current() == i || {
            &&& after.tasks()[i].status == TaskStatus::Ready
            &&& distance(after.current(), i, tasks.len() as int) < distance(
                before.current(),
                i,
                tasks.len() as int,
            )
        },
{
    let n = tasks.len() as int;
    let cur = before.current();
    let next = switch.load as int;
    let k = choose|k: int|
        {
            &&& 1 <= k <= n
            &&& next == #[trigger] successor(cur, k, n)
            &&& tasks[next].status == TaskStatus::Ready
            &&& forall|j: int|
                1 <= j < k ==> tasks[#[trigger] successor(cur, j, n)].status != TaskStatus::Ready
        };
    let d = distance(cur, i, n);
    lemma_successor(cur, k, n);
    lemma_successor(cur, d, n);
    assert(successor(cur, d, n) == i);
}

/// A task that yields while another one is ready loses the processor.
pub proof fn law_yield_prefers_others(
    before: &TaskManager,
    after: &TaskManager,
    switch: ContextSwitch,
    i: int,
)
    requires
        before.wf(),
        rescheduled(before, suspended(before.tasks(), before.current()), after, Some(switch)),
        0 <= i < before.tasks().len(),
        i != before.current(),
        before.tasks()[i].status == TaskStatus::Ready,
    ensures
        after.current() != before.current(),
{
    law_ready_task_comes_closer(
        before,
        suspended(before.tasks(), before.current()),
        after,
        switch,
        i,
    );
}

/// When the processor changes hands, tasks keep their memory.
pub proof fn law_switching_keeps_memory(
    before: &TaskManager,
    tasks: Seq<TaskControlBlock>,
    after: &TaskManager,
    switch: Option<ContextSwitch>,
    memory: &Memory,
)
    requires
        before.consistent(memory),
        after.wf(),
        gave_up_processor(before, tasks),
        rescheduled(before, tasks, after, switch),
    ensures
        after.consistent(memory),
        forall|i: int|
            0 <= i < before.tasks().len() ==> (#[trigger] after.tasks()[i]).memory_set
                == before.tasks()[i].memory_set,
{
    assert forall|i: int| 0 <= i < before.tasks().len() implies (
    #[trigger] after.tasks()[i]).memory_set == before.tasks()[i].memory_set by {}
    assert forall|i: int| 0 <= i < after.tasks().len() implies (
    #[trigger] after.tasks()[i]).memory_set.owns_frames(memory) by {
        assert(before.tasks()[i].memory_set.owns_frames(memory));
    }
}

/// Moving the program break by nothing is always allowed and changes nothing.
pub proof fn law_brk_by_zero(
    before: &TaskControlBlock,
    memory0: &Memory,
    after: &TaskControlBlock,
    memory1: &Memory,
)
    requires
        before.wf(),
    ensures
        before.brk_allowed(memory0, 0),
        before.brk_moved(memory0, after, memory1, 0) ==> {
            &&& after.program_brk == before.program_brk
            &&& after.memory_set.mappings() == before.memory_set.mappings()
            &&& memory1.bytes() == memory0.bytes()
            &&& memory1.free() == memory0.free()
        },
{
    let lo = brk_page(before.program_brk as int);
    let free = memory0.free();
    assert(with_area(before.memory_set.mappings(), lo, lo, free, heap_permission())
        =~= before.memory_set.mappings());
    assert(free.take(free.len() as int) =~= free);
    if before.brk_moved(memory0, after, memory1, 0) {
        assert(memory1.bytes() =~= memory0.bytes());
    }
}

/// Growing the heap and shrinking it by as much is allowed and restores the
/// program break, the mapped pages and the free frames.
pub proof fn law_shrink_undoes_growth(
    task0: &TaskControlBlock,
    memory0: &Memory,
    task1: &TaskControlBlock,
    memory1: &Memory,
    task2: &TaskControlBlock,
    memory2: &Memory,
    size: i32,
)
    requires
        task0.wf(),
        0 < size,
        task0.brk_allowed(memory0, size),
        task0.brk_moved(memory0, task1, memory1, size),
    ensures
        task1.brk_allowed(memory1, (-size) as i32),
        task1.brk_moved(memory1, task2, memory2, (-size) as i32) ==> {
            &&& task2.program_brk == task0.program_brk
            &&& task2.memory_set.mappings() == task0.memory_set.mappings()
            &&& forall|ppn: usize| memory2.free().contains(ppn) <==> memory0.free().contains(ppn)
        },
{
    law_unmap_undoes_map(
        &task0.memory_set,
        memory0,
        &task1.memory_set,
        memory1,
        &task2.memory_set,
        memory2,
        brk_page(task0.program_brk as int),
        brk_page(task0.program_brk + size),
        heap_permission(),
    );
}

} // verus!
