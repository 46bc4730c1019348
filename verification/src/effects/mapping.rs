//! `mmap`, `munmap` and `sbrk`.
use vstd::prelude::*;
use vstd::std_specs::convert::FromSpec;

use crate::effects::memory::{
    law_area_mapped_frames, law_area_mapped_pages, law_area_unmapped_frames,
    law_area_unmapped_pages, law_consistent, law_user_access, law_walk,
};
use crate::mm::frame_allocator::Memory;
use crate::mm::page_table::MapPermission;
use crate::syscall::process::{mmap_step, munmap_step, permission_of, sbrk_step, MmapProt};
use crate::task::task::heap_permission;
use crate::task::TaskManager;

verus! {

/// The protection bits are what the permission says, and the permission says
/// nothing of user mode.
pub proof fn law_permission_of_protection(prot: MmapProt)
    requires
        prot.bits < 8,
    ensures
        ({
            let permission = MapPermission::from_spec(prot);
            &&& prot.bits == (if permission.r {
                1int
            } else {
                0
            }) + (if permission.w {
                2int
            } else {
                0
            }) + (if permission.x {
                4int
            } else {
                0
            })
            &&& !permission.u
        }),
{
}

/// `mmap` answers 0 or -1, and 0 exactly if the area starts at a page, the
/// protection is one of the seven that allow something, and no page that starts
/// in the area is mapped. With -1 nothing has changed.
pub proof fn law_mmap_answer(
    before: &TaskManager,
    memory0: &Memory,
    after: &TaskManager,
    memory1: &Memory,
    start: usize,
    len: usize,
    prot: usize,
    r: isize,
)
    requires
        before.wf(),
        start % 4096 == 0 && 1 <= prot <= 7 ==> start + len <= usize::MAX,
        mmap_step(before, memory0, after, memory1, start, len, prot, r),
    ensures
        r == 0 || r == -1,
        r == 0 <==> {
            &&& start % 4096 == 0
            &&& 1 <= prot <= 7
            &&& forall|v: usize|
                #![trigger before.tasks()[before.current()].memory_set.page_table.mappings().contains_key(v)]
                start as int % 0x80_0000_0000 <= v * 4096 && v * 4096 < (start + len)
                    % 0x80_0000_0000
                    ==> !before.tasks()[before.current()].memory_set.page_table.mappings().contains_key(v)
        },
        r == -1 ==> {
            &&& after.tasks() == before.tasks()
            &&& after.current() == before.current()
            &&& *memory1 == *memory0
        },
{
    let set0 = before.tasks()[before.current()].memory_set;
    assert forall|v: usize| #[trigger] set0.page_table.mapped(v)
        == set0.page_table.mappings().contains_key(v) by {}
    if start % 4096 == 0 && 1 <= prot <= 7 {
        let lo = start as int % 0x80_0000_0000 / 4096;
        let hi = ((start + len) % 0x80_0000_0000 + 4095) / 4096;
        if set0.clear(lo, hi) {
            assert forall|v: usize|
                #![trigger set0.page_table.mappings().contains_key(v)]
                start as int % 0x80_0000_0000 <= v * 4096 && v * 4096 < (start + len)
                    % 0x80_0000_0000 implies !set0.page_table.mappings().contains_key(v) by {
                assert(!set0.page_table.mapped(v));
            }
        } else {
            let v = choose|v: usize| lo <= v < hi && #[trigger] set0.page_table.mapped(v);
            assert(set0.page_table.mappings().contains_key(v));
        }
    }
}

/// After `mmap`, a page that starts in the area is mapped for user mode, with
/// exactly the accesses that the protection bits name, to a frame that was free,
/// is so no longer, and holds zeros. Any other page keeps its mapping.
pub proof fn law_mmap_pages(
    before: &TaskManager,
    memory0: &Memory,
    after: &TaskManager,
    memory1: &Memory,
    start: usize,
    len: usize,
    prot: usize,
    v: usize,
)
    requires
        before.consistent(memory0),
        start + len <= usize::MAX,
        mmap_step(before, memory0, after, memory1, start, len, prot, 0),
    ensures
        ({
            let table0 = before.tasks()[before.current()].memory_set.page_table;
            let table1 = after.tasks()[before.current()].memory_set.page_table;
            let entry = table1.mappings()[v];
            if start as int % 0x80_0000_0000 <= v * 4096 && v * 4096 < (start + len)
                % 0x80_0000_0000 {
                &&& !table0.mappings().contains_key(v)
                &&& table1.mappings().contains_key(v)
                &&& entry.valid
                &&& entry.permission.u
                &&& prot == (if entry.permission.r {
                    1int
                } else {
                    0
                }) + (if entry.permission.w {
                    2int
                } else {
                    0
                }) + (if entry.permission.x {
                    4int
                } else {
                    0
                })
                &&& memory0.free().contains(entry.ppn)
                &&& !memory1.free().contains(entry.ppn)
                &&& forall|p: int|
                    #![trigger memory1.bytes()[p]]
                    entry.ppn * 4096 <= p < entry.ppn * 4096 + 4096 ==> memory1.bytes()[p] == 0
            } else {
                &&& table1.mappings().contains_key(v) == table0.mappings().contains_key(v)
                &&& entry == table0.mappings()[v] || !table0.mappings().contains_key(v)
            }
        }),
{
    let set0 = before.tasks()[before.current()].memory_set;
    let set1 = after.tasks()[before.current()].memory_set;
    let lo = start as int % 0x80_0000_0000 / 4096;
    let hi = ((start + len) % 0x80_0000_0000 + 4095) / 4096;
    law_area_mapped_pages(
        &set0,
        memory0,
        &set1,
        memory1,
        lo,
        hi,
        permission_of(prot).with_user_spec(),
        v,
    );
    assert(set0.page_table.mapped(v) == set0.page_table.mappings().contains_key(v));
}

/// `mmap` takes the frames of the new pages and no others, keeps the bytes of
/// frames that were not free, and changes nothing else: no other task, and of
/// the current one nothing but its mappings.
pub proof fn law_mmap_keeps_the_rest(
    before: &TaskManager,
    memory0: &Memory,
    after: &TaskManager,
    memory1: &Memory,
    start: usize,
    len: usize,
    prot: usize,
    ppn: usize,
    i: int,
)
    requires
        before.consistent(memory0),
        start + len <= usize::MAX,
        mmap_step(before, memory0, after, memory1, start, len, prot, 0),
        0 <= i < before.tasks().len(),
    ensures
        memory1.free().contains(ppn) ==> memory0.free().contains(ppn),
        memory0.free().contains(ppn) && !memory1.free().contains(ppn) ==> exists|v: usize|
            #![trigger after.tasks()[before.current()].memory_set.page_table.mappings()[v]]
            start as int % 0x80_0000_0000 <= v * 4096 && v * 4096 < (start + len) % 0x80_0000_0000
                && after.tasks()[before.current()].memory_set.page_table.mappings()[v].ppn == ppn,
        !memory0.free().contains(ppn) ==> forall|p: int|
            #![trigger memory1.bytes()[p]]
            0 <= p < memory0.bytes().len() && ppn * 4096 <= p < ppn * 4096 + 4096
                ==> memory1.bytes()[p] == memory0.bytes()[p],
        memory1.satp() == memory0.satp(),
        memory1.bytes().len() == memory0.bytes().len(),
        after.current() == before.current(),
        after.tasks().len() == before.tasks().len(),
        i != before.current() ==> after.tasks()[i] == before.tasks()[i],
        after.tasks()[i].status == before.tasks()[i].status,
        after.tasks()[i].syscall_times == before.tasks()[i].syscall_times,
        after.tasks()[i].heap_bottom == before.tasks()[i].heap_bottom,
        after.tasks()[i].program_brk == before.tasks()[i].program_brk,
        after.tasks()[i].trap_cx == before.tasks()[i].trap_cx,
        after.tasks()[i].exit_code == before.tasks()[i].exit_code,
        after.tasks()[i].memory_set.page_table.token()
            == before.tasks()[i].memory_set.page_table.token(),
{
    let set0 = before.tasks()[before.current()].memory_set;
    let set1 = after.tasks()[before.current()].memory_set;
    let lo = start as int % 0x80_0000_0000 / 4096;
    let hi = ((start + len) % 0x80_0000_0000 + 4095) / 4096;
    let permission = permission_of(prot).with_user_spec();
    law_area_mapped_frames(&set0, memory0, &set1, memory1, lo, hi, permission, ppn);
    if memory0.free().contains(ppn) && !memory1.free().contains(ppn) {
        let v = choose|v: usize|
            #![trigger set1.page_table.mappings()[v]]
            lo <= v < hi && set1.page_table.mappings()[v].ppn == ppn;
        assert(after.tasks()[before.current()].memory_set.page_table.mappings()[v].ppn == ppn);
    }
}

/// `munmap` answers 0 or -1, and 0 exactly if the area consists of whole pages
/// and each page of it that a leaf table has an entry for is mapped. With -1
/// nothing has changed.
pub proof fn law_munmap_answer(
    before: &TaskManager,
    memory0: &Memory,
    after: &TaskManager,
    memory1: &Memory,
    start: usize,
    len: usize,
    r: isize,
)
    requires
        before.wf(),
        start % 4096 == 0 && len % 4096 == 0 ==> start + len <= usize::MAX,
        munmap_step(before, memory0, after, memory1, start, len, r),
    ensures
        r == 0 || r == -1,
        r == 0 <==> {
            &&& start % 4096 == 0
            &&& len % 4096 == 0
            &&& forall|v: usize|
                #![trigger before.tasks()[before.current()].memory_set.page_table.mappings().contains_key(v)]
                start as int % 0x80_0000_0000 <= v * 4096 && v * 4096 < (start + len)
                    % 0x80_0000_0000 && before.tasks()[before.current()].memory_set.page_table.tables().contains(v / 512)
                    ==> before.tasks()[before.current()].memory_set.page_table.mappings().contains_key(v)
        },
        r == -1 ==> {
            &&& after.tasks() == before.tasks()
            &&& after.current() == before.current()
            &&& *memory1 == *memory0
        },
{
    let table0 = before.tasks()[before.current()].memory_set.page_table;
    assert(before.tasks()[before.current()].wf());
    assert forall|v: usize| #[trigger] table0.mapped(v) == table0.mappings().contains_key(v) by {}
    if start % 4096 == 0 && len % 4096 == 0 {
        let set0 = before.tasks()[before.current()].memory_set;
        let lo = start as int % 0x80_0000_0000 / 4096;
        let hi = ((start + len) % 0x80_0000_0000 + 4095) / 4096;
        if set0.removable(lo, hi) {
            assert forall|v: usize|
                #![trigger table0.mappings().contains_key(v)]
                start as int % 0x80_0000_0000 <= v * 4096 && v * 4096 < (start + len)
                    % 0x80_0000_0000 && table0.tables().contains(
                    v / 512,
                ) implies table0.mappings().contains_key(v) by {
                law_walk(&table0, v);
                assert(table0.walk(v) is Some);
            }
        } else {
            let v = choose|v: usize|
                lo <= v < hi && !(#[trigger] table0.walk(v) matches Some(pte) ==> pte.valid);
            law_walk(&table0, v);
            assert(!table0.mappings().contains_key(v));
        }
    }
}

/// After `munmap`, no page that starts in the area is mapped, and the frame
/// behind one that was is free. Any other page keeps its mapping, no other frame
/// becomes free, and memory holds what it held.
pub proof fn law_munmap_pages(
    before: &TaskManager,
    memory0: &Memory,
    after: &TaskManager,
    memory1: &Memory,
    start: usize,
    len: usize,
    v: usize,
    ppn: usize,
)
    requires
        before.consistent(memory0),
        start + len <= usize::MAX,
        munmap_step(before, memory0, after, memory1, start, len, 0),
    ensures
        ({
            let table0 = before.tasks()[before.current()].memory_set.page_table;
            let table1 = after.tasks()[before.current()].memory_set.page_table;
            if start as int % 0x80_0000_0000 <= v * 4096 && v * 4096 < (start + len)
                % 0x80_0000_0000 {
                &&& !table1.mappings().contains_key(v)
                &&& table0.mappings().contains_key(v) ==> memory1.free().contains(
                    table0.mappings()[v].ppn,
                )
            } else {
                &&& table1.mappings().contains_key(v) == table0.mappings().contains_key(v)
                &&& table1.mappings()[v] == table0.mappings()[v] || !table0.mappings().contains_key(
                    v,
                )
            }
        }),
        memory0.free().contains(ppn) ==> memory1.free().contains(ppn),
        memory1.free().contains(ppn) && !memory0.free().contains(ppn) ==> exists|w: usize|
            #![trigger before.tasks()[before.current()].memory_set.page_table.mappings().contains_key(w)]
            start as int % 0x80_0000_0000 <= w * 4096 && w * 4096 < (start + len) % 0x80_0000_0000
                && before.tasks()[before.current()].memory_set.page_table.mappings().contains_key(w)
                && before.tasks()[before.current()].memory_set.page_table.mappings()[w].ppn == ppn,
        memory1.bytes() == memory0.bytes(),
{
    let set0 = before.tasks()[before.current()].memory_set;
    let set1 = after.tasks()[before.current()].memory_set;
    let lo = start as int % 0x80_0000_0000 / 4096;
    let hi = ((start + len) % 0x80_0000_0000 + 4095) / 4096;
    law_area_unmapped_pages(&set0, memory0, &set1, memory1, lo, hi, v);
    law_area_unmapped_frames(&set0, memory0, &set1, memory1, lo, hi, ppn);
    if memory1.free().contains(ppn) && !memory0.free().contains(ppn) {
        let w = choose|w: usize|
            #![trigger set0.page_table.mappings().contains_key(w)]
            lo <= w < hi && set0.page_table.mappings().contains_key(w)
                && set0.page_table.mappings()[w].ppn == ppn;
        assert(before.tasks()[before.current()].memory_set.page_table.mappings().contains_key(w));
    }
}

/// `munmap` changes no other task, and of the current one nothing but its
/// mappings.
pub proof fn law_munmap_keeps_the_rest(
    before: &TaskManager,
    memory0: &Memory,
    after: &TaskManager,
    memory1: &Memory,
    start: usize,
    len: usize,
    r: isize,
    i: int,
)
    requires
        before.wf(),
        munmap_step(before, memory0, after, memory1, start, len, r),
        0 <= i < before.tasks().len(),
    ensures
        memory1.satp() == memory0.satp(),
        after.current() == before.current(),
        after.tasks().len() == before.tasks().len(),
        i != before.current() ==> after.tasks()[i] == before.tasks()[i],
        after.tasks()[i].status == before.tasks()[i].status,
        after.tasks()[i].syscall_times == before.tasks()[i].syscall_times,
        after.tasks()[i].heap_bottom == before.tasks()[i].heap_bottom,
        after.tasks()[i].program_brk == before.tasks()[i].program_brk,
        after.tasks()[i].trap_cx == before.tasks()[i].trap_cx,
        after.tasks()[i].exit_code == before.tasks()[i].exit_code,
        after.tasks()[i].memory_set.page_table.token()
            == before.tasks()[i].memory_set.page_table.token(),
        after.tasks()[i].memory_set.page_table.tables()
            == before.tasks()[i].memory_set.page_table.tables(),
{
}

// The program break

/// `sbrk` moves the break exactly if it stays between the bottom of the heap and
/// the end of the address space, no page that joins the heap is mapped, and
/// there is a free frame for each of them. It then answers with the old break,
/// and the break has moved by `size`; else it answers -1 and nothing has changed.
pub proof fn law_sbrk_answer(
    before: &TaskManager,
    memory0: &Memory,
    after: &TaskManager,
    memory1: &Memory,
    size: i32,
    r: isize,
)
    requires
        before.wf(),
        sbrk_step(before, memory0, after, memory1, size, r),
    ensures
        ({
            let task0 = before.tasks()[before.current()];
            let task1 = after.tasks()[before.current()];
            let old_brk = task0.program_brk;
            let new_brk = task0.program_brk + size;
            let possible = {
                &&& task0.heap_bottom <= new_brk
                &&& new_brk <= 0x80_0000_0000
                &&& new_brk <= usize::MAX
                &&& forall|v: usize|
                    #![trigger task0.memory_set.page_table.mappings().contains_key(v)]
                    old_brk <= v * 4096 && v * 4096 < new_brk
                        ==> !task0.memory_set.page_table.mappings().contains_key(v)
                &&& (new_brk + 4095) / 4096 - (old_brk + 4095) / 4096 <= memory0.free().len()
            };
            if possible {
                &&& r == old_brk as isize
                &&& task1.program_brk == new_brk
            } else {
                &&& r == -1
                &&& after.tasks() == before.tasks()
                &&& after.current() == before.current()
                &&& *memory1 == *memory0
            }
        }),
{
    let task0 = before.tasks()[before.current()];
    let table0 = task0.memory_set.page_table;
    let lo = (task0.program_brk + 4095) / 4096;
    let hi = (task0.program_brk + size + 4095) / 4096;
    assert(task0.wf());
    assert forall|v: usize| #[trigger] table0.mapped(v) == table0.mappings().contains_key(v) by {}
    if task0.memory_set.clear(lo, hi) {
        assert forall|v: usize|
            #![trigger table0.mappings().contains_key(v)]
            task0.program_brk <= v * 4096 && v * 4096 < task0.program_brk
                + size implies !table0.mappings().contains_key(v) by {
            assert(!table0.mapped(v));
        }
    } else {
        let v = choose|v: usize| lo <= v < hi && #[trigger] table0.mapped(v);
        assert(table0.mappings().contains_key(v));
    }
}

/// When the heap grows, a page that starts between the old and the new break
/// becomes readable and writable data of user mode: not executable, on a frame
/// that was free, is so no longer, and holds zeros. When it shrinks, a page that
/// starts between the new and the old break is unmapped, and its frame is free.
/// Any other page keeps its mapping.
pub proof fn law_sbrk_pages(
    before: &TaskManager,
    memory0: &Memory,
    after: &TaskManager,
    memory1: &Memory,
    size: i32,
    r: isize,
    v: usize,
)
    requires
        before.consistent(memory0),
        sbrk_step(before, memory0, after, memory1, size, r),
        after.tasks()[before.current()].program_brk
            == before.tasks()[before.current()].program_brk + size,
    ensures
        ({
            let task0 = before.tasks()[before.current()];
            let task1 = after.tasks()[before.current()];
            let table0 = task0.memory_set.page_table;
            let table1 = task1.memory_set.page_table;
            let entry = table1.mappings()[v];
            if task0.program_brk <= v * 4096 && v * 4096 < task1.program_brk {
                &&& !table0.mappings().contains_key(v)
                &&& table1.mappings().contains_key(v)
                &&& entry.valid
                &&& entry.permission.r
                &&& entry.permission.w
                &&& entry.permission.u
                &&& !entry.permission.x
                &&& memory0.free().contains(entry.ppn)
                &&& !memory1.free().contains(entry.ppn)
                &&& forall|p: int|
                    #![trigger memory1.bytes()[p]]
                    entry.ppn * 4096 <= p < entry.ppn * 4096 + 4096 ==> memory1.bytes()[p] == 0
            } else if task1.program_brk <= v * 4096 && v * 4096 < task0.program_brk {
                &&& !table1.mappings().contains_key(v)
                &&& table0.mappings().contains_key(v) ==> memory1.free().contains(
                    table0.mappings()[v].ppn,
                )
            } else {
                &&& table1.mappings().contains_key(v) == table0.mappings().contains_key(v)
                &&& entry == table0.mappings()[v] || !table0.mappings().contains_key(v)
            }
        }),
{
    law_sbrk_answer(before, memory0, after, memory1, size, r);
    let task0 = before.tasks()[before.current()];
    let task1 = after.tasks()[before.current()];
    let table0 = task0.memory_set.page_table;
    let lo = (task0.program_brk + 4095) / 4096;
    let hi = (task0.program_brk + size + 4095) / 4096;
    assert(task0.wf());
    assert(table0.mapped(v) == table0.mappings().contains_key(v));
    if task0.brk_allowed(memory0, size) {
        if size >= 0 {
            law_area_mapped_pages(
                &task0.memory_set,
                memory0,
                &task1.memory_set,
                memory1,
                lo,
                hi,
                heap_permission(),
                v,
            );
        } else {
            law_area_unmapped_pages(
                &task0.memory_set,
                memory0,
                &task1.memory_set,
                memory1,
                hi,
                lo,
                v,
            );
        }
    } else {
        assert(size == 0);
    }
}

/// After `sbrk` has grown the heap, user mode can read and write, and cannot
/// execute, each byte between the old and the new break that lies on a new page,
/// and reads 0 there. A byte on the page that the old break lay inside of is as
/// usable as it was, and holds what it held.
pub proof fn law_sbrk_bytes(
    before: &TaskManager,
    memory0: &Memory,
    after: &TaskManager,
    memory1: &Memory,
    size: i32,
    r: isize,
    word: usize,
)
    requires
        before.consistent(memory0),
        sbrk_step(before, memory0, after, memory1, size, r),
        after.tasks()[before.current()].program_brk
            == before.tasks()[before.current()].program_brk + size,
        before.tasks()[before.current()].program_brk <= word
            < after.tasks()[before.current()].program_brk,
    ensures
        ({
            let task0 = before.tasks()[before.current()];
            let table0 = task0.memory_set.page_table;
            let table1 = after.tasks()[before.current()].memory_set.page_table;
            let at0 = table0.mappings()[word / 4096].ppn * 4096 + word as int % 4096;
            let at1 = table1.mappings()[word / 4096].ppn * 4096 + word as int % 4096;
            if task0.program_brk <= word / 4096 * 4096 {
                &&& table1.user_readable(word)
                &&& table1.user_writable(word)
                &&& !table1.user_executable(word)
                &&& memory1.bytes()[at1] == 0
            } else {
                &&& table1.user_readable(word) == table0.user_readable(word)
                &&& table1.user_writable(word) == table0.user_writable(word)
                &&& table1.user_executable(word) == table0.user_executable(word)
                &&& table0.mappings().contains_key(word / 4096) ==> memory1.bytes()[at1]
                    == memory0.bytes()[at0]
            }
        }),
{
    let v = word / 4096;
    let task0 = before.tasks()[before.current()];
    let table0 = task0.memory_set.page_table;
    let table1 = after.tasks()[before.current()].memory_set.page_table;
    let ppn = table0.mappings()[v].ppn;
    law_sbrk_answer(before, memory0, after, memory1, size, r);
    law_sbrk_pages(before, memory0, after, memory1, size, r, v);
    law_user_access(&table0, word);
    law_user_access(&table1, word);
    let p = table1.mappings()[v].ppn * 4096 + word as int % 4096;
    assert(memory1.bytes()[p] == memory1.bytes()[p]);
    if task0.program_brk > word / 4096 * 4096 && table0.mappings().contains_key(v) {
        law_consistent(before, memory0, before.current(), v, before.current(), v);
        law_sbrk_keeps_the_rest(before, memory0, after, memory1, size, r, ppn, before.current());
    }
}

/// Once user mode can read and write, and cannot execute, the whole of a heap
/// that starts at a page, it stays so wherever `sbrk` moves the break.
pub proof fn law_sbrk_keeps_heap_usable(
    before: &TaskManager,
    memory0: &Memory,
    after: &TaskManager,
    memory1: &Memory,
    size: i32,
    r: isize,
    word: usize,
)
    requires
        before.consistent(memory0),
        sbrk_step(before, memory0, after, memory1, size, r),
        before.tasks()[before.current()].heap_bottom % 4096 == 0,
        forall|w: usize|
            #![trigger before.tasks()[before.current()].memory_set.page_table.user_readable(w)]
            before.tasks()[before.current()].heap_bottom <= w
                < before.tasks()[before.current()].program_brk ==> {
                let table0 = before.tasks()[before.current()].memory_set.page_table;
                &&& table0.user_readable(w)
                &&& table0.user_writable(w)
                &&& !table0.user_executable(w)
            },
        before.tasks()[before.current()].heap_bottom <= word
            < after.tasks()[before.current()].program_brk,
    ensures
        ({
            let table1 = after.tasks()[before.current()].memory_set.page_table;
            &&& table1.user_readable(word)
            &&& table1.user_writable(word)
            &&& !table1.user_executable(word)
        }),
{
    let task0 = before.tasks()[before.current()];
    let task1 = after.tasks()[before.current()];
    let table0 = task0.memory_set.page_table;
    let table1 = task1.memory_set.page_table;
    let v = word / 4096;
    let first = (v * 4096) as usize;
    assert(task0.program_brk <= 0x80_0000_0000) by {
        assert(task0.wf());
    }
    assert(task1 == task0 || (task1.program_brk == task0.program_brk + size && task1.program_brk
        <= 0x80_0000_0000)) by {
        law_sbrk_answer(before, memory0, after, memory1, size, r);
    }
    assert(word as int % 0x80_0000_0000 / 4096 == v);
    assert(first as int % 0x80_0000_0000 / 4096 == v);
    let entry = table1.mappings()[v];
    assert(table1.mappings().contains_key(v) && entry.valid && entry.permission.u
        && entry.permission.r && entry.permission.w && !entry.permission.x) by {
        if first < task0.program_brk {
            assert(before.tasks()[before.current()].memory_set.page_table.user_readable(first));
            law_user_access(&table0, first);
        }
        if task1 != task0 {
            law_sbrk_pages(before, memory0, after, memory1, size, r, v);
        }
    }
    law_user_access(&table1, word);
}

/// `sbrk` takes frames for the new pages only and frees those of the pages that
/// left only, keeps the bytes of frames that were not free, and changes nothing
/// else.
pub proof fn law_sbrk_keeps_the_rest(
    before: &TaskManager,
    memory0: &Memory,
    after: &TaskManager,
    memory1: &Memory,
    size: i32,
    r: isize,
    ppn: usize,
    i: int,
)
    requires
        before.consistent(memory0),
        sbrk_step(before, memory0, after, memory1, size, r),
        0 <= i < before.tasks().len(),
    ensures
        size >= 0 && memory1.free().contains(ppn) ==> memory0.free().contains(ppn),
        size <= 0 && memory0.free().contains(ppn) ==> memory1.free().contains(ppn),
        memory0.free().contains(ppn) && !memory1.free().contains(ppn) ==> exists|v: usize|
            #![trigger after.tasks()[before.current()].memory_set.page_table.mappings()[v]]
            before.tasks()[before.current()].program_brk <= v * 4096 && v * 4096
                < after.tasks()[before.current()].program_brk
                && after.tasks()[before.current()].memory_set.page_table.mappings()[v].ppn == ppn,
        memory1.free().contains(ppn) && !memory0.free().contains(ppn) ==> exists|v: usize|
            #![trigger before.tasks()[before.current()].memory_set.page_table.mappings().contains_key(v)]
            after.tasks()[before.current()].program_brk <= v * 4096 && v * 4096
                < before.tasks()[before.current()].program_brk
                && before.tasks()[before.current()].memory_set.page_table.mappings().contains_key(v)
                && before.tasks()[before.current()].memory_set.page_table.mappings()[v].ppn == ppn,
        size <= 0 ==> memory1.bytes() == memory0.bytes(),
        memory1.bytes().len() == memory0.bytes().len(),
        !memory0.free().contains(ppn) ==> forall|p: int|
            #![trigger memory1.bytes()[p]]
            0 <= p < memory0.bytes().len() && ppn * 4096 <= p < ppn * 4096 + 4096
                ==> memory1.bytes()[p] == memory0.bytes()[p],
        memory1.satp() == memory0.satp(),
        after.current() == before.current(),
        after.tasks().len() == before.tasks().len(),
        i != before.current() ==> after.tasks()[i] == before.tasks()[i],
        after.tasks()[i].status == before.tasks()[i].status,
        after.tasks()[i].syscall_times == before.tasks()[i].syscall_times,
        after.tasks()[i].heap_bottom == before.tasks()[i].heap_bottom,
        after.tasks()[i].trap_cx == before.tasks()[i].trap_cx,
        after.tasks()[i].exit_code == before.tasks()[i].exit_code,
        after.tasks()[i].memory_set.page_table.token()
            == before.tasks()[i].memory_set.page_table.token(),
{
    let task0 = before.tasks()[before.current()];
    let task1 = after.tasks()[before.current()];
    let lo = (task0.program_brk + 4095) / 4096;
    let hi = (task0.program_brk + size + 4095) / 4096;
    assert(task0.wf());
    if task0.brk_allowed(memory0, size) {
        if size >= 0 {
            law_area_mapped_frames(
                &task0.memory_set,
                memory0,
                &task1.memory_set,
                memory1,
                lo,
                hi,
                heap_permission(),
                ppn,
            );
            if size == 0 {
                let free = memory0.free();
                assert(free.skip(free.len() as int) =~= Seq::<usize>::empty());
                assert(memory1.bytes() =~= memory0.bytes());
                assert(memory1.free() =~= free);
            }
        } else {
            law_area_unmapped_frames(
                &task0.memory_set,
                memory0,
                &task1.memory_set,
                memory1,
                hi,
                lo,
                ppn,
            );
        }
    }
}

} // verus!
