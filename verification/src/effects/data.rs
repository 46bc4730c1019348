//! `trace`, `get_time`, and the copies behind them.
use vstd::prelude::*;

use crate::effects::memory::{law_consistent, law_user_access, law_written};
use crate::mm::frame_allocator::Memory;
use crate::mm::user_data::ToBytes;
use crate::syscall::process::{
    copy_step, counted_trace_step, time_step, time_val, trace_step, TimeVal,
};
use crate::task::TaskManager;

verus! {

/// A read through `trace` gives the byte at the address, from the frame behind
/// its page, exactly if the page is mapped, readable and for user mode; else -1.
/// It changes nothing.
pub proof fn law_trace_read(
    manager: &TaskManager,
    memory0: &Memory,
    memory1: &Memory,
    id: usize,
    data: usize,
    r: isize,
)
    requires
        manager.wf(),
        trace_step(manager, memory0, memory1, 0, id, data, r),
    ensures
        *memory1 == *memory0,
        ({
            let mappings = manager.tasks()[manager.current()].memory_set.page_table.mappings();
            let a = id as int % 0x80_0000_0000;
            let entry = mappings[(a / 4096) as usize];
            if mappings.contains_key((a / 4096) as usize) && entry.permission.u
                && entry.permission.r {
                r == memory0.bytes()[entry.ppn * 4096 + a % 4096]
            } else {
                r == -1
            }
        }),
{
    assert(manager.tasks()[manager.current()].wf());
    law_user_access(&manager.tasks()[manager.current()].memory_set.page_table, id);
}

/// A write through `trace` answers 0 and puts the low byte of the data at the
/// address, in the frame behind its page, exactly if the page is mapped,
/// writable and for user mode; else it answers -1. No other byte changes.
pub proof fn law_trace_write(
    manager: &TaskManager,
    memory0: &Memory,
    memory1: &Memory,
    id: usize,
    data: usize,
    r: isize,
)
    requires
        manager.consistent(memory0),
        trace_step(manager, memory0, memory1, 1, id, data, r),
    ensures
        ({
            let mappings = manager.tasks()[manager.current()].memory_set.page_table.mappings();
            let a = id as int % 0x80_0000_0000;
            let entry = mappings[(a / 4096) as usize];
            if mappings.contains_key((a / 4096) as usize) && entry.permission.u
                && entry.permission.w {
                &&& r == 0
                &&& memory1.bytes() == memory0.bytes().update(
                    entry.ppn * 4096 + a % 4096,
                    (data % 256) as u8,
                )
                &&& memory1.free() == memory0.free()
                &&& memory1.satp() == memory0.satp()
            } else {
                r == -1 && *memory1 == *memory0
            }
        }),
{
    let task = manager.tasks()[manager.current()];
    let table = task.memory_set.page_table;
    let a = id as int % 0x80_0000_0000;
    let v = (a / 4096) as usize;
    assert(task.wf());
    assert(task.memory_set.owns_frames(memory0));
    law_user_access(&table, id);
    if table.user_writable(id) {
        let byte = (data % 256) as u8;
        let one = seq![byte];
        assert(table.mapped(v));
        assert(memory0.usable(table.frame(v)));
        law_written(&table, memory0.bytes(), memory1.bytes(), a, one);
        assert(one[0] == byte);
        let p = table.mappings()[v].ppn * 4096 + a % 4096;
        assert(memory1.bytes()[p] == byte);
        assert forall|q: int| 0 <= q < memory1.bytes().len() && q != p implies memory1.bytes()[q]
            == memory0.bytes()[q] by {
            if memory1.bytes()[q] != memory0.bytes()[q] {
                let i = choose|i: int|
                    #![trigger one[i]]
                    0 <= i < one.len() && q == table.mappings()[((a + i) / 4096) as usize].ppn
                        * 4096 + (a + i) % 4096;
                assert(i == 0);
            }
        }
        assert(memory1.bytes() =~= memory0.bytes().update(p, byte));
    }
}

/// Request 2 of `trace` answers how often the task has called the system call;
/// any other request but 0 and 1 is answered by -1. Neither changes anything.
pub proof fn law_trace_count_and_others(
    manager: &TaskManager,
    memory0: &Memory,
    memory1: &Memory,
    trace_request: usize,
    id: usize,
    data: usize,
    r: isize,
)
    requires
        trace_request >= 2,
        trace_step(manager, memory0, memory1, trace_request, id, data, r),
    ensures
        *memory1 == *memory0,
        trace_request == 2 ==> r == manager.tasks()[manager.current()].syscall_times@[id as int] as isize,
        trace_request >= 3 ==> r == -1,
{
}

/// What `trace` writes, a later read through `trace` gives back, as long as the
/// task's memory is as it was; a read at another address gives what it gave
/// before.
pub proof fn law_trace_write_then_read(
    manager: &TaskManager,
    memory0: &Memory,
    memory1: &Memory,
    memory2: &Memory,
    id: usize,
    data: usize,
    other: usize,
    first: isize,
    second: isize,
)
    requires
        manager.consistent(memory0),
        trace_step(manager, memory0, memory1, 1, id, data, 0),
        trace_step(manager, memory0, memory0, 0, other, 0, first),
        trace_step(manager, memory1, memory2, 0, other, 0, second),
    ensures
        second >= 0 && (other - id) % 0x80_0000_0000 == 0 ==> second == data as int % 256,
        (other - id) % 0x80_0000_0000 != 0 ==> second == first,
        second == -1 <==> first == -1,
{
    let task = manager.tasks()[manager.current()];
    let table = task.memory_set.page_table;
    let mappings = table.mappings();
    let a = id as int % 0x80_0000_0000;
    let b = other as int % 0x80_0000_0000;
    let v = (a / 4096) as usize;
    let w = (b / 4096) as usize;
    let p = mappings[v].ppn * 4096 + a % 4096;
    let q = mappings[w].ppn * 4096 + b % 4096;
    assert((other - id) % 0x80_0000_0000 == 0 <==> a == b) by {
        vstd::arithmetic::div_mod::lemma_mod_equivalence(other as int, id as int, 0x80_0000_0000);
    }
    assert(mappings.contains_key(v) && memory1.bytes() == memory0.bytes().update(
        p,
        (data % 256) as u8,
    )) by {
        law_trace_write(manager, memory0, memory1, id, data, 0);
    }
    law_trace_read(manager, memory0, memory0, other, 0, first);
    law_trace_read(manager, memory1, memory2, other, 0, second);
    if mappings.contains_key(w) {
        law_consistent(manager, memory0, manager.current(), v, manager.current(), w);
        law_consistent(manager, memory0, manager.current(), w, manager.current(), v);
        lemma_places(a, b, mappings[v].ppn as int, mappings[w].ppn as int);
    }
}

/// Places differ where pages have frames of their own.
proof fn lemma_places(a: int, b: int, m: int, n: int)
    requires
        0 <= a,
        0 <= b,
        m == n <==> a / 4096 == b / 4096,
    ensures
        m * 4096 + a % 4096 == n * 4096 + b % 4096 <==> a == b,
{
}

/// A call that goes through the entry of `trace` is counted, once, and no other
/// call is. So a query for `trace` itself gives one more than was counted before.
pub proof fn law_trace_counts_itself(
    before: &TaskManager,
    memory0: &Memory,
    after: &TaskManager,
    memory1: &Memory,
    trace_request: usize,
    id: usize,
    data: usize,
    r: isize,
    i: int,
)
    requires
        before.wf(),
        before.tasks()[before.current()].syscall_times@[410] < u32::MAX,
        counted_trace_step(before, memory0, after, memory1, trace_request, id, data, r),
        0 <= i < before.tasks().len(),
    ensures
        ({
            let counts0 = before.tasks()[before.current()].syscall_times@;
            let counts1 = after.tasks()[before.current()].syscall_times@;
            &&& counts1[410] == counts0[410] + 1
            &&& forall|n: int| 0 <= n < 500 && n != 410 ==> #[trigger] counts1[n] == counts0[n]
            &&& trace_request == 2 && id == 410 ==> r == (counts0[410] + 1) as isize
            &&& trace_request == 2 && id != 410 && id < 500 ==> r == counts0[id as int] as isize
        }),
        after.current() == before.current(),
        i != before.current() ==> after.tasks()[i] == before.tasks()[i],
        after.tasks()[i].status == before.tasks()[i].status,
        after.tasks()[i].memory_set == before.tasks()[i].memory_set,
        after.tasks()[i].program_brk == before.tasks()[i].program_brk,
        after.tasks()[i].trap_cx == before.tasks()[i].trap_cx,
        after.tasks()[i].exit_code == before.tasks()[i].exit_code,
        trace_step(before, memory0, memory1, trace_request, id, data, r) || trace_request == 2,
{
}

/// A copy to the current task puts each byte into the frame behind its page and
/// changes no other byte of memory.
pub proof fn law_copy(
    manager: &TaskManager,
    memory0: &Memory,
    memory1: &Memory,
    data: Seq<u8>,
    dst: usize,
)
    requires
        copy_step(manager, memory0, memory1, data, dst),
    ensures
        ({
            let mappings = manager.tasks()[manager.current()].memory_set.page_table.mappings();
            let a = dst as int % 0x80_0000_0000;
            &&& memory1.bytes().len() == memory0.bytes().len()
            &&& forall|i: int|
                0 <= i < data.len() ==> memory1.bytes()[mappings[((a + i) / 4096) as usize].ppn
                    * 4096 + (a + i) % 4096] == #[trigger] data[i]
            &&& forall|p: int|
                #![trigger memory1.bytes()[p]]
                0 <= p < memory1.bytes().len() && memory1.bytes()[p] != memory0.bytes()[p]
                    ==> exists|i: int|
                    #![trigger data[i]]
                    0 <= i < data.len() && p == mappings[((a + i) / 4096) as usize].ppn * 4096 + (a
                        + i) % 4096
        }),
        memory1.free() == memory0.free(),
        memory1.satp() == memory0.satp(),
        memory1.steps() == memory0.steps(),
        memory1.reserved() == memory0.reserved(),
        memory1.heap_ready() == memory0.heap_ready(),
        memory1.frames_ready() == memory0.frames_ready(),
{
    let table = manager.tasks()[manager.current()].memory_set.page_table;
    law_written(&table, memory0.bytes(), memory1.bytes(), dst as int % 0x80_0000_0000, data);
}

/// A byte stands for itself.
pub proof fn law_byte_representation(b: u8)
    ensures
        b.bytes().len() == 1,
        b.bytes()[0] == b,
        <u8 as ToBytes>::size() == 1,
{
}

/// A time is represented by its seconds and then its microseconds, each as eight
/// bytes from the lowest to the highest.
pub proof fn law_time_representation(t: TimeVal)
    ensures
        t.bytes().len() == 16,
        <TimeVal as ToBytes>::size() == 16,
        t.sec == t.bytes()[0] + 0x100 * t.bytes()[1] + 0x1_0000 * t.bytes()[2] + 0x100_0000
            * t.bytes()[3] + 0x1_0000_0000 * t.bytes()[4] + 0x100_0000_0000 * t.bytes()[5]
            + 0x1_0000_0000_0000 * t.bytes()[6] + 0x100_0000_0000_0000 * t.bytes()[7],
        t.usec == t.bytes()[8] + 0x100 * t.bytes()[9] + 0x1_0000 * t.bytes()[10] + 0x100_0000
            * t.bytes()[11] + 0x1_0000_0000 * t.bytes()[12] + 0x100_0000_0000 * t.bytes()[13]
            + 0x1_0000_0000_0000 * t.bytes()[14] + 0x100_0000_0000_0000 * t.bytes()[15],
{
    vstd::bytes::spec_u64_to_le_bytes_to_open(t.sec as u64);
    vstd::bytes::spec_u64_to_le_bytes_to_open(t.usec as u64);
    lemma_word_of_bytes(t.sec as u64);
    lemma_word_of_bytes(t.usec as u64);
}

/// A word is made up of its eight bytes.
proof fn lemma_word_of_bytes(x: u64)
    ensures
        x == (x & 0xff) as u8 + 0x100 * (((x >> 8) & 0xff) as u8) + 0x1_0000 * (((x >> 16)
            & 0xff) as u8) + 0x100_0000 * (((x >> 24) & 0xff) as u8) + 0x1_0000_0000 * (((x >> 32)
            & 0xff) as u8) + 0x100_0000_0000 * (((x >> 40) & 0xff) as u8) + 0x1_0000_0000_0000 * (((
        x >> 48) & 0xff) as u8) + 0x100_0000_0000_0000 * (((x >> 56) & 0xff) as u8),
{
    assert(x == (x & 0xff) as u8 + 0x100 * (((x >> 8) & 0xff) as u8) + 0x1_0000 * (((x >> 16)
        & 0xff) as u8) + 0x100_0000 * (((x >> 24) & 0xff) as u8) + 0x1_0000_0000 * (((x >> 32)
        & 0xff) as u8) + 0x100_0000_0000 * (((x >> 40) & 0xff) as u8) + 0x1_0000_0000_0000 * (((x
        >> 48) & 0xff) as u8) + 0x100_0000_0000_0000 * (((x >> 56) & 0xff) as u8)) by (bit_vector);
}

/// `get_time` answers 0. The sixteen bytes from `ts` on then hold the full
/// seconds and the microseconds left over, eight bytes each, lowest byte first.
/// A byte of memory that is not behind one of them is as it was.
pub proof fn law_get_time(
    manager: &TaskManager,
    memory0: &Memory,
    memory1: &Memory,
    now: usize,
    ts: usize,
    r: isize,
)
    requires
        time_step(manager, memory0, memory1, now, ts, r),
    ensures
        r == 0,
        ({
            let mappings = manager.tasks()[manager.current()].memory_set.page_table.mappings();
            let a = ts as int % 0x80_0000_0000;
            let at = |i: int|
                memory1.bytes()[mappings[((a + i) / 4096) as usize].ppn * 4096 + (a + i) % 4096];
            &&& now as int / 1_000_000 == at(0) + 0x100 * at(1) + 0x1_0000 * at(2) + 0x100_0000
                * at(3) + 0x1_0000_0000 * at(4) + 0x100_0000_0000 * at(5) + 0x1_0000_0000_0000
                * at(6) + 0x100_0000_0000_0000 * at(7)
            &&& now as int % 1_000_000 == at(8) + 0x100 * at(9) + 0x1_0000 * at(10) + 0x100_0000
                * at(11) + 0x1_0000_0000 * at(12) + 0x100_0000_0000 * at(13) + 0x1_0000_0000_0000
                * at(14) + 0x100_0000_0000_0000 * at(15)
        }),
        memory1.bytes().len() == memory0.bytes().len(),
        forall|p: int|
            #![trigger memory1.bytes()[p]]
            0 <= p < memory1.bytes().len() && memory1.bytes()[p] != memory0.bytes()[p]
                ==> exists|i: int|
                #![trigger time_val(now).bytes()[i]]
                0 <= i < 16 && p == manager.tasks()[manager.current()].memory_set.page_table.mappings()[((
                ts as int % 0x80_0000_0000 + i) / 4096) as usize].ppn * 4096 + (ts as int
                    % 0x80_0000_0000 + i) % 4096,
        memory1.free() == memory0.free(),
        memory1.satp() == memory0.satp(),
{
    let time = time_val(now);
    let data = time.bytes();
    law_time_representation(time);
    law_copy(manager, memory0, memory1, data, ts);
    assert(data[0] == data[0] && data[1] == data[1] && data[2] == data[2] && data[3] == data[3]);
    assert(data[4] == data[4] && data[5] == data[5] && data[6] == data[6] && data[7] == data[7]);
    assert(data[8] == data[8] && data[9] == data[9] && data[10] == data[10] && data[11]
        == data[11]);
    assert(data[12] == data[12] && data[13] == data[13] && data[14] == data[14] && data[15]
        == data[15]);
}

} // verus!
