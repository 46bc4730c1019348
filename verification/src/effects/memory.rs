//! Addresses, page tables, physical memory, and areas that are mapped or unmapped.
use vstd::prelude::*;
use vstd::std_specs::convert::FromSpec;

use crate::mm::address::{page_of, va, VirtAddr};
use crate::mm::frame_allocator::{cleared, replaced, Memory, SetupStep};
use crate::mm::init_step;
use crate::mm::memory_set::{frames_of, lemma_frames_of_contains, page_count, MemorySet};
use crate::mm::page_table::{covers, offset_of, MapPermission, PageTable, PageTableEntry, Segment};
use crate::task::TaskManager;

verus! {

// Addresses

/// A word names the address that its low 39 bits spell.
pub proof fn law_word_names_address(word: usize)
    ensures
        0 <= va(word) < 0x80_0000_0000,
        (word - va(word)) % 0x80_0000_0000 == 0,
        VirtAddr::from_spec(word).0 == va(word),
{
}

/// The page of an address holds it.
pub proof fn law_page_holds_address(a: int)
    requires
        0 <= a < 0x80_0000_0000,
    ensures
        page_of(a) * 4096 <= a < page_of(a) * 4096 + 4096,
{
}

/// Rounding down gives the last page that starts at or below an address, and
/// rounding up the first that starts at or above it.
pub proof fn law_rounding(address: VirtAddr)
    ensures
        address.floor_spec() * 4096 <= address.0 < address.floor_spec() * 4096 + 4096,
        address.ceil_spec() * 4096 - 4096 < address.0 <= address.ceil_spec() * 4096,
{
}

// Page tables

/// A permission or an entry that is empty allows nothing and maps nothing.
pub proof fn law_empty_allows_nothing()
    ensures
        ({
            let none = MapPermission::empty_spec();
            let entry = PageTableEntry::empty_spec();
            &&& !none.r && !none.w && !none.x && !none.u
            &&& !entry.valid && entry.ppn == 0
            &&& !entry.permission.r && !entry.permission.w
            &&& !entry.permission.x && !entry.permission.u
        }),
{
}

/// The entry that maps a page is valid, and names the frame and the permission
/// that were asked for.
pub proof fn law_entry_of_mapping(ppn: usize, permission: MapPermission)
    ensures
        ({
            let entry = PageTableEntry::mapping(ppn, permission);
            entry.valid && entry.ppn == ppn && entry.permission == permission
        }),
{
}

/// A walk finds the entry of a page that has one. For any other page it finds
/// nothing if there is no leaf table, and an entry that is not valid if there is.
pub proof fn law_walk(table: &PageTable, vpn: usize)
    ensures
        table.mappings().contains_key(vpn) ==> table.walk(vpn) == Some(table.mappings()[vpn]),
        !table.mappings().contains_key(vpn) && !table.tables().contains(vpn / 512) ==> table.walk(
            vpn,
        ) is None,
        !table.mappings().contains_key(vpn) && table.tables().contains(vpn / 512) ==> (table.walk(
            vpn,
        ) matches Some(pte) && !pte.valid),
{
}

/// Entries are valid and lie in leaf tables that exist, and different pages
/// have different frames.
pub proof fn law_page_table_is_sound(table: &PageTable, v: usize, w: usize)
    requires
        table.wf(),
        table.mappings().contains_key(v),
        table.mappings().contains_key(w),
    ensures
        table.mappings()[v].valid,
        table.tables().contains(v / 512),
        table.mappings()[v].ppn == table.mappings()[w].ppn ==> v == w,
{
    assert(table.mapped(v));
    assert(table.mapped(w));
}

/// User mode can read, write or execute at a word exactly if the page there has
/// a valid entry with that permission and with the one for user mode.
pub proof fn law_user_access(table: &PageTable, word: usize)
    ensures
        ({
            let vpn = (word as int % 0x80_0000_0000 / 4096) as usize;
            let usable = table.mappings().contains_key(vpn) && table.mappings()[vpn].valid
                && table.mappings()[vpn].permission.u;
            let permission = table.mappings()[vpn].permission;
            &&& table.user_readable(word) <==> usable && permission.r
            &&& table.user_writable(word) <==> usable && permission.w
            &&& table.user_executable(word) <==> usable && permission.x
        }),
{
    let vpn = (word as int % 0x80_0000_0000 / 4096) as usize;
    assert(page_of(va(word)) == vpn);
}

/// Bytes are backed exactly if they lie in the address space, on mapped pages
/// whose frames memory has.
pub proof fn law_backed(table: &PageTable, memory: &Memory, a: int, len: nat)
    requires
        memory.wf(),
        0 <= a,
    ensures
        table.backed(memory, a, len) <==> {
            &&& a + len <= 0x80_0000_0000
            &&& forall|v: usize|
                #![trigger table.mappings().contains_key(v)]
                a < v * 4096 + 4096 && v * 4096 < a + len && len > 0 ==> {
                    &&& table.mappings().contains_key(v)
                    &&& table.mappings()[v].ppn * 4096 + 4096 <= memory.bytes().len()
                }
        },
{
    if table.backed(memory, a, len) {
        assert forall|v: usize|
            #![trigger table.mappings().contains_key(v)]
            a < v * 4096 + 4096 && v * 4096 < a + len && len > 0 implies {
            &&& table.mappings().contains_key(v)
            &&& table.mappings()[v].ppn * 4096 + 4096 <= memory.bytes().len()
        } by {
            let b = if a <= v * 4096 {
                v * 4096
            } else {
                a
            };
            assert(page_of(b) == v);
        }
    }
    if a + len <= 0x80_0000_0000 && forall|v: usize|
        #![trigger table.mappings().contains_key(v)]
        a < v * 4096 + 4096 && v * 4096 < a + len && len > 0 ==> {
            &&& table.mappings().contains_key(v)
            &&& table.mappings()[v].ppn * 4096 + 4096 <= memory.bytes().len()
        } {
        assert forall|b: int|
            #![trigger page_of(b)]
            a <= b < a + len implies table.mapped(page_of(b)) && table.frame(page_of(b))
            < memory.frames() by {
            assert(table.mappings().contains_key(page_of(b)));
        }
    }
}

/// The contents of virtual memory are the bytes of the frames behind its pages.
pub proof fn law_contents(table: &PageTable, bytes: Seq<u8>, a: int, len: nat, i: int)
    requires
        0 <= i < len,
    ensures
        table.contents(bytes, a, len).len() == len,
        table.contents(bytes, a, len)[i] == bytes[table.mappings()[((a + i)
            / 4096) as usize].ppn * 4096 + (a + i) % 4096],
{
    assert(page_of(a + i) == ((a + i) / 4096) as usize);
}

/// A write puts each byte into the frame behind its page, and changes no other
/// byte of memory.
pub proof fn law_written(
    table: &PageTable,
    before: Seq<u8>,
    after: Seq<u8>,
    a: int,
    data: Seq<u8>,
)
    requires
        table.written(before, after, a, data),
    ensures
        after.len() == before.len(),
        forall|i: int|
            0 <= i < data.len() ==> after[table.mappings()[((a + i) / 4096) as usize].ppn * 4096 + (
            a + i) % 4096] == #[trigger] data[i],
        forall|p: int|
            #![trigger after[p]]
            0 <= p < after.len() && after[p] != before[p] ==> exists|i: int|
                #![trigger data[i]]
                0 <= i < data.len() && p == table.mappings()[((a + i) / 4096) as usize].ppn * 4096
                    + (a + i) % 4096,
{
    assert forall|i: int| 0 <= i < data.len() implies after[table.mappings()[((a + i)
        / 4096) as usize].ppn * 4096 + (a + i) % 4096] == #[trigger] data[i] by {
        assert(page_of(a + i) == ((a + i) / 4096) as usize);
        assert(after[table.phys(a + i)] == data[a + i - a]);
    }
    assert forall|p: int|
        #![trigger after[p]]
        0 <= p < after.len() && after[p] != before[p] implies exists|i: int|
        #![trigger data[i]]
        0 <= i < data.len() && p == table.mappings()[((a + i) / 4096) as usize].ppn * 4096 + (a + i)
            % 4096 by {
        let b = choose|b: int| a <= b < a + data.len() && #[trigger] table.phys(b) == p;
        assert(page_of(b) == (b / 4096) as usize);
        let i = b - a;
        assert(data[i] == data[i]);
    }
}

/// Segments are consecutive: byte `i` of a buffer lies in one of them, at the
/// physical address behind it.
pub proof fn law_segments(
    segments: Seq<Segment>,
    table: &PageTable,
    memory: &Memory,
    a: int,
    len: int,
    i: int,
)
    requires
        covers(segments, table, memory, a, len),
        0 <= i < len,
    ensures
        exists|k: int|
            #![trigger segments[k]]
            {
                &&& 0 <= k < segments.len()
                &&& offset_of(segments, k) <= i < offset_of(segments, k) + segments[k].len
                &&& segments[k].paddr + (i - offset_of(segments, k))
                    == table.mappings()[((a + i) / 4096) as usize].ppn * 4096 + (a + i) % 4096
            },
{
    let k = lemma_segment_of(segments, i, segments.len() as int);
    assert(page_of(a + i) == ((a + i) / 4096) as usize);
    assert(table.phys(a + i) == segments[k].paddr + (a + i - a - offset_of(segments, k)));
}

/// The segment that byte `i` lies in.
proof fn lemma_segment_of(segments: Seq<Segment>, i: int, n: int) -> (k: int)
    requires
        0 <= n <= segments.len(),
        0 <= i < offset_of(segments, n),
    ensures
        0 <= k < n,
        offset_of(segments, k) <= i < offset_of(segments, k) + segments[k].len,
    decreases n,
{
    if i < offset_of(segments, n - 1) {
        lemma_segment_of(segments, i, n - 1)
    } else {
        n - 1
    }
}

/// A segment is not empty and lies in memory, inside one frame.
pub proof fn law_segment_bounds(
    segments: Seq<Segment>,
    table: &PageTable,
    memory: &Memory,
    a: int,
    len: int,
    k: int,
)
    requires
        covers(segments, table, memory, a, len),
        0 <= k < segments.len(),
    ensures
        0 < segments[k].len <= 4096,
        segments[k].paddr as int / 4096 == (segments[k].paddr + segments[k].len - 1) / 4096,
        segments[k].paddr + segments[k].len <= memory.bytes().len(),
{
}

/// Each segment starts where the one before it ends, and together they are as
/// long as the buffer.
pub proof fn law_segment_offsets(
    segments: Seq<Segment>,
    table: &PageTable,
    memory: &Memory,
    a: int,
    len: int,
    k: int,
)
    requires
        covers(segments, table, memory, a, len),
        0 <= k < segments.len(),
    ensures
        offset_of(segments, 0) == 0,
        offset_of(segments, k + 1) == offset_of(segments, k) + segments[k].len,
        offset_of(segments, segments.len() as int) == len,
{
}

// Memory

/// Clearing a frame zeroes its 4096 bytes and no other.
pub proof fn law_cleared(before: Seq<u8>, after: Seq<u8>, ppn: usize, p: int)
    requires
        cleared(before, after, ppn),
        0 <= p < before.len(),
    ensures
        after.len() == before.len(),
        ppn * 4096 <= p < ppn * 4096 + 4096 ==> after[p] == 0,
        !(ppn * 4096 <= p < ppn * 4096 + 4096) ==> after[p] == before[p],
{
}

/// Copying into memory puts each byte into its place and changes no other.
pub proof fn law_replaced(bytes: Seq<u8>, at: int, part: Seq<u8>, p: int)
    requires
        0 <= at,
        at + part.len() <= bytes.len(),
        0 <= p < bytes.len(),
    ensures
        replaced(bytes, at, part).len() == bytes.len(),
        p < at || at + part.len() <= p ==> replaced(bytes, at, part)[p] == bytes[p],
        at <= p < at + part.len() ==> replaced(bytes, at, part)[p] == part[p - at],
{
}

/// `init` sets up the heap, then the frames, then the kernel's address space.
/// After it, exactly the frames above the kernel are free, each listed once,
/// and memory holds what it held.
pub proof fn law_init(before: &Memory, after: &Memory, token: usize)
    requires
        before.wf(),
        init_step(before, after, token),
    ensures
        ({
            let n = before.steps().len() as int;
            &&& after.steps().len() == n + 3
            &&& after.steps()[n] is Heap
            &&& after.steps()[n + 1] is Frames
            &&& after.steps()[n + 2] == (SetupStep::Activate { token })
        }),
        after.heap_ready(),
        after.frames_ready(),
        after.satp() == token,
        after.bytes() == before.bytes(),
        after.reserved() == before.reserved(),
        forall|ppn: usize|
            #![trigger after.free().contains(ppn)]
            after.free().contains(ppn) <==> before.reserved() <= ppn && ppn * 4096 + 4096
                <= before.bytes().len(),
        forall|j: int, k: int|
            0 <= j < k < after.free().len() ==> after.free()[j] != after.free()[k],
{
    assert forall|ppn: usize|
        #![trigger after.free().contains(ppn)]
        after.free().contains(ppn) <==> before.reserved() <= ppn && ppn * 4096 + 4096
            <= before.bytes().len() by {
        if before.reserved() <= ppn && ppn * 4096 + 4096 <= before.bytes().len() {
            assert(after.free()[ppn - before.reserved()] == ppn);
        }
        if after.free().contains(ppn) {
            let k = after.free().index_of(ppn);
            assert(after.usable(after.free()[k]));
        }
    }
}

/// Tasks and memory that are consistent: the frame behind each page exists,
/// lies above the kernel and is not free, and no other page of any task has it.
pub proof fn law_consistent(
    manager: &TaskManager,
    memory: &Memory,
    i: int,
    v: usize,
    j: int,
    w: usize,
)
    requires
        manager.consistent(memory),
        0 <= i < manager.tasks().len(),
        0 <= j < manager.tasks().len(),
        manager.tasks()[i].memory_set.page_table.mappings().contains_key(v),
        manager.tasks()[j].memory_set.page_table.mappings().contains_key(w),
    ensures
        ({
            let ppn = manager.tasks()[i].memory_set.page_table.mappings()[v].ppn;
            &&& memory.reserved() <= ppn
            &&& ppn * 4096 + 4096 <= memory.bytes().len()
            &&& !memory.free().contains(ppn)
            &&& ppn == manager.tasks()[j].memory_set.page_table.mappings()[w].ppn ==> i == j
                && v == w
        }),
{
    assert(manager.tasks()[i].memory_set.owns_frames(memory));
    assert(manager.tasks()[i].memory_set.page_table.mapped(v));
    assert(manager.tasks()[j].memory_set.page_table.mapped(w));
    assert(manager.tasks()[i].wf());
}

/// Free frames exist, lie above the kernel and are listed once.
pub proof fn law_free_list(memory: &Memory, j: int, k: int)
    requires
        memory.wf(),
        0 <= j < k < memory.free().len(),
    ensures
        memory.free()[j] != memory.free()[k],
        memory.reserved() <= memory.free()[j],
        memory.free()[j] * 4096 + 4096 <= memory.bytes().len(),
{
    assert(memory.usable(memory.free()[j]));
}

// Areas

/// A page that joins an area makes it larger by one.
pub proof fn law_page_count(lo: int, hi: int)
    ensures
        page_count(lo, lo) == 0,
        lo <= hi ==> page_count(lo, hi + 1) == page_count(lo, hi) + 1,
        hi <= lo ==> page_count(lo, hi) == 0,
{
}

/// A page of a mapped area has the permission asked for, and a frame that was
/// free, is so no longer, and holds zeros. Any other page keeps its mapping.
pub proof fn law_area_mapped_pages(
    set0: &MemorySet,
    memory0: &Memory,
    set1: &MemorySet,
    memory1: &Memory,
    lo: int,
    hi: int,
    permission: MapPermission,
    v: usize,
)
    requires
        memory0.wf(),
        page_count(lo, hi) <= memory0.free().len(),
        set0.area_mapped(memory0, set1, memory1, lo, hi, permission),
    ensures
        ({
            let before = set0.page_table.mappings();
            let after = set1.page_table.mappings();
            if lo <= v < hi {
                &&& after.contains_key(v)
                &&& after[v].valid
                &&& after[v].permission == permission
                &&& memory0.free().contains(after[v].ppn)
                &&& !memory1.free().contains(after[v].ppn)
                &&& forall|p: int|
                    #![trigger memory1.bytes()[p]]
                    after[v].ppn * 4096 <= p < after[v].ppn * 4096 + 4096 ==> memory1.bytes()[p] == 0
            } else {
                &&& after.contains_key(v) == before.contains_key(v)
                &&& after[v] == before[v] || !before.contains_key(v)
            }
        }),
{
    let free = memory0.free();
    let n = page_count(lo, hi);
    let after = set1.page_table.mappings();
    if lo <= v < hi {
        let k = free.len() - 1 - (v - lo);
        let ppn = free[k];
        let taken = free.skip(free.len() - n);
        assert(after[v].ppn == ppn);
        assert(taken[k - (free.len() - n)] == ppn);
        assert(memory0.usable(ppn));
        if memory1.free().contains(ppn) {
            let j = memory1.free().index_of(ppn);
            assert(free[j] == ppn);
            assert(free.no_duplicates());
        }
        assert forall|p: int|
            #![trigger memory1.bytes()[p]]
            ppn * 4096 <= p < ppn * 4096 + 4096 implies memory1.bytes()[p] == 0 by {
            assert((p / 4096) as usize == ppn);
        }
    }
}

/// Mapping an area takes the frames of its pages and no others off the free
/// list, one for each page. A frame that was not free keeps its bytes.
pub proof fn law_area_mapped_frames(
    set0: &MemorySet,
    memory0: &Memory,
    set1: &MemorySet,
    memory1: &Memory,
    lo: int,
    hi: int,
    permission: MapPermission,
    ppn: usize,
)
    requires
        memory0.wf(),
        0 <= lo,
        hi <= usize::MAX,
        page_count(lo, hi) <= memory0.free().len(),
        set0.area_mapped(memory0, set1, memory1, lo, hi, permission),
    ensures
        memory1.free().contains(ppn) ==> memory0.free().contains(ppn),
        memory0.free().contains(ppn) && !memory1.free().contains(ppn) ==> exists|v: usize|
            #![trigger set1.page_table.mappings()[v]]
            lo <= v < hi && set1.page_table.mappings()[v].ppn == ppn,
        lo < hi ==> memory1.free().len() + (hi - lo) == memory0.free().len(),
        hi <= lo ==> memory1.free().len() == memory0.free().len(),
        memory1.bytes().len() == memory0.bytes().len(),
        !memory0.free().contains(ppn) ==> forall|p: int|
            #![trigger memory1.bytes()[p]]
            0 <= p < memory0.bytes().len() && ppn * 4096 <= p < ppn * 4096 + 4096
                ==> memory1.bytes()[p] == memory0.bytes()[p],
{
    let free = memory0.free();
    let n = page_count(lo, hi);
    let taken = free.skip(free.len() - n);
    if memory1.free().contains(ppn) {
        let k = memory1.free().index_of(ppn);
        assert(free[k] == ppn);
    }
    if free.contains(ppn) && !memory1.free().contains(ppn) {
        let k = free.index_of(ppn);
        if k < free.len() - n {
            assert(memory1.free()[k] == ppn);
        }
        let v = (lo + (free.len() - 1 - k)) as usize;
        assert(set1.page_table.mappings()[v].ppn == ppn);
    }
    if !free.contains(ppn) {
        assert forall|p: int|
            #![trigger memory1.bytes()[p]]
            0 <= p < memory0.bytes().len() && ppn * 4096 <= p < ppn * 4096
                + 4096 implies memory1.bytes()[p] == memory0.bytes()[p] by {
            assert((p / 4096) as usize == ppn);
            if taken.contains(ppn) {
                let k = taken.index_of(ppn);
                assert(free[free.len() - n + k] == ppn);
            }
        }
    }
}

/// Mapping an area adds the leaf tables that its pages need and no others, and
/// leaves the token and the rest of memory's state as they are.
pub proof fn law_area_mapped_tables(
    set0: &MemorySet,
    memory0: &Memory,
    set1: &MemorySet,
    memory1: &Memory,
    lo: int,
    hi: int,
    permission: MapPermission,
    t: usize,
)
    requires
        0 <= lo,
        hi <= usize::MAX,
        set0.area_mapped(memory0, set1, memory1, lo, hi, permission),
    ensures
        set1.page_table.tables().contains(t) <==> set0.page_table.tables().contains(t) || (lo < hi
            && lo < t * 512 + 512 && t * 512 < hi),
        set1.page_table.token() == set0.page_table.token(),
        memory1.satp() == memory0.satp(),
        memory1.steps() == memory0.steps(),
        memory1.reserved() == memory0.reserved(),
        memory1.heap_ready() == memory0.heap_ready(),
        memory1.frames_ready() == memory0.frames_ready(),
{
}

/// No page of an unmapped area is mapped, and the frame behind one that was is
/// free. Any other page keeps its mapping, and memory holds what it held.
pub proof fn law_area_unmapped_pages(
    set0: &MemorySet,
    memory0: &Memory,
    set1: &MemorySet,
    memory1: &Memory,
    lo: int,
    hi: int,
    v: usize,
)
    requires
        0 <= lo,
        hi <= usize::MAX,
        set0.area_unmapped(memory0, set1, memory1, lo, hi),
    ensures
        ({
            let before = set0.page_table.mappings();
            let after = set1.page_table.mappings();
            if lo <= v < hi {
                &&& !after.contains_key(v)
                &&& before.contains_key(v) ==> memory1.free().contains(before[v].ppn)
            } else {
                &&& after.contains_key(v) == before.contains_key(v)
                &&& after[v] == before[v] || !before.contains_key(v)
            }
        }),
        memory1.bytes() == memory0.bytes(),
        set1.page_table.tables() == set0.page_table.tables(),
        set1.page_table.token() == set0.page_table.token(),
        memory1.satp() == memory0.satp(),
        memory1.steps() == memory0.steps(),
        memory1.reserved() == memory0.reserved(),
        memory1.heap_ready() == memory0.heap_ready(),
        memory1.frames_ready() == memory0.frames_ready(),
{
    let before = set0.page_table.mappings();
    if lo <= v < hi && before.contains_key(v) {
        lemma_frames_of_contains(before, lo, hi, before[v].ppn);
        let k = frames_of(before, lo, hi).index_of(before[v].ppn);
        assert(memory1.free()[memory0.free().len() + k] == before[v].ppn);
    }
}

/// Unmapping an area frees the frames behind its pages and no others.
pub proof fn law_area_unmapped_frames(
    set0: &MemorySet,
    memory0: &Memory,
    set1: &MemorySet,
    memory1: &Memory,
    lo: int,
    hi: int,
    ppn: usize,
)
    requires
        0 <= lo,
        hi <= usize::MAX,
        set0.area_unmapped(memory0, set1, memory1, lo, hi),
    ensures
        memory0.free().contains(ppn) ==> memory1.free().contains(ppn),
        memory1.free().contains(ppn) && !memory0.free().contains(ppn) ==> exists|v: usize|
            #![trigger set0.page_table.mappings().contains_key(v)]
            lo <= v < hi && set0.page_table.mappings().contains_key(v)
                && set0.page_table.mappings()[v].ppn == ppn,
        memory1.free().len() >= memory0.free().len(),
{
    let before = set0.page_table.mappings();
    if memory0.free().contains(ppn) {
        let k = memory0.free().index_of(ppn);
        assert(memory1.free()[k] == ppn);
    }
    if memory1.free().contains(ppn) && !memory0.free().contains(ppn) {
        let k = memory1.free().index_of(ppn);
        if k < memory0.free().len() {
            assert(memory0.free()[k] == ppn);
        }
        assert(frames_of(before, lo, hi)[k - memory0.free().len()] == ppn);
        lemma_frames_of_contains(before, lo, hi, ppn);
    }
}

} // verus!
