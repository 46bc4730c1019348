//! The memory set of a task: its page table, backed by frames that it owns.
use vstd::prelude::*;

use crate::config::{PAGE_SIZE, TABLE_ENTRIES};
use crate::mm::address::{VirtAddr, VirtPageNum};
use crate::mm::frame_allocator::{cleared, Memory, SetupStep};
use crate::mm::page_table::{MapPermission, PageTable, PageTableEntry};

verus! {

/// How many pages lie in `lo..hi`.
pub open spec fn page_count(lo: int, hi: int) -> int {
    if lo < hi {
        hi - lo
    } else {
        0
    }
}

/// The mappings `before` with the pages `lo..hi` mapped as `permission` says,
/// one by one, to frames taken from the end of the list `free`.
pub open spec fn with_area(
    before: Map<usize, PageTableEntry>,
    lo: int,
    hi: int,
    free: Seq<usize>,
    permission: MapPermission,
) -> Map<usize, PageTableEntry> {
    Map::new(
        |v: usize| before.contains_key(v) || lo <= v < hi,
        |v: usize|
            if lo <= v < hi {
                PageTableEntry::mapping(free[free.len() - 1 - (v - lo)], permission)
            } else {
                before[v]
            },
    )
}

/// The leaf tables `before` and those that the pages `lo..hi` need.
pub open spec fn with_tables(before: Set<usize>, lo: int, hi: int) -> Set<usize> {
    Set::new(
        |t: usize|
            before.contains(t) || (lo < hi && lo / TABLE_ENTRIES as int <= t <= (hi - 1)
                / TABLE_ENTRIES as int),
    )
}

/// The memory contents `before` with the last `n` frames of the list `free` zeroed.
pub open spec fn with_cleared(before: Seq<u8>, free: Seq<usize>, n: int) -> Seq<u8> {
    Seq::new(
        before.len(),
        |p: int|
            if free.skip(free.len() - n).contains((p / PAGE_SIZE as int) as usize) {
                0u8
            } else {
                before[p]
            },
    )
}

/// The mappings `before` without those of the pages `lo..hi`.
pub open spec fn without_area(
    before: Map<usize, PageTableEntry>,
    lo: int,
    hi: int,
) -> Map<usize, PageTableEntry> {
    before.restrict(before.dom().filter(|v: usize| !(lo <= v < hi)))
}

/// The frames behind those of the pages `lo..hi` that are mapped, in page order.
pub open spec fn frames_of(mappings: Map<usize, PageTableEntry>, lo: int, hi: int) -> Seq<usize>
    decreases hi - lo,
{
    if hi <= lo {
        Seq::empty()
    } else {
        let init = frames_of(mappings, lo, hi - 1);
        if mappings.contains_key((hi - 1) as usize) {
            init.push(mappings[(hi - 1) as usize].ppn)
        } else {
            init
        }
    }
}

/// The memory of one task.
pub struct MemorySet {
    /// Which frames stand behind the task's pages.
    pub page_table: PageTable,
}

impl MemorySet {
    /// The pages that are mapped, with their entries.
    pub open spec fn mappings(&self) -> Map<usize, PageTableEntry> {
        self.page_table.mappings()
    }

    /// The frames behind the mapped pages are usable and not free.
    pub open spec fn owns_frames(&self, memory: &Memory) -> bool {
        forall|v: usize|
            #![trigger self.page_table.mapped(v)]
            self.page_table.mapped(v) ==> memory.usable(self.page_table.frame(v))
                && !memory.free().contains(self.page_table.frame(v))
    }

    /// `after` is `self` with the pages `lo..hi` mapped as `permission` says to
    /// cleared frames, which are no longer free in `memory1`.
    pub open spec fn area_mapped(
        &self,
        memory0: &Memory,
        after: &MemorySet,
        memory1: &Memory,
        lo: int,
        hi: int,
        permission: MapPermission,
    ) -> bool {
        let free = memory0.free();
        let n = page_count(lo, hi);
        &&& after.page_table.token() == self.page_table.token()
        &&& after.mappings() == with_area(self.mappings(), lo, hi, free, permission)
        &&& after.page_table.tables() == with_tables(self.page_table.tables(), lo, hi)
        &&& memory1.free() == free.take(free.len() - n)
        &&& memory1.bytes() == with_cleared(memory0.bytes(), free, n)
        &&& memory1.same_setup(memory0)
    }

    /// `after` is `self` with no page of `lo..hi` mapped. The frames behind
    /// those that were are free in `memory1`.
    pub open spec fn area_unmapped(
        &self,
        memory0: &Memory,
        after: &MemorySet,
        memory1: &Memory,
        lo: int,
        hi: int,
    ) -> bool {
        &&& after.page_table.token() == self.page_table.token()
        &&& after.mappings() == without_area(self.mappings(), lo, hi)
        &&& after.page_table.tables() == self.page_table.tables()
        &&& memory1.free() == memory0.free() + frames_of(self.mappings(), lo, hi)
        &&& memory1.bytes() == memory0.bytes()
        &&& memory1.same_setup(memory0)
    }

    /// No page of `lo..hi` is mapped.
    pub open spec fn clear(&self, lo: int, hi: int) -> bool {
        forall|v: usize| lo <= v < hi ==> !#[trigger] self.page_table.mapped(v)
    }

    /// Each page of `lo..hi` is mapped or has no leaf table for its entry.
    pub open spec fn removable(&self, lo: int, hi: int) -> bool {
        forall|v: usize|
            lo <= v < hi ==> (#[trigger] self.page_table.walk(v) matches Some(pte) ==> pte.valid)
    }

    /// A memory set without any mapping.
    pub fn new(token: usize) -> (set: MemorySet)
        ensures
            set.page_table.wf(),
            set.page_table.token() == token,
            set.mappings() == Map::<usize, PageTableEntry>::empty(),
            set.page_table.tables() == Set::<usize>::empty(),
    {
        MemorySet { page_table: PageTable::new(token) }
    }

    /// The value that selects the page table in the processor.
    pub fn token(&self) -> (token: usize)
        ensures
            token == self.page_table.token(),
    {
        self.page_table.get_token()
    }

    /// Makes this the active address space. The heap and the frame allocator
    /// have to be set up by then.
    pub fn activate(&self, memory: &mut Memory)
        requires
            old(memory).heap_ready(),
            old(memory).frames_ready(),
        ensures
            final(memory).satp() == self.page_table.token(),
            final(memory).steps() == old(memory).steps().push(
                SetupStep::Activate { token: self.page_table.token() },
            ),
            final(memory).frames_ready() == old(memory).frames_ready(),
            final(memory).bytes() == old(memory).bytes(),
            final(memory).free() == old(memory).free(),
            final(memory).reserved() == old(memory).reserved(),
            final(memory).heap_ready() == old(memory).heap_ready(),
    {
        memory.set_satp(self.token());
    }

    /// The entry that a walk of the page tables finds for page `vpn`.
    pub fn translate(&self, vpn: VirtPageNum) -> (entry: Option<PageTableEntry>)
        ensures
            entry == self.page_table.walk(vpn.0),
    {
        self.page_table.translate(vpn)
    }

    /// Whether no page of `start..end` is mapped.
    pub fn is_clear(&self, start: VirtPageNum, end: VirtPageNum) -> (b: bool)
        requires
            self.page_table.wf(),
        ensures
            b == self.clear(start.0 as int, end.0 as int),
    {
        let mut next_vpn: VirtPageNum = start;
        while next_vpn.0 < end.0
            invariant
                self.page_table.wf(),
                start.0 <= next_vpn.0,
                self.clear(start.0 as int, next_vpn.0 as int),
            decreases end.0 - next_vpn.0,
        {
            if let Some(pte) = self.translate(next_vpn) {
                if pte.is_valid() {
                    assert(self.page_table.mapped(next_vpn.0));
                    return false;
                }
            }
            assert(!self.page_table.mapped(next_vpn.0));
            next_vpn.0 = next_vpn.0 + 1;
        }
        true
    }

    /// Maps the pages `start..end` to cleared frames.
    pub fn map_pages(
        &mut self,
        memory: &mut Memory,
        start: VirtPageNum,
        end: VirtPageNum,
        permission: MapPermission,
    )
        requires
            old(memory).wf(),
            old(self).page_table.wf(),
            old(self).owns_frames(old(memory)),
            old(self).clear(start.0 as int, end.0 as int),
            page_count(start.0 as int, end.0 as int) <= old(memory).free().len(),
        ensures
            final(memory).wf(),
            final(self).page_table.wf(),
            final(self).owns_frames(final(memory)),
            old(self).area_mapped(
                old(memory),
                final(self),
                final(memory),
                start.0 as int,
                end.0 as int,
                permission,
            ),
    {
        let ghost free = memory.free();
        let ghost lo = start.0 as int;
        let mut next: VirtPageNum = start;
        proof {
            assert(free.take(free.len() as int) =~= free);
            assert(self.mappings() =~= with_area(self.mappings(), lo, lo, free, permission));
            assert(self.page_table.tables() =~= with_tables(self.page_table.tables(), lo, lo));
            assert(memory.bytes() =~= with_cleared(memory.bytes(), free, 0));
        }
        while next.0 < end.0
            invariant
                free == old(memory).free(),
                lo == start.0,
                lo <= next.0,
                lo < end.0 ==> next.0 <= end.0,
                lo >= end.0 ==> next.0 == lo,
                old(memory).wf(),
                old(self).clear(lo, end.0 as int),
                page_count(lo, end.0 as int) <= free.len(),
                memory.wf(),
                self.page_table.wf(),
                self.owns_frames(memory),
                old(self).area_mapped(old(memory), self, memory, lo, next.0 as int, permission),
            decreases end.0 - next.0,
        {
            let ghost n = next.0 - lo;
            let ghost set0 = *self;
            let ghost memory0 = *memory;
            if let Some(ppn) = memory.frame_alloc() {
                proof {
                    assert(ppn == free[free.len() - 1 - n]);
                    assert(memory0.free().contains(ppn)) by {
                        assert(memory0.free()[free.len() - 1 - n] == ppn);
                    }
                    assert(!old(self).page_table.mapped(next.0));
                    assert(!self.page_table.mapped(next.0));
                }
                self.page_table.map(next, ppn, permission);
                proof {
                    assert(memory.free() =~= free.take(free.len() - (n + 1)));
                    assert(self.mappings() =~= with_area(
                        old(self).mappings(),
                        lo,
                        next.0 + 1,
                        free,
                        permission,
                    ));
                    assert(self.page_table.tables() =~= with_tables(
                        old(self).page_table.tables(),
                        lo,
                        next.0 + 1,
                    ));
                    lemma_cleared_step(
                        old(memory).bytes(),
                        memory0.bytes(),
                        memory.bytes(),
                        free,
                        n,
                    );
                    assert forall|v: usize| #[trigger] self.page_table.mapped(v) implies {
                        &&& memory.usable(self.page_table.frame(v))
                        &&& !memory.free().contains(self.page_table.frame(v))
                    } by {
                        if v == next.0 {
                            assert(free.no_duplicates());
                        } else {
                            assert(set0.page_table.mapped(v));
                            assert(!memory0.free().contains(self.page_table.frame(v)));
                            if memory.free().contains(self.page_table.frame(v)) {
                                let k = memory.free().index_of(self.page_table.frame(v));
                                assert(memory0.free()[k] == self.page_table.frame(v));
                            }
                        }
                    }
                }
            }
            next.0 = next.0 + 1;
        }
        proof {
            let hi = end.0 as int;
            if hi < lo {
                let first = old(self).mappings();
                let tables = old(self).page_table.tables();
                assert(with_area(first, lo, hi, free, permission) =~= with_area(
                    first,
                    lo,
                    lo,
                    free,
                    permission,
                ));
                assert(with_tables(tables, lo, hi) =~= with_tables(tables, lo, lo));
            }
        }
    }

    /// Removes the mappings of the pages `start..end` and frees their frames.
    pub fn unmap_pages(&mut self, memory: &mut Memory, start: VirtPageNum, end: VirtPageNum)
        requires
            old(memory).wf(),
            old(self).page_table.wf(),
            old(self).owns_frames(old(memory)),
        ensures
            final(memory).wf(),
            final(self).page_table.wf(),
            final(self).owns_frames(final(memory)),
            old(self).area_unmapped(
                old(memory),
                final(self),
                final(memory),
                start.0 as int,
                end.0 as int,
            ),
    {
        let ghost lo = start.0 as int;
        let mut next: VirtPageNum = start;
        proof {
            assert(self.mappings() =~= without_area(self.mappings(), lo, lo));
            assert(memory.free() =~= memory.free() + frames_of(self.mappings(), lo, lo));
        }
        while next.0 < end.0
            invariant
                lo == start.0,
                lo <= next.0,
                lo < end.0 ==> next.0 <= end.0,
                lo >= end.0 ==> next.0 == lo,
                memory.wf(),
                self.page_table.wf(),
                self.owns_frames(memory),
                old(self).area_unmapped(old(memory), self, memory, lo, next.0 as int),
            decreases end.0 - next.0,
        {
            let ghost set0 = *self;
            let ghost memory0 = *memory;
            let removed: Option<usize> = self.page_table.unmap(next);
            proof {
                assert(self.mappings() =~= without_area(old(self).mappings(), lo, next.0 + 1));
                assert(set0.page_table.mapped(next.0) <==> old(self).mappings().contains_key(
                    next.0,
                ));
                assert forall|v: usize| #[trigger] self.page_table.mapped(v) implies {
                    &&& set0.page_table.mapped(v)
                    &&& self.page_table.frame(v) == set0.page_table.frame(v)
                    &&& v != next.0
                } by {}
            }
            if let Some(ppn) = removed {
                memory.frame_dealloc(ppn);
                proof {
                    assert forall|v: usize| #[trigger] self.page_table.mapped(v) implies {
                        &&& memory.usable(self.page_table.frame(v))
                        &&& !memory.free().contains(self.page_table.frame(v))
                    } by {
                        assert(set0.page_table.mapped(v));
                        assert(set0.page_table.mapped(next.0));
                        if memory.free().contains(self.page_table.frame(v)) {
                            let k = memory.free().index_of(self.page_table.frame(v));
                            if k < memory0.free().len() {
                                assert(memory0.free()[k] == self.page_table.frame(v));
                            }
                        }
                    }
                }
            }
            assert(memory.free() =~= old(memory).free() + frames_of(
                old(self).mappings(),
                lo,
                next.0 + 1,
            ));
            next.0 = next.0 + 1;
        }
        proof {
            let first = old(self).mappings();
            let hi = end.0 as int;
            if hi < lo {
                assert(without_area(first, lo, hi) =~= without_area(first, lo, lo));
            }
        }
    }

    /// Maps the area from `start_va` to `end_va`, widened to whole pages, to
    /// cleared frames.
    pub fn insert_framed_area(
        &mut self,
        memory: &mut Memory,
        start_va: VirtAddr,
        end_va: VirtAddr,
        permission: MapPermission,
    )
        requires
            old(memory).wf(),
            old(self).page_table.wf(),
            old(self).owns_frames(old(memory)),
            old(self).clear(start_va.floor_spec(), end_va.ceil_spec()),
            page_count(start_va.floor_spec(), end_va.ceil_spec()) <= old(memory).free().len(),
        ensures
            final(memory).wf(),
            final(self).page_table.wf(),
            final(self).owns_frames(final(memory)),
            old(self).area_mapped(
                old(memory),
                final(self),
                final(memory),
                start_va.floor_spec(),
                end_va.ceil_spec(),
                permission,
            ),
    {
        self.map_pages(memory, start_va.floor(), end_va.ceil(), permission);
    }

    /// Unmaps the area from `start_va` to `end_va`, widened to whole pages.
    pub fn remove_framed_area(&mut self, memory: &mut Memory, start_va: VirtAddr, end_va: VirtAddr)
        requires
            old(memory).wf(),
            old(self).page_table.wf(),
            old(self).owns_frames(old(memory)),
        ensures
            final(memory).wf(),
            final(self).page_table.wf(),
            final(self).owns_frames(final(memory)),
            old(self).area_unmapped(
                old(memory),
                final(self),
                final(memory),
                start_va.floor_spec(),
                end_va.ceil_spec(),
            ),
    {
        self.unmap_pages(memory, start_va.floor(), end_va.ceil());
    }
}

/// The frames of an area are those behind its mapped pages.
pub proof fn lemma_frames_of_contains(
    mappings: Map<usize, PageTableEntry>,
    lo: int,
    hi: int,
    ppn: usize,
)
    requires
        0 <= lo,
        hi <= usize::MAX,
    ensures
        frames_of(mappings, lo, hi).contains(ppn) <==> exists|v: usize|
            lo <= v < hi && #[trigger] mappings.contains_key(v) && mappings[v].ppn == ppn,
    decreases hi - lo,
{
    if lo < hi {
        let last = (hi - 1) as usize;
        let init = frames_of(mappings, lo, hi - 1);
        let all = frames_of(mappings, lo, hi);
        lemma_frames_of_contains(mappings, lo, hi - 1, ppn);
        if mappings.contains_key(last) {
            assert(all[init.len() as int] == mappings[last].ppn);
            if init.contains(ppn) {
                let k = init.index_of(ppn);
                assert(all[k] == ppn);
            }
            if all.contains(ppn) {
                let k = all.index_of(ppn);
                if k < init.len() {
                    assert(init[k] == ppn);
                }
            }
        }
    }
}

/// One more frame cleared.
proof fn lemma_cleared_step(
    first: Seq<u8>,
    before: Seq<u8>,
    after: Seq<u8>,
    free: Seq<usize>,
    n: int,
)
    requires
        0 <= n < free.len(),
        before == with_cleared(first, free, n),
        cleared(before, after, free[free.len() - 1 - n]),
        first.len() <= usize::MAX,
    ensures
        after == with_cleared(first, free, n + 1),
{
    let small = free.skip(free.len() - n);
    let large = free.skip(free.len() - (n + 1));
    assert forall|p: int| 0 <= p < after.len() implies after[p] == with_cleared(
        first,
        free,
        n + 1,
    )[p] by {
        let f = (p / PAGE_SIZE as int) as usize;
        if f == free[free.len() - 1 - n] {
            assert(large[0] == f);
        } else {
            if small.contains(f) {
                let k = small.index_of(f);
                assert(large[k + 1] == f);
            }
            if large.contains(f) {
                let k = large.index_of(f);
                assert(small[k - 1] == f);
            }
        }
    }
    assert(after =~= with_cleared(first, free, n + 1));
}

} // verus!
