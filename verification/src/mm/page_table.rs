//! Page tables: which physical frame stands behind each virtual page.
use vstd::prelude::*;

use std::collections::{BTreeMap, BTreeSet};

use crate::config::{PAGE_SIZE, TABLE_ENTRIES, VA_SPACE};
use crate::mm::address::{page_of, va, VirtAddr, VirtPageNum};
use crate::mm::frame_allocator::Memory;

verus! {

broadcast use {vstd::std_specs::btree::group_btree_axioms, vstd::laws_cmp::group_laws_cmp};

/// What user and kernel may do with a page.
#[derive(Clone, Copy, Debug, PartialEq, Eq, Structural)]
pub struct MapPermission {
    /// The page can be read.
    pub r: bool,
    /// The page can be written.
    pub w: bool,
    /// The page can be executed.
    pub x: bool,
    /// User mode can use the page.
    pub u: bool,
}

impl MapPermission {
    /// The permission that allows nothing.
    pub open spec fn empty_spec() -> MapPermission {
        MapPermission { r: false, w: false, x: false, u: false }
    }

    /// This permission, and in user mode.
    pub open spec fn with_user_spec(self) -> MapPermission {
        MapPermission { u: true, ..self }
    }

    /// The permission that allows nothing.
    pub fn empty() -> (p: MapPermission)
        ensures
            p == Self::empty_spec(),
    {
        MapPermission { r: false, w: false, x: false, u: false }
    }

    /// This permission, and in user mode.
    pub fn with_user(self) -> (p: MapPermission)
        ensures
            p == self.with_user_spec(),
    {
        MapPermission { r: self.r, w: self.w, x: self.x, u: true }
    }
}

/// A leaf entry of a page table.
#[derive(Clone, Copy, Debug, PartialEq, Eq, Structural)]
pub struct PageTableEntry {
    /// The entry maps a page.
    pub valid: bool,
    /// The frame behind the page.
    pub ppn: usize,
    /// What may be done with the page.
    pub permission: MapPermission,
}

impl PageTableEntry {
    /// The entry of a page that is not mapped.
    pub open spec fn empty_spec() -> PageTableEntry {
        PageTableEntry { valid: false, ppn: 0, permission: MapPermission::empty_spec() }
    }

    /// The entry that maps a page to frame `ppn`.
    pub open spec fn mapping(ppn: usize, permission: MapPermission) -> PageTableEntry {
        PageTableEntry { valid: true, ppn, permission }
    }

    /// The entry of a page that is not mapped.
    pub fn empty() -> (pte: PageTableEntry)
        ensures
            pte == Self::empty_spec(),
    {
        PageTableEntry { valid: false, ppn: 0, permission: MapPermission::empty() }
    }

    /// Whether the entry maps a page.
    pub fn is_valid(&self) -> (b: bool)
        ensures
            b == self.valid,
    {
        self.valid
    }

    /// Whether user mode can use the page.
    pub fn user(&self) -> (b: bool)
        ensures
            b == self.permission.u,
    {
        self.permission.u
    }

    /// Whether the page can be read.
    pub fn readable(&self) -> (b: bool)
        ensures
            b == self.permission.r,
    {
        self.permission.r
    }

    /// Whether the page can be written.
    pub fn writable(&self) -> (b: bool)
        ensures
            b == self.permission.w,
    {
        self.permission.w
    }

    /// The frame behind the page.
    pub fn ppn(&self) -> (ppn: usize)
        ensures
            ppn == self.ppn,
    {
        self.ppn
    }
}

/// The page table of one address space: which leaf tables of the SV39 tree
/// exist, and which pages their entries map. One leaf table holds the entries
/// of `TABLE_ENTRIES` consecutive pages.
pub struct PageTable {
    token: usize,
    tables: BTreeSet<usize>,
    entries: BTreeMap<usize, PageTableEntry>,
}

impl PageTable {
    /// The value that selects this page table in the processor.
    pub closed spec fn token(&self) -> usize {
        self.token
    }

    /// The leaf tables that exist, by number.
    pub closed spec fn tables(&self) -> Set<usize> {
        self.tables@
    }

    /// The pages that are mapped, with their entries.
    pub closed spec fn mappings(&self) -> Map<usize, PageTableEntry> {
        self.entries@
    }

    /// Page `vpn` is mapped.
    pub open spec fn mapped(&self, vpn: usize) -> bool {
        self.mappings().contains_key(vpn)
    }

    /// The frame behind page `vpn`.
    pub open spec fn frame(&self, vpn: usize) -> usize {
        self.mappings()[vpn].ppn
    }

    /// The entries are valid, lie in tables that exist, and no two pages
    /// share a frame.
    pub open spec fn wf(&self) -> bool {
        &&& forall|vpn: usize|
            #![trigger self.mapped(vpn)]
            self.mapped(vpn) ==> self.mappings()[vpn].valid && self.tables().contains(
                vpn / TABLE_ENTRIES,
            )
        &&& forall|v: usize, w: usize|
            #![trigger self.mapped(v), self.mapped(w)]
            self.mapped(v) && self.mapped(w) && self.frame(v) == self.frame(w) ==> v == w
    }

    /// The entry that a walk of the tables finds for page `vpn`: none if there
    /// is no leaf table for it, and an invalid one if the table's slot is empty.
    pub open spec fn walk(&self, vpn: usize) -> Option<PageTableEntry> {
        if self.mapped(vpn) {
            Some(self.mappings()[vpn])
        } else if self.tables().contains(vpn / TABLE_ENTRIES) {
            Some(PageTableEntry::empty_spec())
        } else {
            None
        }
    }

    /// The physical address of the byte at virtual address `a`.
    pub open spec fn phys(&self, a: int) -> int {
        self.frame(page_of(a)) * PAGE_SIZE + a % PAGE_SIZE as int
    }

    /// The `len` bytes from virtual address `a` on all have memory behind them.
    pub open spec fn backed(&self, memory: &Memory, a: int, len: nat) -> bool {
        &&& 0 <= a
        &&& a + len <= VA_SPACE
        &&& forall|b: int|
            #![trigger page_of(b)]
            a <= b < a + len ==> self.mapped(page_of(b)) && self.frame(page_of(b))
                < memory.frames()
    }

    /// The `len` bytes from virtual address `a` on, where memory holds `bytes`.
    pub open spec fn contents(&self, bytes: Seq<u8>, a: int, len: nat) -> Seq<u8> {
        Seq::new(len, |i: int| bytes[self.phys(a + i)])
    }

    /// `after` is the memory `before` with `data` written to virtual address `a`.
    pub open spec fn written(
        &self,
        before: Seq<u8>,
        after: Seq<u8>,
        a: int,
        data: Seq<u8>,
    ) -> bool {
        &&& after.len() == before.len()
        &&& forall|b: int| a <= b < a + data.len() ==> after[#[trigger] self.phys(b)] == data[b - a]
        &&& forall|p: int|
            #![trigger after[p]]
            0 <= p < after.len() && (forall|b: int|
                a <= b < a + data.len() ==> #[trigger] self.phys(b) != p) ==> after[p] == before[p]
    }

    /// User mode can read the page that holds the byte at `word`.
    pub open spec fn user_readable(&self, word: usize) -> bool {
        self.walk(page_of(va(word))) matches Some(pte) && pte.valid && pte.permission.u
            && pte.permission.r
    }

    /// User mode can write the page that holds the byte at `word`.
    pub open spec fn user_writable(&self, word: usize) -> bool {
        self.walk(page_of(va(word))) matches Some(pte) && pte.valid && pte.permission.u
            && pte.permission.w
    }

    /// User mode can execute the page that holds the byte at `word`.
    pub open spec fn user_executable(&self, word: usize) -> bool {
        self.walk(page_of(va(word))) matches Some(pte) && pte.valid && pte.permission.u
            && pte.permission.x
    }

    /// Distinct virtual addresses have distinct physical addresses.
    pub proof fn lemma_phys_injective(&self, a: int, b: int)
        requires
            self.wf(),
            0 <= a < VA_SPACE,
            0 <= b < VA_SPACE,
            self.mapped(page_of(a)),
            self.mapped(page_of(b)),
            self.phys(a) == self.phys(b),
        ensures
            a == b,
    {
    }

    /// A page table without any mapping.
    pub fn new(token: usize) -> (table: PageTable)
        ensures
            table.wf(),
            table.token() == token,
            table.mappings() == Map::<usize, PageTableEntry>::empty(),
            table.tables() == Set::<usize>::empty(),
    {
        PageTable { token, tables: BTreeSet::new(), entries: BTreeMap::new() }
    }

    /// The value that selects this page table in the processor.
    pub fn get_token(&self) -> (token: usize)
        ensures
            token == self.token(),
    {
        self.token
    }

    /// Walks the tables for the entry of page `vpn`.
    pub fn translate(&self, vpn: VirtPageNum) -> (entry: Option<PageTableEntry>)
        ensures
            entry == self.walk(vpn.0),
    {
        match self.entries.get(&vpn.0) {
            Some(pte) => Some(*pte),
            None => {
                if self.tables.contains(&(vpn.0 / TABLE_ENTRIES)) {
                    Some(PageTableEntry::empty())
                } else {
                    None
                }
            },
        }
    }

    /// Whether the `len` bytes at `ptr` all have memory behind them.
    pub fn is_backed(&self, memory: &Memory, ptr: usize, len: usize) -> (b: bool)
        requires
            self.wf(),
            memory.wf(),
        ensures
            b == self.backed(memory, va(ptr), len as nat),
    {
        let first: VirtAddr = VirtAddr::from(ptr);
        let frames: usize = memory.size() / PAGE_SIZE;
        let ghost a = va(ptr);
        if len as u64 > VA_SPACE - first.0 as u64 {
            return false;
        }
        let mut done: usize = 0;
        while done < len
            invariant
                done <= len,
                self.wf(),
                a == va(ptr),
                a == first.0,
                a + len <= VA_SPACE,
                frames == memory.frames(),
                self.backed(memory, a, done as nat),
            decreases len - done,
        {
            let start: u64 = first.0 as u64 + done as u64;
            let vpn: VirtPageNum = VirtPageNum((start / PAGE_SIZE as u64) as usize);
            assert(page_of(a + done) == vpn.0);
            let here: bool = match self.translate(vpn) {
                Some(pte) => pte.is_valid() && pte.ppn() < frames,
                None => false,
            };
            if !here {
                return false;
            }
            done += 1;
        }
        true
    }

    /// Maps page `vpn` to frame `ppn`, adding the leaf table where it is missing.
    pub fn map(&mut self, vpn: VirtPageNum, ppn: usize, permission: MapPermission)
        requires
            old(self).wf(),
            !old(self).mapped(vpn.0),
            forall|v: usize| #[trigger] old(self).mapped(v) ==> old(self).frame(v) != ppn,
        ensures
            final(self).wf(),
            final(self).token() == old(self).token(),
            final(self).mappings() == old(self).mappings().insert(
                vpn.0,
                PageTableEntry::mapping(ppn, permission),
            ),
            final(self).tables() == old(self).tables().insert(vpn.0 / TABLE_ENTRIES),
    {
        self.tables.insert(vpn.0 / TABLE_ENTRIES);
        self.entries.insert(vpn.0, PageTableEntry { valid: true, ppn, permission });
        assert forall|v: usize| #[trigger] self.mapped(v) implies v == vpn.0 || old(self).mapped(v) by {}
    }

    /// Removes the mapping of page `vpn` and returns the frame that was behind
    /// it; `None` if the page was not mapped.
    pub fn unmap(&mut self, vpn: VirtPageNum) -> (frame: Option<usize>)
        requires
            old(self).wf(),
        ensures
            final(self).wf(),
            final(self).token() == old(self).token(),
            final(self).tables() == old(self).tables(),
            final(self).mappings() == old(self).mappings().remove(vpn.0),
            frame == if old(self).mapped(vpn.0) {
                Some(old(self).frame(vpn.0))
            } else {
                None
            },
    {
        let frame: Option<usize> = match self.entries.get(&vpn.0) {
            Some(pte) => Some(pte.ppn),
            None => None,
        };
        self.entries.remove(&vpn.0);
        assert forall|v: usize| #[trigger] self.mapped(v) implies old(self).mapped(v) by {}
        assert(self.mappings() =~= old(self).mappings().remove(vpn.0));
        frame
    }
}

/// A run of bytes in physical memory.
#[derive(Clone, Copy, Debug, PartialEq, Eq, Structural)]
pub struct Segment {
    /// Physical address of the first byte.
    pub paddr: usize,
    /// Number of bytes.
    pub len: usize,
}

/// How many bytes the first `k` segments hold.
pub open spec fn offset_of(segments: Seq<Segment>, k: int) -> int
    decreases k,
{
    if k <= 0 {
        0
    } else {
        offset_of(segments, k - 1) + segments[k - 1].len
    }
}

/// `segments`, one after the other, are the bytes at virtual addresses
/// `a..a + len`, and each lies inside one frame of `memory`.
pub open spec fn covers(
    segments: Seq<Segment>,
    table: &PageTable,
    memory: &Memory,
    a: int,
    len: int,
) -> bool {
    &&& offset_of(segments, segments.len() as int) == len
    &&& forall|k: int|
        #![trigger segments[k]]
        0 <= k < segments.len() ==> {
            &&& segments[k].len > 0
            &&& segments[k].paddr % PAGE_SIZE + segments[k].len <= PAGE_SIZE
            &&& segments[k].paddr + segments[k].len <= memory.bytes().len()
            &&& forall|b: int|
                a + offset_of(segments, k) <= b < a + offset_of(segments, k) + segments[k].len
                    ==> #[trigger] table.phys(b) == segments[k].paddr + (b - a - offset_of(
                    segments,
                    k,
                ))
        }
}

/// A prefix of the segments holds as many bytes with or without what follows.
proof fn lemma_offset_push(segments: Seq<Segment>, segment: Segment, k: int)
    requires
        k <= segments.len(),
    ensures
        offset_of(segments.push(segment), k) == offset_of(segments, k),
    decreases k,
{
    if k > 0 {
        lemma_offset_push(segments, segment, k - 1);
    }
}

/// Fewer segments hold fewer bytes.
pub proof fn lemma_offset_monotonic(segments: Seq<Segment>, j: int, k: int)
    requires
        0 <= j <= k <= segments.len(),
    ensures
        0 <= offset_of(segments, j) <= offset_of(segments, k),
    decreases k,
{
    if j < k {
        lemma_offset_monotonic(segments, j, k - 1);
    } else if 0 < k {
        lemma_offset_monotonic(segments, k - 1, k - 1);
    }
}

/// The pieces of physical memory behind the `len` bytes at `ptr`, cut at page
/// boundaries.
pub fn translated_byte_buffer(
    table: &PageTable,
    memory: &Memory,
    ptr: usize,
    len: usize,
) -> (segments: Vec<Segment>)
    requires
        memory.wf(),
        table.backed(memory, va(ptr), len as nat),
    ensures
        covers(segments@, table, memory, va(ptr), len as int),
{
    let mut segments: Vec<Segment> = Vec::new();
    let first: VirtAddr = VirtAddr::from(ptr);
    let ghost a = va(ptr);
    let mut done: usize = 0;
    while done < len
        invariant
            done <= len,
            memory.wf(),
            a == first.0,
            table.backed(memory, a, len as nat),
            covers(segments@, table, memory, a, done as int),
        decreases len - done,
    {
        let start: u64 = first.0 as u64 + done as u64;
        let vpn: VirtPageNum = VirtPageNum((start / PAGE_SIZE as u64) as usize);
        let offset: usize = (start % PAGE_SIZE as u64) as usize;
        assert(page_of(a + done) == vpn.0);
        let ppn: usize = match table.translate(vpn) {
            Some(pte) => pte.ppn(),
            None => 0,
        };
        let room: usize = PAGE_SIZE - offset;
        let n: usize = if room < len - done {
            room
        } else {
            len - done
        };
        let segment: Segment = Segment { paddr: ppn * PAGE_SIZE + offset, len: n };
        let ghost before = segments@;
        segments.push(segment);
        proof {
            assert forall|k: int| 0 <= k <= before.len() implies #[trigger] offset_of(segments@, k)
                == offset_of(before, k) by {
                lemma_offset_push(before, segment, k);
            }
            assert(offset_of(segments@, before.len() as int) == done);
            assert forall|b: int| a + done <= b < a + done + n implies #[trigger] table.phys(b)
                == segment.paddr + (b - a - done) by {
                assert(page_of(b) == vpn.0);
            }
            assert forall|k: int| 0 <= k < before.len() implies #[trigger] segments@[k]
                == before[k] by {}
        }
        done += n;
    }
    segments
}

} // verus!
