//! Physical memory and the allocator of its frames.
use vstd::prelude::*;

use crate::config::PAGE_SIZE;

verus! {

/// A step in setting memory up.
pub enum SetupStep {
    /// The kernel heap was set up.
    Heap,
    /// The frame allocator was set up.
    Frames,
    /// An address space became the active one.
    Activate {
        /// The token of the address space.
        token: usize,
    },
}

/// The physical memory of the machine, with the state that the kernel keeps
/// of it: which frames are free, whether the kernel heap is up, and which
/// address space the processor translates through.
pub struct Memory {
    bytes: Vec<u8>,
    reserved: usize,
    free: Vec<usize>,
    heap_ready: bool,
    frames_ready: bool,
    satp: usize,
    steps: Ghost<Seq<SetupStep>>,
}

impl Memory {
    /// The contents of physical memory.
    pub closed spec fn bytes(&self) -> Seq<u8> {
        self.bytes@
    }

    /// The free frames, by number. The last one is handed out next.
    pub closed spec fn free(&self) -> Seq<usize> {
        self.free@
    }

    /// How many frames, from frame 0 on, hold the kernel itself.
    pub closed spec fn reserved(&self) -> nat {
        self.reserved as nat
    }

    /// The kernel heap has been set up.
    pub closed spec fn heap_ready(&self) -> bool {
        self.heap_ready
    }

    /// The frame allocator has been set up.
    pub closed spec fn frames_ready(&self) -> bool {
        self.frames_ready
    }

    /// The steps in which memory was set up, in the order in which they were taken.
    pub closed spec fn steps(&self) -> Seq<SetupStep> {
        self.steps@
    }

    /// The token of the active address space; 0 while there is none.
    pub closed spec fn satp(&self) -> usize {
        self.satp
    }

    /// How many frames there are.
    pub open spec fn frames(&self) -> int {
        self.bytes().len() as int / PAGE_SIZE as int
    }

    /// Frame `ppn` exists and does not hold the kernel.
    pub open spec fn usable(&self, ppn: usize) -> bool {
        self.reserved() <= ppn < self.frames()
    }

    /// Memory is a whole number of frames, and each free frame is listed once
    /// and is usable.
    pub open spec fn wf(&self) -> bool {
        &&& self.bytes().len() % PAGE_SIZE as nat == 0
        &&& self.bytes().len() <= usize::MAX
        &&& self.free().no_duplicates()
        &&& self.reserved() <= self.frames()
        &&& forall|k: int| 0 <= k < self.free().len() ==> self.usable(#[trigger] self.free()[k])
    }

    /// Everything but the contents of memory and the free frames agrees with `other`.
    pub open spec fn same_setup(&self, other: &Memory) -> bool {
        &&& self.reserved() == other.reserved()
        &&& self.heap_ready() == other.heap_ready()
        &&& self.frames_ready() == other.frames_ready()
        &&& self.satp() == other.satp()
        &&& self.steps() == other.steps()
        &&& self.bytes().len() == other.bytes().len()
    }

    /// Memory of `frames` zeroed frames, as it is when the machine starts.
    /// The kernel image occupies the first `reserved` of them.
    pub fn new(frames: usize, reserved: usize) -> (memory: Memory)
        requires
            frames * PAGE_SIZE <= usize::MAX,
            reserved <= frames,
        ensures
            memory.wf(),
            memory.bytes() == Seq::new((frames * PAGE_SIZE) as nat, |i: int| 0u8),
            memory.free() == Seq::<usize>::empty(),
            memory.reserved() == reserved,
            !memory.heap_ready(),
            !memory.frames_ready(),
            memory.satp() == 0,
            memory.steps() == Seq::<SetupStep>::empty(),
    {
        let bytes = vec![0u8; frames * PAGE_SIZE];
        assert(bytes@ =~= Seq::new((frames * PAGE_SIZE) as nat, |i: int| 0u8));
        Memory {
            bytes,
            reserved,
            free: Vec::new(),
            heap_ready: false,
            frames_ready: false,
            satp: 0,
            steps: Ghost(Seq::empty()),
        }
    }

    /// Sets up the kernel heap.
    pub fn init_heap(&mut self)
        ensures
            final(self).heap_ready(),
            final(self).bytes() == old(self).bytes(),
            final(self).free() == old(self).free(),
            final(self).reserved() == old(self).reserved(),
            final(self).frames_ready() == old(self).frames_ready(),
            final(self).satp() == old(self).satp(),
            final(self).steps() == old(self).steps().push(SetupStep::Heap),
    {
        self.heap_ready = true;
        self.steps = Ghost(self.steps@.push(SetupStep::Heap));
    }

    /// Makes every frame above the kernel image free. The list of free frames
    /// lives on the kernel heap.
    pub fn init_frame_allocator(&mut self)
        requires
            old(self).heap_ready(),
            old(self).wf(),
        ensures
            final(self).wf(),
            final(self).free() == Seq::new(
                (old(self).frames() - old(self).reserved()) as nat,
                |i: int| (old(self).reserved() + i) as usize,
            ),
            final(self).bytes() == old(self).bytes(),
            final(self).reserved() == old(self).reserved(),
            final(self).heap_ready(),
            final(self).frames_ready(),
            final(self).satp() == old(self).satp(),
            final(self).steps() == old(self).steps().push(SetupStep::Frames),
    {
        let frames: usize = self.bytes.len() / PAGE_SIZE;
        let mut free: Vec<usize> = Vec::new();
        let mut next: usize = self.reserved;
        while next < frames
            invariant
                *self == *old(self),
                frames == self.frames(),
                self.reserved() <= next <= frames,
                free@ =~= Seq::new(
                    (next - self.reserved()) as nat,
                    |i: int| (self.reserved() + i) as usize,
                ),
            decreases frames - next,
        {
            free.push(next);
            next += 1;
        }
        self.free = free;
        self.frames_ready = true;
        self.steps = Ghost(self.steps@.push(SetupStep::Frames));
    }

    /// Makes the address space that `token` names the active one. The heap and
    /// the frame allocator have to be set up by then.
    pub fn set_satp(&mut self, token: usize)
        requires
            old(self).heap_ready(),
            old(self).frames_ready(),
        ensures
            final(self).satp() == token,
            final(self).steps() == old(self).steps().push(SetupStep::Activate { token }),
            final(self).frames_ready() == old(self).frames_ready(),
            final(self).bytes() == old(self).bytes(),
            final(self).free() == old(self).free(),
            final(self).reserved() == old(self).reserved(),
            final(self).heap_ready() == old(self).heap_ready(),
    {
        self.satp = token;
        self.steps = Ghost(self.steps@.push(SetupStep::Activate { token }));
    }

    /// How many frames are free.
    pub fn free_frames(&self) -> (n: usize)
        ensures
            n == self.free().len(),
    {
        self.free.len()
    }

    /// The size of physical memory in bytes.
    pub fn size(&self) -> (n: usize)
        ensures
            n == self.bytes().len(),
    {
        self.bytes.len()
    }

    /// Appends `len` bytes from physical address `paddr` on to `dst`.
    pub fn copy_out(&self, paddr: usize, len: usize, dst: &mut Vec<u8>)
        requires
            paddr + len <= self.bytes().len(),
        ensures
            final(dst)@ == old(dst)@ + self.bytes().subrange(paddr as int, paddr + len),
    {
        let ghost before = dst@;
        let size: usize = self.bytes.len();
        let mut done: usize = 0;
        while done < len
            invariant
                done <= len,
                paddr + len <= size,
                size == self.bytes@.len(),
                dst@ =~= before + self.bytes@.subrange(paddr as int, paddr + done),
            decreases len - done,
        {
            dst.push(self.bytes[paddr + done]);
            done += 1;
        }
    }

    /// Copies `src[from..from + len]` to physical address `paddr`.
    pub fn copy_in(&mut self, paddr: usize, src: &Vec<u8>, from: usize, len: usize)
        requires
            paddr + len <= old(self).bytes().len(),
            from + len <= src.len(),
        ensures
            final(self).bytes() == replaced(
                old(self).bytes(),
                paddr as int,
                src@.subrange(from as int, from + len),
            ),
            final(self).free() == old(self).free(),
            final(self).same_setup(old(self)),
    {
        let ghost before = self.bytes@;
        let size: usize = self.bytes.len();
        let mut done: usize = 0;
        while done < len
            invariant
                done <= len,
                paddr + len <= size,
                size == self.bytes@.len(),
                from + len <= src.len(),
                self.same_setup(old(self)),
                self.free@ == old(self).free@,
                self.bytes@ =~= replaced(
                    before,
                    paddr as int,
                    src@.subrange(from as int, from + done),
                ),
            decreases len - done,
        {
            self.bytes.set(paddr + done, src[from + done]);
            done += 1;
        }
    }

    /// Takes a free frame and clears it; `None` if no frame is free.
    pub fn frame_alloc(&mut self) -> (frame: Option<usize>)
        requires
            old(self).wf(),
        ensures
            final(self).wf(),
            final(self).same_setup(old(self)),
            frame is None <==> old(self).free().len() == 0,
            frame is None ==> *final(self) == *old(self),
            frame matches Some(ppn) ==> {
                &&& ppn == old(self).free().last()
                &&& final(self).free() == old(self).free().drop_last()
                &&& cleared(old(self).bytes(), final(self).bytes(), ppn)
            },
    {
        if self.free.len() == 0 {
            return None;
        }
        let ghost before = *self;
        let ppn: usize = self.free[self.free.len() - 1];
        let start: usize = ppn * PAGE_SIZE;
        self.free.pop();
        let mut offset: usize = 0;
        while offset < PAGE_SIZE
            invariant
                offset <= PAGE_SIZE,
                before.wf(),
                start == ppn * PAGE_SIZE,
                ppn < before.frames(),
                self.free@ == before.free@.drop_last(),
                self.same_setup(&before),
                self.bytes@.len() == before.bytes@.len(),
                forall|p: int|
                    #![trigger self.bytes@[p]]
                    0 <= p < self.bytes@.len() ==> self.bytes@[p] == if start <= p < start + offset {
                        0u8
                    } else {
                        before.bytes@[p]
                    },
            decreases PAGE_SIZE - offset,
        {
            self.bytes.set(start + offset, 0u8);
            offset += 1;
        }
        Some(ppn)
    }

    /// Gives the frame `ppn` back.
    pub fn frame_dealloc(&mut self, ppn: usize)
        requires
            old(self).wf(),
            old(self).usable(ppn),
            !old(self).free().contains(ppn),
        ensures
            final(self).wf(),
            final(self).same_setup(old(self)),
            final(self).bytes() == old(self).bytes(),
            final(self).free() == old(self).free().push(ppn),
    {
        self.free.push(ppn);
    }
}

/// `bytes` with `part` in place of what stood at `at`.
pub open spec fn replaced(bytes: Seq<u8>, at: int, part: Seq<u8>) -> Seq<u8> {
    Seq::new(
        bytes.len(),
        |p: int|
            if at <= p < at + part.len() {
                part[p - at]
            } else {
                bytes[p]
            },
    )
}

/// `after` is `before` with frame `ppn` zeroed.
pub open spec fn cleared(before: Seq<u8>, after: Seq<u8>, ppn: usize) -> bool {
    &&& after.len() == before.len()
    &&& forall|p: int|
        #![trigger after[p]]
        0 <= p < after.len() ==> after[p] == if p / PAGE_SIZE as int == ppn {
            0u8
        } else {
            before[p]
        }
}

} // verus!
