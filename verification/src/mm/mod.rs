//! Memory management: physical frames, SV39 page tables, the memory set of a
//! task, and the copies between kernel and user memory that go through them.
use vstd::prelude::*;

pub mod address;
pub mod frame_allocator;
pub mod memory_set;
pub mod page_table;
pub mod user_data;

use crate::mm::address::{page_of, va, VirtAddr, VirtPageNum};
use crate::mm::frame_allocator::{replaced, Memory, SetupStep};
use crate::mm::memory_set::MemorySet;
use crate::mm::page_table::{
    covers, lemma_offset_monotonic, offset_of, translated_byte_buffer, PageTable, Segment,
};
use crate::mm::user_data::{FromBytes, ToBytes};

verus! {

/// Reads `len` bytes of user memory at `src`, segment by segment.
fn read_virt(memory: &Memory, table: &PageTable, src: usize, len: usize) -> (bytes: Vec<u8>)
    requires
        memory.wf(),
        table.backed(memory, va(src), len as nat),
    ensures
        bytes@ == table.contents(memory.bytes(), va(src), len as nat),
{
    let segments: Vec<Segment> = translated_byte_buffer(table, memory, src, len);
    let ghost a = va(src);
    let mut bytes: Vec<u8> = Vec::new();
    let mut k: usize = 0;
    while k < segments.len()
        invariant
            k <= segments.len(),
            covers(segments@, table, memory, a, len as int),
            offset_of(segments@, k as int) == bytes@.len(),
            bytes@ =~= table.contents(memory.bytes(), a, bytes@.len()),
        decreases segments.len() - k,
    {
        let segment: Segment = segments[k];
        let ghost before = bytes@;
        memory.copy_out(segment.paddr, segment.len, &mut bytes);
        k += 1;
        assert forall|i: int| 0 <= i < bytes@.len() implies bytes@[i] == memory.bytes()[table.phys(
            a + i,
        )] by {
            if i < before.len() {
                assert(before[i] == table.contents(memory.bytes(), a, before.len())[i]);
            }
        }
    }
    bytes
}

/// Writes `data` to user memory at `dst`, segment by segment.
pub(crate) fn write_virt(memory: &mut Memory, table: &PageTable, data: &Vec<u8>, dst: usize)
    requires
        old(memory).wf(),
        table.wf(),
        table.backed(old(memory), va(dst), data@.len()),
    ensures
        final(memory).wf(),
        final(memory).same_setup(old(memory)),
        final(memory).free() == old(memory).free(),
        table.written(old(memory).bytes(), final(memory).bytes(), va(dst), data@),
{
    let segments: Vec<Segment> = translated_byte_buffer(table, memory, dst, data.len());
    let ghost a = va(dst);
    let mut offset: usize = 0;
    let mut k: usize = 0;
    assert(data@.take(0) =~= Seq::<u8>::empty());
    while k < segments.len()
        invariant
            k <= segments.len(),
            table.wf(),
            table.backed(old(memory), a, data@.len()),
            covers(segments@, table, old(memory), a, data@.len() as int),
            offset_of(segments@, k as int) == offset,
            offset <= data@.len(),
            memory.wf(),
            memory.same_setup(old(memory)),
            memory.free() == old(memory).free(),
            table.written(old(memory).bytes(), memory.bytes(), a, data@.take(offset as int)),
        decreases segments.len() - k,
    {
        let segment: Segment = segments[k];
        let ghost before = memory.bytes();
        proof {
            lemma_offset_monotonic(segments@, k + 1, segments@.len() as int);
        }
        memory.copy_in(segment.paddr, data, offset, segment.len);
        proof {
            lemma_written_step(
                table,
                old(memory),
                before,
                a,
                data@,
                offset as int,
                segment,
            );
        }
        offset += segment.len;
        k += 1;
    }
    assert(data@.take(data@.len() as int) =~= data@);
}

/// One more segment written.
proof fn lemma_written_step(
    table: &PageTable,
    memory: &Memory,
    before: Seq<u8>,
    a: int,
    data: Seq<u8>,
    offset: int,
    segment: Segment,
)
    requires
        memory.wf(),
        table.wf(),
        table.backed(memory, a, data.len()),
        0 <= offset,
        offset + segment.len <= data.len(),
        segment.paddr + segment.len <= memory.bytes().len(),
        table.written(memory.bytes(), before, a, data.take(offset)),
        forall|b: int|
            a + offset <= b < a + offset + segment.len ==> #[trigger] table.phys(b)
                == segment.paddr + (b - a - offset),
    ensures
        table.written(
            memory.bytes(),
            replaced(
                before,
                segment.paddr as int,
                data.subrange(offset, offset + segment.len),
            ),
            a,
            data.take(offset + segment.len),
        ),
{
    let after = replaced(
        before,
        segment.paddr as int,
        data.subrange(offset, offset + segment.len),
    );
    let n = offset + segment.len;
    assert forall|b: int| a <= b < a + n implies after[#[trigger] table.phys(b)] == data.take(
        n,
    )[b - a] by {
        let p = table.phys(b);
        assert(table.mapped(page_of(b)));
        assert(0 <= p < memory.bytes().len());
        if b < a + offset {
            if segment.paddr <= p < segment.paddr + segment.len {
                let c = a + offset + (p - segment.paddr);
                assert(table.phys(c) == p);
                assert(table.mapped(page_of(c)));
                table.lemma_phys_injective(b, c);
            }
            assert(data.take(offset)[b - a] == data[b - a]);
        }
    }
    assert forall|p: int|
        #![trigger after[p]]
        0 <= p < after.len() && (forall|b: int|
            a <= b < a + n ==> #[trigger] table.phys(b) != p) implies after[p] == memory.bytes()[p] by {
        if segment.paddr <= p < segment.paddr + segment.len {
            let c = a + offset + (p - segment.paddr);
            assert(table.phys(c) == p);
        }
        assert(before[p] == memory.bytes()[p]);
    }
}

/// One call of `init`.
pub open spec fn init_step(before: &Memory, after: &Memory, token: usize) -> bool {
    &&& after.wf()
    &&& after.steps() == before.steps() + seq![
        SetupStep::Heap,
        SetupStep::Frames,
        SetupStep::Activate { token },
    ]
    &&& after.free() == Seq::new(
        (before.frames() - before.reserved()) as nat,
        |i: int| (before.reserved() + i) as usize,
    )
    &&& after.heap_ready()
    &&& after.frames_ready()
    &&& after.satp() == token
    &&& after.bytes() == before.bytes()
    &&& after.reserved() == before.reserved()
}

/// Sets up the kernel heap, then the frame allocator, then makes the kernel's
/// own address space the active one; each once.
pub fn init(memory: &mut Memory, kernel_space: &MemorySet)
    requires
        old(memory).wf(),
    ensures
        final(memory).wf(),
        final(memory).steps() == old(memory).steps() + seq![
            SetupStep::Heap,
            SetupStep::Frames,
            SetupStep::Activate { token: kernel_space.page_table.token() },
        ],
        final(memory).heap_ready(),
        final(memory).frames_ready(),
        final(memory).free() == Seq::new(
            (old(memory).frames() - old(memory).reserved()) as nat,
            |i: int| (old(memory).reserved() + i) as usize,
        ),
        final(memory).satp() == kernel_space.page_table.token(),
        final(memory).bytes() == old(memory).bytes(),
        final(memory).reserved() == old(memory).reserved(),
        init_step(old(memory), final(memory), kernel_space.page_table.token()),
{
    memory.init_heap();
    memory.init_frame_allocator();
    kernel_space.activate(memory);
    assert(memory.steps() =~= old(memory).steps() + seq![
        SetupStep::Heap,
        SetupStep::Frames,
        SetupStep::Activate { token: kernel_space.page_table.token() },
    ]);
}

/// Reads a value from user memory at `src` through `table`; `None` if user
/// mode cannot read the page at `src`.
pub fn trace_read<T: FromBytes>(memory: &Memory, table: &PageTable, src: usize) -> (value: Option<T>)
    requires
        memory.wf(),
        table.user_readable(src) ==> table.backed(memory, va(src), T::size()),
    ensures
        value is Some <==> table.user_readable(src),
        value matches Some(v) ==> v.bytes() == table.contents(memory.bytes(), va(src), T::size()),
{
    let start_va: VirtAddr = VirtAddr::from(src);
    let vpn: VirtPageNum = start_va.floor();
    let pte = match table.translate(vpn) {
        Some(pte) => pte,
        None => {
            return None;
        },
    };
    if !pte.is_valid() {
        return None;
    }
    if !pte.user() {
        return None;
    }
    if !pte.readable() {
        return None;
    }
    let len: usize = T::size_of();
    let bytes: Vec<u8> = read_virt(memory, table, src, len);
    Some(T::from_bytes(&bytes))
}

/// Writes `data` to user memory at `dst` through `table`. Returns whether user
/// mode can write the page at `dst`; if not, nothing is written.
pub fn trace_write<T: ToBytes>(
    memory: &mut Memory,
    table: &PageTable,
    data: T,
    dst: usize,
) -> (done: bool)
    requires
        old(memory).wf(),
        table.wf(),
        table.user_writable(dst) ==> table.backed(old(memory), va(dst), T::size()),
    ensures
        final(memory).wf(),
        done == table.user_writable(dst),
        !done ==> *final(memory) == *old(memory),
        done ==> {
            &&& final(memory).same_setup(old(memory))
            &&& final(memory).free() == old(memory).free()
            &&& table.written(
                old(memory).bytes(),
                final(memory).bytes(),
                va(dst),
                data.bytes(),
            )
        },
{
    let start_va: VirtAddr = VirtAddr::from(dst);
    let vpn: VirtPageNum = start_va.floor();
    let pte = match table.translate(vpn) {
        Some(pte) => pte,
        None => {
            return false;
        },
    };
    if !pte.is_valid() {
        return false;
    }
    if !pte.user() {
        return false;
    }
    if !pte.writable() {
        return false;
    }
    let bytes: Vec<u8> = data.to_bytes();
    proof {
        data.lemma_bytes_len();
    }
    write_virt(memory, table, &bytes, dst);
    true
}

} // verus!
