//! Virtual addresses and page numbers.
use vstd::prelude::*;

use crate::config::{PAGE_SIZE, VA_SPACE};

verus! {

/// The SV39 address that a machine word names: its low 39 bits.
pub open spec fn va(word: usize) -> int {
    word as int % VA_SPACE as int
}

/// The number of the page that holds the byte at virtual address `a`.
pub open spec fn page_of(a: int) -> usize {
    (a / PAGE_SIZE as int) as usize
}

/// A virtual address of an SV39 address space.
#[derive(Clone, Copy, Debug, PartialEq, Eq, Structural)]
pub struct VirtAddr(pub usize);

/// The number of a virtual page.
#[derive(Clone, Copy, Debug, PartialEq, Eq, Structural)]
pub struct VirtPageNum(pub usize);

impl VirtAddr {
    /// The page number rounded down.
    pub open spec fn floor_spec(&self) -> int {
        self.0 as int / PAGE_SIZE as int
    }

    /// The page number rounded up.
    pub open spec fn ceil_spec(&self) -> int {
        (self.0 as int + PAGE_SIZE as int - 1) / PAGE_SIZE as int
    }

    /// The page that holds this address.
    pub fn floor(&self) -> (vpn: VirtPageNum)
        ensures
            vpn.0 == self.floor_spec(),
    {
        VirtPageNum(self.0 / PAGE_SIZE)
    }

    /// The first page that starts at or after this address.
    pub fn ceil(&self) -> (vpn: VirtPageNum)
        ensures
            vpn.0 == self.ceil_spec(),
    {
        if self.0 % PAGE_SIZE == 0 {
            VirtPageNum(self.0 / PAGE_SIZE)
        } else {
            VirtPageNum(self.0 / PAGE_SIZE + 1)
        }
    }
}

impl From<usize> for VirtAddr {
    fn from(word: usize) -> (r: VirtAddr) {
        VirtAddr((word as u64 % VA_SPACE) as usize)
    }
}

impl vstd::std_specs::convert::FromSpecImpl<usize> for VirtAddr {
    open spec fn obeys_from_spec() -> bool {
        true
    }

    open spec fn from_spec(word: usize) -> VirtAddr {
        VirtAddr(va(word) as usize)
    }
}

} // verus!
