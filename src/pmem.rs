//! The guest's physical memory: a bump allocator over one host region whose
//! host virtual address is also its guest physical address.
use vstd::prelude::*;

use crate::paging::{BASE_PAGE_SIZE, PADDR_LIMIT};

verus! {

/// Size of every region: 4 MiB.
pub const REGION_SIZE: usize = 0x40_0000;

/// The allocator ran out of pages.
#[derive(Debug, PartialEq, Eq, Structural, Copy, Clone)]
pub struct OutOfMemory;

/// A region of guest physical memory handed out page by page.
pub struct PhysicalMemory {
    offset: u64,
    allocated: usize,
    size: usize,
}

impl PhysicalMemory {
    /// Guest physical base of the region.
    pub closed spec fn spec_offset(&self) -> u64 {
        self.offset
    }

    /// Bytes handed out so far, from the base up.
    pub closed spec fn spec_allocated(&self) -> usize {
        self.allocated
    }

    /// Size of the region in bytes.
    pub closed spec fn spec_size(&self) -> usize {
        self.size
    }

    /// Whole pages still free.
    pub open spec fn free_pages(&self) -> int {
        (self.spec_size() - self.spec_allocated()) / BASE_PAGE_SIZE as int
    }

    /// The cursor never passes the end, everything is page-granular, and
    /// the region's addresses are valid physical addresses.
    pub open spec fn wf(&self) -> bool {
        &&& self.spec_allocated() <= self.spec_size()
        &&& self.spec_allocated() % (BASE_PAGE_SIZE as usize) == 0
        &&& self.spec_size() % (BASE_PAGE_SIZE as usize) == 0
        &&& self.spec_offset() % BASE_PAGE_SIZE == 0
        &&& self.spec_offset() + self.spec_size() <= PADDR_LIMIT
    }

    /// `after` is `before` once `how_many` pages at `addr` were handed out.
    pub open spec fn alloc_step(before: Self, how_many: u64, addr: u64, after: Self) -> bool {
        &&& addr == before.spec_offset() + before.spec_allocated()
        &&& after.spec_offset() == before.spec_offset()
        &&& after.spec_size() == before.spec_size()
        &&& after.spec_allocated() == before.spec_allocated() + how_many * BASE_PAGE_SIZE
    }

    /// An empty 4 MiB region at guest physical address `offset`.
    pub fn new(offset: u64) -> (r: PhysicalMemory)
        requires
            offset % BASE_PAGE_SIZE == 0,
            offset + REGION_SIZE <= PADDR_LIMIT,
        ensures
            r.wf(),
            r.spec_offset() == offset,
            r.spec_size() == REGION_SIZE,
            r.spec_allocated() == 0,
    {
        PhysicalMemory { offset, allocated: 0, size: REGION_SIZE }
    }

    /// Guest physical base of the region.
    pub fn offset(&self) -> (r: u64)
        ensures
            r == self.spec_offset(),
    {
        self.offset
    }

    /// Size of the region in bytes.
    pub fn len(&self) -> (r: usize)
        ensures
            r == self.spec_size(),
    {
        self.size
    }

    /// Bytes handed out so far.
    pub fn allocated(&self) -> (r: usize)
        ensures
            r == self.spec_allocated(),
    {
        self.allocated
    }

    /// Hand out the next `how_many` pages; their guest physical address is
    /// returned. Fails, changing nothing, when fewer pages are left.
    pub fn alloc_pages(&mut self, how_many: u64) -> (r: Result<u64, OutOfMemory>)
        requires
            old(self).wf(),
        ensures
            final(self).wf(),
            how_many <= old(self).free_pages() <==> r is Ok,
            r is Ok ==> Self::alloc_step(*old(self), how_many, r->Ok_0, *final(self)),
            r is Err ==> *final(self) == *old(self),
    {
        let free: usize = (self.size - self.allocated) / (BASE_PAGE_SIZE as usize);
        if how_many > free as u64 {
            return Err(OutOfMemory);
        }
        proof {
            let f = (self.size - self.allocated) as int;
            assert(how_many * 4096 <= f) by (nonlinear_arith)
                requires
                    how_many <= f / 4096,
                    f >= 0,
            ;
            let a = self.allocated as int;
            assert((a + how_many * 4096) % 4096 == 0) by (nonlinear_arith)
                requires
                    a % 4096 == 0,
            ;
        }
        let to_allocate: usize = how_many as usize * (BASE_PAGE_SIZE as usize);
        let ptr = self.offset + self.allocated as u64;
        self.allocated = self.allocated + to_allocate;
        Ok(ptr)
    }
}

/// Chunks handed out by two calls of `alloc_pages` on one region, the
/// second after the first, never overlap, and both lie inside the region.
pub proof fn lemma_chunks_disjoint(
    m0: PhysicalMemory,
    n: u64,
    a: u64,
    m1: PhysicalMemory,
    m2: PhysicalMemory,
    k: u64,
    b: u64,
    m3: PhysicalMemory,
)
    requires
        m0.wf(),
        m3.wf(),
        PhysicalMemory::alloc_step(m0, n, a, m1),
        PhysicalMemory::alloc_step(m2, k, b, m3),
        m2.spec_offset() == m1.spec_offset(),
        m1.spec_allocated() <= m2.spec_allocated(),
    ensures
        a + n * BASE_PAGE_SIZE <= b,
        m0.spec_offset() <= a,
        b + k * BASE_PAGE_SIZE <= m3.spec_offset() + m3.spec_size(),
{
}

} // verus!
