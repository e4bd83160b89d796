//! The huge-page allocator's decision logic.
//!
//! The allocator itself is stateless apart from the huge-page granularity it
//! was constructed with.  Every allocation request is rounded up to a
//! multiple of that granularity and becomes one anonymous huge-page-backed
//! mapping of exactly that many bytes; deallocation unmaps exactly the
//! rounded length.  The mapping and unmapping system calls are made by the
//! embedding program; this module decides, and proves correct, the byte
//! counts those calls are given.

use crate::align::align_to;
use crate::align::is_power_of_two;
use crate::align::is_power_of_two_usize;
use crate::align::spec_align_up;
use crate::parse::parse_hugepage_size;
use crate::parse::spec_parse_hugepage_size;
use vstd::prelude::*;

verus! {

/// Allocates by mapping anonymous huge-page-backed regions, one region per
/// request.
///
/// The granularity is the huge-page size in bytes, or a non-positive
/// sentinel when it could not be resolved.  It is fixed at construction
/// time; the allocator keeps no other state and no per-allocation
/// bookkeeping.
pub struct HugePageAllocator {
    granularity: isize,
}

impl HugePageAllocator {
    /// The huge-page granularity in bytes; not positive when unresolved.
    pub closed spec fn spec_granularity(&self) -> int {
        self.granularity as int
    }

    /// The allocator can round requests: the granularity was resolved and
    /// is a positive power of two.
    pub open spec fn has_usable_granularity(&self) -> bool {
        self.spec_granularity() > 0 && is_power_of_two(self.spec_granularity())
    }

    /// An allocator with the given granularity.
    pub fn new(granularity: isize) -> (a: HugePageAllocator)
        ensures
            a.spec_granularity() == granularity as int,
    {
        HugePageAllocator { granularity }
    }

    /// The granularity this allocator rounds to.
    pub fn granularity(&self) -> (g: isize)
        ensures
            g as int == self.spec_granularity(),
    {
        self.granularity
    }

    /// The exact number of bytes to map for a request of `size` bytes: the
    /// request rounded up to the granularity.
    ///
    /// Returns `None` — a clean allocation failure, the hard-failure policy
    /// for a degenerate configuration — when the granularity is unresolved
    /// or not a positive power of two, or when the rounded size does not
    /// fit in `usize`.  A caller that deallocates must pass the returned
    /// length, not the requested one: the region is mapped with exactly
    /// this many bytes.
    pub fn mapping_len(&self, size: usize) -> (r: Option<usize>)
        ensures
            match r {
                Some(len) => self.has_usable_granularity() && size as int
                    + self.spec_granularity() - 1 <= usize::MAX as int && len as int
                    == spec_align_up(size as int, self.spec_granularity()),
                None => !self.has_usable_granularity() || size as int + self.spec_granularity()
                    - 1 > usize::MAX as int,
            },
    {
        if self.granularity <= 0 {
            return None;
        }
        let g = self.granularity as usize;
        if !is_power_of_two_usize(g) {
            return None;
        }
        if size > usize::MAX - (g - 1) {
            return None;
        }
        Some(align_to(size, g))
    }
}

/// Builds the allocator a process uses by default: its granularity is read
/// out of the given configuration report, and is the parse sentinel `-1`
/// when the report (empty when missing or unreadable) holds no usable
/// `Hugepagesize:` line.
pub fn default_allocator(report: &str) -> (a: HugePageAllocator)
    ensures
        a.spec_granularity() == spec_parse_hugepage_size(report@),
{
    HugePageAllocator::new(parse_hugepage_size(report))
}

/// Model of the operating system's mapping state: each mapped region's base
/// address paired with its length.  Mapping a fresh region adds the pair.
pub open spec fn map_region(regions: Map<int, int>, addr: int, len: int) -> Map<int, int> {
    regions.insert(addr, len)
}

/// Unmapping removes the region at the given base address.
pub open spec fn unmap_region(regions: Map<int, int>, addr: int) -> Map<int, int> {
    regions.remove(addr)
}

/// A successful allocation followed by a deallocation of the same region
/// leaves the mapping state exactly as it was: paired allocate/deallocate
/// cycles leak nothing, however often they are repeated.
pub proof fn lemma_alloc_dealloc_round_trip(regions: Map<int, int>, addr: int, len: int)
    requires
        !regions.dom().contains(addr),
    ensures
        unmap_region(map_region(regions, addr, len), addr) == regions,
{
    assert(unmap_region(map_region(regions, addr, len), addr) =~= regions);
}

} // verus!
