//! A pointer-style owning handle for one value in huge-page-backed storage.
//!
//! The handle owns exactly one value together with the layout descriptor —
//! size and alignment of one `T` — of the region that stores it.  The
//! allocator contract demands that a region be released with the same
//! descriptor it was acquired with; the handle records that descriptor at
//! construction and hands it back, unchanged, at release, so a paired
//! acquire/release can never disagree.  The operating-system region calls
//! themselves are made by the embedding program, which drives them with
//! exactly these descriptors.

use vstd::layout::align_of;
use vstd::layout::size_of;
use vstd::prelude::*;

verus! {

/// An exclusively owned single-value handle.
///
/// Ownership is move-only: releasing consumes the handle, so a value can be
/// released at most once, and a moved handle releases only at its final
/// owner.
pub struct Box<T> {
    value: T,
    region_size: usize,
    region_align: usize,
}

impl<T> View for Box<T> {
    type V = T;

    closed spec fn view(&self) -> T {
        self.value
    }
}

impl<T> Box<T> {
    /// The recorded layout descriptor is the layout of one `T`: what the
    /// backing region was sized with, and what its release must use.
    pub closed spec fn wf(&self) -> bool {
        self.region_size as nat == size_of::<T>() && self.region_align as nat == align_of::<T>()
    }

    /// Takes ownership of `data` and places it in a region sized and
    /// aligned for exactly one `T`.
    pub fn new(data: T) -> (b: Box<T>)
        ensures
            b@ == data,
            b.wf(),
    {
        let region_size = core::mem::size_of::<T>();
        let region_align = core::mem::align_of::<T>();
        Box { value: data, region_size, region_align }
    }

    /// Read access to the contained value.
    pub fn get(&self) -> (r: &T)
        ensures
            *r == self@,
    {
        &self.value
    }

    /// Write access: replaces the contained value in place.  The layout
    /// descriptor is untouched.
    pub fn set(&mut self, data: T)
        ensures
            final(self)@ == data,
            final(self).wf() == old(self).wf(),
    {
        self.value = data;
    }

    /// The layout descriptor the region was created with; a release must
    /// pass exactly this (size, alignment) pair to the allocator.
    pub fn region_layout(&self) -> (r: (usize, usize))
        requires
            self.wf(),
        ensures
            r.0 as nat == size_of::<T>(),
            r.1 as nat == align_of::<T>(),
    {
        (self.region_size, self.region_align)
    }

    /// Releases the handle: the contained value is handed back and the
    /// handle is consumed, so the backing region is given up exactly once.
    pub fn into_inner(self) -> (r: T)
        ensures
            r == self@,
    {
        self.value
    }
}

} // verus!
