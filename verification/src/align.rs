//! Alignment arithmetic: rounding a requested byte count up to the next
//! multiple of an alignment.

use vstd::prelude::*;

verus! {

/// A positive integer that is a power of two: 1, 2, 4, 8, ...
pub open spec fn is_power_of_two(n: int) -> bool
    decreases n,
{
    if n <= 0 {
        false
    } else if n == 1 {
        true
    } else {
        n % 2 == 0 && is_power_of_two(n / 2)
    }
}

/// The smallest multiple of `align` that is at least `size`.
pub open spec fn spec_align_up(size: int, align: int) -> int {
    ((size + align - 1) / align) * align
}

/// Runtime check that `n` is a positive power of two.
pub fn is_power_of_two_usize(n: usize) -> (b: bool)
    ensures
        b == is_power_of_two(n as int),
{
    if n == 0 {
        return false;
    }
    let mut m: usize = n;
    while m > 1 && m % 2 == 0
        invariant
            m >= 1,
            is_power_of_two(n as int) == is_power_of_two(m as int),
        decreases m,
    {
        m = m / 2;
    }
    m == 1
}

/// Rounds `size` up to the next multiple of `align`.
///
/// The alignment must be a positive power of two and the rounded value must
/// fit in `usize`; under those preconditions the result is the smallest
/// multiple of `align` that is at least `size`.
pub fn align_to(size: usize, align: usize) -> (r: usize)
    requires
        is_power_of_two(align as int),
        size + align - 1 <= usize::MAX,
    ensures
        r as int == spec_align_up(size as int, align as int),
        r as int % align as int == 0,
        r >= size,
        (r as int) < size as int + align as int,
{
    proof {
        lemma_power_of_two_pos(align as int);
        lemma_align_up_properties(size as int, align as int);
    }
    let q = (size + (align - 1)) / align;
    q * align
}

proof fn lemma_power_of_two_pos(n: int)
    requires
        is_power_of_two(n),
    ensures
        n >= 1,
{
}

/// The rounded value is a multiple of the alignment, is at least `size`,
/// and overshoots by less than one alignment unit.
pub proof fn lemma_align_up_properties(size: int, align: int)
    requires
        size >= 0,
        align >= 1,
    ensures
        spec_align_up(size, align) % align == 0,
        spec_align_up(size, align) >= size,
        spec_align_up(size, align) < size + align,
{
    let q = (size + align - 1) / align;
    let rem = (size + align - 1) % align;
    vstd::arithmetic::div_mod::lemma_fundamental_div_mod(size + align - 1, align);
    vstd::arithmetic::div_mod::lemma_mod_bound(size + align - 1, align);
    assert(q * align == size + align - 1 - rem);
    vstd::arithmetic::div_mod::lemma_mod_multiples_basic(q, align);
    assert((q * align) % align == 0);
}

} // verus!
