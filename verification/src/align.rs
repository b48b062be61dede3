//! Alignment arithmetic shared by every part of the format.
use vstd::prelude::*;

verus! {

/// NFL on-disk alignment for segment boundaries and mmap regions.
pub const SEGMENT_ALIGNMENT: usize = 4096;

/// The least multiple of `alignment` that is at least `value`.
pub open spec fn spec_align_up(value: u64, alignment: u64) -> int {
    ((value + alignment - 1) / alignment as int) * alignment
}

/// `value` is a multiple of `alignment` (and `alignment` is not zero).
pub open spec fn spec_is_aligned(value: u64, alignment: u64) -> bool {
    alignment != 0 && value % alignment == 0
}

/// Align `value` up to `alignment`: the least multiple of `alignment` that is
/// at least `value`.
pub fn align_up(value: u64, alignment: u64) -> (r: u64)
    requires
        alignment >= 1,
        value + (alignment - 1) <= u64::MAX,
    ensures
        r == spec_align_up(value, alignment),
        r % alignment == 0,
        value <= r,
        r < value + alignment,
{
    let bumped = value + (alignment - 1);
    let quotient = bumped / alignment;
    proof {
        lemma_align_up_bounds(value, alignment);
        assert(quotient * alignment <= bumped) by (nonlinear_arith)
            requires
                quotient == bumped / alignment,
                alignment >= 1,
        ;
    }
    quotient * alignment
}

/// Returns true when `value` is a multiple of `alignment`.
pub fn is_aligned(value: u64, alignment: u64) -> (r: bool)
    ensures
        r == spec_is_aligned(value, alignment),
{
    alignment != 0 && value % alignment == 0
}

/// Rounding up gives a multiple of the alignment, not below the value and
/// less than one alignment above it.
pub proof fn lemma_align_up_bounds(value: u64, alignment: u64)
    requires
        alignment >= 1,
        value + (alignment - 1) <= u64::MAX,
    ensures
        spec_align_up(value, alignment) % alignment as int == 0,
        value <= spec_align_up(value, alignment),
        spec_align_up(value, alignment) < value + alignment,
{
    let b: int = value + alignment - 1;
    let a: int = alignment as int;
    let q: int = b / a;
    let r: int = q * a;
    assert(r % a == 0) by (nonlinear_arith)
        requires
            r == q * a,
            a >= 1,
    ;
    assert(b - a < r <= b) by (nonlinear_arith)
        requires
            q == b / a,
            r == q * a,
            a >= 1,
            b >= 0,
    ;
}

/// Rounding up always gives an aligned value, and leaves a value that is
/// already aligned unchanged.
pub proof fn law_align_up_is_aligned(value: u64, alignment: u64)
    requires
        alignment >= 1,
        value + (alignment - 1) <= u64::MAX,
    ensures
        spec_is_aligned(spec_align_up(value, alignment) as u64, alignment),
        spec_is_aligned(value, alignment) ==> spec_align_up(value, alignment) == value,
{
    let r = spec_align_up(value, alignment);
    lemma_align_up_bounds(value, alignment);
    if spec_is_aligned(value, alignment) {
        assert(r == value) by (nonlinear_arith)
            requires
                r % (alignment as int) == 0,
                value % alignment == 0,
                value <= r < value + alignment,
                alignment > 0,
        ;
    }
}

} // verus!
