//! Alignment arithmetic shared by the whole crate.

use vstd::prelude::*;
use vstd::arithmetic::power2::is_pow2;

verus! {

/// `value` rounded down to a multiple of `alignment`.
pub open spec fn align_down_spec(value: int, alignment: int) -> int {
    value - value % alignment
}

/// `value` rounded up to a multiple of `alignment`.
pub open spec fn align_up_spec(value: int, alignment: int) -> int {
    align_down_spec(value + alignment - 1, alignment)
}

/// Whether `value` is a multiple of `alignment`.
pub open spec fn is_aligned_spec(value: int, alignment: int) -> bool {
    value % alignment == 0
}

/// Every power of two is positive.
pub proof fn lemma_pow2_positive(n: int)
    requires
        is_pow2(n),
    ensures
        n > 0,
{
    reveal(is_pow2);
}

/// Rounding up lands on a multiple of the alignment that is at least `value`
/// and less than one alignment step above it.
pub proof fn lemma_align_up_bounds(value: int, alignment: int)
    requires
        value >= 0,
        alignment > 0,
    ensures
        value <= align_up_spec(value, alignment) < value + alignment,
        align_up_spec(value, alignment) % alignment == 0,
        value % alignment == 0 ==> align_up_spec(value, alignment) == value,
        value % alignment != 0 ==> align_up_spec(value, alignment) == value - value % alignment
            + alignment,
{
    let r = value % alignment;
    let q = value / alignment;
    vstd::arithmetic::div_mod::lemma_fundamental_div_mod(value, alignment);
    vstd::arithmetic::div_mod::lemma_mod_bound(value, alignment);
    let w = value + alignment - 1;
    vstd::arithmetic::div_mod::lemma_mod_bound(w, alignment);
    if r == 0 {
        // w = q * alignment + (alignment - 1)
        vstd::arithmetic::div_mod::lemma_fundamental_div_mod_converse(
            w,
            alignment,
            q,
            alignment - 1,
        );
        vstd::arithmetic::div_mod::lemma_fundamental_div_mod_converse(value, alignment, q, 0);
    } else {
        // w = (q + 1) * alignment + (r - 1)
        assert((q + 1) * alignment == q * alignment + alignment) by (nonlinear_arith);
        vstd::arithmetic::div_mod::lemma_fundamental_div_mod_converse(
            w,
            alignment,
            q + 1,
            r - 1,
        );
        vstd::arithmetic::div_mod::lemma_fundamental_div_mod_converse(
            value - r + alignment,
            alignment,
            q + 1,
            0,
        );
    }
}

/// Rounding down lands on the largest multiple of the alignment below or at
/// `value`.
pub proof fn lemma_align_down_bounds(value: int, alignment: int)
    requires
        value >= 0,
        alignment > 0,
    ensures
        value - alignment < align_down_spec(value, alignment) <= value,
        align_down_spec(value, alignment) % alignment == 0,
        align_down_spec(value, alignment) >= 0,
{
    let r = value % alignment;
    let q = value / alignment;
    vstd::arithmetic::div_mod::lemma_fundamental_div_mod(value, alignment);
    vstd::arithmetic::div_mod::lemma_mod_bound(value, alignment);
    vstd::arithmetic::div_mod::lemma_fundamental_div_mod_converse(value - r, alignment, q, 0);
    assert(q >= 0) by (nonlinear_arith)
        requires
            value >= 0,
            alignment > 0,
            q == value / alignment,
    ;
    assert(q * alignment >= 0) by (nonlinear_arith)
        requires
            q >= 0,
            alignment > 0,
    ;
}

/// Tells whether `value` is a multiple of `alignment`, a power of two.
pub fn is_aligned(value: usize, alignment: usize) -> (r: bool)
    requires
        is_pow2(alignment as int),
    ensures
        r == is_aligned_spec(value as int, alignment as int),
{
    proof {
        lemma_pow2_positive(alignment as int);
    }
    value % alignment == 0
}

/// Rounds `value` down to a multiple of `alignment`, a power of two.
pub fn align_down(value: usize, alignment: usize) -> (r: usize)
    requires
        is_pow2(alignment as int),
    ensures
        r == align_down_spec(value as int, alignment as int),
        r <= value,
        r as int % alignment as int == 0,
{
    proof {
        lemma_pow2_positive(alignment as int);
        lemma_align_down_bounds(value as int, alignment as int);
    }
    value - value % alignment
}

/// Rounds `value` up to a multiple of `alignment`, a power of two. The result
/// has to fit the machine word.
pub fn align_up(value: usize, alignment: usize) -> (r: usize)
    requires
        is_pow2(alignment as int),
        align_up_spec(value as int, alignment as int) <= usize::MAX,
    ensures
        r == align_up_spec(value as int, alignment as int),
        r >= value,
        r as int % alignment as int == 0,
{
    proof {
        lemma_pow2_positive(alignment as int);
        lemma_align_up_bounds(value as int, alignment as int);
        lemma_align_down_bounds(value as int, alignment as int);
    }
    let rest = value % alignment;
    if rest == 0 {
        value
    } else {
        value - rest + alignment
    }
}

} // verus!
