//! Integer arithmetic shared by the distance and cost computations.

use vstd::prelude::*;

verus! {

/// The square of an integer.
pub open spec fn square(a: int) -> int {
    a * a
}

/// `r` is the integer square root of `n`: the largest natural number whose
/// square does not exceed `n`.
pub open spec fn is_floor_root(n: int, r: int) -> bool {
    0 <= r && r * r <= n && n < (r + 1) * (r + 1)
}

/// The integer square root of a natural number.
pub open spec fn floor_root(n: int) -> int {
    choose|r: int| is_floor_root(n, r)
}

/// Squaring is monotone on the natural numbers.
pub proof fn lemma_square_monotone(a: int, b: int)
    requires
        0 <= a <= b,
    ensures
        a * a <= b * b,
{
    assert(a * a <= b * b) by (nonlinear_arith)
        requires
            0 <= a <= b,
    ;
}

/// A number has at most one integer square root.
pub proof fn lemma_floor_root_unique(n: int, r: int, s: int)
    requires
        is_floor_root(n, r),
        is_floor_root(n, s),
    ensures
        r == s,
{
    if r < s {
        lemma_square_monotone(r + 1, s);
    } else if s < r {
        lemma_square_monotone(s + 1, r);
    }
}

/// Whoever exhibits an integer square root of `n` knows `floor_root(n)`.
pub proof fn lemma_floor_root_is(n: int, r: int)
    requires
        is_floor_root(n, r),
    ensures
        floor_root(n) == r,
{
    lemma_floor_root_unique(n, r, floor_root(n));
}

/// Every natural number has an integer square root, and `floor_root` is it.
pub proof fn lemma_floor_root_exists(n: int)
    requires
        0 <= n,
    ensures
        is_floor_root(n, floor_root(n)),
    decreases n,
{
    if n == 0 {
        assert(is_floor_root(0, 0));
    } else {
        lemma_floor_root_exists(n - 1);
        let r = floor_root(n - 1);
        assert((r + 1) * (r + 1) == r * r + 2 * r + 1) by (nonlinear_arith);
        assert((r + 2) * (r + 2) == r * r + 4 * r + 4) by (nonlinear_arith);
        if (r + 1) * (r + 1) <= n {
            assert(is_floor_root(n, r + 1));
        } else {
            assert(is_floor_root(n, r));
        }
    }
}

/// The integer square root of a number below `bound * bound` is below
/// `bound`.
pub proof fn lemma_floor_root_below(n: int, bound: int)
    requires
        0 <= n < bound * bound,
        0 <= bound,
    ensures
        0 <= floor_root(n) < bound,
{
    lemma_floor_root_exists(n);
    if floor_root(n) >= bound {
        lemma_square_monotone(bound, floor_root(n));
    }
}

/// Computes the integer square root by bisection.
pub fn int_sqrt(n: u128) -> (r: u64)
    ensures
        is_floor_root(n as int, r as int),
        r as int == floor_root(n as int),
{
    let mut lo: u128 = 0;
    let mut hi: u128 = 0x1_0000_0000_0000_0000;
    assert(0x1_0000_0000_0000_0000int * 0x1_0000_0000_0000_0000int > u128::MAX);
    while hi - lo > 1
        invariant
            lo < hi <= 0x1_0000_0000_0000_0000,
            lo * lo <= n,
            n < hi * hi,
        decreases hi - lo,
    {
        let mid: u128 = lo + (hi - lo) / 2;
        assert(mid * mid <= 0xffff_ffff_ffff_ffffint * 0xffff_ffff_ffff_ffffint) by (nonlinear_arith)
            requires
                0 <= mid <= 0xffff_ffff_ffff_ffffint,
        ;
        assert(0xffff_ffff_ffff_ffffint * 0xffff_ffff_ffff_ffffint <= u128::MAX);
        if mid * mid <= n {
            lo = mid;
        } else {
            hi = mid;
        }
    }
    proof {
        assert(hi == lo + 1);
        lemma_floor_root_is(n as int, lo as int);
    }
    lo as u64
}

} // verus!
