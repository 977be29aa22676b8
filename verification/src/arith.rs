//! Integer square roots rounded to the nearest integer, the metric that the
//! circle rasterizer's membership test is built on.

use vstd::prelude::*;

verus! {

pub open spec fn sq(n: int) -> int {
    n * n
}

/// `k` is the square root of `n` rounded to the nearest integer (ties go up):
/// `k - 1/2 <= sqrt(n) < k + 1/2`, stated over integers by multiplying
/// through by 2 and squaring.
pub open spec fn is_rounded_sqrt(n: int, k: int) -> bool {
    &&& 0 <= k
    &&& 4 * n < sq(2 * k + 1)
    &&& (k == 0 || sq(2 * k - 1) <= 4 * n)
}

/// No integer above `m` can be the rounded square root of `n` when `4n`
/// stays under `sq(2m + 1)`.
pub proof fn lemma_rounded_sqrt_le(n: int, k: int, m: int)
    requires
        is_rounded_sqrt(n, k),
        0 <= m,
        4 * n < sq(2 * m + 1),
    ensures
        k <= m,
{
    if k > m {
        assert(sq(2 * m + 1) <= sq(2 * k - 1)) by (nonlinear_arith)
            requires
                0 <= m,
                m < k,
        ;
        assert(false);
    }
}

/// A number beyond the largest representable rounded square has no rounded
/// square root within the `i32` range.
pub proof fn lemma_rounded_sqrt_big(n: int, r: int)
    requires
        0 <= r <= 0x7fff_ffff,
        n > 0x7fff_ffff * 0x8000_0000,
    ensures
        !is_rounded_sqrt(n, r),
{
    assert((2 * r + 1) * (2 * r + 1) <= 0xffff_ffff * 0xffff_ffff) by (nonlinear_arith)
        requires
            0 <= r <= 0x7fff_ffff,
    ;
    assert(sq(2 * r + 1) <= 0xffff_ffff * 0xffff_ffff);
    assert(4 * n >= 0xffff_ffff * 0xffff_ffff + 3);
}

/// A number has at most one rounded square root.
pub proof fn lemma_rounded_sqrt_unique(n: int, k1: int, k2: int)
    requires
        is_rounded_sqrt(n, k1),
        is_rounded_sqrt(n, k2),
    ensures
        k1 == k2,
{
    lemma_rounded_sqrt_le(n, k1, k2);
    lemma_rounded_sqrt_le(n, k2, k1);
}

/// Largest integer whose square does not exceed `n`, by binary search.
fn floor_sqrt(n: u128) -> (s: u128)
    ensures
        (s as int) * (s as int) <= n as int,
        (n as int) < (s as int + 1) * (s as int + 1),
{
    let mut lo: u128 = 0;
    let mut hi: u128 = 1u128 << 64;
    proof {
        assert(1u128 << 64 == 0x1_0000_0000_0000_0000u128) by (bit_vector);
    }
    while hi - lo > 1
        invariant
            lo < hi,
            hi as int <= 0x1_0000_0000_0000_0000,
            (lo as int) * (lo as int) <= n as int,
            (n as int) < (hi as int) * (hi as int),
        decreases hi - lo,
    {
        let mid: u128 = lo + (hi - lo) / 2;
        assert((mid as int) * (mid as int) <= u128::MAX as int) by (nonlinear_arith)
            requires
                0 <= mid as int <= 0xffff_ffff_ffff_ffff,
        ;
        if mid * mid <= n {
            lo = mid;
        } else {
            hi = mid;
        }
    }
    lo
}

/// Square root of `n` rounded to the nearest integer, rounding ties up.
pub fn rounded_sqrt(n: u128) -> (r: u128)
    ensures
        is_rounded_sqrt(n as int, r as int),
{
    let s: u128 = floor_sqrt(n);
    assert(s as int <= 0xffff_ffff_ffff_ffff) by (nonlinear_arith)
        requires
            (s as int) * (s as int) <= n as int,
            n as int <= u128::MAX as int,
    ;
    if n - s * s > s {
        proof {
            assert(is_rounded_sqrt(n as int, s as int + 1)) by (nonlinear_arith)
                requires
                    0 <= s as int,
                    (s as int) * (s as int) + (s as int) < n as int,
                    (n as int) < (s as int + 1) * (s as int + 1),
            ;
        }
        s + 1
    } else {
        proof {
            assert(is_rounded_sqrt(n as int, s as int)) by (nonlinear_arith)
                requires
                    0 <= s as int,
                    (s as int) * (s as int) <= n as int,
                    n as int <= (s as int) * (s as int) + (s as int),
            ;
        }
        s
    }
}

} // verus!
